use image::DynamicImage;
use lru::LruCache;
use vstd::prelude::*;

verus! {

/// The LRU cache of the `lru` crate.
#[verifier::external_type_specification]
#[verifier::external_body]
#[verifier::reject_recursive_types(K)]
#[verifier::reject_recursive_types(V)]
#[verifier::reject_recursive_types(S)]
pub struct ExLruCache<K, V, S>(LruCache<K, V, S>);

/// The hasher that the cache's map is built with.
#[verifier::external_type_specification]
#[verifier::external_body]
pub struct ExDefaultHasher(lru::DefaultHasher);

/// The keys held by an `lru::LruCache`, most recently used first.
pub uninterp spec fn lru_keys(c: LruCache<usize, DynamicImage>) -> Seq<usize>;

/// The images held by an `lru::LruCache`, by key.
pub uninterp spec fn lru_images(c: LruCache<usize, DynamicImage>) -> Map<usize, DynamicImage>;

/// The capacity an `lru::LruCache` was made with.
pub uninterp spec fn lru_capacity(c: LruCache<usize, DynamicImage>) -> nat;

/// `keys` without `k`, the others in their order.
pub open spec fn without(keys: Seq<usize>, k: usize) -> Seq<usize>
    decreases keys.len(),
{
    if keys.len() == 0 {
        keys
    } else if keys.last() == k {
        without(keys.drop_last(), k)
    } else {
        without(keys.drop_last(), k).push(keys.last())
    }
}

/// Calls `LruCache::new` with capacity `cap`: an empty cache of that capacity.
#[verifier::external_body]
fn lru_new(cap: usize) -> (c: LruCache<usize, DynamicImage>)
    requires
        cap >= 1,
    ensures
        lru_keys(c) == Seq::<usize>::empty(),
        lru_images(c).dom() == Set::<usize>::empty(),
        lru_capacity(c) == cap,
{
    LruCache::new(std::num::NonZeroUsize::new(cap).unwrap())
}

/// Calls `LruCache::put`.  As its source shows: a key already present gets the
/// new value and moves to the front, and the old value is returned; a new key
/// goes to the front, after the least recently used key (the last) is
/// evicted with its value when the cache holds as many keys as its capacity.
/// Every other key keeps its value.
#[verifier::external_body]
fn lru_put(c: &mut LruCache<usize, DynamicImage>, k: usize, v: DynamicImage) -> (r: Option<
    DynamicImage,
>)
    ensures
        lru_capacity(*final(c)) == lru_capacity(*old(c)),
        lru_keys(*old(c)).contains(k) ==> r == Some(lru_images(*old(c))[k]) && lru_keys(*final(c))
            == seq![k] + without(lru_keys(*old(c)), k),
        lru_keys(*old(c)).contains(k) ==> lru_images(*final(c)) == lru_images(*old(c)).insert(k, v),
        !lru_keys(*old(c)).contains(k) ==> r is None,
        !lru_keys(*old(c)).contains(k) && lru_keys(*old(c)).len() == lru_capacity(*old(c))
            ==> lru_keys(*final(c)) == seq![k] + lru_keys(*old(c)).drop_last() && lru_images(
            *final(c),
        ) == lru_images(*old(c)).remove(lru_keys(*old(c)).last()).insert(k, v),
        !lru_keys(*old(c)).contains(k) && lru_keys(*old(c)).len() != lru_capacity(*old(c))
            ==> lru_keys(*final(c)) == seq![k] + lru_keys(*old(c)) && lru_images(*final(c))
            == lru_images(*old(c)).insert(k, v),
{
    c.put(k, v)
}

/// Calls `LruCache::get`: the value of a present key, which moves to the
/// front; `None` and no change for an absent key.  The values stay as they
/// are.
#[verifier::external_body]
fn lru_get(c: &mut LruCache<usize, DynamicImage>, k: usize) -> (r: Option<&DynamicImage>)
    ensures
        lru_capacity(*final(c)) == lru_capacity(*old(c)),
        lru_images(*final(c)) == lru_images(*old(c)),
        lru_keys(*old(c)).contains(k) ==> (r matches Some(img) && *img == lru_images(*old(c))[k]),
        lru_keys(*old(c)).contains(k) ==> lru_keys(*final(c)) == seq![k] + without(
            lru_keys(*old(c)),
            k,
        ),
        !lru_keys(*old(c)).contains(k) ==> r is None && lru_keys(*final(c)) == lru_keys(*old(c)),
{
    c.get(&k)
}

/// Calls `LruCache::len`: the number of keys held.
#[verifier::external_body]
fn lru_len(c: &LruCache<usize, DynamicImage>) -> (r: usize)
    ensures
        r == lru_keys(*c).len(),
{
    c.len()
}

/// Calls `LruCache::is_empty`: whether no key is held.
#[verifier::external_body]
fn lru_is_empty(c: &LruCache<usize, DynamicImage>) -> (r: bool)
    ensures
        r == (lru_keys(*c).len() == 0),
{
    c.is_empty()
}

/// Page indices cached after `index` is inserted into a cache holding `keys`
/// (most recently used first) with room for `cap` pages.
pub open spec fn after_insert(keys: Seq<usize>, cap: nat, index: usize) -> Seq<usize> {
    seq![index] + if keys.contains(index) {
        without(keys, index)
    } else if keys.len() == cap {
        keys.drop_last()
    } else {
        keys
    }
}

/// Images cached after `img` is inserted for `index` into a cache holding
/// `images` for the indices `keys` (most recently used first) with room for
/// `cap` pages: the image of the least recently used page leaves when a new
/// index finds the cache full.
pub open spec fn images_after_insert(
    images: Map<usize, DynamicImage>,
    keys: Seq<usize>,
    cap: nat,
    index: usize,
    img: DynamicImage,
) -> Map<usize, DynamicImage> {
    if !keys.contains(index) && keys.len() == cap {
        images.remove(keys.last()).insert(index, img)
    } else {
        images.insert(index, img)
    }
}

/// Number of decoded pages kept by default.
pub const DEFAULT_CACHE_SIZE: usize = 50;

/// Decoded pages by page index, the least recently used dropped first.
pub struct ImageCache {
    inner: LruCache<usize, DynamicImage>,
}

impl View for ImageCache {
    /// Cached page indices, most recently used first.
    type V = Seq<usize>;

    closed spec fn view(&self) -> Seq<usize> {
        lru_keys(self.inner)
    }
}

/// Removing a key absent from a sequence leaves it unchanged; removing a
/// present key of a sequence without duplicates shortens it by one.
proof fn lemma_without(keys: Seq<usize>, k: usize)
    requires
        keys.no_duplicates(),
    ensures
        without(keys, k).no_duplicates(),
        !without(keys, k).contains(k),
        forall|x: usize| x != k ==> (without(keys, k).contains(x) <==> keys.contains(x)),
        keys.contains(k) ==> without(keys, k).len() == keys.len() - 1,
        !keys.contains(k) ==> without(keys, k) == keys,
    decreases keys.len(),
{
    if keys.len() > 0 {
        let init = keys.drop_last();
        assert(init.no_duplicates());
        lemma_without(init, k);
        assert(keys =~= init.push(keys.last()));
        if keys.last() == k {
            assert(!init.contains(k)) by {
                if init.contains(k) {
                    let i = choose|i: int| 0 <= i < init.len() && init[i] == k;
                    assert(keys[i] == keys[keys.len() - 1]);
                }
            }
        }
        let w = without(keys, k);
        assert forall|i: int, j: int| 0 <= i < j < w.len() implies w[i] != w[j] by {
            if keys.last() != k && j == w.len() - 1 {
                assert(w[j] == keys.last());
                assert(w[i] == without(init, k)[i]);
                assert(without(init, k).contains(w[i]));
                assert(init.contains(w[i]));
                if w[i] == w[j] {
                    let m = choose|m: int| 0 <= m < init.len() && init[m] == w[i];
                    assert(keys[m] == keys[keys.len() - 1]);
                }
            } else {
                assert(w[i] == without(init, k)[i]);
                assert(w[j] == without(init, k)[j]);
            }
        }
        assert forall|x: usize| x != k implies (without(keys, k).contains(x) <==> keys.contains(x)) by {
            if keys.contains(x) && x != keys.last() {
                let m = choose|m: int| 0 <= m < keys.len() && keys[m] == x;
                assert(m < keys.len() - 1);
                assert(init[m] == x);
                assert(init.contains(x));
                assert(without(init, k).contains(x));
                let j = choose|j: int| 0 <= j < without(init, k).len() && without(init, k)[j] == x;
                assert(w[j] == x);
            }
            if without(keys, k).contains(x) && x != keys.last() {
                let j = choose|j: int| 0 <= j < w.len() && w[j] == x;
                assert(without(init, k)[j] == x);
                assert(init.contains(x));
                let m = choose|m: int| 0 <= m < init.len() && init[m] == x;
                assert(keys[m] == x);
            }
            if x == keys.last() {
                assert(w[w.len() - 1] == x);
                assert(keys[keys.len() - 1] == x);
            }
        }
        if !keys.contains(k) {
            assert(!init.contains(k)) by {
                if init.contains(k) {
                    let m = choose|m: int| 0 <= m < init.len() && init[m] == k;
                    assert(keys[m] == k);
                }
            }
            assert(keys.last() != k) by {
                assert(keys[keys.len() - 1] == keys.last());
            }
        }
        if keys.contains(k) && keys.last() != k {
            assert(init.contains(k)) by {
                let m = choose|m: int| 0 <= m < keys.len() && keys[m] == k;
                assert(init[m] == k);
            }
        }
        assert(!w.contains(k)) by {
            if w.contains(k) {
                let j = choose|j: int| 0 <= j < w.len() && w[j] == k;
                if keys.last() != k && j == w.len() - 1 {
                } else {
                    assert(without(init, k)[j] == k);
                }
            }
        }
    }
}

impl ImageCache {
    /// How many pages the cache holds at most.
    pub closed spec fn capacity(&self) -> nat {
        lru_capacity(self.inner)
    }

    /// The image cached for each cached page index.
    pub closed spec fn images(&self) -> Map<usize, DynamicImage> {
        lru_images(self.inner)
    }

    /// The cache holds each index once, no more than its capacity, and an
    /// image for exactly the cached indices.
    pub closed spec fn wf(&self) -> bool {
        &&& lru_keys(self.inner).no_duplicates()
        &&& lru_keys(self.inner).len() <= lru_capacity(self.inner)
        &&& lru_capacity(self.inner) >= 1
        &&& forall|k: usize|
            #[trigger] lru_images(self.inner).dom().contains(k) <==> lru_keys(self.inner).contains(k)
    }

    /// An empty cache holding at most `capacity` pages (at least one).
    pub fn new(capacity: usize) -> (r: Self)
        ensures
            r.wf(),
            r@ == Seq::<usize>::empty(),
            r.images() == Map::<usize, DynamicImage>::empty(),
            r.capacity() == if capacity == 0 {
                1
            } else {
                capacity
            },
    {
        let cap = if capacity == 0 {
            1
        } else {
            capacity
        };
        let r = ImageCache { inner: lru_new(cap) };
        assert(lru_images(r.inner) =~= Map::<usize, DynamicImage>::empty());
        r
    }

    /// The cached image of page `index`, which becomes the most recently used.
    pub fn get(&mut self, index: usize) -> (r: Option<&DynamicImage>)
        requires
            old(self).wf(),
        ensures
            final(self).wf(),
            final(self).capacity() == old(self).capacity(),
            final(self).images() == old(self).images(),
            r is Some <==> old(self)@.contains(index),
            r matches Some(img) ==> *img == old(self).images()[index],
            old(self)@.contains(index) ==> final(self)@ == seq![index] + without(old(self)@, index),
            !old(self)@.contains(index) ==> final(self)@ == old(self)@,
    {
        let ghost keys = lru_keys(self.inner);
        proof {
            lemma_without(keys, index);
        }
        proof {
            if keys.contains(index) {
                let rest = without(keys, index);
                let nk = seq![index] + rest;
                assert forall|k: usize| nk.contains(k) <==> keys.contains(k) by {
                    if k == index {
                        assert(nk[0] == index);
                    } else {
                        if nk.contains(k) {
                            let j = choose|j: int| 0 <= j < nk.len() && nk[j] == k;
                            assert(rest[j - 1] == k);
                        }
                        if rest.contains(k) {
                            let j = choose|j: int| 0 <= j < rest.len() && rest[j] == k;
                            assert(nk[j + 1] == k);
                        }
                    }
                }
            }
        }
        let r = lru_get(&mut self.inner, index);
        r
    }

    /// Caches the image of page `index` as the most recently used; when the
    /// cache is full, the least recently used page is dropped first.
    pub fn insert(&mut self, index: usize, img: DynamicImage)
        requires
            old(self).wf(),
        ensures
            final(self).wf(),
            final(self).capacity() == old(self).capacity(),
            final(self)@ == after_insert(old(self)@, old(self).capacity(), index),
            final(self).images() == images_after_insert(
                old(self).images(),
                old(self)@,
                old(self).capacity(),
                index,
                img,
            ),
            final(self).images()[index] == img,
            forall|k: usize|
                k != index && #[trigger] final(self)@.contains(k) ==> final(self).images()[k]
                    == old(self).images()[k],
    {
        let ghost keys = lru_keys(self.inner);
        let ghost imgs = lru_images(self.inner);
        proof {
            lemma_without(keys, index);
        }
        let _ = lru_put(&mut self.inner, index, img);
        proof {
            let nk = lru_keys(self.inner);
            let ni = lru_images(self.inner);
            let full = !keys.contains(index) && keys.len() == lru_capacity(self.inner);
            assert forall|k: usize| #[trigger] ni.dom().contains(k) <==> nk.contains(k) by {
                assert(nk[0] == index);
                if k != index {
                    if keys.contains(index) {
                        assert(nk.drop_first() =~= without(keys, index));
                    } else if full {
                        assert(nk.drop_first() =~= keys.drop_last());
                        if keys.contains(k) && k != keys.last() {
                            let m = choose|m: int| 0 <= m < keys.len() && keys[m] == k;
                            assert(m != keys.len() - 1);
                            assert(keys.drop_last()[m] == k);
                        }
                        if keys.drop_last().contains(k) {
                            let m = choose|m: int| 0 <= m < keys.drop_last().len() && keys.drop_last()[m] == k;
                            assert(keys[m] == k);
                            if k == keys.last() {
                                assert(keys[m] == keys[keys.len() - 1]);
                            }
                        }
                    } else {
                        assert(nk.drop_first() =~= keys);
                    }
                    if nk.contains(k) {
                        let j = choose|j: int| 0 <= j < nk.len() && nk[j] == k;
                        assert(nk.drop_first()[j - 1] == k);
                    }
                    if nk.drop_first().contains(k) {
                        let j = choose|j: int| 0 <= j < nk.drop_first().len() && nk.drop_first()[j] == k;
                        assert(nk[j + 1] == k);
                    }
                }
            }
            if !keys.contains(index) && keys.len() == lru_capacity(self.inner) {
                let d = keys.drop_last();
                assert forall|i: int, j: int| 0 <= i < j < d.len() implies d[i] != d[j] by {
                    assert(d[i] == keys[i] && d[j] == keys[j]);
                }
                assert forall|i: int| 0 <= i < d.len() implies d[i] != index by {
                    assert(d[i] == keys[i]);
                }
            }
            let rest = nk.drop_first();
            assert(nk == seq![index] + rest);
            assert(!rest.contains(index)) by {
                if rest.contains(index) {
                    let i = choose|i: int| 0 <= i < rest.len() && rest[i] == index;
                    if keys.contains(index) {
                        assert(rest =~= without(keys, index));
                    } else if keys.len() == lru_capacity(self.inner) {
                        assert(rest =~= keys.drop_last());
                        assert(keys[i] == index);
                    } else {
                        assert(rest =~= keys);
                        assert(keys[i] == index);
                    }
                }
            }
            assert forall|i: int, j: int| 0 <= i < j < nk.len() implies nk[i] != nk[j] by {
                if i == 0 {
                    assert(rest[j - 1] == nk[j]);
                } else {
                    assert(rest[i - 1] == nk[i] && rest[j - 1] == nk[j]);
                    if keys.contains(index) {
                        assert(rest =~= without(keys, index));
                    } else if keys.len() == lru_capacity(self.inner) {
                        assert(rest =~= keys.drop_last());
                        assert(keys[i - 1] == rest[i - 1] && keys[j - 1] == rest[j - 1]);
                    } else {
                        assert(rest =~= keys);
                    }
                }
            }
        }
    }

    /// Number of cached pages.
    pub fn len(&self) -> (r: usize)
        ensures
            r == self@.len(),
    {
        lru_len(&self.inner)
    }

    /// Whether no page is cached.
    pub fn is_empty(&self) -> (r: bool)
        ensures
            r == (self@.len() == 0),
    {
        lru_is_empty(&self.inner)
    }
}

impl Default for ImageCache {
    /// A cache of the default size.
    fn default() -> (r: Self)
        ensures
            r.wf(),
            r@ == Seq::<usize>::empty(),
            r.images() == Map::<usize, DynamicImage>::empty(),
            r.capacity() == DEFAULT_CACHE_SIZE,
    {
        Self::new(DEFAULT_CACHE_SIZE)
    }
}

/// Inserting a page caches it as the most recently used page, keeps every
/// other cached page but (when the cache is full) the least recently used,
/// and never makes the cache hold more than its capacity.
pub proof fn law_insert_caches(keys: Seq<usize>, cap: nat, index: usize)
    requires
        keys.no_duplicates(),
        keys.len() <= cap,
        cap >= 1,
    ensures
        after_insert(keys, cap, index)[0] == index,
        after_insert(keys, cap, index).contains(index),
        after_insert(keys, cap, index).len() <= cap,
        after_insert(keys, cap, index).no_duplicates(),
        forall|x: usize|
            keys.contains(x) && x != index && !(keys.len() == cap && !keys.contains(index)
                && x == keys.last()) ==> #[trigger] after_insert(keys, cap, index).contains(x),
        keys.len() == cap && !keys.contains(index) ==> !after_insert(keys, cap, index).contains(
            keys.last(),
        ),
{
    lemma_without(keys, index);
    let n = after_insert(keys, cap, index);
    let rest = n.drop_first();
    assert(n[0] == index);
    assert(n =~= seq![index] + rest);
    let full = keys.len() == cap && !keys.contains(index);
    assert forall|i: int| 0 <= i < rest.len() implies rest[i] != index && (forall|j: int| 0 <= j < rest.len() && j != i ==> rest[j] != rest[i]) by {
        if keys.contains(index) {
        } else if full {
            assert(rest[i] == keys[i]);
            assert forall|j: int| 0 <= j < rest.len() && j != i implies rest[j] != rest[i] by {
                assert(rest[j] == keys[j]);
            }
        } else {
            assert(rest[i] == keys[i]);
        }
    }
    assert forall|i: int, j: int| 0 <= i < j < n.len() implies n[i] != n[j] by {
        if i > 0 {
            assert(n[i] == rest[i - 1] && n[j] == rest[j - 1]);
        } else {
            assert(n[j] == rest[j - 1]);
        }
    }
    assert forall|x: usize| keys.contains(x) && x != index && !(full && x == keys.last()) implies #[trigger] n.contains(x) by {
        let m = choose|m: int| 0 <= m < keys.len() && keys[m] == x;
        if keys.contains(index) {
            assert(rest =~= without(keys, index));
            assert(rest.contains(x));
            let j = choose|j: int| 0 <= j < rest.len() && rest[j] == x;
            assert(n[j + 1] == x);
        } else if full {
            assert(m != keys.len() - 1);
            assert(rest[m] == x);
            assert(n[m + 1] == x);
        } else {
            assert(n[m + 1] == x);
        }
    }
    if full {
        assert(!n.contains(keys.last())) by {
            if n.contains(keys.last()) {
                let j = choose|j: int| 0 <= j < n.len() && n[j] == keys.last();
                if j == 0 {
                    assert(keys[keys.len() - 1] == keys.last());
                } else {
                    assert(rest[j - 1] == keys[j - 1]);
                    assert(keys[j - 1] == keys[keys.len() - 1]);
                }
            }
        }
    }
}


/// What is inserted is what the cache then holds: after inserting `img` for
/// `index`, the image cached for `index` is `img`, and every other page that
/// is still cached keeps the image it had.
pub proof fn law_inserted_image_is_kept(
    images: Map<usize, DynamicImage>,
    keys: Seq<usize>,
    cap: nat,
    index: usize,
    img: DynamicImage,
)
    requires
        keys.no_duplicates(),
        keys.len() <= cap,
        cap >= 1,
        forall|k: usize| #[trigger] images.dom().contains(k) <==> keys.contains(k),
    ensures
        images_after_insert(images, keys, cap, index, img).dom().contains(index),
        images_after_insert(images, keys, cap, index, img)[index] == img,
        forall|k: usize|
            k != index && #[trigger] after_insert(keys, cap, index).contains(k) ==> images_after_insert(
                images,
                keys,
                cap,
                index,
                img,
            )[k] == images[k],
{
    law_insert_caches(keys, cap, index);
}

} // verus!
