use vstd::prelude::*;

verus! {

/// Thumbnail size configuration.
#[derive(Debug, Clone, Copy)]
pub struct ThumbnailSpec {
    pub width: u32,
    pub height: u32,
}

impl Default for ThumbnailSpec {
    fn default() -> (r: Self)
        ensures
            r.width == 128,
            r.height == 128,
    {
        ThumbnailSpec { width: 128, height: 128 }
    }
}

/// The items of `s` whose page index is `v`, in their order in `s`.
pub open spec fn with_index<T>(s: Seq<(usize, T)>, v: usize) -> Seq<(usize, T)> {
    s.filter(has_index::<T>(v))
}

/// Whether a pair has page index `v`.
pub open spec fn has_index<T>(v: usize) -> spec_fn((usize, T)) -> bool {
    |e: (usize, T)| e.0 == v
}

/// `s` is ordered by page index, smallest first.
pub open spec fn sorted_by_index<T>(s: Seq<(usize, T)>) -> bool {
    forall|i: int, j: int| 0 <= i < j < s.len() ==> #[trigger] s[i].0 <= #[trigger] s[j].0
}

/// Filtering a sequence in which no item passes gives the empty sequence.
proof fn lemma_filter_none<A>(s: Seq<A>, pred: spec_fn(A) -> bool)
    requires
        forall|i: int| 0 <= i < s.len() ==> !pred(#[trigger] s[i]),
    ensures
        s.filter(pred) == Seq::<A>::empty(),
    decreases s.len(),
{
    reveal(Seq::filter);
    if s.len() > 0 {
        lemma_filter_none(s.drop_last(), pred);
    }
}

/// Filtering a sequence with one more item at its end.
proof fn lemma_filter_push<A>(s: Seq<A>, x: A, pred: spec_fn(A) -> bool)
    ensures
        s.push(x).filter(pred) == (if pred(x) {
            s.filter(pred).push(x)
        } else {
            s.filter(pred)
        }),
{
    reveal(Seq::filter);
    assert(s.push(x).drop_last() =~= s);
}

/// Filtering a sequence through its first item.
proof fn lemma_filter_first<A>(s: Seq<A>, pred: spec_fn(A) -> bool)
    requires
        s.len() > 0,
    ensures
        s.filter(pred) == (if pred(s[0]) {
            seq![s[0]] + s.drop_first().filter(pred)
        } else {
            s.drop_first().filter(pred)
        }),
{
    assert(s =~= seq![s[0]] + s.drop_first());
    Seq::filter_distributes_over_add(seq![s[0]], s.drop_first(), pred);
    lemma_filter_push(Seq::<A>::empty(), s[0], pred);
    lemma_filter_none(Seq::<A>::empty(), pred);
    assert(Seq::<A>::empty().push(s[0]) =~= seq![s[0]]);
}

/// The order that `sort_by_index` promises is unique: two sequences ordered
/// by page index that hold, for every index, the same pairs in the same
/// order are the same sequence.
pub proof fn law_sort_by_index_unique<T>(a: Seq<(usize, T)>, b: Seq<(usize, T)>)
    requires
        sorted_by_index(a),
        sorted_by_index(b),
        forall|v: usize| #[trigger] with_index(a, v) == with_index(b, v),
    ensures
        a == b,
    decreases a.len() + b.len(),
{
    if a.len() == 0 && b.len() == 0 {
        assert(a =~= b);
    } else if a.len() == 0 || b.len() == 0 {
        let (x, y) = if a.len() == 0 { (b, a) } else { (a, b) };
        let m = x[0].0;
        lemma_filter_first(x, has_index::<T>(m));
        lemma_filter_none(y, has_index::<T>(m));
        assert(with_index(a, m) == with_index(b, m));
        assert(with_index(x, m).len() > 0);
    } else {
        let (ma, mb) = (a[0].0, b[0].0);
        lemma_filter_first(a, has_index::<T>(ma));
        lemma_filter_first(b, has_index::<T>(mb));
        assert(with_index(a, ma) == with_index(b, ma));
        assert(with_index(a, mb) == with_index(b, mb));
        if mb > ma {
            assert forall|i: int| 0 <= i < b.len() implies !(#[trigger] has_index::<T>(ma)(b[i])) by {
                if i > 0 {
                    assert(b[0].0 <= b[i].0);
                }
            }
            lemma_filter_none(b, has_index::<T>(ma));
            assert(false);
        }
        if ma > mb {
            assert forall|i: int| 0 <= i < a.len() implies !(#[trigger] has_index::<T>(mb)(a[i])) by {
                if i > 0 {
                    assert(a[0].0 <= a[i].0);
                }
            }
            lemma_filter_none(a, has_index::<T>(mb));
            assert(false);
        }
        assert(a[0] == with_index(a, ma)[0]);
        assert(b[0] == with_index(b, ma)[0]);
        let (ta, tb) = (a.drop_first(), b.drop_first());
        assert forall|v: usize| #[trigger] with_index(ta, v) == with_index(tb, v) by {
            lemma_filter_first(a, has_index::<T>(v));
            lemma_filter_first(b, has_index::<T>(v));
            assert(with_index(a, v) == with_index(b, v));
            if v == ma {
                assert(with_index(ta, v) =~= with_index(a, v).drop_first());
                assert(with_index(tb, v) =~= with_index(b, v).drop_first());
            }
        }
        assert forall|i: int, j: int| 0 <= i < j < ta.len() implies #[trigger] ta[i].0 <= #[trigger] ta[j].0 by {
            assert(ta[i] == a[i + 1] && ta[j] == a[j + 1]);
        }
        assert forall|i: int, j: int| 0 <= i < j < tb.len() implies #[trigger] tb[i].0 <= #[trigger] tb[j].0 by {
            assert(tb[i] == b[i + 1] && tb[j] == b[j + 1]);
        }
        law_sort_by_index_unique(ta, tb);
        assert(a =~= seq![a[0]] + ta);
        assert(b =~= seq![b[0]] + tb);
    }
}

/// Sorts pairs of a page index and a value by page index, keeping pairs with
/// the same index in the order they came in (a stable sort).
///
/// The result holds the same pairs as `items` (it is a permutation of it),
/// and it is the one ordering by index in which, for each index, the pairs
/// with that index come in their order in `items`.
pub fn sort_by_index<T>(items: Vec<(usize, T)>) -> (r: Vec<(usize, T)>)
    ensures
        r@.len() == items@.len(),
        r@.to_multiset() == items@.to_multiset(),
        sorted_by_index(r@),
        forall|v: usize| #[trigger] with_index(r@, v) == with_index(items@, v),
{
    let ghost orig = items@;
    let mut rest = items;
    let mut r: Vec<(usize, T)> = Vec::new();
    let ghost mut done: int = 0;
    proof {
        assert(orig.take(0) =~= r@);
        assert forall|v: usize| #[trigger] with_index(r@, v) == with_index(orig.take(0), v) by {
            lemma_filter_none(r@, has_index::<T>(v));
            lemma_filter_none(orig.take(0), has_index::<T>(v));
        }
    }
    while rest.len() > 0
        invariant
            0 <= done <= orig.len(),
            rest@ == orig.skip(done),
            r@.len() == done,
            r@.to_multiset() == orig.take(done).to_multiset(),
            sorted_by_index(r@),
            forall|v: usize| #[trigger] with_index(r@, v) == with_index(orig.take(done), v),
        decreases rest.len(),
    {
        let x = rest.remove(0);
        let key: usize = x.0;
        proof {
            assert(x == orig[done]);
        }
        let mut k: usize = 0;
        while k < r.len() && r[k].0 <= key
            invariant
                k <= r@.len(),
                forall|m: int| 0 <= m < k ==> #[trigger] r@[m].0 <= key,
            decreases r@.len() - k,
        {
            k = k + 1;
        }
        let ghost old_r = r@;
        r.insert(k, x);
        proof {
            let before = old_r.take(k as int);
            let after = old_r.skip(k as int);
            assert(old_r =~= before + after);
            assert(r@ =~= before + seq![x] + after);
            assert forall|m: int| 0 <= m < after.len() implies #[trigger] after[m].0 > key by {
                assert(after[m] == old_r[k + m]);
                assert(old_r[k as int].0 > key);
                if m > 0 {
                    assert(old_r[k as int].0 <= old_r[k + m].0);
                }
            }
            assert(orig.take(done + 1) =~= orig.take(done).push(x));
            vstd::seq_lib::to_multiset_insert(old_r, k as int, x);
            vstd::seq_lib::to_multiset_build(orig.take(done), x);
            assert forall|v: usize| #[trigger] with_index(r@, v) == with_index(
                orig.take(done + 1),
                v,
            ) by {
                let p = has_index::<T>(v);
                assert(with_index(old_r, v) == with_index(orig.take(done), v));
                Seq::filter_distributes_over_add(before, after, p);
                Seq::filter_distributes_over_add(before + seq![x], after, p);
                Seq::filter_distributes_over_add(before, seq![x], p);
                lemma_filter_push(orig.take(done), x, p);
                lemma_filter_push(Seq::<(usize, T)>::empty(), x, p);
                lemma_filter_none(Seq::<(usize, T)>::empty(), p);
                assert(Seq::<(usize, T)>::empty().push(x) =~= seq![x]);
                assert(r@.filter(p) == before.filter(p) + seq![x].filter(p) + after.filter(p));
                assert(old_r.filter(p) == before.filter(p) + after.filter(p));
                if v == key {
                    lemma_filter_none(after, p);
                    assert(seq![x].filter(p) =~= seq![x]);
                    assert(r@.filter(p) =~= old_r.filter(p).push(x));
                } else {
                    assert(seq![x].filter(p) =~= Seq::<(usize, T)>::empty());
                    assert(r@.filter(p) =~= old_r.filter(p));
                }
            }
            assert forall|i: int, j: int| 0 <= i < j < r@.len() implies #[trigger] r@[i].0
                <= #[trigger] r@[j].0 by {
                if j < k {
                    assert(r@[i] == old_r[i] && r@[j] == old_r[j]);
                } else if j == k {
                    assert(r@[i] == old_r[i]);
                } else if i < k {
                    assert(r@[i] == old_r[i] && r@[j] == old_r[j - 1]);
                    assert(old_r[j - 1].0 > key);
                } else if i == k {
                    assert(r@[j] == old_r[j - 1]);
                    assert(old_r[j - 1].0 > key);
                } else {
                    assert(r@[i] == old_r[i - 1] && r@[j] == old_r[j - 1]);
                }
            }
            done = done + 1;
            assert(orig.skip(done - 1).drop_first() =~= orig.skip(done));
        }
    }
    proof {
        assert(orig.take(done) =~= orig);
    }
    r
}

} // verus!
