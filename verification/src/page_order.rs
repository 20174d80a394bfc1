use vstd::prelude::*;
use vstd::set_lib::{lemma_int_range, lemma_subset_equality, set_int_range};

use crate::sort::{chunks_view, key_less, key_lt, lemma_key_order, natural_key, natural_sort_key, NaturalChunk, SpecChunk};

verus! {

/// Natural keys of a list of names.
pub open spec fn names_keys(names: Seq<Seq<char>>) -> Seq<Seq<SpecChunk>> {
    names.map_values(|s: Seq<char>| natural_key(s))
}

/// Texts of a list of strings.
pub open spec fn strings_view(v: Seq<String>) -> Seq<Seq<char>> {
    v.map_values(|s: String| s@)
}

/// Keys as mathematical values.
pub open spec fn keys_view(keys: Seq<Vec<NaturalChunk>>) -> Seq<Seq<SpecChunk>> {
    keys.map_values(|k: Vec<NaturalChunk>| chunks_view(k@))
}

/// Item `i` of a list with keys `keys` comes before item `j`: its key is
/// smaller, or the keys are the same and `i` stands earlier (the order is
/// stable).
pub open spec fn comes_before(keys: Seq<Seq<SpecChunk>>, i: int, j: int) -> bool {
    key_lt(keys[i], keys[j]) || (keys[i] == keys[j] && i < j)
}

/// `p` lists the positions of `keys` in natural order: every position once,
/// each one before all that come after it.
pub open spec fn is_natural_order(keys: Seq<Seq<SpecChunk>>, p: Seq<usize>) -> bool {
    &&& p.len() == keys.len()
    &&& forall|k: int| 0 <= k < p.len() ==> #[trigger] p[k] < keys.len()
    &&& forall|k: int, l: int|
        0 <= k < l < p.len() ==> comes_before(keys, #[trigger] p[k] as int, #[trigger] p[l] as int)
}

/// The natural order of the positions of `keys` (there is exactly one; see
/// `law_natural_order_unique`).
pub open spec fn natural_order(keys: Seq<Seq<SpecChunk>>) -> Seq<usize> {
    choose|p: Seq<usize>| is_natural_order(keys, p)
}

/// `comes_before` is a strict total order on the positions of a list.
pub proof fn lemma_comes_before(keys: Seq<Seq<SpecChunk>>)
    ensures
        forall|i: int| !#[trigger] comes_before(keys, i, i),
        forall|i: int, j: int, k: int|
            #[trigger] comes_before(keys, i, j) && #[trigger] comes_before(keys, j, k)
                ==> comes_before(keys, i, k),
        forall|i: int, j: int|
            i != j ==> #[trigger] comes_before(keys, i, j) || #[trigger] comes_before(keys, j, i),
{
    lemma_key_order();
    assert forall|i: int, j: int, k: int|
        #[trigger] comes_before(keys, i, j) && #[trigger] comes_before(keys, j, k) implies comes_before(
        keys,
        i,
        k,
    ) by {
        if key_lt(keys[i], keys[j]) && key_lt(keys[j], keys[k]) {
            assert(key_lt(keys[i], keys[k]));
        }
    }
}

/// `v` is one of the positions listed in `p`.
pub open spec fn listed(p: Seq<usize>, v: int) -> bool {
    exists|k: int| 0 <= k < p.len() && p[k] == v
}

/// A natural order holds every position of the list.
pub proof fn lemma_natural_order_covers(keys: Seq<Seq<SpecChunk>>, p: Seq<usize>)
    requires
        is_natural_order(keys, p),
    ensures
        forall|v: int| 0 <= v < keys.len() ==> #[trigger] listed(p, v),
{
    lemma_comes_before(keys);
    let n = keys.len() as int;
    let ps = p.map_values(|x: usize| x as int);
    assert forall|k: int, l: int| 0 <= k < ps.len() && 0 <= l < ps.len() && k != l implies ps[k]
        != ps[l] by {
        if k < l {
            assert(comes_before(keys, p[k] as int, p[l] as int));
        } else {
            assert(comes_before(keys, p[l] as int, p[k] as int));
        }
    }
    assert(ps.no_duplicates());
    ps.unique_seq_to_set();
    lemma_int_range(0, n);
    assert(ps.to_set().subset_of(set_int_range(0, n))) by {
        assert forall|v: int| ps.to_set().contains(v) implies set_int_range(0, n).contains(v) by {
            let k = choose|k: int| 0 <= k < ps.len() && ps[k] == v;
            assert(p[k] < keys.len());
        }
    }
    lemma_subset_equality(ps.to_set(), set_int_range(0, n));
    assert forall|v: int| 0 <= v < keys.len() implies #[trigger] listed(p, v) by {
        assert(set_int_range(0, n).contains(v));
        assert(ps.to_set().contains(v));
        let k = choose|k: int| 0 <= k < ps.len() && ps[k] == v;
        assert(p[k] == v);
    }
}

proof fn lemma_prefix_agrees(keys: Seq<Seq<SpecChunk>>, p: Seq<usize>, q: Seq<usize>, k: int)
    requires
        is_natural_order(keys, p),
        is_natural_order(keys, q),
        0 <= k <= p.len(),
    ensures
        forall|m: int| 0 <= m < k ==> p[m] == q[m],
    decreases k,
{
    if k > 0 {
        lemma_prefix_agrees(keys, p, q, k - 1);
        lemma_comes_before(keys);
        lemma_natural_order_covers(keys, p);
        lemma_natural_order_covers(keys, q);
        let m = k - 1;
        let a = p[m];
        let b = q[m];
        if a != b {
            assert(listed(q, a as int));
            assert(listed(p, b as int));
            let ka = choose|j: int| 0 <= j < q.len() && q[j] == a as int;
            let kb = choose|j: int| 0 <= j < p.len() && p[j] == b as int;
            if ka < m {
                assert(p[ka] == q[ka]);
                assert(comes_before(keys, p[ka] as int, p[m] as int));
            }
            if kb < m {
                assert(q[kb] == p[kb]);
                assert(comes_before(keys, q[kb] as int, q[m] as int));
            }
            assert(ka > m && kb > m);
            assert(comes_before(keys, q[m] as int, q[ka] as int));
            assert(comes_before(keys, p[m] as int, p[kb] as int));
            assert(comes_before(keys, b as int, a as int) && comes_before(keys, a as int, b as int));
            assert(comes_before(keys, a as int, a as int));
        }
    }
}

/// A list has only one natural order.
pub proof fn law_natural_order_unique(keys: Seq<Seq<SpecChunk>>, p: Seq<usize>, q: Seq<usize>)
    requires
        is_natural_order(keys, p),
        is_natural_order(keys, q),
    ensures
        p == q,
{
    lemma_prefix_agrees(keys, p, q, p.len() as int);
    assert(p =~= q);
}

/// The first position of the natural order comes before every other
/// position of the list: it holds the smallest key, and of several items with
/// that key the earliest.
pub proof fn law_natural_order_first(keys: Seq<Seq<SpecChunk>>, p: Seq<usize>)
    requires
        is_natural_order(keys, p),
        keys.len() > 0,
    ensures
        forall|j: int| 0 <= j < keys.len() && j != p[0] ==> comes_before(keys, p[0] as int, j),
{
    lemma_natural_order_covers(keys, p);
    assert forall|j: int| 0 <= j < keys.len() && j != p[0] implies comes_before(
        keys,
        p[0] as int,
        j,
    ) by {
        assert(listed(p, j));
        let k = choose|k: int| 0 <= k < p.len() && p[k] == j;
        assert(k != 0);
    }
}

/// `o` lists positions `0..i` of `keys` in natural order.
pub open spec fn is_sorted_prefix(keys: Seq<Seq<SpecChunk>>, o: Seq<usize>, i: int) -> bool {
    &&& o.len() == i
    &&& forall|k: int| 0 <= k < i ==> #[trigger] o[k] < i
    &&& forall|k: int, l: int|
        0 <= k < l < i ==> comes_before(keys, #[trigger] o[k] as int, #[trigger] o[l] as int)
}

/// Inserting position `i` in front of the first position whose key is
/// greater keeps the list in natural order.
proof fn lemma_insert_keeps_order(keys: Seq<Seq<SpecChunk>>, o: Seq<usize>, i: int, pos: int)
    requires
        0 <= i < keys.len(),
        i <= usize::MAX,
        is_sorted_prefix(keys, o, i),
        0 <= pos <= o.len(),
        forall|m: int| 0 <= m < pos ==> !key_lt(keys[i], keys[#[trigger] o[m] as int]),
        pos < o.len() ==> key_lt(keys[i], keys[o[pos] as int]),
    ensures
        is_sorted_prefix(keys, o.insert(pos, i as usize), i + 1),
{
    lemma_key_order();
    lemma_comes_before(keys);
    let o2 = o.insert(pos, i as usize);
    assert forall|m: int| 0 <= m < pos implies comes_before(keys, #[trigger] o[m] as int, i) by {
        assert(!key_lt(keys[i], keys[o[m] as int]));
        assert(o[m] < i);
    }
    assert forall|m: int| pos <= m < o.len() implies comes_before(keys, i, #[trigger] o[m] as int) by {
        assert(key_lt(keys[i], keys[o[pos] as int]));
        if m > pos {
            assert(comes_before(keys, o[pos] as int, o[m] as int));
            if key_lt(keys[o[pos] as int], keys[o[m] as int]) {
                assert(key_lt(keys[i], keys[o[m] as int]));
            }
        }
    }
    assert forall|k: int| 0 <= k < i + 1 implies #[trigger] o2[k] < i + 1 by {
        if k < pos {
            assert(o2[k] == o[k]);
        } else if k > pos {
            assert(o2[k] == o[k - 1]);
        }
    }
    assert forall|k: int, l: int| 0 <= k < l < i + 1 implies comes_before(
        keys,
        #[trigger] o2[k] as int,
        #[trigger] o2[l] as int,
    ) by {
        if l < pos {
            assert(o2[k] == o[k] && o2[l] == o[l]);
        } else if l == pos {
            assert(o2[k] == o[k]);
        } else if k < pos {
            assert(o2[k] == o[k] && o2[l] == o[l - 1]);
            assert(comes_before(keys, o[k] as int, i));
            assert(comes_before(keys, i, o[l - 1] as int));
        } else if k == pos {
            assert(o2[l] == o[l - 1]);
        } else {
            assert(o2[k] == o[k - 1] && o2[l] == o[l - 1]);
        }
    }
}

/// Where position `i` goes into `o`, searching from `from`.
spec fn insertion_point(keys: Seq<Seq<SpecChunk>>, o: Seq<usize>, i: int, from: int) -> int
    decreases o.len() - from,
{
    if from < 0 || from >= o.len() {
        o.len() as int
    } else if key_lt(keys[i], keys[o[from] as int]) {
        from
    } else {
        insertion_point(keys, o, i, from + 1)
    }
}

proof fn lemma_insertion_point(keys: Seq<Seq<SpecChunk>>, o: Seq<usize>, i: int, from: int)
    requires
        0 <= from <= o.len(),
        forall|m: int| 0 <= m < from ==> !key_lt(keys[i], keys[#[trigger] o[m] as int]),
    ensures
        ({
            let pos = insertion_point(keys, o, i, from);
            &&& from <= pos <= o.len()
            &&& forall|m: int| 0 <= m < pos ==> !key_lt(keys[i], keys[#[trigger] o[m] as int])
            &&& pos < o.len() ==> key_lt(keys[i], keys[o[pos] as int])
        }),
    decreases o.len() - from,
{
    if from < o.len() && !key_lt(keys[i], keys[o[from] as int]) {
        lemma_insertion_point(keys, o, i, from + 1);
    }
}

/// Positions `0..n` of `keys` in natural order, built by insertion.
spec fn sorted_positions(keys: Seq<Seq<SpecChunk>>, n: int) -> Seq<usize>
    decreases n,
{
    if n <= 0 {
        seq![]
    } else {
        let o = sorted_positions(keys, n - 1);
        o.insert(insertion_point(keys, o, n - 1, 0), (n - 1) as usize)
    }
}

proof fn lemma_sorted_positions(keys: Seq<Seq<SpecChunk>>, n: int)
    requires
        0 <= n <= keys.len(),
        n <= usize::MAX + 1,
    ensures
        is_sorted_prefix(keys, sorted_positions(keys, n), n),
    decreases n,
{
    if n > 0 {
        lemma_sorted_positions(keys, n - 1);
        let o = sorted_positions(keys, n - 1);
        lemma_insertion_point(keys, o, n - 1, 0);
        lemma_insert_keeps_order(keys, o, n - 1, insertion_point(keys, o, n - 1, 0));
    }
}

/// Every list that a `usize` can index has a natural order.
pub proof fn lemma_natural_order_exists(keys: Seq<Seq<SpecChunk>>)
    requires
        keys.len() <= usize::MAX + 1,
    ensures
        is_natural_order(keys, natural_order(keys)),
{
    lemma_sorted_positions(keys, keys.len() as int);
    let p = sorted_positions(keys, keys.len() as int);
    assert(is_natural_order(keys, p));
}

/// Sorts the positions of `keys` into natural order (a stable insertion sort).
pub fn natural_order_of_keys(keys: &Vec<Vec<NaturalChunk>>) -> (order: Vec<usize>)
    ensures
        order@ == natural_order(keys_view(keys@)),
        is_natural_order(keys_view(keys@), order@),
{
    let ghost ks = keys_view(keys@);
    let n = keys.len();
    let mut order: Vec<usize> = Vec::new();
    let mut i: usize = 0;
    while i < n
        invariant
            n == keys@.len(),
            ks == keys_view(keys@),
            i <= n,
            order@.len() == i,
            forall|k: int| 0 <= k < i ==> #[trigger] order@[k] < i,
            forall|k: int, l: int|
                0 <= k < l < i ==> comes_before(ks, #[trigger] order@[k] as int, #[trigger] order@[l] as int),
        decreases n - i,
    {
        let mut pos: usize = 0;
        while pos < order.len() && !key_less(&keys[i], &keys[order[pos]])
            invariant
                n == keys@.len(),
                ks == keys_view(keys@),
                i < n,
                order@.len() == i,
                forall|k: int| 0 <= k < i ==> #[trigger] order@[k] < i,
                pos <= order@.len(),
                forall|m: int| 0 <= m < pos ==> !key_lt(ks[i as int], ks[#[trigger] order@[m] as int]),
            decreases order@.len() - pos,
        {
            pos = pos + 1;
        }
        let ghost old_order = order@;
        order.insert(pos, i);
        proof {
            lemma_insert_keeps_order(ks, old_order, i as int, pos as int);
            assert(order@ =~= old_order.insert(pos as int, i));
        }
        i = i + 1;
    }
    proof {
        assert(is_natural_order(ks, order@));
        let q = natural_order(ks);
        assert(is_natural_order(ks, q));
        law_natural_order_unique(ks, order@, q);
    }
    order
}

/// Sorts the positions of `names` into natural order of the names.
pub fn natural_order_of_names(names: &Vec<String>) -> (order: Vec<usize>)
    ensures
        order@ == natural_order(names_keys(strings_view(names@))),
        is_natural_order(names_keys(strings_view(names@)), order@),
{
    let mut keys: Vec<Vec<NaturalChunk>> = Vec::new();
    let mut i: usize = 0;
    while i < names.len()
        invariant
            i <= names@.len(),
            keys@.len() == i,
            forall|k: int| 0 <= k < i ==> chunks_view(#[trigger] keys@[k]@) == natural_key(names@[k]@),
        decreases names@.len() - i,
    {
        let key = natural_sort_key(names[i].as_str());
        keys.push(key);
        i = i + 1;
    }
    assert(keys_view(keys@) =~= names_keys(strings_view(names@)));
    natural_order_of_keys(&keys)
}

} // verus!
