use std::cmp::Ordering;
use vstd::prelude::*;

use crate::order::{lemma_lex_strict_total, lex_lt, strict_total};

verus! {

/// Natural sort comparison for filenames (handles numeric suffixes like
/// page001, page002, ...): a file name is cut into runs of ASCII digits and
/// runs of other characters; digit runs compare as numbers, other runs as
/// lower-cased text, and a text run sorts before a number.
#[derive(Debug, PartialEq, Eq, PartialOrd, Ord)]
pub enum NaturalChunk {
    Text(String),
    Num(u64),
}

/// A run of a file name, as mathematical values.
pub enum SpecChunk {
    Text(Seq<char>),
    Num(u64),
}

impl View for NaturalChunk {
    type V = SpecChunk;

    open spec fn view(&self) -> SpecChunk {
        match self {
            NaturalChunk::Text(s) => SpecChunk::Text(s@),
            NaturalChunk::Num(n) => SpecChunk::Num(*n),
        }
    }
}

/// The runs of a key, as mathematical values.
pub open spec fn chunks_view(v: Seq<NaturalChunk>) -> Seq<SpecChunk> {
    v.map_values(|c: NaturalChunk| c@)
}

/// What `str::to_lowercase` makes of a text that is not all ASCII: its
/// Unicode lower-case mapping.  A function of the text alone.
pub uninterp spec fn unicode_lowercase(s: Seq<char>) -> Seq<char>;

/// Every character of `s` is ASCII.
pub open spec fn is_ascii_text(s: Seq<char>) -> bool {
    forall|i: int| 0 <= i < s.len() ==> (#[trigger] s[i] as u32) < 128
}

/// ASCII lower-casing of one character: `A`..`Z` become `a`..`z`, every
/// other character stays.
pub open spec fn ascii_lower_char(c: char) -> char {
    if 65 <= (c as u32) && (c as u32) <= 90 {
        ((c as u32) + 32) as char
    } else {
        c
    }
}

/// ASCII lower-casing of a text.
pub open spec fn ascii_lower(s: Seq<char>) -> Seq<char> {
    s.map_values(|c: char| ascii_lower_char(c))
}

/// The lower-case form of a text run: its ASCII lower-casing when the text
/// is all ASCII, its Unicode lower-case mapping otherwise.
pub open spec fn lowercase_text(s: Seq<char>) -> Seq<char> {
    if is_ascii_text(s) {
        ascii_lower(s)
    } else {
        unicode_lowercase(s)
    }
}

/// Calls `str::to_lowercase`.  Its documentation defines the result by the
/// Unicode lower-case mapping, under which the ASCII capitals `A`..`Z` map
/// to `a`..`z` and every other ASCII character to itself; that much is
/// stated.  For text that is not all ASCII the result is only named: it
/// depends on the text alone, and the Unicode tables are not restated.
#[verifier::external_body]
fn to_lowercase(s: &str) -> (r: String)
    ensures
        is_ascii_text(s@) ==> r@ == ascii_lower(s@),
        !is_ascii_text(s@) ==> r@ == unicode_lowercase(s@),
{
    s.to_lowercase()
}

/// An ASCII decimal digit.
pub open spec fn is_digit(c: char) -> bool {
    48 <= (c as u32) && (c as u32) <= 57
}

/// Length of the run at the start of `s`: the longest prefix whose
/// characters are all digits or all non-digits.
pub open spec fn run_len(s: Seq<char>) -> nat
    decreases s.len(),
{
    if s.len() <= 1 {
        s.len()
    } else if is_digit(s[1]) == is_digit(s[0]) {
        1 + run_len(s.drop_first())
    } else {
        1
    }
}

/// Decimal value of a run of digits.
pub open spec fn digits_value(d: Seq<char>) -> nat
    decreases d.len(),
{
    if d.len() == 0 {
        0
    } else {
        digits_value(d.drop_last()) * 10 + ((d.last() as u32) - 48) as nat
    }
}

/// Value of a digit run in a key: its decimal value, or 0 when that does not
/// fit in a `u64` (parsing it fails).
pub open spec fn num_value(d: Seq<char>) -> u64 {
    if digits_value(d) <= u64::MAX {
        digits_value(d) as u64
    } else {
        0
    }
}

pub proof fn lemma_run_len_positive(s: Seq<char>)
    requires
        s.len() > 0,
    ensures
        1 <= run_len(s) <= s.len(),
    decreases s.len(),
{
    if s.len() > 1 && is_digit(s[1]) == is_digit(s[0]) {
        lemma_run_len_positive(s.drop_first());
    }
}

/// The natural sort key of a file name.
pub open spec fn natural_key(s: Seq<char>) -> Seq<SpecChunk>
    decreases s.len(),
{
    if s.len() == 0 {
        seq![]
    } else {
        proof {
            lemma_run_len_positive(s);
        }
        let n = run_len(s) as int;
        let run = s.subrange(0, n);
        let chunk = if is_digit(s[0]) {
            SpecChunk::Num(num_value(run))
        } else {
            SpecChunk::Text(lowercase_text(run))
        };
        seq![chunk] + natural_key(s.subrange(n, s.len() as int))
    }
}

/// A run that ends where the digit class changes is the run `run_len` finds.
proof fn lemma_run_len_exact(s: Seq<char>, m: int)
    requires
        1 <= m <= s.len(),
        forall|k: int| 0 <= k < m ==> is_digit(#[trigger] s[k]) == is_digit(s[0]),
        m < s.len() ==> is_digit(s[m]) != is_digit(s[0]),
    ensures
        run_len(s) == m,
    decreases s.len(),
{
    if m > 1 {
        assert(is_digit(s[1]) == is_digit(s[0]));
        let t = s.drop_first();
        assert forall|k: int| 0 <= k < m - 1 implies is_digit(#[trigger] t[k]) == is_digit(t[0]) by {
            assert(t[k] == s[k + 1]);
            assert(is_digit(s[k + 1]) == is_digit(s[0]));
        }
        if m - 1 < t.len() {
            assert(t[m - 1] == s[m]);
        }
        lemma_run_len_exact(t, m - 1);
    } else if s.len() > 1 {
        assert(is_digit(s[1]) != is_digit(s[0]));
    }
}

/// Characters of a text.
fn chars_of(s: &str) -> (v: Vec<char>)
    ensures
        v@ == s@,
{
    let n = s.unicode_len();
    let mut v: Vec<char> = Vec::new();
    let mut i: usize = 0;
    while i < n
        invariant
            n == s@.len(),
            i <= n,
            v@ == s@.subrange(0, i as int),
        decreases n - i,
    {
        let c = s.get_char(i);
        v.push(c);
        assert(v@ =~= s@.subrange(0, i + 1));
        i = i + 1;
    }
    assert(v@ =~= s@);
    v
}

fn is_ascii_digit(c: char) -> (r: bool)
    ensures
        r == is_digit(c),
{
    let u = c as u32;
    48 <= u && u <= 57
}

/// Value of the digit run `cs[lo..hi]` in a key.
fn run_value(cs: &Vec<char>, lo: usize, hi: usize) -> (r: u64)
    requires
        lo <= hi <= cs@.len(),
        forall|k: int| lo <= k < hi ==> is_digit(#[trigger] cs@[k]),
    ensures
        r == num_value(cs@.subrange(lo as int, hi as int)),
{
    let mut val: u64 = 0;
    let mut over = false;
    let mut k = lo;
    assert(cs@.subrange(lo as int, lo as int).len() == 0);
    while k < hi
        invariant
            lo <= k <= hi <= cs@.len(),
            forall|m: int| lo <= m < hi ==> is_digit(#[trigger] cs@[m]),
            !over ==> val == digits_value(cs@.subrange(lo as int, k as int)),
            over ==> digits_value(cs@.subrange(lo as int, k as int)) > u64::MAX,
        decreases hi - k,
    {
        let ghost prev = cs@.subrange(lo as int, k as int);
        let ghost next = cs@.subrange(lo as int, k + 1);
        assert(next.drop_last() =~= prev);
        assert(is_digit(cs@[k as int]));
        let dig = (cs[k] as u32 - 48) as u64;
        assert(digits_value(next) == digits_value(prev) * 10 + dig);
        if !over {
            if val > 1844674407370955161 || (val == 1844674407370955161 && dig > 5) {
                over = true;
            } else {
                val = val * 10 + dig;
            }
        }
        k = k + 1;
    }
    if over {
        0
    } else {
        val
    }
}

/// Cuts a file name into its natural sort key.
pub fn natural_sort_key(s: &str) -> (chunks: Vec<NaturalChunk>)
    ensures
        chunks_view(chunks@) == natural_key(s@),
{
    let cs = chars_of(s);
    let n = cs.len();
    let mut chunks: Vec<NaturalChunk> = Vec::new();
    let mut i: usize = 0;
    assert(s@.subrange(0, n as int) =~= s@);
    while i < n
        invariant
            n == s@.len(),
            cs@ == s@,
            i <= n,
            natural_key(s@) == chunks_view(chunks@) + natural_key(s@.subrange(i as int, n as int)),
        decreases n - i,
    {
        let d = is_ascii_digit(cs[i]);
        let mut j = i + 1;
        while j < n && is_ascii_digit(cs[j]) == d
            invariant
                i < j <= n,
                n == s@.len(),
                cs@ == s@,
                d == is_digit(s@[i as int]),
                forall|k: int| i <= k < j ==> is_digit(#[trigger] s@[k]) == d,
            decreases n - j,
        {
            j = j + 1;
        }
        let ghost rest = s@.subrange(i as int, n as int);
        proof {
            assert forall|k: int| 0 <= k < j - i implies is_digit(#[trigger] rest[k]) == is_digit(
                rest[0],
            ) by {
                assert(rest[k] == s@[i + k]);
            }
            if j < n {
                assert(rest[j - i] == s@[j as int]);
            }
            lemma_run_len_exact(rest, j - i);
            assert(rest.subrange(0, j - i) =~= s@.subrange(i as int, j as int));
            assert(rest.subrange(j - i, rest.len() as int) =~= s@.subrange(j as int, n as int));
        }
        let chunk = if d {
            NaturalChunk::Num(run_value(&cs, i, j))
        } else {
            let t = s.substring_char(i, j);
            NaturalChunk::Text(to_lowercase(t))
        };
        let ghost before = chunks@;
        chunks.push(chunk);
        assert(chunks_view(chunks@) =~= chunks_view(before).push(chunk@));
        assert(natural_key(rest) =~= seq![chunk@] + natural_key(s@.subrange(j as int, n as int)));
        assert(chunks_view(chunks@) + natural_key(s@.subrange(j as int, n as int)) =~= chunks_view(
            before,
        ) + natural_key(rest));
        i = j;
    }
    assert(chunks_view(chunks@) + natural_key(s@.subrange(n as int, n as int)) =~= chunks_view(
        chunks@,
    ));
    chunks
}

} // verus!

verus! {

/// Order of characters by code point (the order of their UTF-8 bytes).
pub open spec fn char_order() -> spec_fn(char, char) -> bool {
    |x: char, y: char| x < y
}

/// Order of texts: lexicographic by code point, a proper prefix first.
pub open spec fn chars_lt(a: Seq<char>, b: Seq<char>) -> bool {
    lex_lt(a, b, char_order())
}

/// Order of runs: texts by `chars_lt`, numbers by value, any text before any
/// number.
pub open spec fn chunk_lt(a: SpecChunk, b: SpecChunk) -> bool {
    match a {
        SpecChunk::Text(x) => match b {
            SpecChunk::Text(y) => chars_lt(x, y),
            SpecChunk::Num(_) => true,
        },
        SpecChunk::Num(x) => match b {
            SpecChunk::Text(_) => false,
            SpecChunk::Num(y) => x < y,
        },
    }
}

pub open spec fn chunk_order() -> spec_fn(SpecChunk, SpecChunk) -> bool {
    |a: SpecChunk, b: SpecChunk| chunk_lt(a, b)
}

/// Order of keys: lexicographic by run, a proper prefix first.
pub open spec fn key_lt(a: Seq<SpecChunk>, b: Seq<SpecChunk>) -> bool {
    lex_lt(a, b, chunk_order())
}

pub proof fn lemma_char_order_strict_total()
    ensures
        strict_total(char_order()),
{
    let lt = char_order();
}

pub proof fn lemma_chunk_order_strict_total()
    ensures
        strict_total(chunk_order()),
{
    lemma_char_order_strict_total();
    lemma_lex_strict_total(char_order());
    let tl = |a: Seq<char>, b: Seq<char>| lex_lt(a, b, char_order());
    let lt = chunk_order();
    assert forall|x: SpecChunk| !(#[trigger] lt(x, x)) by {
        if let SpecChunk::Text(s) = x {
            assert(!tl(s, s));
        }
    }
    assert forall|x: SpecChunk, y: SpecChunk, z: SpecChunk| #[trigger] lt(x, y) && #[trigger] lt(
        y,
        z,
    ) implies lt(x, z) by {
        if let SpecChunk::Text(a) = x {
            if let SpecChunk::Text(b) = y {
                if let SpecChunk::Text(c) = z {
                    assert(tl(a, b) && tl(b, c));
                    assert(tl(a, c));
                }
            }
        }
    }
    assert forall|x: SpecChunk, y: SpecChunk| x != y implies #[trigger] lt(x, y) || #[trigger] lt(
        y,
        x,
    ) by {
        if let SpecChunk::Text(a) = x {
            if let SpecChunk::Text(b) = y {
                assert(a != b);
                assert(tl(a, b) || tl(b, a));
            }
        }
    }
}

/// `key_lt` is a strict total order on keys.
pub proof fn lemma_key_order()
    ensures
        forall|a: Seq<SpecChunk>| !#[trigger] key_lt(a, a),
        forall|a: Seq<SpecChunk>, b: Seq<SpecChunk>, c: Seq<SpecChunk>|
            #[trigger] key_lt(a, b) && #[trigger] key_lt(b, c) ==> key_lt(a, c),
        forall|a: Seq<SpecChunk>, b: Seq<SpecChunk>|
            a != b ==> #[trigger] key_lt(a, b) || #[trigger] key_lt(b, a),
{
    lemma_chunk_order_strict_total();
    lemma_lex_strict_total(chunk_order());
    let kl = |a: Seq<SpecChunk>, b: Seq<SpecChunk>| lex_lt(a, b, chunk_order());
    assert forall|a: Seq<SpecChunk>| !#[trigger] key_lt(a, a) by {
        assert(!kl(a, a));
    }
    assert forall|a: Seq<SpecChunk>, b: Seq<SpecChunk>, c: Seq<SpecChunk>|
        #[trigger] key_lt(a, b) && #[trigger] key_lt(b, c) implies key_lt(a, c) by {
        assert(kl(a, b) && kl(b, c));
        assert(kl(a, c));
    }
    assert forall|a: Seq<SpecChunk>, b: Seq<SpecChunk>| a != b implies #[trigger] key_lt(a, b)
        || #[trigger] key_lt(b, a) by {
        assert(kl(a, b) || kl(b, a));
    }
}

/// One step of a lexicographic comparison: equal items at `i` pass the
/// decision on to what follows them.
proof fn lemma_lex_step<T>(a: Seq<T>, b: Seq<T>, i: int, lt: spec_fn(T, T) -> bool)
    requires
        0 <= i < a.len(),
        i < b.len(),
    ensures
        lex_lt(a.subrange(i, a.len() as int), b.subrange(i, b.len() as int), lt) == if a[i]
            != b[i] {
            lt(a[i], b[i])
        } else {
            lex_lt(a.subrange(i + 1, a.len() as int), b.subrange(i + 1, b.len() as int), lt)
        },
{
    let sa = a.subrange(i, a.len() as int);
    let sb = b.subrange(i, b.len() as int);
    assert(sa.drop_first() =~= a.subrange(i + 1, a.len() as int));
    assert(sb.drop_first() =~= b.subrange(i + 1, b.len() as int));
}

/// Whether `a` comes before `b` by code point.
fn text_less(a: &String, b: &String) -> (r: bool)
    ensures
        r == chars_lt(a@, b@),
{
    let x = chars_of(a.as_str());
    let y = chars_of(b.as_str());
    let ghost lt = char_order();
    let mut i: usize = 0;
    assert(x@.subrange(0, x@.len() as int) =~= x@);
    assert(y@.subrange(0, y@.len() as int) =~= y@);
    while i < x.len() && i < y.len() && x[i] == y[i]
        invariant
            x@ == a@,
            y@ == b@,
            i <= x@.len(),
            i <= y@.len(),
            chars_lt(a@, b@) == lex_lt(
                x@.subrange(i as int, x@.len() as int),
                y@.subrange(i as int, y@.len() as int),
                lt,
            ),
        decreases x@.len() - i,
    {
        proof {
            lemma_lex_step(x@, y@, i as int, lt);
        }
        i = i + 1;
    }
    if i < x.len() && i < y.len() {
        proof {
            lemma_lex_step(x@, y@, i as int, lt);
        }
        x[i] < y[i]
    } else {
        i < y.len()
    }
}

/// Whether run `a` comes before run `b`.
fn chunk_less(a: &NaturalChunk, b: &NaturalChunk) -> (r: bool)
    ensures
        r == chunk_lt(a@, b@),
{
    match a {
        NaturalChunk::Text(x) => match b {
            NaturalChunk::Text(y) => text_less(x, y),
            NaturalChunk::Num(_) => true,
        },
        NaturalChunk::Num(x) => match b {
            NaturalChunk::Text(_) => false,
            NaturalChunk::Num(y) => *x < *y,
        },
    }
}

/// Whether runs `a` and `b` are the same.
fn chunk_equal(a: &NaturalChunk, b: &NaturalChunk) -> (r: bool)
    ensures
        r == (a@ == b@),
{
    match a {
        NaturalChunk::Text(x) => match b {
            NaturalChunk::Text(y) => x.eq(y),
            NaturalChunk::Num(_) => false,
        },
        NaturalChunk::Num(x) => match b {
            NaturalChunk::Text(_) => false,
            NaturalChunk::Num(y) => *x == *y,
        },
    }
}

/// Whether key `a` comes before key `b`.
pub fn key_less(a: &Vec<NaturalChunk>, b: &Vec<NaturalChunk>) -> (r: bool)
    ensures
        r == key_lt(chunks_view(a@), chunks_view(b@)),
{
    let ghost x = chunks_view(a@);
    let ghost y = chunks_view(b@);
    let ghost lt = chunk_order();
    let mut i: usize = 0;
    assert(x.subrange(0, x.len() as int) =~= x);
    assert(y.subrange(0, y.len() as int) =~= y);
    while i < a.len() && i < b.len() && chunk_equal(&a[i], &b[i])
        invariant
            x == chunks_view(a@),
            y == chunks_view(b@),
            i <= a@.len(),
            i <= b@.len(),
            key_lt(x, y) == lex_lt(
                x.subrange(i as int, x.len() as int),
                y.subrange(i as int, y.len() as int),
                lt,
            ),
        decreases a@.len() - i,
    {
        proof {
            lemma_lex_step(x, y, i as int, lt);
        }
        i = i + 1;
    }
    if i < a.len() && i < b.len() {
        proof {
            lemma_lex_step(x, y, i as int, lt);
        }
        chunk_less(&a[i], &b[i])
    } else {
        i < b.len()
    }
}

/// The natural order of two file names.
pub open spec fn natural_ordering(a: Seq<char>, b: Seq<char>) -> Ordering {
    if key_lt(natural_key(a), natural_key(b)) {
        Ordering::Less
    } else if key_lt(natural_key(b), natural_key(a)) {
        Ordering::Greater
    } else {
        Ordering::Equal
    }
}

/// Compares two file names in natural order.
pub fn natural_cmp(a: &str, b: &str) -> (r: Ordering)
    ensures
        r == natural_ordering(a@, b@),
{
    let ka = natural_sort_key(a);
    let kb = natural_sort_key(b);
    if key_less(&ka, &kb) {
        Ordering::Less
    } else if key_less(&kb, &ka) {
        Ordering::Greater
    } else {
        Ordering::Equal
    }
}

/// Two names compare equal exactly when their natural keys are the same.
pub proof fn law_natural_cmp_equal_iff_same_key(a: Seq<char>, b: Seq<char>)
    ensures
        (natural_ordering(a, b) == Ordering::Equal) <==> natural_key(a) == natural_key(b),
{
    lemma_key_order();
}

/// A name compares equal to itself.
pub proof fn law_natural_cmp_reflexive(a: Seq<char>)
    ensures
        natural_ordering(a, a) == Ordering::Equal,
{
    lemma_key_order();
}

/// Swapping the arguments reverses the result.
pub proof fn law_natural_cmp_antisymmetric(a: Seq<char>, b: Seq<char>)
    ensures
        (natural_ordering(a, b) == Ordering::Less) <==> (natural_ordering(b, a)
            == Ordering::Greater),
        (natural_ordering(a, b) == Ordering::Equal) <==> (natural_ordering(b, a)
            == Ordering::Equal),
{
    lemma_key_order();
}

/// "Comes before" is transitive, also through names that compare equal.
pub proof fn law_natural_cmp_transitive(a: Seq<char>, b: Seq<char>, c: Seq<char>)
    ensures
        natural_ordering(a, b) == Ordering::Less && natural_ordering(b, c) == Ordering::Less
            ==> natural_ordering(a, c) == Ordering::Less,
        natural_ordering(a, b) == Ordering::Equal ==> natural_ordering(a, c)
            == natural_ordering(b, c),
{
    lemma_key_order();
    let (ka, kb, kc) = (natural_key(a), natural_key(b), natural_key(c));
    if key_lt(ka, kb) && key_lt(kb, kc) {
        assert(key_lt(ka, kc));
    }
}


/// The run at the start of `s` is as long as `run_len` says: its characters
/// are of one class, and the next one (if any) is of the other.
proof fn lemma_run_len_props(s: Seq<char>)
    requires
        s.len() > 0,
    ensures
        1 <= run_len(s) <= s.len(),
        forall|k: int| 0 <= k < run_len(s) ==> is_digit(#[trigger] s[k]) == is_digit(s[0]),
        run_len(s) < s.len() ==> is_digit(s[run_len(s) as int]) != is_digit(s[0]),
    decreases s.len(),
{
    lemma_run_len_positive(s);
    if s.len() > 1 && is_digit(s[1]) == is_digit(s[0]) {
        let t = s.drop_first();
        lemma_run_len_props(t);
        assert forall|k: int| 0 <= k < run_len(s) implies is_digit(#[trigger] s[k]) == is_digit(
            s[0],
        ) by {
            if k > 0 {
                assert(s[k] == t[k - 1]);
            }
        }
        if run_len(s) < s.len() {
            assert(s[run_len(s) as int] == t[run_len(t) as int]);
        }
    }
}

/// The natural key of two texts put together is the keys put together, when
/// the texts do not join a run across the seam (one of them is empty, or the
/// last character of the first and the first of the second differ in being
/// a digit).
proof fn lemma_key_concat(x: Seq<char>, y: Seq<char>)
    requires
        x.len() == 0 || y.len() == 0 || is_digit(x.last()) != is_digit(y[0]),
    ensures
        natural_key(x + y) == natural_key(x) + natural_key(y),
    decreases x.len(),
{
    let xy = x + y;
    if x.len() == 0 {
        assert(xy =~= y);
        assert(natural_key(x) + natural_key(y) =~= natural_key(y));
    } else {
        lemma_run_len_props(x);
        let m = run_len(x) as int;
        assert forall|k: int| 0 <= k < m implies is_digit(#[trigger] xy[k]) == is_digit(xy[0]) by {
            assert(xy[k] == x[k]);
        }
        if m < xy.len() {
            if m < x.len() {
                assert(xy[m] == x[m]);
            } else {
                assert(xy[m] == y[0]);
                assert(x.last() == x[m - 1]);
            }
        }
        lemma_run_len_exact(xy, m);
        let rest = x.subrange(m, x.len() as int);
        assert(xy.subrange(0, m) =~= x.subrange(0, m));
        assert(xy.subrange(m, xy.len() as int) =~= rest + y);
        if rest.len() > 0 {
            assert(rest.last() == x.last());
        }
        lemma_key_concat(rest, y);
        assert(natural_key(x) == seq![natural_key(x)[0]] + natural_key(rest));
        assert(natural_key(xy) =~= natural_key(x) + natural_key(y));
    }
}

/// A text of one class (all digits or no digit) is a single run.
proof fn lemma_single_run(d: Seq<char>)
    requires
        d.len() > 0,
        forall|k: int| 0 <= k < d.len() ==> is_digit(#[trigger] d[k]) == is_digit(d[0]),
    ensures
        natural_key(d) == seq![
            if is_digit(d[0]) {
                SpecChunk::Num(num_value(d))
            } else {
                SpecChunk::Text(lowercase_text(d))
            },
        ],
{
    lemma_run_len_exact(d, d.len() as int);
    let n = d.len() as int;
    assert(d.subrange(0, n) =~= d);
    let e = d.subrange(n, n);
    assert(e =~= Seq::<char>::empty());
    assert(natural_key(e) == Seq::<SpecChunk>::empty());
    let c = if is_digit(d[0]) {
        SpecChunk::Num(num_value(d))
    } else {
        SpecChunk::Text(lowercase_text(d))
    };
    assert(natural_key(d) == seq![c] + natural_key(e));
    assert(seq![c] + Seq::<SpecChunk>::empty() =~= seq![c]);
}

/// A common prefix does not change a lexicographic comparison.
proof fn lemma_lex_common_prefix<T>(pre: Seq<T>, a: Seq<T>, b: Seq<T>, lt: spec_fn(T, T) -> bool)
    ensures
        lex_lt(pre + a, pre + b, lt) == lex_lt(a, b, lt),
    decreases pre.len(),
{
    if pre.len() == 0 {
        assert(pre + a =~= a);
        assert(pre + b =~= b);
    } else {
        lemma_lex_common_prefix(pre.drop_first(), a, b, lt);
        assert((pre + a).drop_first() =~= pre.drop_first() + a);
        assert((pre + b).drop_first() =~= pre.drop_first() + b);
        assert((pre + a)[0] == (pre + b)[0]);
    }
}

/// Page names that differ only in one run of digits, between the same text
/// before (not ending in a digit) and after (not starting with one), are
/// ordered by the numeric value of that run: `page2` before `page10`.
pub proof fn law_natural_cmp_digit_run_by_value(
    p: Seq<char>,
    d1: Seq<char>,
    d2: Seq<char>,
    s: Seq<char>,
)
    requires
        p.len() == 0 || !is_digit(p.last()),
        s.len() == 0 || !is_digit(s[0]),
        d1.len() > 0,
        d2.len() > 0,
        forall|k: int| 0 <= k < d1.len() ==> is_digit(#[trigger] d1[k]),
        forall|k: int| 0 <= k < d2.len() ==> is_digit(#[trigger] d2[k]),
        digits_value(d1) <= u64::MAX,
        digits_value(d2) <= u64::MAX,
        digits_value(d1) != digits_value(d2),
    ensures
        natural_ordering(p + d1 + s, p + d2 + s) == if digits_value(d1) < digits_value(d2) {
            Ordering::Less
        } else {
            Ordering::Greater
        },
{
    let kp = natural_key(p);
    let ks = natural_key(s);
    let n1 = SpecChunk::Num(num_value(d1));
    let n2 = SpecChunk::Num(num_value(d2));
    lemma_single_run(d1);
    lemma_single_run(d2);
    lemma_key_concat(p, d1);
    lemma_key_concat(p, d2);
    assert((p + d1).last() == d1.last());
    assert((p + d2).last() == d2.last());
    assert(is_digit(d1.last()) && is_digit(d2.last()));
    lemma_key_concat(p + d1, s);
    lemma_key_concat(p + d2, s);
    let a1 = seq![n1] + ks;
    let a2 = seq![n2] + ks;
    assert(natural_key(p + d1 + s) =~= kp + a1);
    assert(natural_key(p + d2 + s) =~= kp + a2);
    lemma_lex_common_prefix(kp, a1, a2, chunk_order());
    lemma_lex_common_prefix(kp, a2, a1, chunk_order());
    assert(a1[0] == n1 && a2[0] == n2);
    assert(n1 != n2);
}

/// The key of an ASCII name without digits: one text run holding its ASCII
/// lower-casing (none for the empty name).
proof fn lemma_ascii_word_key(a: Seq<char>)
    requires
        is_ascii_text(a),
        forall|k: int| 0 <= k < a.len() ==> !is_digit(#[trigger] a[k]),
    ensures
        natural_key(a) == if a.len() == 0 {
            Seq::<SpecChunk>::empty()
        } else {
            seq![SpecChunk::Text(ascii_lower(a))]
        },
{
    if a.len() > 0 {
        lemma_single_run(a);
    }
}

/// Names of ASCII characters without digits are ordered alphabetically
/// without regard to case: by their ASCII lower-casings, compared by code
/// point, a prefix first (`a.jpg` before `B.jpg` before `c.jpg`).
pub proof fn law_natural_cmp_ascii_words(a: Seq<char>, b: Seq<char>)
    requires
        is_ascii_text(a),
        is_ascii_text(b),
        forall|k: int| 0 <= k < a.len() ==> !is_digit(#[trigger] a[k]),
        forall|k: int| 0 <= k < b.len() ==> !is_digit(#[trigger] b[k]),
    ensures
        (natural_ordering(a, b) == Ordering::Less) <==> chars_lt(ascii_lower(a), ascii_lower(b)),
        (natural_ordering(a, b) == Ordering::Equal) <==> ascii_lower(a) == ascii_lower(b),
{
    lemma_ascii_word_key(a);
    lemma_ascii_word_key(b);
    lemma_key_order();
    lemma_char_order_strict_total();
    lemma_lex_strict_total(char_order());
    let (x, y) = (ascii_lower(a), ascii_lower(b));
    let cl = |u: Seq<char>, v: Seq<char>| lex_lt(u, v, char_order());
    assert(!cl(x, x));
    assert(x != y ==> cl(x, y) || cl(y, x));
    if a.len() > 0 && b.len() > 0 {
        let (ka, kb) = (natural_key(a), natural_key(b));
        assert(ka.drop_first() =~= Seq::<SpecChunk>::empty());
        assert(kb.drop_first() =~= Seq::<SpecChunk>::empty());
        if x != y {
            assert(ka[0] != kb[0]);
        }
    }
}

} // verus!
