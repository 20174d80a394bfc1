use vstd::prelude::*;
use vstd::utf8::{decode_utf8, valid_utf8};

verus! {

/// The path separator.
pub open spec fn sep_byte() -> u8 {
    0x2f
}

/// The byte that starts a file extension.
pub open spec fn dot_byte() -> u8 {
    0x2e
}

/// Index of the last occurrence of `b` in `s`, or -1 when `b` does not occur.
pub open spec fn rfind(s: Seq<u8>, b: u8) -> int
    decreases s.len(),
{
    if s.len() == 0 {
        -1
    } else if s.last() == b {
        s.len() - 1
    } else {
        rfind(s.drop_last(), b)
    }
}

pub proof fn lemma_rfind_bounds(s: Seq<u8>, b: u8)
    ensures
        -1 <= rfind(s, b) < s.len(),
        rfind(s, b) >= 0 ==> s[rfind(s, b)] == b,
        forall|i: int| rfind(s, b) < i < s.len() ==> s[i] != b,
    decreases s.len(),
{
    if s.len() > 0 && s.last() != b {
        lemma_rfind_bounds(s.drop_last(), b);
        assert forall|i: int| rfind(s, b) < i < s.len() implies s[i] != b by {
            if i < s.len() - 1 {
                assert(s[i] == s.drop_last()[i]);
            }
        }
    }
}

/// Last component of a path, as `std::path::Path::file_name` finds it on a
/// byte path with `/` separators: trailing separators and `.` components are
/// skipped, and a last component `..` (or none at all) gives `None`.
pub open spec fn file_name(p: Seq<u8>) -> Option<Seq<u8>>
    decreases p.len(),
{
    let k = rfind(p, sep_byte());
    let piece = p.subrange(k + 1, p.len() as int);
    if piece.len() == 0 || piece == seq![dot_byte()] {
        if k < 0 {
            None
        } else {
            proof {
                lemma_rfind_bounds(p, sep_byte());
            }
            file_name(p.subrange(0, k))
        }
    } else if piece == seq![dot_byte(), dot_byte()] {
        None
    } else {
        Some(piece)
    }
}

/// Extension of a path, as `std::path::Path::extension` finds it: what follows
/// the last `.` of the file name, unless the file name has no `.` or its only
/// `.` is its first byte.
pub open spec fn extension(p: Seq<u8>) -> Option<Seq<u8>> {
    match file_name(p) {
        None => None,
        Some(f) => {
            let d = rfind(f, dot_byte());
            if d <= 0 {
                None
            } else {
                Some(f.subrange(d + 1, f.len() as int))
            }
        },
    }
}

/// ASCII lower-casing of one byte.
pub open spec fn lower_byte(b: u8) -> u8 {
    if 65 <= b && b <= 90 {
        (b + 32) as u8
    } else {
        b
    }
}

/// ASCII lower-casing of a byte string.
pub open spec fn lower_bytes(s: Seq<u8>) -> Seq<u8> {
    s.map_values(|b: u8| lower_byte(b))
}

/// Extensions of the image files that the viewer shows as pages, compared
/// without regard to ASCII case.  Comparing after full Unicode lower-casing
/// would select the same extensions: no character outside ASCII lower-cases
/// to one of these letters alone.
pub open spec fn is_image_extension(e: Seq<u8>) -> bool {
    let l = lower_bytes(e);
    ||| l == seq![0x6a_u8, 0x70, 0x67]  // jpg
    ||| l == seq![0x6a_u8, 0x70, 0x65, 0x67]  // jpeg
    ||| l == seq![0x70_u8, 0x6e, 0x67]  // png
    ||| l == seq![0x67_u8, 0x69, 0x66]  // gif
    ||| l == seq![0x62_u8, 0x6d, 0x70]  // bmp
    ||| l == seq![0x74_u8, 0x69, 0x66, 0x66]  // tiff
    ||| l == seq![0x74_u8, 0x69, 0x66]  // tif
    ||| l == seq![0x77_u8, 0x65, 0x62, 0x70]  // webp

}

/// Whether a file name denotes a page image.
pub open spec fn spec_is_image_name(name: Seq<char>) -> bool {
    match extension(vstd::utf8::encode_utf8(name)) {
        Some(e) => is_image_extension(e),
        None => false,
    }
}

/// Position of the last `b` in `p[lo..hi]`.
fn rfind_in(p: &[u8], lo: usize, hi: usize, b: u8) -> (r: Option<usize>)
    requires
        lo <= hi <= p@.len(),
    ensures
        match r {
            None => rfind(p@.subrange(lo as int, hi as int), b) == -1,
            Some(k) => lo <= k < hi && rfind(p@.subrange(lo as int, hi as int), b) == k - lo,
        },
{
    let mut i = hi;
    while i > lo && p[i - 1] != b
        invariant
            lo <= i <= hi <= p@.len(),
            rfind(p@.subrange(lo as int, hi as int), b) == rfind(p@.subrange(lo as int, i as int), b),
        decreases i,
    {
        assert(p@.subrange(lo as int, i as int).drop_last() =~= p@.subrange(lo as int, i - 1));
        i = i - 1;
    }
    if i == lo {
        None
    } else {
        Some(i - 1)
    }
}

/// One step of the search for the file name: the file name of `q` seen from
/// its last component.
proof fn lemma_file_name_unfold(q: Seq<u8>)
    ensures
        ({
            let k = rfind(q, sep_byte());
            let piece = q.subrange(k + 1, q.len() as int);
            &&& -1 <= k < q.len()
            &&& file_name(q) == if piece.len() == 0 || piece == seq![dot_byte()] {
                if k < 0 {
                    None
                } else {
                    file_name(q.subrange(0, k))
                }
            } else if piece == seq![dot_byte(), dot_byte()] {
                None
            } else {
                Some(piece)
            }
        }),
{
    lemma_rfind_bounds(q, sep_byte());
}

/// Start and end (exclusive) of the file name of the byte path `p`.
fn file_name_range(p: &[u8]) -> (r: Option<(usize, usize)>)
    ensures
        match r {
            None => file_name(p@) is None,
            Some((s, e)) => s <= e <= p@.len() && file_name(p@) == Some(
                p@.subrange(s as int, e as int),
            ),
        },
{
    let mut end = p.len();
    assert(p@.subrange(0, end as int) =~= p@);
    loop
        invariant
            end <= p@.len(),
            file_name(p@) == file_name(p@.subrange(0, end as int)),
        decreases end,
    {
        let ghost q = p@.subrange(0, end as int);
        let k = rfind_in(p, 0, end, 0x2f);
        let start = match k {
            None => 0,
            Some(k) => k + 1,
        };
        proof {
            lemma_file_name_unfold(q);
            assert(q.subrange(rfind(q, sep_byte()) + 1, q.len() as int) =~= p@.subrange(
                start as int,
                end as int,
            ));
        }
        let len = end - start;
        let ghost piece = p@.subrange(start as int, end as int);
        if len == 0 || (len == 1 && p[start] == 0x2e) {
            assert(len == 1 ==> piece =~= seq![dot_byte()]);
            if start == 0 {
                return None;
            }
            assert(q.subrange(0, start - 1) =~= p@.subrange(0, start - 1));
            end = start - 1;
        } else if len == 2 && p[start] == 0x2e && p[start + 1] == 0x2e {
            assert(piece =~= seq![dot_byte(), dot_byte()]);
            return None;
        } else {
            assert(len == 1 ==> piece[0] != dot_byte());
            assert(len == 2 ==> (piece[0] != dot_byte() || piece[1] != dot_byte()));
            assert(piece != seq![dot_byte()]);
            assert(piece != seq![dot_byte(), dot_byte()]);
            return Some((start, end));
        }
    }
}

/// Start and end (exclusive) of the extension of the byte path `p`.
pub fn extension_range(p: &[u8]) -> (r: Option<(usize, usize)>)
    ensures
        match r {
            None => extension(p@) is None,
            Some((s, e)) => s <= e <= p@.len() && extension(p@) == Some(
                p@.subrange(s as int, e as int),
            ),
        },
{
    match file_name_range(p) {
        None => None,
        Some((start, end)) => {
            let d = rfind_in(p, start, end, 0x2e);
            match d {
                None => None,
                Some(d) => {
                    if d == start {
                        None
                    } else {
                        proof {
                            let f = p@.subrange(start as int, end as int);
                            assert(f.subrange(d - start + 1, f.len() as int) =~= p@.subrange(
                                d + 1,
                                end as int,
                            ));
                        }
                        Some((d + 1, end))
                    }
                },
            }
        },
    }
}

/// Whether `p[s..e]`, lower-cased, equals the lower-case `word`.
pub(crate) fn range_is_word(p: &[u8], s: usize, e: usize, word: &[u8]) -> (r: bool)
    requires
        s <= e <= p@.len(),
    ensures
        r == (lower_bytes(p@.subrange(s as int, e as int)) == word@),
{
    let ghost l = lower_bytes(p@.subrange(s as int, e as int));
    if e - s != word.len() {
        return false;
    }
    let mut i: usize = 0;
    while i < word.len()
        invariant
            s <= e <= p@.len(),
            e - s == word@.len(),
            i <= word@.len(),
            l == lower_bytes(p@.subrange(s as int, e as int)),
            forall|j: int| 0 <= j < i ==> l[j] == word@[j],
        decreases word@.len() - i,
    {
        let b = p[s + i];
        let lb = if 65 <= b && b <= 90 {
            b + 32
        } else {
            b
        };
        if lb != word[i] {
            assert(l[i as int] != word@[i as int]);
            return false;
        }
        i = i + 1;
    }
    assert(l =~= word@);
    true
}

/// Whether `p[s..e]` is the extension of an image file.
fn range_is_image_extension(p: &[u8], s: usize, e: usize) -> (r: bool)
    requires
        s <= e <= p@.len(),
    ensures
        r == is_image_extension(p@.subrange(s as int, e as int)),
{
    let jpg: [u8; 3] = [0x6a, 0x70, 0x67];
    let jpeg: [u8; 4] = [0x6a, 0x70, 0x65, 0x67];
    let png: [u8; 3] = [0x70, 0x6e, 0x67];
    let gif: [u8; 3] = [0x67, 0x69, 0x66];
    let bmp: [u8; 3] = [0x62, 0x6d, 0x70];
    let tiff: [u8; 4] = [0x74, 0x69, 0x66, 0x66];
    let tif: [u8; 3] = [0x74, 0x69, 0x66];
    let webp: [u8; 4] = [0x77, 0x65, 0x62, 0x70];
    assert(jpg@ =~= seq![0x6a_u8, 0x70, 0x67]);
    assert(jpeg@ =~= seq![0x6a_u8, 0x70, 0x65, 0x67]);
    assert(png@ =~= seq![0x70_u8, 0x6e, 0x67]);
    assert(gif@ =~= seq![0x67_u8, 0x69, 0x66]);
    assert(bmp@ =~= seq![0x62_u8, 0x6d, 0x70]);
    assert(tiff@ =~= seq![0x74_u8, 0x69, 0x66, 0x66]);
    assert(tif@ =~= seq![0x74_u8, 0x69, 0x66]);
    assert(webp@ =~= seq![0x77_u8, 0x65, 0x62, 0x70]);
    range_is_word(p, s, e, &jpg) || range_is_word(p, s, e, &jpeg) || range_is_word(p, s, e, &png)
        || range_is_word(p, s, e, &gif) || range_is_word(p, s, e, &bmp) || range_is_word(
        p,
        s,
        e,
        &tiff,
    ) || range_is_word(p, s, e, &tif) || range_is_word(p, s, e, &webp)
}

/// Check if a filename looks like an image file we should include.
pub fn is_image_entry(filename: &str) -> (r: bool)
    ensures
        r == spec_is_image_name(filename@),
{
    let bytes = filename.as_bytes();
    match extension_range(bytes) {
        None => false,
        Some((s, e)) => range_is_image_extension(bytes, s, e),
    }
}


/// Exactly eight extensions mark a page image, whatever their ASCII case:
/// the three-letter `jpg`, `png`, `gif`, `bmp` and `tif`, and the
/// four-letter `jpeg`, `tiff` and `webp`.  A file name is a page image
/// exactly when its extension is one of them.
pub proof fn law_image_extensions(e: Seq<u8>, name: Seq<char>)
    ensures
        is_image_extension(e) <==> {
            let l = lower_bytes(e);
            ||| (l.len() == 3 && (l =~= seq![0x6a_u8, 0x70, 0x67] || l =~= seq![0x70_u8, 0x6e, 0x67]
                || l =~= seq![0x67_u8, 0x69, 0x66] || l =~= seq![0x62_u8, 0x6d, 0x70] || l
                =~= seq![0x74_u8, 0x69, 0x66]))
            ||| (l.len() == 4 && (l =~= seq![0x6a_u8, 0x70, 0x65, 0x67] || l =~= seq![
                0x74_u8,
                0x69,
                0x66,
                0x66,
            ] || l =~= seq![0x77_u8, 0x65, 0x62, 0x70]))
        },
        spec_is_image_name(name) <==> (extension(vstd::utf8::encode_utf8(name)) matches Some(x)
            && is_image_extension(x)),
{
}


/// Extensions are compared without regard to ASCII case: a text without
/// ASCII capitals is its own lower-cased form, and two texts that differ
/// only in the case of ASCII letters have the same lower-cased form (so
/// `PNG`, `Png` and `png` are all the same extension).
pub proof fn law_lower_bytes_ignores_case(a: Seq<u8>, b: Seq<u8>)
    ensures
        (forall|i: int| 0 <= i < a.len() ==> !(0x41 <= #[trigger] a[i] <= 0x5A)) ==> lower_bytes(a)
            == a,
        a.len() == b.len() && (forall|i: int|
            0 <= i < a.len() ==> #[trigger] a[i] == b[i] || (0x41 <= a[i] <= 0x5A && a[i] + 0x20
                == b[i]) || (0x41 <= b[i] <= 0x5A && b[i] + 0x20 == a[i])) ==> lower_bytes(a)
            == lower_bytes(b),
{
    if forall|i: int| 0 <= i < a.len() ==> !(0x41 <= #[trigger] a[i] <= 0x5A) {
        assert(lower_bytes(a) =~= a);
    }
    if a.len() == b.len() && (forall|i: int|
        0 <= i < a.len() ==> #[trigger] a[i] == b[i] || (0x41 <= a[i] <= 0x5A && a[i] + 0x20 == b[i])
            || (0x41 <= b[i] <= 0x5A && b[i] + 0x20 == a[i])) {
        assert(lower_bytes(a) =~= lower_bytes(b));
    }
}


/// The extension of a plain file name is what follows its last dot: for a
/// name `stem.ext` without `/`, with a non-empty stem (which may hold dots
/// itself) and a non-empty `ext` without dots, the extension is `ext`.
pub proof fn law_extension_after_last_dot(stem: Seq<u8>, ext: Seq<u8>)
    requires
        stem.len() > 0,
        ext.len() > 0,
        forall|i: int| 0 <= i < stem.len() ==> #[trigger] stem[i] != 0x2f,
        forall|i: int| 0 <= i < ext.len() ==> #[trigger] ext[i] != 0x2f && ext[i] != 0x2e,
    ensures
        extension(stem + seq![0x2e_u8] + ext) == Some(ext),
{
    let p = stem + seq![0x2e_u8] + ext;
    let d = stem.len() as int;
    assert(p[d] == 0x2e);
    assert forall|i: int| 0 <= i < p.len() implies p[i] != 0x2f by {
        if i < d {
            assert(p[i] == stem[i]);
        } else if i > d {
            assert(p[i] == ext[i - d - 1]);
        }
    }
    lemma_rfind_bounds(p, sep_byte());
    assert(rfind(p, sep_byte()) == -1);
    assert(p.subrange(0, p.len() as int) =~= p);
    assert(p.len() >= 3);
    assert(file_name(p) == Some(p));
    lemma_rfind_bounds(p, dot_byte());
    let r = rfind(p, dot_byte());
    if r > d {
        assert(p[r] == ext[r - d - 1]);
    }
    assert(r == d);
    assert(p.subrange(d + 1, p.len() as int) =~= ext);
}

} // verus!

verus! {

/// The text that `chardetng` and `encoding_rs` make of `bytes`: the encoding
/// guessed by a detector fed with all of `bytes` (no top-level-domain hint,
/// UTF-8 allowed), then `bytes` decoded with it.  A function of the bytes
/// alone.
pub uninterp spec fn detected_text(bytes: Seq<u8>) -> Seq<char>;

/// Calls `std::str::from_utf8`; its documentation promises `Ok` exactly for
/// well-formed UTF-8, holding the decoded characters.
#[verifier::external_body]
fn utf8_text(bytes: &[u8]) -> (r: Option<String>)
    ensures
        r is Some <==> valid_utf8(bytes@),
        r matches Some(s) ==> s@ == decode_utf8(bytes@),
{
    match std::str::from_utf8(bytes) {
        Ok(s) => Some(s.to_owned()),
        Err(_) => None,
    }
}

/// Runs `chardetng::EncodingDetector` (`new`, `feed(bytes, true)`,
/// `guess(None, true)`) and decodes `bytes` with the guessed
/// `encoding_rs::Encoding` (`decode`).  The guessed encoding passes from
/// one crate to the other as an opaque `&'static Encoding`, which no plain
/// value names exactly, so the chain is one trusted step whose result is
/// named `detected_text`; nothing more is claimed of it.  (`decode` needs
/// `encoding_rs`'s `alloc` feature, which is why the crate is a direct
/// dependency.)
#[verifier::external_body]
fn detect_and_decode(bytes: &[u8]) -> (r: String)
    ensures
        r@ == detected_text(bytes@),
{
    let mut detector = chardetng::EncodingDetector::new();
    detector.feed(bytes, true);
    let encoding: &'static encoding_rs::Encoding = detector.guess(None, true);
    let (text, _, _) = encoding.decode(bytes);
    text.into_owned()
}

/// Text of a raw file name as stored in an archive.
pub open spec fn spec_decode_filename(bytes: Seq<u8>) -> Seq<char> {
    if valid_utf8(bytes) {
        decode_utf8(bytes)
    } else {
        detected_text(bytes)
    }
}

/// Detect encoding of raw bytes and convert to UTF-8.
/// Well-formed UTF-8 is taken as it is; anything else goes through encoding
/// detection.
pub fn decode_filename(bytes: &[u8]) -> (r: String)
    ensures
        r@ == spec_decode_filename(bytes@),
{
    match utf8_text(bytes) {
        Some(s) => s,
        None => detect_and_decode(bytes),
    }
}

} // verus!
