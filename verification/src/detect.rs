use vstd::prelude::*;

verus! {

/// Archive format identified by magic bytes in the file header.
#[derive(Debug, Clone, Copy, PartialEq, Eq, Structural)]
pub enum ArchiveFormat {
    /// ZIP / CBZ — magic `PK\x03\x04`
    Zip,
    /// 7-Zip — magic `7z\xBC\xAF\x27\x1C`
    SevenZ,
    /// RAR — magic `Rar!\x1A\x07`
    Rar,
    /// gzip-compressed tar — magic `\x1F\x8B`
    TarGz,
    /// bzip2-compressed tar — magic `BZh`
    TarBz2,
    /// xz-compressed tar — magic `\xFD7zXZ\x00`
    TarXz,
    /// Plain tar (ustar header at offset 257) — not probed here
    Tar,
    /// Unrecognised or unreadable file
    Unknown,
}

pub open spec fn sig_zip() -> Seq<u8> {
    seq![0x50u8, 0x4B, 0x03, 0x04]
}

pub open spec fn sig_7z() -> Seq<u8> {
    seq![0x37u8, 0x7A, 0xBC, 0xAF, 0x27, 0x1C]
}

pub open spec fn sig_rar() -> Seq<u8> {
    seq![0x52u8, 0x61, 0x72, 0x21, 0x1A, 0x07]
}

pub open spec fn sig_gz() -> Seq<u8> {
    seq![0x1Fu8, 0x8B]
}

pub open spec fn sig_bz2() -> Seq<u8> {
    seq![0x42u8, 0x5A, 0x68]
}

pub open spec fn sig_xz() -> Seq<u8> {
    seq![0xFDu8, 0x37, 0x7A, 0x58, 0x5A, 0x00]
}

/// `header` begins with `sig`.
pub open spec fn has_prefix(header: Seq<u8>, sig: Seq<u8>) -> bool {
    header.len() >= sig.len() && header.subrange(0, sig.len() as int) == sig
}

/// Length of the longest signature.
pub open spec fn longest_signature() -> nat {
    6
}

/// The format whose signature the header begins with.  A header shorter
/// than the longest signature (6 bytes) is `Unknown`, whatever it begins
/// with: too little of the file was read to tell the formats apart.
pub open spec fn format_of_header(header: Seq<u8>) -> ArchiveFormat {
    if header.len() < longest_signature() {
        ArchiveFormat::Unknown
    } else if has_prefix(header, sig_zip()) {
        ArchiveFormat::Zip
    } else if has_prefix(header, sig_7z()) {
        ArchiveFormat::SevenZ
    } else if has_prefix(header, sig_rar()) {
        ArchiveFormat::Rar
    } else if has_prefix(header, sig_xz()) {
        ArchiveFormat::TarXz
    } else if has_prefix(header, sig_bz2()) {
        ArchiveFormat::TarBz2
    } else if has_prefix(header, sig_gz()) {
        ArchiveFormat::TarGz
    } else {
        ArchiveFormat::Unknown
    }
}

/// Whether `haystack` begins with `needle`.
fn starts_with(haystack: &[u8], needle: &[u8]) -> (r: bool)
    ensures
        r == has_prefix(haystack@, needle@),
{
    if haystack.len() < needle.len() {
        return false;
    }
    let mut i: usize = 0;
    while i < needle.len()
        invariant
            needle@.len() <= haystack@.len(),
            i <= needle@.len(),
            forall|k: int| 0 <= k < i ==> haystack@[k] == needle@[k],
        decreases needle@.len() - i,
    {
        if haystack[i] != needle[i] {
            assert(haystack@.subrange(0, needle@.len() as int)[i as int] != needle@[i as int]);
            return false;
        }
        i = i + 1;
    }
    assert(haystack@.subrange(0, needle@.len() as int) =~= needle@);
    true
}

/// Detect the archive format from the first bytes of a file (up to 8 bytes
/// are read). Returns [`ArchiveFormat::Unknown`] if the header is shorter
/// than the longest signature being matched (6 bytes) or matches none of
/// them.
pub fn detect_format(header: &[u8]) -> (r: ArchiveFormat)
    ensures
        r == format_of_header(header@),
{
    if header.len() < 6 {
        return ArchiveFormat::Unknown;
    }
    let zip: [u8; 4] = [0x50, 0x4B, 0x03, 0x04];
    let sevenz: [u8; 6] = [0x37, 0x7A, 0xBC, 0xAF, 0x27, 0x1C];
    let rar: [u8; 6] = [0x52, 0x61, 0x72, 0x21, 0x1A, 0x07];
    let gz: [u8; 2] = [0x1F, 0x8B];
    let bz2: [u8; 3] = [0x42, 0x5A, 0x68];
    let xz: [u8; 6] = [0xFD, 0x37, 0x7A, 0x58, 0x5A, 0x00];
    assert(zip@ =~= sig_zip());
    assert(sevenz@ =~= sig_7z());
    assert(rar@ =~= sig_rar());
    assert(gz@ =~= sig_gz());
    assert(bz2@ =~= sig_bz2());
    assert(xz@ =~= sig_xz());
    if starts_with(header, &zip) {
        ArchiveFormat::Zip
    } else if starts_with(header, &sevenz) {
        ArchiveFormat::SevenZ
    } else if starts_with(header, &rar) {
        ArchiveFormat::Rar
    } else if starts_with(header, &xz) {
        ArchiveFormat::TarXz
    } else if starts_with(header, &bz2) {
        ArchiveFormat::TarBz2
    } else if starts_with(header, &gz) {
        ArchiveFormat::TarGz
    } else {
        ArchiveFormat::Unknown
    }
}

/// The signatures are distinct in their first byte, so the order in which
/// they are tried does not matter, and a header of at least 6 bytes matches
/// at most one.
pub proof fn law_signatures_exclusive(header: Seq<u8>)
    requires
        header.len() >= longest_signature(),
    ensures
        has_prefix(header, sig_zip()) ==> format_of_header(header) == ArchiveFormat::Zip,
        has_prefix(header, sig_7z()) ==> format_of_header(header) == ArchiveFormat::SevenZ,
        has_prefix(header, sig_rar()) ==> format_of_header(header) == ArchiveFormat::Rar,
        has_prefix(header, sig_xz()) ==> format_of_header(header) == ArchiveFormat::TarXz,
        has_prefix(header, sig_bz2()) ==> format_of_header(header) == ArchiveFormat::TarBz2,
        has_prefix(header, sig_gz()) ==> format_of_header(header) == ArchiveFormat::TarGz,
        format_of_header(header) != ArchiveFormat::Tar,
{
    let sigs = seq![sig_zip(), sig_7z(), sig_rar(), sig_xz(), sig_bz2(), sig_gz()];
    assert forall|i: int, j: int| 0 <= i < 6 && 0 <= j < 6 && i != j && has_prefix(header, #[trigger] sigs[i]) implies !has_prefix(header, #[trigger] sigs[j]) by {
        assert(header[0] == sigs[i][0]) by {
            assert(header.subrange(0, sigs[i].len() as int)[0] == header[0]);
        }
        if has_prefix(header, sigs[j]) {
            assert(header.subrange(0, sigs[j].len() as int)[0] == header[0]);
        }
    }
    assert(sigs[0] == sig_zip());
    assert(sigs[1] == sig_7z());
    assert(sigs[2] == sig_rar());
    assert(sigs[3] == sig_xz());
    assert(sigs[4] == sig_bz2());
    assert(sigs[5] == sig_gz());
}


/// `header` begins with `sig` exactly when it is long enough and agrees with
/// `sig` byte by byte.
proof fn lemma_has_prefix_bytes(header: Seq<u8>, sig: Seq<u8>)
    ensures
        has_prefix(header, sig) <==> (header.len() >= sig.len() && forall|i: int|
            0 <= i < sig.len() ==> header[i] == sig[i]),
{
    if header.len() >= sig.len() {
        if has_prefix(header, sig) {
            assert forall|i: int| 0 <= i < sig.len() implies header[i] == sig[i] by {
                assert(header.subrange(0, sig.len() as int)[i] == header[i]);
            }
        }
        if forall|i: int| 0 <= i < sig.len() ==> header[i] == sig[i] {
            assert(header.subrange(0, sig.len() as int) =~= sig);
        }
    }
}

/// What each detected format means, byte by byte: a format is detected
/// exactly when the header has at least 6 bytes and begins with that
/// format's whole signature (`PK\x03\x04` for ZIP, `7z\xBC\xAF\x27\x1C`
/// for 7-Zip, `Rar!\x1A\x07` for RAR, `\xFD7zXZ\x00` for xz, `BZh` for
/// bzip2, `\x1F\x8B` for gzip).  Any other header is `Unknown`; plain tar
/// is never detected.
pub proof fn law_detect_by_full_signature(h: Seq<u8>)
    ensures
        (format_of_header(h) == ArchiveFormat::Zip) <==> (h.len() >= 6 && h[0] == 0x50 && h[1]
            == 0x4B && h[2] == 0x03 && h[3] == 0x04),
        (format_of_header(h) == ArchiveFormat::SevenZ) <==> (h.len() >= 6 && h[0] == 0x37 && h[1]
            == 0x7A && h[2] == 0xBC && h[3] == 0xAF && h[4] == 0x27 && h[5] == 0x1C),
        (format_of_header(h) == ArchiveFormat::Rar) <==> (h.len() >= 6 && h[0] == 0x52 && h[1]
            == 0x61 && h[2] == 0x72 && h[3] == 0x21 && h[4] == 0x1A && h[5] == 0x07),
        (format_of_header(h) == ArchiveFormat::TarXz) <==> (h.len() >= 6 && h[0] == 0xFD && h[1]
            == 0x37 && h[2] == 0x7A && h[3] == 0x58 && h[4] == 0x5A && h[5] == 0x00),
        (format_of_header(h) == ArchiveFormat::TarBz2) <==> (h.len() >= 6 && h[0] == 0x42 && h[1]
            == 0x5A && h[2] == 0x68),
        (format_of_header(h) == ArchiveFormat::TarGz) <==> (h.len() >= 6 && h[0] == 0x1F && h[1]
            == 0x8B),
        format_of_header(h) != ArchiveFormat::Tar,
{
    lemma_has_prefix_bytes(h, sig_zip());
    lemma_has_prefix_bytes(h, sig_7z());
    lemma_has_prefix_bytes(h, sig_rar());
    lemma_has_prefix_bytes(h, sig_xz());
    lemma_has_prefix_bytes(h, sig_bz2());
    lemma_has_prefix_bytes(h, sig_gz());
    let (z, s7, r, x, b, g) = (sig_zip(), sig_7z(), sig_rar(), sig_xz(), sig_bz2(), sig_gz());
    assert(z.len() == 4 && z[0] == 0x50 && z[1] == 0x4B && z[2] == 0x03 && z[3] == 0x04);
    assert(s7.len() == 6 && s7[0] == 0x37 && s7[1] == 0x7A && s7[2] == 0xBC && s7[3] == 0xAF
        && s7[4] == 0x27 && s7[5] == 0x1C);
    assert(r.len() == 6 && r[0] == 0x52 && r[1] == 0x61 && r[2] == 0x72 && r[3] == 0x21 && r[4]
        == 0x1A && r[5] == 0x07);
    assert(x.len() == 6 && x[0] == 0xFD && x[1] == 0x37 && x[2] == 0x7A && x[3] == 0x58 && x[4]
        == 0x5A && x[5] == 0x00);
    assert(b.len() == 3 && b[0] == 0x42 && b[1] == 0x5A && b[2] == 0x68);
    assert(g.len() == 2 && g[0] == 0x1F && g[1] == 0x8B);
    if h.len() >= 6 {
        assert(has_prefix(h, z) <==> (h[0] == 0x50 && h[1] == 0x4B && h[2] == 0x03 && h[3] == 0x04)) by {
            if h[0] == 0x50 && h[1] == 0x4B && h[2] == 0x03 && h[3] == 0x04 {
                assert forall|i: int| 0 <= i < z.len() implies h[i] == z[i] by {}
            }
        }
        assert(has_prefix(h, s7) <==> (h[0] == 0x37 && h[1] == 0x7A && h[2] == 0xBC && h[3] == 0xAF
            && h[4] == 0x27 && h[5] == 0x1C)) by {
            if h[0] == 0x37 && h[1] == 0x7A && h[2] == 0xBC && h[3] == 0xAF && h[4] == 0x27 && h[5]
                == 0x1C {
                assert forall|i: int| 0 <= i < s7.len() implies h[i] == s7[i] by {}
            }
        }
        assert(has_prefix(h, r) <==> (h[0] == 0x52 && h[1] == 0x61 && h[2] == 0x72 && h[3] == 0x21
            && h[4] == 0x1A && h[5] == 0x07)) by {
            if h[0] == 0x52 && h[1] == 0x61 && h[2] == 0x72 && h[3] == 0x21 && h[4] == 0x1A && h[5]
                == 0x07 {
                assert forall|i: int| 0 <= i < r.len() implies h[i] == r[i] by {}
            }
        }
        assert(has_prefix(h, x) <==> (h[0] == 0xFD && h[1] == 0x37 && h[2] == 0x7A && h[3] == 0x58
            && h[4] == 0x5A && h[5] == 0x00)) by {
            if h[0] == 0xFD && h[1] == 0x37 && h[2] == 0x7A && h[3] == 0x58 && h[4] == 0x5A && h[5]
                == 0x00 {
                assert forall|i: int| 0 <= i < x.len() implies h[i] == x[i] by {}
            }
        }
        assert(has_prefix(h, b) <==> (h[0] == 0x42 && h[1] == 0x5A && h[2] == 0x68)) by {
            if h[0] == 0x42 && h[1] == 0x5A && h[2] == 0x68 {
                assert forall|i: int| 0 <= i < b.len() implies h[i] == b[i] by {}
            }
        }
        assert(has_prefix(h, g) <==> (h[0] == 0x1F && h[1] == 0x8B)) by {
            if h[0] == 0x1F && h[1] == 0x8B {
                assert forall|i: int| 0 <= i < g.len() implies h[i] == g[i] by {}
            }
        }
    }
}

} // verus!
