use vstd::prelude::*;
use vstd::utf8::encode_utf8;

use crate::detect::{detect_format, format_of_header, ArchiveFormat};
use crate::encoding::{extension, extension_range, lower_bytes, range_is_word};
use crate::error::ScError;
use crate::tar_archive::Compression;

verus! {

/// Which reader handles a path.
#[derive(Debug, Clone, Copy, PartialEq, Eq, Structural)]
pub enum ArchiveKind {
    Zip,
    Tar(Compression),
    SevenZ,
    Rar,
    Folder,
}

/// What the extension of a path says about it.
#[derive(Debug, Clone, Copy, PartialEq, Eq, Structural)]
pub enum ExtensionClass {
    /// An archive extension.
    Known(ArchiveKind),
    /// No extension at all.
    Absent,
    /// An extension that names no archive format.
    Unrecognised,
}

/// The archive kind named by an extension, compared without regard to ASCII
/// case.
pub open spec fn kind_of_extension(e: Seq<u8>) -> Option<ArchiveKind> {
    let l = lower_bytes(e);
    if l == seq![0x7au8, 0x69, 0x70] || l == seq![0x63u8, 0x62, 0x7a] {
        Some(ArchiveKind::Zip)  // zip, cbz

    } else if l == seq![0x74u8, 0x61, 0x72] {
        Some(ArchiveKind::Tar(Compression::Plain))  // tar

    } else if l == seq![0x67u8, 0x7a] || l == seq![0x74u8, 0x67, 0x7a] {
        Some(ArchiveKind::Tar(Compression::Gzip))  // gz, tgz

    } else if l == seq![0x62u8, 0x7a, 0x32] || l == seq![0x74u8, 0x62, 0x7a, 0x32] {
        Some(ArchiveKind::Tar(Compression::Bzip2))  // bz2, tbz2

    } else if l == seq![0x78u8, 0x7a] || l == seq![0x74u8, 0x78, 0x7a] {
        Some(ArchiveKind::Tar(Compression::Xz))  // xz, txz

    } else if l == seq![0x37u8, 0x7a] {
        Some(ArchiveKind::SevenZ)  // 7z

    } else if l == seq![0x72u8, 0x61, 0x72] || l == seq![0x63u8, 0x62, 0x72] {
        Some(ArchiveKind::Rar)  // rar, cbr

    } else {
        None
    }
}

/// What the extension of the byte path `p` says about it.
pub open spec fn path_class(p: Seq<u8>) -> ExtensionClass {
    match extension(p) {
        None => ExtensionClass::Absent,
        Some(e) => match kind_of_extension(e) {
            Some(k) => ExtensionClass::Known(k),
            None => ExtensionClass::Unrecognised,
        },
    }
}

/// Classifies a path by its extension.
pub fn classify_path(path: &str) -> (r: ExtensionClass)
    ensures
        r == path_class(encode_utf8(path@)),
{
    let p = path.as_bytes();
    let (s, e) = match extension_range(p) {
        None => {
            return ExtensionClass::Absent;
        },
        Some(range) => range,
    };
    let zip: [u8; 3] = [0x7a, 0x69, 0x70];
    let cbz: [u8; 3] = [0x63, 0x62, 0x7a];
    let tar: [u8; 3] = [0x74, 0x61, 0x72];
    let gz: [u8; 2] = [0x67, 0x7a];
    let tgz: [u8; 3] = [0x74, 0x67, 0x7a];
    let bz2: [u8; 3] = [0x62, 0x7a, 0x32];
    let tbz2: [u8; 4] = [0x74, 0x62, 0x7a, 0x32];
    let xz: [u8; 2] = [0x78, 0x7a];
    let txz: [u8; 3] = [0x74, 0x78, 0x7a];
    let sevenz: [u8; 2] = [0x37, 0x7a];
    let rar: [u8; 3] = [0x72, 0x61, 0x72];
    let cbr: [u8; 3] = [0x63, 0x62, 0x72];
    assert(zip@ =~= seq![0x7au8, 0x69, 0x70]);
    assert(cbz@ =~= seq![0x63u8, 0x62, 0x7a]);
    assert(tar@ =~= seq![0x74u8, 0x61, 0x72]);
    assert(gz@ =~= seq![0x67u8, 0x7a]);
    assert(tgz@ =~= seq![0x74u8, 0x67, 0x7a]);
    assert(bz2@ =~= seq![0x62u8, 0x7a, 0x32]);
    assert(tbz2@ =~= seq![0x74u8, 0x62, 0x7a, 0x32]);
    assert(xz@ =~= seq![0x78u8, 0x7a]);
    assert(txz@ =~= seq![0x74u8, 0x78, 0x7a]);
    assert(sevenz@ =~= seq![0x37u8, 0x7a]);
    assert(rar@ =~= seq![0x72u8, 0x61, 0x72]);
    assert(cbr@ =~= seq![0x63u8, 0x62, 0x72]);
    if range_is_word(p, s, e, &zip) || range_is_word(p, s, e, &cbz) {
        ExtensionClass::Known(ArchiveKind::Zip)
    } else if range_is_word(p, s, e, &tar) {
        ExtensionClass::Known(ArchiveKind::Tar(Compression::Plain))
    } else if range_is_word(p, s, e, &gz) || range_is_word(p, s, e, &tgz) {
        ExtensionClass::Known(ArchiveKind::Tar(Compression::Gzip))
    } else if range_is_word(p, s, e, &bz2) || range_is_word(p, s, e, &tbz2) {
        ExtensionClass::Known(ArchiveKind::Tar(Compression::Bzip2))
    } else if range_is_word(p, s, e, &xz) || range_is_word(p, s, e, &txz) {
        ExtensionClass::Known(ArchiveKind::Tar(Compression::Xz))
    } else if range_is_word(p, s, e, &sevenz) {
        ExtensionClass::Known(ArchiveKind::SevenZ)
    } else if range_is_word(p, s, e, &rar) || range_is_word(p, s, e, &cbr) {
        ExtensionClass::Known(ArchiveKind::Rar)
    } else {
        ExtensionClass::Unrecognised
    }
}

/// The archive kind that a file's magic bytes identify, if the viewer can
/// open it.
pub open spec fn kind_of_format(f: ArchiveFormat) -> Option<ArchiveKind> {
    match f {
        ArchiveFormat::Zip => Some(ArchiveKind::Zip),
        ArchiveFormat::SevenZ => Some(ArchiveKind::SevenZ),
        ArchiveFormat::Rar => Some(ArchiveKind::Rar),
        ArchiveFormat::TarGz => Some(ArchiveKind::Tar(Compression::Gzip)),
        ArchiveFormat::TarBz2 => Some(ArchiveKind::Tar(Compression::Bzip2)),
        ArchiveFormat::TarXz => Some(ArchiveKind::Tar(Compression::Xz)),
        _ => None,
    }
}

/// The reader for a path: by extension first; a directory without an archive
/// extension is a folder of pages; any other file whose extension is absent
/// or names no archive format is recognised by its magic bytes.
pub open spec fn reader_for(p: Seq<u8>, is_dir: bool, header: Seq<u8>) -> Option<ArchiveKind> {
    match path_class(p) {
        ExtensionClass::Known(k) => Some(k),
        _ => if is_dir {
            Some(ArchiveKind::Folder)
        } else {
            kind_of_format(format_of_header(header))
        },
    }
}

/// Open an archive at the given path, dispatching to the appropriate reader
/// based on file extension, or on magic bytes when the extension is absent
/// or unrecognised: decides which reader opens `path`, given
/// whether it is a directory and the first bytes of the file (an empty
/// header when it could not be read).
pub fn open_archive(path: &str, is_dir: bool, header: &[u8]) -> (r: Result<ArchiveKind, ScError>)
    ensures
        match reader_for(encode_utf8(path@), is_dir, header@) {
            Some(k) => r == Ok::<ArchiveKind, ScError>(k),
            None => r matches Err(ScError::UnsupportedFormat(m)) && m@ == path@,
        },
{
    match classify_path(path) {
        ExtensionClass::Known(k) => Ok(k),
        _ => {
            if is_dir {
                Ok(ArchiveKind::Folder)
            } else {
                // The extension is absent or unrecognised: go by magic bytes.
                match detect_format(header) {
                    ArchiveFormat::Zip => Ok(ArchiveKind::Zip),
                    ArchiveFormat::SevenZ => Ok(ArchiveKind::SevenZ),
                    ArchiveFormat::Rar => Ok(ArchiveKind::Rar),
                    ArchiveFormat::TarGz => Ok(ArchiveKind::Tar(Compression::Gzip)),
                    ArchiveFormat::TarBz2 => Ok(ArchiveKind::Tar(Compression::Bzip2)),
                    ArchiveFormat::TarXz => Ok(ArchiveKind::Tar(Compression::Xz)),
                    _ => Err(ScError::UnsupportedFormat(path.to_owned())),
                }
            }
        },
    }
}


/// The table of archive extensions, each compared without regard to ASCII
/// case: `zip` and `cbz` name ZIP, `tar` a plain tar, `gz` and `tgz` a
/// gzip-compressed tar, `bz2` and `tbz2` a bzip2-compressed tar, `xz` and
/// `txz` an xz-compressed tar, `7z` 7-Zip, `rar` and `cbr` RAR; no other
/// extension names an archive, and none names a folder.
pub proof fn law_extension_table(e: Seq<u8>)
    ensures
        (kind_of_extension(e) == Some(ArchiveKind::Zip)) <==> (lower_bytes(e) =~= seq![0x7au8, 0x69, 0x70]
            || lower_bytes(e) =~= seq![0x63u8, 0x62, 0x7a]),
        (kind_of_extension(e) == Some(ArchiveKind::Tar(Compression::Plain))) <==> lower_bytes(e)
            =~= seq![0x74u8, 0x61, 0x72],
        (kind_of_extension(e) == Some(ArchiveKind::Tar(Compression::Gzip))) <==> (lower_bytes(e)
            =~= seq![0x67u8, 0x7a] || lower_bytes(e) =~= seq![0x74u8, 0x67, 0x7a]),
        (kind_of_extension(e) == Some(ArchiveKind::Tar(Compression::Bzip2))) <==> (lower_bytes(e)
            =~= seq![0x62u8, 0x7a, 0x32] || lower_bytes(e) =~= seq![0x74u8, 0x62, 0x7a, 0x32]),
        (kind_of_extension(e) == Some(ArchiveKind::Tar(Compression::Xz))) <==> (lower_bytes(e)
            =~= seq![0x78u8, 0x7a] || lower_bytes(e) =~= seq![0x74u8, 0x78, 0x7a]),
        (kind_of_extension(e) == Some(ArchiveKind::SevenZ)) <==> lower_bytes(e) =~= seq![0x37u8, 0x7a],
        (kind_of_extension(e) == Some(ArchiveKind::Rar)) <==> (lower_bytes(e) =~= seq![0x72u8, 0x61, 0x72]
            || lower_bytes(e) =~= seq![0x63u8, 0x62, 0x72]),
        kind_of_extension(e) != Some(ArchiveKind::Folder),
{
    let l = lower_bytes(e);
    let words = seq![
        seq![0x7au8, 0x69, 0x70],
        seq![0x63u8, 0x62, 0x7a],
        seq![0x74u8, 0x61, 0x72],
        seq![0x67u8, 0x7a],
        seq![0x74u8, 0x67, 0x7a],
        seq![0x62u8, 0x7a, 0x32],
        seq![0x74u8, 0x62, 0x7a, 0x32],
        seq![0x78u8, 0x7a],
        seq![0x74u8, 0x78, 0x7a],
        seq![0x37u8, 0x7a],
        seq![0x72u8, 0x61, 0x72],
        seq![0x63u8, 0x62, 0x72],
    ];
    // The words are pairwise different, so `l` equals at most one of them.
    assert(words[0][0] == 0x7a && words[1][0] == 0x63 && words[2][0] == 0x74 && words[3][0] == 0x67
        && words[4][0] == 0x74 && words[5][0] == 0x62 && words[6][0] == 0x74 && words[7][0] == 0x78
        && words[8][0] == 0x74 && words[9][0] == 0x37 && words[10][0] == 0x72 && words[11][0] == 0x63);
    assert(words[1][2] == 0x7a && words[11][2] == 0x72);
    assert(words[2][1] == 0x61 && words[4][1] == 0x67 && words[6][1] == 0x62 && words[8][1] == 0x78);
    assert(words[2].len() == 3 && words[6].len() == 4);
}

/// How the reader of a path is chosen: a known extension decides; otherwise
/// a directory is a folder, and a file is read by what its first bytes
/// show — ZIP, 7-Zip or RAR for their signatures, a gzip, bzip2 or xz tar
/// for theirs — and is refused when its first 6 bytes show none of them.
pub proof fn law_reader_choice(p: Seq<u8>, is_dir: bool, h: Seq<u8>)
    ensures
        path_class(p) matches ExtensionClass::Known(k) ==> reader_for(p, is_dir, h) == Some(k),
        !(path_class(p) is Known) && is_dir ==> reader_for(p, is_dir, h) == Some(ArchiveKind::Folder),
        !(path_class(p) is Known) && !is_dir ==> {
            &&& (reader_for(p, is_dir, h) == Some(ArchiveKind::Zip)) <==> (h.len() >= 6 && h[0]
                == 0x50 && h[1] == 0x4B && h[2] == 0x03 && h[3] == 0x04)
            &&& (reader_for(p, is_dir, h) == Some(ArchiveKind::SevenZ)) <==> (h.len() >= 6 && h[0]
                == 0x37 && h[1] == 0x7A && h[2] == 0xBC && h[3] == 0xAF && h[4] == 0x27 && h[5]
                == 0x1C)
            &&& (reader_for(p, is_dir, h) == Some(ArchiveKind::Rar)) <==> (h.len() >= 6 && h[0]
                == 0x52 && h[1] == 0x61 && h[2] == 0x72 && h[3] == 0x21 && h[4] == 0x1A && h[5]
                == 0x07)
            &&& (reader_for(p, is_dir, h) == Some(ArchiveKind::Tar(Compression::Xz))) <==> (h.len()
                >= 6 && h[0] == 0xFD && h[1] == 0x37 && h[2] == 0x7A && h[3] == 0x58 && h[4]
                == 0x5A && h[5] == 0x00)
            &&& (reader_for(p, is_dir, h) == Some(ArchiveKind::Tar(Compression::Bzip2))) <==> (
            h.len() >= 6 && h[0] == 0x42 && h[1] == 0x5A && h[2] == 0x68)
            &&& (reader_for(p, is_dir, h) == Some(ArchiveKind::Tar(Compression::Gzip))) <==> (
            h.len() >= 6 && h[0] == 0x1F && h[1] == 0x8B)
            &&& reader_for(p, is_dir, h) != Some(ArchiveKind::Tar(Compression::Plain))
            &&& reader_for(p, is_dir, h) != Some(ArchiveKind::Folder)
        },
{
    crate::detect::law_detect_by_full_signature(h);
}

} // verus!
