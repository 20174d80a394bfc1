use comic_core::detect::{detect_format, ArchiveFormat};

const MINIMAL_ZIP_MAGIC: &[u8] = &[0x50, 0x4B, 0x03, 0x04, 0, 0, 0, 0];
const ZERO_BYTES: &[u8] = &[0, 0, 0, 0, 0, 0, 0, 0];

#[test]
fn detects_zip() {
    assert_eq!(detect_format(MINIMAL_ZIP_MAGIC), ArchiveFormat::Zip);
}

#[test]
fn detects_unknown_for_zeros() {
    assert_eq!(detect_format(ZERO_BYTES), ArchiveFormat::Unknown);
}

#[test]
fn detects_7z() {
    let magic: &[u8] = &[0x37, 0x7A, 0xBC, 0xAF, 0x27, 0x1C, 0, 0];
    assert_eq!(detect_format(magic), ArchiveFormat::SevenZ);
}

#[test]
fn detects_rar() {
    let magic: &[u8] = &[0x52, 0x61, 0x72, 0x21, 0x1A, 0x07, 0, 0];
    assert_eq!(detect_format(magic), ArchiveFormat::Rar);
}

#[test]
fn detects_tarbz2() {
    let magic: &[u8] = &[0x42, 0x5A, 0x68, 0, 0, 0, 0, 0];
    assert_eq!(detect_format(magic), ArchiveFormat::TarBz2);
}

#[test]
fn detects_tarxz() {
    let magic: &[u8] = &[0xFD, 0x37, 0x7A, 0x58, 0x5A, 0x00, 0, 0];
    assert_eq!(detect_format(magic), ArchiveFormat::TarXz);
}

#[test]
fn detects_targz() {
    let magic: &[u8] = &[0x1F, 0x8B, 0, 0, 0, 0, 0, 0];
    assert_eq!(detect_format(magic), ArchiveFormat::TarGz);
}

#[test]
fn short_or_empty_header_is_unknown() {
    assert_eq!(detect_format(&[]), ArchiveFormat::Unknown);
    // Only part of the ZIP signature.
    assert_eq!(detect_format(&[0x50, 0x4B, 0x03]), ArchiveFormat::Unknown);
    // Fewer bytes than the longest signature: not enough to tell.
    assert_eq!(detect_format(&[0x1F, 0x8B]), ArchiveFormat::Unknown);
    assert_eq!(detect_format(&[0x50, 0x4B, 0x03, 0x04, 0]), ArchiveFormat::Unknown);
    // Six bytes are enough.
    assert_eq!(detect_format(&[0x1F, 0x8B, 0, 0, 0, 0]), ArchiveFormat::TarGz);
}
