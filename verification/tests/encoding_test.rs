use comic_core::encoding::{decode_filename, is_image_entry};

#[test]
fn test_is_image_entry() {
    assert!(is_image_entry("page01.jpg"));
    assert!(is_image_entry("COVER.PNG"));
    assert!(is_image_entry("image.webp"));
    assert!(!is_image_entry("readme.txt"));
    assert!(!is_image_entry("metadata.xml"));
}

#[test]
fn test_decode_utf8() {
    let bytes = b"page01.jpg";
    assert_eq!(decode_filename(bytes), "page01.jpg");
}

#[test]
fn image_entry_all_extensions() {
    for name in [
        "a.jpg", "a.jpeg", "a.png", "a.gif", "a.bmp", "a.tiff", "a.tif", "a.webp", "A.JpEg",
        "dir/sub/page.Tif",
    ] {
        assert!(is_image_entry(name), "{name} should be an image");
    }
}

#[test]
fn image_entry_path_edge_cases() {
    // A leading dot alone is not an extension.
    assert!(!is_image_entry(".jpg"));
    // But a name with another dot before it has one.
    assert!(is_image_entry("..jpg"));
    // Trailing separators and `.` components are skipped.
    assert!(is_image_entry("scan.png/"));
    assert!(is_image_entry("scan.png/."));
    // A final `..` has no file name.
    assert!(!is_image_entry("scan.png/.."));
    // The extension belongs to the last component only.
    assert!(!is_image_entry("pics.jpg/readme"));
    assert!(!is_image_entry("jpg"));
    assert!(!is_image_entry(""));
    assert!(!is_image_entry("page.jpg.txt"));
    assert!(!is_image_entry("page.jpgx"));
}

#[test]
fn decode_latin1_name_is_not_returned_raw() {
    // Not UTF-8: detection decodes the byte 0xE9 as a character of a legacy
    // encoding instead of failing.
    let bytes = b"caf\xe9.jpg";
    let name = decode_filename(bytes);
    assert!(name.ends_with(".jpg"));
    assert!(name.starts_with("caf"));
    assert_eq!(name.chars().count(), 8);
}
