use comic_core::dispatch::{classify_path, open_archive, ArchiveKind, ExtensionClass};
use comic_core::error::ScError;
use comic_core::folder_reader::FolderReader;
use comic_core::partial_reader::{
    first_folder_image, first_sevenz_image, first_tar_image, first_zip_image, read_first_image,
};
use comic_core::reader::{entry_filename, ArchiveEntry, NamedListingEntry};
use comic_core::sevenz_archive::SevenZArchive;
use comic_core::tar_archive::{Compression, TarArchive, TarListingEntry};
use comic_core::zip_archive::{ZipArchive, ZipListingEntry, zip_position_of};

const PNG_LEN: u64 = 69;

fn page_names(count: usize) -> Vec<String> {
    (1..=count).map(|i| format!("page{i:03}.png")).collect()
}

fn zip_listing(names: &[&str]) -> Vec<ZipListingEntry> {
    names
        .iter()
        .map(|n| ZipListingEntry { raw_name: n.as_bytes().to_vec(), is_dir: false, size: PNG_LEN })
        .collect()
}

fn tar_listing(names: &[String]) -> Vec<TarListingEntry> {
    names
        .iter()
        .map(|n| TarListingEntry { raw_path: n.as_bytes().to_vec(), is_dir: false, size: Ok(PNG_LEN) })
        .collect()
}

fn named_listing(names: &[String]) -> Vec<NamedListingEntry> {
    names
        .iter()
        .map(|n| NamedListingEntry { name: n.clone(), is_file: true, size: PNG_LEN })
        .collect()
}

fn filenames(entries: &[ArchiveEntry]) -> Vec<&str> {
    entries.iter().map(|e| e.filename.as_str()).collect()
}

#[test]
fn cbz_open_and_list_entries() {
    let names = page_names(5);
    let refs: Vec<&str> = names.iter().map(|s| s.as_str()).collect();
    let reader = ZipArchive::open(&zip_listing(&refs));
    assert_eq!(reader.entries().len(), 5);
    assert_eq!(reader.entries()[0].filename, "page001.png");
    assert_eq!(reader.entries()[4].filename, "page005.png");
}

#[test]
fn cbz_natural_sort_order() {
    let reader = ZipArchive::open(&zip_listing(&["page10.png", "page2.png", "page1.png"]));
    let entries = reader.entries();
    assert_eq!(entries.len(), 3);
    assert_eq!(entries[0].filename, "page1.png");
    assert_eq!(entries[1].filename, "page2.png");
    assert_eq!(entries[2].filename, "page10.png");
}

#[test]
fn tar_gz_open_and_list() {
    let reader = TarArchive::open(&tar_listing(&page_names(3)), Compression::Gzip)
        .expect("open_archive failed for tar.gz");
    assert_eq!(reader.entries().len(), 3);
}

#[test]
fn folder_open_and_list_entries() {
    let reader = FolderReader::open(&named_listing(&page_names(4)));
    assert_eq!(reader.entries().len(), 4);
    assert_eq!(reader.entries()[0].filename, "page001.png");
}

#[test]
fn sevenz_open_and_list_entries() {
    let reader = SevenZArchive::open(&named_listing(&page_names(3)));
    assert_eq!(reader.entries().len(), 3);
    assert_eq!(reader.entries()[0].filename, "page001.png");
}

#[test]
fn partial_reader_cbz_first_image() {
    let names = page_names(5);
    let refs: Vec<&str> = names.iter().map(|s| s.as_str()).collect();
    let first = first_zip_image("test.cbz", &zip_listing(&refs)).expect("read_first_image failed");
    assert_eq!(first, "page001.png");
}

#[test]
fn partial_reader_tar_gz_first_image() {
    let names = page_names(3);
    let paths = tar_listing(&names);
    let pos = first_tar_image("test.tar.gz", &paths).expect("read_first_image failed");
    assert_eq!(pos, 0);
}

#[test]
fn partial_reader_folder_first_image() {
    let first = first_folder_image("dir", &named_listing(&page_names(3)))
        .expect("read_first_image for folder failed");
    assert_eq!(first, "page001.png");
}

#[test]
fn partial_reader_sevenz_first_image() {
    let first = first_sevenz_image("test.7z", &named_listing(&page_names(3)))
        .expect("read_first_image for 7z failed");
    assert_eq!(first, "page001.png");
}

#[test]
fn tar_bz2_open_and_list() {
    let reader = TarArchive::open(&tar_listing(&page_names(3)), Compression::Bzip2)
        .expect("open_archive failed for tar.bz2");
    assert_eq!(reader.entries().len(), 3);
    assert_eq!(reader.entries()[0].filename, "page001.png");
    assert_eq!(reader.entries()[2].filename, "page003.png");
}

#[test]
fn tar_xz_open_and_list() {
    let reader = TarArchive::open(&tar_listing(&page_names(3)), Compression::Xz)
        .expect("open_archive failed for tar.xz");
    assert_eq!(reader.entries().len(), 3);
    assert_eq!(reader.entries()[0].filename, "page001.png");
    assert_eq!(reader.entries()[2].filename, "page003.png");
}

#[test]
fn cbz_empty_archive_has_no_entries() {
    let reader = ZipArchive::open(&zip_listing(&[]));
    assert_eq!(reader.entries().len(), 0);
}

#[test]
fn cbz_non_image_files_filtered_out() {
    let reader = ZipArchive::open(&zip_listing(&["readme.txt", "metadata.xml", "thumbs.db"]));
    assert_eq!(reader.entries().len(), 0, "non-image files should be filtered out");
}

#[test]
fn cbz_mixed_filters_only_images() {
    let reader =
        ZipArchive::open(&zip_listing(&["readme.txt", "cover.jpg", "page01.png", "thumbs.db"]));
    let entries = reader.entries();
    assert_eq!(entries.len(), 2, "should have exactly 2 image entries");
    // Natural sort order: jpg then png
    assert_eq!(entries[0].filename, "cover.jpg");
    assert_eq!(entries[1].filename, "page01.png");
}

#[test]
fn folder_empty_directory_has_no_entries() {
    let reader = FolderReader::open(&named_listing(&[]));
    assert_eq!(reader.entries().len(), 0);
}

#[test]
fn partial_reader_tar_bz2_first_image() {
    let names = page_names(3);
    let paths = tar_listing(&names);
    assert_eq!(first_tar_image("test.tar.bz2", &paths).expect("read_first_image failed"), 0);
}

#[test]
fn partial_reader_tar_xz_first_image() {
    let names = page_names(3);
    let paths = tar_listing(&names);
    assert_eq!(first_tar_image("test.tar.xz", &paths).expect("read_first_image failed"), 0);
}

#[test]
fn empty_directory_returns_err() {
    let result = first_folder_image("/tmp/empty", &Vec::new());
    assert!(result.is_err(), "expected Err for empty directory");
}

#[test]
fn directory_with_image_returns_bytes() {
    // The only image of the folder is the one chosen; its bytes are then
    // read from disk by the caller.
    let listing = named_listing(&["cover.png".to_string()]);
    let result = first_folder_image("dir", &listing);
    assert!(result.is_ok(), "expected Ok, got {:?}", result.err());
    assert_eq!(result.unwrap(), "cover.png");
}

#[test]
fn directory_natural_sort_picks_first() {
    let listing =
        named_listing(&["page10.jpg".to_string(), "page2.jpg".to_string(), "page1.jpg".to_string()]);
    let result = first_folder_image("dir", &listing).expect("ok");
    // Natural sort picks "page1.jpg" before "page2.jpg" and "page10.jpg".
    assert_eq!(result, "page1.jpg");
}

#[test]
fn zip_returns_first_image_bytes() {
    // Images added out of natural order.
    let listing = zip_listing(&["page10.jpg", "page2.jpg", "page1.jpg"]);
    let result = first_zip_image("test.cbz", &listing).expect("ok");
    assert_eq!(result, "page1.jpg");
}

#[test]
fn unsupported_extension_returns_err() {
    let result = read_first_image("/tmp/archive.xyz", false);
    assert!(result.is_err(), "expected Err for unsupported extension");
}

#[test]
fn rar_extension_returns_err() {
    let result = read_first_image("/tmp/archive.rar", false);
    match result {
        Err(ScError::UnsupportedFormat(msg)) => {
            assert!(msg.contains("RAR not supported"), "unexpected error: {msg}")
        }
        other => panic!("unexpected result: {other:?}"),
    }
}

#[test]
fn cbr_extension_returns_err() {
    let result = read_first_image("/tmp/archive.cbr", false);
    assert!(result.is_err());
}

#[test]
fn first_image_sources_by_extension() {
    assert!(matches!(read_first_image("a/b/comic.CBZ", false), Ok(ArchiveKind::Zip)));
    assert!(matches!(read_first_image("x.zip", false), Ok(ArchiveKind::Zip)));
    assert!(matches!(
        read_first_image("x.tgz", false),
        Ok(ArchiveKind::Tar(Compression::Gzip))
    ));
    assert!(matches!(read_first_image("x.tar", true), Ok(ArchiveKind::Tar(Compression::Plain))));
    assert!(matches!(read_first_image("x.7z", false), Ok(ArchiveKind::SevenZ)));
    assert!(matches!(read_first_image("pages", true), Ok(ArchiveKind::Folder)));
    assert!(matches!(read_first_image("pages.d", true), Ok(ArchiveKind::Folder)));
    match read_first_image("pages", false) {
        Err(ScError::UnsupportedFormat(msg)) => assert_eq!(msg, "pages"),
        other => panic!("unexpected result: {other:?}"),
    }
}

#[test]
fn classify_paths() {
    assert_eq!(classify_path("book.cbr"), ExtensionClass::Known(ArchiveKind::Rar));
    assert_eq!(
        classify_path("book.tar.BZ2"),
        ExtensionClass::Known(ArchiveKind::Tar(Compression::Bzip2))
    );
    assert_eq!(classify_path("book.txz"), ExtensionClass::Known(ArchiveKind::Tar(Compression::Xz)));
    assert_eq!(classify_path("book"), ExtensionClass::Absent);
    assert_eq!(classify_path(".cbz"), ExtensionClass::Absent);
    assert_eq!(classify_path("book.bin"), ExtensionClass::Unrecognised);
}

#[test]
fn open_archive_dispatch() {
    let zip_magic: &[u8] = &[0x50, 0x4B, 0x03, 0x04, 0, 0, 0, 0];
    assert!(matches!(open_archive("a.cbr", false, &[]), Ok(ArchiveKind::Rar)));
    assert!(matches!(open_archive("a.xz", false, &[]), Ok(ArchiveKind::Tar(Compression::Xz))));
    // No extension: a directory is a folder, a file goes by its magic.
    assert!(matches!(open_archive("pages", true, &[]), Ok(ArchiveKind::Folder)));
    assert!(matches!(open_archive("pages", false, zip_magic), Ok(ArchiveKind::Zip)));
    assert!(matches!(open_archive("pages", false, &[0; 8]), Err(ScError::UnsupportedFormat(_))));
    // Unknown extension: a directory is a folder, a file goes by its magic.
    assert!(matches!(open_archive("pages.v1", true, zip_magic), Ok(ArchiveKind::Folder)));
    assert!(matches!(open_archive("book.bin", false, zip_magic), Ok(ArchiveKind::Zip)));
    assert!(matches!(
        open_archive("book.bin", false, &[0x42, 0x5A, 0x68, 0, 0, 0, 0, 0]),
        Ok(ArchiveKind::Tar(Compression::Bzip2))
    ));
    // Too short a header to tell.
    assert!(matches!(
        open_archive("book.bin", false, &[0x42, 0x5A, 0x68]),
        Err(ScError::UnsupportedFormat(_))
    ));
    match open_archive("book.bin", false, &[0; 8]) {
        Err(ScError::UnsupportedFormat(msg)) => assert_eq!(msg, "book.bin"),
        other => panic!("unexpected result: {other:?}"),
    }
}

#[test]
fn zip_directories_are_skipped() {
    let mut listing = zip_listing(&["b.png"]);
    listing.push(ZipListingEntry { raw_name: b"a.png".to_vec(), is_dir: true, size: 0 });
    let reader = ZipArchive::open(&listing);
    assert_eq!(filenames(reader.entries()), ["b.png"]);
}

#[test]
fn page_list_is_stable_and_indexed() {
    // Names with equal keys keep their listing order.
    let listing = zip_listing(&["P2.png", "p10.png", "p2.png", "p02.png", "notes.txt", "p1.png"]);
    let reader = ZipArchive::open(&listing);
    let entries = reader.entries();
    assert_eq!(filenames(entries), ["p1.png", "P2.png", "p2.png", "p02.png", "p10.png"]);
    for (i, e) in entries.iter().enumerate() {
        assert_eq!(e.index, i);
        assert_eq!(e.size, PNG_LEN);
    }
    // The first image read for a quick look is page 0.
    let first = first_zip_image("book.cbz", &listing).unwrap();
    assert_eq!(first, entries[0].filename);
}

#[test]
fn tar_size_failure_of_a_page_fails() {
    let mut listing = tar_listing(&page_names(2));
    listing.push(TarListingEntry { raw_path: b"readme".to_vec(), is_dir: false, size: Err("bad size".to_string()) });
    assert!(TarArchive::open(&listing, Compression::Plain).is_ok());
    listing.push(TarListingEntry { raw_path: b"p.gif".to_vec(), is_dir: false, size: Err("bad size".to_string()) });
    match TarArchive::open(&listing, Compression::Plain) {
        Err(ScError::Archive(msg)) => assert_eq!(msg, "bad size"),
        _ => panic!("expected the size failure"),
    }
}

#[test]
fn tar_first_image_is_a_stream_position() {
    let names: Vec<String> =
        ["readme.txt", "page10.png", "page2.png", "notes"].iter().map(|n| n.to_string()).collect();
    let paths = tar_listing(&names);
    assert_eq!(first_tar_image("t.tar", &paths).unwrap(), 2);
    let none = tar_listing(&["readme.txt".to_string()]);
    match first_tar_image("t.tar", &none) {
        Err(ScError::Archive(msg)) => assert_eq!(msg, "no image entries in tar: t.tar"),
        _ => panic!("expected an error"),
    }
}

#[test]
fn entry_lookup() {
    let reader = SevenZArchive::open(&named_listing(&page_names(2)));
    assert_eq!(entry_filename(reader.entries(), 1).unwrap(), "page002.png");
    assert!(matches!(entry_filename(reader.entries(), 2), Err(ScError::EntryNotFound(2))));
}

#[test]
fn folder_skips_non_files() {
    let mut listing = named_listing(&page_names(1));
    listing.push(NamedListingEntry { name: "sub.png".to_string(), is_file: false, size: 0 });
    let reader = FolderReader::open(&listing);
    assert_eq!(filenames(reader.entries()), ["page001.png"]);
}

#[test]
fn tar_directories_named_like_images_are_not_pages() {
    let mut listing = vec![TarListingEntry { raw_path: b"vol1.jpg/".to_vec(), is_dir: true, size: Ok(0) }];
    listing.extend(tar_listing(&["vol1.jpg/p1.png".to_string()]));
    let reader = TarArchive::open(&listing, Compression::Plain).expect("open");
    assert_eq!(filenames(reader.entries()), ["vol1.jpg/p1.png"]);
    // The quick look skips the directory too: the page is at stream position 1.
    assert_eq!(first_tar_image("t.tar", &listing).unwrap(), 1);
}

#[test]
fn zip_position_of_finds_the_first_file_of_that_name() {
    let mut listing = vec![ZipListingEntry { raw_name: b"a.png".to_vec(), is_dir: true, size: 0 }];
    listing.extend(zip_listing(&["b.png", "a.png", "a.png"]));
    assert_eq!(zip_position_of(&listing, "a.png"), Some(2));
    assert_eq!(zip_position_of(&listing, "b.png"), Some(1));
    assert_eq!(zip_position_of(&listing, "c.png"), None);
}
