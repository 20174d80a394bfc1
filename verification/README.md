# comic_core

The core of a comic-book viewer, written in Verus: which files of an archive
are pages, the order in which they are shown, how an archive is recognised,
and the bookkeeping around decoded pages. Every function in `src/` carries a
contract that Verus proves; calls into outside crates go through small trusted
wrappers whose contracts are stated in their doc comments.

## Layout

- `src/` — the verified library.
  - `encoding`, `sort`, `order`, `page_order`: file-name decoding, image-name
    recognition, natural sort keys and the stable natural order of a page list.
  - `reader`, `zip_archive`, `tar_archive`, `sevenz_archive`, `rar_archive`,
    `folder_reader`: page lists built from archive listings.
  - `detect`, `dispatch`, `partial_reader`: choosing a reader by extension or
    magic bytes, and picking the first page for a quick preview.
  - `loader`, `cache`, `pixels`, `rotate`, `compositor`, `thumbnail`: decoded
    pages, the LRU page cache, rotations, two-page spreads, thumbnail order.
  - `session`: how session settings are stored and read back.
- `app/` — ordinary Rust around the library: file and archive I/O, SQLite
  storage, extended attributes, floating-point scaling, parallel thumbnails.
- `tests/` — tests of the library on concrete values.
