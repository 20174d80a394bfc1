use vstd::prelude::*;
use vstd::string::StringExecFns;
use vstd::utf8::encode_utf8;

use crate::dispatch::{classify_path, path_class, reader_for, ArchiveKind, ExtensionClass};
use crate::encoding::{decode_filename, is_image_entry, spec_decode_filename, spec_is_image_name};
use crate::error::ScError;
use crate::page_order::{
    comes_before, is_natural_order, law_natural_order_first, natural_order, natural_order_of_names,
    names_keys, strings_view,
};
use crate::reader::{
    candidate_names, is_page_list, named_candidates, named_page_candidates, names_of, page_source,
    ArchiveEntry, Candidate, NamedListingEntry,
};
use crate::tar_archive::{is_tar_page, tar_name, tar_scan, TarListingEntry};
use crate::zip_archive::{zip_candidates, zip_page_candidates, ZipListingEntry};

verus! {

/// Where the first image of a path comes from: the archive kind named by its
/// extension, a folder for a directory; RAR archives are refused.
pub open spec fn first_image_source(p: Seq<u8>, is_dir: bool) -> Option<ArchiveKind> {
    match path_class(p) {
        ExtensionClass::Known(ArchiveKind::Rar) => None,
        ExtensionClass::Known(k) => Some(k),
        _ => if is_dir {
            Some(ArchiveKind::Folder)
        } else {
            None
        },
    }
}

/// Read only the first image from an archive without fully decompressing it:
/// decides, from the extension of `path` and whether it is a directory, which
/// reader the first image is read with.
pub fn read_first_image(path: &str, is_dir: bool) -> (r: Result<ArchiveKind, ScError>)
    ensures
        match first_image_source(encode_utf8(path@), is_dir) {
            Some(k) => r == Ok::<ArchiveKind, ScError>(k),
            None => r matches Err(ScError::UnsupportedFormat(m)) && (if path_class(
                encode_utf8(path@),
            ) == ExtensionClass::Known(ArchiveKind::Rar) {
                m@ == "RAR not supported: install unrar-ng feature"@
            } else {
                m@ == path@
            }),
        },
{
    match classify_path(path) {
        ExtensionClass::Known(ArchiveKind::Rar) => Err(
            ScError::UnsupportedFormat("RAR not supported: install unrar-ng feature".to_owned()),
        ),
        ExtensionClass::Known(k) => Ok(k),
        _ => {
            if is_dir {
                Ok(ArchiveKind::Folder)
            } else {
                Err(ScError::UnsupportedFormat(path.to_owned()))
            }
        },
    }
}

/// Name of the first page among the candidates `c`.
pub open spec fn first_page_name(c: Seq<Candidate>) -> Seq<char> {
    c[page_source(c, 0)].0
}

/// `prefix` followed by `path`.
fn message(prefix: &str, path: &str) -> (m: String)
    ensures
        m@ == prefix@ + path@,
{
    let mut m = prefix.to_owned();
    m.append(path);
    m
}

/// The naturally first of the candidates, if any.
fn first_candidate(c: &Vec<(String, u64)>) -> (r: Option<String>)
    ensures
        c@.len() == 0 ==> r is None,
        c@.len() > 0 ==> (r matches Some(n) && n@ == first_page_name(
            crate::reader::candidates_view(c@),
        )),
{
    if c.len() == 0 {
        return None;
    }
    let names = names_of(c);
    let order = natural_order_of_names(&names);
    let first = order[0];
    proof {
        let cv = crate::reader::candidates_view(c@);
        assert(first < names@.len());
        assert(strings_view(names@)[first as int] == names@[first as int]@);
        assert(candidate_names(cv)[first as int] == cv[first as int].0);
    }
    Some(names[first].clone())
}

/// First image of a ZIP/CBZ archive, from its central directory: the name of
/// the naturally first image file.
pub fn first_zip_image(path: &str, listing: &Vec<ZipListingEntry>) -> (r: Result<String, ScError>)
    ensures
        zip_candidates(listing@).len() == 0 ==> (r matches Err(ScError::Archive(m)) && m@
            == "no image entries in zip: "@ + path@),
        zip_candidates(listing@).len() > 0 ==> (r matches Ok(n) && n@ == first_page_name(
            zip_candidates(listing@),
        )),
{
    let c = zip_page_candidates(listing);
    match first_candidate(&c) {
        Some(n) => Ok(n),
        None => Err(ScError::Archive(message("no image entries in zip: ", path))),
    }
}

/// First image of a 7-Zip archive, from its metadata: the name of the
/// naturally first image file.
pub fn first_sevenz_image(path: &str, listing: &Vec<NamedListingEntry>) -> (r: Result<
    String,
    ScError,
>)
    ensures
        named_candidates(listing@).len() == 0 ==> (r matches Err(ScError::Archive(m)) && m@
            == "no image entries in 7z: "@ + path@),
        named_candidates(listing@).len() > 0 ==> (r matches Ok(n) && n@ == first_page_name(
            named_candidates(listing@),
        )),
{
    let c = named_page_candidates(listing);
    match first_candidate(&c) {
        Some(n) => Ok(n),
        None => Err(ScError::Archive(message("no image entries in 7z: ", path))),
    }
}

/// First image of a folder, from its directory listing: the name of the
/// naturally first image file.
pub fn first_folder_image(path: &str, listing: &Vec<NamedListingEntry>) -> (r: Result<
    String,
    ScError,
>)
    ensures
        named_candidates(listing@).len() == 0 ==> (r matches Err(ScError::Archive(m)) && m@
            == "no image files in directory: "@ + path@),
        named_candidates(listing@).len() > 0 ==> (r matches Ok(n) && n@ == first_page_name(
            named_candidates(listing@),
        )),
{
    let c = named_page_candidates(listing);
    match first_candidate(&c) {
        Some(n) => Ok(n),
        None => Err(ScError::Archive(message("no image files in directory: ", path))),
    }
}

/// The image entries of a tar stream, as (decoded name, stream position), in
/// stream order: the entries that are not directories and whose decoded name
/// is an image name.
pub open spec fn tar_stream_images(l: Seq<TarListingEntry>) -> Seq<(Seq<char>, int)>
    decreases l.len(),
{
    if l.len() == 0 {
        seq![]
    } else {
        let c = tar_stream_images(l.drop_last());
        let e = l.last();
        if is_tar_page(e) {
            c.push((tar_name(e), l.len() - 1))
        } else {
            c
        }
    }
}

/// Names of the image entries of a tar stream, in stream order.
pub open spec fn tar_stream_names(l: Seq<TarListingEntry>) -> Seq<Seq<char>> {
    tar_stream_images(l).map_values(|e: (Seq<char>, int)| e.0)
}

/// Stream position of the naturally first image of a tar stream.
pub open spec fn first_tar_position(l: Seq<TarListingEntry>) -> int {
    tar_stream_images(l)[natural_order(names_keys(tar_stream_names(l)))[0] as int].1
}

/// First image of a tar stream, from its entries in stream order: the stream
/// position of the naturally first image file (directories are skipped).
pub fn first_tar_image(path: &str, listing: &Vec<TarListingEntry>) -> (r: Result<usize, ScError>)
    ensures
        tar_stream_images(listing@).len() == 0 ==> (r matches Err(ScError::Archive(m)) && m@
            == "no image entries in tar: "@ + path@),
        tar_stream_images(listing@).len() > 0 ==> (r matches Ok(k) && k == first_tar_position(
            listing@,
        )),
{
    let mut names: Vec<String> = Vec::new();
    let mut positions: Vec<usize> = Vec::new();
    let mut i: usize = 0;
    assert(listing@.subrange(0, 0) =~= Seq::<TarListingEntry>::empty());
    while i < listing.len()
        invariant
            i <= listing@.len(),
            names@.len() == positions@.len(),
            ({
                let c = tar_stream_images(listing@.subrange(0, i as int));
                &&& c.len() == names@.len()
                &&& forall|k: int|
                    0 <= k < c.len() ==> c[k].0 == (#[trigger] names@[k])@ && c[k].1
                        == positions@[k] as int
            }),
        decreases listing@.len() - i,
    {
        let ghost prefix = listing@.subrange(0, i + 1);
        assert(prefix.drop_last() =~= listing@.subrange(0, i as int));
        let e = &listing[i];
        assert(prefix.last() == *e);
        let name = decode_filename(e.raw_path.as_slice());
        assert(is_tar_page(*e) == (!e.is_dir && spec_is_image_name(name@)));
        if !e.is_dir && is_image_entry(name.as_str()) {
            names.push(name);
            positions.push(i);
        }
        i = i + 1;
    }
    assert(listing@.subrange(0, listing@.len() as int) =~= listing@);
    if names.len() == 0 {
        return Err(ScError::Archive(message("no image entries in tar: ", path)));
    }
    let order = natural_order_of_names(&names);
    proof {
        assert(tar_stream_names(listing@) =~= strings_view(names@));
        assert(order@[0] < names@.len());
    }
    let first = order[0];
    proof {
        let c = tar_stream_images(listing@);
        assert(c[first as int].0 == names@[first as int]@);
        assert(c[first as int].1 == positions@[first as int] as int);
    }
    Ok(positions[first])
}

/// When a tar listing scans without error, its image entries in stream order
/// are its page candidates: the same names, each at the stream position of
/// a page entry.
proof fn lemma_tar_images_are_candidates(l: Seq<TarListingEntry>, c: Seq<Candidate>)
    requires
        tar_scan(l) == Ok::<Seq<Candidate>, Seq<char>>(c),
    ensures
        tar_stream_names(l) == candidate_names(c),
        forall|k: int|
            0 <= k < tar_stream_images(l).len() ==> {
                let pos = #[trigger] tar_stream_images(l)[k].1;
                &&& 0 <= pos < l.len()
                &&& is_tar_page(l[pos])
                &&& tar_name(l[pos]) == tar_stream_images(l)[k].0
            },
    decreases l.len(),
{
    if l.len() > 0 {
        let init = l.drop_last();
        let e = l.last();
        match tar_scan(init) {
            Ok(ci) => {
                lemma_tar_images_are_candidates(init, ci);
                let t = tar_stream_images(l);
                let ti = tar_stream_images(init);
                assert forall|k: int| 0 <= k < t.len() implies {
                    let pos = #[trigger] t[k].1;
                    &&& 0 <= pos < l.len()
                    &&& is_tar_page(l[pos])
                    &&& tar_name(l[pos]) == t[k].0
                } by {
                    if k < ti.len() {
                        assert(t[k] == ti[k]);
                        assert(l[ti[k].1] == init[ti[k].1]);
                    }
                }
                if is_tar_page(e) {
                    assert(tar_stream_names(l) =~= tar_stream_names(init).push(tar_name(e)));
                    assert(candidate_names(c) =~= candidate_names(ci).push(tar_name(e)));
                } else {
                    assert(tar_stream_names(l) =~= tar_stream_names(init));
                }
            },
            Err(_) => {},
        }
    } else {
        assert(tar_stream_names(l) =~= candidate_names(c));
    }
}

/// For a tar archive, the first image read for a quick look is the first
/// page: the entry at `first_tar_position` is an image file whose name is
/// that of entry 0 of the tar page list.
pub proof fn law_first_tar_image_is_first_page(
    l: Seq<TarListingEntry>,
    c: Seq<Candidate>,
    entries: Seq<ArchiveEntry>,
)
    requires
        tar_scan(l) == Ok::<Seq<Candidate>, Seq<char>>(c),
        is_page_list(entries, c),
        0 < c.len() <= usize::MAX,
    ensures
        0 <= first_tar_position(l) < l.len(),
        is_tar_page(l[first_tar_position(l)]),
        entries[0].filename@ == tar_name(l[first_tar_position(l)]),
{
    lemma_tar_images_are_candidates(l, c);
    let keys = names_keys(candidate_names(c));
    let p = natural_order(keys);
    assert(is_natural_order(keys, p)) by {
        crate::page_order::lemma_natural_order_exists(keys);
    }
    assert(tar_stream_images(l).len() == c.len()) by {
        assert(tar_stream_names(l).len() == tar_stream_images(l).len());
    }
    let k = p[0] as int;
    assert(0 <= k < c.len());
    let pos = tar_stream_images(l)[k].1;
    assert(tar_stream_names(l)[k] == tar_stream_images(l)[k].0);
    assert(entries[0].filename@ == c[page_source(c, 0)].0);
    assert(candidate_names(c)[k] == c[k].0);
}

/// The first image read for a quick look is the first page of the archive:
/// when the candidates are the same, the naturally first candidate is entry
/// 0 of the page list, and it comes before every other candidate (its key is
/// the smallest, and of equal keys it is the one listed first).
pub proof fn law_first_image_is_first_page(c: Seq<Candidate>, entries: Seq<ArchiveEntry>)
    requires
        is_page_list(entries, c),
        0 < c.len() <= usize::MAX,
    ensures
        entries[0].filename@ == first_page_name(c),
        forall|j: int|
            0 <= j < c.len() && j != page_source(c, 0) ==> comes_before(
                names_keys(candidate_names(c)),
                page_source(c, 0),
                j,
            ),
{
    let keys = names_keys(candidate_names(c));
    assert(entries[0].filename@ == c[page_source(c, 0)].0);
    let p = natural_order(keys);
    assert(is_natural_order(keys, p)) by {
        crate::page_order::lemma_natural_order_exists(keys);
    }
    law_natural_order_first(keys, p);
}


/// The quick look chooses its reader as opening the archive does, except
/// that RAR is refused: for a path whose extension names any archive kind
/// but RAR, both choose that kind; a RAR extension is refused; a directory
/// without an archive extension is a folder; any other path is refused (its
/// first bytes are not consulted).
pub proof fn law_first_image_reader(p: Seq<u8>, is_dir: bool, h: Seq<u8>)
    ensures
        path_class(p) is Known && path_class(p) != ExtensionClass::Known(ArchiveKind::Rar)
            ==> first_image_source(p, is_dir) == reader_for(p, is_dir, h) && first_image_source(
            p,
            is_dir,
        ) == Some(path_class(p)->Known_0),
        path_class(p) == ExtensionClass::Known(ArchiveKind::Rar) ==> first_image_source(p, is_dir)
            is None,
        !(path_class(p) is Known) ==> first_image_source(p, is_dir) == (if is_dir {
            Some(ArchiveKind::Folder)
        } else {
            None::<ArchiveKind>
        }),
{
}

} // verus!
