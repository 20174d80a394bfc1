use vstd::prelude::*;

use crate::encoding::{decode_filename, is_image_entry, spec_decode_filename, spec_is_image_name};
use crate::reader::{build_page_list, candidates_view, is_page_list, ArchiveEntry, Candidate};

verus! {

/// One entry of a ZIP central directory, as the `zip` crate lists it.
pub struct ZipListingEntry {
    /// File name as stored (not necessarily UTF-8).
    pub raw_name: Vec<u8>,
    pub is_dir: bool,
    /// Uncompressed size.
    pub size: u64,
}

/// A ZIP entry is a page when it is a file whose decoded name is an image name.
pub open spec fn is_zip_page(e: ZipListingEntry) -> bool {
    !e.is_dir && spec_is_image_name(spec_decode_filename(e.raw_name@))
}

/// The pages of a ZIP listing, in listing order.
pub open spec fn zip_candidates(l: Seq<ZipListingEntry>) -> Seq<Candidate>
    decreases l.len(),
{
    if l.len() == 0 {
        seq![]
    } else {
        let c = zip_candidates(l.drop_last());
        let e = l.last();
        if is_zip_page(e) {
            c.push((spec_decode_filename(e.raw_name@), e.size))
        } else {
            c
        }
    }
}

/// The page candidates of a ZIP listing.
pub fn zip_page_candidates(listing: &Vec<ZipListingEntry>) -> (c: Vec<(String, u64)>)
    ensures
        candidates_view(c@) == zip_candidates(listing@),
{
    let mut c: Vec<(String, u64)> = Vec::new();
    let mut i: usize = 0;
    while i < listing.len()
        invariant
            i <= listing@.len(),
            candidates_view(c@) == zip_candidates(listing@.subrange(0, i as int)),
        decreases listing@.len() - i,
    {
        let ghost prefix = listing@.subrange(0, i + 1);
        assert(prefix.drop_last() =~= listing@.subrange(0, i as int));
        let e = &listing[i];
        let filename = decode_filename(e.raw_name.as_slice());
        if !e.is_dir && is_image_entry(filename.as_str()) {
            let ghost before = c@;
            c.push((filename, e.size));
            assert(candidates_view(c@) =~= candidates_view(before).push((filename@, e.size)));
        }
        i = i + 1;
    }
    assert(listing@.subrange(0, listing@.len() as int) =~= listing@);
    c
}

/// The pages of a ZIP/CBZ archive.
pub struct ZipArchive {
    entries: Vec<ArchiveEntry>,
}

impl View for ZipArchive {
    type V = Seq<ArchiveEntry>;

    closed spec fn view(&self) -> Seq<ArchiveEntry> {
        self.entries@
    }
}

impl ZipArchive {
    /// Page list of a ZIP archive from its central directory: the image
    /// files, in natural order.
    pub fn open(listing: &Vec<ZipListingEntry>) -> (r: Self)
        ensures
            is_page_list(r@, zip_candidates(listing@)),
    {
        let c = zip_page_candidates(listing);
        ZipArchive { entries: build_page_list(&c) }
    }

    pub fn entries(&self) -> (r: &[ArchiveEntry])
        ensures
            r@ == self@,
    {
        self.entries.as_slice()
    }
}


/// Entry `k` of a ZIP listing is a file whose decoded name is `name`.
pub open spec fn zip_entry_named(l: Seq<ZipListingEntry>, k: int, name: Seq<char>) -> bool {
    !l[k].is_dir && spec_decode_filename(l[k].raw_name@) == name
}

/// Position in a ZIP listing of the file named `name`: the first entry that
/// is not a directory and whose decoded name is `name`, or `None` when there
/// is none.  The page of that name is read from that position.
pub fn zip_position_of(listing: &Vec<ZipListingEntry>, name: &str) -> (r: Option<usize>)
    ensures
        r is None <==> (forall|k: int|
            0 <= k < listing@.len() ==> !#[trigger] zip_entry_named(listing@, k, name@)),
        r matches Some(k) ==> k < listing@.len() && zip_entry_named(listing@, k as int, name@)
            && forall|j: int| 0 <= j < k ==> !zip_entry_named(listing@, j, name@),
{
    let mut i: usize = 0;
    while i < listing.len()
        invariant
            i <= listing@.len(),
            forall|j: int| 0 <= j < i ==> !zip_entry_named(listing@, j, name@),
        decreases listing@.len() - i,
    {
        let e = &listing[i];
        if !e.is_dir {
            let decoded = decode_filename(e.raw_name.as_slice());
            if decoded.eq(&name.to_owned()) {
                assert(zip_entry_named(listing@, i as int, name@));
                return Some(i);
            }
        }
        i = i + 1;
    }
    None
}

} // verus!
