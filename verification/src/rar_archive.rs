use vstd::prelude::*;

use crate::reader::{build_page_list, is_page_list, named_candidates, named_page_candidates, ArchiveEntry, NamedListingEntry};

verus! {

/// The pages of a RAR/CBR archive.
pub struct RarArchive {
    entries: Vec<ArchiveEntry>,
}

impl View for RarArchive {
    type V = Seq<ArchiveEntry>;

    closed spec fn view(&self) -> Seq<ArchiveEntry> {
        self.entries@
    }
}

impl RarArchive {
    /// Page list from the file headers: the image files, in natural order.
    pub fn open(listing: &Vec<NamedListingEntry>) -> (r: Self)
        ensures
            is_page_list(r@, named_candidates(listing@)),
    {
        let c = named_page_candidates(listing);
        RarArchive { entries: build_page_list(&c) }
    }

    pub fn entries(&self) -> (r: &[ArchiveEntry])
        ensures
            r@ == self@,
    {
        self.entries.as_slice()
    }
}

} // verus!
