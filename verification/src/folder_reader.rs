use vstd::prelude::*;

use crate::reader::{build_page_list, is_page_list, named_candidates, named_page_candidates, ArchiveEntry, NamedListingEntry};

verus! {

/// The pages of a folder of image files.
pub struct FolderReader {
    entries: Vec<ArchiveEntry>,
}

impl View for FolderReader {
    type V = Seq<ArchiveEntry>;

    closed spec fn view(&self) -> Seq<ArchiveEntry> {
        self.entries@
    }
}

impl FolderReader {
    /// Page list from the directory listing: the image files, in natural order.
    pub fn open(listing: &Vec<NamedListingEntry>) -> (r: Self)
        ensures
            is_page_list(r@, named_candidates(listing@)),
    {
        let c = named_page_candidates(listing);
        FolderReader { entries: build_page_list(&c) }
    }

    pub fn entries(&self) -> (r: &[ArchiveEntry])
        ensures
            r@ == self@,
    {
        self.entries.as_slice()
    }
}

} // verus!
