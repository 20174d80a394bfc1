use vstd::prelude::*;

use crate::error::ScError;
use crate::page_order::{natural_order, natural_order_of_names, names_keys, strings_view};
use crate::types::PageIndex;

verus! {

/// Metadata for a single entry (page/image) inside an archive.
#[derive(Debug, Clone)]
pub struct ArchiveEntry {
    pub index: PageIndex,
    pub filename: String,
    pub size: u64,
}

/// A page candidate: the name of an image file and its size.
pub type Candidate = (Seq<char>, u64);

/// Names of the candidates.
pub open spec fn candidate_names(c: Seq<Candidate>) -> Seq<Seq<char>> {
    c.map_values(|e: Candidate| e.0)
}

/// Position (in the candidate list) of the `k`-th page.
pub open spec fn page_source(c: Seq<Candidate>, k: int) -> int {
    natural_order(names_keys(candidate_names(c)))[k] as int
}

/// `entries` is the page list made of the candidates `c`: one entry per
/// candidate, in natural order of the names (candidates with the same key in
/// the order in which they were listed), each entry holding its own position
/// as its index.
pub open spec fn is_page_list(entries: Seq<ArchiveEntry>, c: Seq<Candidate>) -> bool {
    &&& entries.len() == c.len()
    &&& forall|k: int|
        0 <= k < entries.len() ==> {
            &&& (#[trigger] entries[k]).index == k
            &&& entries[k].filename@ == c[page_source(c, k)].0
            &&& entries[k].size == c[page_source(c, k)].1
        }
}

/// Candidates as mathematical values.
pub open spec fn candidates_view(c: Seq<(String, u64)>) -> Seq<Candidate> {
    c.map_values(|e: (String, u64)| (e.0@, e.1))
}

/// Names of a candidate list.
pub(crate) fn names_of(cands: &Vec<(String, u64)>) -> (names: Vec<String>)
    ensures
        strings_view(names@) == candidate_names(candidates_view(cands@)),
{
    let mut names: Vec<String> = Vec::new();
    let mut i: usize = 0;
    while i < cands.len()
        invariant
            i <= cands@.len(),
            names@.len() == i,
            forall|k: int| 0 <= k < i ==> (#[trigger] names@[k])@ == cands@[k].0@,
        decreases cands@.len() - i,
    {
        names.push(cands[i].0.clone());
        i = i + 1;
    }
    assert(strings_view(names@) =~= candidate_names(candidates_view(cands@)));
    names
}

/// Builds the page list of an archive from its page candidates: sorts them
/// into natural order and numbers them.
pub fn build_page_list(cands: &Vec<(String, u64)>) -> (entries: Vec<ArchiveEntry>)
    ensures
        is_page_list(entries@, candidates_view(cands@)),
{
    let ghost c = candidates_view(cands@);
    let names = names_of(cands);
    let order = natural_order_of_names(&names);
    let mut entries: Vec<ArchiveEntry> = Vec::new();
    let mut k: usize = 0;
    while k < order.len()
        invariant
            c == candidates_view(cands@),
            order@ == natural_order(names_keys(candidate_names(c))),
            order@.len() == cands@.len(),
            forall|m: int| 0 <= m < order@.len() ==> #[trigger] order@[m] < cands@.len(),
            k <= order@.len(),
            entries@.len() == k,
            forall|m: int|
                0 <= m < k ==> {
                    &&& (#[trigger] entries@[m]).index == m
                    &&& entries@[m].filename@ == c[page_source(c, m)].0
                    &&& entries@[m].size == c[page_source(c, m)].1
                },
        decreases order@.len() - k,
    {
        let src = order[k];
        assert(src < cands@.len());
        let entry = ArchiveEntry { index: k, filename: cands[src].0.clone(), size: cands[src].1 };
        entries.push(entry);
        k = k + 1;
    }
    entries
}

/// File name of page `index`, or `EntryNotFound` past the end of the list.
pub fn entry_filename(entries: &[ArchiveEntry], index: PageIndex) -> (r: Result<String, ScError>)
    ensures
        index < entries@.len() ==> (r matches Ok(name) && name@ == entries@[index as int].filename@),
        index >= entries@.len() ==> (r matches Err(ScError::EntryNotFound(i)) && i == index),
{
    if index < entries.len() {
        Ok(entries[index].filename.clone())
    } else {
        Err(ScError::EntryNotFound(index))
    }
}

} // verus!

verus! {

/// One entry of an archive or folder whose names are already text (7-Zip,
/// RAR, a folder on disk).
pub struct NamedListingEntry {
    pub name: String,
    /// Whether the entry is a regular file (not a directory or a link).
    pub is_file: bool,
    pub size: u64,
}

/// A named entry is a page when it is a file with an image name.
pub open spec fn is_named_page(e: NamedListingEntry) -> bool {
    e.is_file && crate::encoding::spec_is_image_name(e.name@)
}

/// The pages of a named listing, in listing order.
pub open spec fn named_candidates(l: Seq<NamedListingEntry>) -> Seq<Candidate>
    decreases l.len(),
{
    if l.len() == 0 {
        seq![]
    } else {
        let c = named_candidates(l.drop_last());
        let e = l.last();
        if is_named_page(e) {
            c.push((e.name@, e.size))
        } else {
            c
        }
    }
}

/// The page candidates of a named listing.
pub fn named_page_candidates(listing: &Vec<NamedListingEntry>) -> (c: Vec<(String, u64)>)
    ensures
        candidates_view(c@) == named_candidates(listing@),
{
    let mut c: Vec<(String, u64)> = Vec::new();
    let mut i: usize = 0;
    assert(candidates_view(c@) =~= Seq::<Candidate>::empty());
    assert(listing@.subrange(0, 0) =~= Seq::<NamedListingEntry>::empty());
    while i < listing.len()
        invariant
            i <= listing@.len(),
            candidates_view(c@) == named_candidates(listing@.subrange(0, i as int)),
        decreases listing@.len() - i,
    {
        let ghost prefix = listing@.subrange(0, i + 1);
        assert(prefix.drop_last() =~= listing@.subrange(0, i as int));
        let e = &listing[i];
        if e.is_file && crate::encoding::is_image_entry(e.name.as_str()) {
            let ghost before = c@;
            c.push((e.name.clone(), e.size));
            assert(candidates_view(c@) =~= candidates_view(before).push((e.name@, e.size)));
        }
        i = i + 1;
    }
    assert(listing@.subrange(0, listing@.len() as int) =~= listing@);
    c
}

} // verus!
