use vstd::prelude::*;

use crate::encoding::{decode_filename, is_image_entry, spec_decode_filename, spec_is_image_name};
use crate::error::ScError;
use crate::reader::{build_page_list, candidates_view, is_page_list, ArchiveEntry, Candidate};

verus! {

/// Compression around a tar stream.
#[derive(Debug, Clone, Copy, PartialEq, Eq, Structural)]
pub enum Compression {
    /// No compression: a plain tar stream.
    Plain,
    Gzip,
    Bzip2,
    Xz,
}

/// One entry of a tar stream, as the `tar` crate lists it.
pub struct TarListingEntry {
    /// Path as stored in the header.
    pub raw_path: Vec<u8>,
    /// Whether the header marks the entry as a directory.
    pub is_dir: bool,
    /// Size from the header, or the message of the failure to read it.
    pub size: Result<u64, String>,
}

/// Decoded name of a tar entry.
pub open spec fn tar_name(e: TarListingEntry) -> Seq<char> {
    spec_decode_filename(e.raw_path@)
}

/// A tar entry is a page when it is not a directory and its decoded name is
/// an image name.
pub open spec fn is_tar_page(e: TarListingEntry) -> bool {
    !e.is_dir && spec_is_image_name(tar_name(e))
}

/// Scanning a tar listing in stream order: the pages, or the message of the
/// first page whose size could not be read.
pub open spec fn tar_scan(l: Seq<TarListingEntry>) -> Result<Seq<Candidate>, Seq<char>>
    decreases l.len(),
{
    if l.len() == 0 {
        Ok(seq![])
    } else {
        match tar_scan(l.drop_last()) {
            Err(m) => Err(m),
            Ok(c) => {
                let e = l.last();
                if is_tar_page(e) {
                    match e.size {
                        Ok(s) => Ok(c.push((tar_name(e), s))),
                        Err(m) => Err(m@),
                    }
                } else {
                    Ok(c)
                }
            },
        }
    }
}

/// The page candidates of a tar listing.
fn tar_page_candidates(listing: &Vec<TarListingEntry>) -> (r: Result<Vec<(String, u64)>, ScError>)
    ensures
        match tar_scan(listing@) {
            Ok(c) => r matches Ok(v) && candidates_view(v@) == c,
            Err(m) => r matches Err(ScError::Archive(msg)) && msg@ == m,
        },
{
    let mut c: Vec<(String, u64)> = Vec::new();
    let mut i: usize = 0;
    assert(candidates_view(c@) =~= Seq::<Candidate>::empty());
    assert(listing@.subrange(0, 0) =~= Seq::<TarListingEntry>::empty());
    while i < listing.len()
        invariant
            i <= listing@.len(),
            tar_scan(listing@.subrange(0, i as int)) == Ok::<Seq<Candidate>, Seq<char>>(
                candidates_view(c@),
            ),
        decreases listing@.len() - i,
    {
        let ghost prefix = listing@.subrange(0, i + 1);
        assert(prefix.drop_last() =~= listing@.subrange(0, i as int));
        let e = &listing[i];
        let filename = decode_filename(e.raw_path.as_slice());
        if !e.is_dir && is_image_entry(filename.as_str()) {
            match &e.size {
                Ok(size) => {
                    let ghost before = c@;
                    c.push((filename, *size));
                    assert(candidates_view(c@) =~= candidates_view(before).push((filename@, *size)));
                },
                Err(m) => {
                    proof {
                        lemma_tar_scan_error_sticks(listing@, i + 1);
                    }
                    return Err(ScError::Archive(m.clone()));
                },
            }
        }
        i = i + 1;
    }
    assert(listing@.subrange(0, listing@.len() as int) =~= listing@);
    Ok(c)
}

/// Once a prefix of the listing fails, the whole listing fails the same way.
proof fn lemma_tar_scan_error_sticks(l: Seq<TarListingEntry>, n: int)
    requires
        0 <= n <= l.len(),
        tar_scan(l.subrange(0, n)) is Err,
    ensures
        tar_scan(l) == tar_scan(l.subrange(0, n)),
    decreases l.len() - n,
{
    if n < l.len() {
        assert(l.subrange(0, n + 1).drop_last() =~= l.subrange(0, n));
        lemma_tar_scan_error_sticks(l, n + 1);
    } else {
        assert(l.subrange(0, n) =~= l);
    }
}

/// The pages of a tar archive (plain or compressed).
pub struct TarArchive {
    compression: Compression,
    entries: Vec<ArchiveEntry>,
}

impl View for TarArchive {
    type V = Seq<ArchiveEntry>;

    closed spec fn view(&self) -> Seq<ArchiveEntry> {
        self.entries@
    }
}

impl TarArchive {
    /// The compression the archive was opened with.
    pub closed spec fn spec_compression(&self) -> Compression {
        self.compression
    }

    /// Page list of a tar archive from its stream listing: the image files,
    /// in natural order.  Fails when the size of a page cannot be read from
    /// its header.
    pub fn open(listing: &Vec<TarListingEntry>, compression: Compression) -> (r: Result<
        Self,
        ScError,
    >)
        ensures
            match tar_scan(listing@) {
                Ok(c) => r matches Ok(a) && is_page_list(a@, c) && a.spec_compression()
                    == compression,
                Err(m) => r matches Err(ScError::Archive(msg)) && msg@ == m,
            },
    {
        let c = tar_page_candidates(listing)?;
        Ok(TarArchive { compression, entries: build_page_list(&c) })
    }

    pub fn compression(&self) -> (r: Compression)
        ensures
            r == self.spec_compression(),
    {
        self.compression
    }

    pub fn entries(&self) -> (r: &[ArchiveEntry])
        ensures
            r@ == self@,
    {
        self.entries.as_slice()
    }
}

} // verus!
