use vstd::prelude::*;

verus! {

/// `std::io::Error` is carried through the library without being inspected.
#[verifier::external_type_specification]
#[verifier::external_body]
pub struct ExIoError(std::io::Error);

/// Errors reported by the library.
#[derive(Debug)]
pub enum ScError {
    /// An archive could not be read or holds nothing usable.
    Archive(String),
    /// Image data could not be decoded.
    Image(String),
    /// The session or OCR store failed.
    Storage(String),
    /// An I/O failure reported by the operating system.
    Io(std::io::Error),
    /// The file is of a kind the library does not handle.
    UnsupportedFormat(String),
    /// A page index past the end of the page list.
    EntryNotFound(usize),
}

} // verus!
