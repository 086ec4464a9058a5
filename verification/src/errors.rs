//! What can go wrong, by component.
use vstd::prelude::*;

verus! {

/// Failures of the record store.
#[derive(Debug, Clone, Copy, PartialEq, Eq, Structural)]
pub enum StoreError {
    /// The user's directory or the record file could not be written or
    /// removed.
    Persistence,
    /// No record file exists for the pin.
    NotFound,
    /// A record file exists and does not hold a pin.
    Corrupt,
    /// The user name or the pin's id is no safe name: it is empty or holds
    /// a character that is no ASCII letter and no digit. Nothing is read
    /// or written for such a name.
    UnsafeName,
}

/// Failures of one snapshot branch. They are reported and never reach the
/// caller that added the pin.
#[derive(Debug, Clone, Copy, PartialEq, Eq, Structural)]
pub enum FetchFailure {
    /// The address of the page is not a URI.
    InvalidUrl,
    /// The address names no host to fetch from.
    EmptyUrl,
}

/// Failures of an archive export.
#[derive(Debug, Clone, Copy, PartialEq, Eq, Structural)]
pub enum ArchiveError {
    /// The user has no record directory.
    NoData,
    /// A file of the directory could not be read, or the archive could not
    /// be written.
    Io,
    /// The user name is no safe name. Nothing is read or written for it.
    UnsafeName,
}

/// Reasons to refuse a signup.
#[derive(Debug, Clone, Copy, PartialEq, Eq, Structural)]
pub enum SignupError {
    /// The password has fewer than eight bytes.
    ShortPassword,
    /// The user name is empty.
    EmptyUsername,
    /// The user name holds a character that is no ASCII letter and no
    /// digit.
    InvalidUsername,
    /// The account exists already.
    UserExists,
}

} // verus!
