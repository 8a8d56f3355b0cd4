//! The errors of the tag engine.

use crate::text::concat2;
use vstd::prelude::*;

verus! {

/// Why the store refused an operation.
#[derive(Debug, Clone, Copy, PartialEq, Eq, Structural)]
pub enum StoreError {
    /// A row that the operation needs does not exist.
    NoRows,
    /// The operation would leave two rows with one unique key.
    Constraint,
    /// No further row id is left.
    Full,
}

/// An error of a tag operation.
#[derive(Debug, PartialEq, Eq)]
pub enum STagError {
    BadTag(String),
    BadTagGroup(String),
    DatabaseError(StoreError),
    NotEnoughTags,
    InvalidPath(String),
    NonCollectionPath(String),
    BadDeviceFile(String),
    PathExists(String),
    RecursiveLink(String),
    IOError(String),
    Other(String),
}

/// An error with its text as a sequence of characters.
pub enum STagErrorView {
    BadTag(Seq<char>),
    BadTagGroup(Seq<char>),
    DatabaseError(StoreError),
    NotEnoughTags,
    InvalidPath(Seq<char>),
    NonCollectionPath(Seq<char>),
    BadDeviceFile(Seq<char>),
    PathExists(Seq<char>),
    RecursiveLink(Seq<char>),
    IOError(Seq<char>),
    Other(Seq<char>),
}

impl View for STagError {
    type V = STagErrorView;

    open spec fn view(&self) -> STagErrorView {
        match self {
            STagError::BadTag(s) => STagErrorView::BadTag(s@),
            STagError::BadTagGroup(s) => STagErrorView::BadTagGroup(s@),
            STagError::DatabaseError(e) => STagErrorView::DatabaseError(*e),
            STagError::NotEnoughTags => STagErrorView::NotEnoughTags,
            STagError::InvalidPath(s) => STagErrorView::InvalidPath(s@),
            STagError::NonCollectionPath(s) => STagErrorView::NonCollectionPath(s@),
            STagError::BadDeviceFile(s) => STagErrorView::BadDeviceFile(s@),
            STagError::PathExists(s) => STagErrorView::PathExists(s@),
            STagError::RecursiveLink(s) => STagErrorView::RecursiveLink(s@),
            STagError::IOError(s) => STagErrorView::IOError(s@),
            STagError::Other(s) => STagErrorView::Other(s@),
        }
    }
}

pub type STagResult<T> = Result<T, STagError>;

/// The number that the file system reports for an error.
#[derive(Debug, Clone, Copy, PartialEq, Eq, Structural)]
pub enum Errno {
    /// Operation not permitted.
    EPERM,
    /// No such file or directory.
    ENOENT,
    /// Input/output error.
    EIO,
    /// File exists.
    EEXIST,
    /// Function not implemented.
    ENOSYS,
    /// No such attribute.
    ENODATA,
}

/// The error number for an error of a tag operation: an existing path is
/// reported as such, anything else as an input/output error.
pub open spec fn errno_of(e: STagErrorView) -> Errno {
    match e {
        STagErrorView::PathExists(_) => Errno::EEXIST,
        _ => Errno::EIO,
    }
}

impl Errno {
    /// The number of this error on Linux.
    pub fn code(&self) -> (c: i32)
        ensures
            c == match *self {
                Errno::EPERM => 1i32,
                Errno::ENOENT => 2i32,
                Errno::EIO => 5i32,
                Errno::EEXIST => 17i32,
                Errno::ENOSYS => 38i32,
                Errno::ENODATA => 61i32,
            },
    {
        match self {
            Errno::EPERM => 1,
            Errno::ENOENT => 2,
            Errno::EIO => 5,
            Errno::EEXIST => 17,
            Errno::ENOSYS => 38,
            Errno::ENODATA => 61,
        }
    }
}

impl STagError {
    /// The error number reported for this error.
    pub fn errno(&self) -> (e: Errno)
        ensures
            e == errno_of(self@),
    {
        match self {
            STagError::PathExists(_) => Errno::EEXIST,
            _ => Errno::EIO,
        }
    }

    /// An error of the store as an error of the library.
    pub fn from_store(e: StoreError) -> (r: Self)
        ensures
            r@ == STagErrorView::DatabaseError(e),
    {
        STagError::DatabaseError(e)
    }

    /// The message shown for this error.
    pub fn message(&self) -> (s: String)
        ensures
            s@ == message_of(self@),
    {
        match self {
            STagError::BadTag(t) => concat2("Invalid tag: ", t.as_str()),
            STagError::BadTagGroup(g) => concat2("Invalid tag group: ", g.as_str()),
            STagError::BadDeviceFile(n) => concat2("Invalid device file: ", n.as_str()),
            STagError::DatabaseError(e) => match e {
                StoreError::NoRows => String::from_str("Database error: no rows"),
                StoreError::Constraint => String::from_str("Database error: constraint violated"),
                StoreError::Full => String::from_str("Database error: no row id left"),
            },
            STagError::InvalidPath(p) => concat2("Invalid path ", p.as_str()),
            STagError::PathExists(p) => concat2(
                concat2("Path ", p.as_str()).as_str(),
                " already exists",
            ),
            STagError::IOError(e) => concat2("IO error: ", e.as_str()),
            STagError::Other(e) => concat2("Other unknown error: ", e.as_str()),
            STagError::NotEnoughTags => String::from_str("Not enough tags"),
            STagError::RecursiveLink(p) => concat2("Recursive symlink ", p.as_str()),
            STagError::NonCollectionPath(p) => concat2(
                concat2("Path ", p.as_str()).as_str(),
                " not found in collection. Try using an absolute path.",
            ),
        }
    }
}

/// The message of each error.
pub open spec fn message_of(e: STagErrorView) -> Seq<char> {
    match e {
        STagErrorView::BadTag(t) => "Invalid tag: "@ + t,
        STagErrorView::BadTagGroup(g) => "Invalid tag group: "@ + g,
        STagErrorView::BadDeviceFile(n) => "Invalid device file: "@ + n,
        STagErrorView::DatabaseError(e) => match e {
            StoreError::NoRows => "Database error: no rows"@,
            StoreError::Constraint => "Database error: constraint violated"@,
            StoreError::Full => "Database error: no row id left"@,
        },
        STagErrorView::InvalidPath(p) => "Invalid path "@ + p,
        STagErrorView::PathExists(p) => "Path "@ + p + " already exists"@,
        STagErrorView::IOError(e) => "IO error: "@ + e,
        STagErrorView::Other(e) => "Other unknown error: "@ + e,
        STagErrorView::NotEnoughTags => "Not enough tags"@,
        STagErrorView::RecursiveLink(p) => "Recursive symlink "@ + p,
        STagErrorView::NonCollectionPath(p) => "Path "@ + p
            + " not found in collection. Try using an absolute path."@,
    }
}

} // verus!
