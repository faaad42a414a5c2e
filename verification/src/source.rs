//! What the library is told of the file system. Reading belongs to the
//! caller; these values say what it found, and the parsers decide from them.

use vstd::prelude::*;

verus! {

/// `std::io::Error`: the cause of a failed read or write, carried through
/// unread.
#[verifier::external_type_specification]
#[verifier::external_body]
pub struct ExIoError(std::io::Error);

/// `std::path::PathBuf`: where a file stands, carried through unread.
#[verifier::external_type_specification]
#[verifier::external_body]
pub struct ExPathBuf(std::path::PathBuf);

/// What stands at a path where a configuration file is expected.
#[derive(Debug)]
pub enum Source {
    /// Nothing exists at the path.
    Missing,
    /// Something exists at the path that is no regular file.
    NotAFile,
    /// A regular file that could not be opened, and why.
    Unopened(std::io::Error),
    /// A file that was opened: the lines read from its start, each without
    /// its line break, and the failure that ended the reading, if the end of
    /// the file did not.
    Text { lines: Vec<String>, failure: Option<std::io::Error> },
}

/// The base name of a path without its extension.
#[derive(Debug)]
pub enum Stem {
    /// The path has no file name.
    Missing,
    /// The name is not valid UTF-8.
    NotUtf8,
    /// The name.
    Name(String),
}

/// One file of the entries directory.
#[derive(Debug)]
pub struct EntryFile {
    /// Where the file stands.
    pub path: std::path::PathBuf,
    /// The stem of its name.
    pub stem: Stem,
    /// What was found there.
    pub source: Source,
}

/// What listing the entries directory gave.
#[derive(Debug)]
pub enum Listing {
    /// The directory could not be read, and why.
    Unread(std::io::Error),
    /// The entry files that were listed from the start, in the order of the
    /// directory, and the failure that ended the listing, if the end of the
    /// directory did not.
    Files { files: Vec<EntryFile>, failure: Option<std::io::Error> },
}

/// A copy of a path is the same path.
pub assume_specification[ <std::path::PathBuf as Clone>::clone ](
    path: &std::path::PathBuf,
) -> (copy: std::path::PathBuf)
    ensures
        copy == *path,
;

} // verus!
