//! Lists the dynamic-library dependencies that a portable-executable image
//! declares, and reports which of a set of search directories actually hold a
//! file of each declared name.
//!
//! The two algorithms at the heart of the crate are verified: decoding the
//! import-dependency table out of the raw bytes of an image ([`parse`]), and
//! the ordered multi-directory resolution scan ([`resolve`]). File-system
//! access and console output live outside the library; its functions work on
//! plain values (bytes, strings, booleans) that the caller supplies.

use vstd::prelude::*;
use vstd::string::StringExecFns;

pub mod pe;
pub mod resolver;

pub use pe::parse;
pub use pe::ParseError;
pub use pe::SectionDescriptor;
pub use resolver::resolve;
pub use resolver::ResolutionRecord;

verus! {

/// Configuration options for the dependency analyzer.
#[derive(Debug)]
pub struct Config {
    /// Additional directories to search for dependencies.
    pub dirs: Vec<String>,

    /// Files to analyze (at least one required).
    pub files: Vec<String>,
}

/// Error type for all operations in this crate.
#[derive(Debug)]
pub enum WlddError {
    /// An operating-system I/O failure, described by its message.
    IoError(String),

    /// A path that does not name a regular file, described by a message.
    FileError(String),

    /// A search directory that does not name a directory; holds the path.
    InvalidDirectory(String),

    /// A failure to decode the image's bytes.
    PeParseError(crate::pe::ParseError),
}

/// Decides whether a path may be analyzed, from the facts the caller
/// established about it: whether it exists, and whether it is a regular file.
pub fn validate_file(file: &String, path_exists: bool, is_regular_file: bool) -> (r: Result<
    (),
    WlddError,
>)
    ensures
        r is Ok <==> path_exists && is_regular_file,
        !path_exists ==> (r matches Err(WlddError::FileError(m)) && m@ == file@
            + ": No such file or directory"@),
        path_exists && !is_regular_file ==> (r matches Err(WlddError::FileError(m)) && m@ == file@
            + ": not regular file"@),
{
    if !path_exists {
        let mut m = file.clone();
        m.append(": No such file or directory");
        Err(WlddError::FileError(m))
    } else if !is_regular_file {
        let mut m = file.clone();
        m.append(": not regular file");
        Err(WlddError::FileError(m))
    } else {
        Ok(())
    }
}

/// Decides whether a path may serve as a search directory, from the facts the
/// caller established about it: whether it exists, and whether it is a
/// directory.
pub fn validate_dir(dir: &String, path_exists: bool, is_directory: bool) -> (r: Result<(), WlddError>)
    ensures
        r is Ok <==> path_exists && is_directory,
        !(path_exists && is_directory) ==> (r matches Err(WlddError::InvalidDirectory(m)) && m@
            == dir@),
{
    if !path_exists || !is_directory {
        Err(WlddError::InvalidDirectory(dir.clone()))
    } else {
        Ok(())
    }
}

} // verus!
