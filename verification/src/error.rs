//! Why a request can fail.
use vstd::prelude::*;
use vstd::string::StringExecFns;

verus! {

/// The failure of a request. Where the failure came from the file system,
/// the variant carries the system's own description of it.
#[derive(Debug, PartialEq, Eq)]
pub enum FetchError {
    /// No home directory could be determined.
    NoHome,
    /// The shortcuts directory was missing and could not be created.
    MkdirFailed(String),
    /// The shortcuts directory could not be enumerated.
    EnumFailed(String),
    /// A file could not be opened or read.
    ReadFailed(String),
    /// A file in the shortcuts directory has no name that is text; the
    /// variant carries the file's path.
    BadFilename(String),
}

impl FetchError {
    /// The one line of text that the front end is shown.
    pub open spec fn text(self) -> Seq<char> {
        match self {
            FetchError::NoHome => "Could not find home directory"@,
            FetchError::MkdirFailed(m) => m@,
            FetchError::EnumFailed(m) => m@,
            FetchError::ReadFailed(m) => m@,
            FetchError::BadFilename(p) => "Failed to get file name for "@ + p@,
        }
    }

    /// The one line of text that the front end is shown.
    pub fn message(&self) -> (r: String)
        ensures
            r@ == self.text(),
    {
        match self {
            FetchError::NoHome => String::from_str("Could not find home directory"),
            FetchError::MkdirFailed(m) => m.clone(),
            FetchError::EnumFailed(m) => m.clone(),
            FetchError::ReadFailed(m) => m.clone(),
            FetchError::BadFilename(p) => String::from_str("Failed to get file name for ").concat(
                p.as_str(),
            ),
        }
    }
}

} // verus!
