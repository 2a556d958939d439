//! The errors of the paste engine.
use vstd::prelude::*;

verus! {

/// What can go wrong while resolving, selecting, writing or uploading pastes.
#[derive(Debug)]
pub enum Error {
    /// The text is not an index document.
    InvalidIndex,
    /// A URL could not be parsed, or lacks the path it needs.
    MalformedUrl,
    /// A requested file name is not among the resolved files.
    FileNotFound(String),
    /// A requested file number is not among the resolved files.
    FileNumberNotFound(usize),
    /// Several files were resolved and no selection was asked for; holds every name.
    AmbiguousSelection(Vec<String>),
    /// A file name would leave the output directory.
    UnsafeFileName(String),
    /// The output destination is missing or not a directory.
    InvalidOutputDirectory,
    /// A fetch or an upload failed; holds what the transport reported.
    Transport(String),
}

} // verus!
