//! The switches of a file server.

use vstd::prelude::*;

verus! {

/// What a server does beyond serving files and listing directories. Each
/// switch stands alone.
#[derive(Debug, Clone, Copy, PartialEq, Eq, Structural)]
pub struct Options {
    /// Serve a directory's `index.html`, where it has one, in place of its
    /// listing.
    pub index: bool,
    /// Let requests pass through segments that begin with a dot.
    pub dot_files: bool,
    /// Redirect a request for a directory that lacks the closing `/` to the
    /// same path with it.
    pub normalize_dirs: bool,
}

impl Options {
    /// Every switch off.
    pub fn none() -> (r: Options)
        ensures
            r == (Options { index: false, dot_files: false, normalize_dirs: false }),
    {
        Options { index: false, dot_files: false, normalize_dirs: false }
    }
}

} // verus!
