//! Clean configuration: everything one run works from.  Parsing the
//! command line into these plain values is the front end's business.

use vstd::prelude::*;
use crate::input::Input;
use crate::output::Output;
use crate::tags::Tags;

verus! {

/// Clean configuration.
#[derive(Debug, PartialEq)]
pub struct Config {
    pub input: Input,
    pub output: Output,
    /// Recursion depth limit for directory enumeration; zero means a
    /// flat scan.
    pub recursive: u8,
    pub tags: Tags,
    /// Compress every output into an archive.
    pub zip: bool,
    /// Uncompress every output to a plain document.
    pub unzip: bool,
    /// Overwrite the input files in place after the batch.
    pub force: bool,
    /// Abort the whole batch at the first per-item failure.
    pub exit_on_err: bool,
}

} // verus!
