//! Error types of the library.  The unverified front end renders them;
//! messages captured from outside crates travel as plain strings.

use vstd::prelude::*;

verus! {

/// A configuration problem found before any batch work starts.
#[derive(Clone, Copy, Debug, PartialEq, Eq, Structural)]
pub enum ConfigError {
    /// The input file's extension is not a recognized document form.
    UnsupportedExtension,
    /// The output target names an existing regular file.
    NotADirectory,
}

/// A per-document failure while filtering one item.
#[derive(Clone, Debug, PartialEq, Eq)]
pub enum CleanError {
    /// The tokenizer rejected the document; holds its message.
    Xml(String),
    /// The archive could not be opened or read; holds the message.
    Archive(String),
    /// No entry of the source archive names a plain document; holds
    /// the archive's path.
    MissingEntry(Vec<u8>),
    /// The document nests deeper than the machine word can count.
    TooDeep,
}

} // verus!
