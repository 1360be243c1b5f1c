//! The error kinds of an analysis run.

use vstd::prelude::*;

verus! {

pub enum PurgeError {
    /// A file could not be read or listed; carries the system's message.
    Io(String),
    /// A file failed to parse; carries its path and the parser's message.
    ParseError { path: String, message: String },
    /// The configuration or the manifest is malformed.
    Config(String),
    FileNotFound(String),
    /// An entry point resolved to no existing file.
    InvalidEntryPoint(String),
}

} // verus!
