//! The library's error type.

use vstd::prelude::*;

verus! {

/// Errors of building a database or a query, and of searching.
#[derive(Debug)]
pub enum Error {
    /// An I/O operation failed; the message of the underlying error.
    Io(String),
    /// The regex engine rejected the pattern; its message.
    Regex(String),
    /// The regex parser rejected the pattern; its message.
    RegexSyntax(String),
    /// An invalid combination of options.
    InvalidOption(String),
    /// A path that is not valid UTF-8 was encountered.
    NonUtf8Path,
    /// The search was aborted.
    SearchAbort,
    /// The index cannot hold more entries, or a name is too long for it.
    IndexFull,
}

} // verus!
