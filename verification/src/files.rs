//! What reading and decoding a file can give.

use vstd::prelude::*;

verus! {

/// The outcome of reading a file and decoding what it holds.
#[derive(Debug)]
pub enum FileRead<T> {
    /// The file could not be read, in the words of the file system.
    Unreadable(String),
    /// It does not decode, in the words of the decoder.
    Malformed(String),
    Parsed(T),
}

} // verus!
