//! Error values of the decoder, and their ghost counterparts.

use vstd::prelude::*;

verus! {

/// Why a decode failed.  Every error aborts the whole decode of the
/// current input; nothing is retried.
#[derive(Debug)]
pub enum Error {
    /// The input does not begin with the `DI` magic.
    NotDebugInfo,
    /// A field could not be read because the input ended early; the
    /// payload names the field.
    Consume(&'static str),
    /// A debug-directory entry carried a type tag outside the enumerated
    /// range.
    InvalidDebugType(u32),
    /// A symbol name referenced a string-table offset at or past the end
    /// of the table.
    SymbolNameOob,
    /// A symbol carried a storage class outside the closed set this
    /// format uses.
    UnknownSymbolClass(u8),
    /// A source filename in a file-marker symbol was not valid UTF-8.
    FilenameUtf8,
}

/// Ghost mirror of [`Error`]: the spec-level decoder reports failures with
/// these, naming a truncated field by its character sequence.
pub enum GhostErr {
    NotDebugInfo,
    Truncated(Seq<char>),
    InvalidDebugType(u32),
    SymbolNameOob,
    UnknownSymbolClass(u8),
    FilenameUtf8,
}

/// An executable error value carries the same information as a ghost one.
pub open spec fn err_matches(e: Error, k: GhostErr) -> bool {
    match (e, k) {
        (Error::NotDebugInfo, GhostErr::NotDebugInfo) => true,
        (Error::Consume(f), GhostErr::Truncated(t)) => f@ == t,
        (Error::InvalidDebugType(v), GhostErr::InvalidDebugType(w)) => v == w,
        (Error::SymbolNameOob, GhostErr::SymbolNameOob) => true,
        (Error::UnknownSymbolClass(c), GhostErr::UnknownSymbolClass(d)) => c == d,
        (Error::FilenameUtf8, GhostErr::FilenameUtf8) => true,
        _ => false,
    }
}

} // verus!
