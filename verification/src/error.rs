//! Errors shared by every converter. All of them abort the whole conversion:
//! there is no partial-output mode.

use vstd::prelude::*;

verus! {

/// Why a conversion was aborted.
#[derive(Clone, Copy, Debug, PartialEq, Eq, Structural)]
pub enum TranscodeError {
    /// A numeric opcode outside the instruction table's range.
    UnknownOpcode,
    /// An OASM mnemonic token not present in the instruction table.
    UnknownMnemonic,
    /// An attempt to consume more characters or tokens than remain.
    BufferUnderrun,
    /// A token or character that does not carry the required decimal number:
    /// a non-digit token where a number is expected, a number too large to
    /// encode as a character, or an argument character below the encoding
    /// offset.
    MalformedArgument,
}

} // verus!
