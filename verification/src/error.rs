use vstd::prelude::*;

verus! {

/// The ways in which encoding or decoding a message can fail.
#[derive(Clone, Copy, Debug, PartialEq, Eq, Structural)]
pub enum CodecError {
    /// A varint length prefix holds a value that does not fit in a `usize`.
    VarIntOverflow,
    /// A message framed with a newline suffix did not end with `'\n'`.
    MissingNewline,
    /// A message is longer than the largest message size allowed.
    MessageTooLarge,
    /// The input ended in the middle of a length prefix or of a message.
    UnexpectedEof,
}

} // verus!
