//! Length-prefixed message framing: varint and big-endian length prefixes,
//! an optional newline suffix, and codecs over `bytes` buffers.

use vstd::prelude::*;

pub mod buffer;
pub mod codec;
pub mod error;
pub mod framed;
pub mod lpm;
pub mod read;
pub mod stack;
pub mod varint;
pub mod vpm;
pub mod write;

pub use codec::{Codec, LengthPrefixed, Prefix, Suffix};
pub use error::CodecError;

verus! {

/// The largest message, in bytes, that the big-endian framing reads or writes.
pub const MAX_MESSAGE_SIZE: usize = 8388608;

} // verus!
