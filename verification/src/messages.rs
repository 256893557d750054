//! The wire format: every message type with its encoder and decoder.

use vstd::prelude::*;

pub mod address;
pub mod header;
pub mod states;
pub mod text;
pub mod var_str;
pub mod var_uint;
pub mod whoami;
pub mod wire;

verus! {

/// Why a decoder gave up.
#[derive(Debug, Clone, Copy, PartialEq, Eq, Structural)]
pub enum DecodeError {
    /// The bytes end too early; a longer buffer may decode.
    ShortBuffer,
    /// The bytes cannot be a valid encoding, whatever follows them.
    Malformed,
}

/// A value that knows, before it is serialised, how many bytes it will take.
pub trait ByteSize {
    /// The length of the encoding.
    spec fn spec_byte_size(&self) -> nat;

    fn byte_size(&self) -> (n: usize)
        requires
            self.spec_byte_size() <= usize::MAX,
        ensures
            n == self.spec_byte_size(),
    ;
}

} // verus!
