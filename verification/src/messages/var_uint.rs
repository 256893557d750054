//! The variable-length unsigned integer of the wire format.

use vstd::prelude::*;
use super::wire::{
    be_bytes, be_value, lemma_be_bytes_len, lemma_be_bytes_of_value, lemma_be_value_bound,
    lemma_be_value_of_bytes, lemma_pow256_values, read_be, write_be,
};
use super::{ByteSize, DecodeError};

verus! {

/// An unsigned 64-bit integer in one of four widths. The first byte of the
/// encoding tells the width: a value up to 252 is its own first byte, and the
/// markers `0xFD`, `0xFE` and `0xFF` announce two, four and eight bytes.
#[derive(Debug, Clone, Copy, PartialEq, Eq, Structural)]
pub enum VarUint {
    Small(u8),
    Median(u16),
    Large(u32),
    Big(u64),
}

impl VarUint {
    /// The narrowest variant that holds `num`.
    pub open spec fn spec_new(num: u64) -> VarUint {
        if num <= 252 {
            VarUint::Small(num as u8)
        } else if num <= 0xFFFF {
            VarUint::Median(num as u16)
        } else if num <= 0xFFFF_FFFF {
            VarUint::Large(num as u32)
        } else {
            VarUint::Big(num)
        }
    }

    /// The number held, whatever the width.
    pub open spec fn spec_value(&self) -> u64 {
        match *self {
            VarUint::Small(num) => num as u64,
            VarUint::Median(num) => num as u64,
            VarUint::Large(num) => num as u64,
            VarUint::Big(num) => num,
        }
    }

    /// A one-byte value must stay clear of the three width markers.
    pub open spec fn wf(&self) -> bool {
        *self matches VarUint::Small(num) ==> num <= 252
    }

    /// The bytes on the wire.
    pub open spec fn spec_encode(&self) -> Seq<u8> {
        match *self {
            VarUint::Small(num) => seq![num],
            VarUint::Median(num) => seq![0xFDu8] + be_bytes(num as nat, 2),
            VarUint::Large(num) => seq![0xFEu8] + be_bytes(num as nat, 4),
            VarUint::Big(num) => seq![0xFFu8] + be_bytes(num as nat, 8),
        }
    }

    /// What the front of `bytes` decodes to. Bytes after the encoding are
    /// ignored.
    pub open spec fn spec_decode(bytes: Seq<u8>) -> Result<VarUint, DecodeError> {
        if bytes.len() == 0 {
            Err(DecodeError::ShortBuffer)
        } else if bytes[0] == 0xFD {
            if bytes.len() < 3 {
                Err(DecodeError::ShortBuffer)
            } else {
                Ok(VarUint::Median(be_value(bytes.subrange(1, 3)) as u16))
            }
        } else if bytes[0] == 0xFE {
            if bytes.len() < 5 {
                Err(DecodeError::ShortBuffer)
            } else {
                Ok(VarUint::Large(be_value(bytes.subrange(1, 5)) as u32))
            }
        } else if bytes[0] == 0xFF {
            if bytes.len() < 9 {
                Err(DecodeError::ShortBuffer)
            } else {
                Ok(VarUint::Big(be_value(bytes.subrange(1, 9)) as u64))
            }
        } else {
            Ok(VarUint::Small(bytes[0]))
        }
    }

    /// Picks the narrowest variant that holds `num`.
    pub fn new(num: u64) -> (var: Self)
        ensures
            var == Self::spec_new(num),
            var.wf(),
            var.spec_value() == num,
    {
        if num <= 252 {
            VarUint::Small(num as u8)
        } else if num <= 0xFFFF {
            VarUint::Median(num as u16)
        } else if num <= 0xFFFF_FFFF {
            VarUint::Large(num as u32)
        } else {
            VarUint::Big(num)
        }
    }

    /// The number held, whatever the width.
    #[verifier::when_used_as_spec(spec_value)]
    pub fn value(&self) -> (num: u64)
        ensures
            num == self.spec_value(),
    {
        match self {
            VarUint::Small(num) => *num as u64,
            VarUint::Median(num) => *num as u64,
            VarUint::Large(num) => *num as u64,
            VarUint::Big(num) => *num,
        }
    }
}

/// Encoding and then decoding gives the same integer back, in the same
/// variant, whatever bytes follow it on the wire, and the encoding is as long
/// as the variant says.
pub proof fn lemma_varuint_round_trip(var: VarUint, rest: Seq<u8>)
    requires
        var.wf(),
    ensures
        VarUint::spec_decode(var.spec_encode() + rest) == Ok::<VarUint, DecodeError>(var),
        var.spec_encode().len() == var.spec_byte_size(),
{
    let wire = var.spec_encode() + rest;
    lemma_pow256_values();
    match var {
        VarUint::Small(num) => {},
        VarUint::Median(num) => {
            lemma_be_bytes_len(num as nat, 2);
            lemma_be_value_of_bytes(num as nat, 2);
            assert(wire.subrange(1, 3) =~= be_bytes(num as nat, 2));
        },
        VarUint::Large(num) => {
            lemma_be_bytes_len(num as nat, 4);
            lemma_be_value_of_bytes(num as nat, 4);
            assert(wire.subrange(1, 5) =~= be_bytes(num as nat, 4));
        },
        VarUint::Big(num) => {
            lemma_be_bytes_len(num as nat, 8);
            lemma_be_value_of_bytes(num as nat, 8);
            assert(wire.subrange(1, 9) =~= be_bytes(num as nat, 8));
        },
    }
}

/// Every `u64` survives the trip through `new`, the encoder and the decoder.
pub proof fn lemma_varuint_round_trip_of_number(num: u64)
    ensures
        VarUint::spec_decode(VarUint::spec_new(num).spec_encode()) == Ok::<VarUint, DecodeError>(
            VarUint::spec_new(num),
        ),
        VarUint::spec_new(num).spec_value() == num,
        VarUint::spec_new(num).spec_encode().len() == VarUint::spec_new(num).spec_byte_size(),
{
    let var = VarUint::spec_new(num);
    lemma_varuint_round_trip(var, Seq::empty());
    assert(var.spec_encode() + Seq::<u8>::empty() =~= var.spec_encode());
}

/// `new` never spends more bytes than the number needs: one byte up to 252,
/// three up to 65535, five up to 2^32 - 1 and nine above.
pub proof fn lemma_varuint_minimal_width(num: u64)
    ensures
        VarUint::spec_new(num).spec_encode().len() == if num <= 252 {
            1nat
        } else if num <= 0xFFFF {
            3nat
        } else if num <= 0xFFFF_FFFF {
            5nat
        } else {
            9nat
        },
{
    lemma_varuint_round_trip(VarUint::spec_new(num), Seq::empty());
}

/// What decodes at the front of a buffer is well formed, lies within the
/// buffer, and encodes to the very bytes it was read from.
pub proof fn lemma_varuint_decoded_prefix(bytes: Seq<u8>)
    requires
        VarUint::spec_decode(bytes) is Ok,
    ensures
        ({
            let var = VarUint::spec_decode(bytes)->Ok_0;
            &&& var.wf()
            &&& var.spec_byte_size() <= bytes.len()
            &&& bytes.subrange(0, var.spec_byte_size() as int) == var.spec_encode()
        }),
{
    let var = VarUint::spec_decode(bytes)->Ok_0;
    let size = var.spec_byte_size() as int;
    lemma_pow256_values();
    match var {
        VarUint::Small(num) => {
            assert(bytes.subrange(0, 1) =~= seq![num]);
        },
        VarUint::Median(num) => {
            let digits = bytes.subrange(1, 3);
            lemma_be_value_bound(digits);
            lemma_be_bytes_of_value(digits);
            assert(bytes.subrange(0, 3) =~= seq![0xFDu8] + digits);
        },
        VarUint::Large(num) => {
            let digits = bytes.subrange(1, 5);
            lemma_be_value_bound(digits);
            lemma_be_bytes_of_value(digits);
            assert(bytes.subrange(0, 5) =~= seq![0xFEu8] + digits);
        },
        VarUint::Big(num) => {
            let digits = bytes.subrange(1, 9);
            lemma_be_value_bound(digits);
            lemma_be_bytes_of_value(digits);
            assert(bytes.subrange(0, 9) =~= seq![0xFFu8] + digits);
        },
    }
}

impl ByteSize for VarUint {
    open spec fn spec_byte_size(&self) -> nat {
        match *self {
            VarUint::Small(_) => 1,
            VarUint::Median(_) => 3,
            VarUint::Large(_) => 5,
            VarUint::Big(_) => 9,
        }
    }

    fn byte_size(&self) -> (n: usize) {
        match self {
            VarUint::Small(_) => 1,
            VarUint::Median(_) => 3,
            VarUint::Large(_) => 5,
            VarUint::Big(_) => 9,
        }
    }
}

impl TryFrom<&[u8]> for VarUint {
    type Error = DecodeError;

    /// Decodes the integer at the front of `bytes`.
    fn try_from(bytes: &[u8]) -> (decoded: Result<Self, DecodeError>)
        ensures
            decoded == VarUint::spec_decode(bytes@),
    {
        if bytes.len() == 0 {
            return Err(DecodeError::ShortBuffer);
        }
        let first_byte: u8 = bytes[0];
        let rest: usize = bytes.len() - 1;
        proof {
            lemma_pow256_values();
        }
        if first_byte == 0xFD {
            if rest < 2 {
                Err(DecodeError::ShortBuffer)
            } else {
                proof {
                    lemma_be_value_bound(bytes@.subrange(1, 3));
                }
                Ok(VarUint::Median(read_be(bytes, 1, 2) as u16))
            }
        } else if first_byte == 0xFE {
            if rest < 4 {
                Err(DecodeError::ShortBuffer)
            } else {
                proof {
                    lemma_be_value_bound(bytes@.subrange(1, 5));
                }
                Ok(VarUint::Large(read_be(bytes, 1, 4) as u32))
            }
        } else if first_byte == 0xFF {
            if rest < 8 {
                Err(DecodeError::ShortBuffer)
            } else {
                Ok(VarUint::Big(read_be(bytes, 1, 8)))
            }
        } else {
            Ok(VarUint::Small(first_byte))
        }
    }
}

impl vstd::std_specs::convert::TryFromSpecImpl<&[u8]> for VarUint {
    open spec fn obeys_try_from_spec() -> bool {
        true
    }

    open spec fn try_from_spec(bytes: &[u8]) -> Result<Self, DecodeError> {
        VarUint::spec_decode(bytes@)
    }
}

impl From<VarUint> for Vec<u8> {
    /// Encodes the integer.
    fn from(var: VarUint) -> (bytes: Vec<u8>)
        ensures
            bytes@ == var.spec_encode(),
    {
        let mut bytes: Vec<u8> = Vec::new();
        match var {
            VarUint::Small(num) => {
                bytes.push(num);
            },
            VarUint::Median(num) => {
                bytes.push(0xFD);
                write_be(&mut bytes, num as u64, 2);
            },
            VarUint::Large(num) => {
                bytes.push(0xFE);
                write_be(&mut bytes, num as u64, 4);
            },
            VarUint::Big(num) => {
                bytes.push(0xFF);
                write_be(&mut bytes, num, 8);
            },
        }
        assert(bytes@ =~= var.spec_encode());
        bytes
    }
}

impl vstd::std_specs::convert::FromSpecImpl<VarUint> for Vec<u8> {
    /// A vector is known by its view alone, so the contract of `from` speaks
    /// of the view and this general form promises nothing.
    open spec fn obeys_from_spec() -> bool {
        false
    }

    open spec fn from_spec(var: VarUint) -> Vec<u8> {
        arbitrary()
    }
}

} // verus!
