//! The length-prefixed ASCII string of the wire format.

use vstd::prelude::*;
use vstd::utf8::{encode_utf8, is_ascii_chars};
use super::text::{
    all_ascii, ascii_text, lemma_ascii_bytes_of_text, lemma_ascii_text_of_bytes, text_of_bytes,
};
use super::var_uint::{lemma_varuint_decoded_prefix, lemma_varuint_round_trip, VarUint};
use super::{ByteSize, DecodeError};

verus! {

/// A string with its length in front.
#[derive(Debug, PartialEq)]
pub struct VarStr {
    length: VarUint,
    string_value: String,
}

/// What a `VarStr` holds: the length as it stands on the wire, and the text.
pub struct VarStrView {
    pub length: VarUint,
    pub text: Seq<char>,
}

impl VarStrView {
    /// The string that `new` makes of `text`.
    pub open spec fn of_text(text: Seq<char>) -> VarStrView {
        VarStrView { length: VarUint::spec_new(encode_utf8(text).len() as u64), text }
    }

    /// The text is ASCII and the prefix counts its bytes.
    pub open spec fn wf(self) -> bool {
        &&& self.length.wf()
        &&& is_ascii_chars(self.text)
        &&& self.length.spec_value() == self.text.len()
    }

    /// The length of the encoding, as the prefix announces it.
    pub open spec fn spec_byte_size(self) -> nat {
        self.length.spec_byte_size() + self.length.spec_value() as nat
    }

    /// The bytes on the wire.
    pub open spec fn spec_encode(self) -> Seq<u8> {
        self.length.spec_encode() + encode_utf8(self.text)
    }
}

impl View for VarStr {
    type V = VarStrView;

    closed spec fn view(&self) -> VarStrView {
        VarStrView { length: self.length, text: self.string_value@ }
    }
}

impl VarStr {
    /// What the front of `bytes` decodes to. Bytes after the encoding are
    /// ignored.
    pub open spec fn spec_decode(bytes: Seq<u8>) -> Result<VarStrView, DecodeError> {
        match VarUint::spec_decode(bytes) {
            Err(e) => Err(e),
            Ok(length) => {
                let start = length.spec_byte_size() as int;
                let end = start + length.spec_value();
                if bytes.len() < end {
                    Err(DecodeError::ShortBuffer)
                } else if !all_ascii(bytes.subrange(start, end)) {
                    Err(DecodeError::Malformed)
                } else {
                    Ok(VarStrView { length, text: ascii_text(bytes.subrange(start, end)) })
                }
            },
        }
    }

    /// Wraps `string_value`, with the narrowest prefix that holds its length.
    pub fn new(string_value: String) -> (var: Self)
        ensures
            var@ == VarStrView::of_text(string_value@),
            is_ascii_chars(string_value@) ==> var@.wf(),
    {
        let length = VarUint::new(string_value.as_str().as_bytes().len() as u64);
        proof {
            if is_ascii_chars(string_value@) {
                lemma_ascii_bytes_of_text(string_value@);
            }
        }
        VarStr { length, string_value }
    }

    /// The text.
    pub fn value(&self) -> (text: String)
        ensures
            text@ == self@.text,
    {
        self.string_value.clone()
    }
}

/// Encoding and then decoding well-formed text gives it back, whatever bytes
/// follow it on the wire, and the encoding is as long as announced.
pub proof fn lemma_varstr_round_trip(var: VarStrView, rest: Seq<u8>)
    requires
        var.wf(),
    ensures
        VarStr::spec_decode(var.spec_encode() + rest) == Ok::<VarStrView, DecodeError>(var),
        var.spec_encode().len() == var.spec_byte_size(),
{
    let wire = var.spec_encode() + rest;
    let body = encode_utf8(var.text);
    let start = var.length.spec_byte_size() as int;
    let end = start + var.length.spec_value();
    lemma_ascii_bytes_of_text(var.text);
    lemma_varuint_round_trip(var.length, body + rest);
    assert(wire =~= var.length.spec_encode() + (body + rest));
    assert(wire.subrange(start, end) =~= body);
}

/// Every ASCII string whose length fits 64 bits survives the trip through
/// `new`, the encoder and the decoder.
pub proof fn lemma_varstr_round_trip_of_text(text: Seq<char>)
    requires
        is_ascii_chars(text),
        text.len() <= u64::MAX,
    ensures
        VarStrView::of_text(text).wf(),
        VarStr::spec_decode(VarStrView::of_text(text).spec_encode()) == Ok::<
            VarStrView,
            DecodeError,
        >(VarStrView::of_text(text)),
{
    let var = VarStrView::of_text(text);
    lemma_ascii_bytes_of_text(text);
    lemma_varstr_round_trip(var, Seq::empty());
    assert(var.spec_encode() + Seq::<u8>::empty() =~= var.spec_encode());
}

/// What decodes at the front of a buffer is well formed, lies within the
/// buffer, and encodes to the very bytes it was read from.
pub proof fn lemma_varstr_decoded_prefix(bytes: Seq<u8>)
    requires
        VarStr::spec_decode(bytes) is Ok,
    ensures
        ({
            let var = VarStr::spec_decode(bytes)->Ok_0;
            &&& var.wf()
            &&& var.spec_byte_size() <= bytes.len()
            &&& bytes.subrange(0, var.spec_byte_size() as int) == var.spec_encode()
        }),
{
    let var = VarStr::spec_decode(bytes)->Ok_0;
    let start = var.length.spec_byte_size() as int;
    let end = start + var.length.spec_value();
    lemma_varuint_decoded_prefix(bytes);
    lemma_ascii_text_of_bytes(bytes.subrange(start, end));
    assert(bytes.subrange(0, end) =~= bytes.subrange(0, start) + bytes.subrange(start, end));
}

impl ByteSize for VarStr {
    open spec fn spec_byte_size(&self) -> nat {
        self@.spec_byte_size()
    }

    fn byte_size(&self) -> (n: usize) {
        self.length.byte_size() + self.length.value() as usize
    }
}

impl TryFrom<&[u8]> for VarStr {
    type Error = DecodeError;

    /// Decodes the string at the front of `bytes`.
    fn try_from(bytes: &[u8]) -> (decoded: Result<Self, DecodeError>)
        ensures
            match decoded {
                Ok(var) => VarStr::spec_decode(bytes@) == Ok::<VarStrView, DecodeError>(var@),
                Err(e) => VarStr::spec_decode(bytes@) == Err::<VarStrView, DecodeError>(e),
            },
    {
        let length = match VarUint::try_from(bytes) {
            Ok(length) => length,
            Err(e) => {
                return Err(e);
            },
        };
        let start: usize = length.byte_size();
        proof {
            lemma_varuint_decoded_prefix(bytes@);
        }
        if ((bytes.len() - start) as u64) < length.value() {
            return Err(DecodeError::ShortBuffer);
        }
        let end: usize = start + length.value() as usize;
        let string_value = text_of_bytes(vstd::slice::slice_subrange(bytes, start, end))?;
        Ok(VarStr { length, string_value })
    }
}

impl vstd::std_specs::convert::TryFromSpecImpl<&[u8]> for VarStr {
    /// A string is known by its view alone, so the contract of `try_from`
    /// speaks of the view and this general form promises nothing.
    open spec fn obeys_try_from_spec() -> bool {
        false
    }

    open spec fn try_from_spec(bytes: &[u8]) -> Result<Self, DecodeError> {
        arbitrary()
    }
}

impl From<VarStr> for Vec<u8> {
    /// Encodes the string.
    fn from(var: VarStr) -> (bytes: Vec<u8>)
        ensures
            bytes@ == var@.spec_encode(),
    {
        let mut bytes: Vec<u8> = Vec::<u8>::from(var.length);
        bytes.extend_from_slice(var.string_value.as_str().as_bytes());
        bytes
    }
}

impl vstd::std_specs::convert::FromSpecImpl<VarStr> for Vec<u8> {
    /// A vector is known by its view alone, so the contract of `from` speaks
    /// of the view and this general form promises nothing.
    open spec fn obeys_from_spec() -> bool {
        false
    }

    open spec fn from_spec(var: VarStr) -> Vec<u8> {
        arbitrary()
    }
}

} // verus!
