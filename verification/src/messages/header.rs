//! The fixed-size header that starts every message.

use vstd::prelude::*;
use vstd::utf8::is_ascii_chars;
use super::text::{
    all_ascii, ascii_bytes, ascii_text, lemma_ascii_bytes_of_text, lemma_ascii_text_of_bytes,
    text_of_bytes,
};
use super::wire::{
    be_bytes, be_value, lemma_be_bytes_len, lemma_be_bytes_of_value, lemma_be_value_bound,
    lemma_be_value_of_bytes, lemma_pow256_values, read_be, write_be,
};
use super::DecodeError;

verus! {

/// The length of an encoded header: magic, message type, payload length.
pub const HEADER_SIZE: usize = 24;

/// The width of the message type field.
pub const MSG_TYPE_SIZE: usize = 12;

/// Why a header could not be made.
#[derive(Debug, Clone, Copy, PartialEq, Eq, Structural)]
pub enum HeaderError {
    /// The message type holds a character outside ASCII.
    NotAscii,
    /// The message type is longer than its field.
    TooLong,
}

/// The header of a message. A node that sends a message always starts it with
/// this structure. The message type is at most twelve ASCII characters.
#[derive(PartialEq, Debug)]
pub struct Header {
    magic: u32,
    msg_type: String,
    length: u64,
}

/// What a `Header` holds.
pub struct HeaderView {
    pub magic: u32,
    pub msg_type: Seq<char>,
    pub length: u64,
}

/// `n` zero bytes.
pub open spec fn zeros(n: nat) -> Seq<u8> {
    Seq::new(n, |i: int| 0u8)
}

/// `field` without the zero bytes at its end.
pub open spec fn trim_nulls(field: Seq<u8>) -> Seq<u8>
    decreases field.len(),
{
    if field.len() > 0 && field.last() == 0 {
        trim_nulls(field.drop_last())
    } else {
        field
    }
}

impl HeaderView {
    /// The message type is ASCII and fits its field.
    pub open spec fn wf(self) -> bool {
        &&& is_ascii_chars(self.msg_type)
        &&& self.msg_type.len() <= MSG_TYPE_SIZE
    }

    /// The message type as it stands in its field: padded with zero bytes.
    pub open spec fn type_field(self) -> Seq<u8> {
        ascii_bytes(self.msg_type) + zeros((MSG_TYPE_SIZE - self.msg_type.len()) as nat)
    }

    /// The bytes on the wire.
    pub open spec fn spec_encode(self) -> Seq<u8> {
        be_bytes(self.magic as nat, 4) + self.type_field() + be_bytes(self.length as nat, 8)
    }

    /// The header as a decoder returns it: zero bytes at the end of the
    /// message type cannot be told from padding, and are gone.
    pub open spec fn trimmed(self) -> HeaderView {
        HeaderView { msg_type: ascii_text(trim_nulls(ascii_bytes(self.msg_type))), ..self }
    }
}

impl View for Header {
    type V = HeaderView;

    closed spec fn view(&self) -> HeaderView {
        HeaderView { magic: self.magic, msg_type: self.msg_type@, length: self.length }
    }
}

impl Header {
    #[verifier::type_invariant]
    spec fn type_inv(self) -> bool {
        self@.wf()
    }

    /// What `bytes` decode to. A header takes exactly `HEADER_SIZE` bytes.
    pub open spec fn spec_decode(bytes: Seq<u8>) -> Result<HeaderView, DecodeError> {
        if bytes.len() < HEADER_SIZE {
            Err(DecodeError::ShortBuffer)
        } else if bytes.len() > HEADER_SIZE {
            Err(DecodeError::Malformed)
        } else {
            let name = trim_nulls(bytes.subrange(4, 16));
            if !all_ascii(name) {
                Err(DecodeError::Malformed)
            } else {
                Ok(
                    HeaderView {
                        magic: be_value(bytes.subrange(0, 4)) as u32,
                        msg_type: ascii_text(name),
                        length: be_value(bytes.subrange(16, 24)) as u64,
                    },
                )
            }
        }
    }

    /// Makes a header, unless the message type is not ASCII or does not fit
    /// its field.
    pub fn new(magic: u32, msg_type: &str, length: u64) -> (made: Result<Self, HeaderError>)
        ensures
            match made {
                Ok(header) => {
                    &&& header@ == HeaderView { magic, msg_type: msg_type@, length }
                    &&& header@.wf()
                },
                Err(HeaderError::NotAscii) => !is_ascii_chars(msg_type@),
                Err(HeaderError::TooLong) => is_ascii_chars(msg_type@) && msg_type@.len()
                    > MSG_TYPE_SIZE,
            },
    {
        if !msg_type.is_ascii() {
            return Err(HeaderError::NotAscii);
        }
        proof {
            lemma_ascii_bytes_of_text(msg_type@);
        }
        if msg_type.as_bytes().len() > MSG_TYPE_SIZE {
            return Err(HeaderError::TooLong);
        }
        Ok(Header { magic, msg_type: msg_type.to_owned(), length })
    }

    /// Takes a header off the front of `buffer`: the header and the bytes
    /// that follow it. The buffer itself stays as it is.
    pub fn read_buffer(buffer: &mut Vec<u8>) -> (read: Result<(Self, Vec<u8>), DecodeError>)
        ensures
            *final(buffer) == *old(buffer),
            match read {
                Ok((header, overload)) => {
                    &&& old(buffer)@.len() >= HEADER_SIZE
                    &&& Header::spec_decode(old(buffer)@.subrange(0, HEADER_SIZE as int)) == Ok::<
                        HeaderView,
                        DecodeError,
                    >(header@)
                    &&& overload@ == old(buffer)@.subrange(
                        HEADER_SIZE as int,
                        old(buffer)@.len() as int,
                    )
                },
                Err(e) => if old(buffer)@.len() < HEADER_SIZE {
                    e == DecodeError::ShortBuffer
                } else {
                    Header::spec_decode(old(buffer)@.subrange(0, HEADER_SIZE as int)) == Err::<
                        HeaderView,
                        DecodeError,
                    >(e)
                },
            },
    {
        if buffer.len() < HEADER_SIZE {
            return Err(DecodeError::ShortBuffer);
        }
        let len: usize = buffer.len();
        let buffer_header: Vec<u8> = vstd::slice::slice_to_vec(
            vstd::slice::slice_subrange(buffer.as_slice(), 0, HEADER_SIZE),
        );
        let header = Header::try_from(buffer_header)?;
        let overload: Vec<u8> = vstd::slice::slice_to_vec(
            vstd::slice::slice_subrange(buffer.as_slice(), HEADER_SIZE, len),
        );
        Ok((header, overload))
    }

    /// The magic number.
    pub fn magic(&self) -> (magic: u32)
        ensures
            magic == self@.magic,
    {
        self.magic
    }

    /// The length of the payload that follows the header.
    pub fn length(&self) -> (length: u64)
        ensures
            length == self@.length,
    {
        self.length
    }

    /// The message type.
    pub fn msg(&self) -> (msg: &String)
        ensures
            msg@ == self@.msg_type,
    {
        &self.msg_type
    }
}

/// Padding leaves no trace: trimming a name with zero bytes behind it gives
/// what trimming the name alone gives.
pub proof fn lemma_trim_nulls_of_padded(name: Seq<u8>, padding: nat)
    ensures
        trim_nulls(name + zeros(padding)) == trim_nulls(name),
    decreases padding,
{
    let padded = name + zeros(padding);
    if padding == 0 {
        assert(padded =~= name);
    } else {
        assert(padded.drop_last() =~= name + zeros((padding - 1) as nat));
        lemma_trim_nulls_of_padded(name, (padding - 1) as nat);
    }
}

/// Trimming only shortens, and what is left is the front of the field and
/// does not end in a zero byte.
pub proof fn lemma_trim_nulls_is_prefix(field: Seq<u8>)
    ensures
        trim_nulls(field).len() <= field.len(),
        trim_nulls(field) == field.subrange(0, trim_nulls(field).len() as int),
        trim_nulls(field).len() > 0 ==> trim_nulls(field).last() != 0,
        forall|i: int| trim_nulls(field).len() <= i < field.len() ==> field[i] == 0,
    decreases field.len(),
{
    if field.len() > 0 && field.last() == 0 {
        lemma_trim_nulls_is_prefix(field.drop_last());
        let kept = trim_nulls(field).len() as int;
        assert(field.drop_last().subrange(0, kept) =~= field.subrange(0, kept));
        assert forall|i: int| kept <= i < field.len() implies field[i] == 0 by {
            if i < field.len() - 1 {
                assert(field.drop_last()[i] == field[i]);
            }
        }
    } else {
        assert(field.subrange(0, field.len() as int) =~= field);
    }
}

/// Encoding and then decoding a header gives it back, but for zero bytes at
/// the end of its message type; the encoding has the fixed size.
pub proof fn lemma_header_round_trip(header: HeaderView)
    requires
        header.wf(),
    ensures
        Header::spec_decode(header.spec_encode()) == Ok::<HeaderView, DecodeError>(
            header.trimmed(),
        ),
        header.spec_encode().len() == HEADER_SIZE,
        header.msg_type.len() == 0 || header.msg_type.last() != '\0' ==> header.trimmed()
            == header,
{
    let wire = header.spec_encode();
    let name = ascii_bytes(header.msg_type);
    let padding = (MSG_TYPE_SIZE - header.msg_type.len()) as nat;
    lemma_pow256_values();
    lemma_be_bytes_len(header.magic as nat, 4);
    lemma_be_bytes_len(header.length as nat, 8);
    lemma_be_value_of_bytes(header.magic as nat, 4);
    lemma_be_value_of_bytes(header.length as nat, 8);
    assert(wire.subrange(0, 4) =~= be_bytes(header.magic as nat, 4));
    assert(wire.subrange(4, 16) =~= name + zeros(padding));
    assert(wire.subrange(16, 24) =~= be_bytes(header.length as nat, 8));
    lemma_trim_nulls_of_padded(name, padding);
    lemma_trim_nulls_is_prefix(name);
    lemma_ascii_bytes_of_text(header.msg_type);
    if header.msg_type.len() == 0 || header.msg_type.last() != '\0' {
        assert(trim_nulls(name) == name) by {
            if name.len() > 0 {
                assert(name.last() == header.msg_type.last() as u8);
                assert('\0' <= header.msg_type.last() <= '\u{7f}');
            }
        }
    }
}

/// What decodes is well formed, and encodes to the very bytes it was read
/// from.
pub proof fn lemma_header_decoded(bytes: Seq<u8>)
    requires
        Header::spec_decode(bytes) is Ok,
    ensures
        Header::spec_decode(bytes)->Ok_0.wf(),
        Header::spec_decode(bytes)->Ok_0.spec_encode() == bytes,
{
    let header = Header::spec_decode(bytes)->Ok_0;
    let field = bytes.subrange(4, 16);
    let name = trim_nulls(field);
    lemma_trim_nulls_is_prefix(field);
    lemma_ascii_text_of_bytes(name);
    lemma_pow256_values();
    lemma_be_value_bound(bytes.subrange(0, 4));
    lemma_be_value_bound(bytes.subrange(16, 24));
    lemma_be_bytes_of_value(bytes.subrange(0, 4));
    lemma_be_bytes_of_value(bytes.subrange(16, 24));
    assert(header.type_field() =~= field);
    assert(bytes =~= bytes.subrange(0, 4) + field + bytes.subrange(16, 24));
}

impl TryFrom<Vec<u8>> for Header {
    type Error = DecodeError;

    /// Decodes a header from exactly `HEADER_SIZE` bytes.
    fn try_from(bytes: Vec<u8>) -> (decoded: Result<Self, DecodeError>)
        ensures
            match decoded {
                Ok(header) => Header::spec_decode(bytes@) == Ok::<HeaderView, DecodeError>(
                    header@,
                ),
                Err(e) => Header::spec_decode(bytes@) == Err::<HeaderView, DecodeError>(e),
            },
    {
        if bytes.len() < HEADER_SIZE {
            return Err(DecodeError::ShortBuffer);
        }
        if bytes.len() > HEADER_SIZE {
            return Err(DecodeError::Malformed);
        }
        proof {
            lemma_pow256_values();
            lemma_be_value_bound(bytes@.subrange(0, 4));
        }
        let magic = read_be(bytes.as_slice(), 0, 4) as u32;
        let ghost field = bytes@.subrange(4, 16);
        let mut end: usize = 4 + MSG_TYPE_SIZE;
        while end > 4 && bytes[end - 1] == 0
            invariant
                4 <= end <= 16,
                bytes@.len() == HEADER_SIZE,
                field == bytes@.subrange(4, 16),
                trim_nulls(field) == trim_nulls(bytes@.subrange(4, end as int)),
            decreases end,
        {
            assert(bytes@.subrange(4, end as int).drop_last() =~= bytes@.subrange(4, end - 1));
            end = end - 1;
        }
        assert(trim_nulls(field) == bytes@.subrange(4, end as int));
        let msg_type = text_of_bytes(vstd::slice::slice_subrange(bytes.as_slice(), 4, end))?;
        let length = read_be(bytes.as_slice(), 16, 8);
        proof {
            lemma_ascii_text_of_bytes(bytes@.subrange(4, end as int));
        }
        Ok(Header { magic, msg_type, length })
    }
}

impl vstd::std_specs::convert::TryFromSpecImpl<Vec<u8>> for Header {
    /// A header is known by its view, so the contract of `try_from` speaks of
    /// the view and this general form promises nothing.
    open spec fn obeys_try_from_spec() -> bool {
        false
    }

    open spec fn try_from_spec(bytes: Vec<u8>) -> Result<Self, DecodeError> {
        arbitrary()
    }
}

impl From<Header> for Vec<u8> {
    /// Encodes the header.
    fn from(header: Header) -> (bytes: Vec<u8>)
        ensures
            bytes@ == header@.spec_encode(),
            bytes@.len() == HEADER_SIZE,
    {
        proof {
            use_type_invariant(&header);
            lemma_ascii_bytes_of_text(header@.msg_type);
            lemma_be_bytes_len(header.magic as nat, 4);
            lemma_be_bytes_len(header.length as nat, 8);
        }
        let mut bytes: Vec<u8> = Vec::new();
        write_be(&mut bytes, header.magic as u64, 4);
        bytes.extend_from_slice(header.msg_type.as_str().as_bytes());
        let ghost named = bytes@;
        while bytes.len() < 4 + MSG_TYPE_SIZE
            invariant
                named.len() <= bytes@.len() <= 16,
                bytes@ == named + zeros((bytes@.len() - named.len()) as nat),
            decreases 16 - bytes@.len(),
        {
            bytes.push(0);
            assert(bytes@ =~= named + zeros((bytes@.len() - named.len()) as nat));
        }
        write_be(&mut bytes, header.length, 8);
        assert(bytes@ =~= header@.spec_encode());
        bytes
    }
}

impl vstd::std_specs::convert::FromSpecImpl<Header> for Vec<u8> {
    /// A vector is known by its view alone, so the contract of `from` speaks
    /// of the view and this general form promises nothing.
    open spec fn obeys_from_spec() -> bool {
        false
    }

    open spec fn from_spec(header: Header) -> Vec<u8> {
        arbitrary()
    }
}

} // verus!
