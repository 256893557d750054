//! ASCII text on the wire: one byte per character, none above `0x7F`.

use vstd::prelude::*;
use vstd::slice::slice_to_vec;
use vstd::string::StringExecFnsIsAscii;
use vstd::utf8::{
    decode_utf8, decode_utf8_encode_utf8, encode_utf8, encode_utf8_decode_utf8,
    encode_utf8_valid_utf8, is_ascii_chars, is_ascii_chars_encode_utf8, valid_utf8,
};
use super::DecodeError;

verus! {

/// Every byte is a 7-bit ASCII code.
pub open spec fn all_ascii(bytes: Seq<u8>) -> bool {
    forall|i: int| 0 <= i < bytes.len() ==> #[trigger] bytes[i] < 128
}

/// The characters that ASCII bytes stand for, one for one.
pub open spec fn ascii_text(bytes: Seq<u8>) -> Seq<char> {
    Seq::new(bytes.len(), |i: int| bytes[i] as char)
}

/// The bytes that stand for ASCII characters, one for one.
pub open spec fn ascii_bytes(text: Seq<char>) -> Seq<u8> {
    Seq::new(text.len(), |i: int| text[i] as u8)
}

/// ASCII bytes are the UTF-8 encoding of the text they stand for.
pub proof fn lemma_ascii_text_of_bytes(bytes: Seq<u8>)
    requires
        all_ascii(bytes),
    ensures
        is_ascii_chars(ascii_text(bytes)),
        ascii_bytes(ascii_text(bytes)) == bytes,
        encode_utf8(ascii_text(bytes)) == bytes,
        valid_utf8(bytes),
        decode_utf8(bytes) == ascii_text(bytes),
{
    let text = ascii_text(bytes);
    assert forall|i: int| 0 <= i < text.len() implies '\0' <= #[trigger] text[i] <= '\u{7f}' by {
        assert(bytes[i] < 128);
    }
    assert(ascii_bytes(text) =~= bytes) by {
        assert forall|i: int| 0 <= i < bytes.len() implies ascii_bytes(text)[i] == bytes[i] by {
            assert(bytes[i] < 128);
        }
    }
    is_ascii_chars_encode_utf8(text);
    assert(encode_utf8(text) =~= bytes) by {
        assert forall|i: int| 0 <= i < bytes.len() implies encode_utf8(text)[i] == bytes[i] by {
            assert(text[i] as u8 == encode_utf8(text)[i]);
            assert(bytes[i] < 128);
        }
    }
    encode_utf8_valid_utf8(text);
    encode_utf8_decode_utf8(text);
}

/// ASCII text is encoded in UTF-8 by its own character codes.
pub proof fn lemma_ascii_bytes_of_text(text: Seq<char>)
    requires
        is_ascii_chars(text),
    ensures
        all_ascii(ascii_bytes(text)),
        ascii_text(ascii_bytes(text)) == text,
        encode_utf8(text) == ascii_bytes(text),
{
    let bytes = ascii_bytes(text);
    assert forall|i: int| 0 <= i < bytes.len() implies #[trigger] bytes[i] < 128 by {
        assert('\0' <= text[i] <= '\u{7f}');
    }
    assert(ascii_text(bytes) =~= text) by {
        assert forall|i: int| 0 <= i < text.len() implies ascii_text(bytes)[i] == text[i] by {
            assert('\0' <= text[i] <= '\u{7f}');
        }
    }
    is_ascii_chars_encode_utf8(text);
    assert(encode_utf8(text) =~= bytes);
}

/// `String::from_utf8`: the string whose characters `bytes` encode in UTF-8,
/// and nothing where `bytes` are not valid UTF-8.
#[verifier::external_body]
fn string_from_utf8(bytes: Vec<u8>) -> (text: Option<String>)
    ensures
        text is Some <==> valid_utf8(bytes@),
        text matches Some(s) ==> s@ == decode_utf8(bytes@),
{
    String::from_utf8(bytes).ok()
}

/// Reads `bytes` as ASCII text.
pub fn text_of_bytes(bytes: &[u8]) -> (text: Result<String, DecodeError>)
    ensures
        match text {
            Ok(s) => all_ascii(bytes@) && s@ == ascii_text(bytes@),
            Err(e) => !all_ascii(bytes@) && e == DecodeError::Malformed,
        },
{
    proof {
        if all_ascii(bytes@) {
            lemma_ascii_text_of_bytes(bytes@);
        }
    }
    match string_from_utf8(slice_to_vec(bytes)) {
        Some(s) => {
            if s.is_ascii() {
                proof {
                    decode_utf8_encode_utf8(bytes@);
                    lemma_ascii_bytes_of_text(s@);
                }
                Ok(s)
            } else {
                Err(DecodeError::Malformed)
            }
        },
        None => Err(DecodeError::Malformed),
    }
}

/// Whether two strings hold the same text.
pub fn same_text(a: &str, b: &str) -> (same: bool)
    ensures
        same == (a@ == b@),
{
    let x = a.as_bytes();
    let y = b.as_bytes();
    proof {
        encode_utf8_decode_utf8(a@);
        encode_utf8_decode_utf8(b@);
    }
    if x.len() != y.len() {
        return false;
    }
    let mut i: usize = 0;
    while i < x.len()
        invariant
            i <= x@.len() == y@.len(),
            x@ == encode_utf8(a@),
            y@ == encode_utf8(b@),
            forall|j: int| 0 <= j < i ==> x@[j] == y@[j],
        decreases x@.len() - i,
    {
        if x[i] != y[i] {
            return false;
        }
        i = i + 1;
    }
    assert(x@ =~= y@);
    true
}

} // verus!
