//! Text encodings of binary data: URL-safe base64 without padding, and
//! lowercase hexadecimal.

use base64::engine::general_purpose::URL_SAFE_NO_PAD;
use base64::Engine;
use vstd::prelude::*;
use vstd::string::*;
use vstd::utf8::encode_utf8;

use crate::json::hex_digit;

verus! {

/// The bytes that URL-safe base64 without padding decodes `text` to, or
/// `None` where `text` is not such an encoding.
pub uninterp spec fn base64url_decode(text: Seq<u8>) -> Option<Seq<u8>>;

/// The character of the URL-safe base64 alphabet for a 6-bit value.
pub open spec fn base64url_digit(n: int) -> char {
    if n < 26 {
        (65 + n) as char
    } else if n < 52 {
        (97 + n - 26) as char
    } else if n < 62 {
        (48 + n - 52) as char
    } else if n == 62 {
        '-'
    } else {
        '_'
    }
}

/// The URL-safe base64 text of `data`, without padding: each group of three
/// bytes becomes four characters of six bits each, most significant first;
/// a final group of two bytes becomes three characters and one of one byte
/// two, the missing low bits being zero.
pub open spec fn base64url_encode(data: Seq<u8>) -> Seq<char>
    decreases data.len(),
{
    if data.len() == 0 {
        Seq::empty()
    } else if data.len() == 1 {
        let b0 = data[0] as int;
        seq![base64url_digit(b0 / 4), base64url_digit((b0 % 4) * 16)]
    } else if data.len() == 2 {
        let b0 = data[0] as int;
        let b1 = data[1] as int;
        seq![
            base64url_digit(b0 / 4),
            base64url_digit((b0 % 4) * 16 + b1 / 16),
            base64url_digit((b1 % 16) * 4),
        ]
    } else {
        let b0 = data[0] as int;
        let b1 = data[1] as int;
        let b2 = data[2] as int;
        seq![
            base64url_digit(b0 / 4),
            base64url_digit((b0 % 4) * 16 + b1 / 16),
            base64url_digit((b1 % 16) * 4 + b2 / 64),
            base64url_digit(b2 % 64),
        ] + base64url_encode(data.subrange(3, data.len() as int))
    }
}

/// The characters of the URL-safe base64 alphabet.
pub open spec fn is_base64url_char(c: char) -> bool {
    ('A' <= c <= 'Z') || ('a' <= c <= 'z') || ('0' <= c <= '9') || c == '-' || c == '_'
}

/// `base64::engine::general_purpose::URL_SAFE_NO_PAD.decode` on the bytes of
/// `text`. The contract claims only that the result is a function of those
/// bytes.
#[verifier::external_body]
pub(crate) fn decode_base64url(text: &str) -> (r: Option<Vec<u8>>)
    ensures
        match base64url_decode(text.spec_bytes()) {
            Some(bytes) => r matches Some(v) && v@ == bytes,
            None => r is None,
        },
{
    URL_SAFE_NO_PAD.decode(text).ok()
}

/// Decodes an envelope carried as URL-safe base64 without padding: its raw
/// bytes, or `None` where the text is not such an encoding.
pub fn decode_envelope_transport(encoded: &str) -> (r: Option<Vec<u8>>)
    ensures
        match base64url_decode(encoded.spec_bytes()) {
            Some(bytes) => r matches Some(v) && v@ == bytes,
            None => r is None,
        },
{
    decode_base64url(encoded)
}

/// `base64::engine::general_purpose::URL_SAFE_NO_PAD.encode`. The contract
/// claims that the result is the unpadded URL-safe base64 text of `data`
/// (`base64url_encode`), and that decoding it gives `data` back. `encode`
/// panics when the length of its output overflows `usize`, which the bound on
/// `data` rules out.
#[verifier::external_body]
fn base64url_encode_call(data: &[u8]) -> (r: String)
    requires
        data@.len() <= usize::MAX / 2,
    ensures
        r@ == base64url_encode(data@),
        base64url_decode(encode_utf8(r@)) == Some(data@),
{
    URL_SAFE_NO_PAD.encode(data)
}

proof fn lemma_base64url_digit(n: int)
    requires
        0 <= n < 64,
    ensures
        is_base64url_char(base64url_digit(n)),
{
    if n < 26 {
        vstd::utf8::char_u32_cast(base64url_digit(n), (65 + n) as u32);
    } else if n < 52 {
        vstd::utf8::char_u32_cast(base64url_digit(n), (97 + n - 26) as u32);
    } else if n < 62 {
        vstd::utf8::char_u32_cast(base64url_digit(n), (48 + n - 52) as u32);
    }
}

/// The base64url text of `n` bytes has `(4 * n + 2) / 3` characters, all of
/// the URL-safe alphabet.
pub proof fn lemma_base64url_encode_shape(data: Seq<u8>)
    ensures
        base64url_encode(data).len() == (4 * data.len() + 2) / 3,
        forall|i: int|
            0 <= i < base64url_encode(data).len() ==> is_base64url_char(
                #[trigger] base64url_encode(data)[i],
            ),
    decreases data.len(),
{
    let text = base64url_encode(data);
    if data.len() >= 1 {
        let b0 = data[0] as int;
        lemma_base64url_digit(b0 / 4);
        lemma_base64url_digit((b0 % 4) * 16);
    }
    if data.len() >= 2 {
        let b0 = data[0] as int;
        let b1 = data[1] as int;
        lemma_base64url_digit((b0 % 4) * 16 + b1 / 16);
        lemma_base64url_digit((b1 % 16) * 4);
    }
    if data.len() >= 3 {
        let b1 = data[1] as int;
        let b2 = data[2] as int;
        lemma_base64url_digit((b1 % 16) * 4 + b2 / 64);
        lemma_base64url_digit(b2 % 64);
        let rest = data.subrange(3, data.len() as int);
        lemma_base64url_encode_shape(rest);
        assert forall|i: int| 0 <= i < text.len() implies is_base64url_char(#[trigger] text[i]) by {
            if i >= 4 {
                assert(text[i] == base64url_encode(rest)[i - 4]);
            }
        }
    }
}

/// The unpadded URL-safe base64 text of `data`.
pub(crate) fn encode_base64url(data: &[u8]) -> (r: String)
    requires
        data@.len() <= usize::MAX / 2,
    ensures
        r@ == base64url_encode(data@),
        r@.len() == (4 * data@.len() + 2) / 3,
        forall|i: int| 0 <= i < r@.len() ==> is_base64url_char(#[trigger] r@[i]),
        base64url_decode(encode_utf8(r@)) == Some(data@),
{
    proof {
        lemma_base64url_encode_shape(data@);
    }
    base64url_encode_call(data)
}


/// Lowercase hexadecimal: two digits per byte, high digit first.
pub open spec fn hex_lower(data: Seq<u8>) -> Seq<char>
    decreases data.len(),
{
    if data.len() == 0 {
        Seq::empty()
    } else {
        seq![hex_digit(data[0] as int / 16), hex_digit(data[0] as int % 16)] + hex_lower(
            data.drop_first(),
        )
    }
}

/// `hex::encode`: the contract claims lowercase hexadecimal, two digits per
/// byte, as the crate documents and writes with `HEX_CHARS_LOWER`.
#[verifier::external_body]
pub(crate) fn encode_hex(data: &[u8]) -> (r: String)
    ensures
        r@ == hex_lower(data@),
{
    hex::encode(data)
}

} // verus!
