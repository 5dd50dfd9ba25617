//! Base64 encoding and decoding (`base64.encode`, `base64.decode`).
use vstd::prelude::*;
use base64::Engine;
use crate::text::push_str;

verus! {

#[verifier::external_type_specification]
#[verifier::external_body]
pub struct ExDecodeError(base64::DecodeError);

/// What the `base64` crate's standard engine, set to accept input with or
/// without padding, decodes `text` to; `None` where it reports an error.
pub uninterp spec fn base64_decoded(text: Seq<u8>) -> Option<Seq<u8>>;

/// The character of the standard base64 alphabet for the 6-bit value `n`.
pub open spec fn base64_digit(n: int) -> char {
    if n < 26 {
        (65 + n) as char
    } else if n < 52 {
        (97 + n - 26) as char
    } else if n < 62 {
        (48 + n - 52) as char
    } else if n == 62 {
        '+'
    } else {
        '/'
    }
}

/// Standard base64 (RFC 4648, standard alphabet, padded with `=`): each
/// group of three bytes becomes four characters, a last group of one or two
/// bytes is padded to four.
pub open spec fn base64_encoded(b: Seq<u8>) -> Seq<char>
    decreases b.len(),
{
    if b.len() == 0 {
        Seq::empty()
    } else if b.len() == 1 {
        seq![base64_digit(b[0] as int / 4), base64_digit((b[0] % 4) * 16), '=', '=']
    } else if b.len() == 2 {
        seq![
            base64_digit(b[0] as int / 4),
            base64_digit((b[0] % 4) * 16 + b[1] / 16),
            base64_digit((b[1] % 16) * 4),
            '=',
        ]
    } else {
        seq![
            base64_digit(b[0] as int / 4),
            base64_digit((b[0] % 4) * 16 + b[1] / 16),
            base64_digit((b[1] % 16) * 4 + b[2] / 64),
            base64_digit(b[2] as int % 64),
        ] + base64_encoded(b.skip(3))
    }
}

/// Decodes `text` with a `base64::engine::GeneralPurpose` engine built from
/// the standard alphabet and `DecodePaddingMode::Indifferent`.
///
/// The contract claims the result [`base64_decoded`] names.
#[verifier::external_body]
fn decode_indifferent(text: &[u8]) -> (r: Result<Vec<u8>, base64::DecodeError>)
    ensures
        match r {
            Ok(b) => base64_decoded(text@) == Some(b@),
            Err(_) => base64_decoded(text@) is None,
        },
{
    base64::engine::GeneralPurpose::new(
        &base64::alphabet::STANDARD,
        base64::engine::GeneralPurposeConfig::new().with_decode_padding_mode(
            base64::engine::DecodePaddingMode::Indifferent,
        ),
    ).decode(text)
}

/// Encodes `bytes` with `base64::engine::general_purpose::STANDARD`.
///
/// The contract claims the result is the standard padded encoding
/// [`base64_encoded`]. The engine panics where the encoded length overflows
/// `usize`, which no slice of at most `isize::MAX` bytes reaches.
#[verifier::external_body]
fn encode_standard(bytes: &[u8]) -> (r: String)
    requires
        bytes@.len() <= isize::MAX,
    ensures
        r@ == base64_encoded(bytes@),
{
    base64::engine::general_purpose::STANDARD.encode(bytes)
}

/// The message of a `base64::DecodeError` (its `Display`); nothing is
/// claimed of it.
#[verifier::external_body]
fn decode_error_message(e: &base64::DecodeError) -> String {
    e.to_string()
}

/// `base64.decode(<string>)`: the bytes that the UTF-8 bytes of `s`
/// encode, padded or not; the error carries the `base64` crate's message.
pub fn base64_decode(s: &str) -> (r: Result<Vec<u8>, String>)
    ensures
        match r {
            Ok(b) => base64_decoded(vstd::utf8::encode_utf8(s@)) == Some(b@),
            Err(_) => base64_decoded(vstd::utf8::encode_utf8(s@)) is None,
        },
{
    match decode_indifferent(s.as_bytes()) {
        Ok(b) => Ok(b),
        Err(e) => {
            let mut m = String::new();
            push_str(&mut m, decode_error_message(&e).as_str());
            Err(m)
        },
    }
}

/// `base64.encode(<bytes>)`.
pub fn base64_encode(b: &[u8]) -> (r: String)
    requires
        b@.len() <= isize::MAX,
    ensures
        r@ == base64_encoded(b@),
{
    encode_standard(b)
}

} // verus!
