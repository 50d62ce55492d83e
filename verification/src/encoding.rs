//! Hex and base64 text encodings, from the `hex` and `base64` crates.
use vstd::prelude::*;
use vstd::utf8::{decode_utf8, encode_utf8, valid_utf8};

verus! {

/// The lower-case hex digit of a nibble.
pub open spec fn hex_digit(d: u8) -> char
    recommends
        d < 16,
{
    if d < 10 {
        ((d + 48) as u8) as char
    } else {
        ((d + 87) as u8) as char
    }
}

/// Lower-case hex of a byte string, two digits per byte.
pub open spec fn hex_lower(b: Seq<u8>) -> Seq<char>
    decreases b.len(),
{
    if b.len() == 0 {
        seq![]
    } else {
        hex_lower(b.drop_last()) + seq![hex_digit(b.last() / 16), hex_digit(b.last() % 16)]
    }
}

/// The value of a hex digit of either case.
pub open spec fn hex_value(c: u8) -> Option<u8> {
    if 65 <= c <= 70 {
        Some((c - 55) as u8)
    } else if 97 <= c <= 102 {
        Some((c - 87) as u8)
    } else if 48 <= c <= 57 {
        Some((c - 48) as u8)
    } else {
        None
    }
}

/// The bytes that a hex string of even length denotes.
pub open spec fn hex_decoded(s: Seq<u8>) -> Option<Seq<u8>>
    decreases s.len(),
{
    if s.len() % 2 != 0 {
        None
    } else if s.len() == 0 {
        Some(seq![])
    } else {
        match (hex_decoded(s.subrange(0, s.len() - 2)), hex_value(s[s.len() - 2]), hex_value(
            s[s.len() - 1],
        )) {
            (Some(p), Some(h), Some(l)) => Some(p.push((h * 16 + l) as u8)),
            _ => None,
        }
    }
}

/// `hex::encode`: lower-case hex, two digits per byte, as the crate's
/// documentation and source show.
#[verifier::external_body]
pub(crate) fn hex_encode(data: &[u8]) -> (r: String)
    ensures
        r@ == hex_lower(data@),
{
    hex::encode(data)
}

/// `hex::decode`: digits of either case, even length; the error is dropped.
#[verifier::external_body]
pub(crate) fn hex_decode(s: &[u8]) -> (r: Option<Vec<u8>>)
    ensures
        match r {
            Some(v) => hex_decoded(s@) == Some(v@),
            None => hex_decoded(s@) is None,
        },
{
    hex::decode(s).ok()
}

/// What the `STANDARD` engine of `base64` gives for an input: the decoded
/// bytes, or the text of its `DecodeError`.
pub uninterp spec fn base64_decoded(input: Seq<u8>) -> Result<Seq<u8>, Seq<char>>;

/// What the `STANDARD` engine of `base64` encodes a byte string to.
pub uninterp spec fn base64_encoded(data: Seq<u8>) -> Seq<char>;

/// Decoding gives back the bytes whose encoding the input is.
pub open spec fn decodes_encodings(input: Seq<u8>, r: Result<Vec<u8>, String>) -> bool {
    forall|d: Seq<u8>| #[trigger] base64_encoded(d) == decode_utf8(input) && valid_utf8(input)
        ==> (r matches Ok(v) && v@ == d)
}

/// `base64::engine::general_purpose::STANDARD.decode`; on failure, the
/// error's text. The contract also claims the round trip that the crate
/// documents: the text the same engine encoded decodes to the bytes it
/// encoded.
#[verifier::external_body]
pub(crate) fn base64_decode(input: &[u8]) -> (r: Result<Vec<u8>, String>)
    ensures
        match r {
            Ok(v) => base64_decoded(input@) == Ok::<Seq<u8>, Seq<char>>(v@),
            Err(m) => base64_decoded(input@) == Err::<Seq<u8>, Seq<char>>(m@),
        },
        decodes_encodings(input@, r),
{
    match base64::Engine::decode(&base64::engine::general_purpose::STANDARD, input) {
        Ok(v) => Ok(v),
        Err(e) => Err(e.to_string()),
    }
}

/// A character of the standard base64 alphabet, or the padding `=`.
pub open spec fn is_base64_char(c: char) -> bool {
    ||| ('A' <= c && c <= 'Z')
    ||| ('a' <= c && c <= 'z')
    ||| ('0' <= c && c <= '9')
    ||| c == '+'
    ||| c == '/'
    ||| c == '='
}

/// Text made of base64 characters only.
pub open spec fn is_base64_text(s: Seq<char>) -> bool {
    forall|i: int| 0 <= i < s.len() ==> is_base64_char(#[trigger] s[i])
}

/// `base64::engine::general_purpose::STANDARD.encode`. Besides naming the
/// result, the contract claims what the crate documents of the standard
/// padded engine: the text is made of the standard alphabet and `=`.
#[verifier::external_body]
pub(crate) fn base64_encode(data: &[u8]) -> (r: String)
    ensures
        r@ == base64_encoded(data@),
        is_base64_text(r@),
{
    base64::Engine::encode(&base64::engine::general_purpose::STANDARD, data)
}

} // verus!
