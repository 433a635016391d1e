//! Hexadecimal text: digits, digit pairs, and runs of pairs.

use vstd::prelude::*;
use vstd::string::StringSliceAdditionalSpecFns;
use crate::error::DecodeError;

verus! {

/// The value of the hexadecimal digit `c`, upper or lower case; `None` when
/// `c` is no such digit.
pub open spec fn digit_value(c: u8) -> Option<u8> {
    if 0x30 <= c <= 0x39 {
        Some((c - 0x30) as u8)
    } else if 0x41 <= c <= 0x46 {
        Some((c - 0x41 + 10) as u8)
    } else if 0x61 <= c <= 0x66 {
        Some((c - 0x61 + 10) as u8)
    } else {
        None
    }
}

/// Every byte of `s` is a hexadecimal digit.
pub open spec fn is_hex(s: Seq<u8>) -> bool {
    forall|i: int| 0 <= i < s.len() ==> (#[trigger] digit_value(s[i])) is Some
}

/// The byte written by the two digits `hi` and `lo`, most significant first.
pub open spec fn pair_value(hi: u8, lo: u8) -> u8
    recommends
        digit_value(hi) is Some,
        digit_value(lo) is Some,
{
    (16 * digit_value(hi)->0 + digit_value(lo)->0) as u8
}

/// The bytes written by the digit pairs of `s`, in order.
pub open spec fn bytes_of_hex(s: Seq<u8>) -> Seq<u8>
    recommends
        s.len() % 2 == 0,
        is_hex(s),
{
    Seq::new(s.len() / 2, |i: int| pair_value(s[2 * i], s[2 * i + 1]))
}

/// What decoding the hexadecimal text `s` gives: its bytes, or the reason it
/// has none. An odd length is reported before a bad digit.
pub open spec fn decode_hex_spec(s: Seq<u8>) -> Result<Seq<u8>, DecodeError> {
    if s.len() % 2 != 0 {
        Err(DecodeError::OddPayloadLength)
    } else if !is_hex(s) {
        Err(DecodeError::MalformedHeader)
    } else {
        Ok(bytes_of_hex(s))
    }
}

/// Each byte read as the character with that code point.
pub open spec fn latin1(bytes: Seq<u8>) -> Seq<char> {
    Seq::new(bytes.len(), |i: int| bytes[i] as char)
}

/// What decoding the hexadecimal text `s` into characters gives.
pub open spec fn hex_text_spec(s: Seq<u8>) -> Result<Seq<char>, DecodeError> {
    match decode_hex_spec(s) {
        Ok(bytes) => Ok(latin1(bytes)),
        Err(e) => Err(e),
    }
}

/// The value of one hexadecimal digit.
pub fn hex_digit_value(c: u8) -> (v: Option<u8>)
    ensures
        v == digit_value(c),
{
    if 0x30 <= c && c <= 0x39 {
        Some(c - 0x30)
    } else if 0x41 <= c && c <= 0x46 {
        Some(c - 0x41 + 10)
    } else if 0x61 <= c && c <= 0x66 {
        Some(c - 0x61 + 10)
    } else {
        None
    }
}

/// The byte written by two hexadecimal digits, `None` when either is no digit.
pub fn hex_pair_value(hi: u8, lo: u8) -> (v: Option<u8>)
    ensures
        v is Some <==> digit_value(hi) is Some && digit_value(lo) is Some,
        v is Some ==> v->0 == pair_value(hi, lo),
{
    match (hex_digit_value(hi), hex_digit_value(lo)) {
        (Some(h), Some(l)) => Some(16 * h + l),
        _ => None,
    }
}

/// Decodes hexadecimal text into bytes, two digits to a byte.
pub fn decode_hex(hex: &[u8]) -> (res: Result<Vec<u8>, DecodeError>)
    ensures
        match res {
            Ok(bytes) => decode_hex_spec(hex@) == Ok::<Seq<u8>, DecodeError>(bytes@),
            Err(e) => decode_hex_spec(hex@) == Err::<Seq<u8>, DecodeError>(e),
        },
{
    let n: usize = hex.len();
    if n % 2 != 0 {
        return Err(DecodeError::OddPayloadLength);
    }
    let mut bytes: Vec<u8> = Vec::new();
    let mut i: usize = 0;
    while i < n
        invariant
            n == hex@.len(),
            n % 2 == 0,
            i % 2 == 0,
            i <= n,
            bytes@.len() == i / 2,
            forall|k: int| 0 <= k < i ==> (#[trigger] digit_value(hex@[k])) is Some,
            forall|j: int| 0 <= j < bytes@.len() ==> bytes@[j] == pair_value(
                hex@[2 * j],
                hex@[2 * j + 1],
            ),
        decreases n - i,
    {
        match hex_pair_value(hex[i], hex[i + 1]) {
            Some(b) => {
                bytes.push(b);
            },
            None => {
                return Err(DecodeError::MalformedHeader);
            },
        }
        i += 2;
    }
    assert(bytes@ =~= bytes_of_hex(hex@));
    Ok(bytes)
}

/// Calls `String::push`. Trusted, not proved: afterwards `text` holds the
/// characters it held before, followed by `c`.
#[verifier::external_body]
fn push_char(text: &mut String, c: char)
    ensures
        final(text)@ == old(text)@.push(c),
{
    text.push(c)
}

/// Decodes hexadecimal text into a string, each byte becoming the character
/// with that code point.
pub fn hex_to_string(hex: &str) -> (res: Result<String, DecodeError>)
    ensures
        match res {
            Ok(text) => hex_text_spec(hex.spec_bytes()) == Ok::<Seq<char>, DecodeError>(text@),
            Err(e) => hex_text_spec(hex.spec_bytes()) == Err::<Seq<char>, DecodeError>(e),
        },
{
    match decode_hex(hex.as_bytes()) {
        Ok(bytes) => Ok(bytes_to_text(&bytes)),
        Err(e) => Err(e),
    }
}

/// The string whose characters have the code points `bytes`.
pub fn bytes_to_text(bytes: &Vec<u8>) -> (text: String)
    ensures
        text@ == latin1(bytes@),
{
    let mut text = String::new();
    let mut i: usize = 0;
    while i < bytes.len()
        invariant
            i <= bytes@.len(),
            text@ == latin1(bytes@.take(i as int)),
        decreases bytes@.len() - i,
    {
        push_char(&mut text, bytes[i] as char);
        i += 1;
        assert(latin1(bytes@.take(i as int)) =~= latin1(bytes@.take(i - 1)).push(
            bytes@[i - 1] as char,
        ));
    }
    assert(bytes@.take(i as int) =~= bytes@);
    text
}

} // verus!
