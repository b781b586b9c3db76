//! Hexadecimal text and lossy UTF-8 text of byte strings.
use vstd::prelude::*;

verus! {

#[verifier::external_type_specification]
#[verifier::external_body]
pub struct ExFromHexError(const_hex::FromHexError);

/// The lowercase hexadecimal digit of a value below 16.
pub open spec fn hex_digit_char(n: u8) -> char {
    if n < 10 {
        (48 + n) as char
    } else {
        (87 + n) as char
    }
}

/// Two lowercase hexadecimal digits for each byte of `b`, high nibble first.
pub open spec fn hex_encoded(b: Seq<u8>) -> Seq<char> {
    Seq::new(
        2 * b.len(),
        |i: int|
            if i % 2 == 0 {
                hex_digit_char(b[i / 2] / 16)
            } else {
                hex_digit_char(b[i / 2] % 16)
            },
    )
}

/// The value of a hexadecimal digit of either case.
pub open spec fn hex_digit_value(c: char) -> Option<u8> {
    if '0' <= c <= '9' {
        Some((c as u32 - 48) as u8)
    } else if 'a' <= c <= 'f' {
        Some((c as u32 - 87) as u8)
    } else if 'A' <= c <= 'F' {
        Some((c as u32 - 55) as u8)
    } else {
        None
    }
}

/// `s` without a leading `0x` or `0X`.
pub open spec fn hex_body(s: Seq<char>) -> Seq<char> {
    if s.len() >= 2 && s[0] == '0' && (s[1] == 'x' || s[1] == 'X') {
        s.skip(2)
    } else {
        s
    }
}

/// The bytes that the hexadecimal text `s` spells, two digits each, after an
/// optional `0x` prefix; `None` when the text has an odd length or a
/// character that is not a digit.
pub open spec fn hex_decoded(s: Seq<char>) -> Option<Seq<u8>> {
    let body = hex_body(s);
    if s.len() % 2 != 0 {
        None
    } else if exists|i: int| 0 <= i < body.len() && hex_digit_value(body[i]) is None {
        None
    } else {
        Some(
            Seq::new(
                body.len() / 2,
                |i: int|
                    (hex_digit_value(body[2 * i])->Some_0 * 16 + hex_digit_value(
                        body[2 * i + 1],
                    )->Some_0) as u8,
            ),
        )
    }
}

/// What `String::from_utf8_lossy` makes of `b`: its characters where `b` is
/// valid UTF-8, each invalid sequence replaced by U+FFFD.
pub uninterp spec fn utf8_lossy(b: Seq<u8>) -> Seq<char>;

/// Relies on `const_hex::encode`: lowercase digits, two for each byte, high
/// nibble first.
#[verifier::external_body]
pub(crate) fn hex_encode(b: &[u8]) -> (r: String)
    ensures
        r@ == hex_encoded(b@),
{
    const_hex::encode(b)
}

/// Relies on `const_hex::decode`: digits of either case after an optional
/// `0x` prefix, an error for an odd length or a character that is no digit.
#[verifier::external_body]
pub(crate) fn hex_decode(s: &str) -> (r: Result<Vec<u8>, const_hex::FromHexError>)
    ensures
        r is Ok <==> hex_decoded(s@) is Some,
        r is Ok ==> r->Ok_0@ == hex_decoded(s@)->Some_0,
{
    const_hex::decode(s)
}

/// Relies on `String::from_utf8_lossy`: the text depends on the bytes alone,
/// and no bytes give no text.
#[verifier::external_body]
pub(crate) fn lossy_text(b: &[u8]) -> (r: String)
    ensures
        r@ == utf8_lossy(b@),
        b@.len() == 0 ==> r@.len() == 0,
{
    String::from_utf8_lossy(b).into_owned()
}

} // verus!
