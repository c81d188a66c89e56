//! Text handling: UTF-8 decoding of payload bytes and decimal rendering.
//!
//! Chunk payloads are opaque bytes that callers may ask to read as UTF-8
//! text.  The decoding itself is done by the standard library; its contract
//! is stated in the vocabulary of `vstd::utf8`, so everything downstream of
//! the call is verified against vstd's own model of UTF-8.  The decimal
//! rendering used by the display strings is fully verified.

use vstd::prelude::*;
use vstd::utf8::*;
use vstd::pervasive::unreached;

verus! {

/// Relies on `String::from_utf8`: it succeeds exactly on valid UTF-8 and
/// the resulting string holds the decoded characters of the bytes.
#[verifier::external_body]
pub(crate) fn utf8_to_string(v: Vec<u8>) -> (r: Option<String>)
    ensures
        r is Some <==> valid_utf8(v@),
        r matches Some(s) ==> s@ == decode_utf8(v@),
{
    match String::from_utf8(v) {
        Ok(s) => Some(s),
        Err(_) => None,
    }
}

/// A sequence of bytes below 0x80 is valid UTF-8 and decodes to itself,
/// character for character.
pub proof fn lemma_ascii_bytes_utf8(b: Seq<u8>)
    requires
        forall|i: int| 0 <= i < b.len() ==> #[trigger] b[i] < 0x80,
    ensures
        valid_utf8(b),
        decode_utf8(b) == b.map(|i: int, x: u8| x as char),
{
    let chars = b.map(|i: int, x: u8| x as char);
    assert forall|i: int| 0 <= i < chars.len() implies '\0' <= #[trigger] chars[i]
        <= '\u{7f}' by {
        assert(chars[i] == b[i] as char);
    }
    assert(is_ascii_chars(chars));
    is_ascii_chars_encode_utf8(chars);
    assert(encode_utf8(chars) =~= b);
    encode_utf8_valid_utf8(chars);
    encode_utf8_decode_utf8(chars);
}

/// The byte of one decimal digit.
pub open spec fn dec_digit(d: int) -> u8 {
    (0x30 + d) as u8
}

/// The decimal digit bytes of a non-negative number, most significant
/// first, with no leading zeros (a single `0` for zero itself).
pub open spec fn dec_digits(n: int) -> Seq<u8>
    recommends
        n >= 0,
    decreases n,
{
    if n < 10 {
        seq![dec_digit(n)]
    } else {
        dec_digits(n / 10).push(dec_digit(n % 10))
    }
}

/// The decimal digit characters of a non-negative number.
pub open spec fn dec_chars(n: int) -> Seq<char> {
    dec_digits(n).map(|i: int, b: u8| b as char)
}

/// Every byte of a decimal rendering is a digit byte.
pub proof fn lemma_dec_digits_ascii(n: int)
    requires
        n >= 0,
    ensures
        forall|i: int|
            0 <= i < dec_digits(n).len() ==> 0x30 <= #[trigger] dec_digits(n)[i] <= 0x39,
    decreases n,
{
    if n >= 10 {
        lemma_dec_digits_ascii(n / 10);
        let whole = dec_digits(n);
        let high = dec_digits(n / 10);
        assert forall|i: int| 0 <= i < whole.len() implies 0x30 <= #[trigger] whole[i]
            <= 0x39 by {
            if i < high.len() {
                assert(whole[i] == high[i]);
            } else {
                assert(whole[i] == dec_digit(n % 10));
            }
        }
    }
}

/// Appends the decimal digit bytes of `n` to `v`.
pub(crate) fn push_decimal_digits(v: &mut Vec<u8>, n: u64)
    ensures
        final(v)@ == old(v)@ + dec_digits(n as int),
    decreases n,
{
    if n >= 10 {
        push_decimal_digits(v, n / 10);
    }
    v.push(0x30 + (n % 10) as u8);
    assert(v@ =~= old(v)@ + dec_digits(n as int));
}

/// The decimal rendering of a number as a string.
pub fn decimal_text(n: u64) -> (r: String)
    ensures
        r@ == dec_chars(n as int),
{
    let mut digits: Vec<u8> = Vec::new();
    push_decimal_digits(&mut digits, n);
    proof {
        lemma_dec_digits_ascii(n as int);
        lemma_ascii_bytes_utf8(digits@);
    }
    match utf8_to_string(digits) {
        Some(s) => s,
        None => unreached(),
    }
}

} // verus!
