//! Text inside frames: UTF-8 decoding and a few string helpers.
use vstd::prelude::*;
use vstd::utf8::*;

use crate::decimal::{decimal, write_decimal};

verus! {

/// Relies on `String::from_utf8`: it succeeds exactly on valid UTF-8, and the
/// string's bytes are then the input.
#[verifier::external_body]
pub(crate) fn utf8_string(v: Vec<u8>) -> (r: Option<String>)
    ensures
        r is Some <==> valid_utf8(v@),
        r is Some ==> encode_utf8(r->0@) == v@,
{
    String::from_utf8(v).ok()
}

/// Relies on `char::to_string`: a string holding just that character.
#[verifier::external_body]
pub(crate) fn char_string(c: char) -> (r: String)
    ensures
        r@ == seq![c],
{
    c.to_string()
}

/// Decodes `v` as UTF-8 text; `None` when it is not valid UTF-8.
pub fn decode_text(v: Vec<u8>) -> (r: Option<String>)
    ensures
        r is Some <==> valid_utf8(v@),
        r is Some ==> r->0@ == decode_utf8(v@),
{
    let ghost b = v@;
    let r = utf8_string(v);
    proof {
        if r is Some {
            encode_utf8_decode_utf8(r->0@);
        }
    }
    r
}

/// ASCII bytes read as characters, one for one.
pub open spec fn ascii_text(b: Seq<u8>) -> Seq<char> {
    b.map_values(|x: u8| x as char)
}

/// The decimal spelling of `n` as text.
pub fn decimal_string(n: u64) -> (r: String)
    ensures
        r@ == ascii_text(decimal(n as nat)),
{
    let mut v: Vec<u8> = Vec::new();
    write_decimal(n, &mut v);
    let ghost b = v@;
    let ghost chars = ascii_text(b);
    proof {
        crate::decimal::lemma_decimal_digits(n as nat);
        assert(b =~= decimal(n as nat));
        assert(is_ascii_chars(chars)) by {
            assert forall|i: int| 0 <= i < chars.len() implies '\0' <= #[trigger] chars[i]
                <= '\u{7f}' by {
                assert(crate::decimal::is_digit(b[i]));
            }
        }
        is_ascii_chars_encode_utf8(chars);
        assert(encode_utf8(chars) =~= b);
        encode_utf8_valid_utf8(chars);
        encode_utf8_decode_utf8(chars);
    }
    match decode_text(v) {
        Some(s) => s,
        None => String::new(),
    }
}

} // verus!
