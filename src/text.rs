use vstd::prelude::*;
use vstd::utf8::{decode_first_scalar, decode_utf8, valid_first_scalar, valid_utf8};

use crate::wire::char_width;

verus! {

/// Relies on `char::from_u32`: it gives the `char` of every Unicode scalar value, that is every
/// value up to `0x10FFFF` outside the surrogates, and `None` for all others.
#[verifier::external_body]
fn char_from_scalar(v: u32) -> (r: Option<char>)
    ensures
        (v <= 0x10FFFF && !(0xD800 <= v <= 0xDFFF)) ==> r == Some(v as char),
        !(v <= 0x10FFFF && !(0xD800 <= v <= 0xDFFF)) ==> r is None,
{
    char::from_u32(v)
}

/// Relies on `String::from_utf8`: it accepts exactly the well-formed UTF-8 byte strings and
/// keeps their characters.
#[verifier::external_body]
pub(crate) fn utf8_string(bytes: Vec<u8>) -> (r: Option<String>)
    ensures
        r is Some <==> valid_utf8(bytes@),
        r is Some ==> r->Some_0@ == decode_utf8(bytes@),
{
    String::from_utf8(bytes).ok()
}

/// Whether `b` is a UTF-8 continuation byte.
fn is_continuation(b: u8) -> (r: bool)
    ensures
        r == (0x80 <= b <= 0xBF),
{
    0x80 <= b && b <= 0xBF
}

/// Decodes the one scalar that `buf` encodes in UTF-8, where the width that the leading byte
/// announces is the length of `buf`.
pub fn scalar_of(buf: &[u8]) -> (r: Option<char>)
    requires
        1 <= buf@.len() <= 4,
        char_width(buf@[0]) == buf@.len(),
    ensures
        r == (if valid_first_scalar(buf@) {
            Some(decode_first_scalar(buf@) as char)
        } else {
            None::<char>
        }),
{
    let w = buf.len();
    let b1 = buf[0];
    let cp: u32;
    if w == 1 {
        cp = (b1 & 0x7F) as u32;
        assert(cp <= 0x7F) by (bit_vector)
            requires
                cp == (b1 & 0x7F) as u32,
        ;
    } else {
        let b2 = buf[1];
        if !is_continuation(b2) {
            return None;
        }
        if w == 2 {
            cp = (((b1 & 0x1F) as u32) << 6) | ((b2 & 0x3F) as u32);
            assert(cp <= 0x7FF) by (bit_vector)
                requires
                    cp == (((b1 & 0x1F) as u32) << 6) | ((b2 & 0x3F) as u32),
            ;
            if cp < 0x80 {
                return None;
            }
        } else {
            let b3 = buf[2];
            if !is_continuation(b3) {
                return None;
            }
            if w == 3 {
                cp = (((b1 & 0x0F) as u32) << 12) | (((b2 & 0x3F) as u32) << 6) | ((b3
                    & 0x3F) as u32);
                assert(cp <= 0xFFFF) by (bit_vector)
                    requires
                        cp == (((b1 & 0x0F) as u32) << 12) | (((b2 & 0x3F) as u32) << 6) | ((b3
                            & 0x3F) as u32),
                ;
                if cp < 0x800 {
                    return None;
                }
            } else {
                let b4 = buf[3];
                if !is_continuation(b4) {
                    return None;
                }
                cp = (((b1 & 0x07) as u32) << 18) | (((b2 & 0x3F) as u32) << 12) | (((b3
                    & 0x3F) as u32) << 6) | ((b4 & 0x3F) as u32);
                if cp < 0x10000 || cp > 0x10FFFF {
                    return None;
                }
            }
        }
    }
    if 0xD800 <= cp && cp <= 0xDFFF {
        return None;
    }
    char_from_scalar(cp)
}

} // verus!
