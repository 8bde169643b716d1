//! The bytes that a timestamp is written with, and ASCII text as characters.
use vstd::prelude::*;

verus! {

/// `+`
pub const PLUS: u8 = 0x2B;

/// `-`
pub const MINUS: u8 = 0x2D;

/// `.`
pub const DOT: u8 = 0x2E;

/// `0`
pub const ZERO: u8 = 0x30;

/// `9`
pub const NINE: u8 = 0x39;

/// `:`
pub const COLON: u8 = 0x3A;

/// `T`
pub const LETTER_T: u8 = 0x54;

/// `Z`
pub const LETTER_Z: u8 = 0x5A;

pub open spec fn is_ascii(s: Seq<u8>) -> bool {
    forall|i: int| 0 <= i < s.len() ==> #[trigger] s[i] < 0x80
}

/// The characters of an ASCII text.
pub open spec fn chars(s: Seq<u8>) -> Seq<char> {
    s.map_values(|b: u8| b as char)
}

/// ASCII is its own UTF-8 encoding.
pub proof fn lemma_ascii_utf8(s: Seq<u8>)
    requires
        is_ascii(s),
    ensures
        vstd::utf8::valid_utf8(s),
        vstd::utf8::encode_utf8(chars(s)) == s,
        vstd::utf8::decode_utf8(s) == chars(s),
{
    let c = chars(s);
    assert(vstd::utf8::is_ascii_chars(c));
    vstd::utf8::is_ascii_chars_encode_utf8(c);
    assert(vstd::utf8::encode_utf8(c) =~= s);
    vstd::utf8::encode_utf8_valid_utf8(c);
    vstd::utf8::encode_utf8_decode_utf8(c);
}

/// The error of `core::str::from_utf8`; nothing is read of it.
#[verifier::external_type_specification]
#[verifier::external_body]
pub struct ExUtf8Error(core::str::Utf8Error);

/// `core::str::from_utf8` turns bytes into a string if and only if they are
/// valid UTF-8, and the string is encoded by those bytes.
pub assume_specification[ core::str::from_utf8 ](v: &[u8]) -> (r: Result<
    &str,
    core::str::Utf8Error,
>)
    ensures
        r is Ok <==> vstd::utf8::valid_utf8(v@),
        r matches Ok(s) ==> vstd::utf8::encode_utf8(s@) == v@,
;

/// An ASCII text as a string.
pub fn ascii_str(bytes: &[u8]) -> (r: &str)
    requires
        is_ascii(bytes@),
    ensures
        r@ == chars(bytes@),
{
    proof {
        lemma_ascii_utf8(bytes@);
    }
    match core::str::from_utf8(bytes) {
        Ok(s) => {
            proof {
                vstd::utf8::encode_utf8_decode_utf8(s@);
            }
            s
        },
        Err(_) => "",
    }
}

}
