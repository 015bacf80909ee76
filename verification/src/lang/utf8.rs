//! Reading UTF-8 encoded input one character at a time.
use core::str::Utf8Error;
use vstd::prelude::*;
use vstd::slice::*;
use vstd::string::*;
use vstd::utf8::*;

verus! {

/// The error of `core::str::from_utf8`; nothing is read from it.
#[verifier::external_type_specification]
#[verifier::external_body]
pub struct ExUtf8Error(Utf8Error);

/// `core::str::from_utf8` succeeds on exactly the byte sequences that are
/// valid UTF-8, and the string slice it then returns is made of the very
/// bytes it was given.
pub assume_specification[ core::str::from_utf8 ](v: &[u8]) -> (checked: Result<&str, Utf8Error>)
    ensures
        checked is Ok <==> valid_utf8(v@),
        checked matches Ok(s) ==> s.spec_bytes() == v@,
;

/// The character that `bytes` begins with, where it begins with one.
pub open spec fn first_char(bytes: Seq<u8>) -> char
    recommends
        valid_first_scalar(bytes),
{
    decode_first_scalar(bytes) as char
}

/// The number of bytes that the encoding of a character takes, going by the
/// byte that it starts with; zero where no encoding starts with that byte.
pub open spec fn width_of_leading_byte(byte: u8) -> nat {
    if is_leading_byte_width_1(byte) {
        1
    } else if is_leading_byte_width_2(byte) {
        2
    } else if is_leading_byte_width_3(byte) {
        3
    } else if is_leading_byte_width_4(byte) {
        4
    } else {
        0
    }
}

/// Whether a sequence is well-formed at its head depends on the bytes of the
/// first character alone: cutting the sequence off behind them changes nothing.
pub proof fn lemma_first_scalar_is_local(bytes: Seq<u8>, width: int)
    requires
        0 < bytes.len(),
        width == width_of_leading_byte(bytes[0]),
        0 < width <= bytes.len(),
    ensures
        valid_first_scalar(bytes) <==> valid_utf8(bytes.subrange(0, width)),
        valid_first_scalar(bytes) ==> length_of_first_scalar(bytes) == width,
        valid_first_scalar(bytes) ==> decode_utf8(bytes.subrange(0, width)) == seq![
            first_char(bytes),
        ],
{
    let head = bytes.subrange(0, width);
    assert(head[0] == bytes[0]);
    assert(width >= 2 ==> head[1] == bytes[1]);
    assert(width >= 3 ==> head[2] == bytes[2]);
    assert(width >= 4 ==> head[3] == bytes[3]);
    reveal_with_fuel(valid_utf8, 2);
    reveal_with_fuel(decode_utf8, 2);
    if valid_first_scalar(head) {
        assert(pop_first_scalar(head) =~= Seq::<u8>::empty());
        assert(valid_utf8(head));
        assert(decode_utf8(head) =~= seq![first_char(bytes)]);
    }
}

/// The first character of a sequence takes as many bytes as its encoding
/// has, and a character below 128 takes one byte.
pub proof fn lemma_first_char_width(bytes: Seq<u8>)
    requires
        valid_first_scalar(bytes),
    ensures
        1 <= length_of_first_scalar(bytes) <= bytes.len(),
        length_of_first_scalar(bytes) == encode_scalar(first_char(bytes) as u32).len(),
        (first_char(bytes) as u32) < 0x80 ==> length_of_first_scalar(bytes) == 1,
{
    let width = length_of_first_scalar(bytes);
    let head = bytes.subrange(0, width);
    lemma_first_scalar_is_local(bytes, width);
    assert(head[0] == bytes[0]);
    assert(width >= 2 ==> head[1] == bytes[1]);
    assert(width >= 3 ==> head[2] == bytes[2]);
    assert(width >= 4 ==> head[3] == bytes[3]);
    decode_utf8_first_scalar(head);
    assert(take_first_scalar(head) =~= head);
}

/// Reads the character that starts at index `at` of `bytes`.
///
/// The result is the text of that one character, or `None` where the bytes
/// from `at` on do not begin with a well-formed UTF-8 encoded character.
pub fn read_unit<'a>(bytes: &'a [u8], at: usize) -> (unit: Option<&'a str>)
    requires
        at <= bytes@.len(),
    ensures
        unit is Some <==> valid_first_scalar(bytes@.skip(at as int)),
        unit matches Some(text) ==> {
            &&& text@ == seq![first_char(bytes@.skip(at as int))]
            &&& text.spec_bytes() == take_first_scalar(bytes@.skip(at as int))
        },
{
    let ghost rest = bytes@.skip(at as int);
    let len = bytes.len();
    if at >= len {
        return None;
    }
    let lead = bytes[at];
    let width: usize = if lead <= 0x7f {
        1
    } else if 0xc0 <= lead && lead <= 0xdf {
        2
    } else if 0xe0 <= lead && lead <= 0xef {
        3
    } else if 0xf0 <= lead && lead <= 0xf7 {
        4
    } else {
        return None;
    };
    assert(rest[0] == lead);
    if width > len - at {
        assert(rest.len() == len - at);
        return None;
    }
    let head = slice_subrange(bytes, at, at + width);
    proof {
        assert(head@ =~= rest.subrange(0, width as int));
        lemma_first_scalar_is_local(rest, width as int);
    }
    match core::str::from_utf8(head) {
        Ok(text) => {
            proof {
                encode_utf8_decode_utf8(text@);
            }
            Some(text)
        },
        Err(_) => None,
    }
}

} // verus!
