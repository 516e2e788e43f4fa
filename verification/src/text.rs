//! Bytes as text: the one place where the library turns bytes into a
//! `String`.

use vstd::prelude::*;
use vstd::utf8::{
    decode_utf8, encode_utf8, encode_utf8_decode_utf8, is_ascii_chars, is_ascii_chars_encode_utf8,
    is_leading_byte_width_1, partial_valid_utf8, partial_valid_utf8_extend_ascii_block, valid_utf8,
};

verus! {

/// Every byte of `bytes` is below 128.
pub open spec fn is_ascii_bytes(bytes: Seq<u8>) -> bool {
    forall|i: int| 0 <= i < bytes.len() ==> #[trigger] bytes[i] < 0x80
}

/// `std::string::String::from_utf8`, with the error dropped. The contract
/// claims what the standard library documents: the call succeeds exactly
/// when the bytes are UTF-8, and the string it gives is made of those very
/// bytes.
#[verifier::external_body]
pub(crate) fn string_from_utf8(bytes: Vec<u8>) -> (r: Option<String>)
    ensures
        match r {
            Some(s) => valid_utf8(bytes@) && encode_utf8(s@) == bytes@,
            None => !valid_utf8(bytes@),
        },
{
    String::from_utf8(bytes).ok()
}

/// ASCII bytes read as text: each byte is one character.
pub open spec fn ascii_text(bytes: Seq<u8>) -> Seq<char> {
    Seq::new(bytes.len(), |i: int| bytes[i] as char)
}

/// ASCII bytes are UTF-8, and they encode one text only: the bytes
/// themselves read as characters.
pub proof fn lemma_ascii_text(bytes: Seq<u8>)
    requires
        is_ascii_bytes(bytes),
    ensures
        valid_utf8(bytes),
        decode_utf8(bytes) == ascii_text(bytes),
        encode_utf8(ascii_text(bytes)) == bytes,
        forall|text: Seq<char>| #[trigger] encode_utf8(text) == bytes ==> text == ascii_text(bytes),
{
    let chars = ascii_text(bytes);
    assert(valid_utf8(bytes)) by {
        assert(bytes.subrange(0, 0) =~= Seq::<u8>::empty());
        assert(partial_valid_utf8(bytes, 0));
        assert forall|i: int| 0 <= i < bytes.len() implies #[trigger] is_leading_byte_width_1(
            bytes[i],
        ) by {}
        partial_valid_utf8_extend_ascii_block(bytes, 0, bytes.len() as int);
        assert(bytes.subrange(0, bytes.len() as int) =~= bytes);
    }
    assert(is_ascii_chars(chars));
    is_ascii_chars_encode_utf8(chars);
    assert(encode_utf8(chars) =~= bytes);
    encode_utf8_decode_utf8(chars);
    assert forall|text: Seq<char>| #[trigger] encode_utf8(text) == bytes implies text == chars by {
        encode_utf8_decode_utf8(text);
    }
}

/// The decimal digits of `n`, as ASCII bytes, without leading zeros.
pub open spec fn decimal_digits(n: nat) -> Seq<u8>
    decreases n,
{
    if n < 10 {
        seq![(0x30 + n) as u8]
    } else {
        decimal_digits(n / 10).push((0x30 + n % 10) as u8)
    }
}

/// `n` in decimal.
pub open spec fn decimal_text(n: nat) -> Seq<char> {
    ascii_text(decimal_digits(n))
}

/// Decimal digits are ASCII.
pub proof fn lemma_decimal_digits_ascii(n: nat)
    ensures
        is_ascii_bytes(decimal_digits(n)),
    decreases n,
{
    if n >= 10 {
        lemma_decimal_digits_ascii(n / 10);
    }
}

fn decimal_bytes(x: u64) -> (r: Vec<u8>)
    ensures
        r@ == decimal_digits(x as nat),
    decreases x,
{
    if x < 10 {
        let mut r: Vec<u8> = Vec::new();
        r.push(0x30 + x as u8);
        assert(r@ =~= decimal_digits(x as nat));
        r
    } else {
        let mut r = decimal_bytes(x / 10);
        r.push(0x30 + (x % 10) as u8);
        r
    }
}

/// `x` in decimal.
pub fn decimal_string(x: u64) -> (r: String)
    ensures
        r@ == decimal_text(x as nat),
{
    let digits = decimal_bytes(x);
    proof {
        lemma_decimal_digits_ascii(x as nat);
        lemma_ascii_text(digits@);
    }
    match string_from_utf8(digits) {
        Some(s) => s,
        None => unreached(),
    }
}

} // verus!
