//! The four-byte type code of a PNG chunk.
//!
//! A type code is four ASCII letters. The case of each letter is a flag:
//! the first tells critical chunks from ancillary ones, the second public
//! from private, the third is reserved and must be upper case, the fourth
//! says whether an editor that does not know the chunk may copy it.

use crate::text::{ascii_text, lemma_ascii_text, string_from_utf8};
use vstd::prelude::*;
use vstd::slice::slice_to_vec;
use vstd::string::StringSliceAdditionalSpecFns;
use vstd::utf8::{encode_utf8, is_ascii_chars, is_ascii_chars_encode_utf8};

verus! {

/// `b` is one of the bytes `A`..=`Z`.
pub open spec fn is_ascii_upper(b: u8) -> bool {
    0x41 <= b <= 0x5a
}

/// `b` is one of the bytes `a`..=`z`.
pub open spec fn is_ascii_lower(b: u8) -> bool {
    0x61 <= b <= 0x7a
}

/// `b` is an ASCII letter of either case.
pub open spec fn is_ascii_letter(b: u8) -> bool {
    is_ascii_upper(b) || is_ascii_lower(b)
}

/// The rule that every chunk type code obeys: four ASCII letters, the third
/// of them (the reserved bit) upper case.
pub open spec fn valid_type_code(code: Seq<u8>) -> bool {
    &&& code.len() == 4
    &&& forall|i: int| 0 <= i < 4 ==> is_ascii_letter(#[trigger] code[i])
    &&& is_ascii_upper(code[2])
}

/// The text that spells a type code: its four letters.
pub open spec fn type_code_text(code: Seq<u8>) -> Seq<char> {
    ascii_text(code)
}

/// `c` is one of the characters `A`..=`Z`.
pub open spec fn is_upper_letter(c: char) -> bool {
    'A' <= c <= 'Z'
}

/// `c` is one of the characters `a`..=`z`.
pub open spec fn is_lower_letter(c: char) -> bool {
    'a' <= c <= 'z'
}

/// The rule for type codes, on text: four ASCII letters, the third of them
/// upper case.
pub open spec fn valid_type_text(text: Seq<char>) -> bool {
    &&& text.len() == 4
    &&& forall|i: int|
        0 <= i < 4 ==> is_upper_letter(#[trigger] text[i]) || is_lower_letter(text[i])
    &&& is_upper_letter(text[2])
}

/// A text obeys the rule for type codes exactly when its UTF-8 bytes do,
/// and it is then the text that spells those bytes.
pub proof fn lemma_valid_type_text(text: Seq<char>)
    ensures
        valid_type_text(text) <==> valid_type_code(encode_utf8(text)),
        valid_type_text(text) ==> type_code_text(encode_utf8(text)) == text,
{
    let bytes = encode_utf8(text);
    if valid_type_text(text) {
        assert(is_ascii_chars(text));
        is_ascii_chars_encode_utf8(text);
        assert forall|i: int| 0 <= i < 4 implies is_ascii_letter(#[trigger] bytes[i]) by {
            assert(is_upper_letter(text[i]) || is_lower_letter(text[i]));
            assert(bytes[i] == text[i] as u8);
        }
        assert(bytes[2] == text[2] as u8);
        lemma_ascii_text(bytes);
    }
    if valid_type_code(bytes) {
        lemma_ascii_text(bytes);
        assert(text == ascii_text(bytes));
        assert forall|i: int| 0 <= i < 4 implies is_upper_letter(#[trigger] text[i])
            || is_lower_letter(text[i]) by {
            assert(is_ascii_letter(bytes[i]));
            assert(text[i] == bytes[i] as char);
        }
        assert(is_ascii_letter(bytes[2]));
        assert(text[2] == bytes[2] as char);
    }
}

/// Why a sequence of bytes is not a chunk type code.
#[derive(Debug, Clone, Copy, PartialEq, Eq, Structural)]
pub enum ChunkTypeError {
    /// The code is not four ASCII letters with the third in upper case.
    InvalidASCII,
}

impl ChunkTypeError {
    /// A sentence for the user.
    pub fn message(&self) -> (r: &'static str)
        ensures
            r@ == "ChunkType Error: Invalid ASCII character(s). Chunk type must be composed of four alphabetic ASCII bytes, with the third being uppercase."@,
    {
        "ChunkType Error: Invalid ASCII character(s). Chunk type must be composed of four alphabetic ASCII bytes, with the third being uppercase."
    }
}

/// A chunk type code. Every value holds four ASCII letters of which the
/// third is upper case: `try_from` and `from_str` are the only ways to make
/// one, and both refuse anything else.
///
/// The view of a `ChunkType` is its four bytes.
#[derive(Debug, Eq)]
pub struct ChunkType {
    chunk_type: [u8; 4],
}

impl View for ChunkType {
    type V = Seq<u8>;

    closed spec fn view(&self) -> Seq<u8> {
        self.chunk_type@
    }
}

fn byte_is_upper(b: u8) -> (r: bool)
    ensures
        r == is_ascii_upper(b),
{
    0x41 <= b && b <= 0x5a
}

fn byte_is_lower(b: u8) -> (r: bool)
    ensures
        r == is_ascii_lower(b),
{
    0x61 <= b && b <= 0x7a
}

/// Tests the rule on four bytes.
fn code_is_valid(code: &[u8; 4]) -> (r: bool)
    ensures
        r == valid_type_code(code@),
{
    let mut i: usize = 0;
    while i < 4
        invariant
            i <= 4,
            forall|j: int| 0 <= j < i ==> is_ascii_letter(#[trigger] code@[j]),
        decreases 4 - i,
    {
        let b = code[i];
        if !(byte_is_upper(b) || byte_is_lower(b)) {
            return false;
        }
        i += 1;
    }
    byte_is_upper(code[2])
}

impl ChunkType {
    #[verifier::type_invariant]
    spec fn inv(&self) -> bool {
        valid_type_code(self.chunk_type@)
    }

    /// The four bytes of the code, unchanged.
    pub fn bytes(&self) -> (r: [u8; 4])
        ensures
            r@ == self@,
            valid_type_code(r@),
    {
        proof {
            use_type_invariant(self);
        }
        self.chunk_type
    }

    /// Whether the chunk is critical (first letter upper case) rather than
    /// ancillary (lower case).
    pub fn is_critical(&self) -> (r: bool)
        ensures
            r == is_ascii_upper(self@[0]),
            r == !is_ascii_lower(self@[0]),
    {
        proof {
            use_type_invariant(self);
        }
        byte_is_upper(self.chunk_type[0])
    }

    /// Whether the chunk is public (second letter upper case) rather than
    /// private (lower case).
    pub fn is_public(&self) -> (r: bool)
        ensures
            r == is_ascii_upper(self@[1]),
            r == !is_ascii_lower(self@[1]),
    {
        proof {
            use_type_invariant(self);
        }
        byte_is_upper(self.chunk_type[1])
    }

    /// Whether the reserved bit is as it must be: third letter upper case.
    /// This holds of every `ChunkType`.
    pub fn is_reserved_bit_valid(&self) -> (r: bool)
        ensures
            r == is_ascii_upper(self@[2]),
            r,
    {
        proof {
            use_type_invariant(self);
        }
        byte_is_upper(self.chunk_type[2])
    }

    /// Whether the chunk is safe to copy (fourth letter lower case) rather
    /// than unsafe to copy (upper case).
    pub fn is_safe_to_copy(&self) -> (r: bool)
        ensures
            r == is_ascii_lower(self@[3]),
            r == !is_ascii_upper(self@[3]),
    {
        proof {
            use_type_invariant(self);
        }
        byte_is_lower(self.chunk_type[3])
    }

    /// Whether the code obeys the rule for type codes. This holds of every
    /// `ChunkType`.
    pub fn is_valid(&self) -> (r: bool)
        ensures
            r == valid_type_code(self@),
            r,
    {
        proof {
            use_type_invariant(self);
        }
        code_is_valid(&self.chunk_type)
    }

    /// The code as text: its four letters.
    pub fn to_string(&self) -> (r: String)
        ensures
            r@ == type_code_text(self@),
            encode_utf8(r@) == self@,
    {
        proof {
            use_type_invariant(self);
        }
        proof {
            lemma_ascii_text(self@);
        }
        match string_from_utf8(slice_to_vec(self.chunk_type.as_slice())) {
            Some(s) => s,
            None => unreached(),
        }
    }
}

impl PartialEq for ChunkType {
    /// Two type codes are equal when their bytes are.
    fn eq(&self, other: &ChunkType) -> (r: bool) {
        let r = self.chunk_type[0] == other.chunk_type[0] && self.chunk_type[1]
            == other.chunk_type[1] && self.chunk_type[2] == other.chunk_type[2]
            && self.chunk_type[3] == other.chunk_type[3];
        proof {
            if r {
                assert(self@ =~= other@);
            }
        }
        r
    }
}

impl vstd::std_specs::cmp::PartialEqSpecImpl for ChunkType {
    open spec fn obeys_eq_spec() -> bool {
        true
    }

    open spec fn eq_spec(&self, other: &ChunkType) -> bool {
        self@ == other@
    }
}

impl TryFrom<[u8; 4]> for ChunkType {
    type Error = ChunkTypeError;

    /// Makes a type code of four bytes, if they obey the rule.
    fn try_from(code: [u8; 4]) -> (r: Result<ChunkType, ChunkTypeError>)
        ensures
            match r {
                Ok(t) => valid_type_code(code@) && t@ == code@,
                Err(e) => !valid_type_code(code@) && e == ChunkTypeError::InvalidASCII,
            },
    {
        if code_is_valid(&code) {
            Ok(ChunkType { chunk_type: code })
        } else {
            Err(ChunkTypeError::InvalidASCII)
        }
    }
}

impl vstd::std_specs::convert::TryFromSpecImpl<[u8; 4]> for ChunkType {
    open spec fn obeys_try_from_spec() -> bool {
        true
    }

    closed spec fn try_from_spec(code: [u8; 4]) -> Result<ChunkType, ChunkTypeError> {
        if valid_type_code(code@) {
            Ok(ChunkType { chunk_type: code })
        } else {
            Err(ChunkTypeError::InvalidASCII)
        }
    }
}

impl std::str::FromStr for ChunkType {
    type Err = ChunkTypeError;

    /// Makes a type code of a string, if the string obeys the rule: four
    /// ASCII letters, the third upper case. Its UTF-8 bytes are then four and
    /// obey the rule for bytes, and are the code.
    fn from_str(s: &str) -> (r: Result<ChunkType, ChunkTypeError>)
        ensures
            valid_type_text(s@) <==> valid_type_code(s.spec_bytes()),
            match r {
                Ok(t) => {
                    &&& valid_type_text(s@)
                    &&& t@ == s.spec_bytes()
                    &&& type_code_text(t@) == s@
                    &&& forall|i: int| 0 <= i < 4 ==> #[trigger] t@[i] == s@[i] as u8
                },
                Err(e) => !valid_type_text(s@) && e == ChunkTypeError::InvalidASCII,
            },
    {
        proof {
            lemma_valid_type_text(s@);
            if valid_type_text(s@) {
                is_ascii_chars_encode_utf8(s@);
            }
        }
        let b = s.as_bytes();
        if b.len() != 4 {
            return Err(ChunkTypeError::InvalidASCII);
        }
        let code: [u8; 4] = [b[0], b[1], b[2], b[3]];
        assert(code@ =~= b@);
        ChunkType::try_from(code)
    }
}

} // verus!
