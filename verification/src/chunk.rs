//! One chunk of a PNG file: a length, a type code, the data and a checksum.
//!
//! On the wire a chunk is the length of its data as four big-endian bytes,
//! the four bytes of its type code, the data, and the CRC-32 of type code and
//! data as four big-endian bytes.

use crate::chunk_type::{type_code_text, valid_type_code, ChunkType, ChunkTypeError};
use crate::endian::{
    be_bytes, be_value, lemma_be_bytes_of_value, lemma_be_value_of_bytes, u32_from_be_bytes,
    u32_to_be_bytes,
};
use crate::text::{decimal_string, decimal_text, string_from_utf8};
use crc::{Crc, CRC_32_ISO_HDLC};
use vstd::prelude::*;
use vstd::slice::slice_to_vec;
use vstd::string::StringExecFns;
use vstd::utf8::{decode_utf8, encode_utf8, encode_utf8_decode_utf8, valid_utf8};

verus! {

/// The CRC-32/ISO-HDLC checksum of `bytes` (the CRC-32 of PNG, zlib and
/// Ethernet), as the `crc` crate computes it.
pub uninterp spec fn crc32_iso_hdlc(bytes: Seq<u8>) -> u32;

/// Feeds a type code and then the data to a `crc::Digest` of
/// `crc::CRC_32_ISO_HDLC` and returns what `finalize` gives. A digest keeps
/// a running value over the bytes it was fed, in order, and `update` goes on
/// from that value: the contract claims the checksum of the type code
/// followed by the data, as `crc::Crc::checksum` gives it for the two laid
/// end to end.
#[verifier::external_body]
fn get_crc(chunk_type: &[u8], data: &[u8]) -> (r: u32)
    ensures
        r == crc32_iso_hdlc(chunk_type@ + data@),
{
    let png_crc = Crc::<u32>::new(&CRC_32_ISO_HDLC);
    let mut digest = png_crc.digest();
    digest.update(chunk_type);
    digest.update(data);
    digest.finalize()
}

/// What went wrong with a chunk.
#[derive(Debug, Clone, Copy, PartialEq, Eq, Structural)]
pub enum ChunkError {
    /// The bytes are too few to hold a chunk, or their number is not what
    /// the length field says.
    Malformed,
    /// The type code is not one.
    InvalidType(ChunkTypeError),
    /// The checksum in the bytes is not the checksum of the bytes.
    InvalidCRC,
    /// The data was asked for as text and is not UTF-8.
    InvalidEncoding,
    /// No chunk has the type that was asked for.
    NotFound,
}

impl ChunkError {
    /// The sentence that `message` gives.
    pub open spec fn message_text(self) -> Seq<char> {
        match self {
            ChunkError::Malformed => "Chunk Error: Malformed chunk"@,
            ChunkError::InvalidType(_) => "Chunk Error: Invalid chunk type"@,
            ChunkError::InvalidCRC => "Chunk Error: Invalid CRC"@,
            ChunkError::InvalidEncoding => "Chunk Error: Data is not valid UTF-8"@,
            ChunkError::NotFound => "Chunk Error: Chunktype not found."@,
        }
    }

    /// A sentence for the user.
    pub fn message(&self) -> (r: &'static str)
        ensures
            r@ == self.message_text(),
    {
        match self {
            ChunkError::Malformed => "Chunk Error: Malformed chunk",
            ChunkError::InvalidType(_) => "Chunk Error: Invalid chunk type",
            ChunkError::InvalidCRC => "Chunk Error: Invalid CRC",
            ChunkError::InvalidEncoding => "Chunk Error: Data is not valid UTF-8",
            ChunkError::NotFound => "Chunk Error: Chunktype not found.",
        }
    }
}

/// A chunk as a mathematical value: its type code and its data. Length and
/// checksum follow from these two.
#[verifier::ext_equal]
pub struct ChunkView {
    pub chunk_type: Seq<u8>,
    pub data: Seq<u8>,
}

impl ChunkView {
    /// The type code is one and the length of the data fits the length
    /// field. This holds of the view of every `Chunk`.
    pub open spec fn well_formed(self) -> bool {
        &&& valid_type_code(self.chunk_type)
        &&& self.data.len() <= u32::MAX
    }

    /// The number of data bytes.
    pub open spec fn length(self) -> nat {
        self.data.len()
    }

    /// The checksum over type code and data.
    pub open spec fn crc(self) -> u32 {
        crc32_iso_hdlc(self.chunk_type + self.data)
    }

    /// The chunk on the wire.
    pub open spec fn to_bytes(self) -> Seq<u8> {
        be_bytes(self.data.len() as u32) + self.chunk_type + self.data + be_bytes(self.crc())
    }

    /// The lines that describe the chunk to a reader: its length, its type,
    /// the number of its data bytes and its checksum.
    pub open spec fn summary(self) -> Seq<char> {
        "Chunk {\n  Length: "@ + decimal_text(self.length()) + "\n  Type: "@ + type_code_text(
            self.chunk_type,
        ) + "\n  Data: "@ + decimal_text(self.data.len()) + " bytes\n  Crc: "@ + decimal_text(
            self.crc() as nat,
        ) + "\n}\n"@
    }
}

/// The type code and data that a span lays out, whether or not the span is
/// a chunk: all between its first and its last four bytes.
pub open spec fn span_view(bytes: Seq<u8>) -> ChunkView {
    ChunkView { chunk_type: bytes.subrange(4, 8), data: bytes.subrange(8, bytes.len() - 4) }
}

/// What a span of bytes holds, if it is to hold exactly one chunk and
/// `checksum` is the checksum of the type code and data that it lays out.
/// Four conditions are asked of the span, in this order: it has room for
/// the three fixed fields; the type code is one; the span is as long as the
/// length field says; the checksum at the end is `checksum`.
pub open spec fn parse_chunk_with(bytes: Seq<u8>, checksum: u32) -> Result<ChunkView, ChunkError> {
    let n = bytes.len() as int;
    if n < 12 {
        Err(ChunkError::Malformed)
    } else if !valid_type_code(bytes.subrange(4, 8)) {
        Err(ChunkError::InvalidType(ChunkTypeError::InvalidASCII))
    } else if n != 12 + be_value(bytes.subrange(0, 4)) {
        Err(ChunkError::Malformed)
    } else if be_value(bytes.subrange(n - 4, n)) != checksum {
        Err(ChunkError::InvalidCRC)
    } else {
        Ok(span_view(bytes))
    }
}

/// What a span of bytes holds, if it is to hold exactly one chunk: the
/// checksum at its end is held against the one of its type code and data.
pub open spec fn parse_chunk(bytes: Seq<u8>) -> Result<ChunkView, ChunkError> {
    parse_chunk_with(bytes, span_view(bytes).crc())
}

/// Parsing what a chunk serializes to gives the chunk back.
pub proof fn lemma_parse_of_bytes(chunk: ChunkView)
    requires
        chunk.well_formed(),
    ensures
        parse_chunk(chunk.to_bytes()) == Ok::<ChunkView, ChunkError>(chunk),
{
    let bytes = chunk.to_bytes();
    let n = bytes.len() as int;
    lemma_be_value_of_bytes(chunk.data.len() as u32);
    lemma_be_value_of_bytes(chunk.crc());
    assert(bytes.subrange(0, 4) =~= be_bytes(chunk.data.len() as u32));
    assert(bytes.subrange(4, 8) =~= chunk.chunk_type);
    assert(bytes.subrange(8, n - 4) =~= chunk.data);
    assert(bytes.subrange(n - 4, n) =~= be_bytes(chunk.crc()));
}

/// A span that parses is the serialization of the chunk it parses to, and
/// that chunk is well formed.
pub proof fn lemma_bytes_of_parse(bytes: Seq<u8>)
    requires
        parse_chunk(bytes) is Ok,
    ensures
        parse_chunk(bytes).unwrap().well_formed(),
        parse_chunk(bytes).unwrap().to_bytes() == bytes,
{
    let n = bytes.len() as int;
    let chunk = parse_chunk(bytes).unwrap();
    lemma_be_bytes_of_value(bytes.subrange(0, 4));
    lemma_be_bytes_of_value(bytes.subrange(n - 4, n));
    assert(chunk.to_bytes() =~= bytes);
}

/// A span that parses has room for the three fixed fields and is as long
/// as its length field says.
pub proof fn lemma_parsed_span_length(bytes: Seq<u8>)
    requires
        parse_chunk(bytes) is Ok,
    ensures
        bytes.len() >= 12,
        bytes.len() == 12 + be_value(bytes.subrange(0, 4)),
{
}

/// A span that is cut short is refused as `Malformed`: one with no room for
/// the three fixed fields, and one with a type code that is one and fewer
/// bytes than its length field says (or more).
pub proof fn lemma_parse_of_wrong_length(bytes: Seq<u8>)
    requires
        bytes.len() < 12 || (valid_type_code(bytes.subrange(4, 8)) && bytes.len() != 12 + be_value(
            bytes.subrange(0, 4),
        )),
    ensures
        parse_chunk(bytes) == Err::<ChunkView, ChunkError>(ChunkError::Malformed),
{
}

/// What becomes of the bytes of a chunk when other type code and data of
/// the same length are put in place of its own, and length and checksum
/// fields are left as they were: they are refused, unless the checksum of
/// what was put in place is the checksum of what was there.
pub proof fn lemma_parse_of_altered_bytes(chunk: ChunkView, other: ChunkView)
    requires
        chunk.well_formed(),
        other.chunk_type.len() == 4,
        other.data.len() == chunk.data.len(),
    ensures
        parse_chunk(
            be_bytes(chunk.data.len() as u32) + other.chunk_type + other.data + be_bytes(
                chunk.crc(),
            ),
        ) == if !valid_type_code(other.chunk_type) {
            Err::<ChunkView, ChunkError>(ChunkError::InvalidType(ChunkTypeError::InvalidASCII))
        } else if other.crc() != chunk.crc() {
            Err::<ChunkView, ChunkError>(ChunkError::InvalidCRC)
        } else {
            Ok::<ChunkView, ChunkError>(other)
        },
{
    let bytes = be_bytes(chunk.data.len() as u32) + other.chunk_type + other.data + be_bytes(
        chunk.crc(),
    );
    let n = bytes.len() as int;
    lemma_be_value_of_bytes(chunk.data.len() as u32);
    lemma_be_value_of_bytes(chunk.crc());
    assert(bytes.subrange(0, 4) =~= be_bytes(chunk.data.len() as u32));
    assert(bytes.subrange(4, 8) =~= other.chunk_type);
    assert(bytes.subrange(8, n - 4) =~= other.data);
    assert(bytes.subrange(n - 4, n) =~= be_bytes(chunk.crc()));
}

/// A chunk. Every value is consistent: its length field is the length of
/// its data, and its checksum is the checksum of its type code and data.
///
/// The view of a `Chunk` is its type code and data, a `ChunkView`.
#[derive(Debug, Eq)]
pub struct Chunk {
    data_length: u32,
    chunk_type: ChunkType,
    chunk_data: Vec<u8>,
    crc: u32,
}

impl View for Chunk {
    type V = ChunkView;

    closed spec fn view(&self) -> ChunkView {
        ChunkView { chunk_type: self.chunk_type@, data: self.chunk_data@ }
    }
}

impl Chunk {
    #[verifier::type_invariant]
    spec fn inv(&self) -> bool {
        &&& valid_type_code(self.chunk_type@)
        &&& self.data_length == self.chunk_data@.len()
        &&& self.crc == crc32_iso_hdlc(self.chunk_type@ + self.chunk_data@)
    }

    /// Makes a chunk of a type code and data, and computes its checksum. The
    /// length of the data must fit the 32-bit length field.
    pub fn new(chunk_type: ChunkType, data: Vec<u8>) -> (r: Chunk)
        requires
            data@.len() <= u32::MAX,
        ensures
            r@ == (ChunkView { chunk_type: chunk_type@, data: data@ }),
            r@.well_formed(),
    {
        let code = chunk_type.bytes();
        let crc = get_crc(code.as_slice(), data.as_slice());
        Chunk { data_length: data.len() as u32, chunk_type, chunk_data: data, crc }
    }

    /// The number of data bytes.
    pub fn length(&self) -> (r: u32)
        ensures
            r == self@.length(),
            self@.well_formed(),
    {
        proof {
            use_type_invariant(self);
        }
        self.data_length
    }

    /// The checksum over type code and data.
    pub fn crc(&self) -> (r: u32)
        ensures
            r == self@.crc(),
    {
        proof {
            use_type_invariant(self);
        }
        self.crc
    }

    /// The type code.
    pub fn chunk_type(&self) -> (r: &ChunkType)
        ensures
            r@ == self@.chunk_type,
            valid_type_code(r@),
    {
        proof {
            use_type_invariant(self);
        }
        &self.chunk_type
    }

    /// The data.
    pub fn data(&self) -> (r: &[u8])
        ensures
            r@ == self@.data,
    {
        self.chunk_data.as_slice()
    }

    /// The data as text, if it is UTF-8.
    pub fn data_as_string(&self) -> (r: Result<String, ChunkError>)
        ensures
            match r {
                Ok(s) => valid_utf8(self@.data) && s@ == decode_utf8(self@.data) && encode_utf8(
                    s@,
                ) == self@.data,
                Err(e) => !valid_utf8(self@.data) && e == ChunkError::InvalidEncoding,
            },
    {
        match string_from_utf8(slice_to_vec(self.chunk_data.as_slice())) {
            Some(s) => {
                proof {
                    encode_utf8_decode_utf8(s@);
                }
                Ok(s)
            },
            None => Err(ChunkError::InvalidEncoding),
        }
    }

    /// The chunk described in a few lines, for a reader.
    pub fn to_string(&self) -> (r: String)
        ensures
            r@ == self@.summary(),
    {
        proof {
            use_type_invariant(self);
        }
        let mut text = String::new();
        text.append("Chunk {\n  Length: ");
        text.append(decimal_string(self.data_length as u64).as_str());
        text.append("\n  Type: ");
        text.append(self.chunk_type.to_string().as_str());
        text.append("\n  Data: ");
        text.append(decimal_string(self.chunk_data.len() as u64).as_str());
        text.append(" bytes\n  Crc: ");
        text.append(decimal_string(self.crc as u64).as_str());
        text.append("\n}\n");
        assert(text@ =~= self@.summary());
        text
    }

    /// The chunk on the wire: length, type code, data, checksum. Parsing
    /// these bytes gives the same chunk back.
    pub fn as_bytes(&self) -> (r: Vec<u8>)
        ensures
            r@ == self@.to_bytes(),
            self@.well_formed(),
            parse_chunk(r@) == Ok::<ChunkView, ChunkError>(self@),
    {
        proof {
            use_type_invariant(self);
            lemma_parse_of_bytes(self@);
        }
        let mut result: Vec<u8> = Vec::new();
        append_bytes(&mut result, u32_to_be_bytes(self.data_length).as_slice());
        append_bytes(&mut result, self.chunk_type.bytes().as_slice());
        append_bytes(&mut result, self.chunk_data.as_slice());
        append_bytes(&mut result, u32_to_be_bytes(self.crc).as_slice());
        result
    }
}

impl PartialEq for Chunk {
    /// Two chunks are equal when their type codes and their data are;
    /// their lengths and checksums then are too.
    fn eq(&self, other: &Chunk) -> (r: bool) {
        proof {
            use_type_invariant(self);
            use_type_invariant(other);
        }
        let r = self.chunk_type == other.chunk_type && self.chunk_data == other.chunk_data;
        proof {
            if r {
                assert(self.chunk_data@ =~= other.chunk_data@);
            }
        }
        r
    }
}

impl vstd::std_specs::cmp::PartialEqSpecImpl for Chunk {
    open spec fn obeys_eq_spec() -> bool {
        true
    }

    open spec fn eq_spec(&self, other: &Chunk) -> bool {
        self@ == other@
    }
}

/// Pushes every byte of `bytes` onto `out`, in order.
pub(crate) fn append_bytes(out: &mut Vec<u8>, bytes: &[u8])
    ensures
        final(out)@ == old(out)@ + bytes@,
{
    let mut i: usize = 0;
    while i < bytes.len()
        invariant
            i <= bytes@.len(),
            out@ == old(out)@ + bytes@.subrange(0, i as int),
        decreases bytes@.len() - i,
    {
        out.push(bytes[i]);
        i += 1;
    }
    assert(bytes@.subrange(0, i as int) =~= bytes@);
}

/// Reads the type code and data of a chunk from a span of bytes that holds
/// exactly one, given the checksum of what the span lays out as type code
/// and data. Nothing is read outside the span.
///
/// `Chunk::try_from` computes that checksum and calls this; a caller that
/// has the checksum from elsewhere may call it directly.
pub fn read_fields(bytes: &[u8], checksum: u32) -> (r: Result<(ChunkType, Vec<u8>), ChunkError>)
    ensures
        match r {
            Ok((chunk_type, data)) => parse_chunk_with(bytes@, checksum) == Ok::<
                ChunkView,
                ChunkError,
            >(ChunkView { chunk_type: chunk_type@, data: data@ }),
            Err(e) => parse_chunk_with(bytes@, checksum) == Err::<ChunkView, ChunkError>(e),
        },
{
    let n = bytes.len();
    if n < 12 {
        return Err(ChunkError::Malformed);
    }
    let length = u32_from_be_bytes(&bytes[0..4]);
    let code: [u8; 4] = [bytes[4], bytes[5], bytes[6], bytes[7]];
    assert(code@ =~= bytes@.subrange(4, 8));
    let chunk_type = match ChunkType::try_from(code) {
        Ok(chunk_type) => chunk_type,
        Err(e) => {
            return Err(ChunkError::InvalidType(e));
        },
    };
    if n - 12 != length as usize {
        return Err(ChunkError::Malformed);
    }
    if u32_from_be_bytes(&bytes[n - 4..n]) != checksum {
        return Err(ChunkError::InvalidCRC);
    }
    Ok((chunk_type, slice_to_vec(&bytes[8..n - 4])))
}

impl TryFrom<&[u8]> for Chunk {
    type Error = ChunkError;

    /// Reads a chunk from a span of bytes that holds exactly one. Nothing
    /// is read outside the span, and the checksum in the span is compared
    /// with the one computed from it, never trusted.
    fn try_from(bytes: &[u8]) -> (r: Result<Chunk, ChunkError>)
        ensures
            match r {
                Ok(chunk) => parse_chunk(bytes@) == Ok::<ChunkView, ChunkError>(chunk@)
                    && chunk@.well_formed(),
                Err(e) => parse_chunk(bytes@) == Err::<ChunkView, ChunkError>(e),
            },
    {
        let n = bytes.len();
        if n < 12 {
            return Err(ChunkError::Malformed);
        }
        let crc = get_crc(&bytes[4..8], &bytes[8..n - 4]);
        match read_fields(bytes, crc) {
            Ok((chunk_type, chunk_data)) => {
                proof {
                    lemma_be_bytes_of_value(bytes@.subrange(0, 4));
                }
                Ok(Chunk { data_length: chunk_data.len() as u32, chunk_type, chunk_data, crc })
            },
            Err(e) => Err(e),
        }
    }
}

impl vstd::std_specs::convert::TryFromSpecImpl<&[u8]> for Chunk {
    /// What `try_from` returns is stated in its own contract, over views.
    /// This impl promises nothing beside it: the verifier knows a `Vec` by
    /// its view alone, and cannot tell which of the chunks with one view a
    /// call returns.
    open spec fn obeys_try_from_spec() -> bool {
        false
    }

    closed spec fn try_from_spec(bytes: &[u8]) -> Result<Chunk, ChunkError> {
        match parse_chunk(bytes@) {
            Ok(view) => Ok(choose|chunk: Chunk| chunk@ == view),
            Err(e) => Err(e),
        }
    }
}

} // verus!
