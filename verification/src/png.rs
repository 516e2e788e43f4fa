//! A PNG file as a sequence of chunks.
//!
//! On the wire a file is the eight bytes of the PNG signature and then its
//! chunks, one after the other, with nothing between or after them.

use crate::chunk::{
    append_bytes, lemma_bytes_of_parse, lemma_parse_of_bytes, lemma_parsed_span_length,
    parse_chunk, Chunk, ChunkError, ChunkView,
};
use crate::chunk_type::type_code_text;
use crate::endian::{be_value, lemma_be_bytes_of_value, u32_from_be_bytes};
use crate::text::lemma_ascii_text;
use vstd::prelude::*;
use vstd::std_specs::cmp::PartialEqSpec;

verus! {

/// The eight bytes that every PNG file starts with.
pub open spec fn png_signature() -> Seq<u8> {
    seq![0x89u8, 0x50u8, 0x4eu8, 0x47u8, 0x0du8, 0x0au8, 0x1au8, 0x0au8]
}

/// What went wrong with a file.
#[derive(Debug, Clone, Copy, PartialEq, Eq, Structural)]
pub enum PngError {
    /// The file does not start with the PNG signature.
    InvalidSignature,
    /// One of its chunks is at fault.
    Chunk(ChunkError),
}

impl PngError {
    /// The sentence that `message` gives.
    pub open spec fn message_text(self) -> Seq<char> {
        match self {
            PngError::InvalidSignature => "Png Error: Invalid signature"@,
            PngError::Chunk(e) => e.message_text(),
        }
    }

    /// A sentence for the user.
    pub fn message(&self) -> (r: &'static str)
        ensures
            r@ == self.message_text(),
    {
        match self {
            PngError::InvalidSignature => "Png Error: Invalid signature",
            PngError::Chunk(e) => e.message(),
        }
    }
}

/// The length of the span that the first chunk of `bytes` takes: what its
/// length field says and the twelve bytes of the fixed fields, where that
/// much is there, and else all of `bytes`.
pub open spec fn first_span(bytes: Seq<u8>) -> int {
    if bytes.len() >= 12 && 12 + be_value(bytes.subrange(0, 4)) <= bytes.len() {
        12 + be_value(bytes.subrange(0, 4))
    } else {
        bytes.len() as int
    }
}

/// The chunks that `bytes` hold, one after the other until the bytes end.
/// The first chunk that does not parse fails the whole.
///
/// Opaque, to keep it out of proofs that do not look inside: `reveal` it
/// (or `reveal_with_fuel`) to unfold it.
#[verifier::opaque]
pub open spec fn parse_chunks(bytes: Seq<u8>) -> Result<Seq<ChunkView>, ChunkError>
    decreases bytes.len(),
{
    if bytes.len() == 0 {
        Ok(Seq::empty())
    } else {
        let n = first_span(bytes);
        match parse_chunk(bytes.subrange(0, n)) {
            Err(e) => Err(e),
            Ok(chunk) => match parse_chunks(bytes.subrange(n, bytes.len() as int)) {
                Err(e) => Err(e),
                Ok(chunks) => Ok(seq![chunk] + chunks),
            },
        }
    }
}

/// The chunks on the wire, one after the other.
///
/// Opaque, as `parse_chunks` is.
#[verifier::opaque]
pub open spec fn serialize_chunks(chunks: Seq<ChunkView>) -> Seq<u8>
    decreases chunks.len(),
{
    if chunks.len() == 0 {
        Seq::empty()
    } else {
        chunks[0].to_bytes() + serialize_chunks(chunks.drop_first())
    }
}

/// What a file holds: the signature is checked first, and only then are
/// chunks parsed.
pub open spec fn parse_png(bytes: Seq<u8>) -> Result<Seq<ChunkView>, PngError> {
    if !(bytes.len() >= 8 && bytes.subrange(0, 8) =~= png_signature()) {
        Err(PngError::InvalidSignature)
    } else {
        match parse_chunks(bytes.subrange(8, bytes.len() as int)) {
            Ok(chunks) => Ok(chunks),
            Err(e) => Err(PngError::Chunk(e)),
        }
    }
}

/// The file on the wire: the signature, then the chunks.
pub open spec fn serialize_png(chunks: Seq<ChunkView>) -> Seq<u8> {
    png_signature() + serialize_chunks(chunks)
}

/// Every chunk of the sequence is well formed.
pub open spec fn all_well_formed(chunks: Seq<ChunkView>) -> bool {
    forall|i: int| 0 <= i < chunks.len() ==> (#[trigger] chunks[i]).well_formed()
}

/// The text names the type of the chunk: it is the four letters of the
/// chunk's type code.
pub open spec fn is_of_type(chunk: ChunkView, text: Seq<char>) -> bool {
    type_code_text(chunk.chunk_type) =~= text
}

/// `i` is the place of the first chunk of that type.
pub open spec fn is_first_of_type(chunks: Seq<ChunkView>, text: Seq<char>, i: int) -> bool {
    &&& 0 <= i < chunks.len()
    &&& is_of_type(chunks[i], text)
    &&& forall|j: int| 0 <= j < i ==> !is_of_type(#[trigger] chunks[j], text)
}

/// The place of the first chunk of that type, if there is one.
pub open spec fn first_of_type(chunks: Seq<ChunkView>, text: Seq<char>) -> Option<int> {
    if exists|i: int| is_first_of_type(chunks, text, i) {
        Some(choose|i: int| is_first_of_type(chunks, text, i))
    } else {
        None
    }
}

/// The views of a sequence of chunks.
pub open spec fn chunk_views(chunks: Seq<Chunk>) -> Seq<ChunkView> {
    chunks.map_values(|chunk: Chunk| chunk@)
}

/// A PNG file: its chunks, in the order of the file.
///
/// The view of a `Png` is the sequence of the views of its chunks.
#[derive(Debug, Eq)]
pub struct Png {
    chunks: Vec<Chunk>,
}

impl View for Png {
    type V = Seq<ChunkView>;

    closed spec fn view(&self) -> Seq<ChunkView> {
        chunk_views(self.chunks@)
    }
}

impl Png {
    /// A file of these chunks, in this order.
    pub fn from_chunks(chunks: Vec<Chunk>) -> (r: Png)
        ensures
            r@ == chunk_views(chunks@),
    {
        Png { chunks }
    }

    /// The chunks, in the order of the file.
    pub fn chunks(&self) -> (r: &[Chunk])
        ensures
            chunk_views(r@) == self@,
            r@.len() == self@.len(),
    {
        self.chunks.as_slice()
    }

    /// Puts a chunk at the end of the file.
    pub fn append_chunk(&mut self, chunk: Chunk)
        ensures
            final(self)@ == old(self)@.push(chunk@),
    {
        self.chunks.push(chunk);
        assert(chunk_views(self.chunks@) =~= chunk_views(old(self).chunks@).push(chunk@));
    }

    /// The first chunk whose type is spelled by `chunk_type`, if there is
    /// one.
    pub fn chunk_by_type(&self, chunk_type: &str) -> (r: Option<&Chunk>)
        ensures
            match r {
                Some(chunk) => exists|i: int|
                    is_first_of_type(self@, chunk_type@, i) && chunk@ == self@[i],
                None => forall|i: int|
                    0 <= i < self@.len() ==> !is_of_type(#[trigger] self@[i], chunk_type@),
            },
            match first_of_type(self@, chunk_type@) {
                Some(i) => r is Some && r.unwrap()@ == self@[i],
                None => r is None,
            },
    {
        let mut i: usize = 0;
        while i < self.chunks.len()
            invariant
                i <= self.chunks@.len(),
                forall|j: int| 0 <= j < i ==> !is_of_type(#[trigger] self@[j], chunk_type@),
            decreases self.chunks@.len() - i,
        {
            if chunk_is_of_type(&self.chunks[i], chunk_type) {
                proof {
                    assert(is_first_of_type(self@, chunk_type@, i as int));
                    lemma_first_of_type(self@, chunk_type@);
                }
                return Some(&self.chunks[i]);
            }
            i += 1;
        }
        proof {
            lemma_first_of_type(self@, chunk_type@);
        }
        None
    }

    /// Takes the first chunk whose type is spelled by `chunk_type` out of
    /// the file and returns it; the chunks after it move up, in their
    /// order. Where there is none the file stays as it is.
    pub fn remove_first_chunk(&mut self, chunk_type: &str) -> (r: Result<Chunk, ChunkError>)
        ensures
            match r {
                Ok(chunk) => exists|i: int|
                    is_first_of_type(old(self)@, chunk_type@, i) && chunk@ == old(self)@[i]
                        && final(self)@ == old(self)@.remove(i),
                Err(e) => e == ChunkError::NotFound && final(self)@ == old(self)@ && forall|i: int|
                    0 <= i < old(self)@.len() ==> !is_of_type(
                        #[trigger] old(self)@[i],
                        chunk_type@,
                    ),
            },
            match first_of_type(old(self)@, chunk_type@) {
                Some(i) => r is Ok && r.unwrap()@ == old(self)@[i] && final(self)@ == old(
                    self,
                )@.remove(i),
                None => r == Err::<Chunk, ChunkError>(ChunkError::NotFound) && final(self)@ == old(
                    self,
                )@,
            },
    {
        let mut i: usize = 0;
        while i < self.chunks.len()
            invariant
                i <= self.chunks@.len(),
                *self == *old(self),
                forall|j: int| 0 <= j < i ==> !is_of_type(#[trigger] self@[j], chunk_type@),
            decreases self.chunks@.len() - i,
        {
            if chunk_is_of_type(&self.chunks[i], chunk_type) {
                proof {
                    assert(is_first_of_type(self@, chunk_type@, i as int));
                    lemma_first_of_type(self@, chunk_type@);
                }
                let chunk = self.chunks.remove(i);
                assert(chunk_views(self.chunks@) =~= chunk_views(old(self).chunks@).remove(
                    i as int,
                ));
                return Ok(chunk);
            }
            i += 1;
        }
        proof {
            lemma_first_of_type(self@, chunk_type@);
        }
        Err(ChunkError::NotFound)
    }

    /// The file on the wire: the signature, then each chunk. Parsing these
    /// bytes gives the same chunks back.
    pub fn as_bytes(&self) -> (r: Vec<u8>)
        ensures
            r@ == serialize_png(self@),
            all_well_formed(self@),
            parse_png(r@) == Ok::<Seq<ChunkView>, PngError>(self@),
    {
        let mut result: Vec<u8> = Vec::new();
        result.push(0x89);
        result.push(0x50);
        result.push(0x4e);
        result.push(0x47);
        result.push(0x0d);
        result.push(0x0a);
        result.push(0x1a);
        result.push(0x0a);
        assert(result@ =~= png_signature() + serialize_chunks(self@.subrange(0, 0))) by {
            reveal(serialize_chunks);
        }
        let mut i: usize = 0;
        while i < self.chunks.len()
            invariant
                i <= self.chunks@.len(),
                result@ == png_signature() + serialize_chunks(self@.subrange(0, i as int)),
                all_well_formed(self@.subrange(0, i as int)),
            decreases self.chunks@.len() - i,
        {
            let bytes = self.chunks[i].as_bytes();
            proof {
                let done = self@.subrange(0, i as int);
                lemma_serialize_push(done, self@[i as int]);
                assert(self@.subrange(0, i + 1) =~= done.push(self@[i as int]));
            }
            append_bytes(&mut result, bytes.as_slice());
            i += 1;
        }
        proof {
            assert(self@.subrange(0, i as int) =~= self@);
            lemma_parse_of_serialized_png(self@);
        }
        result
    }
}

impl PartialEq for Png {
    /// Two files are equal when they hold equal chunks in the same order.
    fn eq(&self, other: &Png) -> (r: bool) {
        let r = self.chunks == other.chunks;
        proof {
            if r {
                assert forall|i: int| 0 <= i < self@.len() implies self@[i] == other@[i] by {
                    assert(self.chunks[i].eq_spec(&other.chunks[i]));
                }
                assert(self@ =~= other@);
            } else if self@ == other@ {
                assert(self.chunks@.len() == self@.len());
                assert(other.chunks@.len() == other@.len());
                assert forall|i: int| 0 <= i < self.chunks.len() implies #[trigger] self.chunks[i].eq_spec(
                    &other.chunks[i],
                ) by {
                    assert(self@[i] == other@[i]);
                }
            }
        }
        r
    }
}

impl vstd::std_specs::cmp::PartialEqSpecImpl for Png {
    open spec fn obeys_eq_spec() -> bool {
        true
    }

    open spec fn eq_spec(&self, other: &Png) -> bool {
        self@ == other@
    }
}

impl TryFrom<&[u8]> for Png {
    type Error = PngError;

    /// Reads a file: the signature, then chunks until the bytes end. One
    /// chunk that does not parse fails the whole; no part of a file is ever
    /// returned.
    fn try_from(bytes: &[u8]) -> (r: Result<Png, PngError>)
        ensures
            match r {
                Ok(png) => parse_png(bytes@) == Ok::<Seq<ChunkView>, PngError>(png@),
                Err(e) => parse_png(bytes@) == Err::<Seq<ChunkView>, PngError>(e),
            },
    {
        if !has_signature(bytes) {
            return Err(PngError::InvalidSignature);
        }
        match read_chunks(&bytes[8..bytes.len()]) {
            Ok(chunks) => Ok(Png { chunks }),
            Err(e) => Err(PngError::Chunk(e)),
        }
    }
}

impl vstd::std_specs::convert::TryFromSpecImpl<&[u8]> for Png {
    /// As for `Chunk`: what `try_from` returns is stated over views, in its
    /// own contract.
    open spec fn obeys_try_from_spec() -> bool {
        false
    }

    closed spec fn try_from_spec(bytes: &[u8]) -> Result<Png, PngError> {
        match parse_png(bytes@) {
            Ok(view) => Ok(choose|png: Png| png@ == view),
            Err(e) => Err(e),
        }
    }
}

/// Whether `bytes` start with the PNG signature.
fn has_signature(bytes: &[u8]) -> (r: bool)
    ensures
        r == (bytes@.len() >= 8 && bytes@.subrange(0, 8) == png_signature()),
{
    if bytes.len() < 8 {
        return false;
    }
    let r = bytes[0] == 0x89 && bytes[1] == 0x50 && bytes[2] == 0x4e && bytes[3] == 0x47
        && bytes[4] == 0x0d && bytes[5] == 0x0a && bytes[6] == 0x1a && bytes[7] == 0x0a;
    proof {
        let head = bytes@.subrange(0, 8);
        if r {
            assert(head =~= png_signature());
        } else {
            assert(head[0] == bytes@[0] && head[1] == bytes@[1] && head[2] == bytes@[2] && head[3]
                == bytes@[3] && head[4] == bytes@[4] && head[5] == bytes@[5] && head[6]
                == bytes@[6] && head[7] == bytes@[7]);
        }
    }
    r
}

/// The length of the span that the first chunk of `bytes` takes.
fn first_span_len(bytes: &[u8]) -> (r: usize)
    ensures
        r == first_span(bytes@),
        r <= bytes@.len(),
        bytes@.len() > 0 ==> r > 0,
{
    let n = bytes.len();
    if n < 12 {
        return n;
    }
    let length = u32_from_be_bytes(&bytes[0..4]);
    proof {
        lemma_be_bytes_of_value(bytes@.subrange(0, 4));
    }
    if n - 12 >= length as usize {
        length as usize + 12
    } else {
        n
    }
}

/// Reads chunks until the bytes end.
fn read_chunks(bytes: &[u8]) -> (r: Result<Vec<Chunk>, ChunkError>)
    ensures
        match r {
            Ok(chunks) => parse_chunks(bytes@) == Ok::<Seq<ChunkView>, ChunkError>(
                chunk_views(chunks@),
            ),
            Err(e) => parse_chunks(bytes@) == Err::<Seq<ChunkView>, ChunkError>(e),
        },
{
    let n = bytes.len();
    let mut chunks: Vec<Chunk> = Vec::new();
    let mut pos: usize = 0;
    proof {
        assert(chunk_views(chunks@) =~= Seq::empty());
        assert(bytes@.subrange(0, n as int) =~= bytes@);
        lemma_after_ends(Seq::empty(), bytes@);
    }
    while pos < n
        invariant
            pos <= n,
            n == bytes@.len(),
            parse_chunks(bytes@) == after(
                chunk_views(chunks@),
                parse_chunks(bytes@.subrange(pos as int, n as int)),
            ),
        decreases n - pos,
    {
        let rest = &bytes[pos..n];
        let span = first_span_len(rest);
        let ghost done = chunk_views(chunks@);
        match Chunk::try_from(&rest[0..span]) {
            Ok(chunk) => {
                proof {
                    lemma_after_step(done, rest@, chunk@);
                    assert(rest@.subrange(span as int, rest@.len() as int) =~= bytes@.subrange(
                        pos + span,
                        n as int,
                    ));
                }
                chunks.push(chunk);
                assert(chunk_views(chunks@) =~= done.push(chunk@));
                pos += span;
            },
            Err(e) => {
                proof {
                    lemma_parse_chunks_fail(rest@);
                }
                return Err(e);
            },
        }
    }
    proof {
        assert(bytes@.subrange(pos as int, n as int) =~= Seq::<u8>::empty());
        lemma_after_ends(chunk_views(chunks@), bytes@);
    }
    Ok(chunks)
}

/// Whether the text names the type of the chunk.
fn chunk_is_of_type(chunk: &Chunk, text: &str) -> (r: bool)
    ensures
        r == is_of_type(chunk@, text@),
{
    let code = chunk.chunk_type().bytes();
    let t = text.as_bytes();
    proof {
        lemma_ascii_text(code@);
    }
    if t.len() != 4 {
        return false;
    }
    let r = t[0] == code[0] && t[1] == code[1] && t[2] == code[2] && t[3] == code[3];
    proof {
        if r {
            assert(t@ =~= code@);
        }
    }
    r
}

/// Parsing what a file of well-formed chunks serializes to gives the chunks
/// back.
pub proof fn lemma_parse_of_serialized_png(chunks: Seq<ChunkView>)
    requires
        all_well_formed(chunks),
    ensures
        parse_png(serialize_png(chunks)) == Ok::<Seq<ChunkView>, PngError>(chunks),
{
    lemma_parse_of_serialized_chunks(chunks);
    lemma_signature_split(serialize_chunks(chunks));
}

/// A file that parses is the serialization of the chunks it parses to, and
/// those chunks are well formed.
pub proof fn lemma_serialized_png_of_parse(bytes: Seq<u8>)
    requires
        parse_png(bytes) is Ok,
    ensures
        all_well_formed(parse_png(bytes).unwrap()),
        serialize_png(parse_png(bytes).unwrap()) == bytes,
{
    lemma_serialized_chunks_of_parse(bytes.subrange(8, bytes.len() as int));
    assert(bytes.subrange(0, 8) + bytes.subrange(8, bytes.len() as int) =~= bytes);
}

/// A file whose first eight bytes are not the signature is refused for
/// that, whatever follows them.
pub proof fn lemma_signature_first(bytes: Seq<u8>)
    requires
        bytes.len() < 8 || bytes.subrange(0, 8) != png_signature(),
    ensures
        parse_png(bytes) == Err::<Seq<ChunkView>, PngError>(PngError::InvalidSignature),
{
}

/// Parsing what a sequence of well-formed chunks serializes to gives the
/// sequence back.
pub proof fn lemma_parse_of_serialized_chunks(chunks: Seq<ChunkView>)
    requires
        all_well_formed(chunks),
    ensures
        parse_chunks(serialize_chunks(chunks)) == Ok::<Seq<ChunkView>, ChunkError>(chunks),
    decreases chunks.len(),
{
    reveal(parse_chunks);
    reveal(serialize_chunks);
    if chunks.len() == 0 {
        assert(chunks =~= Seq::empty());
    } else {
        let head = chunks[0];
        let tail = chunks.drop_first();
        lemma_serialize_uncons(chunks);
        lemma_parse_of_bytes(head);
        lemma_parse_of_serialized_chunks(tail);
        lemma_parse_chunks_step(head.to_bytes(), serialize_chunks(tail));
    }
}

/// Bytes that parse as chunks are the serialization of those chunks, and
/// the chunks are well formed.
pub proof fn lemma_serialized_chunks_of_parse(bytes: Seq<u8>)
    requires
        parse_chunks(bytes) is Ok,
    ensures
        all_well_formed(parse_chunks(bytes).unwrap()),
        serialize_chunks(parse_chunks(bytes).unwrap()) == bytes,
    decreases bytes.len(),
{
    reveal(parse_chunks);
    reveal(serialize_chunks);
    if bytes.len() == 0 {
        assert(bytes =~= Seq::empty());
    } else {
        let (span, head, rest) = lemma_parse_chunks_split(bytes);
        lemma_holds(span, head);
        lemma_serialized_chunks_of_parse(rest);
        lemma_serialize_cons(head, parse_chunks(rest).unwrap());
    }
}

/// One more chunk at the end is its bytes at the end.
pub proof fn lemma_serialize_push(chunks: Seq<ChunkView>, chunk: ChunkView)
    ensures
        serialize_chunks(chunks.push(chunk)) == serialize_chunks(chunks) + chunk.to_bytes(),
    decreases chunks.len(),
{
    reveal(serialize_chunks);
    let pushed = chunks.push(chunk);
    if chunks.len() == 0 {
        assert(pushed.drop_first() =~= Seq::<ChunkView>::empty());
        assert(serialize_chunks(pushed.drop_first()) =~= Seq::<u8>::empty());
        assert(serialize_chunks(chunks) =~= Seq::<u8>::empty());
        assert(serialize_chunks(pushed) =~= serialize_chunks(chunks) + chunk.to_bytes());
    } else {
        lemma_serialize_push(chunks.drop_first(), chunk);
        assert(pushed.drop_first() =~= chunks.drop_first().push(chunk));
        assert(pushed[0] == chunks[0]);
        assert(serialize_chunks(pushed) =~= serialize_chunks(chunks) + chunk.to_bytes());
    }
}

/// There is one place at most that `is_first_of_type` holds of, and
/// `first_of_type` gives it; it gives none exactly when no chunk is of that
/// type.
pub proof fn lemma_first_of_type(chunks: Seq<ChunkView>, text: Seq<char>)
    ensures
        forall|i: int| #[trigger]
            is_first_of_type(chunks, text, i) ==> first_of_type(chunks, text) == Some(i),
        first_of_type(chunks, text) is None <==> forall|j: int|
            0 <= j < chunks.len() ==> !is_of_type(#[trigger] chunks[j], text),
{
    assert forall|i: int| #[trigger] is_first_of_type(chunks, text, i) implies first_of_type(
        chunks,
        text,
    ) == Some(i) by {
        let k = choose|k: int| is_first_of_type(chunks, text, k);
        assert(!(k < i));
        assert(!(i < k));
    }
    if exists|j: int| 0 <= j < chunks.len() && is_of_type(#[trigger] chunks[j], text) {
        let j = choose|j: int| 0 <= j < chunks.len() && is_of_type(#[trigger] chunks[j], text);
        lemma_some_first_of_type(chunks, text, j);
    }
}

/// Where a chunk is of that type, one is the first.
proof fn lemma_some_first_of_type(chunks: Seq<ChunkView>, text: Seq<char>, j: int)
    requires
        0 <= j < chunks.len(),
        is_of_type(chunks[j], text),
    ensures
        exists|i: int| is_first_of_type(chunks, text, i),
    decreases j,
{
    if exists|k: int| 0 <= k < j && is_of_type(#[trigger] chunks[k], text) {
        let k = choose|k: int| 0 <= k < j && is_of_type(#[trigger] chunks[k], text);
        lemma_some_first_of_type(chunks, text, k);
    } else {
        assert(is_first_of_type(chunks, text, j));
    }
}

/// The result of parsing the chunks `done` and then going on with `rest`.
spec fn after(done: Seq<ChunkView>, rest: Result<Seq<ChunkView>, ChunkError>) -> Result<
    Seq<ChunkView>,
    ChunkError,
> {
    match rest {
        Ok(chunks) => Ok(done + chunks),
        Err(e) => Err(e),
    }
}

/// Parsing nothing more after `done` gives `done`, and parsing after
/// nothing gives what is parsed.
proof fn lemma_after_ends(done: Seq<ChunkView>, rest: Seq<u8>)
    ensures
        after(Seq::empty(), parse_chunks(rest)) == parse_chunks(rest),
        after(done, parse_chunks(Seq::empty())) == Ok::<Seq<ChunkView>, ChunkError>(done),
{
    reveal(parse_chunks);
    match parse_chunks(rest) {
        Ok(chunks) => {
            assert(Seq::<ChunkView>::empty() + chunks =~= chunks);
        },
        Err(e) => {},
    }
    assert(done + Seq::<ChunkView>::empty() =~= done);
}

/// Where the first span of `rest` holds a chunk, parsing `rest` after
/// `done` is parsing what follows that span after `done` and the chunk.
proof fn lemma_after_step(done: Seq<ChunkView>, rest: Seq<u8>, chunk: ChunkView)
    requires
        rest.len() > 0,
        parse_chunk(rest.subrange(0, first_span(rest))) == Ok::<ChunkView, ChunkError>(chunk),
    ensures
        after(done, parse_chunks(rest)) == after(
            done.push(chunk),
            parse_chunks(rest.subrange(first_span(rest), rest.len() as int)),
        ),
{
    reveal(parse_chunks);
    match parse_chunks(rest.subrange(first_span(rest), rest.len() as int)) {
        Ok(chunks) => {
            assert(done + (seq![chunk] + chunks) =~= done.push(chunk) + chunks);
        },
        Err(e) => {},
    }
}

/// Bytes whose first span does not parse do not parse, for the same reason.
proof fn lemma_parse_chunks_fail(bytes: Seq<u8>)
    requires
        bytes.len() > 0,
        parse_chunk(bytes.subrange(0, first_span(bytes))) is Err,
    ensures
        parse_chunks(bytes) == Err::<Seq<ChunkView>, ChunkError>(
            parse_chunk(bytes.subrange(0, first_span(bytes)))->Err_0,
        ),
{
    reveal(parse_chunks);
}

/// A span that holds one chunk, with anything after it: the first span of
/// the whole is that span, and the chunks of the whole are that chunk and
/// then the chunks of what comes after.
proof fn lemma_parse_chunks_step(span: Seq<u8>, rest: Seq<u8>)
    requires
        parse_chunk(span) is Ok,
    ensures
        span.len() >= 12,
        first_span(span + rest) == span.len(),
        parse_chunks(span + rest) == after(seq![parse_chunk(span).unwrap()], parse_chunks(rest)),
{
    reveal(parse_chunks);
    lemma_parsed_span_length(span);
    let bytes = span + rest;
    let n = span.len() as int;
    assert(bytes.subrange(0, 4) =~= span.subrange(0, 4));
    assert(first_span(bytes) == n);
    assert(bytes.subrange(0, n) =~= span);
    assert(bytes.subrange(n, bytes.len() as int) =~= rest);
}

/// `span` holds exactly the chunk `chunk`.
#[verifier::opaque]
spec fn holds(span: Seq<u8>, chunk: ChunkView) -> bool {
    parse_chunk(span) == Ok::<ChunkView, ChunkError>(chunk)
}

/// A span that holds a chunk is the bytes of that chunk, which is well
/// formed.
proof fn lemma_holds(span: Seq<u8>, chunk: ChunkView)
    requires
        holds(span, chunk),
    ensures
        chunk.well_formed(),
        chunk.to_bytes() == span,
{
    reveal(holds);
    lemma_bytes_of_parse(span);
}

/// Bytes that are not empty and parse are a span that holds a first chunk
/// and then bytes that parse as the chunks after it.
proof fn lemma_parse_chunks_split(bytes: Seq<u8>) -> (r: (Seq<u8>, ChunkView, Seq<u8>))
    requires
        bytes.len() > 0,
        parse_chunks(bytes) is Ok,
    ensures
        holds(r.0, r.1),
        bytes == r.0 + r.2,
        r.2.len() < bytes.len(),
        parse_chunks(r.2) is Ok,
        parse_chunks(bytes).unwrap() == seq![r.1] + parse_chunks(r.2).unwrap(),
{
    reveal(parse_chunks);
    reveal(holds);
    let n = first_span(bytes);
    let span = bytes.subrange(0, n);
    let rest = bytes.subrange(n, bytes.len() as int);
    lemma_parsed_span_length(span);
    assert(span + rest =~= bytes);
    (span, parse_chunk(span).unwrap(), rest)
}

/// A sequence that is not empty is its first chunk and then the rest, on
/// the wire too, and the parts of a well-formed sequence are well formed.
proof fn lemma_serialize_uncons(chunks: Seq<ChunkView>)
    requires
        chunks.len() > 0,
    ensures
        chunks == seq![chunks[0]] + chunks.drop_first(),
        serialize_chunks(chunks) == chunks[0].to_bytes() + serialize_chunks(chunks.drop_first()),
        all_well_formed(chunks) ==> chunks[0].well_formed() && all_well_formed(
            chunks.drop_first(),
        ),
{
    reveal(serialize_chunks);
    let tail = chunks.drop_first();
    assert(chunks =~= seq![chunks[0]] + tail);
    if all_well_formed(chunks) {
        assert forall|i: int| 0 <= i < tail.len() implies (#[trigger] tail[i]).well_formed() by {
            assert(tail[i] == chunks[i + 1]);
        }
    }
}

/// One more chunk at the front is its bytes at the front, and keeps a
/// sequence well formed if it is.
proof fn lemma_serialize_cons(head: ChunkView, tail: Seq<ChunkView>)
    ensures
        serialize_chunks(seq![head] + tail) == head.to_bytes() + serialize_chunks(tail),
        head.well_formed() && all_well_formed(tail) ==> all_well_formed(seq![head] + tail),
{
    reveal(serialize_chunks);
    let chunks = seq![head] + tail;
    assert(chunks[0] == head);
    assert(chunks.drop_first() =~= tail);
    if head.well_formed() && all_well_formed(tail) {
        assert forall|i: int| 0 <= i < chunks.len() implies (#[trigger] chunks[i]).well_formed() by {
            if i > 0 {
                assert(chunks[i] == tail[i - 1]);
            }
        }
    }
}

/// The signature, with anything after it, splits into the two again.
proof fn lemma_signature_split(body: Seq<u8>)
    ensures
        (png_signature() + body).len() >= 8,
        (png_signature() + body).subrange(0, 8) == png_signature(),
        (png_signature() + body).subrange(8, (png_signature() + body).len() as int) == body,
{
    let bytes = png_signature() + body;
    assert(bytes.subrange(0, 8) =~= png_signature());
    assert(bytes.subrange(8, bytes.len() as int) =~= body);
}

} // verus!
