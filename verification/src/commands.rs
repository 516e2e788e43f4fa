//! The four commands, as functions from the content of a file to what is to
//! be written or shown. Reading the file that the arguments name, writing
//! and printing are left to the caller.

use crate::args::{DecodeArgs, EncodeArgs, PrintArgs, RemoveArgs};
use crate::chunk::{Chunk, ChunkError, ChunkView};
use crate::chunk_type::{valid_type_text, ChunkType, ChunkTypeError};
use crate::png::{
    first_of_type, lemma_serialize_push, lemma_serialized_png_of_parse, parse_png, serialize_png,
    Png, PngError,
};
use std::str::FromStr;
use vstd::prelude::*;
use vstd::slice::slice_to_vec;
use vstd::string::StringExecFns;
use vstd::utf8::{decode_utf8, encode_utf8, valid_utf8};

verus! {

/// The chunk that hides a message: the type code that the text spells, and
/// the message in UTF-8 as data.
pub open spec fn message_chunk(chunk_type: Seq<char>, message: Seq<char>) -> ChunkView {
    ChunkView { chunk_type: encode_utf8(chunk_type), data: encode_utf8(message) }
}

/// What `encode` makes of a file: the file with the message chunk after its
/// last chunk. A file that does not parse fails first, a type that is none
/// second.
pub open spec fn encoded(file: Seq<u8>, chunk_type: Seq<char>, message: Seq<char>) -> Result<
    Seq<u8>,
    PngError,
> {
    match parse_png(file) {
        Err(e) => Err(e),
        Ok(chunks) => if valid_type_text(chunk_type) {
            Ok(serialize_png(chunks.push(message_chunk(chunk_type, message))))
        } else {
            Err(PngError::Chunk(ChunkError::InvalidType(ChunkTypeError::InvalidASCII)))
        },
    }
}

/// What `decode` finds in a file: the data of the first chunk of the type,
/// as text.
pub open spec fn decoded(file: Seq<u8>, chunk_type: Seq<char>) -> Result<Seq<char>, PngError> {
    match parse_png(file) {
        Err(e) => Err(e),
        Ok(chunks) => match first_of_type(chunks, chunk_type) {
            None => Err(PngError::Chunk(ChunkError::NotFound)),
            Some(i) => if valid_utf8(chunks[i].data) {
                Ok(decode_utf8(chunks[i].data))
            } else {
                Err(PngError::Chunk(ChunkError::InvalidEncoding))
            },
        },
    }
}

/// What `remove` makes of a file: the file without the first chunk of the
/// type, and that chunk.
pub open spec fn removed(file: Seq<u8>, chunk_type: Seq<char>) -> Result<
    (Seq<u8>, ChunkView),
    PngError,
> {
    match parse_png(file) {
        Err(e) => Err(e),
        Ok(chunks) => match first_of_type(chunks, chunk_type) {
            None => Err(PngError::Chunk(ChunkError::NotFound)),
            Some(i) => Ok((serialize_png(chunks.remove(i)), chunks[i])),
        },
    }
}

/// The summaries of the chunks, one after the other.
pub open spec fn summaries(chunks: Seq<ChunkView>) -> Seq<char>
    decreases chunks.len(),
{
    if chunks.len() == 0 {
        Seq::empty()
    } else {
        summaries(chunks.drop_last()) + chunks.last().summary()
    }
}

/// Hides a message in a file: returns the file with one more chunk at its
/// end, of the type and with the message that `args` give. The message must
/// fit a chunk.
pub fn encode(args: &EncodeArgs, png_file: &[u8]) -> (r: Result<Vec<u8>, PngError>)
    requires
        encode_utf8(args.message@).len() <= u32::MAX,
    ensures
        match r {
            Ok(out) => encoded(png_file@, args.chunk_type@, args.message@) == Ok::<
                Seq<u8>,
                PngError,
            >(out@) && out@ == png_file@ + message_chunk(
                args.chunk_type@,
                args.message@,
            ).to_bytes(),
            Err(e) => encoded(png_file@, args.chunk_type@, args.message@) == Err::<
                Seq<u8>,
                PngError,
            >(e),
        },
{
    let mut png = match Png::try_from(png_file) {
        Ok(png) => png,
        Err(e) => {
            return Err(e);
        },
    };
    let chunk_type = match ChunkType::from_str(args.chunk_type.as_str()) {
        Ok(chunk_type) => chunk_type,
        Err(e) => {
            return Err(PngError::Chunk(ChunkError::InvalidType(e)));
        },
    };
    let chunk = Chunk::new(chunk_type, slice_to_vec(args.message.as_str().as_bytes()));
    proof {
        lemma_serialized_png_of_parse(png_file@);
        lemma_serialize_push(png@, chunk@);
        assert(serialize_png(png@.push(chunk@)) =~= png_file@ + chunk@.to_bytes());
    }
    png.append_chunk(chunk);
    Ok(png.as_bytes())
}

/// Finds the message hidden in a file: the data of the first chunk of the
/// type that `args` give, as text.
pub fn decode(args: &DecodeArgs, png_file: &[u8]) -> (r: Result<String, PngError>)
    ensures
        match r {
            Ok(message) => decoded(png_file@, args.chunk_type@) == Ok::<Seq<char>, PngError>(
                message@,
            ),
            Err(e) => decoded(png_file@, args.chunk_type@) == Err::<Seq<char>, PngError>(e),
        },
{
    let png = match Png::try_from(png_file) {
        Ok(png) => png,
        Err(e) => {
            return Err(e);
        },
    };
    let chunk = match png.chunk_by_type(args.chunk_type.as_str()) {
        Some(chunk) => chunk,
        None => {
            return Err(PngError::Chunk(ChunkError::NotFound));
        },
    };
    match chunk.data_as_string() {
        Ok(message) => Ok(message),
        Err(e) => Err(PngError::Chunk(e)),
    }
}

/// Takes the first chunk of the type that `args` give out of a file:
/// returns the file without it, and the chunk.
pub fn remove(args: &RemoveArgs, png_file: &[u8]) -> (r: Result<(Vec<u8>, Chunk), PngError>)
    ensures
        match r {
            Ok((out, chunk)) => removed(png_file@, args.chunk_type@) == Ok::<
                (Seq<u8>, ChunkView),
                PngError,
            >((out@, chunk@)),
            Err(e) => removed(png_file@, args.chunk_type@) == Err::<
                (Seq<u8>, ChunkView),
                PngError,
            >(e),
        },
{
    let mut png = match Png::try_from(png_file) {
        Ok(png) => png,
        Err(e) => {
            return Err(e);
        },
    };
    match png.remove_first_chunk(args.chunk_type.as_str()) {
        Ok(chunk) => Ok((png.as_bytes(), chunk)),
        Err(e) => Err(PngError::Chunk(e)),
    }
}

/// Describes the chunks of a file: the summary of each, in the order of the
/// file.
pub fn print_chunks(_args: &PrintArgs, png_file: &[u8]) -> (r: Result<String, PngError>)
    ensures
        match r {
            Ok(text) => parse_png(png_file@) is Ok && text@ == summaries(
                parse_png(png_file@)->Ok_0,
            ),
            Err(e) => parse_png(png_file@) == Err::<Seq<ChunkView>, PngError>(e),
        },
{
    let png = match Png::try_from(png_file) {
        Ok(png) => png,
        Err(e) => {
            return Err(e);
        },
    };
    let chunks = png.chunks();
    let mut text = String::new();
    let mut i: usize = 0;
    assert(png@.subrange(0, 0) =~= Seq::<ChunkView>::empty());
    while i < chunks.len()
        invariant
            i <= chunks@.len(),
            crate::png::chunk_views(chunks@) == png@,
            text@ == summaries(png@.subrange(0, i as int)),
        decreases chunks@.len() - i,
    {
        let summary = chunks[i].to_string();
        proof {
            let next = png@.subrange(0, i + 1);
            assert(next.drop_last() =~= png@.subrange(0, i as int));
            assert(next.last() == chunks@[i as int]@);
        }
        text.append(summary.as_str());
        i += 1;
    }
    assert(png@.subrange(0, i as int) =~= png@);
    Ok(text)
}

} // verus!
