//! Hides messages in PNG files: a codec for the chunks that a PNG file is
//! made of, and the commands that put a message into a chunk of its own,
//! find it again and take it out.
//!
//! A file is worked on as a whole and in memory: bytes come in, a sequence
//! of chunks with their type codes and checksums is made of them, and bytes
//! go out. Nothing here opens a file or draws an image.
//!
//! - [`chunk_type`]: the four-letter type code of a chunk.
//! - [`chunk`]: one chunk, from and to its bytes.
//! - [`png`]: a file as a sequence of chunks, with lookup, append and
//!   removal by type.
//! - [`commands`]: encode, decode, remove and print, from the content of a
//!   file to what is to be written or shown.
//! - [`args`]: the arguments of the commands.
//! - [`endian`], [`text`]: big-endian numbers, and bytes as text.

pub mod args;
pub mod chunk;
pub mod chunk_type;
pub mod commands;
pub mod endian;
pub mod png;
pub mod text;
