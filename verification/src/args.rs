//! What the user asks for, as the command line gives it and as the commands
//! take it.

use vstd::prelude::*;

verus! {

/// One command with its arguments.
pub enum PngMeArgs {
    Encode(EncodeArgs),
    Decode(DecodeArgs),
    Remove(RemoveArgs),
    Print(PrintArgs),
}

/// Hide a message in a file, in a chunk of the given type.
#[derive(Debug)]
pub struct EncodeArgs {
    pub filepath: String,
    pub chunk_type: String,
    pub message: String,
    pub output_file: Option<String>,
}

/// Show the message that a file hides in a chunk of the given type.
#[derive(Debug)]
pub struct DecodeArgs {
    pub filepath: String,
    pub chunk_type: String,
}

/// Take the first chunk of the given type out of a file.
#[derive(Debug)]
pub struct RemoveArgs {
    pub filepath: String,
    pub chunk_type: String,
}

/// Show the chunks of a file.
#[derive(Debug)]
pub struct PrintArgs {
    pub filepath: String,
}

/// The four commands.
#[derive(Debug, Clone, Copy, PartialEq, Eq, Structural)]
pub enum Command {
    Encode,
    Decode,
    Remove,
    Print,
}

/// The command line, taken apart: the command, the file, and whatever else
/// was given.
#[derive(Debug)]
pub struct Cli {
    pub command: Command,
    pub filepath: String,
    pub chunk_type: Option<String>,
    pub message: Option<String>,
    pub output_file: Option<String>,
}

impl Cli {
    /// Whether the command line gives what its command needs: a chunk type
    /// for all but `Print`, and for `Encode` a message too.
    pub open spec fn is_complete(self) -> bool {
        match self.command {
            Command::Encode => self.chunk_type is Some && self.message is Some,
            Command::Decode => self.chunk_type is Some,
            Command::Remove => self.chunk_type is Some,
            Command::Print => true,
        }
    }

    /// The arguments of the command of a complete command line.
    pub open spec fn args(self) -> PngMeArgs
        recommends
            self.is_complete(),
    {
        match self.command {
            Command::Encode => PngMeArgs::Encode(
                EncodeArgs {
                    filepath: self.filepath,
                    chunk_type: self.chunk_type->0,
                    message: self.message->0,
                    output_file: self.output_file,
                },
            ),
            Command::Decode => PngMeArgs::Decode(
                DecodeArgs { filepath: self.filepath, chunk_type: self.chunk_type->0 },
            ),
            Command::Remove => PngMeArgs::Remove(
                RemoveArgs { filepath: self.filepath, chunk_type: self.chunk_type->0 },
            ),
            Command::Print => PngMeArgs::Print(PrintArgs { filepath: self.filepath }),
        }
    }

    /// The arguments of the command, or nothing where the command line
    /// lacks one that the command needs.
    pub fn into_args(self) -> (r: Option<PngMeArgs>)
        ensures
            r == if self.is_complete() {
                Some(self.args())
            } else {
                None
            },
    {
        let Cli { command, filepath, chunk_type, message, output_file } = self;
        match command {
            Command::Encode => match (chunk_type, message) {
                (Some(chunk_type), Some(message)) => Some(
                    PngMeArgs::Encode(EncodeArgs { filepath, chunk_type, message, output_file }),
                ),
                _ => None,
            },
            Command::Decode => match chunk_type {
                Some(chunk_type) => Some(PngMeArgs::Decode(DecodeArgs { filepath, chunk_type })),
                None => None,
            },
            Command::Remove => match chunk_type {
                Some(chunk_type) => Some(PngMeArgs::Remove(RemoveArgs { filepath, chunk_type })),
                None => None,
            },
            Command::Print => Some(PngMeArgs::Print(PrintArgs { filepath })),
        }
    }
}

} // verus!
