use pngme::args::{Cli, Command, DecodeArgs, EncodeArgs, PngMeArgs, PrintArgs, RemoveArgs};
use pngme::chunk::{Chunk, ChunkError};
use pngme::chunk_type::{ChunkType, ChunkTypeError};
use pngme::commands::{decode, encode, print_chunks, remove};
use pngme::png::{Png, PngError};
use std::convert::TryFrom;
use std::str::FromStr;

fn chunk(code: &str, data: &[u8]) -> Chunk {
    Chunk::new(ChunkType::from_str(code).unwrap(), data.to_vec())
}

/// A file of the two chunks that no PNG file goes without.
fn minimal_png() -> Vec<u8> {
    let header = [0, 0, 0, 1, 0, 0, 0, 1, 8, 0, 0, 0, 0];
    Png::from_chunks(vec![chunk("IHDR", &header), chunk("IEND", b"")]).as_bytes()
}

fn encode_args(chunk_type: &str, message: &str) -> EncodeArgs {
    EncodeArgs {
        filepath: "image.png".to_string(),
        chunk_type: chunk_type.to_string(),
        message: message.to_string(),
        output_file: None,
    }
}

fn decode_args(chunk_type: &str) -> DecodeArgs {
    DecodeArgs {
        filepath: "image.png".to_string(),
        chunk_type: chunk_type.to_string(),
    }
}

fn remove_args(chunk_type: &str) -> RemoveArgs {
    RemoveArgs {
        filepath: "image.png".to_string(),
        chunk_type: chunk_type.to_string(),
    }
}

#[test]
fn encode_appends_the_message_chunk() {
    let file = minimal_png();
    let out = encode(&encode_args("ruSt", "hello"), &file).unwrap();

    let mut expected = file.clone();
    expected.extend(chunk("ruSt", b"hello").as_bytes());
    assert_eq!(out, expected);

    let png = Png::try_from(out.as_slice()).unwrap();
    assert_eq!(png.chunks().len(), 3);
    let last = &png.chunks()[2];
    assert_eq!(last.length(), 5);
    assert_eq!(last.data(), b"hello");
    assert_eq!(last.chunk_type().to_string(), "ruSt");
    assert_eq!(last.crc(), chunk("ruSt", b"hello").crc());
    assert_eq!(png.as_bytes(), out);
}

#[test]
fn encode_refuses_bad_file_and_bad_type() {
    let file = minimal_png();
    assert_eq!(
        encode(&encode_args("ruSt", "hello"), &file[1..]).unwrap_err(),
        PngError::InvalidSignature
    );
    assert_eq!(
        encode(&encode_args("rust", "hello"), &file).unwrap_err(),
        PngError::Chunk(ChunkError::InvalidType(ChunkTypeError::InvalidASCII))
    );
    // the file is looked at first
    assert_eq!(
        encode(&encode_args("rust", "hello"), &file[..file.len() - 2]).unwrap_err(),
        PngError::Chunk(ChunkError::Malformed)
    );
}

#[test]
fn decode_gives_the_message() {
    let file = encode(&encode_args("ruSt", "hello"), &minimal_png()).unwrap();
    assert_eq!(decode(&decode_args("ruSt"), &file).unwrap(), "hello");
    assert_eq!(
        decode(&decode_args("xxXx"), &file).unwrap_err(),
        PngError::Chunk(ChunkError::NotFound)
    );
    // the first of two
    let file = encode(&encode_args("ruSt", "second"), &file).unwrap();
    assert_eq!(decode(&decode_args("ruSt"), &file).unwrap(), "hello");
    // data that is no text
    assert_eq!(
        decode(
            &decode_args("IDAT"),
            &Png::from_chunks(vec![chunk("IDAT", &[0xc3, 0x28])]).as_bytes()
        )
        .unwrap_err(),
        PngError::Chunk(ChunkError::InvalidEncoding)
    );
    assert_eq!(
        decode(&decode_args("ruSt"), b"not a png").unwrap_err(),
        PngError::InvalidSignature
    );
}

#[test]
fn remove_takes_the_first_chunk_out() {
    let file = Png::from_chunks(vec![
        chunk("ruSt", b"a"),
        chunk("IHDR", b""),
        chunk("ruSt", b"b"),
    ])
    .as_bytes();
    let (out, removed) = remove(&remove_args("ruSt"), &file).unwrap();
    assert_eq!(removed, chunk("ruSt", b"a"));
    assert_eq!(
        out,
        Png::from_chunks(vec![chunk("IHDR", b""), chunk("ruSt", b"b")]).as_bytes()
    );
    assert_eq!(
        remove(&remove_args("xxXx"), &file).unwrap_err(),
        PngError::Chunk(ChunkError::NotFound)
    );
    assert_eq!(
        remove(&remove_args("ruSt"), &file[..10]).unwrap_err(),
        PngError::Chunk(ChunkError::Malformed)
    );
}

#[test]
fn encode_then_remove_gives_the_file_back() {
    let file = minimal_png();
    let with = encode(&encode_args("ruSt", "hello"), &file).unwrap();
    let (without, removed) = remove(&remove_args("ruSt"), &with).unwrap();
    assert_eq!(without, file);
    assert_eq!(removed.data_as_string().unwrap(), "hello");
}

#[test]
fn print_chunks_describes_each_chunk() {
    let file = Png::from_chunks(vec![chunk("IEND", b""), chunk("ruSt", b"hi")]).as_bytes();
    let args = PrintArgs { filepath: "image.png".to_string() };
    let crc = chunk("ruSt", b"hi").crc();
    assert_eq!(
        print_chunks(&args, &file).unwrap(),
        format!(
            "Chunk {{\n  Length: 0\n  Type: IEND\n  Data: 0 bytes\n  Crc: 2923585666\n}}\nChunk {{\n  Length: 2\n  Type: ruSt\n  Data: 2 bytes\n  Crc: {}\n}}\n",
            crc
        )
    );
    assert_eq!(
        print_chunks(&args, &Png::from_chunks(Vec::new()).as_bytes()).unwrap(),
        ""
    );
    assert_eq!(
        print_chunks(&args, b"").unwrap_err(),
        PngError::InvalidSignature
    );
}

fn cli(command: Command, chunk_type: Option<&str>, message: Option<&str>) -> Cli {
    Cli {
        command,
        filepath: "image.png".to_string(),
        chunk_type: chunk_type.map(|s| s.to_string()),
        message: message.map(|s| s.to_string()),
        output_file: Some("out.png".to_string()),
    }
}

#[test]
fn cli_gives_the_arguments_of_its_command() {
    match cli(Command::Encode, Some("ruSt"), Some("hello")).into_args() {
        Some(PngMeArgs::Encode(args)) => {
            assert_eq!(args.filepath, "image.png");
            assert_eq!(args.chunk_type, "ruSt");
            assert_eq!(args.message, "hello");
            assert_eq!(args.output_file, Some("out.png".to_string()));
        }
        _ => panic!("encode"),
    }
    match cli(Command::Decode, Some("ruSt"), None).into_args() {
        Some(PngMeArgs::Decode(args)) => {
            assert_eq!(args.filepath, "image.png");
            assert_eq!(args.chunk_type, "ruSt");
        }
        _ => panic!("decode"),
    }
    match cli(Command::Remove, Some("ruSt"), Some("unused")).into_args() {
        Some(PngMeArgs::Remove(args)) => {
            assert_eq!(args.filepath, "image.png");
            assert_eq!(args.chunk_type, "ruSt");
        }
        _ => panic!("remove"),
    }
    match cli(Command::Print, None, None).into_args() {
        Some(PngMeArgs::Print(args)) => assert_eq!(args.filepath, "image.png"),
        _ => panic!("print"),
    }
}

#[test]
fn cli_that_lacks_an_argument_gives_nothing() {
    assert!(cli(Command::Encode, Some("ruSt"), None).into_args().is_none());
    assert!(cli(Command::Encode, None, Some("hello")).into_args().is_none());
    assert!(cli(Command::Decode, None, None).into_args().is_none());
    assert!(cli(Command::Remove, None, Some("hello")).into_args().is_none());
}
