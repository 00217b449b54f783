use vstd::prelude::*;
use vstd::utf8::{
    decode_utf8, decode_utf8_encode_utf8, encode_utf8, encode_utf8_decode_utf8,
    encode_utf8_valid_utf8, is_ascii_chars, is_ascii_chars_encode_utf8, valid_utf8,
};
use crate::fbx::{ParseError, ParseErrorKind};
use crate::fbx::bytes::{copy_range, le32_at, read_u32_at, string_from_utf8};

verus! {

/// Offset of the first node record: the magic text, two reserved bytes,
/// and the 32-bit version field.
pub const HEADER_LENGTH: usize = 27;

/// The text every file must start with, NUL included.
pub open spec fn spec_magic_chars() -> Seq<char> {
    "Kaydara FBX Binary  \0"@
}

/// The 21 bytes that encode the magic text.
pub open spec fn spec_magic_bytes() -> Seq<u8> {
    seq![
        0x4Bu8,
        0x61,
        0x79,
        0x64,
        0x61,
        0x72,
        0x61,
        0x20,
        0x46,
        0x42,
        0x58,
        0x20,
        0x42,
        0x69,
        0x6E,
        0x61,
        0x72,
        0x79,
        0x20,
        0x20,
        0x00,
    ]
}

/// The magic bytes are the (valid, ASCII) UTF-8 encoding of the magic text.
proof fn lemma_magic_bytes_decode()
    ensures
        valid_utf8(spec_magic_bytes()),
        decode_utf8(spec_magic_bytes()) == spec_magic_chars(),
        encode_utf8(spec_magic_chars()) == spec_magic_bytes(),
{
    reveal_strlit("Kaydara FBX Binary  \0");
    let chars = spec_magic_chars();
    assert forall|i: int| 0 <= i < chars.len() implies '\0' <= #[trigger] chars[i] <= '\u{7f}' by {
        assert(chars.len() == 21);
    }
    assert(is_ascii_chars(chars));
    is_ascii_chars_encode_utf8(chars);
    assert(encode_utf8(chars) =~= spec_magic_bytes());
    encode_utf8_valid_utf8(chars);
    encode_utf8_decode_utf8(chars);
}

/// The version declared by a well-formed header, or how the header is
/// rejected: the magic must be present byte-exactly, and the version field
/// must lie within the input.
pub open spec fn spec_parse_header(b: Seq<u8>) -> Result<u32, ParseErrorKind> {
    if b.len() < 21 {
        Err(ParseErrorKind::EndOfData)
    } else {
        let magic = b.subrange(0, 21);
        if !valid_utf8(magic) {
            Err(ParseErrorKind::Format)
        } else if decode_utf8(magic) != spec_magic_chars() {
            Err(ParseErrorKind::Validation)
        } else if b.len() < 27 {
            Err(ParseErrorKind::EndOfData)
        } else {
            Ok(le32_at(b, 23) as u32)
        }
    }
}

/// A header accepted by `spec_parse_header` starts with exactly the magic
/// bytes: altering any single one of them makes the header parse fail.
pub proof fn lemma_altered_magic_rejected(b: Seq<u8>, i: int)
    requires
        0 <= i < 21,
        i < b.len(),
        b[i] != spec_magic_bytes()[i],
    ensures
        spec_parse_header(b) is Err,
{
    if b.len() >= 21 {
        let magic = b.subrange(0, 21);
        assert(magic[i] == b[i]);
        if valid_utf8(magic) && decode_utf8(magic) == spec_magic_chars() {
            lemma_magic_bytes_decode();
            decode_utf8_encode_utf8(magic);
            assert(magic == spec_magic_bytes());
        }
    }
}

/// The fixed data that precedes the node records.
pub struct Header {
    version: u32,
}

impl Header {
    /// The format version the header declares.
    pub closed spec fn spec_version(&self) -> u32 {
        self.version
    }

    /// The format version the header declares.
    pub fn version(&self) -> (v: u32)
        ensures
            v == self.spec_version(),
    {
        self.version
    }
}

/// Validates the magic text at the start of the input and reads the format
/// version; decoding of node records continues at `HEADER_LENGTH`.
pub fn parse_header(data: &Vec<u8>) -> (r: Result<Header, ParseError>)
    ensures
        match r {
            Ok(h) => spec_parse_header(data@) == Ok::<_, ParseErrorKind>(h.spec_version()),
            Err(e) => spec_parse_header(data@) == Err::<u32, _>(e.kind()),
        },
{
    let (magic, _) = match copy_range(data, 0, 21) {
        Ok(x) => x,
        Err(e) => { return Err(e) },
    };
    let decoded = match string_from_utf8(magic) {
        Some(s) => s,
        None => { return Err(ParseError::FormatError) },
    };
    let expected: String = "Kaydara FBX Binary  \0".to_owned();
    if decoded == expected {
        match read_u32_at(data, 23) {
            Ok((version, _)) => Ok(Header { version }),
            Err(e) => Err(e),
        }
    } else {
        Err(ParseError::ValidationError("file header magic string is incorrect".to_owned()))
    }
}

} // verus!
