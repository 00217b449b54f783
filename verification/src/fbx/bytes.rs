use vstd::prelude::*;
use vstd::utf8::{decode_utf8, valid_utf8};
use crate::fbx::{ParseError, ParseErrorKind};

verus! {

/// Relies on `String::from_utf8`: it succeeds exactly on valid UTF-8 input
/// and decodes it; vstd's `valid_utf8` and `decode_utf8` say which byte
/// sequences are valid and what they decode to.
#[verifier::external_body]
pub(crate) fn string_from_utf8(bytes: Vec<u8>) -> (r: Option<String>)
    ensures
        match r {
            Some(s) => valid_utf8(bytes@) && s@ == decode_utf8(bytes@),
            None => !valid_utf8(bytes@),
        },
{
    match String::from_utf8(bytes) {
        Ok(s) => Some(s),
        Err(_) => None,
    }
}

// ---------------------------------------------------------------------------
// Little-endian integer fields of the container, described at specification
// level as plain arithmetic over the byte sequence.
// ---------------------------------------------------------------------------

/// The unsigned 16-bit little-endian value stored at `pos`.
pub open spec fn le16_at(b: Seq<u8>, pos: int) -> int {
    b[pos] + 0x100 * b[pos + 1]
}

/// The unsigned 32-bit little-endian value stored at `pos`.
pub open spec fn le32_at(b: Seq<u8>, pos: int) -> int {
    b[pos] + 0x100 * b[pos + 1] + 0x1_0000 * b[pos + 2] + 0x100_0000 * b[pos + 3]
}

/// The unsigned 64-bit little-endian value stored at `pos`.
pub open spec fn le64_at(b: Seq<u8>, pos: int) -> int {
    le32_at(b, pos) + 0x1_0000_0000 * le32_at(b, pos + 4)
}

/// The signed 16-bit little-endian value stored at `pos`: the unsigned
/// field reinterpreted in two's complement.
pub open spec fn le_i16_at(b: Seq<u8>, pos: int) -> i16 {
    le16_at(b, pos) as u16 as i16
}

/// The signed 32-bit little-endian value stored at `pos`.
pub open spec fn le_i32_at(b: Seq<u8>, pos: int) -> i32 {
    le32_at(b, pos) as u32 as i32
}

/// The signed 64-bit little-endian value stored at `pos`.
pub open spec fn le_i64_at(b: Seq<u8>, pos: int) -> i64 {
    le64_at(b, pos) as u64 as i64
}

// ---------------------------------------------------------------------------
// Bounds-checked sequential readers. Each consumes a fixed number of bytes
// and reports exactly when the input is too short.
// ---------------------------------------------------------------------------

/// Reads the byte at `pos`.
pub fn read_u8_at(data: &Vec<u8>, pos: usize) -> (r: Result<(u8, usize), ParseError>)
    ensures
        match r {
            Ok((v, p)) => pos + 1 <= data@.len() && v == data@[pos as int] && p == pos + 1,
            Err(e) => pos + 1 > data@.len() && e.kind() == ParseErrorKind::EndOfData,
        },
{
    if pos < data.len() {
        Ok((data[pos], pos + 1))
    } else {
        Err(ParseError::UnexpectedEndOfData)
    }
}

/// Reads the unsigned 16-bit little-endian field at `pos`.
pub fn read_u16_at(data: &Vec<u8>, pos: usize) -> (r: Result<(u16, usize), ParseError>)
    ensures
        match r {
            Ok((v, p)) => pos + 2 <= data@.len() && v == le16_at(data@, pos as int) && p == pos
                + 2,
            Err(e) => pos + 2 > data@.len() && e.kind() == ParseErrorKind::EndOfData,
        },
{
    if pos < data.len() && data.len() - pos >= 2 {
        let b0 = data[pos] as u16;
        let b1 = data[pos + 1] as u16;
        Ok((b0 + 0x100 * b1, pos + 2))
    } else {
        Err(ParseError::UnexpectedEndOfData)
    }
}

/// Reads the unsigned 32-bit little-endian field at `pos`.
pub fn read_u32_at(data: &Vec<u8>, pos: usize) -> (r: Result<(u32, usize), ParseError>)
    ensures
        match r {
            Ok((v, p)) => pos + 4 <= data@.len() && v == le32_at(data@, pos as int) && p == pos
                + 4,
            Err(e) => pos + 4 > data@.len() && e.kind() == ParseErrorKind::EndOfData,
        },
{
    if pos < data.len() && data.len() - pos >= 4 {
        let b0 = data[pos] as u32;
        let b1 = data[pos + 1] as u32;
        let b2 = data[pos + 2] as u32;
        let b3 = data[pos + 3] as u32;
        Ok((b0 + 0x100 * b1 + 0x1_0000 * b2 + 0x100_0000 * b3, pos + 4))
    } else {
        Err(ParseError::UnexpectedEndOfData)
    }
}

/// Reads the unsigned 64-bit little-endian field at `pos`.
pub fn read_u64_at(data: &Vec<u8>, pos: usize) -> (r: Result<(u64, usize), ParseError>)
    ensures
        match r {
            Ok((v, p)) => pos + 8 <= data@.len() && v == le64_at(data@, pos as int) && p == pos
                + 8,
            Err(e) => pos + 8 > data@.len() && e.kind() == ParseErrorKind::EndOfData,
        },
{
    if pos < data.len() && data.len() - pos >= 8 {
        let lo_r = read_u32_at(data, pos);
        let hi_r = read_u32_at(data, pos + 4);
        match (lo_r, hi_r) {
            (Ok((lo, _)), Ok((hi, _))) => Ok(
                ((lo as u64) + 0x1_0000_0000u64 * (hi as u64), pos + 8),
            ),
            _ => Err(ParseError::UnexpectedEndOfData),
        }
    } else {
        Err(ParseError::UnexpectedEndOfData)
    }
}

/// The unsigned 16-bit little-endian field at `pos`, which must lie within
/// the input.
pub fn le_u16_of(data: &Vec<u8>, pos: usize) -> (v: u16)
    requires
        pos + 2 <= data@.len(),
    ensures
        v == le16_at(data@, pos as int),
{
    proof {
        assert(pos + 2 <= data.len());
    }
    let b0 = data[pos] as u16;
    let b1 = data[pos + 1] as u16;
    b0 + 0x100 * b1
}

/// The unsigned 32-bit little-endian field at `pos`, which must lie within
/// the input.
pub fn le_u32_of(data: &Vec<u8>, pos: usize) -> (v: u32)
    requires
        pos + 4 <= data@.len(),
    ensures
        v == le32_at(data@, pos as int),
{
    proof {
        assert(pos + 4 <= data.len());
    }
    let b0 = data[pos] as u32;
    let b1 = data[pos + 1] as u32;
    let b2 = data[pos + 2] as u32;
    let b3 = data[pos + 3] as u32;
    b0 + 0x100 * b1 + 0x1_0000 * b2 + 0x100_0000 * b3
}

/// The unsigned 64-bit little-endian field at `pos`, which must lie within
/// the input.
pub fn le_u64_of(data: &Vec<u8>, pos: usize) -> (v: u64)
    requires
        pos + 8 <= data@.len(),
    ensures
        v == le64_at(data@, pos as int),
{
    proof {
        assert(pos + 8 <= data.len());
    }
    let lo = le_u32_of(data, pos) as u64;
    let hi = le_u32_of(data, pos + 4) as u64;
    lo + 0x1_0000_0000u64 * hi
}

/// Copies the `count` bytes starting at `pos` out of the input.
pub fn copy_range(data: &Vec<u8>, pos: usize, count: usize) -> (r: Result<
    (Vec<u8>, usize),
    ParseError,
>)
    ensures
        match r {
            Ok((v, p)) => pos + count <= data@.len() && v@ == data@.subrange(
                pos as int,
                pos + count,
            ) && p == pos + count,
            Err(e) => pos + count > data@.len() && e.kind() == ParseErrorKind::EndOfData,
        },
{
    if pos <= data.len() && count <= data.len() - pos {
        let mut out: Vec<u8> = Vec::new();
        let mut i: usize = 0;
        while i < count
            invariant
                pos + count <= data@.len(),
                pos + count <= usize::MAX,
                i <= count,
                out@ =~= data@.subrange(pos as int, pos + i),
            decreases count - i,
        {
            out.push(data[pos + i]);
            i = i + 1;
            assert(out@ =~= data@.subrange(pos as int, pos + i));
        }
        Ok((out, pos + count))
    } else {
        Err(ParseError::UnexpectedEndOfData)
    }
}

} // verus!
