use vstd::prelude::*;
use vstd::utf8::{decode_utf8, valid_utf8};
use crate::fbx::{ParseError, ParseErrorKind};
use crate::fbx::bytes::{
    copy_range, le32_at, le64_at, le_i16_at, le_i32_at, le_i64_at, le_u32_of, le_u64_of,
    read_u16_at, read_u32_at, read_u64_at, read_u8_at, string_from_utf8,
};

verus! {

/// One decoded property value at specification level. Floating-point
/// values appear as their IEEE-754 bit patterns.
pub enum PropertyView {
    SignedInt16(i16),
    Boolean(bool),
    SignedInt32(i32),
    Float(u32),
    Double(u64),
    SignedInt64(i64),
    FloatArray(Seq<u32>),
    DoubleArray(Seq<u64>),
    SignedInt64Array(Seq<i64>),
    SignedInt32Array(Seq<i32>),
    BooleanArray(Seq<bool>),
    String(Seq<char>),
    BinaryData(Seq<u8>),
}

/// One decoded property value: a scalar, a typed array, a string, or an
/// uninterpreted blob. `Float`, `Double`, and their array forms carry the
/// IEEE-754 bit patterns of the stored values.
#[derive(Debug, PartialEq)]
pub enum PropertyRecordType {
    SignedInt16(i16),
    Boolean(bool),
    SignedInt32(i32),
    Float(u32),
    Double(u64),
    SignedInt64(i64),
    FloatArray(Vec<u32>),
    DoubleArray(Vec<u64>),
    SignedInt64Array(Vec<i64>),
    SignedInt32Array(Vec<i32>),
    BooleanArray(Vec<bool>),
    String(String),
    BinaryData(Vec<u8>),
}

impl View for PropertyRecordType {
    type V = PropertyView;

    open spec fn view(&self) -> PropertyView {
        match self {
            PropertyRecordType::SignedInt16(x) => PropertyView::SignedInt16(*x),
            PropertyRecordType::Boolean(x) => PropertyView::Boolean(*x),
            PropertyRecordType::SignedInt32(x) => PropertyView::SignedInt32(*x),
            PropertyRecordType::Float(x) => PropertyView::Float(*x),
            PropertyRecordType::Double(x) => PropertyView::Double(*x),
            PropertyRecordType::SignedInt64(x) => PropertyView::SignedInt64(*x),
            PropertyRecordType::FloatArray(x) => PropertyView::FloatArray(x@),
            PropertyRecordType::DoubleArray(x) => PropertyView::DoubleArray(x@),
            PropertyRecordType::SignedInt64Array(x) => PropertyView::SignedInt64Array(x@),
            PropertyRecordType::SignedInt32Array(x) => PropertyView::SignedInt32Array(x@),
            PropertyRecordType::BooleanArray(x) => PropertyView::BooleanArray(x@),
            PropertyRecordType::String(x) => PropertyView::String(x@),
            PropertyRecordType::BinaryData(x) => PropertyView::BinaryData(x@),
        }
    }
}

/// The decoded properties of a record, in order, at specification level.
pub open spec fn props_view(s: Seq<PropertyRecordType>) -> Seq<PropertyView> {
    Seq::new(s.len(), |i: int| s[i]@)
}

// ---------------------------------------------------------------------------
// Typed-array payloads.
// ---------------------------------------------------------------------------

/// What `inflate::inflate_bytes_zlib` yields for a given compressed input:
/// the decompressed bytes, or nothing when the input is not well-formed
/// zlib data. Decompression is a function of the input bytes alone.
pub uninterp spec fn inflated(bytes: Seq<u8>) -> Option<Seq<u8>>;

/// Relies on `inflate::inflate_bytes_zlib` to decompress a zlib stream;
/// `inflated` names its outcome.
#[verifier::external_body]
fn inflate_zlib(data: &Vec<u8>) -> (r: Option<Vec<u8>>)
    ensures
        match r {
            Some(v) => inflated(data@) == Some(v@),
            None => inflated(data@) is None,
        },
{
    match inflate::inflate_bytes_zlib(data.as_slice()) {
        Ok(v) => Some(v),
        Err(_) => None,
    }
}

/// The metadata that prefixes every typed-array payload.
pub struct ArrayMetaData {
    /// Declared element count; authoritative only for the raw encoding.
    pub length: u32,
    /// 0 for raw bytes, any other value for zlib-deflated bytes.
    pub encoding: u32,
    /// Byte length of the compressed payload; meaningful only when the
    /// encoding is not 0.
    pub compressed_length: u32,
}

/// Reads the three 32-bit metadata fields of a typed array.
pub fn parse_array_metadata(data: &Vec<u8>, pos: usize) -> (r: Result<
    (ArrayMetaData, usize),
    ParseError,
>)
    ensures
        match r {
            Ok((m, p)) => pos + 12 <= data@.len() && m.length == le32_at(data@, pos as int)
                && m.encoding == le32_at(data@, pos + 4) && m.compressed_length == le32_at(
                data@,
                pos + 8,
            ) && p == pos + 12,
            Err(e) => pos + 12 > data@.len() && e.kind() == ParseErrorKind::EndOfData,
        },
{
    let length = match read_u32_at(data, pos) {
        Ok((v, _)) => v,
        Err(e) => { return Err(e) },
    };
    let encoding = match read_u32_at(data, pos + 4) {
        Ok((v, _)) => v,
        Err(e) => { return Err(e) },
    };
    let compressed_length = match read_u32_at(data, pos + 8) {
        Ok((v, _)) => v,
        Err(e) => { return Err(e) },
    };
    Ok((ArrayMetaData { length, encoding, compressed_length }, pos + 12))
}

/// The raw element bytes of a typed array starting at `pos`, and the input
/// position after it: the declared number of `elem_size`-byte elements for
/// the raw encoding, or the zlib-inflated payload for the compressed one.
pub open spec fn spec_array_payload(b: Seq<u8>, pos: int, elem_size: int) -> Result<
    (Seq<u8>, int),
    ParseErrorKind,
> {
    if pos + 12 > b.len() {
        Err(ParseErrorKind::EndOfData)
    } else {
        let declared = le32_at(b, pos);
        let encoding = le32_at(b, pos + 4);
        let compressed = le32_at(b, pos + 8);
        let p = pos + 12;
        if encoding == 0 {
            let byte_count = elem_size * declared;
            if p + byte_count > b.len() {
                Err(ParseErrorKind::EndOfData)
            } else {
                Ok((b.subrange(p, p + byte_count), p + byte_count))
            }
        } else {
            if p + compressed > b.len() {
                Err(ParseErrorKind::EndOfData)
            } else {
                match inflated(b.subrange(p, p + compressed)) {
                    Some(raw) => Ok((raw, p + compressed)),
                    None => Err(ParseErrorKind::Format),
                }
            }
        }
    }
}

/// Reads the raw element bytes of a typed array whose elements take
/// `elem_size` bytes each: the stored bytes for the raw encoding, or the
/// zlib-inflated payload for the compressed one.
pub fn get_property_raw_byte_cursor(data: &Vec<u8>, pos: usize, elem_size: usize) -> (r: Result<
    (Vec<u8>, usize),
    ParseError,
>)
    requires
        1 <= elem_size <= 8,
    ensures
        match r {
            Ok((v, p)) => spec_array_payload(data@, pos as int, elem_size as int) == Ok::<
                _,
                ParseErrorKind,
            >((v@, p as int)),
            Err(e) => spec_array_payload(data@, pos as int, elem_size as int) == Err::<
                (Seq<u8>, int),
                _,
            >(e.kind()),
        },
{
    let (metadata, p) = match parse_array_metadata(data, pos) {
        Ok(x) => x,
        Err(e) => { return Err(e) },
    };
    if metadata.encoding == 0 {
        proof {
            assert((metadata.length as int) * (elem_size as int) <= 0xFFFF_FFFF * 8) by (nonlinear_arith)
                requires
                    metadata.length as int <= 0xFFFF_FFFF,
                    0 <= elem_size as int <= 8,
                    0 <= metadata.length as int,
            ;
        }
        let byte_count64: u64 = (metadata.length as u64) * (elem_size as u64);
        if p <= data.len() && byte_count64 <= (data.len() - p) as u64 {
            let byte_count = byte_count64 as usize;
            match copy_range(data, p, byte_count) {
                Ok((payload, p2)) => Ok((payload, p2)),
                Err(e) => Err(e),
            }
        } else {
            Err(ParseError::UnexpectedEndOfData)
        }
    } else {
        let compressed = metadata.compressed_length as usize;
        if p <= data.len() && compressed <= data.len() - p {
            let (deflated, p2) = match copy_range(data, p, compressed) {
                Ok(x) => x,
                Err(e) => { return Err(e) },
            };
            match inflate_zlib(&deflated) {
                Some(payload) => Ok((payload, p2)),
                None => Err(ParseError::FormatError),
            }
        } else {
            Err(ParseError::UnexpectedEndOfData)
        }
    }
}

// ---------------------------------------------------------------------------
// Scalar properties.
// ---------------------------------------------------------------------------

/// The signed 16-bit scalar stored at `pos`, and the position after it.
pub open spec fn spec_parse_i16(b: Seq<u8>, pos: int) -> Result<(PropertyView, int), ParseErrorKind> {
    if pos + 2 > b.len() {
        Err(ParseErrorKind::EndOfData)
    } else {
        Ok((PropertyView::SignedInt16(le_i16_at(b, pos)), pos + 2))
    }
}

/// Reads one signed 16-bit little-endian scalar.
pub fn parse_i16_property(data: &Vec<u8>, pos: usize) -> (r: Result<
    (PropertyRecordType, usize),
    ParseError,
>)
    ensures
        match r {
            Ok((v, p)) => spec_parse_i16(data@, pos as int) == Ok::<_, ParseErrorKind>((
                v@,
                p as int,
            )),
            Err(e) => spec_parse_i16(data@, pos as int) == Err::<(PropertyView, int), _>(e.kind()),
        },
{
    match read_u16_at(data, pos) {
        Ok((v, p)) => Ok((PropertyRecordType::SignedInt16(v as i16), p)),
        Err(e) => Err(e),
    }
}

/// The signed 32-bit scalar stored at `pos`, and the position after it.
pub open spec fn spec_parse_i32(b: Seq<u8>, pos: int) -> Result<(PropertyView, int), ParseErrorKind> {
    if pos + 4 > b.len() {
        Err(ParseErrorKind::EndOfData)
    } else {
        Ok((PropertyView::SignedInt32(le_i32_at(b, pos)), pos + 4))
    }
}

/// Reads one signed 32-bit little-endian scalar.
pub fn parse_i32_property(data: &Vec<u8>, pos: usize) -> (r: Result<
    (PropertyRecordType, usize),
    ParseError,
>)
    ensures
        match r {
            Ok((v, p)) => spec_parse_i32(data@, pos as int) == Ok::<_, ParseErrorKind>((
                v@,
                p as int,
            )),
            Err(e) => spec_parse_i32(data@, pos as int) == Err::<(PropertyView, int), _>(e.kind()),
        },
{
    match read_u32_at(data, pos) {
        Ok((v, p)) => Ok((PropertyRecordType::SignedInt32(v as i32), p)),
        Err(e) => Err(e),
    }
}

/// The signed 64-bit scalar stored at `pos`, and the position after it.
pub open spec fn spec_parse_i64(b: Seq<u8>, pos: int) -> Result<(PropertyView, int), ParseErrorKind> {
    if pos + 8 > b.len() {
        Err(ParseErrorKind::EndOfData)
    } else {
        Ok((PropertyView::SignedInt64(le_i64_at(b, pos)), pos + 8))
    }
}

/// Reads one signed 64-bit little-endian scalar.
pub fn parse_i64_property(data: &Vec<u8>, pos: usize) -> (r: Result<
    (PropertyRecordType, usize),
    ParseError,
>)
    ensures
        match r {
            Ok((v, p)) => spec_parse_i64(data@, pos as int) == Ok::<_, ParseErrorKind>((
                v@,
                p as int,
            )),
            Err(e) => spec_parse_i64(data@, pos as int) == Err::<(PropertyView, int), _>(e.kind()),
        },
{
    match read_u64_at(data, pos) {
        Ok((v, p)) => Ok((PropertyRecordType::SignedInt64(v as i64), p)),
        Err(e) => Err(e),
    }
}

/// The 32-bit floating-point scalar stored at `pos`, as its bit pattern,
/// and the position after it.
pub open spec fn spec_parse_f32(b: Seq<u8>, pos: int) -> Result<(PropertyView, int), ParseErrorKind> {
    if pos + 4 > b.len() {
        Err(ParseErrorKind::EndOfData)
    } else {
        Ok((PropertyView::Float(le32_at(b, pos) as u32), pos + 4))
    }
}

/// Reads one 32-bit little-endian floating-point scalar as its bit pattern.
pub fn parse_f32_property(data: &Vec<u8>, pos: usize) -> (r: Result<
    (PropertyRecordType, usize),
    ParseError,
>)
    ensures
        match r {
            Ok((v, p)) => spec_parse_f32(data@, pos as int) == Ok::<_, ParseErrorKind>((
                v@,
                p as int,
            )),
            Err(e) => spec_parse_f32(data@, pos as int) == Err::<(PropertyView, int), _>(e.kind()),
        },
{
    match read_u32_at(data, pos) {
        Ok((v, p)) => Ok((PropertyRecordType::Float(v), p)),
        Err(e) => Err(e),
    }
}

/// The 64-bit floating-point scalar stored at `pos`, as its bit pattern,
/// and the position after it.
pub open spec fn spec_parse_f64(b: Seq<u8>, pos: int) -> Result<(PropertyView, int), ParseErrorKind> {
    if pos + 8 > b.len() {
        Err(ParseErrorKind::EndOfData)
    } else {
        Ok((PropertyView::Double(le64_at(b, pos) as u64), pos + 8))
    }
}

/// Reads one 64-bit little-endian floating-point scalar as its bit pattern.
pub fn parse_f64_property(data: &Vec<u8>, pos: usize) -> (r: Result<
    (PropertyRecordType, usize),
    ParseError,
>)
    ensures
        match r {
            Ok((v, p)) => spec_parse_f64(data@, pos as int) == Ok::<_, ParseErrorKind>((
                v@,
                p as int,
            )),
            Err(e) => spec_parse_f64(data@, pos as int) == Err::<(PropertyView, int), _>(e.kind()),
        },
{
    match read_u64_at(data, pos) {
        Ok((v, p)) => Ok((PropertyRecordType::Double(v), p)),
        Err(e) => Err(e),
    }
}

/// The boolean scalar stored at `pos`: true exactly when the byte is 1.
pub open spec fn spec_parse_bool(b: Seq<u8>, pos: int) -> Result<
    (PropertyView, int),
    ParseErrorKind,
> {
    if pos + 1 > b.len() {
        Err(ParseErrorKind::EndOfData)
    } else {
        Ok((PropertyView::Boolean(b[pos] == 1), pos + 1))
    }
}

/// Reads one boolean scalar: true exactly when the byte equals 1.
pub fn parse_bool_property(data: &Vec<u8>, pos: usize) -> (r: Result<
    (PropertyRecordType, usize),
    ParseError,
>)
    ensures
        match r {
            Ok((v, p)) => spec_parse_bool(data@, pos as int) == Ok::<_, ParseErrorKind>((
                v@,
                p as int,
            )),
            Err(e) => spec_parse_bool(data@, pos as int) == Err::<(PropertyView, int), _>(e.kind()),
        },
{
    match read_u8_at(data, pos) {
        Ok((v, p)) => Ok((PropertyRecordType::Boolean(v == 1), p)),
        Err(e) => Err(e),
    }
}

// ---------------------------------------------------------------------------
// Typed arrays. The element count of a raw array is its declared length;
// the element count of a compressed array is the decompressed byte length
// divided by the element size, with any remainder dropped.
// ---------------------------------------------------------------------------

/// Decodes as many whole `elem_size`-byte elements as the input holds
/// from `pos` on, by applying `transform` at consecutive element
/// positions; bytes left over after the last whole element are ignored,
/// and the first failure of `transform` aborts the sequence.
pub fn apply_transform_on_byte_stream<T, F: Fn(&Vec<u8>, usize) -> Result<(T, usize), ParseError>>(
    input: &Vec<u8>,
    pos: usize,
    elem_size: usize,
    transform: F,
) -> (r: Result<(Vec<T>, usize), ParseError>)
    requires
        1 <= elem_size <= 8,
        pos <= input@.len(),
        forall|p: usize|
            p + elem_size <= input@.len() ==> #[trigger] call_requires(transform, (input, p)),
        forall|p: usize, t: T, p2: usize|
            #[trigger] call_ensures(transform, (input, p), Ok((t, p2))) ==> p2 == p + elem_size,
    ensures
        match r {
            Ok((v, p2)) => v@.len() == (input@.len() - pos) as int / (elem_size as int) && p2 == pos
                + v@.len() * elem_size && forall|i: int|
                0 <= i < v@.len() ==> #[trigger] call_ensures(
                    transform,
                    (input, (pos + i * elem_size) as usize),
                    Ok((v@[i], (pos + (i + 1) * elem_size) as usize)),
                ),
            Err(e) => exists|p: usize| #[trigger] call_ensures(transform, (input, p), Err(e)),
        },
{
    let mut array: Vec<T> = Vec::new();
    let mut cur = pos;
    proof {
        assert(0 * (elem_size as int) == 0) by (nonlinear_arith);
    }
    while elem_size <= input.len() && cur <= input.len() - elem_size
        invariant
            1 <= elem_size <= 8,
            pos <= cur <= input@.len(),
            cur == pos + array@.len() * elem_size,
            forall|p: usize|
                p + elem_size <= input@.len() ==> #[trigger] call_requires(transform, (input, p)),
            forall|p: usize, t: T, p2: usize|
                #[trigger] call_ensures(transform, (input, p), Ok((t, p2))) ==> p2 == p
                    + elem_size,
            forall|i: int|
                0 <= i < array@.len() ==> #[trigger] call_ensures(
                    transform,
                    (input, (pos + i * elem_size) as usize),
                    Ok((array@[i], (pos + (i + 1) * elem_size) as usize)),
                ),
        decreases input@.len() - cur,
    {
        let ghost n = array@.len() as int;
        let ghost prev_cur = cur;
        match transform(input, cur) {
            Ok((value, p2)) => {
                proof {
                    assert(p2 == prev_cur + elem_size);
                    assert((n + 1) * (elem_size as int) == n * (elem_size as int) + (
                    elem_size as int)) by (nonlinear_arith);
                    assert((pos + n * elem_size) as usize == prev_cur);
                }
                array.push(value);
                cur = p2;
                proof {
                    assert(call_ensures(
                        transform,
                        (input, (pos + n * elem_size) as usize),
                        Ok((array@[n], (pos + (n + 1) * elem_size) as usize)),
                    ));
                }
            },
            Err(e) => { return Err(e) },
        }
    }
    proof {
        assert((input@.len() - pos) as int / (elem_size as int) == array@.len())
            by (nonlinear_arith)
            requires
                1 <= elem_size as int,
                cur == pos + array@.len() * elem_size,
                pos <= cur <= input@.len(),
                input@.len() - cur < elem_size,
        ;
    }
    Ok((array, cur))
}

/// The 32-bit bit patterns of `count` little-endian elements of `payload`.
pub open spec fn f32_array_elems(payload: Seq<u8>, count: int) -> Seq<u32> {
    Seq::new(count as nat, |i: int| le32_at(payload, 4 * i) as u32)
}

/// The 64-bit bit patterns of `count` little-endian elements of `payload`.
pub open spec fn f64_array_elems(payload: Seq<u8>, count: int) -> Seq<u64> {
    Seq::new(count as nat, |i: int| le64_at(payload, 8 * i) as u64)
}

/// `count` signed 64-bit little-endian elements of `payload`.
pub open spec fn i64_array_elems(payload: Seq<u8>, count: int) -> Seq<i64> {
    Seq::new(count as nat, |i: int| le_i64_at(payload, 8 * i))
}

/// `count` signed 32-bit little-endian elements of `payload`.
pub open spec fn i32_array_elems(payload: Seq<u8>, count: int) -> Seq<i32> {
    Seq::new(count as nat, |i: int| le_i32_at(payload, 4 * i))
}

/// `count` one-byte boolean elements of `payload`: each true exactly when
/// its byte is 1.
pub open spec fn bool_array_elems(payload: Seq<u8>, count: int) -> Seq<bool> {
    Seq::new(count as nat, |i: int| payload[i] == 1)
}

/// The 32-bit floating-point array stored at `pos`, as bit patterns.
pub open spec fn spec_parse_f32_array(b: Seq<u8>, pos: int) -> Result<
    (PropertyView, int),
    ParseErrorKind,
> {
    match spec_array_payload(b, pos, 4) {
        Ok((payload, p)) => Ok(
            (PropertyView::FloatArray(f32_array_elems(payload, payload.len() as int / 4)), p),
        ),
        Err(e) => Err(e),
    }
}

/// The 64-bit floating-point array stored at `pos`, as bit patterns.
pub open spec fn spec_parse_f64_array(b: Seq<u8>, pos: int) -> Result<
    (PropertyView, int),
    ParseErrorKind,
> {
    match spec_array_payload(b, pos, 8) {
        Ok((payload, p)) => Ok(
            (PropertyView::DoubleArray(f64_array_elems(payload, payload.len() as int / 8)), p),
        ),
        Err(e) => Err(e),
    }
}

/// The signed 64-bit integer array stored at `pos`.
pub open spec fn spec_parse_i64_array(b: Seq<u8>, pos: int) -> Result<
    (PropertyView, int),
    ParseErrorKind,
> {
    match spec_array_payload(b, pos, 8) {
        Ok((payload, p)) => Ok(
            (PropertyView::SignedInt64Array(i64_array_elems(payload, payload.len() as int / 8)), p),
        ),
        Err(e) => Err(e),
    }
}

/// The signed 32-bit integer array stored at `pos`.
pub open spec fn spec_parse_i32_array(b: Seq<u8>, pos: int) -> Result<
    (PropertyView, int),
    ParseErrorKind,
> {
    match spec_array_payload(b, pos, 4) {
        Ok((payload, p)) => Ok(
            (PropertyView::SignedInt32Array(i32_array_elems(payload, payload.len() as int / 4)), p),
        ),
        Err(e) => Err(e),
    }
}

/// The boolean array stored at `pos`: one byte per element in both
/// encodings.
pub open spec fn spec_parse_bool_array(b: Seq<u8>, pos: int) -> Result<
    (PropertyView, int),
    ParseErrorKind,
> {
    match spec_array_payload(b, pos, 1) {
        Ok((payload, p)) => Ok(
            (PropertyView::BooleanArray(bool_array_elems(payload, payload.len() as int)), p),
        ),
        Err(e) => Err(e),
    }
}

/// Reads a 32-bit floating-point array as element bit patterns.
pub fn parse_f32_array_property(data: &Vec<u8>, pos: usize) -> (r: Result<
    (PropertyRecordType, usize),
    ParseError,
>)
    ensures
        match r {
            Ok((v, p)) => spec_parse_f32_array(data@, pos as int) == Ok::<_, ParseErrorKind>((
                v@,
                p as int,
            )),
            Err(e) => spec_parse_f32_array(data@, pos as int) == Err::<(PropertyView, int), _>(
                e.kind(),
            ),
        },
{
    let (payload, p) = match get_property_raw_byte_cursor(data, pos, 4) {
        Ok(x) => x,
        Err(e) => { return Err(e) },
    };
    let decode = |d: &Vec<u8>, q: usize| -> (res: Result<(u32, usize), ParseError>)
        requires
            q + 4 <= d@.len(),
        ensures
            res matches Ok(x) && x.0 == le32_at(d@, q as int) as u32 && x.1 == q + 4,
        {
            proof {
                assert(q + 4 <= d.len());
            }
            Ok((le_u32_of(d, q), q + 4))
        };
    let (elements, _) = match apply_transform_on_byte_stream(&payload, 0, 4, decode) {
        Ok(x) => x,
        Err(e) => {
            proof {
                assert(false);
            }
            return Err(e);
        },
    };
    proof {
        assert forall|i: int| 0 <= i < elements@.len() implies #[trigger] elements@[i]
            == f32_array_elems(payload@, payload@.len() as int / 4)[i] by {
            assert(call_ensures(
                decode,
                (&payload, (0 + i * 4) as usize),
                Ok((elements@[i], (0 + (i + 1) * 4) as usize)),
            ));
        }
        assert(elements@ =~= f32_array_elems(payload@, payload@.len() as int / 4));
    }
    Ok((PropertyRecordType::FloatArray(elements), p))
}

/// Reads a 64-bit floating-point array as element bit patterns.
pub fn parse_f64_array_property(data: &Vec<u8>, pos: usize) -> (r: Result<
    (PropertyRecordType, usize),
    ParseError,
>)
    ensures
        match r {
            Ok((v, p)) => spec_parse_f64_array(data@, pos as int) == Ok::<_, ParseErrorKind>((
                v@,
                p as int,
            )),
            Err(e) => spec_parse_f64_array(data@, pos as int) == Err::<(PropertyView, int), _>(
                e.kind(),
            ),
        },
{
    let (payload, p) = match get_property_raw_byte_cursor(data, pos, 8) {
        Ok(x) => x,
        Err(e) => { return Err(e) },
    };
    let decode = |d: &Vec<u8>, q: usize| -> (res: Result<(u64, usize), ParseError>)
        requires
            q + 8 <= d@.len(),
        ensures
            res matches Ok(x) && x.0 == le64_at(d@, q as int) as u64 && x.1 == q + 8,
        {
            proof {
                assert(q + 8 <= d.len());
            }
            Ok((le_u64_of(d, q), q + 8))
        };
    let (elements, _) = match apply_transform_on_byte_stream(&payload, 0, 8, decode) {
        Ok(x) => x,
        Err(e) => {
            proof {
                assert(false);
            }
            return Err(e);
        },
    };
    proof {
        assert forall|i: int| 0 <= i < elements@.len() implies #[trigger] elements@[i]
            == f64_array_elems(payload@, payload@.len() as int / 8)[i] by {
            assert(call_ensures(
                decode,
                (&payload, (0 + i * 8) as usize),
                Ok((elements@[i], (0 + (i + 1) * 8) as usize)),
            ));
        }
        assert(elements@ =~= f64_array_elems(payload@, payload@.len() as int / 8));
    }
    Ok((PropertyRecordType::DoubleArray(elements), p))
}

/// Reads a signed 64-bit integer array.
pub fn parse_i64_array_property(data: &Vec<u8>, pos: usize) -> (r: Result<
    (PropertyRecordType, usize),
    ParseError,
>)
    ensures
        match r {
            Ok((v, p)) => spec_parse_i64_array(data@, pos as int) == Ok::<_, ParseErrorKind>((
                v@,
                p as int,
            )),
            Err(e) => spec_parse_i64_array(data@, pos as int) == Err::<(PropertyView, int), _>(
                e.kind(),
            ),
        },
{
    let (payload, p) = match get_property_raw_byte_cursor(data, pos, 8) {
        Ok(x) => x,
        Err(e) => { return Err(e) },
    };
    let decode = |d: &Vec<u8>, q: usize| -> (res: Result<(i64, usize), ParseError>)
        requires
            q + 8 <= d@.len(),
        ensures
            res matches Ok(x) && x.0 == le_i64_at(d@, q as int) && x.1 == q + 8,
        {
            proof {
                assert(q + 8 <= d.len());
            }
            Ok((#[verifier::truncate] (le_u64_of(d, q) as i64), q + 8))
        };
    let (elements, _) = match apply_transform_on_byte_stream(&payload, 0, 8, decode) {
        Ok(x) => x,
        Err(e) => {
            proof {
                assert(false);
            }
            return Err(e);
        },
    };
    proof {
        assert forall|i: int| 0 <= i < elements@.len() implies #[trigger] elements@[i]
            == i64_array_elems(payload@, payload@.len() as int / 8)[i] by {
            assert(call_ensures(
                decode,
                (&payload, (0 + i * 8) as usize),
                Ok((elements@[i], (0 + (i + 1) * 8) as usize)),
            ));
        }
        assert(elements@ =~= i64_array_elems(payload@, payload@.len() as int / 8));
    }
    Ok((PropertyRecordType::SignedInt64Array(elements), p))
}

/// Reads a signed 32-bit integer array.
pub fn parse_i32_array_property(data: &Vec<u8>, pos: usize) -> (r: Result<
    (PropertyRecordType, usize),
    ParseError,
>)
    ensures
        match r {
            Ok((v, p)) => spec_parse_i32_array(data@, pos as int) == Ok::<_, ParseErrorKind>((
                v@,
                p as int,
            )),
            Err(e) => spec_parse_i32_array(data@, pos as int) == Err::<(PropertyView, int), _>(
                e.kind(),
            ),
        },
{
    let (payload, p) = match get_property_raw_byte_cursor(data, pos, 4) {
        Ok(x) => x,
        Err(e) => { return Err(e) },
    };
    let decode = |d: &Vec<u8>, q: usize| -> (res: Result<(i32, usize), ParseError>)
        requires
            q + 4 <= d@.len(),
        ensures
            res matches Ok(x) && x.0 == le_i32_at(d@, q as int) && x.1 == q + 4,
        {
            proof {
                assert(q + 4 <= d.len());
            }
            Ok((#[verifier::truncate] (le_u32_of(d, q) as i32), q + 4))
        };
    let (elements, _) = match apply_transform_on_byte_stream(&payload, 0, 4, decode) {
        Ok(x) => x,
        Err(e) => {
            proof {
                assert(false);
            }
            return Err(e);
        },
    };
    proof {
        assert forall|i: int| 0 <= i < elements@.len() implies #[trigger] elements@[i]
            == i32_array_elems(payload@, payload@.len() as int / 4)[i] by {
            assert(call_ensures(
                decode,
                (&payload, (0 + i * 4) as usize),
                Ok((elements@[i], (0 + (i + 1) * 4) as usize)),
            ));
        }
        assert(elements@ =~= i32_array_elems(payload@, payload@.len() as int / 4));
    }
    Ok((PropertyRecordType::SignedInt32Array(elements), p))
}

/// Reads a boolean array: one byte per element, true exactly when the
/// byte is 1.
pub fn parse_bool_array_property(data: &Vec<u8>, pos: usize) -> (r: Result<
    (PropertyRecordType, usize),
    ParseError,
>)
    ensures
        match r {
            Ok((v, p)) => spec_parse_bool_array(data@, pos as int) == Ok::<_, ParseErrorKind>((
                v@,
                p as int,
            )),
            Err(e) => spec_parse_bool_array(data@, pos as int) == Err::<(PropertyView, int), _>(
                e.kind(),
            ),
        },
{
    let (payload, p) = match get_property_raw_byte_cursor(data, pos, 1) {
        Ok(x) => x,
        Err(e) => { return Err(e) },
    };
    let decode = |d: &Vec<u8>, q: usize| -> (res: Result<(bool, usize), ParseError>)
        requires
            q + 1 <= d@.len(),
        ensures
            res matches Ok(x) && x.0 == (d@[q as int] == 1) && x.1 == q + 1,
        {
            proof {
                assert(q + 1 <= d.len());
            }
            Ok((d[q] == 1, q + 1))
        };
    let (elements, _) = match apply_transform_on_byte_stream(&payload, 0, 1, decode) {
        Ok(x) => x,
        Err(e) => {
            proof {
                assert(false);
            }
            return Err(e);
        },
    };
    proof {
        assert forall|i: int| 0 <= i < elements@.len() implies #[trigger] elements@[i]
            == bool_array_elems(payload@, payload@.len() as int)[i] by {
            assert(call_ensures(
                decode,
                (&payload, (0 + i * 1) as usize),
                Ok((elements@[i], (0 + (i + 1) * 1) as usize)),
            ));
        }
        assert(elements@ =~= bool_array_elems(payload@, payload@.len() as int));
    }
    Ok((PropertyRecordType::BooleanArray(elements), p))
}

/// Two signed 32-bit arrays whose element bytes agree decode to the same
/// values, wherever they sit and however they were encoded: the payload
/// of a raw array is its stored bytes, the payload of a compressed array
/// is its zlib inflation, and the decoded values are a function of the
/// payload alone — in particular, a compressed array and a raw array
/// that encode the same bytes decode to identical element sequences.
pub proof fn lemma_i32_array_encodings_agree(b1: Seq<u8>, pos1: int, b2: Seq<u8>, pos2: int)
    requires
        spec_array_payload(b1, pos1, 4) matches Ok(r1) && spec_array_payload(b2, pos2, 4)
            matches Ok(r2) && r1.0 == r2.0,
    ensures
        spec_parse_i32_array(b1, pos1) is Ok,
        spec_parse_i32_array(b2, pos2) is Ok,
        spec_parse_i32_array(b1, pos1)->Ok_0.0 == spec_parse_i32_array(b2, pos2)->Ok_0.0,
{
}

// ---------------------------------------------------------------------------
// Strings and blobs.
// ---------------------------------------------------------------------------

/// The position of the first NUL byte of `b`, or `b.len()` if there is
/// none.
pub open spec fn first_nul(b: Seq<u8>) -> int
    decreases b.len(),
{
    if b.len() == 0 {
        0
    } else if b[0] == 0 {
        0
    } else {
        1 + first_nul(b.drop_first())
    }
}

/// `first_nul` finds exactly the position a left-to-right scan stops at:
/// the logical value of a stored string is its bytes up to the first NUL.
pub proof fn lemma_first_nul_is(b: Seq<u8>, k: int)
    requires
        0 <= k <= b.len(),
        forall|j: int| 0 <= j < k ==> b[j] != 0,
        k < b.len() ==> b[k] == 0,
    ensures
        first_nul(b) == k,
    decreases b.len(),
{
    if b.len() == 0 {
    } else if b[0] == 0 {
        assert(k == 0);
    } else {
        assert(k > 0);
        let t = b.drop_first();
        assert(forall|j: int| 0 <= j < k - 1 ==> t[j] == b[j + 1] && t[j] != 0);
        assert(k - 1 < t.len() ==> t[k - 1] == b[k] && t[k - 1] == 0);
        lemma_first_nul_is(t, k - 1);
    }
}

/// The string stored at `pos`: a 32-bit byte length, then that many bytes,
/// whose logical value is their UTF-8 decoding truncated at the first NUL.
pub open spec fn spec_parse_string_prop(b: Seq<u8>, pos: int) -> Result<
    (PropertyView, int),
    ParseErrorKind,
> {
    if pos + 4 > b.len() {
        Err(ParseErrorKind::EndOfData)
    } else {
        let n = le32_at(b, pos);
        let p = pos + 4;
        if p + n > b.len() {
            Err(ParseErrorKind::EndOfData)
        } else {
            let stored = b.subrange(p, p + n);
            let logical = stored.take(first_nul(stored));
            if valid_utf8(logical) {
                Ok((PropertyView::String(decode_utf8(logical)), p + n))
            } else {
                Err(ParseErrorKind::Format)
            }
        }
    }
}

/// Reads a string property, truncating the stored bytes at the first NUL
/// before decoding them as UTF-8.
pub fn parse_string_property(data: &Vec<u8>, pos: usize) -> (r: Result<
    (PropertyRecordType, usize),
    ParseError,
>)
    ensures
        match r {
            Ok((v, p)) => spec_parse_string_prop(data@, pos as int) == Ok::<_, ParseErrorKind>((
                v@,
                p as int,
            )),
            Err(e) => spec_parse_string_prop(data@, pos as int) == Err::<(PropertyView, int), _>(
                e.kind(),
            ),
        },
{
    let (n32, p) = match read_u32_at(data, pos) {
        Ok(x) => x,
        Err(e) => { return Err(e) },
    };
    let n = n32 as usize;
    let (stored, p2) = match copy_range(data, p, n) {
        Ok(x) => x,
        Err(e) => { return Err(e) },
    };
    let mut k: usize = 0;
    while k < stored.len() && stored[k] != 0
        invariant
            k <= stored@.len(),
            forall|j: int| 0 <= j < k ==> stored@[j] != 0,
        decreases stored@.len() - k,
    {
        k = k + 1;
    }
    proof {
        lemma_first_nul_is(stored@, k as int);
    }
    let (logical, _) = match copy_range(&stored, 0, k) {
        Ok(x) => x,
        Err(e) => { return Err(e) },
    };
    proof {
        assert(logical@ =~= stored@.take(first_nul(stored@)));
    }
    match string_from_utf8(logical) {
        Some(s) => Ok((PropertyRecordType::String(s), p2)),
        None => Err(ParseError::FormatError),
    }
}

/// The binary blob stored at `pos`: a 32-bit byte length, then that many
/// uninterpreted bytes.
pub open spec fn spec_parse_binary(b: Seq<u8>, pos: int) -> Result<
    (PropertyView, int),
    ParseErrorKind,
> {
    if pos + 4 > b.len() {
        Err(ParseErrorKind::EndOfData)
    } else {
        let n = le32_at(b, pos);
        let p = pos + 4;
        if p + n > b.len() {
            Err(ParseErrorKind::EndOfData)
        } else {
            Ok((PropertyView::BinaryData(b.subrange(p, p + n)), p + n))
        }
    }
}

/// Reads a binary blob property, stored verbatim.
pub fn parse_binary_data_property(data: &Vec<u8>, pos: usize) -> (r: Result<
    (PropertyRecordType, usize),
    ParseError,
>)
    ensures
        match r {
            Ok((v, p)) => spec_parse_binary(data@, pos as int) == Ok::<_, ParseErrorKind>((
                v@,
                p as int,
            )),
            Err(e) => spec_parse_binary(data@, pos as int) == Err::<(PropertyView, int), _>(
                e.kind(),
            ),
        },
{
    let (n32, p) = match read_u32_at(data, pos) {
        Ok(x) => x,
        Err(e) => { return Err(e) },
    };
    let n = n32 as usize;
    match copy_range(data, p, n) {
        Ok((bytes, p2)) => Ok((PropertyRecordType::BinaryData(bytes), p2)),
        Err(e) => Err(e),
    }
}

// ---------------------------------------------------------------------------
// Dispatch on the type tag, and property sequences.
// ---------------------------------------------------------------------------


// The ASCII type tags of the property encodings.
pub const TAG_I16: u8 = 0x59;  // 'Y'
pub const TAG_BOOL: u8 = 0x43;  // 'C'
pub const TAG_I32: u8 = 0x49;  // 'I'
pub const TAG_F32: u8 = 0x46;  // 'F'
pub const TAG_F64: u8 = 0x44;  // 'D'
pub const TAG_I64: u8 = 0x4C;  // 'L'
pub const TAG_F32_ARRAY: u8 = 0x66;  // 'f'
pub const TAG_F64_ARRAY: u8 = 0x64;  // 'd'
pub const TAG_I64_ARRAY: u8 = 0x6C;  // 'l'
pub const TAG_I32_ARRAY: u8 = 0x69;  // 'i'
pub const TAG_BOOL_ARRAY: u8 = 0x62;  // 'b'
pub const TAG_STRING: u8 = 0x53;  // 'S'
pub const TAG_BINARY: u8 = 0x52;  // 'R'

/// The property stored at `pos`: a one-byte ASCII type tag followed by the
/// tag-specific payload. An unknown tag is a format violation.
pub open spec fn spec_parse_property(b: Seq<u8>, pos: int) -> Result<
    (PropertyView, int),
    ParseErrorKind,
> {
    if pos + 1 > b.len() {
        Err(ParseErrorKind::EndOfData)
    } else {
        let tag = b[pos];
        let p = pos + 1;
        if tag == TAG_I16 {
            spec_parse_i16(b, p)
        } else if tag == TAG_BOOL {
            spec_parse_bool(b, p)
        } else if tag == TAG_I32 {
            spec_parse_i32(b, p)
        } else if tag == TAG_F32 {
            spec_parse_f32(b, p)
        } else if tag == TAG_F64 {
            spec_parse_f64(b, p)
        } else if tag == TAG_I64 {
            spec_parse_i64(b, p)
        } else if tag == TAG_F32_ARRAY {
            spec_parse_f32_array(b, p)
        } else if tag == TAG_F64_ARRAY {
            spec_parse_f64_array(b, p)
        } else if tag == TAG_I64_ARRAY {
            spec_parse_i64_array(b, p)
        } else if tag == TAG_I32_ARRAY {
            spec_parse_i32_array(b, p)
        } else if tag == TAG_BOOL_ARRAY {
            spec_parse_bool_array(b, p)
        } else if tag == TAG_STRING {
            spec_parse_string_prop(b, p)
        } else if tag == TAG_BINARY {
            spec_parse_binary(b, p)
        } else {
            Err(ParseErrorKind::Format)
        }
    }
}

/// Reads one property: a one-byte type tag, then the tag-specific payload.
pub fn parse_property(data: &Vec<u8>, pos: usize) -> (r: Result<
    (PropertyRecordType, usize),
    ParseError,
>)
    ensures
        match r {
            Ok((v, p)) => spec_parse_property(data@, pos as int) == Ok::<_, ParseErrorKind>((
                v@,
                p as int,
            )),
            Err(e) => spec_parse_property(data@, pos as int) == Err::<(PropertyView, int), _>(
                e.kind(),
            ),
        },
{
    let (tag, p) = match read_u8_at(data, pos) {
        Ok(x) => x,
        Err(e) => { return Err(e) },
    };
    if tag == TAG_I16 {
        parse_i16_property(data, p)
    } else if tag == TAG_BOOL {
        parse_bool_property(data, p)
    } else if tag == TAG_I32 {
        parse_i32_property(data, p)
    } else if tag == TAG_F32 {
        parse_f32_property(data, p)
    } else if tag == TAG_F64 {
        parse_f64_property(data, p)
    } else if tag == TAG_I64 {
        parse_i64_property(data, p)
    } else if tag == TAG_F32_ARRAY {
        parse_f32_array_property(data, p)
    } else if tag == TAG_F64_ARRAY {
        parse_f64_array_property(data, p)
    } else if tag == TAG_I64_ARRAY {
        parse_i64_array_property(data, p)
    } else if tag == TAG_I32_ARRAY {
        parse_i32_array_property(data, p)
    } else if tag == TAG_BOOL_ARRAY {
        parse_bool_array_property(data, p)
    } else if tag == TAG_STRING {
        parse_string_property(data, p)
    } else if tag == TAG_BINARY {
        parse_binary_data_property(data, p)
    } else {
        Err(ParseError::FormatError)
    }
}

/// `count` consecutive properties starting at `pos`, and the position after
/// them; the first failure aborts the sequence.
pub open spec fn spec_parse_properties(b: Seq<u8>, pos: int, count: int) -> Result<
    (Seq<PropertyView>, int),
    ParseErrorKind,
>
    decreases count,
{
    if count <= 0 {
        Ok((Seq::empty(), pos))
    } else {
        match spec_parse_property(b, pos) {
            Err(e) => Err(e),
            Ok((v, p)) => match spec_parse_properties(b, p, count - 1) {
                Err(e) => Err(e),
                Ok((rest, pf)) => Ok((seq![v] + rest, pf)),
            },
        }
    }
}

/// Reads `num_properties` consecutive properties.
pub fn parse_properties(data: &Vec<u8>, pos: usize, num_properties: u32) -> (r: Result<
    (Vec<PropertyRecordType>, usize),
    ParseError,
>)
    ensures
        match r {
            Ok((v, p)) => spec_parse_properties(data@, pos as int, num_properties as int) == Ok::<
                _,
                ParseErrorKind,
            >((props_view(v@), p as int)),
            Err(e) => spec_parse_properties(data@, pos as int, num_properties as int) == Err::<
                (Seq<PropertyView>, int),
                _,
            >(e.kind()),
        },
{
    let mut result: Vec<PropertyRecordType> = Vec::new();
    let mut cur = pos;
    let mut i: u32 = 0;
    while i < num_properties
        invariant
            i <= num_properties,
            spec_parse_properties(data@, pos as int, num_properties as int) == (
            match spec_parse_properties(data@, cur as int, num_properties as int - i) {
                Ok((rest, pf)) => Ok::<_, ParseErrorKind>((props_view(result@) + rest, pf)),
                Err(e) => Err(e),
            }),
        decreases num_properties - i,
    {
        let ghost prev_result = result@;
        let ghost prev_cur = cur as int;
        let ghost remaining = num_properties as int - i;
        match parse_property(data, cur) {
            Ok((v, p)) => {
                proof {
                    let pv = v@;
                    let sp = spec_parse_properties(data@, p as int, remaining - 1);
                    match sp {
                        Ok((rest2, pf)) => {
                            assert(spec_parse_properties(data@, prev_cur, remaining) == Ok::<
                                _,
                                ParseErrorKind,
                            >((seq![pv] + rest2, pf)));
                            assert(props_view(prev_result.push(v)) =~= props_view(prev_result)
                                + seq![pv]);
                            assert((props_view(prev_result) + seq![pv]) + rest2 =~= props_view(
                                prev_result,
                            ) + (seq![pv] + rest2));
                        },
                        Err(_) => {},
                    }
                }
                result.push(v);
                cur = p;
            },
            Err(e) => {
                proof {
                    assert(spec_parse_properties(data@, prev_cur, remaining) == Err::<
                        (Seq<PropertyView>, int),
                        _,
                    >(e.kind()));
                }
                return Err(e);
            },
        }
        i = i + 1;
    }
    proof {
        assert(spec_parse_properties(data@, cur as int, 0) == Ok::<_, ParseErrorKind>((
            Seq::<PropertyView>::empty(),
            cur as int,
        )));
        assert(props_view(result@) + Seq::<PropertyView>::empty() =~= props_view(result@));
    }
    Ok((result, cur))
}

} // verus!

