//! Reading the first array of a level 5 MAT-file back from its bytes: the
//! file header, the tag of the first data element (decompressing it when it
//! is zlib-compressed), the array flags, the dimensions, the name and the
//! numeric data.
use vstd::prelude::*;
use crate::bytes::{le_value, padding_len, push_slice};

verus! {

/// The errors of an I/O operation, here those of decompression.
#[verifier::external_type_specification]
#[verifier::external_body]
pub struct ExIoError(std::io::Error);

/// The error of a failed UTF-8 conversion.
#[verifier::external_type_specification]
#[verifier::external_body]
pub struct ExUtf8Error(std::str::Utf8Error);

/// The bytes that a zlib stream decompresses to, or `None` where the stream
/// is corrupt or incomplete.
pub uninterp spec fn zlib_decoded(data: Seq<u8>) -> Option<Seq<u8>>;

/// Decompresses the zlib stream at the start of `data` with
/// `flate2::read::ZlibDecoder`, reading it to its end.
///
/// Trusted: the decompressed bytes, or whether decompression fails, are
/// those that `zlib_decoded` names for the input; what they are is left to
/// flate2 (bytes after the end of the stream are ignored by it).
#[verifier::external_body]
fn zlib_decompress(data: &[u8]) -> (r: Result<Vec<u8>, std::io::Error>)
    ensures
        match r {
            Ok(v) => zlib_decoded(data@) == Some(v@),
            Err(_) => zlib_decoded(data@) is None,
        },
{
    let mut decoder = flate2::read::ZlibDecoder::new(data);
    let mut out: Vec<u8> = Vec::new();
    match std::io::Read::read_to_end(&mut decoder, &mut out) {
        Ok(_) => Ok(out),
        Err(e) => Err(e),
    }
}

/// Views bytes as a string slice with `std::str::from_utf8`.
///
/// Trusted: it succeeds exactly on valid UTF-8, and the string then has
/// exactly these bytes, as std documents.
#[verifier::external_body]
fn str_from_utf8(v: &[u8]) -> (r: Result<&str, std::str::Utf8Error>)
    ensures
        r is Ok <==> vstd::utf8::valid_utf8(v@),
        r matches Ok(s) ==> vstd::utf8::encode_utf8(s@) == v@,
{
    std::str::from_utf8(v)
}

/// Why the bytes of a MAT-file could not be read.
#[derive(Clone, Copy, Debug, PartialEq, Eq, Structural)]
pub enum ParseError {
    /// The bytes end before an element that they announce.
    Incomplete,
    /// Text that must be UTF-8 is not.
    InvalidUtf8,
    /// The compressed data element could not be decompressed.
    Decompression,
}

/// The little-endian `u32` at `pos`.
pub open spec fn u32_at(b: Seq<u8>, pos: int) -> nat {
    le_value(b.subrange(pos, pos + 4))
}

/// The number of bytes of data announced by the tag at the start of `b`.
pub open spec fn element_len(b: Seq<u8>) -> nat {
    u32_at(b, 4)
}

/// The number of bytes of the element at the start of `b`: tag, data and
/// padding.
pub open spec fn element_total(b: Seq<u8>) -> nat {
    8 + element_len(b) + padding_len(element_len(b))
}

/// `b` starts with a whole element.
pub open spec fn element_ok(b: Seq<u8>) -> bool {
    b.len() >= 8 && b.len() >= element_total(b)
}

/// The data of the element at the start of `b`.
pub open spec fn element_body(b: Seq<u8>) -> Seq<u8> {
    b.subrange(8, 8 + element_len(b) as int)
}

/// The first 128 bytes of a file.
#[derive(Debug)]
pub struct Header {
    pub header_string: String,
    pub sys_offset_1: u32,
    pub sys_offset_2: u32,
    pub sys_offset_1_bytes: Vec<u8>,
    pub sys_offset_2_bytes: Vec<u8>,
    pub endian_marker: String,
}

/// The tag of a data element.
#[derive(Debug)]
pub struct DataType {
    pub dtype_integer: u32,
    pub dtype_bytes: Vec<u8>,
    pub dtype_length: u32,
    pub dtype_length_bytes: Vec<u8>,
}

/// The array flags element of a matrix.
#[derive(Debug)]
pub struct ArrayFlags {
    pub array_flag_type: u32,
    pub array_flag_type_bytes: Vec<u8>,
    pub array_flag_length: u32,
    pub array_flag_length_bytes: Vec<u8>,
    pub flag_1: u32,
    pub flag_1_bytes: Vec<u8>,
    pub flag_2: u32,
    pub flag_2_bytes: Vec<u8>,
}

/// The dimensions element of a matrix.
#[derive(Debug)]
pub struct Dimensions {
    pub dimension_type: u32,
    pub dimension_type_bytes: Vec<u8>,
    pub dimension_length: u32,
    pub dimension_length_bytes: Vec<u8>,
    pub dimension_sizes: Vec<i32>,
    pub dimension_sizes_bytes: Vec<u8>,
    pub padding_bytes: usize,
}

/// The name element of a matrix.
#[derive(Debug)]
pub struct ArrayName {
    pub name_type: u32,
    pub name_type_bytes: Vec<u8>,
    pub name_length: u32,
    pub name_length_bytes: Vec<u8>,
    pub name: String,
    pub name_bytes: Vec<u8>,
    pub padding_bytes: usize,
}

/// The numeric data element of a matrix.
#[derive(Debug)]
pub struct ArrayData {
    pub array_type: u32,
    pub array_type_bytes: Vec<u8>,
    pub array_length: u32,
    pub array_length_bytes: Vec<u8>,
    pub array_data_bytes: Vec<u8>,
    pub padding_bytes: usize,
}

/// `h` holds what the first 128 bytes of `b` say.
pub open spec fn header_read_from(h: Header, b: Seq<u8>) -> bool {
    &&& vstd::utf8::encode_utf8(h.header_string@) == b.subrange(0, 116)
    &&& h.sys_offset_1 == u32_at(b, 116)
    &&& h.sys_offset_1_bytes@ == b.subrange(116, 120)
    &&& h.sys_offset_2 == u32_at(b, 120)
    &&& h.sys_offset_2_bytes@ == b.subrange(120, 124)
    &&& vstd::utf8::encode_utf8(h.endian_marker@) == b.subrange(126, 128)
}

/// `d` holds what the tag at the start of `b` says.
pub open spec fn data_type_read_from(d: DataType, b: Seq<u8>) -> bool {
    &&& d.dtype_integer == u32_at(b, 0)
    &&& d.dtype_bytes@ == b.subrange(0, 4)
    &&& d.dtype_length == u32_at(b, 4)
    &&& d.dtype_length_bytes@ == b.subrange(4, 8)
}

/// `f` holds what the array flags at the start of `b` say.
pub open spec fn flags_read_from(f: ArrayFlags, b: Seq<u8>) -> bool {
    &&& f.array_flag_type == u32_at(b, 0)
    &&& f.array_flag_type_bytes@ == b.subrange(0, 4)
    &&& f.array_flag_length == u32_at(b, 4)
    &&& f.array_flag_length_bytes@ == b.subrange(4, 8)
    &&& f.flag_1 == u32_at(b, 8)
    &&& f.flag_1_bytes@ == b.subrange(8, 12)
    &&& f.flag_2 == u32_at(b, 12)
    &&& f.flag_2_bytes@ == b.subrange(12, 16)
}

/// The dimensions stored in `body`: one per whole group of four bytes,
/// each a little-endian `i32`.
pub open spec fn dimension_values(body: Seq<u8>) -> Seq<i32> {
    Seq::new(body.len() / 4, |i: int| u32_at(body, 4 * i) as u32 as i32)
}

/// `d` holds what the dimensions element at the start of `b` says.
pub open spec fn dims_read_from(d: Dimensions, b: Seq<u8>) -> bool {
    &&& d.dimension_type == u32_at(b, 0)
    &&& d.dimension_type_bytes@ == b.subrange(0, 4)
    &&& d.dimension_length == element_len(b)
    &&& d.dimension_length_bytes@ == b.subrange(4, 8)
    &&& d.dimension_sizes_bytes@ == element_body(b)
    &&& d.dimension_sizes@ == dimension_values(element_body(b))
    &&& d.padding_bytes == padding_len(element_len(b))
}

/// `n` holds what the name element at the start of `b` says.
pub open spec fn name_read_from(n: ArrayName, b: Seq<u8>) -> bool {
    &&& n.name_type == u32_at(b, 0)
    &&& n.name_type_bytes@ == b.subrange(0, 4)
    &&& n.name_length == element_len(b)
    &&& n.name_length_bytes@ == b.subrange(4, 8)
    &&& n.name_bytes@ == element_body(b)
    &&& vstd::utf8::encode_utf8(n.name@) == element_body(b)
    &&& n.padding_bytes == padding_len(element_len(b))
}

/// `a` holds what the numeric data element at the start of `b` says.
pub open spec fn data_read_from(a: ArrayData, b: Seq<u8>) -> bool {
    &&& a.array_type == u32_at(b, 0)
    &&& a.array_type_bytes@ == b.subrange(0, 4)
    &&& a.array_length == element_len(b)
    &&& a.array_length_bytes@ == b.subrange(4, 8)
    &&& a.array_data_bytes@ == element_body(b)
    &&& a.padding_bytes == padding_len(element_len(b))
}

/// The value of four little-endian bytes is below `2^32`.
proof fn lemma_u32_at_bound(b: Seq<u8>, pos: int)
    requires
        0 <= pos,
        pos + 4 <= b.len(),
    ensures
        u32_at(b, pos) == b[pos] + 256 * (b[pos + 1] + 256 * (b[pos + 2] + 256 * b[pos + 3] as int)),
        u32_at(b, pos) <= u32::MAX,
{
    let s = b.subrange(pos, pos + 4);
    assert(s.drop_first() =~= b.subrange(pos + 1, pos + 4));
    assert(s.drop_first().drop_first() =~= b.subrange(pos + 2, pos + 4));
    assert(s.drop_first().drop_first().drop_first() =~= b.subrange(pos + 3, pos + 4));
    assert(s.drop_first().drop_first().drop_first().drop_first() =~= Seq::<u8>::empty());
    reveal_with_fuel(le_value, 5);
    let b0 = b[pos] as int;
    let b1 = b[pos + 1] as int;
    let b2 = b[pos + 2] as int;
    let b3 = b[pos + 3] as int;
    assert(b0 + 256 * (b1 + 256 * (b2 + 256 * b3)) <= u32::MAX) by (nonlinear_arith)
        requires
            0 <= b0 < 256,
            0 <= b1 < 256,
            0 <= b2 < 256,
            0 <= b3 < 256,
    ;
}

/// The little-endian `u32` at `pos` of `b`.
fn read_u32(b: &[u8], pos: usize) -> (r: u32)
    requires
        pos + 4 <= b@.len(),
    ensures
        r == u32_at(b@, pos as int),
{
    proof {
        lemma_u32_at_bound(b@, pos as int);
    }
    let b0 = b[pos] as u32;
    let b1 = b[pos + 1] as u32;
    let b2 = b[pos + 2] as u32;
    let b3 = b[pos + 3] as u32;
    b0 + 256 * (b1 + 256 * (b2 + 256 * b3))
}

/// A copy of `b[start..end]`.
fn copy_range(b: &[u8], start: usize, end: usize) -> (r: Vec<u8>)
    requires
        start <= end <= b@.len(),
    ensures
        r@ == b@.subrange(start as int, end as int),
{
    let mut r: Vec<u8> = Vec::new();
    push_slice(&mut r, vstd::slice::slice_subrange(b, start, end));
    r
}

/// The rest of `b` after its first `n` bytes.
fn skip(b: &[u8], n: usize) -> (r: &[u8])
    requires
        n <= b@.len(),
    ensures
        r@ == b@.skip(n as int),
{
    vstd::slice::slice_subrange(b, n, b.len())
}

/// A string with the given UTF-8 bytes.
fn utf8_string(b: &[u8]) -> (r: Result<String, ParseError>)
    ensures
        match r {
            Ok(s) => vstd::utf8::valid_utf8(b@) && vstd::utf8::encode_utf8(s@) == b@,
            Err(e) => !vstd::utf8::valid_utf8(b@) && e == ParseError::InvalidUtf8,
        },
{
    match str_from_utf8(b) {
        Ok(s) => Ok(String::from_str(s)),
        Err(_) => Err(ParseError::InvalidUtf8),
    }
}

/// The error that reading a file header from `b` reports, if any.
pub open spec fn header_error(b: Seq<u8>) -> Option<ParseError> {
    if b.len() < 128 {
        Some(ParseError::Incomplete)
    } else if !vstd::utf8::valid_utf8(b.subrange(126, 128)) || !vstd::utf8::valid_utf8(
        b.subrange(0, 116),
    ) {
        Some(ParseError::InvalidUtf8)
    } else {
        None
    }
}

/// Reads the 116 bytes of descriptive text, the two subsystem offsets, the
/// version and the endian indicator.
pub fn read_header_information(bytes: &[u8]) -> (r: Result<(&[u8], Header), ParseError>)
    ensures
        header_error(bytes@) is None <==> r is Ok,
        match r {
            Ok((rest, h)) => rest@ == bytes@.skip(128) && header_read_from(h, bytes@),
            Err(e) => header_error(bytes@) == Some(e),
        },
{
    if bytes.len() < 128 {
        return Err(ParseError::Incomplete);
    }
    let sys_offset_1 = read_u32(bytes, 116);
    let sys_offset_2 = read_u32(bytes, 120);
    let endian = utf8_string(vstd::slice::slice_subrange(bytes, 126, 128))?;
    let header_string = utf8_string(vstd::slice::slice_subrange(bytes, 0, 116))?;
    let header = Header {
        header_string,
        sys_offset_1,
        sys_offset_2,
        sys_offset_1_bytes: copy_range(bytes, 116, 120),
        sys_offset_2_bytes: copy_range(bytes, 120, 124),
        endian_marker: endian,
    };
    Ok((skip(bytes, 128), header))
}

/// Reads the tag of a data element: its type and the number of bytes that
/// follow.
pub fn read_overall_datatype_header(bytes: &[u8]) -> (r: Result<(&[u8], DataType), ParseError>)
    ensures
        bytes@.len() >= 8 <==> r is Ok,
        match r {
            Ok((rest, d)) => rest@ == bytes@.skip(8) && data_type_read_from(d, bytes@),
            Err(e) => e == ParseError::Incomplete,
        },
{
    if bytes.len() < 8 {
        return Err(ParseError::Incomplete);
    }
    let dtype = DataType {
        dtype_integer: read_u32(bytes, 0),
        dtype_bytes: copy_range(bytes, 0, 4),
        dtype_length: read_u32(bytes, 4),
        dtype_length_bytes: copy_range(bytes, 4, 8),
    };
    Ok((skip(bytes, 8), dtype))
}

/// Reads the array flags element of a matrix (tag and two flags).
pub fn read_array_flags(bytes: &[u8]) -> (r: Result<(&[u8], ArrayFlags), ParseError>)
    ensures
        bytes@.len() >= 16 <==> r is Ok,
        match r {
            Ok((rest, f)) => rest@ == bytes@.skip(16) && flags_read_from(f, bytes@),
            Err(e) => e == ParseError::Incomplete,
        },
{
    if bytes.len() < 16 {
        return Err(ParseError::Incomplete);
    }
    let flags = ArrayFlags {
        array_flag_type: read_u32(bytes, 0),
        array_flag_type_bytes: copy_range(bytes, 0, 4),
        array_flag_length: read_u32(bytes, 4),
        array_flag_length_bytes: copy_range(bytes, 4, 8),
        flag_1: read_u32(bytes, 8),
        flag_1_bytes: copy_range(bytes, 8, 12),
        flag_2: read_u32(bytes, 12),
        flag_2_bytes: copy_range(bytes, 12, 16),
    };
    Ok((skip(bytes, 16), flags))
}

/// Checks that `bytes` starts with a whole element (tag, announced data and
/// padding) and returns the length of its data.
fn element_length(bytes: &[u8]) -> (r: Result<usize, ParseError>)
    ensures
        element_ok(bytes@) <==> r is Ok,
        match r {
            Ok(n) => n == element_len(bytes@) && 8 + n + padding_len(n as nat) <= bytes@.len()
                <= usize::MAX,
            Err(e) => e == ParseError::Incomplete,
        },
{
    if bytes.len() < 8 {
        return Err(ParseError::Incomplete);
    }
    let length = read_u32(bytes, 4) as usize;
    let available = bytes.len() - 8;
    if length > available {
        return Err(ParseError::Incomplete);
    }
    let padding = crate::utils::padding_bytes_required(length);
    if padding > available - length {
        return Err(ParseError::Incomplete);
    }
    Ok(length)
}

/// Reads the dimensions element of a matrix: each whole group of four data
/// bytes is one dimension.
pub fn read_dimensions(bytes: &[u8]) -> (r: Result<(&[u8], Dimensions), ParseError>)
    ensures
        element_ok(bytes@) <==> r is Ok,
        match r {
            Ok((rest, d)) => rest@ == bytes@.skip(element_total(bytes@) as int) && dims_read_from(
                d,
                bytes@,
            ),
            Err(e) => e == ParseError::Incomplete,
        },
{
    let dimension_length = element_length(bytes)?;
    let body = vstd::slice::slice_subrange(bytes, 8, 8 + dimension_length);
    let mut dimension_sizes: Vec<i32> = Vec::new();
    let count = dimension_length / 4;
    let mut i: usize = 0;
    while i < count
        invariant
            i <= count,
            count == body@.len() / 4,
            body@.len() == dimension_length,
            dimension_sizes@ == dimension_values(body@).take(i as int),
        decreases count - i,
    {
        assert(4 * i + 4 <= body@.len()) by (nonlinear_arith)
            requires
                i < count,
                count == body@.len() / 4,
        ;
        let dim_n = #[verifier::truncate] (read_u32(body, 4 * i) as i32);
        dimension_sizes.push(dim_n);
        i = i + 1;
        assert(dimension_sizes@ =~= dimension_values(body@).take(i as int));
    }
    assert(dimension_values(body@).take(count as int) =~= dimension_values(body@));
    let padding_bytes = crate::utils::padding_bytes_required(dimension_length);
    let dimension = Dimensions {
        dimension_type: read_u32(bytes, 0),
        dimension_type_bytes: copy_range(bytes, 0, 4),
        dimension_length: read_u32(bytes, 4),
        dimension_length_bytes: copy_range(bytes, 4, 8),
        dimension_sizes,
        dimension_sizes_bytes: copy_range(bytes, 8, 8 + dimension_length),
        padding_bytes,
    };
    Ok((skip(bytes, 8 + dimension_length + padding_bytes), dimension))
}

/// The error that reading a name element from `b` reports, if any.
pub open spec fn name_error(b: Seq<u8>) -> Option<ParseError> {
    if !element_ok(b) {
        Some(ParseError::Incomplete)
    } else if !vstd::utf8::valid_utf8(element_body(b)) {
        Some(ParseError::InvalidUtf8)
    } else {
        None
    }
}

/// Reads the name element of a matrix; the name must be UTF-8.
pub fn read_array_name(bytes: &[u8]) -> (r: Result<(&[u8], ArrayName), ParseError>)
    ensures
        name_error(bytes@) is None <==> r is Ok,
        match r {
            Ok((rest, n)) => rest@ == bytes@.skip(element_total(bytes@) as int) && name_read_from(
                n,
                bytes@,
            ),
            Err(e) => name_error(bytes@) == Some(e),
        },
{
    let name_length = element_length(bytes)?;
    let padding_bytes = crate::utils::padding_bytes_required(name_length);
    let name = utf8_string(vstd::slice::slice_subrange(bytes, 8, 8 + name_length))?;
    let names = ArrayName {
        name_type: read_u32(bytes, 0),
        name_type_bytes: copy_range(bytes, 0, 4),
        name_length: read_u32(bytes, 4),
        name_length_bytes: copy_range(bytes, 4, 8),
        name,
        name_bytes: copy_range(bytes, 8, 8 + name_length),
        padding_bytes,
    };
    Ok((skip(bytes, 8 + name_length + padding_bytes), names))
}

/// Reads the numeric data element of a matrix.
pub fn read_array_data(bytes: &[u8]) -> (r: Result<(&[u8], ArrayData), ParseError>)
    ensures
        element_ok(bytes@) <==> r is Ok,
        match r {
            Ok((rest, a)) => rest@ == bytes@.skip(element_total(bytes@) as int) && data_read_from(
                a,
                bytes@,
            ),
            Err(e) => e == ParseError::Incomplete,
        },
{
    let array_length = element_length(bytes)?;
    let padding_bytes = crate::utils::padding_bytes_required(array_length);
    let data = ArrayData {
        array_type: read_u32(bytes, 0),
        array_type_bytes: copy_range(bytes, 0, 4),
        array_length: read_u32(bytes, 4),
        array_length_bytes: copy_range(bytes, 4, 8),
        array_data_bytes: copy_range(bytes, 8, 8 + array_length),
        padding_bytes,
    };
    Ok((skip(bytes, 8 + array_length + padding_bytes), data))
}

/// The data type of a compressed data element (`miCOMPRESSED`).
pub const COMPRESSED_MATLAB_ID: u32 = 15;

/// What `parse_mat_bytes` reads from a file.
#[derive(Debug)]
pub struct MatContents {
    pub header: Header,
    /// The tag of the first data element.
    pub data_type: DataType,
    /// For a compressed first element, the tag at the start of the
    /// decompressed data.
    pub decompressed_data_type: Option<DataType>,
    pub array_flags: ArrayFlags,
    pub dimensions: Dimensions,
    pub array_name: ArrayName,
    pub array_data: ArrayData,
}

/// The first data element of the file `b` is compressed.
pub open spec fn first_element_compressed(b: Seq<u8>) -> bool {
    u32_at(b, 128) == COMPRESSED_MATLAB_ID
}

/// The bytes of the file `b` from the array flags of its first matrix on:
/// after the header and the first tag, or, where the first element is
/// compressed, after the tag at the start of the decompressed data.
pub open spec fn matrix_contents(b: Seq<u8>) -> Seq<u8> {
    if first_element_compressed(b) {
        zlib_decoded(b.skip(136)).unwrap().skip(8)
    } else {
        b.skip(136)
    }
}

/// The bytes of the dimensions element of the first matrix of `b`.
pub open spec fn dims_part(b: Seq<u8>) -> Seq<u8> {
    matrix_contents(b).skip(16)
}

/// The bytes of the name element of the first matrix of `b`.
pub open spec fn name_part(b: Seq<u8>) -> Seq<u8> {
    dims_part(b).skip(element_total(dims_part(b)) as int)
}

/// The bytes of the numeric data element of the first matrix of `b`.
pub open spec fn data_part(b: Seq<u8>) -> Seq<u8> {
    name_part(b).skip(element_total(name_part(b)) as int)
}

/// The error that `parse_mat_bytes` reports for the file `b`, if any.
pub open spec fn mat_error(b: Seq<u8>) -> Option<ParseError> {
    if header_error(b) is Some {
        header_error(b)
    } else if b.len() < 136 {
        Some(ParseError::Incomplete)
    } else if first_element_compressed(b) && zlib_decoded(b.skip(136)) is None {
        Some(ParseError::Decompression)
    } else if first_element_compressed(b) && zlib_decoded(b.skip(136)).unwrap().len() < 8 {
        Some(ParseError::Incomplete)
    } else if matrix_contents(b).len() < 16 {
        Some(ParseError::Incomplete)
    } else if !element_ok(dims_part(b)) {
        Some(ParseError::Incomplete)
    } else if name_error(name_part(b)) is Some {
        name_error(name_part(b))
    } else if !element_ok(data_part(b)) {
        Some(ParseError::Incomplete)
    } else {
        None
    }
}

/// Reads the header of a MAT-file and the first array in it: its tag
/// (decompressing the element when it is compressed), array flags,
/// dimensions, name and numeric data.
pub fn parse_mat_bytes(bytes: &[u8]) -> (r: Result<MatContents, ParseError>)
    ensures
        mat_error(bytes@) is None <==> r is Ok,
        match r {
            Ok(c) => {
                &&& header_read_from(c.header, bytes@)
                &&& data_type_read_from(c.data_type, bytes@.skip(128))
                &&& if first_element_compressed(bytes@) {
                    &&& c.decompressed_data_type is Some
                    &&& data_type_read_from(
                        c.decompressed_data_type.unwrap(),
                        zlib_decoded(bytes@.skip(136)).unwrap(),
                    )
                } else {
                    c.decompressed_data_type is None
                }
                &&& flags_read_from(c.array_flags, matrix_contents(bytes@))
                &&& dims_read_from(c.dimensions, dims_part(bytes@))
                &&& name_read_from(c.array_name, name_part(bytes@))
                &&& data_read_from(c.array_data, data_part(bytes@))
            },
            Err(e) => mat_error(bytes@) == Some(e),
        },
{
    let (rest, header) = read_header_information(bytes)?;
    let ghost after_header = rest@;
    let (rest, data_type) = read_overall_datatype_header(rest)?;
    assert(rest@ =~= bytes@.skip(136));
    assert(after_header.subrange(0, 4) =~= bytes@.subrange(128, 132));
    // check for compressed data
    let compressed = data_type.dtype_integer == COMPRESSED_MATLAB_ID;
    let decoded: Vec<u8> = if compressed {
        match zlib_decompress(rest) {
            Ok(v) => v,
            Err(_) => {
                return Err(ParseError::Decompression);
            },
        }
    } else {
        Vec::new()
    };
    let (contents, decompressed_data_type) = if compressed {
        let (tmp, new_data_type) = read_overall_datatype_header(decoded.as_slice())?;
        (tmp, Some(new_data_type))
    } else {
        (rest, None)
    };
    assert(contents@ =~= matrix_contents(bytes@));
    let (rest, array_flags) = read_array_flags(contents)?;
    assert(rest@ =~= dims_part(bytes@));
    let (rest, dimensions) = read_dimensions(rest)?;
    let (rest, array_name) = read_array_name(rest)?;
    let (_rest, array_data) = read_array_data(rest)?;
    Ok(
        MatContents {
            header,
            data_type,
            decompressed_data_type,
            array_flags,
            dimensions,
            array_name,
            array_data,
        },
    )
}

} // verus!
