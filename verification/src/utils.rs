//! The pieces of a MAT-file that every array shares: the file header, the
//! array name and dimension elements, and the padding between elements.
use vstd::prelude::*;
use crate::bytes::{
    le_seq, lemma_le_seq_len, padding_len, push_le, push_slice, push_u32, push_zeros, str_bytes,
    tag_bytes, zeros,
};
use crate::num::Num;

verus! {

/// The bytes of the element that names an array: a tag of type `miINT8`
/// (1) giving the length of the name, the name itself, and padding.
pub open spec fn array_name_bytes(name: Seq<u8>) -> Seq<u8> {
    tag_bytes(1, name.len()) + name + zeros(padding_len(name.len()))
}

/// Each dimension as four little-endian bytes, in order.
pub open spec fn dims_le_bytes(dims: Seq<usize>) -> Seq<u8>
    decreases dims.len(),
{
    if dims.len() == 0 {
        Seq::empty()
    } else {
        dims_le_bytes(dims.drop_last()) + le_seq(dims.last() as nat, 4)
    }
}

/// The bytes of the dimensions element: a tag of type `miINT32` (5) giving
/// four bytes per dimension, the dimensions, and padding.
pub open spec fn dimensions_bytes(dims: Seq<usize>) -> Seq<u8> {
    tag_bytes(5, 4 * dims.len()) + dims_le_bytes(dims) + zeros(padding_len(4 * dims.len()))
}

/// The 116 byte descriptive text at the start of a file: the text, then
/// spaces.
pub open spec fn text_header_bytes(text: Seq<u8>) -> Seq<u8> {
    text + Seq::new((116 - text.len()) as nat, |i: int| 32u8)
}

/// The text that `write_default_header` puts in the file header.
pub open spec fn default_header_text() -> Seq<u8> {
    vstd::utf8::encode_utf8("default text header"@)
}

/// The 128 byte file header that `write_default_header` writes: the text,
/// eight zero bytes of subsystem offset, version `0x0100` and the endian
/// indicator `IM`.
pub open spec fn default_header_bytes() -> Seq<u8> {
    text_header_bytes(default_header_text()) + zeros(8) + seq![0x00u8, 0x01u8] + seq![
        0x49u8,
        0x4du8,
    ]
}

/// The first array flag: the array class in the low byte, and the complex,
/// global and logical bits.
pub open spec fn flag_1_value(matrix_class: u8, is_complex: bool, is_logical: bool, is_global: bool) -> int {
    matrix_class as int + (if is_complex { 2048int } else { 0 }) + (if is_logical { 512int } else { 0 })
        + (if is_global { 1024int } else { 0 })
}

/// `dims_le_bytes` has four bytes per dimension.
pub proof fn lemma_dims_le_bytes_len(dims: Seq<usize>)
    ensures
        dims_le_bytes(dims).len() == 4 * dims.len(),
    decreases dims.len(),
{
    if dims.len() > 0 {
        lemma_dims_le_bytes_len(dims.drop_last());
        lemma_le_seq_len(dims.last() as nat, 4);
    }
}

/// calculate the number of bytes that should be inserted to make the array
/// end on a 64 bit boundary
pub fn padding_bytes_required(total_bytes: usize) -> (r: usize)
    ensures
        r == padding_len(total_bytes as nat),
        r < 8,
        (total_bytes + r) % 8 == 0,
{
    let bytes_over_ending = total_bytes % 8;
    if bytes_over_ending != 0 {
        8 - bytes_over_ending
    } else {
        0
    }
}

/// Writes the zero bytes that make `total_bytes` bytes of data end on a
/// 64 bit boundary.
pub fn fill_byte_padding(writer: &mut Vec<u8>, total_bytes: usize)
    ensures
        final(writer)@ == old(writer)@ + zeros(padding_len(total_bytes as nat)),
        padding_len(total_bytes as nat) < 8,
        (total_bytes + padding_len(total_bytes as nat)) % 8 == 0,
{
    let byte_padding_required = padding_bytes_required(total_bytes);
    push_zeros(writer, byte_padding_required);
}

/// Writes the element that holds the name of an array.
pub fn write_array_name(writer: &mut Vec<u8>, array_name: &str)
    ensures
        final(writer)@ == old(writer)@ + array_name_bytes(str_bytes(array_name)),
        array_name_bytes(str_bytes(array_name)).len() % 8 == 0,
{
    let name = array_name.as_bytes();
    push_u32(writer, i8::matlab_id());
    let num_bytes = name.len();
    push_le(writer, num_bytes as u64, 4);
    push_slice(writer, name);
    fill_byte_padding(writer, num_bytes);
    proof {
        lemma_le_seq_len(1, 4);
        lemma_le_seq_len(num_bytes as nat, 4);
        assert(writer@ =~= old(writer)@ + array_name_bytes(str_bytes(array_name)));
    }
}

/// Writes the element that holds the dimensions of an array.
pub fn write_matrix_dimensions(writer: &mut Vec<u8>, dimension: &[usize])
    requires
        dimension@.len() <= usize::MAX / 4,
    ensures
        final(writer)@ == old(writer)@ + dimensions_bytes(dimension@),
        dimensions_bytes(dimension@).len() % 8 == 0,
{
    push_u32(writer, i32::matlab_id());
    let bytes_written = 4 * dimension.len();
    push_le(writer, bytes_written as u64, 4);
    let ghost start = writer@;
    let mut i: usize = 0;
    while i < dimension.len()
        invariant
            i <= dimension@.len(),
            writer@ == start + dims_le_bytes(dimension@.take(i as int)),
        decreases dimension@.len() - i,
    {
        push_le(writer, dimension[i] as u64, 4);
        i = i + 1;
        assert(dimension@.take(i as int).drop_last() =~= dimension@.take(i - 1));
        assert(writer@ =~= start + dims_le_bytes(dimension@.take(i as int)));
    }
    assert(dimension@.take(dimension@.len() as int) =~= dimension@);
    fill_byte_padding(writer, bytes_written);
    proof {
        lemma_le_seq_len(5, 4);
        lemma_le_seq_len(bytes_written as nat, 4);
        lemma_dims_le_bytes_len(dimension@);
        assert(writer@ =~= old(writer)@ + dimensions_bytes(dimension@));
    }
}

/// write some text (at most 116 bytes) to the header of a file, filling the
/// rest of the 116 bytes with spaces
pub fn write_text_header(writer: &mut Vec<u8>, text: &str)
    requires
        str_bytes(text).len() <= 116,
    ensures
        final(writer)@ == old(writer)@ + text_header_bytes(str_bytes(text)),
        text_header_bytes(str_bytes(text)).len() == 116,
{
    let bytes = text.as_bytes();
    push_slice(writer, bytes);
    let ghost start = writer@;
    let remaining_bytes = 116 - bytes.len();
    let mut i: usize = 0;
    while i < remaining_bytes
        invariant
            i <= remaining_bytes,
            writer@ == start + Seq::new(i as nat, |k: int| 32u8),
        decreases remaining_bytes - i,
    {
        writer.push(32u8);
        i = i + 1;
        assert(writer@ =~= start + Seq::new(i as nat, |k: int| 32u8));
    }
    assert(writer@ =~= old(writer)@ + text_header_bytes(str_bytes(text)));
}

/// fire-and-forget function to write a sane header to the `.mat` file
pub fn write_default_header(writer: &mut Vec<u8>)
    ensures
        final(writer)@ == old(writer)@ + default_header_bytes(),
        default_header_bytes().len() == 128,
{
    let text = "default text header";
    proof {
        reveal_strlit("default text header");
        vstd::utf8::is_ascii_chars_encode_utf8(text@);
        assert(str_bytes(text).len() == 19);
    }
    write_text_header(writer, text);
    // subsystem information
    push_u32(writer, 0);
    push_u32(writer, 0);
    // version 0x0100, little-endian
    let version: u16 = 0x0100;
    push_le(writer, version as u64, 2);
    // the endian indicator
    push_slice(writer, "IM".as_bytes());
    proof {
        reveal_strlit("IM");
        vstd::utf8::is_ascii_chars_encode_utf8("IM"@);
        assert(str_bytes("IM") =~= seq![0x49u8, 0x4du8]);
        assert(le_seq(0, 4) + le_seq(0, 4) =~= zeros(8)) by {
            reveal_with_fuel(le_seq, 5);
        }
        assert(le_seq(0x0100, 2) =~= seq![0x00u8, 0x01u8]) by {
            reveal_with_fuel(le_seq, 3);
        }
        assert(writer@ =~= old(writer)@ + default_header_bytes());
    }
}

/// create the first array flag through bit shifting
pub fn create_flag_1(matrix_class: u8, is_complex: bool, is_logical: bool, is_global: bool) -> (r: u32)
    ensures
        r == flag_1_value(matrix_class, is_complex, is_logical, is_global),
{
    let c: u32 = if is_complex { 1 } else { 0 };
    let l: u32 = if is_logical { 1 } else { 0 };
    let g: u32 = if is_global { 1 } else { 0 };
    let m: u32 = matrix_class as u32;
    let r = m ^ c << (8 + 3) ^ l << (8 + 1) ^ g << (8 + 2);
    assert(r == m + 2048 * c + 512 * l + 1024 * g) by (bit_vector)
        requires
            m < 256,
            c <= 1,
            l <= 1,
            g <= 1,
            r == m ^ c << 11u32 ^ l << 9u32 ^ g << 10u32,
    ;
    r
}

/// The layout of the first array flag: the array class in bits 0 to 7, the
/// logical bit at `0x200`, the global bit at `0x400` and the complex bit at
/// `0x800`, nothing else set.
pub proof fn lemma_flag_1_bits(matrix_class: u8, is_complex: bool, is_logical: bool, is_global: bool)
    ensures
        flag_1_value(matrix_class, is_complex, is_logical, is_global) == (matrix_class as u32) | (
        if is_logical {
            0x200u32
        } else {
            0u32
        }) | (if is_global {
            0x400u32
        } else {
            0u32
        }) | (if is_complex {
            0x800u32
        } else {
            0u32
        }),
{
    let m = matrix_class as u32;
    let c: u32 = if is_complex { 0x800 } else { 0 };
    let l: u32 = if is_logical { 0x200 } else { 0 };
    let g: u32 = if is_global { 0x400 } else { 0 };
    assert(m | l | g | c == m + c + l + g) by (bit_vector)
        requires
            m < 256,
            c == 0 || c == 0x800,
            l == 0 || l == 0x200,
            g == 0 || g == 0x400,
    ;
}

} // verus!
