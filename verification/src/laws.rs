//! What reading back gives of what was written: single elements, and whole
//! files.
use vstd::prelude::*;
use crate::array::{
    array_wf, col_major, col_major_offset, elems_bytes, index_in_bounds, lemma_col_major_len,
    lemma_col_major_order, lemma_elems_bytes_at, lemma_elems_bytes_len, row_major_offset,
    shape_product, NdArray,
};
use crate::bytes::{le_seq, le_value, lemma_le_seq_len, lemma_le_value_of_le_seq_u32, padding_len, tag_bytes, zeros};
use crate::container::{
    array_flags_bytes, lemma_matrix_bytes_len, lemma_matrix_bytes_parts, matrix_byte_count,
    matrix_bytes, matrix_head_bytes, Container, MATRIX_MATLAB_ID,
};
use crate::num::Num;
use crate::parse::{
    data_part, data_read_from, dims_read_from, flags_read_from, header_read_from, name_read_from,
    ArrayData, ArrayFlags, ArrayName, Dimensions, Header, dimension_values, dims_part, element_body, element_len, element_ok, element_total,
    first_element_compressed, header_error, mat_error, matrix_contents, name_error, name_part, u32_at,
};
use crate::utils::{
    array_name_bytes, default_header_bytes, default_header_text, dimensions_bytes, dims_le_bytes,
    flag_1_value, lemma_dims_le_bytes_len, text_header_bytes,
};

verus! {

/// Reading the four bytes of `le_seq(v, 4)` at `pos` gives `v` modulo
/// `2^32`.
proof fn lemma_u32_at_of(s: Seq<u8>, pos: int, v: nat)
    requires
        0 <= pos,
        pos + 4 <= s.len(),
        s.subrange(pos, pos + 4) == le_seq(v, 4),
    ensures
        u32_at(s, pos) == v % 0x1_0000_0000,
{
    lemma_le_value_of_le_seq_u32(v);
}

/// An element built from a tag, a body shorter than `2^32` bytes and its
/// padding reads back as that body, followed by whatever comes after it.
proof fn lemma_element_of(t: nat, body: Seq<u8>, rest: Seq<u8>)
    requires
        body.len() < 0x1_0000_0000,
    ensures
        ({
            let s = tag_bytes(t, body.len()) + body + zeros(padding_len(body.len())) + rest;
            &&& element_ok(s)
            &&& element_len(s) == body.len()
            &&& element_body(s) == body
            &&& element_total(s) == 8 + body.len() + padding_len(body.len())
            &&& s.skip(element_total(s) as int) == rest
            &&& u32_at(s, 0) == t % 0x1_0000_0000
        }),
{
    let s = tag_bytes(t, body.len()) + body + zeros(padding_len(body.len())) + rest;
    lemma_le_seq_len(t, 4);
    lemma_le_seq_len(body.len(), 4);
    assert(s.subrange(0, 4) =~= le_seq(t, 4));
    assert(s.subrange(4, 8) =~= le_seq(body.len(), 4));
    lemma_u32_at_of(s, 0, t);
    lemma_u32_at_of(s, 4, body.len());
    assert(element_body(s) =~= body);
    assert(s.skip(element_total(s) as int) =~= rest);
}

/// The four bytes of dimension `i` in `dims_le_bytes(shape)`.
proof fn lemma_dims_le_bytes_at(shape: Seq<usize>, i: int)
    requires
        0 <= i < shape.len(),
    ensures
        dims_le_bytes(shape).subrange(4 * i, 4 * i + 4) == le_seq(shape[i] as nat, 4),
    decreases shape.len(),
{
    lemma_dims_le_bytes_len(shape.drop_last());
    lemma_le_seq_len(shape.last() as nat, 4);
    let prefix = dims_le_bytes(shape.drop_last());
    if i == shape.len() - 1 {
        assert(dims_le_bytes(shape).subrange(4 * i, 4 * i + 4) =~= le_seq(shape.last() as nat, 4));
    } else {
        lemma_dims_le_bytes_at(shape.drop_last(), i);
        assert(dims_le_bytes(shape).subrange(4 * i, 4 * i + 4) =~= prefix.subrange(4 * i, 4 * i + 4));
    }
}

/// The dimensions read back from `dims_le_bytes(shape)`: each dimension
/// modulo `2^32`, as an `i32`.
pub proof fn lemma_dimension_values_of(shape: Seq<usize>)
    ensures
        dimension_values(dims_le_bytes(shape)) == Seq::new(
            shape.len(),
            |i: int| ((shape[i] as nat % 0x1_0000_0000) as u32) as i32,
        ),
{
    let b = dims_le_bytes(shape);
    lemma_dims_le_bytes_len(shape);
    assert forall|i: int| 0 <= i < shape.len() implies dimension_values(b)[i] == ((shape[i] as nat
        % 0x1_0000_0000) as u32) as i32 by {
        lemma_dims_le_bytes_at(shape, i);
        lemma_u32_at_of(b, 4 * i, shape[i] as nat);
    }
    assert(dimension_values(b) =~= Seq::new(
        shape.len(),
        |i: int| ((shape[i] as nat % 0x1_0000_0000) as u32) as i32,
    ));
}

/// The header that `write_default_header` writes is one that a reader
/// accepts: its text and its endian indicator are UTF-8.
proof fn lemma_default_header_readable()
    ensures
        default_header_bytes().len() == 128,
        default_header_bytes().subrange(0, 116) == text_header_bytes(default_header_text()),
        vstd::utf8::valid_utf8(default_header_bytes().subrange(0, 116)),
        vstd::utf8::valid_utf8(default_header_bytes().subrange(126, 128)),
        default_header_bytes().subrange(0, 116) == vstd::utf8::encode_utf8(
            "default text header"@ + Seq::new(97, |i: int| ' '),
        ),
        default_header_bytes().subrange(126, 128) == vstd::utf8::encode_utf8(seq!['I', 'M']),
{
    reveal_strlit("default text header");
    let text = "default text header"@;
    vstd::utf8::is_ascii_chars_encode_utf8(text);
    let chars = text + Seq::new(97, |i: int| ' ');
    assert(vstd::utf8::is_ascii_chars(chars));
    vstd::utf8::is_ascii_chars_encode_utf8(chars);
    let h = default_header_bytes();
    assert(text_header_bytes(default_header_text()) =~= vstd::utf8::encode_utf8(chars));
    assert(h.subrange(0, 116) =~= text_header_bytes(default_header_text()));
    vstd::utf8::encode_utf8_valid_utf8(chars);
    let im = seq!['I', 'M'];
    assert(vstd::utf8::is_ascii_chars(im));
    vstd::utf8::is_ascii_chars_encode_utf8(im);
    assert(h.subrange(126, 128) =~= vstd::utf8::encode_utf8(im));
    vstd::utf8::encode_utf8_valid_utf8(im);
}

/// A data element: tag, body and padding.
spec fn element_bytes(t: nat, body: Seq<u8>) -> Seq<u8> {
    tag_bytes(t, body.len()) + body + zeros(padding_len(body.len()))
}

/// After 16 bytes of array flags, three elements read back one after the
/// other.
proof fn lemma_three_elements(c: Seq<u8>, flags: Seq<u8>, db: Seq<u8>, nb: Seq<u8>, t: nat, eb: Seq<u8>)
    requires
        c == flags + (element_bytes(5, db) + (element_bytes(1, nb) + element_bytes(t, eb))),
        flags.len() == 16,
        db.len() < 0x1_0000_0000,
        nb.len() < 0x1_0000_0000,
        eb.len() < 0x1_0000_0000,
    ensures
        ({
            let d = c.skip(16);
            let na = d.skip(element_total(d) as int);
            let da = na.skip(element_total(na) as int);
            &&& c.len() >= 16
            &&& c.subrange(8, 12) == flags.subrange(8, 12)
            &&& element_ok(d)
            &&& element_body(d) == db
            &&& element_ok(na)
            &&& element_body(na) == nb
            &&& element_ok(da)
            &&& u32_at(da, 0) == t % 0x1_0000_0000
            &&& element_body(da) == eb
        }),
{
    let e1 = element_bytes(5, db);
    let e2 = element_bytes(1, nb);
    let e3 = element_bytes(t, eb);
    assert(c.subrange(8, 12) =~= flags.subrange(8, 12));
    let d = c.skip(16);
    assert(d =~= e1 + (e2 + e3));
    lemma_element_of(5, db, e2 + e3);
    let na = d.skip(element_total(d) as int);
    lemma_element_of(1, nb, e3);
    lemma_element_of(t, eb, Seq::empty());
    assert(e3 + Seq::<u8>::empty() =~= e3);
}

/// The parts of a matrix element after its tag read back as the array
/// flags, dimensions, name and numeric data that were written.
#[verifier::rlimit(40)]
proof fn lemma_matrix_body<T: Num>(shape: Seq<usize>, data: Seq<T>, nm: Seq<u8>)
    requires
        array_wf(shape, data),
        nm.len() < 0x1_0000_0000,
        data.len() * T::spec_width() < 0x1_0000_0000,
    ensures
        ({
            let c = matrix_bytes(shape, data, nm).skip(8);
            let d = c.skip(16);
            let na = d.skip(element_total(d) as int);
            let da = na.skip(element_total(na) as int);
            &&& c.len() >= 16
            &&& u32_at(c, 8) == T::spec_matrix_id()
            &&& element_ok(d)
            &&& element_body(d) == dims_le_bytes(shape)
            &&& element_ok(na)
            &&& element_body(na) == nm
            &&& element_ok(da)
            &&& u32_at(da, 0) == T::spec_matlab_id()
            &&& element_body(da) == elems_bytes(col_major(data, shape))
        }),
{
    let n = data.len() * T::spec_width();
    let m = matrix_bytes(shape, data, nm);
    let head = tag_bytes(MATRIX_MATLAB_ID as nat, matrix_byte_count(nm.len(), shape.len(), n));
    lemma_le_seq_len(MATRIX_MATLAB_ID as nat, 4);
    lemma_le_seq_len(matrix_byte_count(nm.len(), shape.len(), n), 4);
    let flags = array_flags_bytes::<T>();
    lemma_le_seq_len(6, 4);
    lemma_le_seq_len(8, 4);
    lemma_le_seq_len(flag_1_value(T::spec_matrix_id(), false, false, false) as nat, 4);
    lemma_le_seq_len(0, 4);
    let elems = elems_bytes(col_major(data, shape));
    lemma_dims_le_bytes_len(shape);
    lemma_col_major_len(data, shape, 0, 1);
    lemma_elems_bytes_len(col_major(data, shape));
    let dims = element_bytes(5, dims_le_bytes(shape));
    let name_el = element_bytes(1, nm);
    let data_el = element_bytes(T::spec_matlab_id() as nat, elems);
    assert(dimensions_bytes(shape) == dims);
    assert(array_name_bytes(nm) == name_el);
    let c = m.skip(8);
    assert(c =~= flags + (dims + (name_el + data_el))) by {
        assert(m =~= head + flags + dimensions_bytes(shape) + array_name_bytes(nm) + data_el);
    }
    lemma_three_elements(c, flags, dims_le_bytes(shape), nm, T::spec_matlab_id() as nat, elems);
    assert(flags.subrange(8, 12) =~= le_seq(
        flag_1_value(T::spec_matrix_id(), false, false, false) as nat,
        4,
    ));
    lemma_u32_at_of(c, 8, T::spec_matrix_id() as nat);
}

/// Reading back a file made of the default header and one matrix element
/// succeeds and gives back what was written: the matrix is not taken for a
/// compressed element, the array flags hold the array class, and the
/// dimensions, the name and the numeric data elements hold the shape, the
/// name and the elements in column-major order. Lengths that a tag cannot
/// hold (2^32 bytes or more) are left out.
pub proof fn lemma_parse_after_write<T: Num>(shape: Seq<usize>, data: Seq<T>, name: Seq<char>)
    requires
        array_wf(shape, data),
        vstd::utf8::encode_utf8(name).len() < 0x1_0000_0000,
        data.len() * T::spec_width() < 0x1_0000_0000,
    ensures
        ({
            let b = default_header_bytes() + matrix_bytes(shape, data, vstd::utf8::encode_utf8(name));
            &&& mat_error(b) is None
            &&& !first_element_compressed(b)
            &&& u32_at(matrix_contents(b), 0) == 6
            &&& u32_at(matrix_contents(b), 4) == 8
            &&& u32_at(matrix_contents(b), 8) == T::spec_matrix_id()
            &&& u32_at(matrix_contents(b), 12) == 0
            &&& dimension_values(element_body(dims_part(b))) == Seq::new(
                shape.len(),
                |i: int| ((shape[i] as nat % 0x1_0000_0000) as u32) as i32,
            )
            &&& element_body(name_part(b)) == vstd::utf8::encode_utf8(name)
            &&& vstd::utf8::decode_utf8(element_body(name_part(b))) == name
            &&& u32_at(data_part(b), 0) == T::spec_matlab_id()
            &&& element_body(data_part(b)) == elems_bytes(col_major(data, shape))
        }),
{
    let nm = vstd::utf8::encode_utf8(name);
    let h = default_header_bytes();
    let m = matrix_bytes(shape, data, nm);
    let b = h + m;
    lemma_default_header_readable();
    assert(header_error(b) is None) by {
        assert(b.subrange(0, 116) =~= h.subrange(0, 116));
        assert(b.subrange(126, 128) =~= h.subrange(126, 128));
    }
    lemma_le_seq_len(MATRIX_MATLAB_ID as nat, 4);
    assert(!first_element_compressed(b)) by {
        assert(b.subrange(128, 132) =~= le_seq(MATRIX_MATLAB_ID as nat, 4));
        lemma_u32_at_of(b, 128, MATRIX_MATLAB_ID as nat);
    }
    lemma_matrix_body(shape, data, nm);
    lemma_matrix_flags(shape, data, nm);
    assert(matrix_contents(b) =~= m.skip(8));
    lemma_dimension_values_of(shape);
    vstd::utf8::encode_utf8_valid_utf8(name);
    vstd::utf8::encode_utf8_decode_utf8(name);
}

/// The array flags of a written matrix element read back as `miUINT32`
/// (6), 8 bytes, the array class of `T` with no complex, global or logical
/// bit, and a zero second flag.
pub proof fn lemma_matrix_flags<T: Num>(shape: Seq<usize>, data: Seq<T>, name: Seq<u8>)
    ensures
        ({
            let c = matrix_bytes(shape, data, name).skip(8);
            &&& c.len() >= 16
            &&& u32_at(c, 0) == 6
            &&& u32_at(c, 4) == 8
            &&& u32_at(c, 8) == T::spec_matrix_id()
            &&& u32_at(c, 12) == 0
        }),
{
    let n = data.len() * T::spec_width();
    let m = matrix_bytes(shape, data, name);
    let head = tag_bytes(MATRIX_MATLAB_ID as nat, matrix_byte_count(name.len(), shape.len(), n));
    lemma_le_seq_len(MATRIX_MATLAB_ID as nat, 4);
    lemma_le_seq_len(matrix_byte_count(name.len(), shape.len(), n), 4);
    let flags = array_flags_bytes::<T>();
    lemma_le_seq_len(6, 4);
    lemma_le_seq_len(8, 4);
    lemma_le_seq_len(flag_1_value(T::spec_matrix_id(), false, false, false) as nat, 4);
    lemma_le_seq_len(0, 4);
    let rest = dimensions_bytes(shape) + array_name_bytes(name) + tag_bytes(T::spec_matlab_id() as nat, n)
        + elems_bytes(col_major(data, shape)) + zeros(padding_len(n));
    let c = m.skip(8);
    assert(c =~= flags + rest) by {
        assert(m =~= head + flags + dimensions_bytes(shape) + array_name_bytes(name) + tag_bytes(
            T::spec_matlab_id() as nat,
            n,
        ) + elems_bytes(col_major(data, shape)) + zeros(padding_len(n)));
    }
    assert(c.subrange(0, 4) =~= le_seq(6, 4));
    assert(c.subrange(4, 8) =~= le_seq(8, 4));
    assert(c.subrange(8, 12) =~= le_seq(
        flag_1_value(T::spec_matrix_id(), false, false, false) as nat,
        4,
    ));
    assert(c.subrange(12, 16) =~= le_seq(0, 4));
    lemma_u32_at_of(c, 0, 6);
    lemma_u32_at_of(c, 4, 8);
    lemma_u32_at_of(c, 8, T::spec_matrix_id() as nat);
    lemma_u32_at_of(c, 12, 0);
}

/// Reading back a file made of the default header and a vector of `n`
/// values written as a container gives back the vector: one dimension of
/// its length, the name, and the values in order. Lengths that a tag cannot
/// hold are left out, and so are vectors larger than an allocation can be.
pub proof fn lemma_parse_after_write_vector<T: Num>(v: Seq<T>, n: usize, name: Seq<char>)
    requires
        v.len() == n,
        vstd::utf8::encode_utf8(name).len() < 0x1_0000_0000,
        n * T::spec_width() < 0x1_0000_0000,
        n * T::spec_width() <= isize::MAX,
    ensures
        ({
            let b = default_header_bytes() + matrix_bytes(seq![n], v, vstd::utf8::encode_utf8(name));
            &&& mat_error(b) is None
            &&& u32_at(matrix_contents(b), 8) == T::spec_matrix_id()
            &&& dimension_values(element_body(dims_part(b))) == seq![
                ((n as nat % 0x1_0000_0000) as u32) as i32,
            ]
            &&& vstd::utf8::decode_utf8(element_body(name_part(b))) == name
            &&& u32_at(data_part(b), 0) == T::spec_matlab_id()
            &&& element_body(data_part(b)) == elems_bytes(v)
        }),
{
    let shape = seq![n];
    assert(shape.drop_last() =~= Seq::<usize>::empty());
    assert(shape.last() == n);
    assert(crate::array::shape_product(Seq::<usize>::empty()) == 1);
    assert(crate::array::shape_product(shape) == crate::array::shape_product(Seq::<usize>::empty()) * (n as nat));
    assert(1 * (n as nat) == n) by (nonlinear_arith);
    assert(crate::array::shape_product(shape) == n);
    lemma_parse_after_write(shape, v, name);
    crate::container::lemma_col_major_1d(v, n);
    let b = default_header_bytes() + matrix_bytes(shape, v, vstd::utf8::encode_utf8(name));
    assert(dimension_values(element_body(dims_part(b))) =~= seq![
        ((n as nat % 0x1_0000_0000) as u32) as i32,
    ]);
}

/// Reading a dimensions element followed by anything else: it is whole,
/// of type `miINT32` (5), with four bytes per dimension and the padding
/// after them, each dimension reads back modulo `2^32` as an `i32`, and
/// what follows it is left over. Shapes whose dimension bytes a tag cannot
/// hold (2^32 or more) are left out.
pub proof fn lemma_dimensions_read_back(dims: Seq<usize>, tail: Seq<u8>)
    requires
        4 * dims.len() < 0x1_0000_0000,
    ensures
        ({
            let b = dimensions_bytes(dims) + tail;
            &&& element_ok(b)
            &&& u32_at(b, 0) == 5
            &&& element_len(b) == 4 * dims.len()
            &&& element_body(b) == dims_le_bytes(dims)
            &&& dimension_values(element_body(b)) == Seq::new(
                dims.len(),
                |i: int| ((dims[i] as nat % 0x1_0000_0000) as u32) as i32,
            )
            &&& element_total(b) == 8 + 4 * dims.len() + padding_len(4 * dims.len())
            &&& b.skip(element_total(b) as int) == tail
        }),
{
    lemma_dims_le_bytes_len(dims);
    assert(dimensions_bytes(dims) == element_bytes(5, dims_le_bytes(dims)));
    lemma_element_of(5, dims_le_bytes(dims), tail);
    lemma_dimension_values_of(dims);
}

/// Reading a name element followed by anything else: it is whole, of type
/// `miINT8` (1), its body is the name's UTF-8 bytes, which decode to the
/// name, so that reading it reports no error, and what follows it is left
/// over. Names of 2^32 bytes or more, which a tag cannot hold, are left out.
pub proof fn lemma_array_name_read_back(name: Seq<char>, tail: Seq<u8>)
    requires
        vstd::utf8::encode_utf8(name).len() < 0x1_0000_0000,
    ensures
        ({
            let nm = vstd::utf8::encode_utf8(name);
            let b = array_name_bytes(nm) + tail;
            &&& name_error(b) is None
            &&& u32_at(b, 0) == 1
            &&& element_len(b) == nm.len()
            &&& element_body(b) == nm
            &&& vstd::utf8::decode_utf8(element_body(b)) == name
            &&& element_total(b) == 8 + nm.len() + padding_len(nm.len())
            &&& b.skip(element_total(b) as int) == tail
        }),
{
    let nm = vstd::utf8::encode_utf8(name);
    assert(array_name_bytes(nm) == element_bytes(1, nm));
    lemma_element_of(1, nm, tail);
    vstd::utf8::encode_utf8_valid_utf8(name);
    vstd::utf8::encode_utf8_decode_utf8(name);
}

/// Reading the array flags element that a matrix of `T` carries, followed by
/// anything else: type `miUINT32` (6), 8 bytes, the class of `T` with no
/// complex, global or logical bit, a zero second flag, and what follows is
/// left over.
pub proof fn lemma_array_flags_read_back<T: Num>(tail: Seq<u8>)
    ensures
        ({
            let b = array_flags_bytes::<T>() + tail;
            &&& b.len() >= 16
            &&& u32_at(b, 0) == 6
            &&& u32_at(b, 4) == 8
            &&& u32_at(b, 8) == T::spec_matrix_id()
            &&& u32_at(b, 12) == 0
            &&& b.skip(16) == tail
        }),
{
    let f = array_flags_bytes::<T>();
    lemma_le_seq_len(6, 4);
    lemma_le_seq_len(8, 4);
    lemma_le_seq_len(flag_1_value(T::spec_matrix_id(), false, false, false) as nat, 4);
    lemma_le_seq_len(0, 4);
    let b = f + tail;
    assert(b.subrange(0, 4) =~= le_seq(6, 4));
    assert(b.subrange(4, 8) =~= le_seq(8, 4));
    assert(b.subrange(8, 12) =~= le_seq(
        flag_1_value(T::spec_matrix_id(), false, false, false) as nat,
        4,
    ));
    assert(b.subrange(12, 16) =~= le_seq(0, 4));
    lemma_u32_at_of(b, 0, 6);
    lemma_u32_at_of(b, 4, 8);
    lemma_u32_at_of(b, 8, T::spec_matrix_id() as nat);
    lemma_u32_at_of(b, 12, 0);
    assert(b.skip(16) =~= tail);
}

/// Where the parts of a matrix element stand in its bytes: the matrix tag
/// at the start, recording the number of bytes after it; the tag of the
/// numeric data just before the values; the values in column-major order;
/// then the padding, which ends the element on a 64 bit boundary.
proof fn lemma_matrix_layout<T: Num>(shape: Seq<usize>, data: Seq<T>, name: Seq<u8>)
    requires
        data.len() == shape_product(shape),
    ensures
        ({
            let c = matrix_bytes(shape, data, name);
            let n = data.len() * T::spec_width();
            let start = c.len() - padding_len(n) - n;
            &&& c.len() % 8 == 0
            &&& 8 <= start
            &&& u32_at(c, 0) == MATRIX_MATLAB_ID
            &&& u32_at(c, 4) == (c.len() - 8) % 0x1_0000_0000
            &&& u32_at(c, start - 8) == T::spec_matlab_id()
            &&& u32_at(c, start - 4) == n % 0x1_0000_0000
            &&& c.subrange(start, start + n) == elems_bytes(col_major(data, shape))
            &&& c.subrange(start + n, c.len() as int) == zeros(padding_len(n))
        }),
{
    let n = data.len() * T::spec_width();
    let c = matrix_bytes(shape, data, name);
    let count = matrix_byte_count(name.len(), shape.len(), n);
    let tag = tag_bytes(MATRIX_MATLAB_ID as nat, count);
    let mid = array_flags_bytes::<T>() + dimensions_bytes(shape) + array_name_bytes(name);
    let dtag = tag_bytes(T::spec_matlab_id() as nat, n);
    let el = elems_bytes(col_major(data, shape));
    let z = zeros(padding_len(n));
    lemma_matrix_bytes_parts(shape, data, name);
    lemma_matrix_bytes_len(shape, data, name);
    assert(matrix_head_bytes::<T>(shape, data.len(), name) =~= tag + mid + dtag);
    assert(c == tag + mid + dtag + el + z);
    lemma_le_seq_len(MATRIX_MATLAB_ID as nat, 4);
    lemma_le_seq_len(count, 4);
    lemma_le_seq_len(T::spec_matlab_id() as nat, 4);
    lemma_le_seq_len(n, 4);
    lemma_col_major_len(data, shape, 0, 1);
    lemma_elems_bytes_len(col_major(data, shape));
    let start = (tag + mid + dtag).len() as int;
    assert(start == c.len() - padding_len(n) - n);
    assert(c.subrange(0, 4) =~= le_seq(MATRIX_MATLAB_ID as nat, 4));
    assert(c.subrange(4, 8) =~= le_seq(count, 4));
    assert(c.subrange(start - 8, start - 4) =~= le_seq(T::spec_matlab_id() as nat, 4));
    assert(c.subrange(start - 4, start) =~= le_seq(n, 4));
    lemma_u32_at_of(c, 0, MATRIX_MATLAB_ID as nat);
    lemma_u32_at_of(c, 4, count);
    lemma_u32_at_of(c, start - 8, T::spec_matlab_id() as nat);
    lemma_u32_at_of(c, start - 4, n);
    assert(c.subrange(start, start + n) =~= el);
    assert(c.subrange(start + n, c.len() as int) =~= z);
}

/// The padding at the end of an element is zero bytes.
proof fn lemma_padding_zeros(c: Seq<u8>, n: nat)
    requires
        padding_len(n) + n <= c.len(),
        c.subrange(c.len() - padding_len(n), c.len() as int) == zeros(padding_len(n)),
    ensures
        forall|k: int| c.len() - padding_len(n) <= k < c.len() ==> #[trigger] c[k] == 0,
{
    assert forall|k: int| c.len() - padding_len(n) <= k < c.len() implies #[trigger] c[k] == 0 by {
        let z = c.subrange(c.len() - padding_len(n), c.len() as int);
        assert(z[k - (c.len() - padding_len(n))] == c[k]);
    }
}

/// The bytes that `write_container` appends for an array: a matrix element
/// whose tag records the number of bytes that follow it (modulo `2^32`, the
/// tag having four bytes for it), which ends on a 64 bit boundary, and whose
/// numeric data, after their tag, hold the element at every multi-index
/// `idx` in bounds at its column-major position, followed by zero padding.
pub proof fn lemma_array_container_layout<T: Num>(a: NdArray<T>, name: Seq<u8>, idx: Seq<int>)
    requires
        a@.1.len() == shape_product(a@.0),
    ensures
        ({
            let c = a.spec_container_bytes(name);
            let w = T::spec_width();
            let n = a@.1.len() * w;
            let start = c.len() - padding_len(n) - n;
            let p = col_major_offset(idx, a@.0);
            &&& c.len() % 8 == 0
            &&& 8 <= start
            &&& u32_at(c, 0) == MATRIX_MATLAB_ID
            &&& u32_at(c, 4) == (c.len() - 8) % 0x1_0000_0000
            &&& u32_at(c, start - 8) == T::spec_matlab_id()
            &&& u32_at(c, start - 4) == n % 0x1_0000_0000
            &&& index_in_bounds(idx, a@.0) ==> c.subrange(start + p * w, start + p * w + w)
                == a@.1[row_major_offset(idx, a@.0)].spec_le_bytes()
            &&& c.len() - (start + n) == padding_len(n)
            &&& forall|k: int| start + n <= k < c.len() ==> #[trigger] c[k] == 0
        }),
{
    let shape = a@.0;
    let data = a@.1;
    let c = a.spec_container_bytes(name);
    assert(c == matrix_bytes(shape, data, name));
    lemma_matrix_layout(shape, data, name);
    lemma_padding_zeros(c, data.len() * T::spec_width());
    if index_in_bounds(idx, shape) {
        let w = T::spec_width() as int;
        let n = data.len() * T::spec_width();
        let start = c.len() - padding_len(n) - n;
        let p = col_major_offset(idx, shape);
        let el = elems_bytes(col_major(data, shape));
        lemma_col_major_order(data, shape, idx);
        lemma_elems_bytes_at(col_major(data, shape), p);
        assert(c.subrange(start + p * w, start + p * w + w) =~= el.subrange(p * w, p * w + w));
    }
}

/// The bytes that `write_container` appends for a vector: a matrix element
/// whose tag records the number of bytes that follow it (modulo `2^32`),
/// which ends on a 64 bit boundary, and whose numeric data, after their tag,
/// hold value `i` at position `i`, followed by zero padding.
pub proof fn lemma_vector_container_layout<T: Num>(v: Vec<T>, name: Seq<u8>, i: int)
    requires
        v@.len() <= usize::MAX,
    ensures
        ({
            let c = v.spec_container_bytes(name);
            let w = T::spec_width();
            let n = v@.len() * w;
            let start = c.len() - padding_len(n) - n;
            &&& c.len() % 8 == 0
            &&& 8 <= start
            &&& u32_at(c, 0) == MATRIX_MATLAB_ID
            &&& u32_at(c, 4) == (c.len() - 8) % 0x1_0000_0000
            &&& u32_at(c, start - 8) == T::spec_matlab_id()
            &&& u32_at(c, start - 4) == n % 0x1_0000_0000
            &&& 0 <= i < v@.len() ==> c.subrange(start + i * w, start + i * w + w)
                == v@[i].spec_le_bytes()
            &&& c.len() - (start + n) == padding_len(n)
            &&& forall|k: int| start + n <= k < c.len() ==> #[trigger] c[k] == 0
        }),
{
    let len = v@.len() as usize;
    let shape = seq![len];
    let c = v.spec_container_bytes(name);
    assert(c == matrix_bytes(shape, v@, name));
    assert(shape.drop_last() =~= Seq::<usize>::empty());
    assert(shape_product(Seq::<usize>::empty()) == 1);
    assert(shape_product(shape) == shape_product(Seq::<usize>::empty()) * (len as nat));
    assert(1 * (len as nat) == len) by (nonlinear_arith);
    lemma_matrix_layout(shape, v@, name);
    lemma_padding_zeros(c, v@.len() * T::spec_width());
    crate::container::lemma_col_major_1d(v@, len);
    if 0 <= i < v@.len() {
        let w = T::spec_width() as int;
        let n = v@.len() * T::spec_width();
        let start = c.len() - padding_len(n) - n;
        lemma_elems_bytes_at(v@, i);
        assert(c.subrange(start + i * w, start + i * w + w) =~= elems_bytes(v@).subrange(
            i * w,
            i * w + w,
        ));
    }
}

/// A dimension below `2^31` that went through the four bytes of a
/// dimensions element reads back unchanged.
proof fn lemma_small_dimension(x: usize)
    requires
        x <= i32::MAX,
    ensures
        ((x as nat % 0x1_0000_0000) as u32) as i32 == x,
{
    vstd::arithmetic::div_mod::lemma_small_mod(x as nat, 0x1_0000_0000);
}

/// `read_dimensions` on a written dimensions element, followed by anything
/// else, gives back as many dimensions as were written, and each one below
/// `2^31` unchanged. Shapes whose dimension bytes a tag cannot hold (2^32
/// or more) are left out.
pub proof fn lemma_dimensions_round_trip(dims: Seq<usize>, tail: Seq<u8>, d: Dimensions)
    requires
        4 * dims.len() < 0x1_0000_0000,
        dims_read_from(d, dimensions_bytes(dims) + tail),
    ensures
        d.dimension_sizes@.len() == dims.len(),
        forall|i: int|
            0 <= i < dims.len() && dims[i] <= i32::MAX ==> #[trigger] d.dimension_sizes@[i] == dims[i],
{
    lemma_dimensions_read_back(dims, tail);
    assert forall|i: int| 0 <= i < dims.len() && dims[i] <= i32::MAX implies #[trigger] d.dimension_sizes@[i]
        == dims[i] by {
        lemma_small_dimension(dims[i]);
    }
}

/// Writing the default header and then an array as a container, and reading
/// the bytes back with `parse_mat_bytes`, succeeds, and what is read is what
/// was written: array flags of `miUINT32` (6), 8 bytes, the class of `T` and
/// a zero second flag; as many dimensions as the array has, each one below
/// `2^31` unchanged; the name; and numeric data of `T`'s type whose bytes
/// hold, for every multi-index `idx` in bounds, the element at `idx` at its
/// column-major position. Lengths that a tag cannot hold (2^32 bytes or
/// more) are left out.
pub proof fn lemma_array_read_back<T: Num>(a: NdArray<T>, name: Seq<char>, idx: Seq<int>)
    requires
        array_wf(a@.0, a@.1),
        vstd::utf8::encode_utf8(name).len() < 0x1_0000_0000,
        a@.1.len() * T::spec_width() < 0x1_0000_0000,
    ensures
        ({
            let b = default_header_bytes() + a.spec_container_bytes(vstd::utf8::encode_utf8(name));
            let shape = a@.0;
            let w = T::spec_width();
            let p = col_major_offset(idx, shape);
            &&& mat_error(b) is None
            &&& forall|f: ArrayFlags| #[trigger]
                flags_read_from(f, matrix_contents(b)) ==> {
                    &&& f.array_flag_type == 6
                    &&& f.array_flag_length == 8
                    &&& f.flag_1 == T::spec_matrix_id()
                    &&& f.flag_2 == 0
                }
            &&& forall|d: Dimensions| #[trigger]
                dims_read_from(d, dims_part(b)) ==> {
                    &&& d.dimension_sizes@.len() == shape.len()
                    &&& forall|i: int|
                        0 <= i < shape.len() && shape[i] <= i32::MAX ==> #[trigger] d.dimension_sizes@[i]
                            == shape[i]
                }
            &&& forall|m: ArrayName| #[trigger] name_read_from(m, name_part(b)) ==> m.name@ == name
            &&& forall|x: ArrayData| #[trigger]
                data_read_from(x, data_part(b)) ==> {
                    &&& x.array_type == T::spec_matlab_id()
                    &&& x.array_data_bytes@.len() == a@.1.len() * w
                    &&& index_in_bounds(idx, shape) ==> x.array_data_bytes@.subrange(p * w, p * w + w)
                        == a@.1[row_major_offset(idx, shape)].spec_le_bytes()
                }
        }),
{
    let shape = a@.0;
    let data = a@.1;
    let nm = vstd::utf8::encode_utf8(name);
    assert(a.spec_container_bytes(nm) == matrix_bytes(shape, data, nm));
    let b = default_header_bytes() + matrix_bytes(shape, data, nm);
    lemma_parse_after_write(shape, data, name);
    lemma_col_major_len(data, shape, 0, 1);
    lemma_elems_bytes_len(col_major(data, shape));
    assert forall|d: Dimensions| #[trigger] dims_read_from(d, dims_part(b)) implies {
        &&& d.dimension_sizes@.len() == shape.len()
        &&& forall|i: int|
            0 <= i < shape.len() && shape[i] <= i32::MAX ==> #[trigger] d.dimension_sizes@[i] == shape[i]
    } by {
        assert forall|i: int| 0 <= i < shape.len() && shape[i] <= i32::MAX implies #[trigger] d.dimension_sizes@[i]
            == shape[i] by {
            lemma_small_dimension(shape[i]);
        }
    }
    assert forall|m: ArrayName| #[trigger] name_read_from(m, name_part(b)) implies m.name@ == name by {
        vstd::utf8::encode_utf8_decode_utf8(m.name@);
    }
    if index_in_bounds(idx, shape) {
        lemma_col_major_order(data, shape, idx);
        lemma_elems_bytes_at(col_major(data, shape), col_major_offset(idx, shape));
    }
}

/// Writing the default header and then a vector as a container, and reading
/// the bytes back with `parse_mat_bytes`, succeeds, and what is read is what
/// was written: the class of `T`, one dimension, the vector's length where
/// it is below `2^31`, the name, and numeric data of `T`'s type holding
/// value `i` at position `i`. Lengths that a tag cannot hold are left out,
/// and so are vectors larger than an allocation can be.
pub proof fn lemma_vector_read_back<T: Num>(v: Vec<T>, name: Seq<char>, i: int)
    requires
        vstd::utf8::encode_utf8(name).len() < 0x1_0000_0000,
        v@.len() * T::spec_width() < 0x1_0000_0000,
        v@.len() * T::spec_width() <= isize::MAX,
    ensures
        ({
            let b = default_header_bytes() + v.spec_container_bytes(vstd::utf8::encode_utf8(name));
            let w = T::spec_width();
            &&& mat_error(b) is None
            &&& forall|f: ArrayFlags| #[trigger]
                flags_read_from(f, matrix_contents(b)) ==> f.flag_1 == T::spec_matrix_id()
            &&& forall|d: Dimensions| #[trigger]
                dims_read_from(d, dims_part(b)) ==> {
                    &&& d.dimension_sizes@.len() == 1
                    &&& v@.len() <= i32::MAX ==> d.dimension_sizes@[0] == v@.len()
                }
            &&& forall|m: ArrayName| #[trigger] name_read_from(m, name_part(b)) ==> m.name@ == name
            &&& forall|x: ArrayData| #[trigger]
                data_read_from(x, data_part(b)) ==> {
                    &&& x.array_type == T::spec_matlab_id()
                    &&& x.array_data_bytes@.len() == v@.len() * w
                    &&& 0 <= i < v@.len() ==> x.array_data_bytes@.subrange(i * w, i * w + w)
                        == v@[i].spec_le_bytes()
                }
        }),
{
    let w = T::spec_width();
    if v@.len() > 0 {
        T::lemma_le_bytes_len(v@[0]);
        assert(v@.len() <= v@.len() * w) by (nonlinear_arith)
            requires
                w >= 1,
        ;
    }
    let n = v@.len() as usize;
    let nm = vstd::utf8::encode_utf8(name);
    assert(v.spec_container_bytes(nm) == matrix_bytes(seq![n], v@, nm));
    let b = default_header_bytes() + matrix_bytes(seq![n], v@, nm);
    lemma_parse_after_write_vector(v@, n, name);
    lemma_elems_bytes_len(v@);
    assert forall|d: Dimensions| #[trigger] dims_read_from(d, dims_part(b)) implies {
        &&& d.dimension_sizes@.len() == 1
        &&& v@.len() <= i32::MAX ==> d.dimension_sizes@[0] == v@.len()
    } by {
        if v@.len() <= i32::MAX {
            lemma_small_dimension(n);
        }
    }
    assert forall|m: ArrayName| #[trigger] name_read_from(m, name_part(b)) implies m.name@ == name by {
        vstd::utf8::encode_utf8_decode_utf8(m.name@);
    }
    if 0 <= i < v@.len() {
        lemma_elems_bytes_at(v@, i);
    }
}

/// Reading back the header that `write_default_header` writes, whatever
/// follows it: it is accepted, its text is "default text header" padded
/// with spaces to 116 bytes, both subsystem offsets are 0, the version
/// (bytes 124 and 125, little-endian) is `0x0100`, the endian indicator is
/// "IM", and the data elements start after its 128 bytes.
pub proof fn lemma_header_read_back(rest: Seq<u8>, h: Header)
    requires
        header_read_from(h, default_header_bytes() + rest),
    ensures
        header_error(default_header_bytes() + rest) is None,
        h.header_string@ == "default text header"@ + Seq::new(97, |i: int| ' '),
        h.sys_offset_1 == 0,
        h.sys_offset_2 == 0,
        le_value((default_header_bytes() + rest).subrange(124, 126)) == 0x0100,
        h.endian_marker@ == seq!['I', 'M'],
        (default_header_bytes() + rest).skip(128) == rest,
{
    let hb = default_header_bytes();
    let b = hb + rest;
    lemma_default_header_readable();
    assert(b.subrange(0, 116) =~= hb.subrange(0, 116));
    assert(b.subrange(126, 128) =~= hb.subrange(126, 128));
    let text = "default text header"@ + Seq::new(97, |i: int| ' ');
    vstd::utf8::encode_utf8_decode_utf8(text);
    vstd::utf8::encode_utf8_decode_utf8(h.header_string@);
    vstd::utf8::encode_utf8_decode_utf8(seq!['I', 'M']);
    vstd::utf8::encode_utf8_decode_utf8(h.endian_marker@);
    assert(le_seq(0, 4) =~= seq![0u8, 0u8, 0u8, 0u8]) by {
        reveal_with_fuel(le_seq, 5);
    }
    assert(b.subrange(116, 120) =~= le_seq(0, 4));
    assert(b.subrange(120, 124) =~= le_seq(0, 4));
    lemma_u32_at_of(b, 116, 0);
    lemma_u32_at_of(b, 120, 0);
    let v = b.subrange(124, 126);
    assert(v =~= seq![0x00u8, 0x01u8]);
    assert(v.drop_first() =~= seq![0x01u8]);
    assert(v.drop_first().drop_first() =~= Seq::<u8>::empty());
    reveal_with_fuel(le_value, 3);
    assert(b.skip(128) =~= rest);
}

} // verus!
