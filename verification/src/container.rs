//! Serialization of whole arrays as named `miMATRIX` elements: a vector as
//! a one-dimensional matrix, an N-dimensional array with its shape.
use vstd::prelude::*;
use crate::array::{
    col_major, elems_bytes, lemma_col_major_len, lemma_elems_bytes_len,
    NdArray, WriteMatrix,
};
use crate::bytes::{le_seq, lemma_le_seq_len, padding_len, push_le, push_slice, push_u32, str_bytes, tag_bytes, zeros};
use crate::num::Num;
use crate::utils::{
    array_name_bytes, create_flag_1, dimensions_bytes, fill_byte_padding, flag_1_value,
    lemma_dims_le_bytes_len, write_array_name, write_matrix_dimensions,
};

verus! {

/// The data type of a matrix element (`miMATRIX`).
pub const MATRIX_MATLAB_ID: u32 = 14;

/// describes how a container type (vector or matrix) should be serialized to bytes in a `.mat`
/// file
///
/// You probably should not implement this yourself
pub trait Container<T> {
    /// The bytes that `write_container` appends for a container with the
    /// given name.
    spec fn spec_container_bytes(&self, container_name: Seq<u8>) -> Seq<u8>;

    /// The sizes that `write_container` computes fit in a `usize` for a name
    /// of `name_len` bytes.
    spec fn spec_writable(&self, name_len: nat) -> bool;

    fn write_container(&self, writer: &mut Vec<u8>, container_name: &'static str)
        requires
            self.spec_writable(str_bytes(container_name).len()),
        ensures
            final(writer)@ == old(writer)@ + self.spec_container_bytes(str_bytes(container_name)),
    ;
}

/// The number of bytes that follow the tag of a matrix element: the array
/// flags, the dimensions, the name and the numeric data, each element with
/// its tag and padding.
pub open spec fn matrix_byte_count(name_len: nat, n_dim: nat, data_len: nat) -> nat {
    8 + 8 + (8 + 4 * n_dim + padding_len(4 * n_dim)) + (8 + name_len + padding_len(name_len)) + (8
        + data_len + padding_len(data_len))
}

/// The bytes of the array flags element of a matrix holding `T`: neither
/// complex, global nor logical.
pub open spec fn array_flags_bytes<T: Num>() -> Seq<u8> {
    tag_bytes(6, 8) + le_seq(flag_1_value(T::spec_matrix_id(), false, false, false) as nat, 4)
        + le_seq(0, 4)
}

/// The bytes of a complete matrix element for an array with the given
/// shape and row-major elements, named `name`.
pub open spec fn matrix_bytes<T: Num>(shape: Seq<usize>, data: Seq<T>, name: Seq<u8>) -> Seq<u8> {
    let n = data.len() * T::spec_width();
    tag_bytes(MATRIX_MATLAB_ID as nat, matrix_byte_count(name.len(), shape.len(), n))
        + array_flags_bytes::<T>() + dimensions_bytes(shape) + array_name_bytes(name) + tag_bytes(
        T::spec_matlab_id() as nat,
        n,
    ) + elems_bytes(col_major(data, shape)) + zeros(padding_len(n))
}

/// Everything of a matrix element for `n_elems` values of `T` before the
/// values themselves: the matrix tag, the array flags, the dimensions, the
/// name and the tag of the numeric data.
pub open spec fn matrix_head_bytes<T: Num>(shape: Seq<usize>, n_elems: nat, name: Seq<u8>) -> Seq<u8> {
    let n = n_elems * T::spec_width();
    tag_bytes(MATRIX_MATLAB_ID as nat, matrix_byte_count(name.len(), shape.len(), n))
        + array_flags_bytes::<T>() + dimensions_bytes(shape) + array_name_bytes(name) + tag_bytes(
        T::spec_matlab_id() as nat,
        n,
    )
}

/// The number of bytes that follow the tag of a matrix element, or `None`
/// where that number does not fit in a `usize`.
pub fn checked_matrix_byte_count(name_len: usize, n_dim: usize, data_len: usize) -> (r: Option<usize>)
    ensures
        r == (if matrix_byte_count(name_len as nat, n_dim as nat, data_len as nat) <= usize::MAX {
            Some(matrix_byte_count(name_len as nat, n_dim as nat, data_len as nat) as usize)
        } else {
            None::<usize>
        }),
{
    let dims = match n_dim.checked_mul(4) {
        Some(d) => d,
        None => {
            return None;
        },
    };
    let mut total: u128 = 8 + 8 + 8;
    total = total + dims as u128 + crate::utils::padding_bytes_required(dims) as u128;
    total = total + 8 + name_len as u128 + crate::utils::padding_bytes_required(name_len) as u128;
    total = total + 8 + data_len as u128 + crate::utils::padding_bytes_required(data_len) as u128;
    if total <= usize::MAX as u128 {
        Some(total as usize)
    } else {
        None
    }
}

/// Writes everything of a matrix element before its values; `total` is the
/// number of bytes that follow the matrix tag.
fn write_matrix_head<T: Num>(
    writer: &mut Vec<u8>,
    shape: &[usize],
    n_elems: usize,
    container_name: &str,
    total: usize,
)
    requires
        shape@.len() <= 4,
        total == matrix_byte_count(
            str_bytes(container_name).len(),
            shape@.len() as nat,
            n_elems as nat * T::spec_width(),
        ),
    ensures
        final(writer)@ == old(writer)@ + matrix_head_bytes::<T>(
            shape@,
            n_elems as nat,
            str_bytes(container_name),
        ),
{
    let ghost name = str_bytes(container_name);
    //
    // write the matrix header
    //
    push_u32(writer, MATRIX_MATLAB_ID);
    push_le(writer, total as u64, 4);
    let ghost after_tag = writer@;
    //
    // array flags
    //
    push_u32(writer, u32::matlab_id());
    push_u32(writer, 8);
    let flag_1 = create_flag_1(T::matrix_id(), false, false, false);
    push_u32(writer, flag_1);
    push_u32(writer, 0);
    assert(writer@ =~= after_tag + array_flags_bytes::<T>());
    let ghost after_flags = writer@;
    //
    // array dimensions
    //
    write_matrix_dimensions(writer, shape);
    //
    // Array name
    //
    write_array_name(writer, container_name);
    let ghost after_name = writer@;
    assert(after_name =~= after_flags + dimensions_bytes(shape@) + array_name_bytes(name));
    //
    // tag of the array data (non-complex)
    //
    let width = T::width();
    assert(n_elems * width <= usize::MAX) by (nonlinear_arith)
        requires
            n_elems * width <= total,
            total <= usize::MAX,
    ;
    let num_matrix_bytes = n_elems * width;
    push_u32(writer, T::matlab_id());
    push_le(writer, num_matrix_bytes as u64, 4);
    assert(writer@ =~= old(writer)@ + matrix_head_bytes::<T>(shape@, n_elems as nat, name));
}

/// A matrix element is its head, its values in column-major order, and the
/// padding after them.
pub(crate) proof fn lemma_matrix_bytes_parts<T: Num>(shape: Seq<usize>, data: Seq<T>, name: Seq<u8>)
    ensures
        matrix_bytes(shape, data, name) == matrix_head_bytes::<T>(shape, data.len(), name)
            + elems_bytes(col_major(data, shape)) + zeros(padding_len(data.len() * T::spec_width())),
{
    let n = data.len() * T::spec_width();
    assert(matrix_bytes(shape, data, name) =~= matrix_head_bytes::<T>(shape, data.len(), name)
        + elems_bytes(col_major(data, shape)) + zeros(padding_len(n)));
}

/// The column-major order of a one-dimensional array is its order.
pub proof fn lemma_col_major_1d<T>(v: Seq<T>, n: usize)
    requires
        v.len() == n,
    ensures
        col_major(v, seq![n]) == v,
{
    let shape = seq![n];
    assert(shape.drop_last() =~= Seq::<usize>::empty());
    assert(shape.last() == n);
    lemma_col_major_1d_blocks(v, n, n as nat);
    assert(v.take(n as int) =~= v);
}

proof fn lemma_col_major_1d_blocks<T>(v: Seq<T>, n: usize, k: nat)
    requires
        v.len() == n,
        k <= n,
    ensures
        crate::array::col_major_blocks(v, seq![n], 0, 1, k) == v.take(k as int),
    decreases k,
{
    let shape = seq![n];
    assert(shape.drop_last() =~= Seq::<usize>::empty());
    assert(shape.last() == n);
    if k == 0 {
        assert(v.take(0) =~= Seq::<T>::empty());
    } else {
        lemma_col_major_1d_blocks(v, n, (k - 1) as nat);
        let group = crate::array::col_major_from(v, Seq::<usize>::empty(), 0 + (k - 1) * 1, 1 * (n as int));
        assert(group == seq![v[k - 1]]);
        assert(v.take(k as int) =~= v.take(k - 1) + seq![v[k - 1]]);
    }
}

impl<T: Num> Container<T> for Vec<T> {
    /// A vector is written as a named one-dimensional matrix.
    open spec fn spec_container_bytes(&self, container_name: Seq<u8>) -> Seq<u8> {
        matrix_bytes(seq![self@.len() as usize], self@, container_name)
    }

    open spec fn spec_writable(&self, name_len: nat) -> bool {
        &&& self@.len() * T::spec_width() <= usize::MAX
        &&& matrix_byte_count(name_len, 1, self@.len() * T::spec_width()) <= usize::MAX
    }

    fn write_container(&self, writer: &mut Vec<u8>, container_name: &'static str) {
        let size = T::width();
        let len = self.len();
        let byte_length = size * len;
        let total = match checked_matrix_byte_count(container_name.len(), 1, byte_length) {
            Some(t) => t,
            None => {
                return;
            },
        };
        let shape: Vec<usize> = vec![len];
        assert(shape@ =~= seq![self@.len() as usize]);
        assert(byte_length == len * T::spec_width()) by (nonlinear_arith)
            requires
                byte_length == size * len,
                size == T::spec_width(),
        ;
        write_matrix_head::<T>(writer, shape.as_slice(), len, container_name, total);
        // then write the data, in order
        let ghost start = writer@;
        let mut i: usize = 0;
        while i < len
            invariant
                i <= len,
                len == self@.len(),
                writer@ == start + elems_bytes(self@.take(i as int)),
            decreases len - i,
        {
            let bytes = self[i].le_bytes();
            push_slice(writer, bytes.as_slice());
            proof {
                assert(self@.take(i + 1).drop_last() =~= self@.take(i as int));
            }
            i = i + 1;
        }
        assert(self@.take(len as int) =~= self@);
        // pad the rest of the data
        fill_byte_padding(writer, byte_length);
        proof {
            lemma_col_major_1d(self@, len);
            lemma_matrix_bytes_parts(shape@, self@, str_bytes(container_name));
        }
        assert(writer@ =~= old(writer)@ + matrix_bytes(shape@, self@, str_bytes(container_name)));
    }
}

impl<T: Num> NdArray<T> {
    /// counts the number of bytes that follow the tag of the matrix element
    /// written for this array under the name `array_name`, with `n_dim`
    /// dimensions
    pub fn byte_count(&self, array_name: &str, n_dim: usize) -> (r: usize)
        requires
            matrix_byte_count(str_bytes(array_name).len(), n_dim as nat, self@.1.len() * T::spec_width())
                <= usize::MAX,
        ensures
            r == matrix_byte_count(str_bytes(array_name).len(), n_dim as nat, self@.1.len() * T::spec_width()),
    {
        let mut bytes: usize = 0;
        //
        // array flags header
        //
        bytes = bytes + 8;
        bytes = bytes + 8;
        //
        // array dimensions
        //
        // data type
        bytes = bytes + 8;
        // array dimension information is always u32 in type
        let bytes_for_array_dimensions = 4 * n_dim;
        let padding_bytes = crate::utils::padding_bytes_required(bytes_for_array_dimensions);
        bytes = bytes + bytes_for_array_dimensions + padding_bytes;
        //
        // Array name
        //
        // data type header / tag
        bytes = bytes + 8;
        // the bytes required for the characters
        let array_name_bytes = array_name.len();
        let padding_bytes_name = crate::utils::padding_bytes_required(array_name_bytes);
        bytes = bytes + array_name_bytes + padding_bytes_name;
        //
        // Numeric data
        //
        bytes = bytes + 8;
        let array_bytes = self.len() * T::width();
        let array_padding = crate::utils::padding_bytes_required(array_bytes);
        bytes = bytes + array_bytes + array_padding;
        bytes
    }
}

impl<T: Num> Container<T> for NdArray<T> {
    open spec fn spec_container_bytes(&self, container_name: Seq<u8>) -> Seq<u8> {
        matrix_bytes(self@.0, self@.1, container_name)
    }

    open spec fn spec_writable(&self, name_len: nat) -> bool {
        matrix_byte_count(name_len, self@.0.len(), self@.1.len() * T::spec_width()) <= usize::MAX
    }

    fn write_container(&self, writer: &mut Vec<u8>, container_name: &'static str) {
        let n_dim = self.ndim();
        let len = self.len();
        let total_matrix_length: usize = self.byte_count(container_name, n_dim);
        write_matrix_head::<T>(writer, self.shape(), len, container_name, total_matrix_length);
        // write the actual data, then pad it
        let num_matrix_bytes = len * T::width();
        self.write_matrix(writer);
        fill_byte_padding(writer, num_matrix_bytes);
        proof {
            lemma_matrix_bytes_parts(self@.0, self@.1, str_bytes(container_name));
        }
        assert(writer@ =~= old(writer)@ + matrix_bytes(self@.0, self@.1, str_bytes(container_name)));
    }
}

/// The length of each part of a matrix element.
proof fn lemma_matrix_parts_len<T: Num>(shape: Seq<usize>, data: Seq<T>, name: Seq<u8>)
    requires
        data.len() == crate::array::shape_product(shape),
    ensures
        tag_bytes(MATRIX_MATLAB_ID as nat, matrix_byte_count(name.len(), shape.len(), data.len() * T::spec_width())).len() == 8,
        array_flags_bytes::<T>().len() == 16,
        dimensions_bytes(shape).len() == 8 + 4 * shape.len() + padding_len(4 * shape.len()),
        array_name_bytes(name).len() == 8 + name.len() + padding_len(name.len()),
        tag_bytes(T::spec_matlab_id() as nat, data.len() * T::spec_width()).len() == 8,
        elems_bytes(col_major(data, shape)).len() == data.len() * T::spec_width(),
{
    let n = data.len() * T::spec_width();
    lemma_le_seq_len(MATRIX_MATLAB_ID as nat, 4);
    lemma_le_seq_len(matrix_byte_count(name.len(), shape.len(), n), 4);
    lemma_le_seq_len(6, 4);
    lemma_le_seq_len(8, 4);
    lemma_le_seq_len(flag_1_value(T::spec_matrix_id(), false, false, false) as nat, 4);
    lemma_le_seq_len(0, 4);
    lemma_le_seq_len(5, 4);
    lemma_le_seq_len(4 * shape.len(), 4);
    lemma_dims_le_bytes_len(shape);
    lemma_le_seq_len(1, 4);
    lemma_le_seq_len(name.len(), 4);
    lemma_le_seq_len(T::spec_matlab_id() as nat, 4);
    lemma_le_seq_len(n, 4);
    lemma_col_major_len(data, shape, 0, 1);
    lemma_elems_bytes_len(col_major(data, shape));
}

/// A matrix element is its 8 byte tag followed by the number of bytes that
/// the tag records, and it ends on a 64 bit boundary.
pub proof fn lemma_matrix_bytes_len<T: Num>(shape: Seq<usize>, data: Seq<T>, name: Seq<u8>)
    requires
        data.len() == crate::array::shape_product(shape),
    ensures
        matrix_bytes(shape, data, name).len() == 8 + matrix_byte_count(
            name.len(),
            shape.len(),
            data.len() * T::spec_width(),
        ),
        matrix_bytes(shape, data, name).len() % 8 == 0,
{
    lemma_matrix_parts_len(shape, data, name);
    let n = data.len() * T::spec_width();
    let d = 4 * shape.len();
    let l = name.len();
    let total = matrix_byte_count(l, shape.len(), n);
    let p1 = 8 + d + padding_len(d);
    let p2 = 8 + l + padding_len(l);
    let p3 = 8 + n + padding_len(n);
    assert(p1 % 8 == 0 && p2 % 8 == 0 && p3 % 8 == 0);
    assert(total == 16 + p1 + p2 + p3);
    assert((24 + p1 + p2 + p3) % 8 == 0) by (nonlinear_arith)
        requires
            p1 % 8 == 0,
            p2 % 8 == 0,
            p3 % 8 == 0,
    {
        assert(p1 == 8 * (p1 / 8));
        assert(p2 == 8 * (p2 / 8));
        assert(p3 == 8 * (p3 / 8));
    }
}

} // verus!
