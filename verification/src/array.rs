//! N-dimensional numeric arrays and the column-major order in which a
//! MAT-file stores their elements.
use vstd::prelude::*;
use crate::num::Num;
use crate::bytes::push_slice;

verus! {

/// The number of elements of an array with the given shape.
pub open spec fn shape_product(shape: Seq<usize>) -> nat
    decreases shape.len(),
{
    if shape.len() == 0 {
        1
    } else {
        shape_product(shape.drop_last()) * (shape.last() as nat)
    }
}

/// The position of the element at multi-index `idx` in the row-major
/// (logical) order of an array with shape `shape`: the last index varies
/// fastest.
pub open spec fn row_major_offset(idx: Seq<int>, shape: Seq<usize>) -> int
    decreases idx.len(),
{
    if idx.len() == 0 || shape.len() == 0 {
        0
    } else {
        row_major_offset(idx.drop_last(), shape.drop_last()) * (shape.last() as int) + idx.last()
    }
}

/// The position of the element at multi-index `idx` in the column-major
/// order of an array with shape `shape`: the first index varies fastest.
pub open spec fn col_major_offset(idx: Seq<int>, shape: Seq<usize>) -> int
    decreases idx.len(),
{
    if idx.len() == 0 || shape.len() == 0 {
        0
    } else {
        col_major_offset(idx.drop_last(), shape.drop_last()) + idx.last() * (shape_product(
            shape.drop_last(),
        ) as int)
    }
}

/// `idx` is a valid multi-index into an array with shape `shape`.
pub open spec fn index_in_bounds(idx: Seq<int>, shape: Seq<usize>) -> bool {
    &&& idx.len() == shape.len()
    &&& forall|a: int| 0 <= a < idx.len() ==> 0 <= #[trigger] idx[a] < shape[a] as int
}

/// The elements of the array whose element at multi-index `i` is
/// `data[offset + stride * row_major_offset(i, shape)]`, in column-major
/// order: all elements with last index 0, then all with last index 1, and
/// so on, each group itself in column-major order.
pub open spec fn col_major_from<T>(data: Seq<T>, shape: Seq<usize>, offset: int, stride: int) -> Seq<T>
    decreases shape.len(), 1int, 0int,
{
    if shape.len() == 0 {
        seq![data[offset]]
    } else {
        col_major_blocks(data, shape, offset, stride, shape.last() as nat)
    }
}

/// The first `n` groups of `col_major_from(data, shape, offset, stride)`.
pub open spec fn col_major_blocks<T>(data: Seq<T>, shape: Seq<usize>, offset: int, stride: int, n: nat) -> Seq<T>
    decreases shape.len(), 0int, n,
{
    if shape.len() == 0 || n == 0 {
        Seq::empty()
    } else {
        col_major_blocks(data, shape, offset, stride, (n - 1) as nat) + col_major_from(
            data,
            shape.drop_last(),
            offset + (n - 1) * stride,
            stride * (shape.last() as int),
        )
    }
}

/// The elements of a row-major array `data` with shape `shape`, in
/// column-major order.
pub open spec fn col_major<T>(data: Seq<T>, shape: Seq<usize>) -> Seq<T> {
    col_major_from(data, shape, 0, 1)
}

/// The little-endian bytes of each element, concatenated.
pub open spec fn elems_bytes<T: Num>(s: Seq<T>) -> Seq<u8>
    decreases s.len(),
{
    if s.len() == 0 {
        Seq::empty()
    } else {
        elems_bytes(s.drop_last()) + s.last().spec_le_bytes()
    }
}

pub proof fn lemma_elems_bytes_concat<T: Num>(a: Seq<T>, b: Seq<T>)
    ensures
        elems_bytes(a + b) == elems_bytes(a) + elems_bytes(b),
    decreases b.len(),
{
    if b.len() == 0 {
        assert(a + b =~= a);
        assert(elems_bytes(a) + elems_bytes(b) =~= elems_bytes(a));
    } else {
        lemma_elems_bytes_concat(a, b.drop_last());
        assert((a + b).drop_last() =~= a + b.drop_last());
        assert(elems_bytes(a) + elems_bytes(b) =~= elems_bytes(a) + elems_bytes(b.drop_last())
            + b.last().spec_le_bytes());
    }
}

/// Each element contributes exactly its width in bytes.
pub proof fn lemma_elems_bytes_len<T: Num>(s: Seq<T>)
    ensures
        elems_bytes(s).len() == s.len() * T::spec_width(),
    decreases s.len(),
{
    if s.len() > 0 {
        lemma_elems_bytes_len(s.drop_last());
        T::lemma_le_bytes_len(s.last());
        assert((s.len() - 1) * T::spec_width() + T::spec_width() == s.len() * T::spec_width())
            by (nonlinear_arith);
    }
}

/// The bytes of element `k` are those at `k * width` to `(k + 1) * width`.
pub proof fn lemma_elems_bytes_at<T: Num>(s: Seq<T>, k: int)
    requires
        0 <= k < s.len(),
    ensures
        elems_bytes(s).len() == s.len() * T::spec_width(),
        k * T::spec_width() + T::spec_width() <= elems_bytes(s).len(),
        elems_bytes(s).subrange(k * T::spec_width(), k * T::spec_width() + T::spec_width())
            == s[k].spec_le_bytes(),
    decreases s.len(),
{
    let w = T::spec_width() as int;
    let n = s.len() as int;
    lemma_elems_bytes_len(s);
    lemma_elems_bytes_len(s.drop_last());
    T::lemma_le_bytes_len(s.last());
    assert(k * w + w <= n * w) by (nonlinear_arith)
        requires
            0 <= k < n,
            w >= 1,
    ;
    let prefix = elems_bytes(s.drop_last());
    if k == n - 1 {
        assert(k * w == (n - 1) * w);
        assert(elems_bytes(s).subrange(k * w, k * w + w) =~= s.last().spec_le_bytes());
    } else {
        lemma_elems_bytes_at(s.drop_last(), k);
        assert(k * w + w <= (n - 1) * w) by (nonlinear_arith)
            requires
                0 <= k < n - 1,
                w >= 1,
        ;
        assert(elems_bytes(s).subrange(k * w, k * w + w) =~= prefix.subrange(k * w, k * w + w));
    }
}

/// The column-major sequence has one entry per element of the array.
pub proof fn lemma_col_major_len<T>(data: Seq<T>, shape: Seq<usize>, offset: int, stride: int)
    ensures
        col_major_from(data, shape, offset, stride).len() == shape_product(shape),
    decreases shape.len(), 1int, 0int,
{
    if shape.len() > 0 {
        lemma_col_major_blocks_len(data, shape, offset, stride, shape.last() as nat);
        assert(col_major_from(data, shape, offset, stride) == col_major_blocks(data, shape, offset, stride, shape.last() as nat));
        let p = shape_product(shape.drop_last());
        let l = shape.last() as nat;
        assert(l * p == p * l) by (nonlinear_arith);
    }
}

pub proof fn lemma_col_major_blocks_len<T>(data: Seq<T>, shape: Seq<usize>, offset: int, stride: int, n: nat)
    requires
        shape.len() > 0,
    ensures
        col_major_blocks(data, shape, offset, stride, n).len() == n * shape_product(shape.drop_last()),
    decreases shape.len(), 0int, n,
{
    if n > 0 {
        lemma_col_major_blocks_len(data, shape, offset, stride, (n - 1) as nat);
        lemma_col_major_len(data, shape.drop_last(), offset + (n - 1) * stride, stride * (shape.last() as int));
        let p = shape_product(shape.drop_last());
        assert(col_major_blocks(data, shape, offset, stride, n) == col_major_blocks(data, shape, offset, stride, (n - 1) as nat) + col_major_from(
            data,
            shape.drop_last(),
            offset + (n - 1) * stride,
            stride * (shape.last() as int),
        ));
        let m = (n - 1) as nat;
        assert(m * p + p == n * p) by (nonlinear_arith)
            requires
                m == n - 1,
        ;
    } else {
        let p = shape_product(shape.drop_last());
        assert(n * p == 0) by (nonlinear_arith)
            requires
                n == 0,
        ;
    }
}

/// Within the first `n` groups, position `w * p + q` is position `q` of
/// group `w`, where every group has `p` elements.
proof fn lemma_col_major_blocks_index<T>(
    data: Seq<T>,
    shape: Seq<usize>,
    offset: int,
    stride: int,
    n: nat,
    w: int,
    q: int,
)
    requires
        shape.len() > 0,
        0 <= w < n,
        0 <= q < shape_product(shape.drop_last()),
    ensures
        col_major_blocks(data, shape, offset, stride, n)[w * shape_product(shape.drop_last()) + q]
            == col_major_from(data, shape.drop_last(), offset + w * stride, stride * (shape.last() as int))[q],
    decreases n,
{
    let p = shape_product(shape.drop_last()) as int;
    let prefix = col_major_blocks(data, shape, offset, stride, (n - 1) as nat);
    lemma_col_major_blocks_len(data, shape, offset, stride, (n - 1) as nat);
    let last = col_major_from(data, shape.drop_last(), offset + (n - 1) * stride, stride * (shape.last() as int));
    assert(col_major_blocks(data, shape, offset, stride, n) == prefix + last);
    lemma_col_major_len(data, shape.drop_last(), offset + (n - 1) * stride, stride * (shape.last() as int));
    if w == n - 1 {
        assert(prefix.len() == w * p);
    } else {
        lemma_col_major_blocks_index(data, shape, offset, stride, (n - 1) as nat, w, q);
        assert(w * p + q < (n - 1) * p) by (nonlinear_arith)
            requires
                0 <= w < n - 1,
                0 <= q < p,
        ;
    }
}

/// Column-major order: the element at multi-index `idx` of the array is
/// listed at position `col_major_offset(idx, shape)`.
pub proof fn lemma_col_major_from_index<T>(data: Seq<T>, shape: Seq<usize>, offset: int, stride: int, idx: Seq<int>)
    requires
        index_in_bounds(idx, shape),
    ensures
        0 <= col_major_offset(idx, shape) < shape_product(shape),
        col_major_from(data, shape, offset, stride)[col_major_offset(idx, shape)] == data[offset
            + stride * row_major_offset(idx, shape)],
    decreases shape.len(),
{
    if shape.len() == 0 {
    } else {
        let sh = shape.drop_last();
        let ix = idx.drop_last();
        let l = shape.last() as int;
        let w = idx.last();
        let p = shape_product(sh) as int;
        assert(index_in_bounds(ix, sh)) by {
            assert forall|a: int| 0 <= a < ix.len() implies 0 <= #[trigger] ix[a] < sh[a] as int by {
                assert(ix[a] == idx[a]);
            }
        }
        assert(0 <= w < l) by {
            assert(idx[idx.len() - 1] == w);
        }
        lemma_col_major_from_index(data, sh, offset + w * stride, stride * l, ix);
        let q = col_major_offset(ix, sh);
        let r = row_major_offset(ix, sh);
        lemma_col_major_blocks_index(data, shape, offset, stride, l as nat, w, q);
        assert(0 <= q + w * p < p * l) by (nonlinear_arith)
            requires
                0 <= q < p,
                0 <= w < l,
        ;
        assert(shape_product(shape) == p * l);
        assert(offset + w * stride + stride * l * r == offset + stride * (r * l + w))
            by (nonlinear_arith);
        assert(w * p + q == q + w * p);
    }
}

/// The order in which a MAT-file lists the elements of an array: the
/// element at multi-index `idx` of a row-major array `data` with shape
/// `shape` stands at position `col_major_offset(idx, shape)`, and there is
/// one position per element.
pub proof fn lemma_col_major_order<T>(data: Seq<T>, shape: Seq<usize>, idx: Seq<int>)
    requires
        index_in_bounds(idx, shape),
    ensures
        col_major(data, shape).len() == shape_product(shape),
        0 <= col_major_offset(idx, shape) < shape_product(shape),
        col_major(data, shape)[col_major_offset(idx, shape)] == data[row_major_offset(idx, shape)],
{
    lemma_col_major_len(data, shape, 0, 1);
    lemma_col_major_from_index(data, shape, 0, 1, idx);
}

/// The row-major elements of the transpose of the `nx` by `ny` array whose
/// row-major elements are `data`: its element `(j, i)` is `data`'s `(i, j)`.
pub open spec fn transpose_2d<T>(data: Seq<T>, nx: usize, ny: usize) -> Seq<T> {
    Seq::new((nx * ny) as nat, |p: int| data[(p % (nx as int)) * (ny as int) + p / (nx as int)])
}

/// `p` is `a * n + b` with `0 <= b < n`: its quotient and remainder by `n`.
proof fn lemma_div_mod_of(p: int, n: int, a: int, b: int)
    requires
        n > 0,
        0 <= b < n,
        p == a * n + b,
    ensures
        p / n == a,
        p % n == b,
{
    vstd::arithmetic::div_mod::lemma_fundamental_div_mod_converse(p, n, a, b);
}

/// The shape product and offsets of a two-dimensional array.
proof fn lemma_2d_offsets(nx: usize, ny: usize, i: int, j: int)
    ensures
        shape_product(seq![nx, ny]) == nx * ny,
        col_major_offset(seq![i, j], seq![nx, ny]) == i + j * nx,
        row_major_offset(seq![i, j], seq![nx, ny]) == i * ny + j,
{
    let s = seq![nx, ny];
    let ix = seq![i, j];
    assert(s.drop_last() =~= seq![nx]);
    assert(seq![nx].drop_last() =~= Seq::<usize>::empty());
    assert(ix.drop_last() =~= seq![i]);
    assert(seq![i].drop_last() =~= Seq::<int>::empty());
    assert(seq![nx].last() == nx);
    assert(s.last() == ny);
    assert(seq![i].last() == i);
    assert(ix.last() == j);
    assert(shape_product(Seq::<usize>::empty()) == 1);
    assert(col_major_offset(Seq::<int>::empty(), Seq::<usize>::empty()) == 0);
    assert(row_major_offset(Seq::<int>::empty(), Seq::<usize>::empty()) == 0);
    assert(shape_product(seq![nx]) == 1 * (nx as nat));
    assert(1 * (nx as nat) == nx) by (nonlinear_arith);
    assert(col_major_offset(seq![i], seq![nx]) == 0 + i * (shape_product(Seq::<usize>::empty()) as int));
    assert(i * 1 == i) by (nonlinear_arith);
    assert(row_major_offset(seq![i], seq![nx]) == 0 * (nx as int) + i);
    assert(0 * (nx as int) == 0) by (nonlinear_arith);
}

/// Writing a two-dimensional array lists the row-major elements of its
/// transpose.
pub proof fn lemma_col_major_is_transpose<T>(data: Seq<T>, nx: usize, ny: usize)
    requires
        data.len() == nx * ny,
    ensures
        col_major(data, seq![nx, ny]) == transpose_2d(data, nx, ny),
{
    let shape = seq![nx, ny];
    lemma_2d_offsets(nx, ny, 0, 0);
    lemma_col_major_len(data, shape, 0, 1);
    let c = col_major(data, shape);
    let t = transpose_2d(data, nx, ny);
    assert forall|p: int| 0 <= p < nx * ny implies c[p] == t[p] by {
        let n = nx as int;
        let i = p % n;
        let j = p / n;
        vstd::arithmetic::div_mod::lemma_fundamental_div_mod(p, n);
        assert(0 <= i < n);
        assert(0 <= j < ny) by (nonlinear_arith)
            requires
                p == n * j + i,
                0 <= i < n,
                0 <= p < n * ny,
                n > 0,
        ;
        let idx = seq![i, j];
        assert(index_in_bounds(idx, shape)) by {
            assert forall|a: int| 0 <= a < idx.len() implies 0 <= #[trigger] idx[a] < shape[a] as int by {
                if a == 0 {
                } else {
                }
            }
        }
        lemma_col_major_order(data, shape, idx);
        lemma_2d_offsets(nx, ny, i, j);
        assert(i + j * n == p) by (nonlinear_arith)
            requires
                p == n * j + i,
        ;
    }
    assert(c =~= t);
}

/// Writing the transpose of a two-dimensional array lists the array's own
/// row-major elements.
pub proof fn lemma_transpose_col_major<T>(data: Seq<T>, nx: usize, ny: usize)
    requires
        data.len() == nx * ny,
    ensures
        col_major(transpose_2d(data, nx, ny), seq![ny, nx]) == data,
{
    let t = transpose_2d(data, nx, ny);
    assert((nx * ny) as nat == ny * nx) by (nonlinear_arith);
    lemma_col_major_is_transpose(t, ny, nx);
    let tt = transpose_2d(t, ny, nx);
    assert forall|q: int| 0 <= q < data.len() implies tt[q] == data[q] by {
        let m = ny as int;
        let n = nx as int;
        assert(m > 0 && n > 0) by (nonlinear_arith)
            requires
                0 <= q < n * m,
                n >= 0,
                m >= 0,
        ;
        let jj = q % m;
        let ii = q / m;
        vstd::arithmetic::div_mod::lemma_fundamental_div_mod(q, m);
        assert(0 <= ii < n) by (nonlinear_arith)
            requires
                q == m * ii + jj,
                0 <= jj < m,
                0 <= q < n * m,
                m > 0,
        ;
        let p = jj * n + ii;
        assert(0 <= p < n * m) by (nonlinear_arith)
            requires
                0 <= jj < m,
                0 <= ii < n,
                p == jj * n + ii,
        ;
        lemma_div_mod_of(p, n, jj, ii);
        assert(tt[q] == t[p]);
        assert(t[p] == data[ii * m + jj]);
        assert(ii * m + jj == q) by (nonlinear_arith)
            requires
                q == m * ii + jj,
        ;
    }
    assert(tt =~= data);
}

/// What an array must satisfy: between one and four dimensions (the
/// arrays whose element order a MAT-file writer defines), one element per
/// position of the shape, and a size in bytes that an allocation can have.
pub open spec fn array_wf<T: Num>(shape: Seq<usize>, data: Seq<T>) -> bool {
    &&& 1 <= shape.len() <= 4
    &&& data.len() == shape_product(shape)
    &&& data.len() * T::spec_width() <= isize::MAX
}

/// Why a shape and a vector of elements do not make an array.
#[derive(Clone, Copy, Debug, PartialEq, Eq, Structural)]
pub enum ShapeError {
    /// The shape has no dimension or more than four.
    UnsupportedDimensionality,
    /// The size of the elements in bytes is more than an allocation can
    /// have.
    Overflow,
    /// The shape does not have as many positions as there are elements.
    IncompatibleShape,
}

/// The error that `NdArray::from_shape_vec` reports, if any.
pub open spec fn shape_error(shape: Seq<usize>, data_len: nat, width: nat) -> Option<ShapeError> {
    if !(1 <= shape.len() <= 4) {
        Some(ShapeError::UnsupportedDimensionality)
    } else if shape_product(shape) != data_len {
        Some(ShapeError::IncompatibleShape)
    } else if data_len * width > isize::MAX {
        Some(ShapeError::Overflow)
    } else {
        None
    }
}

/// A numeric array of one to four dimensions, its elements held in
/// row-major (logical) order: the last index varies fastest.
pub struct NdArray<T: Num> {
    shape: Vec<usize>,
    data: Vec<T>,
}

impl<T: Num> View for NdArray<T> {
    /// The shape, and the elements in row-major order.
    type V = (Seq<usize>, Seq<T>);

    closed spec fn view(&self) -> (Seq<usize>, Seq<T>) {
        (self.shape@, self.data@)
    }
}

impl<T: Num> NdArray<T> {
    #[verifier::type_invariant]
    closed spec fn inv(self) -> bool {
        array_wf(self.shape@, self.data@)
    }

    /// Creates an array of the given shape from its elements in row-major
    /// order.
    pub fn from_shape_vec(shape: Vec<usize>, data: Vec<T>) -> (r: Result<Self, ShapeError>)
        ensures
            match r {
                Ok(a) => shape_error(shape@, data@.len(), T::spec_width()) is None && a@ == (
                    shape@,
                    data@,
                ),
                Err(e) => shape_error(shape@, data@.len(), T::spec_width()) == Some(e),
            },
            shape_error(shape@, data@.len(), T::spec_width()) is None <==> array_wf(shape@, data@),
    {
        if shape.len() < 1 || shape.len() > 4 {
            return Err(ShapeError::UnsupportedDimensionality);
        }
        let data_len = data.len();
        // a zero-length axis makes the array empty
        let mut k: usize = 0;
        while k < shape.len()
            invariant
                k <= shape@.len(),
                1 <= shape@.len() <= 4,
                forall|a: int| 0 <= a < k ==> shape@[a] >= 1,
            decreases shape@.len() - k,
        {
            if shape[k] == 0 {
                proof {
                    lemma_product_zero(shape@, k as int);
                }
                if data.len() != 0 {
                    return Err(ShapeError::IncompatibleShape);
                }
                proof {
                    let w = T::spec_width();
                    assert(0 * w == 0) by (nonlinear_arith);
                }
                return Ok(NdArray { shape, data });
            }
            k = k + 1;
        }
        let mut product: usize = 1;
        let mut i: usize = 0;
        while i < shape.len()
            invariant
                i <= shape@.len(),
                1 <= shape@.len() <= 4,
                data_len == data@.len(),
                product == shape_product(shape@.take(i as int)),
                forall|a: int| 0 <= a < shape@.len() ==> shape@[a] >= 1,
            decreases shape@.len() - i,
        {
            assert(shape@.take(i + 1).drop_last() =~= shape@.take(i as int));
            match product.checked_mul(shape[i]) {
                Some(p) => {
                    product = p;
                },
                None => {
                    proof {
                        assert(shape@.take(i + 1).last() == shape@[i as int]);
                        assert(shape_product(shape@.take(i + 1)) == product * shape@[i as int]);
                        lemma_product_take_monotone(shape@, i as nat + 1);
                        assert(shape_product(shape@) > usize::MAX);
                        assert(shape_product(shape@) != data@.len());
                    }
                    return Err(ShapeError::IncompatibleShape);
                },
            }
            i = i + 1;
        }
        assert(shape@.take(shape@.len() as int) =~= shape@);
        if product != data.len() {
            return Err(ShapeError::IncompatibleShape);
        }
        let width = T::width();
        if data.len() > (isize::MAX as usize) / width {
            proof {
                assert(data@.len() * width > isize::MAX) by (nonlinear_arith)
                    requires
                        data@.len() > isize::MAX as int / width as int,
                        width >= 1,
                ;
            }
            return Err(ShapeError::Overflow);
        }
        proof {
            assert(data@.len() * width <= isize::MAX) by (nonlinear_arith)
                requires
                    data@.len() <= isize::MAX as int / width as int,
                    width >= 1,
            ;
        }
        Ok(NdArray { shape, data })
    }

    /// The length of each dimension.
    pub fn shape(&self) -> (r: &[usize])
        ensures
            r@ == self@.0,
            array_wf(self@.0, self@.1),
    {
        proof {
            use_type_invariant(self);
        }
        self.shape.as_slice()
    }

    /// The number of dimensions.
    pub fn ndim(&self) -> (r: usize)
        ensures
            r == self@.0.len(),
            1 <= r <= 4,
    {
        proof {
            use_type_invariant(self);
        }
        self.shape.len()
    }

    /// The number of elements.
    pub fn len(&self) -> (r: usize)
        ensures
            r == self@.1.len(),
            r == shape_product(self@.0),
    {
        proof {
            use_type_invariant(self);
        }
        self.data.len()
    }

    /// The elements in row-major order.
    pub fn as_slice(&self) -> (r: &[T])
        ensures
            r@ == self@.1,
    {
        self.data.as_slice()
    }
}

/// With no zero-length axis, a shape has at least as many elements as any
/// prefix of it.
proof fn lemma_product_take_monotone(shape: Seq<usize>, k: nat)
    requires
        k <= shape.len(),
        forall|a: int| 0 <= a < shape.len() ==> shape[a] >= 1,
    ensures
        shape_product(shape) >= shape_product(shape.take(k as int)),
    decreases shape.len() - k,
{
    if k == shape.len() {
        assert(shape.take(k as int) =~= shape);
    } else {
        let p = shape_product(shape.take(k as int));
        let d = shape[k as int] as nat;
        assert(shape.take(k + 1 as int).drop_last() =~= shape.take(k as int));
        assert(p * d >= p) by (nonlinear_arith)
            requires
                d >= 1,
        ;
        lemma_product_take_monotone(shape, k + 1);
    }
}

/// A shape with a zero dimension has no element.
proof fn lemma_product_zero(shape: Seq<usize>, a: int)
    requires
        0 <= a < shape.len(),
        shape[a] == 0,
    ensures
        shape_product(shape) == 0,
    decreases shape.len(),
{
    let p = shape_product(shape.drop_last());
    if a == shape.len() - 1 {
        assert(p * 0 == 0) by (nonlinear_arith);
    } else {
        lemma_product_zero(shape.drop_last(), a);
        let l = shape.last() as nat;
        assert(0 * l == 0) by (nonlinear_arith);
    }
}

/// With no zero-length axis, a shape has at least one element.
proof fn lemma_product_positive(shape: Seq<usize>)
    requires
        forall|a: int| 0 <= a < shape.len() ==> shape[a] >= 1,
    ensures
        shape_product(shape) >= 1,
    decreases shape.len(),
{
    if shape.len() > 0 {
        lemma_product_positive(shape.drop_last());
        let p = shape_product(shape.drop_last());
        let l = shape.last() as nat;
        assert(l == shape[shape.len() - 1]);
        assert(p * l >= 1) by (nonlinear_arith)
            requires
                p >= 1,
                l >= 1,
        ;
    }
}

/// The arithmetic that keeps every group of the column-major traversal
/// inside the elements.
proof fn lemma_group_bounds(offset: int, stride: int, w: int, last: int, p: int, len: int)
    requires
        stride >= 1,
        p >= 1,
        0 <= w < last,
        0 <= offset,
        offset + stride * (p * last - 1) < len,
        stride * (p * last) <= len,
    ensures
        offset + w * stride < len,
        stride * last <= len,
        offset + w * stride + stride * last * (p - 1) < len,
        stride * last * p <= len,
{
    assert(w * stride <= stride * (last - 1)) by (nonlinear_arith)
        requires
            stride >= 1,
            0 <= w < last,
    ;
    assert(stride * (last - 1) <= stride * (p * last - 1)) by (nonlinear_arith)
        requires
            stride >= 1,
            p >= 1,
            last >= 1,
    ;
    assert(stride * last <= stride * (p * last)) by (nonlinear_arith)
        requires
            stride >= 1,
            p >= 1,
            last >= 1,
    ;
    assert(w * stride + stride * last * (p - 1) <= stride * (p * last - 1)) by (nonlinear_arith)
        requires
            stride >= 1,
            p >= 1,
            0 <= w < last,
    ;
    assert(stride * last * p == stride * (p * last)) by (nonlinear_arith);
}

/// Appends the bytes of the elements of the array whose element at
/// multi-index `i` is `data[offset + stride * row_major_offset(i, s)]`, `s`
/// being the first `depth` dimensions of `shape`, in column-major order.
fn push_col_major<T: Num>(
    writer: &mut Vec<u8>,
    data: &Vec<T>,
    shape: &Vec<usize>,
    depth: usize,
    offset: usize,
    stride: usize,
)
    requires
        depth <= shape@.len(),
        forall|a: int| 0 <= a < depth ==> shape@[a] >= 1,
        stride >= 1,
        offset + stride * (shape_product(shape@.take(depth as int)) - 1) < data@.len(),
        stride * shape_product(shape@.take(depth as int)) <= data@.len(),
    ensures
        final(writer)@ == old(writer)@ + elems_bytes(
            col_major_from(data@, shape@.take(depth as int), offset as int, stride as int),
        ),
    decreases depth,
{
    let ghost sh = shape@.take(depth as int);
    let len = data.len();
    if depth == 0 {
        assert(sh.len() == 0);
        let bytes = data[offset].le_bytes();
        push_slice(writer, bytes.as_slice());
        proof {
            let s = col_major_from(data@, sh, offset as int, stride as int);
            assert(s == seq![data@[offset as int]]);
            assert(s.drop_last() =~= Seq::<T>::empty());
            assert(elems_bytes(Seq::<T>::empty()) == Seq::<u8>::empty());
            assert(s.last() == data@[offset as int]);
            assert(elems_bytes(s) =~= data@[offset as int].spec_le_bytes());
        }
    } else {
        let last = shape[depth - 1];
        let ghost sub = shape@.take(depth - 1);
        proof {
            assert(sh.drop_last() =~= sub);
            assert(sh.last() == last);
            assert forall|a: int| 0 <= a < sub.len() implies sub[a] >= 1 by {
                assert(sub[a] == shape@[a]);
            }
            lemma_product_positive(sub);
        }
        let ghost p = shape_product(sub) as int;
        assert(shape_product(sh) == p * last);
        proof {
            lemma_group_bounds(offset as int, stride as int, 0, last as int, p, data@.len() as int);
        }
        let new_stride = stride * last;
        let mut w: usize = 0;
        while w < last
            invariant
                w <= last,
                last == shape@[depth - 1],
                last >= 1,
                sh == shape@.take(depth as int),
                sub == shape@.take(depth - 1),
                sh.drop_last() == sub,
                sh.last() == last,
                p == shape_product(sub),
                p >= 1,
                0 < depth <= shape@.len(),
                forall|a: int| 0 <= a < depth ==> shape@[a] >= 1,
                stride >= 1,
                new_stride == stride * last,
                offset + stride * (p * last - 1) < data@.len(),
                stride * (p * last) <= data@.len(),
                len == data@.len(),
                writer@ == old(writer)@ + elems_bytes(
                    col_major_blocks(data@, sh, offset as int, stride as int, w as nat),
                ),
            decreases last - w,
        {
            proof {
                lemma_group_bounds(offset as int, stride as int, w as int, last as int, p, data@.len() as int);
            }
            let new_offset = offset + w * stride;
            assert(new_stride >= 1) by (nonlinear_arith)
                requires
                    new_stride == stride * last,
                    stride >= 1,
                    last >= 1,
            ;
            let ghost before = writer@;
            push_col_major(writer, data, shape, depth - 1, new_offset, new_stride);
            proof {
                let group = col_major_from(data@, sub, new_offset as int, new_stride as int);
                assert(col_major_blocks(data@, sh, offset as int, stride as int, (w + 1) as nat)
                    == col_major_blocks(data@, sh, offset as int, stride as int, w as nat) + group);
                lemma_elems_bytes_concat(
                    col_major_blocks(data@, sh, offset as int, stride as int, w as nat),
                    group,
                );
            }
            w = w + 1;
        }
        assert(col_major_from(data@, sh, offset as int, stride as int) == col_major_blocks(
            data@,
            sh,
            offset as int,
            stride as int,
            last as nat,
        ));
    }
}

/// describes the order in which a N dimensional matrix's values should be
/// written to the file
pub trait WriteMatrix {
    /// The bytes that `write_matrix` appends.
    spec fn spec_matrix_bytes(&self) -> Seq<u8>;

    fn write_matrix(&self, writer: &mut Vec<u8>)
        ensures
            final(writer)@ == old(writer)@ + self.spec_matrix_bytes(),
    ;
}

impl<T: Num> WriteMatrix for NdArray<T> {
    /// The elements in column-major order, each as its little-endian bytes.
    open spec fn spec_matrix_bytes(&self) -> Seq<u8> {
        elems_bytes(col_major(self@.1, self@.0))
    }

    fn write_matrix(&self, writer: &mut Vec<u8>) {
        proof {
            use_type_invariant(self);
            lemma_col_major_len(self.data@, self.shape@, 0, 1);
        }
        if self.data.len() == 0 {
            assert(col_major(self.data@, self.shape@) =~= Seq::<T>::empty());
            assert(writer@ =~= old(writer)@ + elems_bytes(Seq::<T>::empty()));
            return;
        }
        proof {
            assert forall|a: int| 0 <= a < self.shape@.len() implies self.shape@[a] >= 1 by {
                if self.shape@[a] == 0 {
                    lemma_product_zero(self.shape@, a);
                }
            }
            assert(self.shape@.take(self.shape@.len() as int) =~= self.shape@);
            let n = self.data@.len() as int;
            assert(1 * (n - 1) == n - 1);
            assert(1 * n == n);
        }
        push_col_major(writer, &self.data, &self.shape, self.shape.len(), 0, 1);
    }
}

/// The bytes that `write_matrix` appends hold each element of the array at
/// its column-major position: for every multi-index `idx` in bounds, the
/// element at `idx` (position `row_major_offset(idx, shape)` of the row-major
/// elements) takes the `width` bytes from `col_major_offset(idx, shape) *
/// width` on, and there are `width` bytes per position of the shape.
pub proof fn lemma_write_matrix_order<T: Num>(a: NdArray<T>, idx: Seq<int>)
    requires
        index_in_bounds(idx, a@.0),
    ensures
        ({
            let w = T::spec_width();
            let p = col_major_offset(idx, a@.0);
            &&& a.spec_matrix_bytes().len() == shape_product(a@.0) * w
            &&& 0 <= p < shape_product(a@.0)
            &&& a.spec_matrix_bytes().subrange(p * w, p * w + w) == a@.1[row_major_offset(
                idx,
                a@.0,
            )].spec_le_bytes()
        }),
{
    lemma_col_major_order(a@.1, a@.0, idx);
    lemma_elems_bytes_at(col_major(a@.1, a@.0), col_major_offset(idx, a@.0));
}

/// The two positions of an element written out, for arrays of one to four
/// dimensions with shape `(n0, n1, n2, n3)` and multi-index
/// `(i0, i1, i2, i3)`: in row-major order the last index varies fastest,
/// `((i0 * n1 + i1) * n2 + i2) * n3 + i3`; in column-major order the first
/// does, `i0 + n0 * (i1 + n1 * (i2 + n2 * i3))`.
pub proof fn lemma_offsets_written_out(idx: Seq<int>, shape: Seq<usize>)
    requires
        idx.len() == shape.len(),
    ensures
        idx.len() == 1 ==> row_major_offset(idx, shape) == idx[0] && col_major_offset(idx, shape)
            == idx[0],
        idx.len() == 2 ==> row_major_offset(idx, shape) == idx[0] * shape[1] + idx[1]
            && col_major_offset(idx, shape) == idx[0] + shape[0] * idx[1],
        idx.len() == 3 ==> row_major_offset(idx, shape) == (idx[0] * shape[1] + idx[1]) * shape[2]
            + idx[2] && col_major_offset(idx, shape) == idx[0] + shape[0] * (idx[1] + shape[1]
            * idx[2]),
        idx.len() == 4 ==> row_major_offset(idx, shape) == ((idx[0] * shape[1] + idx[1]) * shape[2]
            + idx[2]) * shape[3] + idx[3] && col_major_offset(idx, shape) == idx[0] + shape[0] * (
        idx[1] + shape[1] * (idx[2] + shape[2] * idx[3])),
    decreases idx.len(),
{
    if idx.len() >= 1 {
        lemma_offsets_written_out(idx.drop_last(), shape.drop_last());
        let k = idx.len() - 1;
        let n0 = shape[0] as int;
        assert(shape_product(Seq::<usize>::empty()) == 1);
        if idx.len() == 1 {
            assert(idx.drop_last().len() == 0);
            assert(shape.drop_last() =~= Seq::<usize>::empty());
            assert(row_major_offset(idx.drop_last(), shape.drop_last()) == 0);
            assert(col_major_offset(idx.drop_last(), shape.drop_last()) == 0);
            assert(0 * (shape[0] as int) == 0) by (nonlinear_arith);
            assert(idx[k] * 1 == idx[k]) by (nonlinear_arith);
            assert(idx.last() == idx[0]);
            assert(shape.last() == shape[0]);
        } else if idx.len() == 2 {
            let s1 = shape.drop_last();
            assert(s1.drop_last() =~= Seq::<usize>::empty());
            assert(shape_product(s1) == 1 * (shape[0] as nat));
            let i1 = idx[1];
            assert(i1 * (1 * n0) == n0 * i1) by (nonlinear_arith);
        } else if idx.len() == 3 {
            let s2 = shape.drop_last();
            let s1 = s2.drop_last();
            assert(s1.drop_last() =~= Seq::<usize>::empty());
            assert(shape_product(s1) == 1 * (shape[0] as nat));
            assert(shape_product(s2) == (1 * (shape[0] as nat)) * (shape[1] as nat));
            let n1 = shape[1] as int;
            let i1 = idx[1];
            let i2 = idx[2];
            assert(n0 * i1 + i2 * ((1 * n0) * n1) == n0 * (i1 + n1 * i2)) by (nonlinear_arith);
        } else if idx.len() == 4 {
            let s3 = shape.drop_last();
            let s2 = s3.drop_last();
            let s1 = s2.drop_last();
            assert(s1.drop_last() =~= Seq::<usize>::empty());
            assert(shape_product(s1) == 1 * (shape[0] as nat));
            assert(shape_product(s2) == (1 * (shape[0] as nat)) * (shape[1] as nat));
            assert(shape_product(s3) == ((1 * (shape[0] as nat)) * (shape[1] as nat)) * (
            shape[2] as nat));
            let n1 = shape[1] as int;
            let n2 = shape[2] as int;
            let i1 = idx[1];
            let i2 = idx[2];
            let i3 = idx[3];
            assert(n0 * (i1 + n1 * i2) + i3 * (((1 * n0) * n1) * n2) == n0 * (i1 + n1 * (i2 + n2
                * i3))) by (nonlinear_arith);
        }
    }
}

} // verus!
