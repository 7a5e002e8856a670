//! Numeric element types and the identifiers under which MAT-files store them.
use vstd::prelude::*;
use crate::bytes::{le_seq, le_value, lemma_le_seq_len, lemma_le_value_of_le_seq, push_le};

verus! {

/// Describes numeric types and their associated MATLAB identifier constants
/// that can be written to files.
///
/// You should not implement this yourself: the implementations below cover
/// every element type that can be written.
pub trait Num: Copy + Sized {
    /// The data type identifier of a data element holding this type.
    spec fn spec_matlab_id() -> u32;

    /// The array class identifier of a matrix holding this type.
    spec fn spec_matrix_id() -> u8;

    /// The number of bytes that one value occupies in a file.
    spec fn spec_width() -> nat;

    /// The bytes of the value, little-endian.
    spec fn spec_le_bytes(self) -> Seq<u8>;

    /// Every value occupies `spec_width()` bytes, and that is between 1 and 8.
    proof fn lemma_le_bytes_len(v: Self)
        ensures
            v.spec_le_bytes().len() == Self::spec_width(),
            1 <= Self::spec_width() <= 8,
    ;

    fn matlab_id() -> (r: u32)
        ensures
            r == Self::spec_matlab_id(),
    ;

    fn matrix_id() -> (r: u8)
        ensures
            r == Self::spec_matrix_id(),
    ;

    /// The size of the type in bytes (`std::mem::size_of` of the type it
    /// stands for).
    fn width() -> (r: usize)
        ensures
            r == Self::spec_width(),
            1 <= r <= 8,
    ;

    fn le_bytes(&self) -> (r: Vec<u8>)
        ensures
            r@ == self.spec_le_bytes(),
            r@.len() == Self::spec_width(),
    ;
}

/// The bit pattern of an `f32` (IEEE 754 single precision), which is what a
/// MAT-file stores for single precision values.
#[derive(Clone, Copy, Debug, PartialEq, Eq, Structural)]
pub struct F32Bits(pub u32);

/// The bit pattern of an `f64` (IEEE 754 double precision), which is what a
/// MAT-file stores for double precision values.
#[derive(Clone, Copy, Debug, PartialEq, Eq, Structural)]
pub struct F64Bits(pub u64);

impl Num for i8 {
    open spec fn spec_matlab_id() -> u32 { 1 }
    open spec fn spec_matrix_id() -> u8 { 8 }
    open spec fn spec_width() -> nat { 1 }
    open spec fn spec_le_bytes(self) -> Seq<u8> { le_seq((self as u8) as nat, 1) }

    proof fn lemma_le_bytes_len(v: Self) { lemma_le_seq_len((v as u8) as nat, 1); }

    fn matlab_id() -> (r: u32) { 1 }
    fn matrix_id() -> (r: u8) { 8 }
    fn width() -> (r: usize) { 1 }

    fn le_bytes(&self) -> (r: Vec<u8>) {
        let mut r: Vec<u8> = Vec::new();
        push_le(&mut r, (*self as u8) as u64, 1);
        proof { lemma_le_seq_len((*self as u8) as nat, 1); }
        r
    }
}

impl Num for u8 {
    open spec fn spec_matlab_id() -> u32 { 2 }
    open spec fn spec_matrix_id() -> u8 { 9 }
    open spec fn spec_width() -> nat { 1 }
    open spec fn spec_le_bytes(self) -> Seq<u8> { le_seq(self as nat, 1) }

    proof fn lemma_le_bytes_len(v: Self) { lemma_le_seq_len(v as nat, 1); }

    fn matlab_id() -> (r: u32) { 2 }
    fn matrix_id() -> (r: u8) { 9 }
    fn width() -> (r: usize) { 1 }

    fn le_bytes(&self) -> (r: Vec<u8>) {
        let mut r: Vec<u8> = Vec::new();
        push_le(&mut r, *self as u64, 1);
        proof { lemma_le_seq_len(*self as nat, 1); }
        r
    }
}

impl Num for i16 {
    open spec fn spec_matlab_id() -> u32 { 3 }
    open spec fn spec_matrix_id() -> u8 { 10 }
    open spec fn spec_width() -> nat { 2 }
    open spec fn spec_le_bytes(self) -> Seq<u8> { le_seq((self as u16) as nat, 2) }

    proof fn lemma_le_bytes_len(v: Self) { lemma_le_seq_len((v as u16) as nat, 2); }

    fn matlab_id() -> (r: u32) { 3 }
    fn matrix_id() -> (r: u8) { 10 }
    fn width() -> (r: usize) { 2 }

    fn le_bytes(&self) -> (r: Vec<u8>) {
        let mut r: Vec<u8> = Vec::new();
        push_le(&mut r, (*self as u16) as u64, 2);
        proof { lemma_le_seq_len((*self as u16) as nat, 2); }
        r
    }
}

impl Num for u16 {
    open spec fn spec_matlab_id() -> u32 { 4 }
    open spec fn spec_matrix_id() -> u8 { 11 }
    open spec fn spec_width() -> nat { 2 }
    open spec fn spec_le_bytes(self) -> Seq<u8> { le_seq(self as nat, 2) }

    proof fn lemma_le_bytes_len(v: Self) { lemma_le_seq_len(v as nat, 2); }

    fn matlab_id() -> (r: u32) { 4 }
    fn matrix_id() -> (r: u8) { 11 }
    fn width() -> (r: usize) { 2 }

    fn le_bytes(&self) -> (r: Vec<u8>) {
        let mut r: Vec<u8> = Vec::new();
        push_le(&mut r, *self as u64, 2);
        proof { lemma_le_seq_len(*self as nat, 2); }
        r
    }
}

impl Num for i32 {
    open spec fn spec_matlab_id() -> u32 { 5 }
    open spec fn spec_matrix_id() -> u8 { 12 }
    open spec fn spec_width() -> nat { 4 }
    open spec fn spec_le_bytes(self) -> Seq<u8> { le_seq((self as u32) as nat, 4) }

    proof fn lemma_le_bytes_len(v: Self) { lemma_le_seq_len((v as u32) as nat, 4); }

    fn matlab_id() -> (r: u32) { 5 }
    fn matrix_id() -> (r: u8) { 12 }
    fn width() -> (r: usize) { 4 }

    fn le_bytes(&self) -> (r: Vec<u8>) {
        let mut r: Vec<u8> = Vec::new();
        push_le(&mut r, (*self as u32) as u64, 4);
        proof { lemma_le_seq_len((*self as u32) as nat, 4); }
        r
    }
}

impl Num for u32 {
    open spec fn spec_matlab_id() -> u32 { 6 }
    open spec fn spec_matrix_id() -> u8 { 13 }
    open spec fn spec_width() -> nat { 4 }
    open spec fn spec_le_bytes(self) -> Seq<u8> { le_seq(self as nat, 4) }

    proof fn lemma_le_bytes_len(v: Self) { lemma_le_seq_len(v as nat, 4); }

    fn matlab_id() -> (r: u32) { 6 }
    fn matrix_id() -> (r: u8) { 13 }
    fn width() -> (r: usize) { 4 }

    fn le_bytes(&self) -> (r: Vec<u8>) {
        let mut r: Vec<u8> = Vec::new();
        push_le(&mut r, *self as u64, 4);
        proof { lemma_le_seq_len(*self as nat, 4); }
        r
    }
}

impl Num for F32Bits {
    open spec fn spec_matlab_id() -> u32 { 7 }
    open spec fn spec_matrix_id() -> u8 { 7 }
    open spec fn spec_width() -> nat { 4 }
    open spec fn spec_le_bytes(self) -> Seq<u8> { le_seq(self.0 as nat, 4) }

    proof fn lemma_le_bytes_len(v: Self) { lemma_le_seq_len(v.0 as nat, 4); }

    fn matlab_id() -> (r: u32) { 7 }
    fn matrix_id() -> (r: u8) { 7 }
    fn width() -> (r: usize) { 4 }

    fn le_bytes(&self) -> (r: Vec<u8>) {
        let mut r: Vec<u8> = Vec::new();
        push_le(&mut r, self.0 as u64, 4);
        proof { lemma_le_seq_len(self.0 as nat, 4); }
        r
    }
}

impl Num for F64Bits {
    open spec fn spec_matlab_id() -> u32 { 9 }
    open spec fn spec_matrix_id() -> u8 { 6 }
    open spec fn spec_width() -> nat { 8 }
    open spec fn spec_le_bytes(self) -> Seq<u8> { le_seq(self.0 as nat, 8) }

    proof fn lemma_le_bytes_len(v: Self) { lemma_le_seq_len(v.0 as nat, 8); }

    fn matlab_id() -> (r: u32) { 9 }
    fn matrix_id() -> (r: u8) { 6 }
    fn width() -> (r: usize) { 8 }

    fn le_bytes(&self) -> (r: Vec<u8>) {
        let mut r: Vec<u8> = Vec::new();
        push_le(&mut r, self.0, 8);
        proof { lemma_le_seq_len(self.0 as nat, 8); }
        r
    }
}

impl Num for i64 {
    open spec fn spec_matlab_id() -> u32 { 12 }
    open spec fn spec_matrix_id() -> u8 { 14 }
    open spec fn spec_width() -> nat { 8 }
    open spec fn spec_le_bytes(self) -> Seq<u8> { le_seq((self as u64) as nat, 8) }

    proof fn lemma_le_bytes_len(v: Self) { lemma_le_seq_len((v as u64) as nat, 8); }

    fn matlab_id() -> (r: u32) { 12 }
    fn matrix_id() -> (r: u8) { 14 }
    fn width() -> (r: usize) { 8 }

    fn le_bytes(&self) -> (r: Vec<u8>) {
        let mut r: Vec<u8> = Vec::new();
        push_le(&mut r, *self as u64, 8);
        proof { lemma_le_seq_len((*self as u64) as nat, 8); }
        r
    }
}

impl Num for u64 {
    open spec fn spec_matlab_id() -> u32 { 13 }
    open spec fn spec_matrix_id() -> u8 { 15 }
    open spec fn spec_width() -> nat { 8 }
    open spec fn spec_le_bytes(self) -> Seq<u8> { le_seq(self as nat, 8) }

    proof fn lemma_le_bytes_len(v: Self) { lemma_le_seq_len(v as nat, 8); }

    fn matlab_id() -> (r: u32) { 13 }
    fn matrix_id() -> (r: u8) { 15 }
    fn width() -> (r: usize) { 8 }

    fn le_bytes(&self) -> (r: Vec<u8>) {
        let mut r: Vec<u8> = Vec::new();
        push_le(&mut r, *self, 8);
        proof { lemma_le_seq_len(*self as nat, 8); }
        r
    }
}


/// `n` little-endian bytes read back as the value they were made from, for
/// any value that fits in them.
proof fn lemma_le_round_trip(v: nat, n: nat, bound: nat)
    requires
        bound == vstd::arithmetic::power::pow(256, n),
        v < bound,
    ensures
        le_value(le_seq(v, n)) == v,
        le_seq(v, n).len() == n,
{
    lemma_le_value_of_le_seq(v, n);
    vstd::arithmetic::div_mod::lemma_small_mod(v, bound);
    lemma_le_seq_len(v, n);
}

/// The powers of 256 for the widths of the element types.
proof fn lemma_byte_powers()
    ensures
        vstd::arithmetic::power::pow(256, 1) == 0x100,
        vstd::arithmetic::power::pow(256, 2) == 0x1_0000,
        vstd::arithmetic::power::pow(256, 4) == 0x1_0000_0000,
        vstd::arithmetic::power::pow(256, 8) == 0x1_0000_0000_0000_0000,
{
    reveal_with_fuel(vstd::arithmetic::power::pow, 9);
}

/// A `u8` is stored as its one byte.
pub proof fn lemma_u8_bytes(v: u8)
    ensures
        v.spec_le_bytes().len() == 1,
        le_value(v.spec_le_bytes()) == v,
{
    lemma_byte_powers();
    lemma_le_round_trip(v as nat, 1, 0x100);
}

/// An `i8` is stored as one byte in two's complement: a negative value
/// reads back as itself plus `2^8`.
pub proof fn lemma_i8_bytes(v: i8)
    ensures
        v.spec_le_bytes().len() == 1,
        le_value(v.spec_le_bytes()) == (if v < 0 { v + 0x100 } else { v as int }),
{
    lemma_byte_powers();
    lemma_le_round_trip((v as u8) as nat, 1, 0x100);
    assert((v as u8) as int == (if v < 0 { v + 0x100 } else { v as int })) by (bit_vector);
}

/// A `u16` is stored as its two bytes, least significant first.
pub proof fn lemma_u16_bytes(v: u16)
    ensures
        v.spec_le_bytes().len() == 2,
        le_value(v.spec_le_bytes()) == v,
{
    lemma_byte_powers();
    lemma_le_round_trip(v as nat, 2, 0x1_0000);
}

/// An `i16` is stored as two bytes in two's complement, least significant
/// first: a negative value reads back as itself plus `2^16`.
pub proof fn lemma_i16_bytes(v: i16)
    ensures
        v.spec_le_bytes().len() == 2,
        le_value(v.spec_le_bytes()) == (if v < 0 { v + 0x1_0000 } else { v as int }),
{
    lemma_byte_powers();
    lemma_le_round_trip((v as u16) as nat, 2, 0x1_0000);
    assert((v as u16) as int == (if v < 0 { v + 0x1_0000 } else { v as int })) by (bit_vector);
}

/// A `u32` is stored as its four bytes, least significant first.
pub proof fn lemma_u32_bytes(v: u32)
    ensures
        v.spec_le_bytes().len() == 4,
        le_value(v.spec_le_bytes()) == v,
{
    lemma_byte_powers();
    lemma_le_round_trip(v as nat, 4, 0x1_0000_0000);
}

/// An `i32` is stored as four bytes in two's complement, least significant
/// first: a negative value reads back as itself plus `2^32`.
pub proof fn lemma_i32_bytes(v: i32)
    ensures
        v.spec_le_bytes().len() == 4,
        le_value(v.spec_le_bytes()) == (if v < 0 { v + 0x1_0000_0000 } else { v as int }),
{
    lemma_byte_powers();
    lemma_le_round_trip((v as u32) as nat, 4, 0x1_0000_0000);
    assert((v as u32) as int == (if v < 0 { v + 0x1_0000_0000 } else { v as int })) by (bit_vector);
}

/// A `u64` is stored as its eight bytes, least significant first.
pub proof fn lemma_u64_bytes(v: u64)
    ensures
        v.spec_le_bytes().len() == 8,
        le_value(v.spec_le_bytes()) == v,
{
    lemma_byte_powers();
    lemma_le_round_trip(v as nat, 8, 0x1_0000_0000_0000_0000);
}

/// An `i64` is stored as eight bytes in two's complement, least significant
/// first: a negative value reads back as itself plus `2^64`.
pub proof fn lemma_i64_bytes(v: i64)
    ensures
        v.spec_le_bytes().len() == 8,
        le_value(v.spec_le_bytes()) == (if v < 0 { v + 0x1_0000_0000_0000_0000 } else { v as int }),
{
    lemma_byte_powers();
    lemma_le_round_trip((v as u64) as nat, 8, 0x1_0000_0000_0000_0000);
    assert((v as u64) as int == (if v < 0 { v + 0x1_0000_0000_0000_0000 } else { v as int }))
        by (bit_vector);
}

/// A single precision value is stored as the four bytes of its bit
/// pattern, least significant first.
pub proof fn lemma_f32_bytes(v: F32Bits)
    ensures
        v.spec_le_bytes().len() == 4,
        le_value(v.spec_le_bytes()) == v.0,
{
    lemma_byte_powers();
    lemma_le_round_trip(v.0 as nat, 4, 0x1_0000_0000);
}

/// A double precision value is stored as the eight bytes of its bit
/// pattern, least significant first.
pub proof fn lemma_f64_bytes(v: F64Bits)
    ensures
        v.spec_le_bytes().len() == 8,
        le_value(v.spec_le_bytes()) == v.0,
{
    lemma_byte_powers();
    lemma_le_round_trip(v.0 as nat, 8, 0x1_0000_0000_0000_0000);
}

} // verus!
