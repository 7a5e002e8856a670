//! Little-endian encoding of integers and the zero padding that keeps every
//! element of a MAT-file on a 64 bit boundary.
use vstd::prelude::*;

verus! {

/// The `n` least significant bytes of `v`, least significant byte first.
pub open spec fn le_seq(v: nat, n: nat) -> Seq<u8>
    decreases n,
{
    if n == 0 {
        Seq::empty()
    } else {
        seq![(v % 256) as u8] + le_seq(v / 256, (n - 1) as nat)
    }
}

/// The value of a little-endian byte sequence.
pub open spec fn le_value(s: Seq<u8>) -> nat
    decreases s.len(),
{
    if s.len() == 0 {
        0
    } else {
        s[0] as nat + 256 * le_value(s.drop_first())
    }
}

/// `n` zero bytes.
pub open spec fn zeros(n: nat) -> Seq<u8> {
    Seq::new(n, |i: int| 0u8)
}

/// The 8 byte tag that starts every data element: the data type and the
/// number of bytes that follow, each as a little-endian `u32`.
pub open spec fn tag_bytes(data_type: nat, num_bytes: nat) -> Seq<u8> {
    le_seq(data_type, 4) + le_seq(num_bytes, 4)
}

/// The number of zero bytes that must follow `total_bytes` bytes so that
/// the data ends on a 64 bit boundary.
pub open spec fn padding_len(total_bytes: nat) -> nat {
    if total_bytes % 8 == 0 {
        0
    } else {
        (8 - total_bytes % 8) as nat
    }
}

/// The padding after `total_bytes` bytes is the one number of bytes under 8
/// that brings the total to a multiple of 8.
pub proof fn lemma_padding_len(total_bytes: nat)
    ensures
        padding_len(total_bytes) < 8,
        (total_bytes + padding_len(total_bytes)) % 8 == 0,
{
}

/// The UTF-8 bytes of a string slice.
pub open spec fn str_bytes(s: &str) -> Seq<u8> {
    vstd::utf8::encode_utf8(s@)
}

/// `le_seq` always has the requested length.
pub proof fn lemma_le_seq_len(v: nat, n: nat)
    ensures
        le_seq(v, n).len() == n,
    decreases n,
{
    if n > 0 {
        lemma_le_seq_len(v / 256, (n - 1) as nat);
    }
}

/// Byte `k` of `le_seq(v, n)` is digit `k` of `v` in base 256: the least
/// significant byte comes first.
pub proof fn lemma_le_seq_index(v: nat, n: nat, k: int)
    requires
        0 <= k < n,
    ensures
        le_seq(v, n)[k] == (v / (vstd::arithmetic::power::pow(256, k as nat) as nat)) % 256,
    decreases n,
{
    reveal(vstd::arithmetic::power::pow);
    vstd::arithmetic::power::lemma_pow_positive(256, k as nat);
    lemma_le_seq_len(v / 256, (n - 1) as nat);
    if k == 0 {
        assert(vstd::arithmetic::power::pow(256, 0) == 1);
    } else {
        lemma_le_seq_index(v / 256, (n - 1) as nat, k - 1);
        let p = vstd::arithmetic::power::pow(256, (k - 1) as nat);
        vstd::arithmetic::power::lemma_pow_positive(256, (k - 1) as nat);
        assert(vstd::arithmetic::power::pow(256, k as nat) == 256 * p);
        vstd::arithmetic::div_mod::lemma_div_denominator(v as int, 256, p);
    }
}

/// The value of little-endian bytes grows by the last byte times
/// `256^len` when a byte is appended: the last byte is the most significant.
pub proof fn lemma_le_value_push(s: Seq<u8>, x: u8)
    ensures
        le_value(s.push(x)) == le_value(s) + x * vstd::arithmetic::power::pow(256, s.len()),
    decreases s.len(),
{
    reveal(vstd::arithmetic::power::pow);
    if s.len() == 0 {
        assert(s.push(x).drop_first() =~= Seq::<u8>::empty());
        assert(vstd::arithmetic::power::pow(256, 0) == 1);
        assert(s.push(x)[0] == x);
        assert(s.push(x).len() == 1);
        assert(le_value(Seq::<u8>::empty()) == 0);
        assert(le_value(s.push(x)) == x);
        assert(x * 1 == x);
    } else {
        assert(s.push(x)[0] == s[0]);
        lemma_le_value_push(s.drop_first(), x);
        assert(s.push(x).drop_first() =~= s.drop_first().push(x));
        let p = vstd::arithmetic::power::pow(256, (s.len() - 1) as nat);
        assert(vstd::arithmetic::power::pow(256, s.len()) == 256 * p);
        assert(256 * (le_value(s.drop_first()) + x * p) == 256 * le_value(s.drop_first()) + x * (256
            * p)) by (nonlinear_arith);
    }
}

/// Reading back `n` little-endian bytes gives the value modulo `256^n`.
pub proof fn lemma_le_value_of_le_seq(v: nat, n: nat)
    ensures
        le_value(le_seq(v, n)) == v % (vstd::arithmetic::power::pow(256, n) as nat),
    decreases n,
{
    vstd::arithmetic::power::lemma_pow_positive(256, n);
    if n == 0 {
        assert(le_seq(v, 0) =~= Seq::<u8>::empty());
        assert(vstd::arithmetic::power::pow(256, 0) == 1) by {
            vstd::arithmetic::power::lemma_pow0(256);
        }
    } else {
        let m = (n - 1) as nat;
        lemma_le_value_of_le_seq(v / 256, m);
        vstd::arithmetic::power::lemma_pow_positive(256, m);
        let p = vstd::arithmetic::power::pow(256, m);
        assert(vstd::arithmetic::power::pow(256, n) == 256 * p) by {
            vstd::arithmetic::power::lemma_pow_adds(256, 1, m);
            vstd::arithmetic::power::lemma_pow1(256);
        }
        let s = le_seq(v, n);
        assert(s.drop_first() =~= le_seq(v / 256, m));
        vstd::arithmetic::div_mod::lemma_breakdown(v as int, 256, p);
    }
}

/// For the 4 byte fields of a tag, reading back gives the value modulo `2^32`.
pub proof fn lemma_le_value_of_le_seq_u32(v: nat)
    ensures
        le_value(le_seq(v, 4)) == v % 0x1_0000_0000,
{
    lemma_le_value_of_le_seq(v, 4);
    assert(vstd::arithmetic::power::pow(256, 4) == 0x1_0000_0000) by {
        reveal_with_fuel(vstd::arithmetic::power::pow, 5);
    }
}

/// Appends the `n` least significant bytes of `v`, least significant first.
pub fn push_le(buf: &mut Vec<u8>, v: u64, n: usize)
    requires
        n <= 8,
    ensures
        final(buf)@ == old(buf)@ + le_seq(v as nat, n as nat),
{
    let mut x: u64 = v;
    let mut i: usize = 0;
    while i < n
        invariant
            i <= n,
            old(buf)@ + le_seq(v as nat, n as nat) == buf@ + le_seq(x as nat, (n - i) as nat),
        decreases n - i,
    {
        let ghost before = buf@;
        buf.push((x % 256) as u8);
        assert(le_seq(x as nat, (n - i) as nat) == seq![(x % 256) as u8] + le_seq(
            (x / 256) as nat,
            (n - i - 1) as nat,
        ));
        assert(buf@ + le_seq((x / 256) as nat, (n - i - 1) as nat) =~= before + le_seq(
            x as nat,
            (n - i) as nat,
        ));
        x = x / 256;
        i = i + 1;
    }
    assert(le_seq(x as nat, 0) =~= Seq::<u8>::empty());
    assert(buf@ + Seq::<u8>::empty() =~= buf@);
}

/// Appends a `u32` in little-endian byte order.
pub fn push_u32(buf: &mut Vec<u8>, v: u32)
    ensures
        final(buf)@ == old(buf)@ + le_seq(v as nat, 4),
{
    push_le(buf, v as u64, 4);
}

/// Appends `n` zero bytes.
pub fn push_zeros(buf: &mut Vec<u8>, n: usize)
    ensures
        final(buf)@ == old(buf)@ + zeros(n as nat),
{
    let mut i: usize = 0;
    while i < n
        invariant
            i <= n,
            buf@ == old(buf)@ + zeros(i as nat),
        decreases n - i,
    {
        buf.push(0u8);
        i = i + 1;
        assert(buf@ =~= old(buf)@ + zeros(i as nat));
    }
}

/// Appends the bytes of `data`.
pub fn push_slice(buf: &mut Vec<u8>, data: &[u8])
    ensures
        final(buf)@ == old(buf)@ + data@,
{
    let mut i: usize = 0;
    while i < data.len()
        invariant
            i <= data@.len(),
            buf@ == old(buf)@ + data@.take(i as int),
        decreases data@.len() - i,
    {
        buf.push(data[i]);
        i = i + 1;
        assert(buf@ =~= old(buf)@ + data@.take(i as int));
    }
    assert(data@.take(data@.len() as int) =~= data@);
}

} // verus!
