//! Little-endian integers inside byte sequences.

use vstd::bytes::*;
use vstd::prelude::*;
use vstd::slice::*;

verus! {

/// The unsigned 32-bit integer stored little-endian in `s[at .. at + 4]`.
pub open spec fn le_u32_at(s: Seq<u8>, at: int) -> u32 {
    spec_u32_from_le_bytes(s.subrange(at, at + 4))
}

/// The unsigned 64-bit integer stored little-endian in `s[at .. at + 8]`.
pub open spec fn le_u64_at(s: Seq<u8>, at: int) -> u64 {
    spec_u64_from_le_bytes(s.subrange(at, at + 8))
}

/// The signed 32-bit integer stored in two's complement, little-endian, in
/// `s[at .. at + 4]`.
pub open spec fn le_i32_at(s: Seq<u8>, at: int) -> i32 {
    le_u32_at(s, at) as i32
}

/// The signed 64-bit integer stored in two's complement, little-endian, in
/// `s[at .. at + 8]`.
pub open spec fn le_i64_at(s: Seq<u8>, at: int) -> i64 {
    le_u64_at(s, at) as i64
}

/// The four bytes of `v`, least significant first.
pub open spec fn le_bytes_u32(v: u32) -> Seq<u8> {
    spec_u32_to_le_bytes(v)
}

/// The eight bytes of `v`, least significant first.
pub open spec fn le_bytes_u64(v: u64) -> Seq<u8> {
    spec_u64_to_le_bytes(v)
}

/// The four bytes of the two's complement form of `v`, least significant first.
pub open spec fn le_bytes_i32(v: i32) -> Seq<u8> {
    spec_u32_to_le_bytes(v as u32)
}

/// The eight bytes of the two's complement form of `v`, least significant first.
pub open spec fn le_bytes_i64(v: i64) -> Seq<u8> {
    spec_u64_to_le_bytes(v as u64)
}

/// The little-endian forms are four and eight bytes long.
pub proof fn lemma_le_bytes_len()
    ensures
        forall|v: u32| #[trigger] le_bytes_u32(v).len() == 4,
        forall|v: u64| #[trigger] le_bytes_u64(v).len() == 8,
        forall|v: i32| #[trigger] le_bytes_i32(v).len() == 4,
        forall|v: i64| #[trigger] le_bytes_i64(v).len() == 8,
{
    lemma_auto_spec_u32_to_from_le_bytes();
    lemma_auto_spec_u64_to_from_le_bytes();
    assert forall|v: u32| #[trigger] le_bytes_u32(v).len() == 4 by {
        assert(spec_u32_to_le_bytes(v).len() == 4);
    }
    assert forall|v: i32| #[trigger] le_bytes_i32(v).len() == 4 by {
        assert(spec_u32_to_le_bytes(v as u32).len() == 4);
    }
}

/// A `u32` written little-endian at `at` is read back unchanged.
pub proof fn lemma_le_u32_round_trip(s: Seq<u8>, at: int, v: u32)
    requires
        0 <= at,
        at + 4 <= s.len(),
        s.subrange(at, at + 4) == le_bytes_u32(v),
    ensures
        le_u32_at(s, at) == v,
{
    lemma_auto_spec_u32_to_from_le_bytes();
    assert(spec_u32_to_le_bytes(v).len() == 4);
}

/// A `u64` written little-endian at `at` is read back unchanged.
pub proof fn lemma_le_u64_round_trip(s: Seq<u8>, at: int, v: u64)
    requires
        0 <= at,
        at + 8 <= s.len(),
        s.subrange(at, at + 8) == le_bytes_u64(v),
    ensures
        le_u64_at(s, at) == v,
{
    lemma_auto_spec_u64_to_from_le_bytes();
}

/// An `i32` written in two's complement at `at` is read back unchanged.
pub proof fn lemma_le_i32_round_trip(s: Seq<u8>, at: int, v: i32)
    requires
        0 <= at,
        at + 4 <= s.len(),
        s.subrange(at, at + 4) == le_bytes_i32(v),
    ensures
        le_i32_at(s, at) == v,
{
    lemma_auto_spec_u32_to_from_le_bytes();
    assert(spec_u32_to_le_bytes(v as u32).len() == 4);
    assert((v as u32) as i32 == v) by (bit_vector);
}

/// An `i64` written in two's complement at `at` is read back unchanged.
pub proof fn lemma_le_i64_round_trip(s: Seq<u8>, at: int, v: i64)
    requires
        0 <= at,
        at + 8 <= s.len(),
        s.subrange(at, at + 8) == le_bytes_i64(v),
    ensures
        le_i64_at(s, at) == v,
{
    lemma_auto_spec_u64_to_from_le_bytes();
    assert((v as u64) as i64 == v) by (bit_vector);
}

/// Reads the little-endian `u32` at offset `at`.
pub fn read_u32_le(s: &[u8], at: usize) -> (v: u32)
    requires
        at + 4 <= s@.len(),
    ensures
        v == le_u32_at(s@, at as int),
{
    let n: usize = s.len();
    u32_from_le_bytes(slice_subrange(s, at, at + 4))
}

/// Reads the little-endian `u64` at offset `at`.
pub fn read_u64_le(s: &[u8], at: usize) -> (v: u64)
    requires
        at + 8 <= s@.len(),
    ensures
        v == le_u64_at(s@, at as int),
{
    let n: usize = s.len();
    u64_from_le_bytes(slice_subrange(s, at, at + 8))
}

/// Reads the little-endian two's complement `i32` at offset `at`.
pub fn read_i32_le(s: &[u8], at: usize) -> (v: i32)
    requires
        at + 4 <= s@.len(),
    ensures
        v == le_i32_at(s@, at as int),
{
    let u: u32 = read_u32_le(s, at);
    #[verifier::truncate]
    (u as i32)
}

/// Reads the little-endian two's complement `i64` at offset `at`.
pub fn read_i64_le(s: &[u8], at: usize) -> (v: i64)
    requires
        at + 8 <= s@.len(),
    ensures
        v == le_i64_at(s@, at as int),
{
    let u: u64 = read_u64_le(s, at);
    #[verifier::truncate]
    (u as i64)
}

/// Appends every byte of `bytes` to `out`.
pub fn push_bytes(out: &mut Vec<u8>, bytes: &[u8])
    ensures
        final(out)@ == old(out)@ + bytes@,
{
    out.extend_from_slice(bytes);
    assert(out@ =~= old(out)@ + bytes@);
}

/// Appends the four little-endian bytes of `v` to `out`.
pub fn push_u32_le(out: &mut Vec<u8>, v: u32)
    ensures
        final(out)@ == old(out)@ + le_bytes_u32(v),
{
    let b: Vec<u8> = u32_to_le_bytes(v);
    push_bytes(out, b.as_slice());
}

/// Appends the eight little-endian bytes of `v` to `out`.
pub fn push_u64_le(out: &mut Vec<u8>, v: u64)
    ensures
        final(out)@ == old(out)@ + le_bytes_u64(v),
{
    let b: Vec<u8> = u64_to_le_bytes(v);
    push_bytes(out, b.as_slice());
}

/// Appends the four little-endian bytes of the two's complement form of `v`.
pub fn push_i32_le(out: &mut Vec<u8>, v: i32)
    ensures
        final(out)@ == old(out)@ + le_bytes_i32(v),
{
    let u: u32 = #[verifier::truncate] (v as u32);
    push_u32_le(out, u);
}

/// Appends the eight little-endian bytes of the two's complement form of `v`.
pub fn push_i64_le(out: &mut Vec<u8>, v: i64)
    ensures
        final(out)@ == old(out)@ + le_bytes_i64(v),
{
    let u: u64 = #[verifier::truncate] (v as u64);
    push_u64_le(out, u);
}

} // verus!
