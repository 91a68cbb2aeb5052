//! The block packers of the `bitpacking` crate, seen through contracts.
//!
//! A packer turns a block of `u32` values into a dense run of `bits`-bit
//! fields and back. What the bytes of such a run decode to is named per packer
//! (`unpacked_1x`, ...): the layouts differ between packers, and this library
//! only relies on the fact that packing and unpacking with the same width give
//! back values that fit in it.
use bitpacking::{BitPacker, BitPacker1x, BitPacker4x, BitPacker8x};
use vstd::arithmetic::power2::{lemma2_to64, lemma_pow2_pos, lemma_pow2_unfold, pow2};
use vstd::prelude::*;

verus! {

/// Number of bits needed to write `v`: zero for zero, else the position of
/// its highest set bit.
pub open spec fn bit_len(v: nat) -> nat
    decreases v,
{
    if v == 0 {
        0
    } else {
        1 + bit_len(v / 2)
    }
}

/// Number of bits needed to write the largest value of `s`.
pub open spec fn max_bit_len(s: Seq<u32>) -> nat
    decreases s.len(),
{
    if s.len() == 0 {
        0
    } else {
        let a = max_bit_len(s.drop_last());
        let b = bit_len(s.last() as nat);
        if a >= b {
            a
        } else {
            b
        }
    }
}

/// Every value of `s` can be written in `bits` bits.
pub open spec fn all_fit(s: Seq<u32>, bits: nat) -> bool {
    forall|i: int| 0 <= i < s.len() ==> #[trigger] bit_len(s[i] as nat) <= bits
}

proof fn lemma_bit_len_le(v: nat, k: nat)
    requires
        v < pow2(k),
    ensures
        bit_len(v) <= k,
    decreases k,
{
    lemma_pow2_pos(k);
    if v > 0 {
        if k == 0 {
            assert(pow2(0) == 1) by {
                lemma2_to64();
            }
        } else {
            lemma_pow2_unfold(k);
            lemma_bit_len_le(v / 2, (k - 1) as nat);
        }
    }
}

/// Every value of `s` fits in `max_bit_len(s)` bits, which is at most 32.
pub proof fn lemma_max_bit_len(s: Seq<u32>)
    ensures
        all_fit(s, max_bit_len(s)),
        max_bit_len(s) <= 32,
    decreases s.len(),
{
    if s.len() > 0 {
        let t = s.drop_last();
        lemma_max_bit_len(t);
        assert(pow2(32) == 0x1_0000_0000) by {
            lemma2_to64();
        }
        lemma_bit_len_le(s.last() as nat, 32);
        assert forall|i: int| 0 <= i < s.len() implies #[trigger] bit_len(s[i] as nat)
            <= max_bit_len(s) by {
            if i < s.len() - 1 {
                assert(s[i] == t[i]);
            }
        }
    }
}

/// The step from the value before element `i` of `s` (`initial` before the
/// first) to element `i`, taken modulo `2^32`.
pub open spec fn wrapping_delta(initial: u32, s: Seq<u32>, i: int) -> u32 {
    let prev = if i == 0 {
        initial
    } else {
        s[i - 1]
    };
    if s[i] >= prev {
        (s[i] - prev) as u32
    } else {
        (s[i] + 0x1_0000_0000 - prev) as u32
    }
}

/// The steps of `s` from `initial` on, as the sorted packing stores them.
pub open spec fn wrapping_deltas(initial: u32, s: Seq<u32>) -> Seq<u32> {
    Seq::new(s.len(), |i: int| wrapping_delta(initial, s, i))
}

/// Number of bytes that a block of `block` values takes at `bits` bits each.
pub open spec fn packed_len(block: nat, bits: nat) -> nat {
    block * bits / 8
}

/// What `BitPacker1x::decompress` gives for a run of bytes and a bit width.
pub uninterp spec fn unpacked_1x(bytes: Seq<u8>, bits: u8) -> Seq<u32>;

/// What `BitPacker1x::decompress_sorted` gives for an initial value, a run of bytes
/// and a bit width.
pub uninterp spec fn unpacked_sorted_1x(initial: u32, bytes: Seq<u8>, bits: u8) -> Seq<u32>;

/// What `BitPacker4x::decompress` gives for a run of bytes and a bit width.
pub uninterp spec fn unpacked_4x(bytes: Seq<u8>, bits: u8) -> Seq<u32>;

/// What `BitPacker4x::decompress_sorted` gives for an initial value, a run of bytes
/// and a bit width.
pub uninterp spec fn unpacked_sorted_4x(initial: u32, bytes: Seq<u8>, bits: u8) -> Seq<u32>;

/// What `BitPacker8x::decompress` gives for a run of bytes and a bit width.
pub uninterp spec fn unpacked_8x(bytes: Seq<u8>, bits: u8) -> Seq<u32>;

/// What `BitPacker8x::decompress_sorted` gives for an initial value, a run of bytes
/// and a bit width.
pub uninterp spec fn unpacked_sorted_8x(initial: u32, bytes: Seq<u8>, bits: u8) -> Seq<u32>;

/// A fixed-length block packer.
pub trait BlockPacker {
    /// Number of values in one block.
    spec fn spec_block_len() -> nat;

    /// What unpacking `bytes` at width `bits` gives.
    spec fn unpacked(bytes: Seq<u8>, bits: u8) -> Seq<u32>;

    /// What unpacking `bytes` at width `bits` with the sorted format and the
    /// value `initial` before the block gives.
    spec fn unpacked_sorted(initial: u32, bytes: Seq<u8>, bits: u8) -> Seq<u32>;

    /// The block length is a positive multiple of 32, at most 256.
    proof fn lemma_block_len()
        ensures
            0 < Self::spec_block_len() <= 256,
            Self::spec_block_len() % 32 == 0,
    ;

    /// Number of values in one block.
    fn block_len(&self) -> (r: usize)
        ensures
            r == Self::spec_block_len(),
    ;

    /// Smallest width in which every value of the block fits.
    fn bits_needed(&self, values: &[u32]) -> (r: u8)
        requires
            values@.len() == Self::spec_block_len(),
        ensures
            r == max_bit_len(values@),
    ;

    /// Smallest width in which every step of the block from `initial` on
    /// fits (steps taken modulo `2^32`).
    fn bits_needed_sorted(&self, initial: u32, values: &[u32]) -> (r: u8)
        requires
            values@.len() == Self::spec_block_len(),
        ensures
            r == max_bit_len(wrapping_deltas(initial, values@)),
    ;

    /// Packs the block at width `bits` into the front of `out` and returns
    /// the number of bytes written.
    fn pack_block(&self, values: &[u32], out: &mut [u8], bits: u8) -> (r: usize)
        requires
            values@.len() == Self::spec_block_len(),
            bits <= 32,
            old(out)@.len() >= packed_len(Self::spec_block_len(), bits as nat),
        ensures
            r == packed_len(Self::spec_block_len(), bits as nat),
            final(out)@.len() == old(out)@.len(),
            all_fit(values@, bits as nat) ==> Self::unpacked(final(out)@.take(r as int), bits)
                == values@,
    ;

    /// Packs the steps of the block from `initial` on at width `bits` into
    /// the front of `out` and returns the number of bytes written.
    fn pack_block_sorted(&self, initial: u32, values: &[u32], out: &mut [u8], bits: u8) -> (r:
        usize)
        requires
            values@.len() == Self::spec_block_len(),
            bits <= 32,
            old(out)@.len() >= packed_len(Self::spec_block_len(), bits as nat),
        ensures
            r == packed_len(Self::spec_block_len(), bits as nat),
            final(out)@.len() == old(out)@.len(),
            all_fit(wrapping_deltas(initial, values@), bits as nat) ==> Self::unpacked_sorted(
                initial,
                final(out)@.take(r as int),
                bits,
            ) == values@,
    ;

    /// Unpacks one block at width `bits` from the front of `bytes` into the
    /// front of `out` and returns the number of bytes read.
    fn unpack_block(&self, bytes: &[u8], out: &mut [u32], bits: u8) -> (r: usize)
        requires
            bits <= 32,
            old(out)@.len() >= Self::spec_block_len(),
            bytes@.len() >= packed_len(Self::spec_block_len(), bits as nat),
        ensures
            r == packed_len(Self::spec_block_len(), bits as nat),
            final(out)@.len() == old(out)@.len(),
            final(out)@.take(Self::spec_block_len() as int) == Self::unpacked(
                bytes@.take(r as int),
                bits,
            ),
            final(out)@.skip(Self::spec_block_len() as int) == old(out)@.skip(
                Self::spec_block_len() as int,
            ),
    ;

    /// Unpacks one block of steps at width `bits` from the front of `bytes`,
    /// adds them up from `initial` on into the front of `out`, and returns the
    /// number of bytes read.
    fn unpack_block_sorted(&self, initial: u32, bytes: &[u8], out: &mut [u32], bits: u8) -> (r:
        usize)
        requires
            bits <= 32,
            old(out)@.len() >= Self::spec_block_len(),
            bytes@.len() >= packed_len(Self::spec_block_len(), bits as nat),
        ensures
            r == packed_len(Self::spec_block_len(), bits as nat),
            final(out)@.len() == old(out)@.len(),
            final(out)@.take(Self::spec_block_len() as int) == Self::unpacked_sorted(
                initial,
                bytes@.take(r as int),
                bits,
            ),
            final(out)@.skip(Self::spec_block_len() as int) == old(out)@.skip(
                Self::spec_block_len() as int,
            ),
    ;
}

#[verifier::external_type_specification]
#[verifier::external_body]
pub struct ExBitPacker1x(BitPacker1x);

/// Relies on `BitPacker1x::BLOCK_LEN`, which is 32.
#[verifier::external_body]
fn block_len_1x() -> (r: usize)
    ensures
        r == 32,
{
    <BitPacker1x as BitPacker>::BLOCK_LEN
}

/// Relies on `BitPacker1x::num_bits`: the bit length of the bitwise or of the
/// block, which is that of its largest value; it panics unless the block has
/// 32 values.
#[verifier::external_body]
fn num_bits_1x(p: &BitPacker1x, values: &[u32]) -> (r: u8)
    requires
        values@.len() == 32,
    ensures
        r == max_bit_len(values@),
{
    p.num_bits(values)
}

/// Relies on `BitPacker1x::num_bits_sorted`: the bit length of the bitwise or of
/// the wrapping differences between neighbours, the first taken from
/// `initial`; it panics unless the block has 32 values.
#[verifier::external_body]
fn num_bits_sorted_1x(p: &BitPacker1x, initial: u32, values: &[u32]) -> (r: u8)
    requires
        values@.len() == 32,
    ensures
        r == max_bit_len(wrapping_deltas(initial, values@)),
{
    p.num_bits_sorted(initial, values)
}

/// Relies on `BitPacker1x::compress`: it writes `bits * 32 / 8` bytes, which
/// `decompress` turns back into the block when its values fit in `bits` bits;
/// it panics on a block of another length, a short `out` or `bits` above 32.
#[verifier::external_body]
fn compress_1x(p: &BitPacker1x, values: &[u32], out: &mut [u8], bits: u8) -> (r: usize)
    requires
        values@.len() == 32,
        bits <= 32,
        old(out)@.len() >= packed_len(32, bits as nat),
    ensures
        r == packed_len(32, bits as nat),
        final(out)@.len() == old(out)@.len(),
        all_fit(values@, bits as nat) ==> unpacked_1x(final(out)@.take(r as int), bits) == values@,
{
    p.compress(values, out, bits)
}

/// Relies on `BitPacker1x::compress_sorted`: it writes the wrapping differences in
/// `bits * 32 / 8` bytes, which `decompress_sorted` with the same `initial`
/// turns back into the block when they fit in `bits` bits; it panics on a
/// block of another length, a short `out` or `bits` above 32.
#[verifier::external_body]
fn compress_sorted_1x(p: &BitPacker1x, initial: u32, values: &[u32], out: &mut [u8], bits: u8) -> (r:
    usize)
    requires
        values@.len() == 32,
        bits <= 32,
        old(out)@.len() >= packed_len(32, bits as nat),
    ensures
        r == packed_len(32, bits as nat),
        final(out)@.len() == old(out)@.len(),
        all_fit(wrapping_deltas(initial, values@), bits as nat) ==> unpacked_sorted_1x(
            initial,
            final(out)@.take(r as int),
            bits,
        ) == values@,
{
    p.compress_sorted(initial, values, out, bits)
}

/// Relies on `BitPacker1x::decompress`: it reads `bits * 32 / 8` bytes and
/// writes the first 32 values of `out` only; it panics on a short `bytes`
/// or `out`, or `bits` above 32.
#[verifier::external_body]
fn decompress_1x(p: &BitPacker1x, bytes: &[u8], out: &mut [u32], bits: u8) -> (r: usize)
    requires
        bits <= 32,
        old(out)@.len() >= 32,
        bytes@.len() >= packed_len(32, bits as nat),
    ensures
        r == packed_len(32, bits as nat),
        final(out)@.len() == old(out)@.len(),
        final(out)@.take(32) == unpacked_1x(bytes@.take(r as int), bits),
        final(out)@.skip(32) == old(out)@.skip(32),
{
    p.decompress(bytes, out, bits)
}

/// Relies on `BitPacker1x::decompress_sorted`: it reads `bits * 32 / 8` bytes
/// and writes the first 32 values of `out` only; it panics on a short
/// `bytes` or `out`, or `bits` above 32.
#[verifier::external_body]
fn decompress_sorted_1x(p: &BitPacker1x, initial: u32, bytes: &[u8], out: &mut [u32], bits: u8) -> (r:
    usize)
    requires
        bits <= 32,
        old(out)@.len() >= 32,
        bytes@.len() >= packed_len(32, bits as nat),
    ensures
        r == packed_len(32, bits as nat),
        final(out)@.len() == old(out)@.len(),
        final(out)@.take(32) == unpacked_sorted_1x(initial, bytes@.take(r as int), bits),
        final(out)@.skip(32) == old(out)@.skip(32),
{
    p.decompress_sorted(initial, bytes, out, bits)
}

impl BlockPacker for BitPacker1x {
    open spec fn spec_block_len() -> nat {
        32
    }

    open spec fn unpacked(bytes: Seq<u8>, bits: u8) -> Seq<u32> {
        unpacked_1x(bytes, bits)
    }

    open spec fn unpacked_sorted(initial: u32, bytes: Seq<u8>, bits: u8) -> Seq<u32> {
        unpacked_sorted_1x(initial, bytes, bits)
    }

    proof fn lemma_block_len() {
    }

    fn block_len(&self) -> (r: usize) {
        block_len_1x()
    }

    fn bits_needed(&self, values: &[u32]) -> (r: u8) {
        num_bits_1x(self, values)
    }

    fn bits_needed_sorted(&self, initial: u32, values: &[u32]) -> (r: u8) {
        num_bits_sorted_1x(self, initial, values)
    }

    fn pack_block(&self, values: &[u32], out: &mut [u8], bits: u8) -> (r: usize) {
        compress_1x(self, values, out, bits)
    }

    fn pack_block_sorted(&self, initial: u32, values: &[u32], out: &mut [u8], bits: u8) -> (r:
        usize) {
        compress_sorted_1x(self, initial, values, out, bits)
    }

    fn unpack_block(&self, bytes: &[u8], out: &mut [u32], bits: u8) -> (r: usize) {
        decompress_1x(self, bytes, out, bits)
    }

    fn unpack_block_sorted(&self, initial: u32, bytes: &[u8], out: &mut [u32], bits: u8) -> (r:
        usize) {
        decompress_sorted_1x(self, initial, bytes, out, bits)
    }
}

#[verifier::external_type_specification]
#[verifier::external_body]
pub struct ExBitPacker4x(BitPacker4x);

/// Relies on `BitPacker4x::BLOCK_LEN`, which is 128.
#[verifier::external_body]
fn block_len_4x() -> (r: usize)
    ensures
        r == 128,
{
    <BitPacker4x as BitPacker>::BLOCK_LEN
}

/// Relies on `BitPacker4x::num_bits`: the bit length of the bitwise or of the
/// block, which is that of its largest value; it panics unless the block has
/// 128 values.
#[verifier::external_body]
fn num_bits_4x(p: &BitPacker4x, values: &[u32]) -> (r: u8)
    requires
        values@.len() == 128,
    ensures
        r == max_bit_len(values@),
{
    p.num_bits(values)
}

/// Relies on `BitPacker4x::num_bits_sorted`: the bit length of the bitwise or of
/// the wrapping differences between neighbours, the first taken from
/// `initial`; it panics unless the block has 128 values.
#[verifier::external_body]
fn num_bits_sorted_4x(p: &BitPacker4x, initial: u32, values: &[u32]) -> (r: u8)
    requires
        values@.len() == 128,
    ensures
        r == max_bit_len(wrapping_deltas(initial, values@)),
{
    p.num_bits_sorted(initial, values)
}

/// Relies on `BitPacker4x::compress`: it writes `bits * 128 / 8` bytes, which
/// `decompress` turns back into the block when its values fit in `bits` bits;
/// it panics on a block of another length, a short `out` or `bits` above 32.
#[verifier::external_body]
fn compress_4x(p: &BitPacker4x, values: &[u32], out: &mut [u8], bits: u8) -> (r: usize)
    requires
        values@.len() == 128,
        bits <= 32,
        old(out)@.len() >= packed_len(128, bits as nat),
    ensures
        r == packed_len(128, bits as nat),
        final(out)@.len() == old(out)@.len(),
        all_fit(values@, bits as nat) ==> unpacked_4x(final(out)@.take(r as int), bits) == values@,
{
    p.compress(values, out, bits)
}

/// Relies on `BitPacker4x::compress_sorted`: it writes the wrapping differences in
/// `bits * 128 / 8` bytes, which `decompress_sorted` with the same `initial`
/// turns back into the block when they fit in `bits` bits; it panics on a
/// block of another length, a short `out` or `bits` above 32.
#[verifier::external_body]
fn compress_sorted_4x(p: &BitPacker4x, initial: u32, values: &[u32], out: &mut [u8], bits: u8) -> (r:
    usize)
    requires
        values@.len() == 128,
        bits <= 32,
        old(out)@.len() >= packed_len(128, bits as nat),
    ensures
        r == packed_len(128, bits as nat),
        final(out)@.len() == old(out)@.len(),
        all_fit(wrapping_deltas(initial, values@), bits as nat) ==> unpacked_sorted_4x(
            initial,
            final(out)@.take(r as int),
            bits,
        ) == values@,
{
    p.compress_sorted(initial, values, out, bits)
}

/// Relies on `BitPacker4x::decompress`: it reads `bits * 128 / 8` bytes and
/// writes the first 128 values of `out` only; it panics on a short `bytes`
/// or `out`, or `bits` above 32.
#[verifier::external_body]
fn decompress_4x(p: &BitPacker4x, bytes: &[u8], out: &mut [u32], bits: u8) -> (r: usize)
    requires
        bits <= 32,
        old(out)@.len() >= 128,
        bytes@.len() >= packed_len(128, bits as nat),
    ensures
        r == packed_len(128, bits as nat),
        final(out)@.len() == old(out)@.len(),
        final(out)@.take(128) == unpacked_4x(bytes@.take(r as int), bits),
        final(out)@.skip(128) == old(out)@.skip(128),
{
    p.decompress(bytes, out, bits)
}

/// Relies on `BitPacker4x::decompress_sorted`: it reads `bits * 128 / 8` bytes
/// and writes the first 128 values of `out` only; it panics on a short
/// `bytes` or `out`, or `bits` above 32.
#[verifier::external_body]
fn decompress_sorted_4x(p: &BitPacker4x, initial: u32, bytes: &[u8], out: &mut [u32], bits: u8) -> (r:
    usize)
    requires
        bits <= 32,
        old(out)@.len() >= 128,
        bytes@.len() >= packed_len(128, bits as nat),
    ensures
        r == packed_len(128, bits as nat),
        final(out)@.len() == old(out)@.len(),
        final(out)@.take(128) == unpacked_sorted_4x(initial, bytes@.take(r as int), bits),
        final(out)@.skip(128) == old(out)@.skip(128),
{
    p.decompress_sorted(initial, bytes, out, bits)
}

impl BlockPacker for BitPacker4x {
    open spec fn spec_block_len() -> nat {
        128
    }

    open spec fn unpacked(bytes: Seq<u8>, bits: u8) -> Seq<u32> {
        unpacked_4x(bytes, bits)
    }

    open spec fn unpacked_sorted(initial: u32, bytes: Seq<u8>, bits: u8) -> Seq<u32> {
        unpacked_sorted_4x(initial, bytes, bits)
    }

    proof fn lemma_block_len() {
    }

    fn block_len(&self) -> (r: usize) {
        block_len_4x()
    }

    fn bits_needed(&self, values: &[u32]) -> (r: u8) {
        num_bits_4x(self, values)
    }

    fn bits_needed_sorted(&self, initial: u32, values: &[u32]) -> (r: u8) {
        num_bits_sorted_4x(self, initial, values)
    }

    fn pack_block(&self, values: &[u32], out: &mut [u8], bits: u8) -> (r: usize) {
        compress_4x(self, values, out, bits)
    }

    fn pack_block_sorted(&self, initial: u32, values: &[u32], out: &mut [u8], bits: u8) -> (r:
        usize) {
        compress_sorted_4x(self, initial, values, out, bits)
    }

    fn unpack_block(&self, bytes: &[u8], out: &mut [u32], bits: u8) -> (r: usize) {
        decompress_4x(self, bytes, out, bits)
    }

    fn unpack_block_sorted(&self, initial: u32, bytes: &[u8], out: &mut [u32], bits: u8) -> (r:
        usize) {
        decompress_sorted_4x(self, initial, bytes, out, bits)
    }
}

#[verifier::external_type_specification]
#[verifier::external_body]
pub struct ExBitPacker8x(BitPacker8x);

/// Relies on `BitPacker8x::BLOCK_LEN`, which is 256.
#[verifier::external_body]
fn block_len_8x() -> (r: usize)
    ensures
        r == 256,
{
    <BitPacker8x as BitPacker>::BLOCK_LEN
}

/// Relies on `BitPacker8x::num_bits`: the bit length of the bitwise or of the
/// block, which is that of its largest value; it panics unless the block has
/// 256 values.
#[verifier::external_body]
fn num_bits_8x(p: &BitPacker8x, values: &[u32]) -> (r: u8)
    requires
        values@.len() == 256,
    ensures
        r == max_bit_len(values@),
{
    p.num_bits(values)
}

/// Relies on `BitPacker8x::num_bits_sorted`: the bit length of the bitwise or of
/// the wrapping differences between neighbours, the first taken from
/// `initial`; it panics unless the block has 256 values.
#[verifier::external_body]
fn num_bits_sorted_8x(p: &BitPacker8x, initial: u32, values: &[u32]) -> (r: u8)
    requires
        values@.len() == 256,
    ensures
        r == max_bit_len(wrapping_deltas(initial, values@)),
{
    p.num_bits_sorted(initial, values)
}

/// Relies on `BitPacker8x::compress`: it writes `bits * 256 / 8` bytes, which
/// `decompress` turns back into the block when its values fit in `bits` bits;
/// it panics on a block of another length, a short `out` or `bits` above 32.
#[verifier::external_body]
fn compress_8x(p: &BitPacker8x, values: &[u32], out: &mut [u8], bits: u8) -> (r: usize)
    requires
        values@.len() == 256,
        bits <= 32,
        old(out)@.len() >= packed_len(256, bits as nat),
    ensures
        r == packed_len(256, bits as nat),
        final(out)@.len() == old(out)@.len(),
        all_fit(values@, bits as nat) ==> unpacked_8x(final(out)@.take(r as int), bits) == values@,
{
    p.compress(values, out, bits)
}

/// Relies on `BitPacker8x::compress_sorted`: it writes the wrapping differences in
/// `bits * 256 / 8` bytes, which `decompress_sorted` with the same `initial`
/// turns back into the block when they fit in `bits` bits; it panics on a
/// block of another length, a short `out` or `bits` above 32.
#[verifier::external_body]
fn compress_sorted_8x(p: &BitPacker8x, initial: u32, values: &[u32], out: &mut [u8], bits: u8) -> (r:
    usize)
    requires
        values@.len() == 256,
        bits <= 32,
        old(out)@.len() >= packed_len(256, bits as nat),
    ensures
        r == packed_len(256, bits as nat),
        final(out)@.len() == old(out)@.len(),
        all_fit(wrapping_deltas(initial, values@), bits as nat) ==> unpacked_sorted_8x(
            initial,
            final(out)@.take(r as int),
            bits,
        ) == values@,
{
    p.compress_sorted(initial, values, out, bits)
}

/// Relies on `BitPacker8x::decompress`: it reads `bits * 256 / 8` bytes and
/// writes the first 256 values of `out` only; it panics on a short `bytes`
/// or `out`, or `bits` above 32.
#[verifier::external_body]
fn decompress_8x(p: &BitPacker8x, bytes: &[u8], out: &mut [u32], bits: u8) -> (r: usize)
    requires
        bits <= 32,
        old(out)@.len() >= 256,
        bytes@.len() >= packed_len(256, bits as nat),
    ensures
        r == packed_len(256, bits as nat),
        final(out)@.len() == old(out)@.len(),
        final(out)@.take(256) == unpacked_8x(bytes@.take(r as int), bits),
        final(out)@.skip(256) == old(out)@.skip(256),
{
    p.decompress(bytes, out, bits)
}

/// Relies on `BitPacker8x::decompress_sorted`: it reads `bits * 256 / 8` bytes
/// and writes the first 256 values of `out` only; it panics on a short
/// `bytes` or `out`, or `bits` above 32.
#[verifier::external_body]
fn decompress_sorted_8x(p: &BitPacker8x, initial: u32, bytes: &[u8], out: &mut [u32], bits: u8) -> (r:
    usize)
    requires
        bits <= 32,
        old(out)@.len() >= 256,
        bytes@.len() >= packed_len(256, bits as nat),
    ensures
        r == packed_len(256, bits as nat),
        final(out)@.len() == old(out)@.len(),
        final(out)@.take(256) == unpacked_sorted_8x(initial, bytes@.take(r as int), bits),
        final(out)@.skip(256) == old(out)@.skip(256),
{
    p.decompress_sorted(initial, bytes, out, bits)
}

impl BlockPacker for BitPacker8x {
    open spec fn spec_block_len() -> nat {
        256
    }

    open spec fn unpacked(bytes: Seq<u8>, bits: u8) -> Seq<u32> {
        unpacked_8x(bytes, bits)
    }

    open spec fn unpacked_sorted(initial: u32, bytes: Seq<u8>, bits: u8) -> Seq<u32> {
        unpacked_sorted_8x(initial, bytes, bits)
    }

    proof fn lemma_block_len() {
    }

    fn block_len(&self) -> (r: usize) {
        block_len_8x()
    }

    fn bits_needed(&self, values: &[u32]) -> (r: u8) {
        num_bits_8x(self, values)
    }

    fn bits_needed_sorted(&self, initial: u32, values: &[u32]) -> (r: u8) {
        num_bits_sorted_8x(self, initial, values)
    }

    fn pack_block(&self, values: &[u32], out: &mut [u8], bits: u8) -> (r: usize) {
        compress_8x(self, values, out, bits)
    }

    fn pack_block_sorted(&self, initial: u32, values: &[u32], out: &mut [u8], bits: u8) -> (r:
        usize) {
        compress_sorted_8x(self, initial, values, out, bits)
    }

    fn unpack_block(&self, bytes: &[u8], out: &mut [u32], bits: u8) -> (r: usize) {
        decompress_8x(self, bytes, out, bits)
    }

    fn unpack_block_sorted(&self, initial: u32, bytes: &[u8], out: &mut [u32], bits: u8) -> (r:
        usize) {
        decompress_sorted_8x(self, initial, bytes, out, bits)
    }
}

} // verus!
