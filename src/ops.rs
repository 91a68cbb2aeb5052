//! Pack and unpack operations of the four formats, on top of a block packer.
//!
//! A bit width of 0 given to a pack operation asks for the smallest width in
//! which the (transformed) block fits. Unpack operations need the concrete
//! width that was used, and the `d1` and `d1z` formats also the value before
//! the block: neither is stored in the bytes.
use crate::convert::{
    all_below_max, d1z_to_vanilla, lemma_d1z_codes_inverse, lemma_minus_one_inverse, all_positive, d1z_codes, d1z_fits, decode_fits, decoding, m1_to_vanilla_self,
    minus_one, plus_one, vanilla_to_d1z, vanilla_to_m1, CodecError,
};
use crate::packer::{
    all_fit, bit_len, lemma_max_bit_len, max_bit_len, packed_len, wrapping_deltas, BlockPacker,
};
use bitpacking::{BitPacker1x, BitPacker4x, BitPacker8x};
use vstd::prelude::*;

verus! {

/// The width that a pack operation uses: `num_bits`, or when it is 0 the
/// smallest width in which every value of `s` fits.
pub open spec fn resolved_width(num_bits: u8, s: Seq<u32>) -> nat {
    if num_bits == 0 {
        max_bit_len(s)
    } else {
        num_bits as nat
    }
}

/// What packing the block `s` (already transformed) at `num_bits` into a
/// buffer of `out_len` bytes returns, once the block's length is checked.
pub open spec fn pack_outcome(block: nat, s: Seq<u32>, out_len: nat, num_bits: u8) -> Result<
    usize,
    CodecError,
> {
    if num_bits > 32 {
        Err(CodecError::InvalidBitWidth)
    } else if out_len < packed_len(block, resolved_width(num_bits, s)) {
        Err(CodecError::BufferTooSmall)
    } else {
        Ok(packed_len(block, resolved_width(num_bits, s)) as usize)
    }
}

/// What unpacking one block of `block` values at `num_bits` from `bytes_len`
/// bytes into a buffer of `out_len` values returns, before any transform.
pub open spec fn unpack_outcome(block: nat, bytes_len: nat, out_len: nat, num_bits: u8) -> Result<
    usize,
    CodecError,
> {
    if num_bits == 0 || num_bits > 32 {
        Err(CodecError::InvalidBitWidth)
    } else if out_len < block || bytes_len < packed_len(block, num_bits as nat) {
        Err(CodecError::BufferTooSmall)
    } else {
        Ok(packed_len(block, num_bits as nat) as usize)
    }
}

/// The values that one block of `bytes` unpacks to at `bits` bits.
pub open spec fn unpacked_block<P: BlockPacker>(bytes: Seq<u8>, bits: u8) -> Seq<u32> {
    P::unpacked(bytes.take(packed_len(P::spec_block_len(), bits as nat) as int), bits)
}

/// The values that one block of `bytes` in the sorted format unpacks to at
/// `bits` bits, after `initial`.
pub open spec fn unpacked_sorted_block<P: BlockPacker>(initial: u32, bytes: Seq<u8>, bits: u8) -> Seq<
    u32,
> {
    P::unpacked_sorted(initial, bytes.take(packed_len(P::spec_block_len(), bits as nat) as int), bits)
}

/// Copies the first `count` values of `src` over those of `dst`.
fn copy_front(src: &[u32], dst: &mut [u32], count: usize)
    requires
        count <= src@.len(),
        count <= old(dst)@.len(),
    ensures
        final(dst)@.len() == old(dst)@.len(),
        final(dst)@.take(count as int) == src@.take(count as int),
        final(dst)@.skip(count as int) == old(dst)@.skip(count as int),
{
    let mut i: usize = 0;
    while i < count
        invariant
            count <= src@.len(),
            dst@.len() == old(dst)@.len(),
            count <= dst@.len(),
            i <= count,
            forall|j: int| 0 <= j < i ==> dst@[j] == src@[j],
            forall|j: int| i <= j < dst@.len() ==> dst@[j] == old(dst)@[j],
        decreases count - i,
    {
        dst[i] = src[i];
        i = i + 1;
    }
    assert(dst@.take(count as int) =~= src@.take(count as int));
    assert(dst@.skip(count as int) =~= old(dst)@.skip(count as int));
}

/// `(bytes * 8) / bits` is the block length when `bytes` is the packed size of
/// a block at `bits` bits.
fn recovered_count(bytes: usize, bits: u8, block: Ghost<nat>) -> (r: usize)
    requires
        0 < bits <= 32,
        block@ % 32 == 0,
        block@ <= 256,
        bytes == packed_len(block@, bits as nat),
    ensures
        r == block@,
{
    assert((bytes as int) * 8 / (bits as int) == block@ && bytes * 8 <= 256 * 32) by (nonlinear_arith)
        requires
            0 < bits <= 32,
            block@ % 32 == 0,
            block@ <= 256,
            bytes == block@ * bits / 8,
    ;
    bytes * 8 / (bits as usize)
}

/// Number of bytes that a block of `block` values takes at `bits` bits each.
fn packed_bytes(block: usize, bits: u8) -> (r: usize)
    requires
        block <= 256,
        bits <= 32,
    ensures
        r == packed_len(block as nat, bits as nat),
{
    assert(block * (bits as usize) <= 256 * 32) by (nonlinear_arith)
        requires
            block <= 256,
            bits <= 32,
    ;
    block * (bits as usize) / 8
}

/// Pack and unpack operations in the `vanilla`, `m1`, `d1` and `d1z` formats.
pub trait BitPackOps: BlockPacker + Sized {
    /// Packs the block as it is. Returns the number of bytes written.
    fn pack(&self, decompressed: &[u32], compressed: &mut [u8], num_bits: u8) -> (r: Result<
        usize,
        CodecError,
    >)
        ensures
            decompressed@.len() != Self::spec_block_len() ==> r == Err::<usize, CodecError>(
                CodecError::LengthMismatch,
            ),
            decompressed@.len() == Self::spec_block_len() ==> r == pack_outcome(
                Self::spec_block_len(),
                decompressed@,
                old(compressed)@.len(),
                num_bits,
            ),
            final(compressed)@.len() == old(compressed)@.len(),
            r is Err ==> final(compressed)@ == old(compressed)@,
            r is Ok && all_fit(decompressed@, resolved_width(num_bits, decompressed@))
                ==> Self::unpacked(
                final(compressed)@.take(r->Ok_0 as int),
                resolved_width(num_bits, decompressed@) as u8,
            ) == decompressed@,
    {
        let block = self.block_len();
        if decompressed.len() != block {
            return Err(CodecError::LengthMismatch);
        }
        if num_bits > 32 {
            return Err(CodecError::InvalidBitWidth);
        }
        let bits: u8 = if num_bits == 0 {
            self.bits_needed(decompressed)
        } else {
            num_bits
        };
        proof {
            Self::lemma_block_len();
            lemma_max_bit_len(decompressed@);
        }
        let need = packed_bytes(block, bits);
        if compressed.len() < need {
            return Err(CodecError::BufferTooSmall);
        }
        let n = self.pack_block(decompressed, compressed, bits);
        Ok(n)
    }

    /// Unpacks one block as it is. Returns the number of bytes read.
    fn unpack(&self, compressed: &[u8], decompressed: &mut [u32], num_bits: u8) -> (r: Result<
        usize,
        CodecError,
    >)
        ensures
            r == unpack_outcome(
                Self::spec_block_len(),
                compressed@.len(),
                old(decompressed)@.len(),
                num_bits,
            ),
            final(decompressed)@.len() == old(decompressed)@.len(),
            r is Err ==> final(decompressed)@ == old(decompressed)@,
            r is Ok ==> final(decompressed)@.take(Self::spec_block_len() as int) == Self::unpacked(
                compressed@.take(r->Ok_0 as int),
                num_bits,
            ),
            r is Ok ==> final(decompressed)@.skip(Self::spec_block_len() as int) == old(
                decompressed,
            )@.skip(Self::spec_block_len() as int),
    {
        let block = self.block_len();
        if num_bits == 0 || num_bits > 32 {
            return Err(CodecError::InvalidBitWidth);
        }
        proof {
            Self::lemma_block_len();
        }
        let need = packed_bytes(block, num_bits);
        if decompressed.len() < block || compressed.len() < need {
            return Err(CodecError::BufferTooSmall);
        }
        let n = self.unpack_block(compressed, decompressed, num_bits);
        Ok(n)
    }

    /// Lowers every value by one and packs the result. Returns the number of
    /// bytes written.
    fn pack_m1(&self, decompressed: &[u32], compressed: &mut [u8], num_bits: u8) -> (r: Result<
        usize,
        CodecError,
    >)
        ensures
            decompressed@.len() != Self::spec_block_len() ==> r == Err::<usize, CodecError>(
                CodecError::LengthMismatch,
            ),
            decompressed@.len() == Self::spec_block_len() && num_bits > 32 ==> r == Err::<
                usize,
                CodecError,
            >(CodecError::InvalidBitWidth),
            decompressed@.len() == Self::spec_block_len() && num_bits <= 32 && !all_positive(
                decompressed@,
            ) ==> r == Err::<usize, CodecError>(CodecError::ZeroValue),
            decompressed@.len() == Self::spec_block_len() && all_positive(decompressed@) ==> r
                == pack_outcome(
                Self::spec_block_len(),
                minus_one(decompressed@),
                old(compressed)@.len(),
                num_bits,
            ),
            final(compressed)@.len() == old(compressed)@.len(),
            r is Err ==> final(compressed)@ == old(compressed)@,
            r is Ok && all_fit(
                minus_one(decompressed@),
                resolved_width(num_bits, minus_one(decompressed@)),
            ) ==> Self::unpacked(
                final(compressed)@.take(r->Ok_0 as int),
                resolved_width(num_bits, minus_one(decompressed@)) as u8,
            ) == minus_one(decompressed@),
    {
        let block = self.block_len();
        if decompressed.len() != block {
            return Err(CodecError::LengthMismatch);
        }
        if num_bits > 32 {
            return Err(CodecError::InvalidBitWidth);
        }
        let mut tmp: Vec<u32> = vec![0u32; block];
        match vanilla_to_m1(decompressed, tmp.as_mut_slice()) {
            Err(e) => {
                return Err(e);
            },
            Ok(()) => {},
        }
        assert(tmp@ =~= minus_one(decompressed@));
        self.pack(tmp.as_slice(), compressed, num_bits)
    }

    /// Unpacks one block and raises every value by one. Returns the number of
    /// bytes read.
    fn unpack_m1(&self, compressed: &[u8], decompressed: &mut [u32], num_bits: u8) -> (r: Result<
        usize,
        CodecError,
    >)
        ensures
            unpack_outcome(
                Self::spec_block_len(),
                compressed@.len(),
                old(decompressed)@.len(),
                num_bits,
            ) is Err ==> r == unpack_outcome(
                Self::spec_block_len(),
                compressed@.len(),
                old(decompressed)@.len(),
                num_bits,
            ),
            unpack_outcome(
                Self::spec_block_len(),
                compressed@.len(),
                old(decompressed)@.len(),
                num_bits,
            ) is Ok ==> r == if all_below_max(unpacked_block::<Self>(compressed@, num_bits)) {
                unpack_outcome(
                    Self::spec_block_len(),
                    compressed@.len(),
                    old(decompressed)@.len(),
                    num_bits,
                )
            } else {
                Err::<usize, CodecError>(CodecError::Overflow)
            },
            final(decompressed)@.len() == old(decompressed)@.len(),
            r is Err ==> final(decompressed)@ == old(decompressed)@,
            r is Ok ==> final(decompressed)@.take(Self::spec_block_len() as int) == plus_one(
                unpacked_block::<Self>(compressed@, num_bits),
            ),
            r is Ok ==> final(decompressed)@.skip(Self::spec_block_len() as int) == old(
                decompressed,
            )@.skip(Self::spec_block_len() as int),
    {
        let block = self.block_len();
        if num_bits == 0 || num_bits > 32 {
            return Err(CodecError::InvalidBitWidth);
        }
        proof {
            Self::lemma_block_len();
        }
        let need = packed_bytes(block, num_bits);
        if decompressed.len() < block || compressed.len() < need {
            return Err(CodecError::BufferTooSmall);
        }
        let mut tmp: Vec<u32> = vec![0u32; block];
        let n = self.unpack_block(compressed, tmp.as_mut_slice(), num_bits);
        assert(tmp@ =~= unpacked_block::<Self>(compressed@, num_bits));
        match m1_to_vanilla_self(tmp.as_mut_slice()) {
            Err(e) => {
                return Err(e);
            },
            Ok(()) => {},
        }
        assert(tmp@ =~= plus_one(unpacked_block::<Self>(compressed@, num_bits)));
        let count = recovered_count(n, num_bits, Ghost(Self::spec_block_len()));
        copy_front(tmp.as_slice(), decompressed, count);
        assert(tmp@.take(count as int) =~= tmp@);
        Ok(n)
    }

    /// Packs the steps of the block from its first value on, in the sorted
    /// format of the packer. Returns the number of bytes written.
    fn pack_d1(&self, decompressed: &[u32], compressed: &mut [u8], num_bits: u8) -> (r: Result<
        usize,
        CodecError,
    >)
        ensures
            decompressed@.len() != Self::spec_block_len() ==> r == Err::<usize, CodecError>(
                CodecError::LengthMismatch,
            ),
            decompressed@.len() == Self::spec_block_len() ==> r == pack_outcome(
                Self::spec_block_len(),
                wrapping_deltas(decompressed@[0], decompressed@),
                old(compressed)@.len(),
                num_bits,
            ),
            final(compressed)@.len() == old(compressed)@.len(),
            r is Err ==> final(compressed)@ == old(compressed)@,
            r is Ok && all_fit(
                wrapping_deltas(decompressed@[0], decompressed@),
                resolved_width(num_bits, wrapping_deltas(decompressed@[0], decompressed@)),
            ) ==> Self::unpacked_sorted(
                decompressed@[0],
                final(compressed)@.take(r->Ok_0 as int),
                resolved_width(num_bits, wrapping_deltas(decompressed@[0], decompressed@)) as u8,
            ) == decompressed@,
    {
        let block = self.block_len();
        if decompressed.len() != block {
            return Err(CodecError::LengthMismatch);
        }
        if num_bits > 32 {
            return Err(CodecError::InvalidBitWidth);
        }
        proof {
            Self::lemma_block_len();
            lemma_max_bit_len(wrapping_deltas(decompressed@[0], decompressed@));
        }
        let initial = decompressed[0];
        let bits: u8 = if num_bits == 0 {
            self.bits_needed_sorted(initial, decompressed)
        } else {
            num_bits
        };
        let need = packed_bytes(block, bits);
        if compressed.len() < need {
            return Err(CodecError::BufferTooSmall);
        }
        let n = self.pack_block_sorted(initial, decompressed, compressed, bits);
        Ok(n)
    }

    /// Unpacks one block in the sorted format of the packer, adding the steps
    /// up from `initial` on. Returns the number of bytes read.
    fn unpack_d1(&self, initial: u32, compressed: &[u8], decompressed: &mut [u32], num_bits: u8) -> (r:
        Result<usize, CodecError>)
        ensures
            r == unpack_outcome(
                Self::spec_block_len(),
                compressed@.len(),
                old(decompressed)@.len(),
                num_bits,
            ),
            final(decompressed)@.len() == old(decompressed)@.len(),
            r is Err ==> final(decompressed)@ == old(decompressed)@,
            r is Ok ==> final(decompressed)@.take(Self::spec_block_len() as int)
                == unpacked_sorted_block::<Self>(initial, compressed@, num_bits),
            r is Ok ==> final(decompressed)@.skip(Self::spec_block_len() as int) == old(
                decompressed,
            )@.skip(Self::spec_block_len() as int),
    {
        let block = self.block_len();
        if num_bits == 0 || num_bits > 32 {
            return Err(CodecError::InvalidBitWidth);
        }
        proof {
            Self::lemma_block_len();
        }
        let need = packed_bytes(block, num_bits);
        if decompressed.len() < block || compressed.len() < need {
            return Err(CodecError::BufferTooSmall);
        }
        let n = self.unpack_block_sorted(initial, compressed, decompressed, num_bits);
        Ok(n)
    }

    /// Replaces the block by its `d1z` codes and packs them. Returns the
    /// number of bytes written.
    fn pack_d1z(&self, decompressed: &[u32], compressed: &mut [u8], num_bits: u8) -> (r: Result<
        usize,
        CodecError,
    >)
        ensures
            decompressed@.len() != Self::spec_block_len() ==> r == Err::<usize, CodecError>(
                CodecError::LengthMismatch,
            ),
            decompressed@.len() == Self::spec_block_len() && num_bits > 32 ==> r == Err::<
                usize,
                CodecError,
            >(CodecError::InvalidBitWidth),
            decompressed@.len() == Self::spec_block_len() && num_bits <= 32 && !d1z_fits(
                decompressed@,
            ) ==> r == Err::<usize, CodecError>(CodecError::Overflow),
            decompressed@.len() == Self::spec_block_len() && d1z_fits(decompressed@) ==> r
                == pack_outcome(
                Self::spec_block_len(),
                d1z_codes(decompressed@),
                old(compressed)@.len(),
                num_bits,
            ),
            final(compressed)@.len() == old(compressed)@.len(),
            r is Err ==> final(compressed)@ == old(compressed)@,
            r is Ok && all_fit(
                d1z_codes(decompressed@),
                resolved_width(num_bits, d1z_codes(decompressed@)),
            ) ==> Self::unpacked(
                final(compressed)@.take(r->Ok_0 as int),
                resolved_width(num_bits, d1z_codes(decompressed@)) as u8,
            ) == d1z_codes(decompressed@),
    {
        let block = self.block_len();
        if decompressed.len() != block {
            return Err(CodecError::LengthMismatch);
        }
        if num_bits > 32 {
            return Err(CodecError::InvalidBitWidth);
        }
        let mut tmp: Vec<u32> = vec![0u32; block];
        match vanilla_to_d1z(decompressed, tmp.as_mut_slice()) {
            Err(e) => {
                return Err(e);
            },
            Ok(()) => {},
        }
        assert(tmp@ =~= d1z_codes(decompressed@));
        self.pack(tmp.as_slice(), compressed, num_bits)
    }

    /// Unpacks one block of `d1z` codes and decodes them from `initial` on.
    /// Returns the number of bytes read.
    fn unpack_d1z(&self, initial: u32, compressed: &[u8], decompressed: &mut [u32], num_bits: u8) -> (r:
        Result<usize, CodecError>)
        ensures
            unpack_outcome(
                Self::spec_block_len(),
                compressed@.len(),
                old(decompressed)@.len(),
                num_bits,
            ) is Err ==> r == unpack_outcome(
                Self::spec_block_len(),
                compressed@.len(),
                old(decompressed)@.len(),
                num_bits,
            ),
            unpack_outcome(
                Self::spec_block_len(),
                compressed@.len(),
                old(decompressed)@.len(),
                num_bits,
            ) is Ok ==> r == if decode_fits(
                initial as int,
                unpacked_block::<Self>(compressed@, num_bits),
            ) {
                unpack_outcome(
                    Self::spec_block_len(),
                    compressed@.len(),
                    old(decompressed)@.len(),
                    num_bits,
                )
            } else {
                Err::<usize, CodecError>(CodecError::Overflow)
            },
            final(decompressed)@.len() == old(decompressed)@.len(),
            r is Err ==> final(decompressed)@ == old(decompressed)@,
            r is Ok ==> final(decompressed)@.take(Self::spec_block_len() as int) == decoding(
                initial as int,
                unpacked_block::<Self>(compressed@, num_bits),
            ),
            r is Ok ==> final(decompressed)@.skip(Self::spec_block_len() as int) == old(
                decompressed,
            )@.skip(Self::spec_block_len() as int),
    {
        let block = self.block_len();
        if num_bits == 0 || num_bits > 32 {
            return Err(CodecError::InvalidBitWidth);
        }
        proof {
            Self::lemma_block_len();
        }
        let need = packed_bytes(block, num_bits);
        if decompressed.len() < block || compressed.len() < need {
            return Err(CodecError::BufferTooSmall);
        }
        let mut codes: Vec<u32> = vec![0u32; block];
        let n = self.unpack_block(compressed, codes.as_mut_slice(), num_bits);
        assert(codes@ =~= unpacked_block::<Self>(compressed@, num_bits));
        let mut tmp: Vec<u32> = vec![0u32; block];
        match d1z_to_vanilla(codes.as_slice(), tmp.as_mut_slice(), initial) {
            Err(e) => {
                return Err(e);
            },
            Ok(()) => {},
        }
        assert(tmp@ =~= decoding(initial as int, codes@));
        let count = recovered_count(n, num_bits, Ghost(Self::spec_block_len()));
        copy_front(tmp.as_slice(), decompressed, count);
        assert(tmp@.take(count as int) =~= tmp@);
        Ok(n)
    }
}

impl BitPackOps for BitPacker1x {

}

impl BitPackOps for BitPacker4x {

}

impl BitPackOps for BitPacker8x {

}

/// Packing a block as it is and unpacking it at the width that `pack` used
/// gives back the block: when the bytes start with what `pack` wrote, one
/// block unpacked from them is the block. The width is nonzero unless every
/// value is zero and no width was given.
pub proof fn lemma_round_trip<P: BlockPacker>(values: Seq<u32>, num_bits: u8, bytes: Seq<u8>)
    requires
        values.len() == P::spec_block_len(),
        num_bits <= 32,
        all_fit(values, resolved_width(num_bits, values)),
        P::unpacked(
            bytes.take(packed_len(P::spec_block_len(), resolved_width(num_bits, values)) as int),
            resolved_width(num_bits, values) as u8,
        ) == values,
    ensures
        resolved_width(num_bits, values) <= 32,
        unpacked_block::<P>(bytes, resolved_width(num_bits, values) as u8) == values,
        resolved_width(num_bits, values) == 0 ==> forall|i: int|
            0 <= i < values.len() ==> values[i] == 0,
{
    lemma_max_bit_len(values);
    if resolved_width(num_bits, values) == 0 {
        assert forall|i: int| 0 <= i < values.len() implies values[i] == 0 by {
            assert(bit_len(values[i] as nat) <= 0);
        }
    }
}

/// `m1` round trip: when the bytes start with what `pack_m1` wrote for a
/// block without zeros, `unpack_m1` at the same width does not overflow and
/// gives back the block.
pub proof fn lemma_round_trip_m1<P: BlockPacker>(values: Seq<u32>, num_bits: u8, bytes: Seq<u8>)
    requires
        values.len() == P::spec_block_len(),
        all_positive(values),
        num_bits <= 32,
        all_fit(minus_one(values), resolved_width(num_bits, minus_one(values))),
        P::unpacked(
            bytes.take(
                packed_len(P::spec_block_len(), resolved_width(num_bits, minus_one(values))) as int,
            ),
            resolved_width(num_bits, minus_one(values)) as u8,
        ) == minus_one(values),
    ensures
        resolved_width(num_bits, minus_one(values)) <= 32,
        all_below_max(unpacked_block::<P>(bytes, resolved_width(num_bits, minus_one(values)) as u8)),
        plus_one(unpacked_block::<P>(bytes, resolved_width(num_bits, minus_one(values)) as u8))
            == values,
{
    lemma_max_bit_len(minus_one(values));
    lemma_minus_one_inverse(values);
}

/// `d1` round trip: when the bytes start with what `pack_d1` wrote,
/// `unpack_d1` at the same width and with the block's first value as initial
/// value gives back the block.
pub proof fn lemma_round_trip_d1<P: BlockPacker>(values: Seq<u32>, num_bits: u8, bytes: Seq<u8>)
    requires
        values.len() == P::spec_block_len(),
        values.len() > 0,
        num_bits <= 32,
        all_fit(
            wrapping_deltas(values[0], values),
            resolved_width(num_bits, wrapping_deltas(values[0], values)),
        ),
        P::unpacked_sorted(
            values[0],
            bytes.take(
                packed_len(
                    P::spec_block_len(),
                    resolved_width(num_bits, wrapping_deltas(values[0], values)),
                ) as int,
            ),
            resolved_width(num_bits, wrapping_deltas(values[0], values)) as u8,
        ) == values,
    ensures
        resolved_width(num_bits, wrapping_deltas(values[0], values)) <= 32,
        unpacked_sorted_block::<P>(
            values[0],
            bytes,
            resolved_width(num_bits, wrapping_deltas(values[0], values)) as u8,
        ) == values,
{
    lemma_max_bit_len(wrapping_deltas(values[0], values));
}

/// `d1z` round trip: when the bytes start with what `pack_d1z` wrote,
/// `unpack_d1z` at the same width and with the block's first value as initial
/// value does not overflow and gives back the block.
pub proof fn lemma_round_trip_d1z<P: BlockPacker>(values: Seq<u32>, num_bits: u8, bytes: Seq<u8>)
    requires
        values.len() == P::spec_block_len(),
        values.len() > 0,
        d1z_fits(values),
        num_bits <= 32,
        all_fit(d1z_codes(values), resolved_width(num_bits, d1z_codes(values))),
        P::unpacked(
            bytes.take(
                packed_len(P::spec_block_len(), resolved_width(num_bits, d1z_codes(values))) as int,
            ),
            resolved_width(num_bits, d1z_codes(values)) as u8,
        ) == d1z_codes(values),
    ensures
        resolved_width(num_bits, d1z_codes(values)) <= 32,
        decode_fits(
            values[0] as int,
            unpacked_block::<P>(bytes, resolved_width(num_bits, d1z_codes(values)) as u8),
        ),
        decoding(
            values[0] as int,
            unpacked_block::<P>(bytes, resolved_width(num_bits, d1z_codes(values)) as u8),
        ) == values,
{
    lemma_max_bit_len(d1z_codes(values));
    lemma_d1z_codes_inverse(values);
}

/// With width 0 the width that a pack operation picks is a function of the
/// block alone, so two packs of one block write the same number of bytes,
/// and every value of the block fits in it, so both unpack to the block.
pub proof fn lemma_auto_width<P: BlockPacker>(values: Seq<u32>, out_len1: nat, out_len2: nat)
    requires
        values.len() == P::spec_block_len(),
        pack_outcome(P::spec_block_len(), values, out_len1, 0) is Ok,
        pack_outcome(P::spec_block_len(), values, out_len2, 0) is Ok,
    ensures
        pack_outcome(P::spec_block_len(), values, out_len1, 0) == pack_outcome(
            P::spec_block_len(),
            values,
            out_len2,
            0,
        ),
        all_fit(values, resolved_width(0, values)),
{
    lemma_max_bit_len(values);
}

} // verus!
