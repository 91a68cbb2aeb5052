use bitpacking::{BitPacker, BitPacker1x, BitPacker4x, BitPacker8x};
use bitpacking_plus::{
    d1z_to_vanilla, d1z_to_vanilla_self, m1_to_vanilla, m1_to_vanilla_self, vanilla_to_d1z,
    vanilla_to_d1z_self, vanilla_to_m1, vanilla_to_m1_self, BitPackOps, BlockPacker, CodecError,
};
use rand::{thread_rng, Rng};

#[derive(Debug)]
enum PackMethod {
    Vanilla,
    M1,
    D1,
    D1Z,
}

fn test_unpack_helper<P: BitPackOps>(
    bitpacker: &P,
    decompressed: &[u32],
    compressed: &mut [u8],
    block_size: usize,
    pack_method: PackMethod,
) {
    println!("Test method: {:?}", &pack_method);
    let initial = decompressed[0];
    let block = decompressed.get(0..block_size).unwrap();
    let n1 = match pack_method {
        PackMethod::Vanilla => bitpacker.pack(block, compressed, 0),
        PackMethod::M1 => bitpacker.pack_m1(block, compressed, 0),
        PackMethod::D1 => bitpacker.pack_d1(block, compressed, 0),
        PackMethod::D1Z => bitpacker.pack_d1z(block, compressed, 0),
    }
    .unwrap();
    let num_bits = 8 * n1 / block_size;
    let mut new_decompressed = [0_u32; 256];
    let n2 = match pack_method {
        PackMethod::Vanilla => bitpacker.unpack(compressed, &mut new_decompressed, num_bits as u8),
        PackMethod::M1 => bitpacker.unpack_m1(compressed, &mut new_decompressed, num_bits as u8),
        PackMethod::D1 => {
            bitpacker.unpack_d1(initial, compressed, &mut new_decompressed, num_bits as u8)
        }
        PackMethod::D1Z => {
            bitpacker.unpack_d1z(initial, compressed, &mut new_decompressed, num_bits as u8)
        }
    }
    .unwrap();
    assert_eq!(n1, n2);
    assert_eq!(
        decompressed.get(0..block_size).unwrap(),
        new_decompressed.get(0..block_size).unwrap()
    );
    println!("Bytes used: {}", n1);
}

#[test]
fn test_all() {
    let mut my_data: [u32; 256] = [(); 256].map(|_| thread_rng().gen_range(0..20000));
    println!("Input: {:?}\n", my_data);

    let mut compressed = [0_u8; 8192];

    let bitpacker1 = BitPacker1x::new();
    let bitpacker8 = BitPacker8x::new();

    test_unpack_helper(&bitpacker1, &my_data, &mut compressed, BitPacker1x::BLOCK_LEN, PackMethod::Vanilla);
    test_unpack_helper(&bitpacker8, &my_data, &mut compressed, BitPacker8x::BLOCK_LEN, PackMethod::Vanilla);

    test_unpack_helper(&bitpacker1, &my_data, &mut compressed, BitPacker1x::BLOCK_LEN, PackMethod::M1);
    test_unpack_helper(&bitpacker8, &my_data, &mut compressed, BitPacker8x::BLOCK_LEN, PackMethod::M1);

    my_data.sort();

    test_unpack_helper(&bitpacker1, &my_data, &mut compressed, BitPacker1x::BLOCK_LEN, PackMethod::D1);
    test_unpack_helper(&bitpacker8, &my_data, &mut compressed, BitPacker8x::BLOCK_LEN, PackMethod::D1);

    test_unpack_helper(&bitpacker1, &my_data, &mut compressed, BitPacker1x::BLOCK_LEN, PackMethod::D1Z);
    test_unpack_helper(&bitpacker8, &my_data, &mut compressed, BitPacker8x::BLOCK_LEN, PackMethod::D1Z);
}

/// A fixed pseudo-random block of `n` values below `bound`, none of them zero.
fn sample_block(n: usize, bound: u32, seed: u32) -> Vec<u32> {
    let mut state = seed;
    (0..n)
        .map(|_| {
            state = state.wrapping_mul(1_664_525).wrapping_add(1_013_904_223);
            1 + (state >> 8) % (bound - 1)
        })
        .collect()
}

fn round_trip_all_formats<P: BitPackOps>(packer: &P, values: &[u32], num_bits: u8) {
    let mut bytes = vec![0_u8; 4 * values.len()];
    let mut out = vec![0_u32; values.len()];

    let n = packer.pack(values, &mut bytes, num_bits).unwrap();
    let width = (8 * n / values.len()) as u8;
    assert_eq!(packer.unpack(&bytes, &mut out, width), Ok(n));
    assert_eq!(out, values);

    let n = packer.pack_m1(values, &mut bytes, num_bits).unwrap();
    let width = (8 * n / values.len()) as u8;
    out.iter_mut().for_each(|v| *v = 0);
    assert_eq!(packer.unpack_m1(&bytes, &mut out, width), Ok(n));
    assert_eq!(out, values);

    let mut sorted = values.to_vec();
    sorted.sort();
    let n = packer.pack_d1(&sorted, &mut bytes, num_bits).unwrap();
    let width = (8 * n / values.len()) as u8;
    out.iter_mut().for_each(|v| *v = 0);
    assert_eq!(packer.unpack_d1(sorted[0], &bytes, &mut out, width), Ok(n));
    assert_eq!(out, sorted);

    let n = packer.pack_d1z(values, &mut bytes, num_bits).unwrap();
    let width = (8 * n / values.len()) as u8;
    out.iter_mut().for_each(|v| *v = 0);
    assert_eq!(packer.unpack_d1z(values[0], &bytes, &mut out, width), Ok(n));
    assert_eq!(out, values);
}

#[test]
fn round_trip_every_packer_and_format() {
    let packer1 = BitPacker1x::new();
    let packer4 = BitPacker4x::new();
    let packer8 = BitPacker8x::new();
    round_trip_all_formats(&packer1, &sample_block(32, 20000, 1), 0);
    round_trip_all_formats(&packer4, &sample_block(128, 20000, 2), 0);
    round_trip_all_formats(&packer8, &sample_block(256, 20000, 3), 0);
    round_trip_all_formats(&packer4, &sample_block(128, 1000, 4), 32);
    round_trip_all_formats(&packer8, &sample_block(256, 3, 5), 20);
}

#[test]
fn offset_scenario() {
    let from = [5_u32, 5, 7, 3];
    let mut to = [0_u32; 4];
    assert_eq!(vanilla_to_m1(&from, &mut to), Ok(()));
    assert_eq!(to, [4, 4, 6, 2]);
    let mut back = [0_u32; 4];
    assert_eq!(m1_to_vanilla(&to, &mut back), Ok(()));
    assert_eq!(back, [5, 5, 7, 3]);

    let mut data = [5_u32, 5, 7, 3];
    assert_eq!(vanilla_to_m1_self(&mut data), Ok(()));
    assert_eq!(data, [4, 4, 6, 2]);
    assert_eq!(m1_to_vanilla_self(&mut data), Ok(()));
    assert_eq!(data, [5, 5, 7, 3]);
}

#[test]
fn delta_zigzag_scenario() {
    let from = [5_u32, 5, 7, 3];
    let mut codes = [9_u32; 4];
    assert_eq!(vanilla_to_d1z(&from, &mut codes), Ok(()));
    assert_eq!(codes, [0, 0, 4, 7]);
    let mut back = [0_u32; 4];
    assert_eq!(d1z_to_vanilla(&codes, &mut back, 5), Ok(()));
    assert_eq!(back, [5, 5, 7, 3]);

    let mut data = [5_u32, 5, 7, 3];
    assert_eq!(vanilla_to_d1z_self(&mut data), Ok(()));
    assert_eq!(data, [0, 0, 4, 7]);
    assert_eq!(d1z_to_vanilla_self(&mut data, 5), Ok(()));
    assert_eq!(data, [5, 5, 7, 3]);
}

#[test]
fn zigzag_pairs_decode_back() {
    let pairs = [
        (0_u32, 0_u32),
        (10, 3),
        (3, 10),
        (u32::MAX, u32::MAX - 5),
        (0, 0x7fff_ffff),
        (0x8000_0000, 0),
        (100, 101),
        (101, 100),
    ];
    for (pre, cur) in pairs {
        let mut codes = [1_u32; 2];
        assert_eq!(vanilla_to_d1z(&[pre, cur], &mut codes), Ok(()));
        assert_eq!(codes[0], 0);
        let mut back = [0_u32; 1];
        assert_eq!(d1z_to_vanilla(&codes[1..], &mut back, pre), Ok(()));
        assert_eq!(back[0], cur);
    }
    let mut codes = [0_u32; 2];
    assert_eq!(vanilla_to_d1z(&[10, 3], &mut codes), Ok(()));
    assert_eq!(codes, [0, 13]);
    assert_eq!(vanilla_to_d1z(&[3, 10], &mut codes), Ok(()));
    assert_eq!(codes, [0, 14]);
}

#[test]
fn offset_pairs_and_zero() {
    for x in [1_u32, 2, 1000, u32::MAX] {
        let mut data = [x];
        assert_eq!(vanilla_to_m1_self(&mut data), Ok(()));
        assert_eq!(data[0], x - 1);
        assert_eq!(m1_to_vanilla_self(&mut data), Ok(()));
        assert_eq!(data[0], x);
    }
    let mut to = [7_u32; 3];
    assert_eq!(vanilla_to_m1(&[3, 0, 2], &mut to), Err(CodecError::ZeroValue));
    assert_eq!(to, [7, 7, 7]);
    let mut data = [3_u32, 0, 2];
    assert_eq!(vanilla_to_m1_self(&mut data), Err(CodecError::ZeroValue));
    assert_eq!(data, [3, 0, 2]);
}

#[test]
fn auto_width_is_repeatable() {
    let packer = BitPacker4x::new();
    let values = sample_block(128, 5000, 9);
    let mut bytes1 = vec![0_u8; 512];
    let mut bytes2 = vec![0xaa_u8; 512];
    let n1 = packer.pack(&values, &mut bytes1, 0).unwrap();
    let n2 = packer.pack(&values, &mut bytes2, 0).unwrap();
    assert_eq!(n1, n2);
    assert_eq!(n1, 13 * 128 / 8);
    let mut out1 = vec![0_u32; 128];
    let mut out2 = vec![0_u32; 128];
    packer.unpack(&bytes1, &mut out1, 13).unwrap();
    packer.unpack(&bytes2, &mut out2, 13).unwrap();
    assert_eq!(out1, out2);
    assert_eq!(out1, values);

    let n1 = packer.pack_d1z(&values, &mut bytes1, 0).unwrap();
    let n2 = packer.pack_d1z(&values, &mut bytes2, 0).unwrap();
    assert_eq!(n1, n2);
}

#[test]
fn length_one_sequences() {
    let mut codes = [5_u32];
    assert_eq!(vanilla_to_d1z(&[42], &mut codes), Ok(()));
    assert_eq!(codes, [0]);
    let mut back = [0_u32];
    assert_eq!(d1z_to_vanilla(&codes, &mut back, 42), Ok(()));
    assert_eq!(back, [42]);
    let mut to = [0_u32];
    assert_eq!(vanilla_to_m1(&[42], &mut to), Ok(()));
    assert_eq!(to, [41]);
}

#[test]
fn all_zero_block() {
    let packer = BitPacker1x::new();
    let zeros = [0_u32; 32];
    let mut bytes = [0xff_u8; 64];
    let mut out = [9_u32; 32];
    assert_eq!(packer.pack_m1(&zeros, &mut bytes, 0), Err(CodecError::ZeroValue));
    assert_eq!(bytes, [0xff_u8; 64]);
    assert_eq!(packer.pack(&zeros, &mut bytes, 0), Ok(0));
    assert_eq!(packer.pack_d1(&zeros, &mut bytes, 0), Ok(0));
    assert_eq!(packer.pack_d1z(&zeros, &mut bytes, 0), Ok(0));
    assert_eq!(packer.unpack(&bytes, &mut out, 0), Err(CodecError::InvalidBitWidth));
    assert_eq!(out, [9_u32; 32]);

    assert_eq!(packer.pack(&zeros, &mut bytes, 1), Ok(4));
    assert_eq!(packer.unpack(&bytes, &mut out, 1), Ok(4));
    assert_eq!(out, zeros);
    out = [9; 32];
    assert_eq!(packer.pack_d1(&zeros, &mut bytes, 1), Ok(4));
    assert_eq!(packer.unpack_d1(0, &bytes, &mut out, 1), Ok(4));
    assert_eq!(out, zeros);
    out = [9; 32];
    assert_eq!(packer.pack_d1z(&zeros, &mut bytes, 1), Ok(4));
    assert_eq!(packer.unpack_d1z(0, &bytes, &mut out, 1), Ok(4));
    assert_eq!(out, zeros);
}

#[test]
fn increasing_and_decreasing_blocks() {
    let packer = BitPacker1x::new();
    let increasing: Vec<u32> = (0..32).map(|i| 1000 + 3 * i).collect();
    let decreasing: Vec<u32> = (0..32).map(|i| 100_000 - 7 * i).collect();
    let mut bytes = [0_u8; 128];
    let mut out = [0_u32; 32];

    let n = packer.pack_d1(&increasing, &mut bytes, 0).unwrap();
    assert_eq!(n, 2 * 32 / 8);
    assert_eq!(packer.unpack_d1(1000, &bytes, &mut out, 2), Ok(n));
    assert_eq!(out.to_vec(), increasing);

    let n = packer.pack_d1z(&increasing, &mut bytes, 0).unwrap();
    assert_eq!(n, 3 * 32 / 8);
    assert_eq!(packer.unpack_d1z(1000, &bytes, &mut out, 3), Ok(n));
    assert_eq!(out.to_vec(), increasing);

    let n = packer.pack_d1z(&decreasing, &mut bytes, 0).unwrap();
    assert_eq!(n, 4 * 32 / 8);
    assert_eq!(packer.unpack_d1z(100_000, &bytes, &mut out, 4), Ok(n));
    assert_eq!(out.to_vec(), decreasing);
}

#[test]
fn transform_errors() {
    let mut to = [0_u32; 2];
    assert_eq!(vanilla_to_m1(&[1, 2, 3], &mut to), Err(CodecError::LengthMismatch));
    assert_eq!(m1_to_vanilla(&[1], &mut to), Err(CodecError::LengthMismatch));
    assert_eq!(vanilla_to_d1z(&[1], &mut to), Err(CodecError::LengthMismatch));
    assert_eq!(d1z_to_vanilla(&[1], &mut to, 0), Err(CodecError::LengthMismatch));

    assert_eq!(m1_to_vanilla(&[1, u32::MAX], &mut to), Err(CodecError::Overflow));
    assert_eq!(to, [0, 0]);
    let mut data = [u32::MAX, 4];
    assert_eq!(m1_to_vanilla_self(&mut data), Err(CodecError::Overflow));
    assert_eq!(data, [u32::MAX, 4]);

    assert_eq!(vanilla_to_d1z(&[0, 0x8000_0000], &mut to), Err(CodecError::Overflow));
    assert_eq!(vanilla_to_d1z(&[0x8000_0001, 0], &mut to), Err(CodecError::Overflow));
    assert_eq!(vanilla_to_d1z(&[0x8000_0000, 0], &mut to), Ok(()));
    assert_eq!(to, [0, u32::MAX]);
    let mut data = [0_u32, 0x8000_0000];
    assert_eq!(vanilla_to_d1z_self(&mut data), Err(CodecError::Overflow));
    assert_eq!(data, [0, 0x8000_0000]);

    to = [6, 6];
    assert_eq!(d1z_to_vanilla(&[0, 1], &mut to, 0), Err(CodecError::Overflow));
    assert_eq!(to, [6, 6]);
    let mut data = [2_u32, 0xffff_fffe];
    assert_eq!(d1z_to_vanilla_self(&mut data, u32::MAX), Err(CodecError::Overflow));
    assert_eq!(data, [2, 0xffff_fffe]);
}

#[test]
fn pack_errors() {
    let packer = BitPacker1x::new();
    let values = sample_block(32, 100, 7);
    let mut bytes = [0_u8; 256];
    let mut out = [0_u32; 32];
    assert_eq!(packer.pack(&values[..31], &mut bytes, 0), Err(CodecError::LengthMismatch));
    assert_eq!(packer.pack_m1(&values[..31], &mut bytes, 0), Err(CodecError::LengthMismatch));
    assert_eq!(packer.pack_d1(&values[..31], &mut bytes, 0), Err(CodecError::LengthMismatch));
    assert_eq!(packer.pack_d1z(&values[..31], &mut bytes, 0), Err(CodecError::LengthMismatch));
    assert_eq!(packer.pack(&values, &mut bytes, 33), Err(CodecError::InvalidBitWidth));
    assert_eq!(packer.pack(&values, &mut bytes[..3], 1), Err(CodecError::BufferTooSmall));
    assert_eq!(packer.unpack(&bytes, &mut out, 33), Err(CodecError::InvalidBitWidth));
    assert_eq!(packer.unpack_m1(&bytes, &mut out, 0), Err(CodecError::InvalidBitWidth));
    assert_eq!(packer.unpack_d1z(0, &bytes, &mut out, 0), Err(CodecError::InvalidBitWidth));
    assert_eq!(packer.unpack(&bytes[..3], &mut out, 1), Err(CodecError::BufferTooSmall));
    assert_eq!(packer.unpack_d1(0, &bytes, &mut out[..31], 1), Err(CodecError::BufferTooSmall));
    assert_eq!(packer.unpack_m1(&[0xff; 128], &mut out, 32), Err(CodecError::Overflow));
    assert_eq!(packer.unpack_d1z(0, &[0xff; 128], &mut out, 32), Err(CodecError::Overflow));
    assert_eq!(out, [0_u32; 32]);
}

#[test]
fn packer_primitives() {
    let packer = BitPacker1x::new();
    assert_eq!(packer.block_len(), 32);
    assert_eq!(BitPacker4x::new().block_len(), 128);
    assert_eq!(BitPacker8x::new().block_len(), 256);
    let ones = [1_u32; 32];
    assert_eq!(packer.bits_needed(&ones), 1);
    let mut wide = [0_u32; 32];
    wide[5] = 20000;
    assert_eq!(packer.bits_needed(&wide), 15);
    let steps: Vec<u32> = (0..32).map(|i| 50 + 5 * i).collect();
    assert_eq!(packer.bits_needed_sorted(50, &steps), 3);
    assert_eq!(packer.bits_needed_sorted(0, &steps), 6);

    let mut bytes = [0_u8; 8];
    assert_eq!(packer.pack(&ones, &mut bytes, 1), Ok(4));
    assert_eq!(bytes, [0xff, 0xff, 0xff, 0xff, 0, 0, 0, 0]);
    let mut out = [0_u32; 40];
    assert_eq!(packer.unpack(&[0xff, 0xff, 0xff, 0xff], &mut out, 1), Ok(4));
    assert_eq!(out[..32], ones);
    assert_eq!(out[32..], [0_u32; 8]);

    assert_eq!(packer.pack_m1(&ones, &mut bytes, 0), Ok(0));
    assert_eq!(packer.pack_m1(&[2_u32; 32], &mut bytes, 0), Ok(4));
    assert_eq!(bytes[..4], [0xff, 0xff, 0xff, 0xff]);
    assert_eq!(packer.unpack_m1(&bytes, &mut out, 1), Ok(4));
    assert_eq!(out[..32], [2_u32; 32]);
}
