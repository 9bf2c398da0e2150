use quantize::bits::{clamp_code, max_int, min_int, pow2_u64};
use quantize::packed::{read_code, Packed};
use quantize::quantized::{
    adaptive as adaptive_tensor, asymmetric, bits, block_ranges, kind, matmul_shape, pack_adaptive,
    symmetric, unpacked_codes, Quantized,
};

fn choose_bits(range: f32, tol: f32) -> u32 {
    if range <= 0.0 {
        return 2;
    }
    for b in 2..=8 {
        if range / ((1u32 << b) - 1) as f32 / 2.0 <= tol {
            return b;
        }
    }
    8
}

fn asym_codes(block: &[f32], bits: u32) -> (f32, f32, Vec<i32>) {
    let rmin = block.iter().copied().fold(f32::INFINITY, f32::min);
    let rmax = block.iter().copied().fold(f32::NEG_INFINITY, f32::max);
    let (scale, zp) = if rmin >= rmax {
        (1.0, 0.0)
    } else {
        let qmin = min_int(bits) as f32;
        let scale = (rmax - rmin) / (max_int(bits) as f32 - qmin);
        (scale, qmin - rmin / scale)
    };
    let codes = block
        .iter()
        .map(|&x| clamp_code((x / scale + zp).round() as i32, bits))
        .collect();
    (scale, zp, codes)
}

fn adaptive(values: &[f32], block: usize, tol: f32) -> Quantized {
    let mut bits = Vec::new();
    let mut scales = Vec::new();
    let mut zero_points = Vec::new();
    let mut codes = Vec::new();
    for chunk in values.chunks(block) {
        let rmin = chunk.iter().copied().fold(f32::INFINITY, f32::min);
        let rmax = chunk.iter().copied().fold(f32::NEG_INFINITY, f32::max);
        let b = choose_bits(rmax - rmin, tol);
        let (s, z, c) = asym_codes(chunk, b);
        bits.push(b);
        scales.push(s.to_bits());
        zero_points.push(z.to_bits());
        codes.extend(c);
    }
    let bytes = pack_adaptive(&codes, &bits, block);
    Quantized::Adaptive { scales, zero_points, bytes, bits, block, len: values.len() }
}

#[test]
fn unpacked_adaptive_codes_repack_to_the_original_bytes() {
    let values: Vec<f32> = (0..40).map(|index| index as f32 * 0.02 - 0.4).collect();
    let quantized = adaptive(&values, 32, 0.001);
    let unpacked = unpacked_codes(&quantized);

    let Quantized::Adaptive { bytes, bits, block, .. } = quantized else {
        unreachable!()
    };
    let mut repacked = Vec::new();
    for (block_index, &bit_width) in bits.iter().enumerate() {
        let start = block_index * block;
        let end = (start + block).min(unpacked.len());
        repacked.extend_from_slice(Packed::from_i32s(&unpacked[start..end], bit_width).as_bytes());
    }
    assert_eq!(repacked, bytes);
}

#[test]
fn code_ranges_of_common_widths() {
    assert_eq!(max_int(4), 7);
    assert_eq!(min_int(4), -8);
    assert_eq!(max_int(8), 127);
    assert_eq!(min_int(8), -128);
    assert_eq!(max_int(16), 32767);
    assert_eq!(min_int(16), -32768);
    assert_eq!(max_int(2), 1);
    assert_eq!(min_int(2), -2);
    assert_eq!(pow2_u64(32), 1u64 << 32);
}

#[test]
fn clamping_keeps_codes_on_the_grid() {
    assert_eq!(clamp_code(9, 4), 7);
    assert_eq!(clamp_code(-9, 4), -8);
    assert_eq!(clamp_code(3, 4), 3);
    assert_eq!(clamp_code(200, 8), 127);
}

#[test]
fn four_bit_codes_fill_low_nibble_first() {
    let packed = Packed::from_i32s(&[7, -8, 3, -1], 4);
    assert_eq!(packed.as_bytes(), &[0x87, 0xF3]);
    assert_eq!(packed.bits(), 4);
    assert_eq!(packed.len(), 4);
}

#[test]
fn packing_round_trips_every_width() {
    for bits in 1..=32u32 {
        let lo = min_int(bits.min(31)) as i64;
        let hi = max_int(bits.min(31)) as i64;
        let (lo, hi) = if bits == 32 { (i32::MIN as i64, i32::MAX as i64) } else { (lo, hi) };
        let codes: Vec<i32> = (0..23i64)
            .map(|k| (lo + (k * 7919) % (hi - lo + 1)) as i32)
            .chain([lo as i32, hi as i32, 0])
            .collect();
        let packed = Packed::from_i32s(&codes, bits);
        assert_eq!(packed.as_bytes().len(), (codes.len() * bits as usize + 7) / 8);
        let mut out = vec![0; codes.len()];
        packed.unpack_into(&mut out);
        assert_eq!(out, codes, "bits = {bits}");
    }
}

#[test]
fn packing_keeps_only_the_low_bits() {
    let packed = Packed::from_i32s(&[9], 4);
    assert_eq!(packed.as_bytes(), &[0x09]);
    assert_eq!(read_code(packed.as_bytes(), 4, 0), -7);
}

#[test]
fn unpack_slice_fills_only_the_front() {
    let packed = Packed::from_i32s(&[1, -2, 3], 3);
    let mut out = [42; 5];
    Packed::unpack_slice(packed.as_bytes(), 3, &mut out, 3);
    assert_eq!(out, [1, -2, 3, 42, 42]);
}

#[test]
fn eight_bit_codes_are_bytes() {
    let packed = Packed::from_i32s(&[-1, 0, 127, -128], 8);
    assert_eq!(packed.as_bytes(), &[0xFF, 0x00, 0x7F, 0x80]);
}

#[test]
fn sixteen_bit_codes_are_little_endian() {
    let packed = Packed::from_i32s(&[0x1234, -2], 16);
    assert_eq!(packed.as_bytes(), &[0x34, 0x12, 0xFE, 0xFF]);
}

#[test]
fn raw_bytes_are_read_as_given() {
    let packed = Packed::from_raw(vec![0x21, 0x43], 4, 4);
    let mut out = vec![0; 4];
    packed.unpack_into(&mut out);
    assert_eq!(out, vec![1, 2, 3, 4]);
}

#[test]
fn symmetric_codes_unpack_to_their_values() {
    let codes = vec![1, -1, 7, -8, 0];
    let q = Quantized::Symmetric {
        scales: vec![0x3f80_0000],
        codes: Packed::from_i32s(&codes, 4),
        block: 32,
        len: 5,
    };
    assert!(q.is_unpackable());
    assert_eq!(unpacked_codes(&q), codes);
    assert_eq!(kind(&q), "symmetric");
    assert_eq!(bits(&q), Some(4));
    assert_eq!(q.block_bits(), None);
    assert_eq!(q.zero_points(), &[] as &[u32]);
}

#[test]
fn adaptive_blocks_start_on_byte_boundaries() {
    let codes = vec![1, -2, 1, 0, 3, -4, 5];
    let bits = vec![2, 4, 4];
    let bytes = pack_adaptive(&codes, &bits, 3);
    // block 0: three 2-bit codes in one byte; block 1: three 4-bit codes in
    // two bytes; block 2: one 4-bit code in one byte
    assert_eq!(bytes, vec![0b01_10_01, 0x30, 0x0C, 0x05]);
    let q = Quantized::Adaptive {
        scales: vec![0, 0, 0],
        zero_points: vec![0, 0, 0],
        bytes: vec![0b01_10_01, 0x30, 0x0C],
        bits,
        block: 3,
        len: 7,
    };
    assert!(!q.is_unpackable());
}

#[test]
fn adaptive_codes_round_trip() {
    let codes = vec![1, -2, 1, 0, 3, -4, 5];
    let bits = vec![2, 4, 4];
    let bytes = pack_adaptive(&codes, &bits, 3);
    assert_eq!(bytes.len(), 1 + 2 + 1);
    let q = Quantized::Adaptive {
        scales: vec![0; 3],
        zero_points: vec![0; 3],
        bytes,
        bits: bits.clone(),
        block: 3,
        len: 7,
    };
    assert!(q.is_unpackable());
    assert_eq!(unpacked_codes(&q), codes);
    assert_eq!(kind(&q), "adaptive");
    assert_eq!(bits_of(&q), None);
    assert_eq!(q.block_bits(), Some(&bits[..]));
}

fn bits_of(q: &Quantized) -> Option<u32> {
    bits(q)
}

#[test]
fn adaptive_tail_past_the_bit_table_reads_zero() {
    let q = Quantized::Adaptive {
        scales: vec![],
        zero_points: vec![],
        bytes: vec![0xFF],
        bits: vec![4],
        block: 2,
        len: 4,
    };
    assert_eq!(unpacked_codes(&q), vec![-1, -1, 0, 0]);
}

#[test]
fn storage_of_a_q4_32_tensor_with_f16_scales_is_four_and_a_half_bits_per_value() {
    let codes = vec![0; 64];
    let q = Quantized::Symmetric {
        scales: vec![0, 0],
        codes: Packed::from_i32s(&codes, 4),
        block: 32,
        len: 64,
    };
    let nbytes = q.nbytes(2);
    assert_eq!(nbytes, 32 + 4);
    assert_eq!(nbytes as f32 * 8.0 / q.len() as f32, 4.5);
}

#[test]
fn short_code_bytes_cannot_be_unpacked() {
    let q = Quantized::Symmetric {
        scales: vec![],
        codes: Packed::from_raw(vec![0], 4, 3),
        block: 32,
        len: 3,
    };
    assert!(!q.is_unpackable());
    let q = Quantized::Symmetric {
        scales: vec![],
        codes: Packed::from_raw(vec![0, 0], 4, 3),
        block: 32,
        len: 4,
    };
    assert!(!q.is_unpackable());
}

#[test]
fn block_ranges_cover_the_tensor_with_a_short_tail() {
    assert_eq!(block_ranges(70, 32), vec![(0, 32), (32, 64), (64, 70)]);
    assert_eq!(block_ranges(64, 32), vec![(0, 32), (32, 64)]);
    assert_eq!(block_ranges(0, 32), Vec::<(usize, usize)>::new());
    assert_eq!(block_ranges(3, 1), vec![(0, 1), (1, 2), (2, 3)]);
}

#[test]
fn symmetric_constructor_packs_and_unpacks() {
    let codes = vec![-8, 7, 0, -1, 3];
    let q = symmetric(vec![0x3f80_0000], &codes, 4, 32);
    assert_eq!(kind(&q), "symmetric");
    assert_eq!(q.len(), 5);
    assert_eq!(q.block(), 32);
    assert_eq!(q.codes(), &[0x78, 0xf0, 0x03]);
    assert_eq!(unpacked_codes(&q), codes);
}

#[test]
fn asymmetric_constructor_keeps_zero_points() {
    let codes = vec![0, -128, 17];
    let q = asymmetric(vec![1, 1], vec![2, 3], &codes, 8, 2);
    assert_eq!(kind(&q), "asymmetric");
    assert_eq!(q.zero_points(), &[2, 3]);
    assert_eq!(q.codes(), &[0, 0x80, 17]);
    assert_eq!(unpacked_codes(&q), codes);
}

#[test]
fn adaptive_constructor_packs_each_block_at_its_width() {
    let codes = vec![1, -1, 5, -6, 2];
    let q = adaptive_tensor(vec![1, 1, 1], vec![0, 0, 0], &codes, vec![2, 4, 3], 2);
    assert_eq!(kind(&q), "adaptive");
    assert_eq!(q.codes().len(), 3);
    assert_eq!(unpacked_codes(&q), codes);
}

#[test]
fn matmul_shapes_split_into_rows_and_inputs() {
    assert_eq!(matmul_shape(12, 8, 4), Ok((3, 2)));
    assert_eq!(matmul_shape(12, 0, 4), Ok((3, 0)));
    assert_eq!(
        matmul_shape(12, 8, 0),
        Err(quantize::error::Error::LengthMismatch { expected: 12, got: 0 })
    );
    assert_eq!(
        matmul_shape(12, 8, 5),
        Err(quantize::error::Error::LengthMismatch { expected: 12, got: 5 })
    );
    assert_eq!(
        matmul_shape(12, 9, 4),
        Err(quantize::error::Error::LengthMismatch { expected: 4, got: 1 })
    );
}
