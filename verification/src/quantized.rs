//! A quantized tensor: per-block scales (and zero points) with packed codes.
//!
//! Scales and zero points are held by their raw bit patterns: the bits of an
//! `f32`, or of an `f16` / `bf16` in the low 16 bits. Which one is recorded by
//! the [`crate::scale::PyScale`] that travels with the tensor.
use vstd::prelude::*;
use crate::error::Error;
use crate::packed::{
    byte_len, canonical, code_at, codes_fit, codes_of, ints, lemma_repack, lemma_unpack_of_packed,
    packed_bit, read_code, stream_bit, Packed,
};

verus! {

/// A quantized tensor.
#[derive(Clone, Debug)]
pub enum Quantized {
    /// Symmetric blocks: one scale per block, codes of one bit width.
    Symmetric { scales: Vec<u32>, codes: Packed, block: usize, len: usize },
    /// Asymmetric blocks: a scale and a zero point per block, codes of one bit width.
    Asymmetric {
        scales: Vec<u32>,
        zero_points: Vec<u32>,
        codes: Packed,
        block: usize,
        len: usize,
    },
    /// Adaptive blocks: a scale, a zero point and a bit width per block; each
    /// block's codes start on a byte boundary.
    Adaptive {
        scales: Vec<u32>,
        zero_points: Vec<u32>,
        bytes: Vec<u8>,
        bits: Vec<u32>,
        block: usize,
        len: usize,
    },
}

/// What a quantized tensor holds, as mathematical values.
#[verifier::ext_equal]
pub enum QuantizedView {
    Symmetric {
        scales: Seq<u32>,
        codes: Seq<u8>,
        code_bits: nat,
        code_len: nat,
        block: nat,
        len: nat,
    },
    Asymmetric {
        scales: Seq<u32>,
        zero_points: Seq<u32>,
        codes: Seq<u8>,
        code_bits: nat,
        code_len: nat,
        block: nat,
        len: nat,
    },
    Adaptive {
        scales: Seq<u32>,
        zero_points: Seq<u32>,
        bytes: Seq<u8>,
        bits: Seq<u32>,
        block: nat,
        len: nat,
    },
}

impl View for Quantized {
    type V = QuantizedView;

    open spec fn view(&self) -> QuantizedView {
        match self {
            Quantized::Symmetric { scales, codes, block, len } => QuantizedView::Symmetric {
                scales: scales@,
                codes: codes.spec_bytes(),
                code_bits: codes.spec_bits(),
                code_len: codes.spec_len(),
                block: *block as nat,
                len: *len as nat,
            },
            Quantized::Asymmetric { scales, zero_points, codes, block, len } =>
                QuantizedView::Asymmetric {
                scales: scales@,
                zero_points: zero_points@,
                codes: codes.spec_bytes(),
                code_bits: codes.spec_bits(),
                code_len: codes.spec_len(),
                block: *block as nat,
                len: *len as nat,
            },
            Quantized::Adaptive { scales, zero_points, bytes, bits, block, len } =>
                QuantizedView::Adaptive {
                scales: scales@,
                zero_points: zero_points@,
                bytes: bytes@,
                bits: bits@,
                block: *block as nat,
                len: *len as nat,
            },
        }
    }
}

/// Number of values that block `b` holds.
pub open spec fn block_count(len: nat, block: nat, b: nat) -> nat {
    if b * block >= len {
        0
    } else if len - b * block < block {
        (len - b * block) as nat
    } else {
        block
    }
}

/// Bytes that block `b` of an adaptive tensor takes.
pub open spec fn block_bytes(len: nat, block: nat, bits: Seq<u32>, b: nat) -> nat {
    byte_len(block_count(len, block, b), bits[b as int] as nat)
}

/// Byte offset at which block `b` of an adaptive tensor starts.
pub open spec fn block_start(len: nat, block: nat, bits: Seq<u32>, b: nat) -> nat
    decreases b,
{
    if b == 0 {
        0
    } else {
        block_start(len, block, bits, (b - 1) as nat) + block_bytes(
            len,
            block,
            bits,
            (b - 1) as nat,
        )
    }
}

/// Code `i` of an adaptive tensor: read in its block's bytes at its block's bit width.
/// Values past the blocks that `bits` describes read as zero.
pub open spec fn adaptive_code(
    bytes: Seq<u8>,
    bits: Seq<u32>,
    block: nat,
    len: nat,
    i: int,
) -> int {
    if block > 0 && i / (block as int) < bits.len() {
        let b = (i / (block as int)) as nat;
        let start = block_start(len, block, bits, b) as int;
        code_at(
            bytes.subrange(start, start + block_bytes(len, block, bits, b)),
            bits[b as int] as nat,
            i % (block as int),
        )
    } else {
        0
    }
}

/// Number of blocks that `len` values form at `block` values per block.
pub open spec fn num_blocks(len: nat, block: nat) -> nat {
    if block == 0 {
        0
    } else {
        ((len + block - 1) / (block as int)) as nat
    }
}

/// `block_start` never decreases.
pub proof fn lemma_block_start_monotone(len: nat, block: nat, bits: Seq<u32>, a: nat, b: nat)
    requires
        a <= b,
    ensures
        block_start(len, block, bits, a) <= block_start(len, block, bits, b),
    decreases b - a,
{
    if a < b {
        lemma_block_start_monotone(len, block, bits, a, (b - 1) as nat);
    }
}

impl Quantized {
    /// Number of values.
    pub open spec fn spec_len(&self) -> nat {
        match self {
            Quantized::Symmetric { len, .. } => *len as nat,
            Quantized::Asymmetric { len, .. } => *len as nat,
            Quantized::Adaptive { len, .. } => *len as nat,
        }
    }

    /// Values per block.
    pub open spec fn spec_block(&self) -> nat {
        match self {
            Quantized::Symmetric { block, .. } => *block as nat,
            Quantized::Asymmetric { block, .. } => *block as nat,
            Quantized::Adaptive { block, .. } => *block as nat,
        }
    }

    /// The stored code bytes.
    pub open spec fn spec_code_bytes(&self) -> Seq<u8> {
        match self {
            Quantized::Symmetric { codes, .. } => codes.spec_bytes(),
            Quantized::Asymmetric { codes, .. } => codes.spec_bytes(),
            Quantized::Adaptive { bytes, .. } => bytes@,
        }
    }

    /// The stored scale bit patterns.
    pub open spec fn spec_scales(&self) -> Seq<u32> {
        match self {
            Quantized::Symmetric { scales, .. } => scales@,
            Quantized::Asymmetric { scales, .. } => scales@,
            Quantized::Adaptive { scales, .. } => scales@,
        }
    }

    /// The stored zero point bit patterns (none for symmetric blocks).
    pub open spec fn spec_zero_points(&self) -> Seq<u32> {
        match self {
            Quantized::Symmetric { .. } => Seq::empty(),
            Quantized::Asymmetric { zero_points, .. } => zero_points@,
            Quantized::Adaptive { zero_points, .. } => zero_points@,
        }
    }

    /// The codes can be read back without running off the stored bytes.
    pub open spec fn unpackable(&self) -> bool {
        match self {
            Quantized::Symmetric { codes, len, .. } => codes.readable() && codes.spec_len() == *len,
            Quantized::Asymmetric { codes, len, .. } => codes.readable() && codes.spec_len() == *len,
            Quantized::Adaptive { bytes, bits, block, len, .. } => {
                &&& forall|b: int| 0 <= b < bits@.len() ==> 1 <= #[trigger] bits@[b] <= 32
                &&& block_start(*len as nat, *block as nat, bits@, bits@.len()) <= bytes@.len()
                &&& *len * 32 + 7 <= usize::MAX
            },
        }
    }

    /// The codes, one per value.
    pub open spec fn unpacked(&self) -> Seq<int> {
        match self {
            Quantized::Symmetric { codes, .. } => codes@,
            Quantized::Asymmetric { codes, .. } => codes@,
            Quantized::Adaptive { bytes, bits, block, len, .. } => Seq::new(
                *len as nat,
                |i: int| adaptive_code(bytes@, bits@, *block as nat, *len as nat, i),
            ),
        }
    }

    /// Number of values.
    pub fn len(&self) -> (r: usize)
        ensures
            r == self.spec_len(),
    {
        match self {
            Quantized::Symmetric { len, .. } => *len,
            Quantized::Asymmetric { len, .. } => *len,
            Quantized::Adaptive { len, .. } => *len,
        }
    }

    /// Values per block.
    pub fn block(&self) -> (r: usize)
        ensures
            r == self.spec_block(),
    {
        match self {
            Quantized::Symmetric { block, .. } => *block,
            Quantized::Asymmetric { block, .. } => *block,
            Quantized::Adaptive { block, .. } => *block,
        }
    }

    /// The stored code bytes.
    pub fn codes(&self) -> (r: &[u8])
        ensures
            r@ == self.spec_code_bytes(),
    {
        match self {
            Quantized::Symmetric { codes, .. } => codes.as_bytes(),
            Quantized::Asymmetric { codes, .. } => codes.as_bytes(),
            Quantized::Adaptive { bytes, .. } => bytes.as_slice(),
        }
    }

    /// The stored scale bit patterns.
    pub fn scales(&self) -> (r: &[u32])
        ensures
            r@ == self.spec_scales(),
    {
        match self {
            Quantized::Symmetric { scales, .. } => scales.as_slice(),
            Quantized::Asymmetric { scales, .. } => scales.as_slice(),
            Quantized::Adaptive { scales, .. } => scales.as_slice(),
        }
    }

    /// The stored zero point bit patterns; empty for symmetric blocks.
    pub fn zero_points(&self) -> (r: &[u32])
        ensures
            r@ == self.spec_zero_points(),
    {
        match self {
            Quantized::Symmetric { .. } => &[],
            Quantized::Asymmetric { zero_points, .. } => zero_points.as_slice(),
            Quantized::Adaptive { zero_points, .. } => zero_points.as_slice(),
        }
    }

    /// The bit width of each block, for adaptive tensors only.
    pub fn block_bits(&self) -> (r: Option<&[u32]>)
        ensures
            match self {
                Quantized::Adaptive { bits, .. } => r matches Some(b) && b@ == bits@,
                _ => r is None,
            },
    {
        match self {
            Quantized::Adaptive { bits, .. } => Some(bits.as_slice()),
            _ => None,
        }
    }
}

impl Quantized {
    /// Bytes of storage: the code bytes plus `width` bytes per scale and zero point.
    pub open spec fn spec_nbytes(&self, width: nat) -> int {
        (self.spec_code_bytes().len() + (self.spec_scales().len() + self.spec_zero_points().len())
            * width) as int
    }

    /// Bytes of storage when each scale and zero point takes `width` bytes.
    pub fn nbytes(&self, width: usize) -> (r: usize)
        requires
            width >= 1,
            self.spec_nbytes(width as nat) <= usize::MAX,
        ensures
            r == self.spec_nbytes(width as nat),
            r == self.spec_code_bytes().len() + width * self.spec_scales().len() + width
                * self.spec_zero_points().len(),
    {
        proof {
            lemma_nbytes_counts_codes_scales_and_zero_points(*self, width as nat);
        }
        let code_bytes = self.codes().len();
        proof {
            assert(self.spec_scales().len() + self.spec_zero_points().len() <= (
            self.spec_scales().len() + self.spec_zero_points().len()) * width) by (nonlinear_arith)
                requires
                    width >= 1,
            ;
        }
        let stored = self.scales().len() + self.zero_points().len();
        proof {
            assert(stored * width <= self.spec_nbytes(width as nat)) by (nonlinear_arith)
                requires
                    stored == self.spec_scales().len() + self.spec_zero_points().len(),
                    self.spec_nbytes(width as nat) == code_bytes + stored * width,
                    code_bytes >= 0,
            ;
        }
        code_bytes + stored * width
    }

    /// Whether the codes can be read back without running off the stored bytes.
    pub fn is_unpackable(&self) -> (r: bool)
        ensures
            r == self.unpackable(),
    {
        match self {
            Quantized::Symmetric { codes, len, .. } | Quantized::Asymmetric { codes, len, .. } => {
                let bits = codes.bits();
                if bits < 1 || bits > 32 || codes.len() != *len {
                    return false;
                }
                let total = match len.checked_mul(bits as usize) {
                    Some(t) => t,
                    None => {
                        return false;
                    },
                };
                let nbytes = codes.as_bytes().len();
                let whole = total / 8 + if total % 8 == 0 {
                    0
                } else {
                    1
                };
                whole <= nbytes
            },
            Quantized::Adaptive { bytes, bits, block, len, .. } => {
                if *len > (usize::MAX - 7) / 32 {
                    return false;
                }
                let mut b: usize = 0;
                let mut sum: usize = 0;
                let mut value_offset: usize = 0;
                let n_bytes = bytes.len();
                while b < bits.len()
                    invariant
                        *len * 32 + 7 <= usize::MAX,
                        self.unpackable() == ((forall|c: int|
                            0 <= c < bits@.len() ==> 1 <= #[trigger] bits@[c] <= 32) && block_start(
                            *len as nat,
                            *block as nat,
                            bits@,
                            bits@.len(),
                        ) <= bytes@.len()),
                        b <= bits@.len(),
                        n_bytes == bytes@.len(),
                        sum == block_start(*len as nat, *block as nat, bits@, b as nat),
                        sum <= n_bytes,
                        value_offset == if b * *block >= *len {
                            *len as int
                        } else {
                            b * *block
                        },
                        forall|c: int| 0 <= c < b ==> 1 <= #[trigger] bits@[c] <= 32,
                    decreases bits@.len() - b,
                {
                    let w = bits[b];
                    if w < 1 || w > 32 {
                        proof {
                            assert(!(1 <= bits@[b as int] <= 32));
                        }
                        return false;
                    }
                    let rest = *len - value_offset;
                    let count = if rest < *block {
                        rest
                    } else {
                        *block
                    };
                    proof {
                        assert((b + 1) * *block == b * *block + *block) by (nonlinear_arith);
                        assert(count == block_count(*len as nat, *block as nat, b as nat));
                        assert(count * w <= *len * 32) by (nonlinear_arith)
                            requires
                                count <= *len,
                                w <= 32,
                        ;
                    }
                    let byte_count = (count * w as usize + 7) / 8;
                    if byte_count > n_bytes - sum {
                        proof {
                            assert(byte_count == block_bytes(*len as nat, *block as nat, bits@, b as nat));
                            assert(block_start(*len as nat, *block as nat, bits@, (b + 1) as nat)
                                == sum + byte_count);
                            lemma_block_start_monotone(
                                *len as nat,
                                *block as nat,
                                bits@,
                                (b + 1) as nat,
                                bits@.len(),
                            );
                        }
                        return false;
                    }
                    sum = sum + byte_count;
                    value_offset = value_offset + count;
                    b = b + 1;
                }
                true
            },
        }
    }
}

/// The kind of quantization, by name.
pub fn kind(quantized: &Quantized) -> (r: &'static str)
    ensures
        r@ == match quantized {
            Quantized::Symmetric { .. } => "symmetric"@,
            Quantized::Asymmetric { .. } => "asymmetric"@,
            Quantized::Adaptive { .. } => "adaptive"@,
        },
{
    match quantized {
        Quantized::Symmetric { .. } => "symmetric",
        Quantized::Asymmetric { .. } => "asymmetric",
        Quantized::Adaptive { .. } => "adaptive",
    }
}

/// The single bit width of a symmetric or asymmetric tensor; adaptive tensors have none.
pub fn bits(quantized: &Quantized) -> (r: Option<u32>)
    ensures
        r == match quantized {
            Quantized::Symmetric { codes, .. } => Some(codes.spec_bits() as u32),
            Quantized::Asymmetric { codes, .. } => Some(codes.spec_bits() as u32),
            Quantized::Adaptive { .. } => None::<u32>,
        },
{
    match quantized {
        Quantized::Symmetric { codes, .. } => Some(codes.bits()),
        Quantized::Asymmetric { codes, .. } => Some(codes.bits()),
        Quantized::Adaptive { .. } => None,
    }
}

/// The codes of a quantized tensor, one `i32` per value.
pub fn unpacked_codes(quantized: &Quantized) -> (r: Vec<i32>)
    requires
        quantized.unpackable(),
    ensures
        r@.len() == quantized.spec_len(),
        forall|i: int| 0 <= i < r@.len() ==> r@[i] as int == quantized.unpacked()[i],
{
    let mut unpacked: Vec<i32> = vec![0; quantized.len()];
    match quantized {
        Quantized::Symmetric { codes, .. } => {
            codes.unpack_into(unpacked.as_mut_slice());
        },
        Quantized::Asymmetric { codes, .. } => {
            codes.unpack_into(unpacked.as_mut_slice());
        },
        Quantized::Adaptive { bytes, bits, block, len, .. } => {
            let ghost total = block_start(*len as nat, *block as nat, bits@, bits@.len());
            let n_bytes = bytes.len();
            let mut byte_offset: usize = 0;
            let mut value_offset: usize = 0;
            let mut b: usize = 0;
            while b < bits.len()
                invariant
                    forall|c: int| 0 <= c < bits@.len() ==> 1 <= #[trigger] bits@[c] <= 32,
                    *len * 32 + 7 <= usize::MAX,
                    total == block_start(*len as nat, *block as nat, bits@, bits@.len()),
                    total <= bytes@.len(),
                    n_bytes == bytes@.len(),
                    b <= bits@.len(),
                    byte_offset == block_start(*len as nat, *block as nat, bits@, b as nat),
                    value_offset == if b * *block >= *len {
                        *len as int
                    } else {
                        b * *block
                    },
                    unpacked@.len() == *len,
                    forall|i: int|
                        0 <= i < value_offset ==> unpacked@[i] as int == adaptive_code(
                            bytes@,
                            bits@,
                            *block as nat,
                            *len as nat,
                            i,
                        ),
                    forall|i: int| value_offset <= i < *len ==> unpacked@[i] == 0,
                decreases bits@.len() - b,
            {
                let bit_width = bits[b];
                let rest = *len - value_offset;
                let count = if rest < *block {
                    rest
                } else {
                    *block
                };
                proof {
                    lemma_block_start_monotone(
                        *len as nat,
                        *block as nat,
                        bits@,
                        (b + 1) as nat,
                        bits@.len(),
                    );
                    assert((b + 1) * *block == b * *block + *block) by (nonlinear_arith);
                    assert(count == block_count(*len as nat, *block as nat, b as nat));
                    assert(count * bit_width <= *len * 32) by (nonlinear_arith)
                        requires
                            count <= *len,
                            bit_width <= 32,
                    ;
                }
                let byte_count = (count * bit_width as usize + 7) / 8;
                proof {
                    assert(byte_count == block_bytes(*len as nat, *block as nat, bits@, b as nat));
                    assert(block_start(*len as nat, *block as nat, bits@, (b + 1) as nat)
                        == byte_offset + byte_count);
                }
                let ghost before = unpacked@;
                let chunk = &bytes.as_slice()[byte_offset..byte_offset + byte_count];
                let mut r: usize = 0;
                while r < count
                    invariant
                        1 <= bit_width <= 32,
                        count * bit_width <= *len * 32,
                        *len * 32 + 7 <= usize::MAX,
                        byte_count == (count * bit_width + 7) / 8,
                        chunk@.len() == byte_count,
                        r <= count,
                        value_offset + count <= *len,
                        unpacked@.len() == *len,
                        before.len() == *len,
                        forall|i: int| 0 <= i < value_offset ==> #[trigger] unpacked@[i] == before[i],
                        forall|i: int|
                            value_offset <= i < value_offset + r ==> unpacked@[i] as int == code_at(
                                chunk@,
                                bit_width as nat,
                                i - value_offset,
                            ),
                        forall|i: int| value_offset + r <= i < *len ==> unpacked@[i] == 0,
                    decreases count - r,
                {
                    proof {
                        assert((r + 1) * bit_width <= count * bit_width) by (nonlinear_arith)
                            requires
                                r + 1 <= count,
                        ;
                    }
                    let code = read_code(chunk, bit_width, r);
                    unpacked.set(value_offset + r, code);
                    r = r + 1;
                }
                proof {
                    assert forall|i: int| value_offset <= i < value_offset + count implies unpacked@[i]
                        as int == adaptive_code(bytes@, bits@, *block as nat, *len as nat, i) by {
                        crate::packed::lemma_position(b as int, *block as int, i - value_offset);
                    }
                }
                byte_offset = byte_offset + byte_count;
                value_offset = value_offset + count;
                b = b + 1;
            }
            proof {
                assert forall|i: int| value_offset <= i < *len implies adaptive_code(
                    bytes@,
                    bits@,
                    *block as nat,
                    *len as nat,
                    i,
                ) == 0 by {
                    if *block > 0 {
                        let n = bits@.len() as int;
                        let bl = *block as int;
                        vstd::arithmetic::div_mod::lemma_fundamental_div_mod(i, bl);
                        vstd::arithmetic::div_mod::lemma_mod_pos_bound(i, bl);
                        assert(i / bl >= n) by (nonlinear_arith)
                            requires
                                i >= n * bl,
                                i == bl * (i / bl) + i % bl,
                                0 <= i % bl < bl,
                        ;
                    }
                }
                assert forall|i: int| 0 <= i < unpacked@.len() implies unpacked@[i] as int
                    == quantized.unpacked()[i] by {
                    if i < value_offset {
                    } else {
                    }
                }
            }
        },
    }
    unpacked
}


/// The bytes of adaptive block `b`.
pub open spec fn block_slice(bytes: Seq<u8>, bits: Seq<u32>, block: nat, len: nat, b: nat) -> Seq<u8> {
    let start = block_start(len, block, bits, b) as int;
    bytes.subrange(start, start + block_bytes(len, block, bits, b))
}

/// Every adaptive block holds exactly its codes, with zero padding up to its last byte.
pub open spec fn adaptive_canonical(bytes: Seq<u8>, bits: Seq<u32>, block: nat, len: nat) -> bool {
    &&& block >= 1
    &&& bits.len() == num_blocks(len, block)
    &&& bytes.len() == block_start(len, block, bits, bits.len())
    &&& forall|b: nat|
        b < bits.len() ==> canonical(
            #[trigger] block_slice(bytes, bits, block, len, b),
            bits[b as int] as nat,
            block_count(len, block, b),
        )
}

/// Block `b` of `num_blocks` blocks starts inside the values and ends by their end.
pub proof fn lemma_block_in_range(len: nat, block: nat, b: nat)
    requires
        block >= 1,
        b < num_blocks(len, block),
    ensures
        b * block < len,
        b * block + block_count(len, block, b) <= len,
{
    let x = len + block - 1;
    let q = x / (block as int);
    vstd::arithmetic::div_mod::lemma_fundamental_div_mod(x, block as int);
    vstd::arithmetic::div_mod::lemma_mod_pos_bound(x, block as int);
    assert(b * block < len) by (nonlinear_arith)
        requires
            b + 1 <= q,
            x == block * q + x % (block as int),
            x % (block as int) >= 0,
            x == len + block - 1,
            block >= 1,
    ;
}

/// Packing the unpacked codes of an adaptive block at the block's bit width
/// gives back the block's bytes.
pub proof fn lemma_adaptive_repack(quantized: Quantized, b: nat, repacked: Seq<u8>)
    requires
        quantized is Adaptive,
        adaptive_canonical(
            quantized->Adaptive_bytes@,
            quantized->Adaptive_bits@,
            quantized->Adaptive_block as nat,
            quantized->Adaptive_len as nat,
        ),
        b < quantized->Adaptive_bits@.len(),
        1 <= quantized->Adaptive_bits@[b as int],
        repacked.len() == block_bytes(
            quantized->Adaptive_len as nat,
            quantized->Adaptive_block as nat,
            quantized->Adaptive_bits@,
            b,
        ),
        forall|i: int|
            0 <= i < repacked.len() * 8 ==> stream_bit(repacked, i) == packed_bit(
                quantized.unpacked().subrange(
                    b * quantized->Adaptive_block,
                    b * quantized->Adaptive_block + block_count(
                        quantized->Adaptive_len as nat,
                        quantized->Adaptive_block as nat,
                        b,
                    ),
                ),
                quantized->Adaptive_bits@[b as int] as nat,
                i,
            ),
    ensures
        repacked == block_slice(
            quantized->Adaptive_bytes@,
            quantized->Adaptive_bits@,
            quantized->Adaptive_block as nat,
            quantized->Adaptive_len as nat,
            b,
        ),
{
    let bytes = quantized->Adaptive_bytes@;
    let bits = quantized->Adaptive_bits@;
    let block = quantized->Adaptive_block as nat;
    let len = quantized->Adaptive_len as nat;
    let w = bits[b as int] as nat;
    let count = block_count(len, block, b);
    let chunk = block_slice(bytes, bits, block, len, b);
    let first = b * block;
    let codes = quantized.unpacked().subrange(first as int, (first + count) as int);
    assert(canonical(chunk, w, count));
    lemma_block_in_range(len, block, b);
    assert(first + count <= len);
    assert forall|r: int| 0 <= r < count implies #[trigger] codes[r] == codes_of(chunk, w, count)[r] by {
        crate::packed::lemma_position(b as int, block as int, r);
    }
    assert(codes =~= codes_of(chunk, w, count));
    lemma_repack(chunk, w, count, repacked);
}


/// The codes of block `b`.
pub open spec fn block_codes(codes: Seq<int>, block: nat, b: nat) -> Seq<int> {
    let first = b * block;
    codes.subrange(first as int, (first + block_count(codes.len(), block, b)) as int)
}

/// Block `b` of the bytes holds the packing of block `b` of the codes.
pub open spec fn block_packs(bytes: Seq<u8>, codes: Seq<int>, bits: Seq<u32>, block: nat, b: nat) -> bool {
    let len = codes.len();
    let chunk = block_slice(bytes, bits, block, len, b);
    let count = block_count(len, block, b);
    let w = bits[b as int] as nat;
    &&& canonical(chunk, w, count)
    &&& forall|i: int|
        0 <= i < chunk.len() * 8 ==> stream_bit(chunk, i) == packed_bit(
            block_codes(codes, block, b),
            w,
            i,
        )
}

/// Every block of the codes fits its block's bit width.
pub open spec fn blocks_fit(codes: Seq<int>, bits: Seq<u32>, block: nat) -> bool {
    forall|b: nat|
        b < bits.len() ==> codes_fit(#[trigger] block_codes(codes, block, b), bits[b as int] as nat)
}

/// Packs the codes of an adaptive tensor: block `b` at `bits[b]` bits, each
/// block starting on a byte boundary.
pub fn pack_adaptive(codes: &[i32], bits: &[u32], block: usize) -> (r: Vec<u8>)
    requires
        block >= 1,
        bits@.len() == num_blocks(codes@.len(), block as nat),
        forall|b: int| 0 <= b < bits@.len() ==> 1 <= #[trigger] bits@[b] <= 32,
        codes@.len() * 32 + 7 <= usize::MAX,
        block_start(codes@.len(), block as nat, bits@, bits@.len()) <= usize::MAX,
    ensures
        r@.len() == block_start(codes@.len(), block as nat, bits@, bits@.len()),
        forall|b: nat|
            b < bits@.len() ==> #[trigger] block_packs(r@, ints(codes@), bits@, block as nat, b),
{
    let len = codes.len();
    let ghost cs = ints(codes@);
    let mut out: Vec<u8> = Vec::new();
    let mut value_offset: usize = 0;
    let mut b: usize = 0;
    while b < bits.len()
        invariant
            block >= 1,
            len == codes@.len(),
            bits@.len() == num_blocks(len as nat, block as nat),
            cs == ints(codes@),
            forall|c: int| 0 <= c < bits@.len() ==> 1 <= #[trigger] bits@[c] <= 32,
            len * 32 + 7 <= usize::MAX,
            block_start(len as nat, block as nat, bits@, bits@.len()) <= usize::MAX,
            b <= bits@.len(),
            out@.len() == block_start(len as nat, block as nat, bits@, b as nat),
            value_offset == if b * block >= len {
                len as int
            } else {
                b * block
            },
            forall|c: nat| c < b ==> #[trigger] block_packs(out@, cs, bits@, block as nat, c),
        decreases bits@.len() - b,
    {
        let w = bits[b];
        let rest = len - value_offset;
        let count = if rest < block {
            rest
        } else {
            block
        };
        proof {
            assert((b + 1) * block == b * block + block) by (nonlinear_arith);
            assert(count == block_count(len as nat, block as nat, b as nat));
            assert(count * w <= len * 32) by (nonlinear_arith)
                requires
                    count <= len,
                    w <= 32,
            ;
            lemma_block_start_monotone(len as nat, block as nat, bits@, (b + 1) as nat, bits@.len());
        }
        let part = Packed::from_i32s(&codes[value_offset..value_offset + count], w);
        let piece = part.as_bytes();
        let ghost before = out@;
        let ghost start = out@.len();
        let mut k: usize = 0;
        proof {
            assert(piece@.len() == block_bytes(len as nat, block as nat, bits@, b as nat));
            assert(block_start(len as nat, block as nat, bits@, (b + 1) as nat) == start
                + piece@.len());
        }
        while k < piece.len()
            invariant
                out@.len() == start + k,
                start + piece@.len() <= usize::MAX,
                k <= piece@.len(),
                out@.subrange(0, start as int) == before,
                out@.subrange(start as int, start + k) == piece@.subrange(0, k as int),
            decreases piece@.len() - k,
        {
            out.push(piece[k]);
            k = k + 1;
            proof {
                assert(out@.subrange(0, start as int) =~= before);
                assert(out@.subrange(start as int, start + k) =~= piece@.subrange(0, k as int));
            }
        }
        proof {
            let sub = codes@.subrange(value_offset as int, value_offset + count);
            lemma_block_in_range(len as nat, block as nat, b as nat);
            assert(ints(sub) =~= block_codes(cs, block as nat, b as nat));
            assert(piece@.subrange(0, piece@.len() as int) =~= piece@);
            assert(block_slice(out@, bits@, block as nat, len as nat, b as nat) =~= piece@);
            assert forall|c: nat| c < b + 1 implies #[trigger] block_packs(
                out@,
                cs,
                bits@,
                block as nat,
                c,
            ) by {
                if c < b {
                    assert(block_packs(before, cs, bits@, block as nat, c));
                    lemma_block_start_monotone(len as nat, block as nat, bits@, (c + 1) as nat, b as nat);
                    assert(block_slice(out@, bits@, block as nat, len as nat, c) =~= block_slice(
                        before,
                        bits@,
                        block as nat,
                        len as nat,
                        c,
                    ));
                }
            }
        }
        value_offset = value_offset + count;
        b = b + 1;
    }
    out
}

/// The unpacked codes of adaptively packed codes are those codes, when each
/// block's codes fit the block's bit width.
pub proof fn lemma_unpack_pack_adaptive(
    codes: Seq<int>,
    bits: Seq<u32>,
    block: nat,
    bytes: Seq<u8>,
)
    requires
        block >= 1,
        bits.len() == num_blocks(codes.len(), block),
        forall|b: int| 0 <= b < bits.len() ==> 1 <= #[trigger] bits[b] <= 32,
        blocks_fit(codes, bits, block),
        bytes.len() == block_start(codes.len(), block, bits, bits.len()),
        forall|b: nat| b < bits.len() ==> #[trigger] block_packs(bytes, codes, bits, block, b),
    ensures
        Seq::new(codes.len(), |i: int| adaptive_code(bytes, bits, block, codes.len(), i)) == codes,
{
    let len = codes.len();
    assert forall|i: int| 0 <= i < len implies #[trigger] adaptive_code(bytes, bits, block, len, i)
        == codes[i] by {
        let bl = block as int;
        let b = i / bl;
        let r = i % bl;
        vstd::arithmetic::div_mod::lemma_fundamental_div_mod(i, bl);
        vstd::arithmetic::div_mod::lemma_mod_pos_bound(i, bl);
        assert(i == b * bl + r) by (nonlinear_arith)
            requires
                i == bl * b + r,
        ;
        assert(b >= 0) by (nonlinear_arith)
            requires
                i >= 0,
                bl >= 1,
                b == i / bl,
        ;
        let ceil = (len + bl - 1) / bl;
        vstd::arithmetic::div_mod::lemma_fundamental_div_mod(len + bl - 1, bl);
        vstd::arithmetic::div_mod::lemma_mod_pos_bound(len + bl - 1, bl);
        assert(b < ceil) by (nonlinear_arith)
            requires
                i == b * bl + r,
                0 <= r < bl,
                i < len,
                len + bl - 1 == bl * ceil + (len + bl - 1) % bl,
                0 <= (len + bl - 1) % bl < bl,
        ;
        let bn = b as nat;
        let count = block_count(len, block, bn);
        lemma_block_in_range(len, block, bn);
        assert(r < count);
        let w = bits[b] as nat;
        let chunk = block_slice(bytes, bits, block, len, bn);
        let sub = block_codes(codes, block, bn);
        assert(block_packs(bytes, codes, bits, block, bn));
        assert(codes_fit(sub, w));
        lemma_block_start_monotone(len, block, bits, bn + 1, bits.len());
        assert(chunk.len() == byte_len(count, w));
        assert(sub.len() * w <= chunk.len() * 8) by (nonlinear_arith)
            requires
                sub.len() == count,
                chunk.len() == (count * w + 7) / 8,
        ;
        lemma_unpack_of_packed(chunk, sub, w);
        assert(codes_of(chunk, w, count)[r] == sub[r]);
    }
    assert(Seq::new(len, |i: int| adaptive_code(bytes, bits, block, len, i)) =~= codes);
}

/// Byte sequences that agree block by block over the whole adaptive layout are equal.
pub proof fn lemma_blocks_equal(a: Seq<u8>, c: Seq<u8>, bits: Seq<u32>, block: nat, len: nat, k: nat)
    requires
        k <= bits.len(),
        a.len() >= block_start(len, block, bits, k),
        c.len() >= block_start(len, block, bits, k),
        forall|b: nat|
            b < k ==> #[trigger] block_slice(a, bits, block, len, b) == block_slice(
                c,
                bits,
                block,
                len,
                b,
            ),
    ensures
        a.subrange(0, block_start(len, block, bits, k) as int) == c.subrange(
            0,
            block_start(len, block, bits, k) as int,
        ),
    decreases k,
{
    if k > 0 {
        let p = (k - 1) as nat;
        lemma_blocks_equal(a, c, bits, block, len, p);
        let s = block_start(len, block, bits, p) as int;
        let e = block_start(len, block, bits, k) as int;
        assert(block_slice(a, bits, block, len, p) == block_slice(c, bits, block, len, p));
        assert forall|m: int| 0 <= m < e implies a[m] == c[m] by {
            if m < s {
                assert(a.subrange(0, s)[m] == c.subrange(0, s)[m]);
            } else {
                assert(block_slice(a, bits, block, len, p)[m - s] == block_slice(
                    c,
                    bits,
                    block,
                    len,
                    p,
                )[m - s]);
            }
        }
        assert(a.subrange(0, e) =~= c.subrange(0, e));
    } else {
        assert(a.subrange(0, 0) =~= c.subrange(0, 0));
    }
}

/// Packing the unpacked codes of a canonical adaptive tensor gives back its bytes.
pub proof fn lemma_pack_unpack_adaptive(quantized: Quantized, repacked: Seq<u8>)
    requires
        quantized is Adaptive,
        adaptive_canonical(
            quantized->Adaptive_bytes@,
            quantized->Adaptive_bits@,
            quantized->Adaptive_block as nat,
            quantized->Adaptive_len as nat,
        ),
        forall|b: int| 0 <= b < quantized->Adaptive_bits@.len() ==> 1 <= #[trigger] quantized->Adaptive_bits@[b],
        repacked.len() == block_start(
            quantized->Adaptive_len as nat,
            quantized->Adaptive_block as nat,
            quantized->Adaptive_bits@,
            quantized->Adaptive_bits@.len(),
        ),
        forall|b: nat|
            b < quantized->Adaptive_bits@.len() ==> #[trigger] block_packs(
                repacked,
                quantized.unpacked(),
                quantized->Adaptive_bits@,
                quantized->Adaptive_block as nat,
                b,
            ),
    ensures
        repacked == quantized->Adaptive_bytes@,
{
    let bytes = quantized->Adaptive_bytes@;
    let bits = quantized->Adaptive_bits@;
    let block = quantized->Adaptive_block as nat;
    let len = quantized->Adaptive_len as nat;
    assert forall|b: nat| b < bits.len() implies #[trigger] block_slice(repacked, bits, block, len, b)
        == block_slice(bytes, bits, block, len, b) by {
        assert(block_packs(repacked, quantized.unpacked(), bits, block, b));
        lemma_block_start_monotone(len, block, bits, b + 1, bits.len());
        lemma_adaptive_repack(quantized, b, block_slice(repacked, bits, block, len, b));
    }
    lemma_blocks_equal(repacked, bytes, bits, block, len, bits.len());
    assert(repacked =~= repacked.subrange(0, repacked.len() as int));
    assert(bytes =~= bytes.subrange(0, bytes.len() as int));
}


/// The value ranges of the blocks of `len` values: block `b` covers
/// `b * block` up to the next block or the end.
pub fn block_ranges(len: usize, block: usize) -> (r: Vec<(usize, usize)>)
    requires
        block >= 1,
    ensures
        r@.len() == num_blocks(len as nat, block as nat),
        forall|b: int|
            0 <= b < r@.len() ==> #[trigger] r@[b] == (
                (b * block) as usize,
                (b * block + block_count(len as nat, block as nat, b as nat)) as usize,
            ),
{
    let mut out: Vec<(usize, usize)> = Vec::new();
    let mut start: usize = 0;
    let mut b: usize = 0;
    while start < len
        invariant
            block >= 1,
            start == b * block,
            start <= len,
            b > 0 ==> start < len,
            out@.len() == b,
            forall|c: int|
                0 <= c < b ==> #[trigger] out@[c] == (
                    (c * block) as usize,
                    (c * block + block_count(len as nat, block as nat, c as nat)) as usize,
                ),
        decreases len - start,
    {
        let end = if len - start < block {
            len
        } else {
            start + block
        };
        proof {
            assert(end == b * block + block_count(len as nat, block as nat, b as nat));
            assert((b + 1) * block == b * block + block) by (nonlinear_arith);
            assert(b <= b * block) by (nonlinear_arith)
                requires
                    block >= 1,
            ;
        }
        out.push((start, end));
        b = b + 1;
        if end == len {
            proof {
                lemma_num_blocks_exact(len as nat, block as nat, b as nat);
            }
            return out;
        }
        start = end;
    }
    proof {
        lemma_num_blocks_exact(len as nat, block as nat, b as nat);
    }
    out
}

/// `b` blocks cover `len` values exactly when the last of them reaches the end.
proof fn lemma_num_blocks_exact(len: nat, block: nat, b: nat)
    requires
        block >= 1,
        (b == 0 && len == 0) || (b >= 1 && (b - 1) * block < len <= b * block),
    ensures
        num_blocks(len, block) == b,
{
    let x = len + block - 1;
    let q = x / (block as int);
    vstd::arithmetic::div_mod::lemma_fundamental_div_mod(x, block as int);
    vstd::arithmetic::div_mod::lemma_mod_pos_bound(x, block as int);
    if b == 0 {
        assert(q == 0) by (nonlinear_arith)
            requires
                x == block * q + x % (block as int),
                0 <= x % (block as int) < block,
                x == block - 1,
        ;
    } else {
        assert(q == b) by (nonlinear_arith)
            requires
                x == block * q + x % (block as int),
                0 <= x % (block as int) < block,
                x == len + block - 1,
                (b - 1) * block < len <= b * block,
        ;
    }
}

/// A symmetric tensor holding `codes` packed at `bits` bits.
pub fn symmetric(scales: Vec<u32>, codes: &[i32], bits: u32, block: usize) -> (q: Quantized)
    requires
        1 <= bits <= 32,
        codes@.len() * bits + 7 <= usize::MAX,
    ensures
        q is Symmetric,
        q.spec_scales() == scales@,
        q.spec_len() == codes@.len(),
        q.spec_block() == block,
        q->Symmetric_codes.spec_bits() == bits,
        canonical(q.spec_code_bytes(), bits as nat, codes@.len()),
        q.unpackable(),
        codes_fit(ints(codes@), bits as nat) ==> q.unpacked() == ints(codes@),
{
    let packed = Packed::from_i32s(codes, bits);
    proof {
        assert(codes@.len() * bits <= packed.spec_bytes().len() * 8);
    }
    Quantized::Symmetric { scales, codes: packed, block, len: codes.len() }
}

/// An asymmetric tensor holding `codes` packed at `bits` bits.
pub fn asymmetric(scales: Vec<u32>, zero_points: Vec<u32>, codes: &[i32], bits: u32, block: usize) -> (q:
    Quantized)
    requires
        1 <= bits <= 32,
        codes@.len() * bits + 7 <= usize::MAX,
    ensures
        q is Asymmetric,
        q.spec_scales() == scales@,
        q.spec_zero_points() == zero_points@,
        q.spec_len() == codes@.len(),
        q.spec_block() == block,
        q->Asymmetric_codes.spec_bits() == bits,
        canonical(q.spec_code_bytes(), bits as nat, codes@.len()),
        q.unpackable(),
        codes_fit(ints(codes@), bits as nat) ==> q.unpacked() == ints(codes@),
{
    let packed = Packed::from_i32s(codes, bits);
    proof {
        assert(codes@.len() * bits <= packed.spec_bytes().len() * 8);
    }
    Quantized::Asymmetric { scales, zero_points, codes: packed, block, len: codes.len() }
}

/// An adaptive tensor holding block `b` of `codes` packed at `bits[b]` bits.
pub fn adaptive(scales: Vec<u32>, zero_points: Vec<u32>, codes: &[i32], bits: Vec<u32>, block: usize) -> (q:
    Quantized)
    requires
        block >= 1,
        bits@.len() == num_blocks(codes@.len(), block as nat),
        forall|b: int| 0 <= b < bits@.len() ==> 1 <= #[trigger] bits@[b] <= 32,
        codes@.len() * 32 + 7 <= usize::MAX,
        block_start(codes@.len(), block as nat, bits@, bits@.len()) <= usize::MAX,
    ensures
        q is Adaptive,
        q.spec_scales() == scales@,
        q.spec_zero_points() == zero_points@,
        q.spec_len() == codes@.len(),
        q.spec_block() == block,
        q->Adaptive_bits@ == bits@,
        adaptive_canonical(q.spec_code_bytes(), bits@, block as nat, codes@.len()),
        q.unpackable(),
        blocks_fit(ints(codes@), bits@, block as nat) ==> q.unpacked() == ints(codes@),
{
    let bytes = pack_adaptive(codes, bits.as_slice(), block);
    let q = Quantized::Adaptive { scales, zero_points, bytes, bits, block, len: codes.len() };
    proof {
        let cs = ints(codes@);
        assert forall|b: nat| b < q->Adaptive_bits@.len() implies #[trigger] canonical(
            block_slice(q.spec_code_bytes(), q->Adaptive_bits@, block as nat, codes@.len(), b),
            q->Adaptive_bits@[b as int] as nat,
            block_count(codes@.len(), block as nat, b),
        ) by {
            assert(block_packs(q.spec_code_bytes(), cs, q->Adaptive_bits@, block as nat, b));
        }
        if blocks_fit(cs, q->Adaptive_bits@, block as nat) {
            lemma_unpack_pack_adaptive(cs, q->Adaptive_bits@, block as nat, q.spec_code_bytes());
        }
    }
    q
}

/// The shape of a product of a tensor of `len` values, read as rows of
/// `columns` values, with `values` inputs taken `columns` at a time: the rows
/// and the number of input vectors. The tensor must split into whole rows and
/// the inputs into whole vectors.
pub fn matmul_shape(len: usize, values: usize, columns: usize) -> (r: Result<(usize, usize), Error>)
    ensures
        columns == 0 || len % columns != 0 ==> r == Err::<(usize, usize), Error>(
            Error::LengthMismatch { expected: len, got: columns },
        ),
        columns != 0 && len % columns == 0 && values % columns != 0 ==> r == Err::<(usize, usize), Error>(
            Error::LengthMismatch { expected: columns, got: (values % columns) as usize },
        ),
        columns != 0 && len % columns == 0 && values % columns == 0 ==> r == Ok::<(usize, usize), Error>(
            ((len / columns) as usize, (values / columns) as usize),
        ),
{
    if columns == 0 || len % columns != 0 {
        return Err(Error::LengthMismatch { expected: len, got: columns });
    }
    if values % columns != 0 {
        return Err(Error::LengthMismatch { expected: columns, got: values % columns });
    }
    Ok((len / columns, values / columns))
}

/// Storage counts every stored byte: all code bytes, and `width` bytes for
/// each scale and for each zero point the tensor holds.
pub proof fn lemma_nbytes_counts_codes_scales_and_zero_points(q: Quantized, width: nat)
    ensures
        q.spec_nbytes(width) == q.spec_code_bytes().len() + width * q.spec_scales().len() + width
            * q.spec_zero_points().len(),
        match q {
            Quantized::Symmetric { scales, codes, .. } => q.spec_nbytes(width) == codes.spec_bytes().len()
                + width * scales@.len(),
            Quantized::Asymmetric { scales, zero_points, codes, .. } => q.spec_nbytes(width)
                == codes.spec_bytes().len() + width * scales@.len() + width * zero_points@.len(),
            Quantized::Adaptive { scales, zero_points, bytes, .. } => q.spec_nbytes(width)
                == bytes@.len() + width * scales@.len() + width * zero_points@.len(),
        },
{
    let s = q.spec_scales().len();
    let z = q.spec_zero_points().len();
    assert((s + z) * width == width * s + width * z) by (nonlinear_arith);
}

/// Two asymmetric tensors that differ only in their zero points: each extra
/// zero point adds `width` bytes of storage.
pub proof fn lemma_nbytes_grows_with_zero_points(a: Quantized, b: Quantized, width: nat)
    requires
        a is Asymmetric,
        b is Asymmetric,
        a.spec_code_bytes() == b.spec_code_bytes(),
        a.spec_scales() == b.spec_scales(),
        a.spec_zero_points().len() <= b.spec_zero_points().len(),
    ensures
        b.spec_nbytes(width) == a.spec_nbytes(width) + width * (b.spec_zero_points().len()
            - a.spec_zero_points().len()),
{
    lemma_nbytes_counts_codes_scales_and_zero_points(a, width);
    lemma_nbytes_counts_codes_scales_and_zero_points(b, width);
    let za = a.spec_zero_points().len() as int;
    let zb = b.spec_zero_points().len() as int;
    assert(width * zb == width * za + width * (zb - za)) by (nonlinear_arith);
}

} // verus!
