//! Bit-packed two's-complement codes.
//!
//! Codes of `bits` bits each are laid end to end in a little-endian bit
//! stream: code `j` occupies stream bits `j * bits .. (j + 1) * bits`, least
//! significant bit first, and stream bit `i` is bit `i % 8` of byte `i / 8`.
//! For 4-bit codes this puts even codes in the low nibble of a byte and odd
//! codes in the high nibble.
use vstd::prelude::*;
use vstd::arithmetic::power2::*;
use vstd::arithmetic::div_mod::*;
use crate::bits::{pow2_u64, spec_max_int, spec_min_int};

verus! {

/// Bit `t` (0 = least significant) of a byte.
pub open spec fn byte_bit(b: u8, t: int) -> bool {
    (b >> (t as u8)) & 1u8 == 1u8
}

/// Bit `i` of the little-endian bit stream laid over `bytes`.
pub open spec fn stream_bit(bytes: Seq<u8>, i: int) -> bool {
    0 <= i < bytes.len() * 8 && byte_bit(bytes[i / 8], i % 8)
}

/// Unsigned value of the `width` stream bits that start at `start`.
pub open spec fn field_value(bytes: Seq<u8>, start: int, width: nat) -> nat
    decreases width,
{
    if width == 0 {
        0
    } else {
        field_value(bytes, start, (width - 1) as nat) + if stream_bit(bytes, start + width - 1) {
            pow2((width - 1) as nat)
        } else {
            0
        }
    }
}

/// Two's-complement reading of a `width`-bit unsigned value.
pub open spec fn sign_extend(v: int, width: nat) -> int {
    if v >= pow2((width - 1) as nat) {
        v - pow2(width)
    } else {
        v
    }
}

/// Code `j` of a stream of `width`-bit codes.
pub open spec fn code_at(bytes: Seq<u8>, width: nat, j: int) -> int {
    sign_extend(field_value(bytes, j * width, width) as int, width)
}

/// The first `count` codes of a stream of `width`-bit codes.
pub open spec fn codes_of(bytes: Seq<u8>, width: nat, count: nat) -> Seq<int> {
    Seq::new(count, |j: int| code_at(bytes, width, j))
}

/// Residue of a code modulo `2^width`: the bits that packing keeps.
pub open spec fn low_bits(c: int, width: nat) -> int {
    c % (pow2(width) as int)
}

/// Bit `k` that packing writes for code `c`.
pub open spec fn code_bit(c: int, width: nat, k: nat) -> bool {
    (low_bits(c, width) / (pow2(k) as int)) % 2 == 1
}

/// Stream bit `i` of the packing of `codes` at `width` bits: code bits, then zero padding.
pub open spec fn packed_bit(codes: Seq<int>, width: nat, i: int) -> bool {
    0 <= i < codes.len() * width && code_bit(codes[i / (width as int)], width, (i % (width as int)) as nat)
}

/// Bytes needed for `count` codes of `width` bits.
pub open spec fn byte_len(count: nat, width: nat) -> nat {
    (count * width + 7) / 8
}

/// `bytes` hold exactly `count` codes of `width` bits with zero padding.
pub open spec fn canonical(bytes: Seq<u8>, width: nat, count: nat) -> bool {
    &&& bytes.len() == byte_len(count, width)
    &&& forall|i: int| count * width <= i < bytes.len() * 8 ==> !#[trigger] stream_bit(bytes, i)
}

/// A sequence of `i32` codes read as integers.
pub open spec fn ints(codes: Seq<i32>) -> Seq<int> {
    codes.map_values(|c: i32| c as int)
}

/// Every code lies in the signed range of `width` bits.
pub open spec fn codes_fit(codes: Seq<int>, width: nat) -> bool {
    forall|j: int|
        0 <= j < codes.len() ==> spec_min_int(width) <= #[trigger] codes[j] <= spec_max_int(width)
}

/// A stream position `j * w + k` with `k < w` belongs to code `j` at bit `k`.
pub proof fn lemma_position(j: int, w: int, k: int)
    requires
        0 <= j,
        0 <= k < w,
    ensures
        (j * w + k) / w == j,
        (j * w + k) % w == k,
{
    lemma_fundamental_div_mod_converse(j * w + k, w, j, k);
}

/// Setting bit `t` of a byte leaves its other bits alone.
pub proof fn lemma_set_bit(b: u8, t: u8, s: u8)
    by (bit_vector)
    requires
        t < 8,
        s < 8,
    ensures
        ((b | (1u8 << t)) >> s) & 1u8 == (if s == t {
            1u8
        } else {
            (b >> s) & 1u8
        }),
{
}

/// The zero byte has no bit set.
pub proof fn lemma_zero_byte(s: u8)
    by (bit_vector)
    requires
        s < 8,
    ensures
        (0u8 >> s) & 1u8 == 0u8,
{
}

/// Two bytes that agree on all eight bits are equal.
pub proof fn lemma_byte_ext(a: u8, b: u8)
    by (bit_vector)
    requires
        (a >> 0u8) & 1u8 == (b >> 0u8) & 1u8,
        (a >> 1u8) & 1u8 == (b >> 1u8) & 1u8,
        (a >> 2u8) & 1u8 == (b >> 2u8) & 1u8,
        (a >> 3u8) & 1u8 == (b >> 3u8) & 1u8,
        (a >> 4u8) & 1u8 == (b >> 4u8) & 1u8,
        (a >> 5u8) & 1u8 == (b >> 5u8) & 1u8,
        (a >> 6u8) & 1u8 == (b >> 6u8) & 1u8,
        (a >> 7u8) & 1u8 == (b >> 7u8) & 1u8,
    ensures
        a == b,
{
}

/// A bit is either set or clear.
pub proof fn lemma_bit_is_bit(b: u8, s: u8)
    by (bit_vector)
    ensures
        (b >> s) & 1u8 == 1u8 || (b >> s) & 1u8 == 0u8,
{
}

/// Stream bit `8 * m + t` is bit `t` of byte `m`.
proof fn lemma_stream_byte(a: Seq<u8>, b: Seq<u8>, m: int, t: int)
    requires
        a.len() == b.len(),
        0 <= m < a.len(),
        0 <= t < 8,
        stream_bit(a, 8 * m + t) == stream_bit(b, 8 * m + t),
    ensures
        byte_bit(a[m], t) == byte_bit(b[m], t),
{
    assert((8 * m + t) / 8 == m);
    assert((8 * m + t) % 8 == t);
}

/// Byte sequences with the same length and the same stream bits are equal.
pub proof fn lemma_stream_ext(a: Seq<u8>, b: Seq<u8>)
    requires
        a.len() == b.len(),
        forall|i: int| 0 <= i < a.len() * 8 ==> stream_bit(a, i) == stream_bit(b, i),
    ensures
        a == b,
{
    assert forall|m: int| 0 <= m < a.len() implies a[m] == b[m] by {
        lemma_stream_byte(a, b, m, 0);
        lemma_stream_byte(a, b, m, 1);
        lemma_stream_byte(a, b, m, 2);
        lemma_stream_byte(a, b, m, 3);
        lemma_stream_byte(a, b, m, 4);
        lemma_stream_byte(a, b, m, 5);
        lemma_stream_byte(a, b, m, 6);
        lemma_stream_byte(a, b, m, 7);
        lemma_bit_is_bit(a[m], 0);
        lemma_bit_is_bit(a[m], 1);
        lemma_bit_is_bit(a[m], 2);
        lemma_bit_is_bit(a[m], 3);
        lemma_bit_is_bit(a[m], 4);
        lemma_bit_is_bit(a[m], 5);
        lemma_bit_is_bit(a[m], 6);
        lemma_bit_is_bit(a[m], 7);
        lemma_bit_is_bit(b[m], 0);
        lemma_bit_is_bit(b[m], 1);
        lemma_bit_is_bit(b[m], 2);
        lemma_bit_is_bit(b[m], 3);
        lemma_bit_is_bit(b[m], 4);
        lemma_bit_is_bit(b[m], 5);
        lemma_bit_is_bit(b[m], 6);
        lemma_bit_is_bit(b[m], 7);
        lemma_byte_ext(a[m], b[m]);
    }
    assert(a =~= b);
}

/// A field of `width` bits is below `2^width`.
pub proof fn lemma_field_bound(bytes: Seq<u8>, start: int, width: nat)
    ensures
        field_value(bytes, start, width) < pow2(width),
    decreases width,
{
    if width == 0 {
        lemma2_to64();
    } else {
        lemma_field_bound(bytes, start, (width - 1) as nat);
        lemma_pow2_unfold(width);
    }
}

/// A field whose bits are the binary digits of `x` holds `x mod 2^width`.
pub proof fn lemma_field_of_digits(bytes: Seq<u8>, start: int, width: nat, x: int)
    requires
        0 <= x,
        forall|k: nat|
            k < width ==> #[trigger] stream_bit(bytes, start + k) == ((x / (pow2(k) as int)) % 2
                == 1),
    ensures
        field_value(bytes, start, width) == x % (pow2(width) as int),
    decreases width,
{
    if width == 0 {
        lemma2_to64();
        lemma_fundamental_div_mod_converse(x, 1, x, 0);
    } else {
        let m = (width - 1) as nat;
        lemma_field_of_digits(bytes, start, m, x);
        lemma_pow2_pos(m);
        lemma_pow2_unfold(width);
        lemma_mod_breakdown(x, pow2(m) as int, 2);
        assert(pow2(width) as int == pow2(m) as int * 2);
        assert(stream_bit(bytes, start + m) == ((x / (pow2(m) as int)) % 2 == 1));
        lemma_mod_pos_bound(x / (pow2(m) as int), 2);
        assert(start + width - 1 == start + m);
        let p = pow2(m) as int;
        let d = (x / p) % 2;
        assert(x % (p * 2) == p * d + x % p);
        if stream_bit(bytes, start + m) {
            assert(d == 1);
            assert(p * d == p) by (nonlinear_arith)
                requires
                    d == 1,
            ;
            assert(field_value(bytes, start, width) == x % p + p);
        } else {
            assert(d == 0);
            assert(p * d == 0) by (nonlinear_arith)
                requires
                    d == 0,
            ;
            assert(field_value(bytes, start, width) == x % p);
        }
    }
}

/// Bit `k` of `y + c * 2^m` for `y < 2^m`: the digit `c` at `m`, the digits of `y` below.
pub proof fn lemma_digit_of_sum(y: int, c: int, m: nat, k: nat)
    requires
        0 <= y < pow2(m),
        c == 0 || c == 1,
        k <= m,
    ensures
        ((y + c * pow2(m)) / (pow2(k) as int)) % 2 == if k == m {
            c
        } else {
            (y / (pow2(k) as int)) % 2
        },
{
    lemma_pow2_pos(k);
    if k == m {
        lemma_fundamental_div_mod_converse(y + c * pow2(m), pow2(m) as int, c, y);
    } else {
        let d = pow2(k) as int;
        let e = (m - k) as nat;
        lemma_pow2_adds(k, e);
        assert(pow2(m) == pow2(k) * pow2(e));
        lemma_pow2_unfold(e);
        let q = c * pow2((e - 1) as nat);
        assert(c * pow2(m) == (2 * q) * d) by (nonlinear_arith)
            requires
                pow2(m) == d * pow2(e),
                pow2(e) == 2 * pow2((e - 1) as nat),
                q == c * pow2((e - 1) as nat),
        ;
        lemma_fundamental_div_mod(y, d);
        lemma_mod_pos_bound(y, d);
        assert(y + c * pow2(m) == (y / d + 2 * q) * d + y % d) by (nonlinear_arith)
            requires
                y == d * (y / d) + y % d,
                c * pow2(m) == (2 * q) * d,
        ;
        lemma_fundamental_div_mod_converse(y + c * pow2(m), d, y / d + 2 * q, y % d);
        lemma_mod_multiples_vanish(q, y / d, 2);
    }
}

/// Bit `k` of a field is stream bit `start + k`.
pub proof fn lemma_field_digit(bytes: Seq<u8>, start: int, width: nat, k: nat)
    requires
        k < width,
    ensures
        ((field_value(bytes, start, width) as int) / (pow2(k) as int)) % 2 == if stream_bit(
            bytes,
            start + k,
        ) {
            1int
        } else {
            0int
        },
    decreases width,
{
    let m = (width - 1) as nat;
    let y = field_value(bytes, start, m) as int;
    let c: int = if stream_bit(bytes, start + m) {
        1
    } else {
        0
    };
    lemma_field_bound(bytes, start, m);
    assert(field_value(bytes, start, width) == y + c * pow2(m));
    lemma_digit_of_sum(y, c, m, k);
    if k < m {
        lemma_field_digit(bytes, start, m, k);
    }
}

/// Sign extension undoes the residue of a code in the signed range.
pub proof fn lemma_sign_extend_low_bits(c: int, width: nat)
    requires
        width >= 1,
        spec_min_int(width) <= c <= spec_max_int(width),
    ensures
        0 <= low_bits(c, width) < pow2(width),
        sign_extend(low_bits(c, width), width) == c,
{
    let h = pow2((width - 1) as nat) as int;
    lemma_pow2_unfold(width);
    lemma_pow2_pos((width - 1) as nat);
    let m = pow2(width) as int;
    if c >= 0 {
        lemma_fundamental_div_mod_converse(c, m, 0, c);
    } else {
        lemma_fundamental_div_mod_converse(c, m, -1, c + m);
    }
}

/// The residue of a sign-extended field is the field.
pub proof fn lemma_low_bits_sign_extend(v: int, width: nat)
    requires
        width >= 1,
        0 <= v < pow2(width),
    ensures
        low_bits(sign_extend(v, width), width) == v,
{
    let m = pow2(width) as int;
    lemma_pow2_pos(width);
    if v >= pow2((width - 1) as nat) {
        lemma_fundamental_div_mod_converse(v - m, m, -1, v);
    } else {
        lemma_fundamental_div_mod_converse(v, m, 0, v);
    }
}

/// Unpacking what packing wrote gives back every code that fits the bit width.
pub proof fn lemma_unpack_of_packed(bytes: Seq<u8>, codes: Seq<int>, width: nat)
    requires
        width >= 1,
        codes_fit(codes, width),
        codes.len() * width <= bytes.len() * 8,
        forall|i: int| 0 <= i < bytes.len() * 8 ==> stream_bit(bytes, i) == packed_bit(codes, width, i),
    ensures
        codes_of(bytes, width, codes.len()) == codes,
{
    assert forall|j: int| 0 <= j < codes.len() implies #[trigger] code_at(bytes, width, j)
        == codes[j] by {
        let c = codes[j];
        lemma_sign_extend_low_bits(c, width);
        let x = low_bits(c, width);
        assert forall|k: nat| k < width implies #[trigger] stream_bit(bytes, j * width + k) == ((x
            / (pow2(k) as int)) % 2 == 1) by {
            lemma_position(j, width as int, k as int);
            assert(j * width + k < codes.len() * width) by (nonlinear_arith)
                requires
                    0 <= j < codes.len(),
                    k < width,
            ;
            assert(packed_bit(codes, width, j * width + k) == code_bit(c, width, k));
        }
        lemma_field_of_digits(bytes, j * width, width, x);
        lemma_small_mod(x as nat, pow2(width));
    }
    assert(codes_of(bytes, width, codes.len()) =~= codes);
}

/// Packing the unpacked codes of canonical bytes gives back those bytes.
pub proof fn lemma_repack(bytes: Seq<u8>, width: nat, count: nat, repacked: Seq<u8>)
    requires
        width >= 1,
        canonical(bytes, width, count),
        repacked.len() == byte_len(count, width),
        forall|i: int|
            0 <= i < repacked.len() * 8 ==> stream_bit(repacked, i) == packed_bit(
                codes_of(bytes, width, count),
                width,
                i,
            ),
    ensures
        repacked == bytes,
{
    let codes = codes_of(bytes, width, count);
    assert forall|i: int| 0 <= i < bytes.len() * 8 implies stream_bit(repacked, i) == stream_bit(
        bytes,
        i,
    ) by {
        if i < count * width {
            let j = i / (width as int);
            let k = i % (width as int);
            lemma_fundamental_div_mod(i, width as int);
            lemma_mod_pos_bound(i, width as int);
            assert(0 <= j < count) by (nonlinear_arith)
                requires
                    0 <= i < count * width,
                    i == width * j + k,
                    0 <= k < width,
            ;
            assert(i == j * width + k) by (nonlinear_arith)
                requires
                    i == width * j + k,
            ;
            let v = field_value(bytes, j * width, width) as int;
            lemma_field_bound(bytes, j * width, width);
            lemma_low_bits_sign_extend(v, width);
            assert(codes[j] == sign_extend(v, width));
            lemma_field_digit(bytes, j * width, width, k as nat);
        } else {
            assert(!packed_bit(codes, width, i));
        }
    }
    lemma_stream_ext(repacked, bytes);
}


/// Reads the unsigned field of `width` stream bits that starts at bit `start`.
fn read_field(bytes: &[u8], start: usize, width: u32) -> (r: u64)
    requires
        1 <= width <= 32,
        start + width <= bytes@.len() * 8,
        start + width <= usize::MAX,
    ensures
        r == field_value(bytes@, start as int, width as nat),
{
    let mut v: u64 = 0;
    let mut p: u64 = 1;
    let mut k: u32 = 0;
    proof {
        lemma2_to64();
    }
    while k < width
        invariant
            1 <= width <= 32,
            k <= width,
            start + width <= bytes@.len() * 8,
            start + width <= usize::MAX,
            v == field_value(bytes@, start as int, k as nat),
            p == pow2(k as nat),
            v < p,
        decreases width - k,
    {
        proof {
            lemma_pow2_unfold((k + 1) as nat);
            lemma_pow2_strictly_increases((k + 1) as nat, 33);
            lemma2_to64_rest();
        }
        let i = start + k as usize;
        let b = bytes[i / 8];
        let t = (i % 8) as u8;
        if (b >> t) & 1u8 == 1u8 {
            v = v + p;
        }
        p = p * 2;
        k = k + 1;
    }
    v
}

/// Reads code `j` of a stream of `bits`-bit two's-complement codes.
pub fn read_code(bytes: &[u8], bits: u32, j: usize) -> (r: i32)
    requires
        1 <= bits <= 32,
        (j + 1) * bits <= bytes@.len() * 8,
        (j + 1) * bits <= usize::MAX,
    ensures
        r as int == code_at(bytes@, bits as nat, j as int),
{
    proof {
        assert((j + 1) * bits == j * bits + bits) by (nonlinear_arith);
    }
    let start = j * bits as usize;
    let v = read_field(bytes, start, bits);
    let half = pow2_u64(bits - 1);
    proof {
        lemma_field_bound(bytes@, start as int, bits as nat);
        lemma_pow2_unfold(bits as nat);
        lemma_pow2_below_33((bits - 1) as nat);
    }
    if v >= half {
        (v as i64 - (2 * half) as i64) as i32
    } else {
        v as i32
    }
}

/// `2^e` is at most `2^31` for `e <= 31`.
proof fn lemma_pow2_below_33(e: nat)
    requires
        e <= 31,
    ensures
        1 <= pow2(e) <= 0x8000_0000,
{
    lemma2_to64();
    lemma_pow2_pos(e);
    if e < 31 {
        lemma_pow2_strictly_increases(e, 31);
    }
}

/// Packed two's-complement codes of a fixed bit width.
#[derive(Clone, Debug)]
pub struct Packed {
    bytes: Vec<u8>,
    bits: u32,
    len: usize,
}

impl View for Packed {
    type V = Seq<int>;

    /// The codes the packed bytes hold.
    open spec fn view(&self) -> Seq<int> {
        codes_of(self.spec_bytes(), self.spec_bits(), self.spec_len())
    }
}

impl Packed {
    /// The packed bytes.
    pub closed spec fn spec_bytes(&self) -> Seq<u8> {
        self.bytes@
    }

    /// The bit width of one code.
    pub closed spec fn spec_bits(&self) -> nat {
        self.bits as nat
    }

    /// The number of codes.
    pub closed spec fn spec_len(&self) -> nat {
        self.len as nat
    }

    /// The bit width is a `u32`.
    pub proof fn lemma_bits_bound(&self)
        ensures
            self.spec_bits() <= u32::MAX,
    {
    }

    /// The bit width is supported and the bytes hold all the codes.
    pub open spec fn readable(&self) -> bool {
        &&& 1 <= self.spec_bits() <= 32
        &&& self.spec_len() * self.spec_bits() <= self.spec_bytes().len() * 8
        &&& self.spec_len() * self.spec_bits() <= usize::MAX
    }

    /// Wraps raw bytes as `len` codes of `bits` bits.
    pub fn from_raw(bytes: Vec<u8>, bits: u32, len: usize) -> (p: Packed)
        ensures
            p.spec_bytes() == bytes@,
            p.spec_bits() == bits,
            p.spec_len() == len,
    {
        Packed { bytes, bits, len }
    }

    /// The bit width of one code.
    pub fn bits(&self) -> (r: u32)
        ensures
            r == self.spec_bits(),
    {
        self.bits
    }

    /// The number of codes.
    pub fn len(&self) -> (r: usize)
        ensures
            r == self.spec_len(),
    {
        self.len
    }

    /// The packed bytes.
    pub fn as_bytes(&self) -> (r: &[u8])
        ensures
            r@ == self.spec_bytes(),
    {
        self.bytes.as_slice()
    }

    /// Packs `codes` at `bits` bits each; each code keeps its low `bits` bits.
    pub fn from_i32s(codes: &[i32], bits: u32) -> (p: Packed)
        requires
            1 <= bits <= 32,
            codes@.len() * bits + 7 <= usize::MAX,
        ensures
            p.spec_bits() == bits,
            p.spec_len() == codes@.len(),
            p.spec_bytes().len() == byte_len(codes@.len(), bits as nat),
            forall|i: int|
                0 <= i < p.spec_bytes().len() * 8 ==> stream_bit(p.spec_bytes(), i) == packed_bit(
                    ints(codes@),
                    bits as nat,
                    i,
                ),
            canonical(p.spec_bytes(), bits as nat, codes@.len()),
            codes_fit(ints(codes@), bits as nat) ==> p@ == ints(codes@),
    {
        let n = codes.len();
        let total = n * bits as usize;
        let nbytes = (total + 7) / 8;
        let mut bytes: Vec<u8> = vec![0u8; nbytes];
        let pw = pow2_u64(bits);
        let ghost cs = ints(codes@);
        let ghost w = bits as nat;
        proof {
            lemma2_to64();
            lemma2_to64_rest();
            lemma_pow2_pos(w);
            assert forall|i: int| 0 <= i < nbytes * 8 implies !stream_bit(bytes@, i) by {
                lemma_zero_byte((i % 8) as u8);
            }
        }
        let mut j: usize = 0;
        let mut base: usize = 0;
        while j < n
            invariant
                1 <= bits <= 32,
                n == codes@.len(),
                cs == ints(codes@),
                w == bits,
                total == n * bits,
                total + 7 <= usize::MAX,
                nbytes == (total + 7) / 8,
                bytes@.len() == nbytes,
                pw == pow2(w),
                pw > 0,
                j <= n,
                base == j * bits,
                forall|i: int| 0 <= i < base ==> stream_bit(bytes@, i) == packed_bit(cs, w, i),
                forall|i: int| base <= i < nbytes * 8 ==> !stream_bit(bytes@, i),
            decreases n - j,
        {
            proof {
                assert((j + 1) * bits == j * bits + bits) by (nonlinear_arith);
                assert((j + 1) * bits <= n * bits) by (nonlinear_arith)
                    requires
                        j + 1 <= n,
                ;
            }
            let c = codes[j];
            let low: u64 = ((c as i64 + 0x1_0000_0000i64) as u64) % pw;
            proof {
                lemma_low_bits_shift(c as int, w);
                assert(cs[j as int] == c as int);
            }
            let mut k: u32 = 0;
            let mut pk: u64 = 1;
            proof {
                lemma2_to64();
            }
            while k < bits
                invariant
                    1 <= bits <= 32,
                    n == codes@.len(),
                    cs == ints(codes@),
                    w == bits,
                    cs[j as int] == c as int,
                    low == low_bits(c as int, w),
                    total == n * bits,
                    total + 7 <= usize::MAX,
                    nbytes == (total + 7) / 8,
                    bytes@.len() == nbytes,
                    j < n,
                    base == j * bits,
                    base + bits <= total,
                    k <= bits,
                    pk == pow2(k as nat),
                    pk > 0,
                    forall|i: int| 0 <= i < base + k ==> stream_bit(bytes@, i) == packed_bit(cs, w, i),
                    forall|i: int| base + k <= i < nbytes * 8 ==> !stream_bit(bytes@, i),
                decreases bits - k,
            {
                proof {
                    lemma_pow2_unfold((k + 1) as nat);
                    lemma_pow2_pos((k + 1) as nat);
                    lemma_pow2_strictly_increases((k + 1) as nat, 33);
                    lemma2_to64_rest();
                    lemma_position(j as int, bits as int, k as int);
                }
                let i = base + k as usize;
                let ghost old_bytes = bytes@;
                let set = (low / pk) % 2 == 1;
                if set {
                    let b = bytes[i / 8];
                    bytes.set(i / 8, b | (1u8 << (i % 8) as u8));
                }
                proof {
                    assert(packed_bit(cs, w, i as int) == set);
                    assert forall|q: int| 0 <= q < nbytes * 8 && q != i implies stream_bit(bytes@, q)
                        == stream_bit(old_bytes, q) by {
                        if set && q / 8 == i / 8 {
                            lemma_set_bit(old_bytes[(i / 8) as int], (i % 8) as u8, (q % 8) as u8);
                        }
                    }
                    if set {
                        lemma_set_bit(old_bytes[(i / 8) as int], (i % 8) as u8, (i % 8) as u8);
                    }
                    assert forall|q: int| base + k + 1 <= q < nbytes * 8 implies !stream_bit(bytes@, q) by {
                        assert(stream_bit(bytes@, q) == stream_bit(old_bytes, q));
                        assert(!stream_bit(old_bytes, q));
                    }
                }
                pk = pk * 2;
                k = k + 1;
            }
            j = j + 1;
            base = base + bits as usize;
        }
        let p = Packed { bytes, bits, len: n };
        proof {
            assert(nbytes * 8 >= total);
            if codes_fit(cs, w) {
                lemma_unpack_of_packed(bytes@, cs, w);
            }
        }
        p
    }

    /// Writes the codes into the front of `out`.
    pub fn unpack_into(&self, out: &mut [i32])
        requires
            self.readable(),
            old(out)@.len() >= self.spec_len(),
        ensures
            final(out)@.len() == old(out)@.len(),
            forall|j: int| 0 <= j < self.spec_len() ==> final(out)@[j] as int == self@[j],
            forall|j: int| self.spec_len() <= j < old(out)@.len() ==> final(out)@[j] == old(out)@[j],
    {
        Self::unpack_slice(self.bytes.as_slice(), self.bits, out, self.len);
    }

    /// Writes the first `count` codes of a stream of `bits`-bit codes into the front of `out`.
    pub fn unpack_slice(bytes: &[u8], bits: u32, out: &mut [i32], count: usize)
        requires
            1 <= bits <= 32,
            count * bits <= bytes@.len() * 8,
            count * bits <= usize::MAX,
            count <= old(out)@.len(),
        ensures
            final(out)@.len() == old(out)@.len(),
            forall|j: int| 0 <= j < count ==> final(out)@[j] as int == code_at(bytes@, bits as nat, j),
            forall|j: int| count <= j < old(out)@.len() ==> final(out)@[j] == old(out)@[j],
    {
        let mut j: usize = 0;
        while j < count
            invariant
                1 <= bits <= 32,
                count * bits <= bytes@.len() * 8,
                count * bits <= usize::MAX,
                count <= out@.len(),
                out@.len() == old(out)@.len(),
                j <= count,
                forall|i: int| 0 <= i < j ==> out@[i] as int == code_at(bytes@, bits as nat, i),
                forall|i: int| count <= i < out@.len() ==> out@[i] == old(out)@[i],
            decreases count - j,
        {
            proof {
                assert((j + 1) * bits <= count * bits) by (nonlinear_arith)
                    requires
                        j + 1 <= count,
                ;
            }
            let code = read_code(bytes, bits, j);
            out[j] = code;
            j = j + 1;
        }
    }
}

/// The residue that packing computes through a shift by `2^32` is the residue of the code.
proof fn lemma_low_bits_shift(c: int, w: nat)
    requires
        1 <= w <= 32,
        i32::MIN <= c <= i32::MAX,
    ensures
        (c + 0x1_0000_0000) % (pow2(w) as int) == low_bits(c, w),
        0 <= c + 0x1_0000_0000,
{
    let e = (32 - w) as nat;
    lemma_pow2_adds(w, e);
    lemma2_to64();
    lemma_pow2_pos(w);
    assert(pow2(32) == 0x1_0000_0000);
    assert(0x1_0000_0000 == pow2(w) * pow2(e));
    lemma_mod_multiples_vanish(pow2(e) as int, c, pow2(w) as int);
}

} // verus!
