//! Pickle state of a quantized tensor.
//!
//! The state is a tag, the kind name, the scale width, the block size, the
//! length, the code bytes, the code bit width (0 for adaptive tensors), the
//! per-block bit widths (empty unless adaptive), and the scales and zero
//! points as little-endian bytes of the scale width.
use vstd::prelude::*;
use crate::packed::Packed;
use crate::inner::QuantizedInner;
use crate::quantized::{Quantized, QuantizedView};
use crate::scale::{scale_width, str_eq, PyScale};

verus! {

/// Byte `t` (little-endian) of a scale bit pattern.
pub open spec fn le_byte(v: u32, t: int) -> u8 {
    ((v >> ((8 * t) as u32)) & 0xffu32) as u8
}

/// The value of a little-endian chunk of two or four bytes.
pub open spec fn le_value(chunk: Seq<u8>) -> u32 {
    if chunk.len() == 2 {
        (chunk[0] as u32) | ((chunk[1] as u32) << 8u32)
    } else {
        (chunk[0] as u32) | ((chunk[1] as u32) << 8u32) | ((chunk[2] as u32) << 16u32) | ((
        chunk[3] as u32) << 24u32)
    }
}

/// Scale bit patterns written as `width` little-endian bytes each.
pub open spec fn encoded(values: Seq<u32>, width: nat) -> Seq<u8> {
    Seq::new(
        values.len() * width,
        |i: int| le_byte(values[i / (width as int)], i % (width as int)),
    )
}

/// Bytes read back as scale bit patterns of `width` bytes each.
pub open spec fn decoded(bytes: Seq<u8>, width: nat) -> Seq<u32> {
    Seq::new(
        (bytes.len() / width) as nat,
        |k: int| le_value(bytes.subrange(k * width, k * width + width)),
    )
}

/// Every value fits in `width` bytes.
pub open spec fn fits_width(values: Seq<u32>, width: nat) -> bool {
    width == 4 || forall|k: int| 0 <= k < values.len() ==> #[trigger] values[k] < 0x1_0000
}

/// A supported scale width.
pub open spec fn valid_width(width: nat) -> bool {
    width == 2 || width == 4
}

/// A four-byte value is its four little-endian bytes.
pub proof fn lemma_le_value_of_bytes4(v: u32)
    by (bit_vector)
    ensures
        v == (((v >> 0u32) & 0xffu32) as u8 as u32) | ((((v >> 8u32) & 0xffu32) as u8 as u32) << 8u32)
            | ((((v >> 16u32) & 0xffu32) as u8 as u32) << 16u32) | ((((v >> 24u32) & 0xffu32) as u8
            as u32) << 24u32),
{
}

/// A value below `2^16` is its two little-endian bytes.
pub proof fn lemma_le_value_of_bytes2(v: u32)
    by (bit_vector)
    requires
        v < 0x1_0000u32,
    ensures
        v == (((v >> 0u32) & 0xffu32) as u8 as u32) | ((((v >> 8u32) & 0xffu32) as u8 as u32) << 8u32),
{
}

/// The bytes of a four-byte value are the bytes it was made of.
pub proof fn lemma_le_bytes_of_value4(b0: u8, b1: u8, b2: u8, b3: u8)
    by (bit_vector)
    ensures
        ({
            let v = (b0 as u32) | ((b1 as u32) << 8u32) | ((b2 as u32) << 16u32) | ((b3 as u32)
                << 24u32);
            &&& ((v >> 0u32) & 0xffu32) as u8 == b0
            &&& ((v >> 8u32) & 0xffu32) as u8 == b1
            &&& ((v >> 16u32) & 0xffu32) as u8 == b2
            &&& ((v >> 24u32) & 0xffu32) as u8 == b3
        }),
{
}

/// The bytes of a two-byte value are the bytes it was made of.
pub proof fn lemma_le_bytes_of_value2(b0: u8, b1: u8)
    by (bit_vector)
    ensures
        ({
            let v = (b0 as u32) | ((b1 as u32) << 8u32);
            &&& ((v >> 0u32) & 0xffu32) as u8 == b0
            &&& ((v >> 8u32) & 0xffu32) as u8 == b1
            &&& v < 0x1_0000u32
        }),
{
}

/// Decoding encoded scales gives them back.
pub proof fn lemma_decode_encode(values: Seq<u32>, width: nat)
    requires
        valid_width(width),
        fits_width(values, width),
    ensures
        decoded(encoded(values, width), width) == values,
{
    let e = encoded(values, width);
    let w = width as int;
    assert((e.len() as int) / w == values.len()) by (nonlinear_arith)
        requires
            e.len() == values.len() * w,
            w > 0,
    ;
    assert forall|k: int| 0 <= k < values.len() implies #[trigger] decoded(e, width)[k]
        == values[k] by {
        let chunk = e.subrange(k * w, k * w + w);
        assert(k * w + w <= e.len()) by (nonlinear_arith)
            requires
                0 <= k < values.len(),
                e.len() == values.len() * w,
                w > 0,
        ;
        assert forall|t: int| 0 <= t < w implies #[trigger] chunk[t] == le_byte(values[k], t) by {
            crate::packed::lemma_position(k, w, t);
        }
        if w == 4 {
            lemma_le_value_of_bytes4(values[k]);
        } else {
            lemma_le_value_of_bytes2(values[k]);
        }
    }
    assert(decoded(e, width) =~= values);
}

/// Encoding decoded bytes gives them back.
pub proof fn lemma_encode_decode(bytes: Seq<u8>, width: nat)
    requires
        valid_width(width),
        (bytes.len() as int) % (width as int) == 0,
    ensures
        encoded(decoded(bytes, width), width) == bytes,
        fits_width(decoded(bytes, width), width),
{
    let d = decoded(bytes, width);
    let w = width as int;
    vstd::arithmetic::div_mod::lemma_fundamental_div_mod(bytes.len() as int, w);
    assert(d.len() * w == bytes.len());
    assert forall|i: int| 0 <= i < bytes.len() implies #[trigger] encoded(d, width)[i] == bytes[i] by {
        let k = i / w;
        let t = i % w;
        vstd::arithmetic::div_mod::lemma_fundamental_div_mod(i, w);
        vstd::arithmetic::div_mod::lemma_mod_pos_bound(i, w);
        assert(0 <= k < d.len()) by (nonlinear_arith)
            requires
                0 <= i < d.len() * w,
                i == w * k + t,
                0 <= t < w,
        ;
        assert(i == k * w + t) by (nonlinear_arith)
            requires
                i == w * k + t,
        ;
        let chunk = bytes.subrange(k * w, k * w + w);
        assert(k * w + w <= bytes.len()) by (nonlinear_arith)
            requires
                0 <= k < d.len(),
                bytes.len() == d.len() * w,
        ;
        assert(chunk[t] == bytes[i]);
        if w == 4 {
            lemma_le_bytes_of_value4(chunk[0], chunk[1], chunk[2], chunk[3]);
        } else {
            lemma_le_bytes_of_value2(chunk[0], chunk[1]);
        }
    }
    assert(encoded(d, width) =~= bytes);
    if w == 2 {
        assert forall|k: int| 0 <= k < d.len() implies #[trigger] d[k] < 0x1_0000 by {
            let chunk = bytes.subrange(k * w, k * w + w);
            assert(k * w + w <= bytes.len()) by (nonlinear_arith)
                requires
                    0 <= k < d.len(),
                    bytes.len() == d.len() * w,
            ;
            lemma_le_bytes_of_value2(chunk[0], chunk[1]);
        }
    }
}

/// A pickle state that does not describe a quantized tensor.
#[derive(Clone, Copy, Debug, PartialEq, Eq)]
pub struct Malformed;

/// Writes scale bit patterns as `width` little-endian bytes each.
pub fn encode(values: &[u32], width: usize) -> (r: Vec<u8>)
    requires
        valid_width(width as nat),
        values@.len() * width <= usize::MAX,
    ensures
        r@ == encoded(values@, width as nat),
{
    let mut bytes: Vec<u8> = Vec::new();
    let mut k: usize = 0;
    while k < values.len()
        invariant
            valid_width(width as nat),
            values@.len() * width <= usize::MAX,
            k <= values@.len(),
            bytes@.len() == k * width,
            forall|i: int| 0 <= i < bytes@.len() ==> #[trigger] bytes@[i] == le_byte(
                values@[i / (width as int)],
                i % (width as int),
            ),
        decreases values@.len() - k,
    {
        let v = values[k];
        let mut t: usize = 0;
        proof {
            assert((k + 1) * width == k * width + width) by (nonlinear_arith);
            assert((k + 1) * width <= values@.len() * width) by (nonlinear_arith)
                requires
                    k + 1 <= values@.len(),
            ;
        }
        while t < width
            invariant
                valid_width(width as nat),
                k < values@.len(),
                v == values@[k as int],
                t <= width,
                (k + 1) * width <= usize::MAX,
                bytes@.len() == k * width + t,
                forall|i: int| 0 <= i < bytes@.len() ==> #[trigger] bytes@[i] == le_byte(
                    values@[i / (width as int)],
                    i % (width as int),
                ),
            decreases width - t,
        {
            proof {
                crate::packed::lemma_position(k as int, width as int, t as int);
            }
            bytes.push(((v >> (8 * t as u32)) & 0xffu32) as u8);
            t = t + 1;
        }
        k = k + 1;
    }
    assert(bytes@ =~= encoded(values@, width as nat));
    bytes
}

/// Reads bytes back as scale bit patterns of `width` bytes each; a length that
/// is not a multiple of `width` is malformed.
pub fn decode(bytes: &[u8], width: usize) -> (r: Result<Vec<u32>, Malformed>)
    requires
        valid_width(width as nat),
    ensures
        r is Ok <==> (bytes@.len() as int) % (width as int) == 0,
        r matches Ok(values) ==> values@ == decoded(bytes@, width as nat),
{
    if bytes.len() % width != 0 {
        return Err(Malformed);
    }
    let blen = bytes.len();
    let n = blen / width;
    let mut values: Vec<u32> = Vec::new();
    let mut k: usize = 0;
    proof {
        vstd::arithmetic::div_mod::lemma_fundamental_div_mod(bytes@.len() as int, width as int);
    }
    while k < n
        invariant
            valid_width(width as nat),
            n == (bytes@.len() as int) / (width as int),
            n * width == bytes@.len(),
            blen == bytes@.len(),
            k <= n,
            values@.len() == k,
            forall|j: int| 0 <= j < k ==> #[trigger] values@[j] == decoded(bytes@, width as nat)[j],
        decreases n - k,
    {
        proof {
            assert((k + 1) * width <= n * width) by (nonlinear_arith)
                requires
                    k + 1 <= n,
            ;
            assert((k + 1) * width == k * width + width) by (nonlinear_arith);
        }
        let s = k * width;
        let v = if width == 2 {
            (bytes[s] as u32) | ((bytes[s + 1] as u32) << 8u32)
        } else {
            (bytes[s] as u32) | ((bytes[s + 1] as u32) << 8u32) | ((bytes[s + 2] as u32) << 16u32)
                | ((bytes[s + 3] as u32) << 24u32)
        };
        proof {
            let chunk = bytes@.subrange(s as int, s + width);
            assert(chunk.len() == width);
            assert(v == le_value(chunk));
        }
        values.push(v);
        k = k + 1;
    }
    assert(values@ =~= decoded(bytes@, width as nat));
    Ok(values)
}


/// Tag that opens every pickle state.
pub const PICKLE_TAG: i32 = 1;

/// Number of items in a pickle state.
pub const PICKLE_LEN: usize = 10;

/// The kind of a quantized tensor.
#[derive(Clone, Copy, Debug, PartialEq, Eq)]
pub enum Kind {
    Symmetric,
    Asymmetric,
    Adaptive,
}

/// The name under which each kind is pickled.
pub open spec fn kind_name(kind: Kind) -> Seq<char> {
    match kind {
        Kind::Symmetric => "symmetric"@,
        Kind::Asymmetric => "asymmetric"@,
        Kind::Adaptive => "adaptive"@,
    }
}

/// The kind that a name names, if any.
pub open spec fn kind_of_name(name: Seq<char>) -> Option<Kind> {
    if name == "symmetric"@ {
        Some(Kind::Symmetric)
    } else if name == "asymmetric"@ {
        Some(Kind::Asymmetric)
    } else if name == "adaptive"@ {
        Some(Kind::Adaptive)
    } else {
        None
    }
}

impl Kind {
    /// The name under which the kind is pickled.
    pub fn name(self) -> (r: &'static str)
        ensures
            r@ == kind_name(self),
    {
        match self {
            Kind::Symmetric => "symmetric",
            Kind::Asymmetric => "asymmetric",
            Kind::Adaptive => "adaptive",
        }
    }

    /// The kind that `name` names; any other name is malformed.
    pub fn parse(name: &str) -> (r: Result<Kind, Malformed>)
        ensures
            match kind_of_name(name@) {
                Some(k) => r == Ok::<Kind, Malformed>(k),
                None => r is Err,
            },
    {
        if str_eq(name, "symmetric") {
            Ok(Kind::Symmetric)
        } else if str_eq(name, "asymmetric") {
            Ok(Kind::Asymmetric)
        } else if str_eq(name, "adaptive") {
            Ok(Kind::Adaptive)
        } else {
            Err(Malformed)
        }
    }
}

/// The kind of a tensor view.
pub open spec fn view_kind(view: QuantizedView) -> Kind {
    match view {
        QuantizedView::Symmetric { .. } => Kind::Symmetric,
        QuantizedView::Asymmetric { .. } => Kind::Asymmetric,
        QuantizedView::Adaptive { .. } => Kind::Adaptive,
    }
}

/// The pickled fields of a tensor, before they are placed in a state.
pub struct Parts {
    pub kind: Kind,
    pub block: usize,
    pub len: usize,
    pub codes: Vec<u8>,
    pub code_bits: u32,
    pub block_bits: Vec<u32>,
    pub scales: Vec<u8>,
    pub zero_points: Vec<u8>,
}

/// A pickle state, one field per item.
pub struct PickleState {
    pub tag: i32,
    pub kind: String,
    pub scale: PyScale,
    pub block: usize,
    pub len: usize,
    pub codes: Vec<u8>,
    pub code_bits: u32,
    pub block_bits: Vec<u32>,
    pub scales: Vec<u8>,
    pub zero_points: Vec<u8>,
}

/// A pickle state as mathematical values.
#[verifier::ext_equal]
pub struct StateView {
    pub tag: int,
    pub kind: Seq<char>,
    pub scale: PyScale,
    pub block: nat,
    pub len: nat,
    pub codes: Seq<u8>,
    pub code_bits: nat,
    pub block_bits: Seq<u32>,
    pub scales: Seq<u8>,
    pub zero_points: Seq<u8>,
}

impl View for PickleState {
    type V = StateView;

    open spec fn view(&self) -> StateView {
        StateView {
            tag: self.tag as int,
            kind: self.kind@,
            scale: self.scale,
            block: self.block as nat,
            len: self.len as nat,
            codes: self.codes@,
            code_bits: self.code_bits as nat,
            block_bits: self.block_bits@,
            scales: self.scales@,
            zero_points: self.zero_points@,
        }
    }
}

/// The pickle state of a tensor whose scales are stored at `scale`.
pub open spec fn state_of(scale: PyScale, view: QuantizedView) -> StateView {
    let w = scale_width(scale);
    match view {
        QuantizedView::Symmetric { scales, codes, code_bits, block, len, .. } => StateView {
            tag: PICKLE_TAG as int,
            kind: "symmetric"@,
            scale,
            block,
            len,
            codes,
            code_bits,
            block_bits: Seq::empty(),
            scales: encoded(scales, w),
            zero_points: Seq::empty(),
        },
        QuantizedView::Asymmetric { scales, zero_points, codes, code_bits, block, len, .. } =>
            StateView {
            tag: PICKLE_TAG as int,
            kind: "asymmetric"@,
            scale,
            block,
            len,
            codes,
            code_bits,
            block_bits: Seq::empty(),
            scales: encoded(scales, w),
            zero_points: encoded(zero_points, w),
        },
        QuantizedView::Adaptive { scales, zero_points, bytes, bits, block, len } => StateView {
            tag: PICKLE_TAG as int,
            kind: "adaptive"@,
            scale,
            block,
            len,
            codes: bytes,
            code_bits: 0,
            block_bits: bits,
            scales: encoded(scales, w),
            zero_points: encoded(zero_points, w),
        },
    }
}

/// The tensor that a pickled kind and its fields describe, if the scale bytes are whole.
pub open spec fn rebuilt(
    kind: Kind,
    w: nat,
    block: nat,
    len: nat,
    codes: Seq<u8>,
    code_bits: nat,
    block_bits: Seq<u32>,
    scales: Seq<u8>,
    zero_points: Seq<u8>,
) -> Option<QuantizedView> {
    if (scales.len() as int) % (w as int) != 0 {
        None
    } else {
        match kind {
            Kind::Symmetric => Some(
                QuantizedView::Symmetric {
                    scales: decoded(scales, w),
                    codes,
                    code_bits,
                    code_len: len,
                    block,
                    len,
                },
            ),
            Kind::Asymmetric => if (zero_points.len() as int) % (w as int) != 0 {
                None
            } else {
                Some(
                    QuantizedView::Asymmetric {
                        scales: decoded(scales, w),
                        zero_points: decoded(zero_points, w),
                        codes,
                        code_bits,
                        code_len: len,
                        block,
                        len,
                    },
                )
            },
            Kind::Adaptive => if (zero_points.len() as int) % (w as int) != 0 {
                None
            } else {
                Some(
                    QuantizedView::Adaptive {
                        scales: decoded(scales, w),
                        zero_points: decoded(zero_points, w),
                        bytes: codes,
                        bits: block_bits,
                        block,
                        len,
                    },
                )
            },
        }
    }
}

/// The tensor that a pickle state describes, if it is well formed.
pub open spec fn inner_of(state: StateView) -> Option<(PyScale, QuantizedView)> {
    if state.tag != PICKLE_TAG as int {
        None
    } else {
        match kind_of_name(state.kind) {
            None => None,
            Some(kind) => match rebuilt(
                kind,
                scale_width(state.scale),
                state.block,
                state.len,
                state.codes,
                state.code_bits,
                state.block_bits,
                state.scales,
                state.zero_points,
            ) {
                Some(view) => Some((state.scale, view)),
                None => None,
            },
        }
    }
}

/// The scales and zero points fit the storage width, and the packed codes
/// count as many values as the tensor.
pub open spec fn picklable(scale: PyScale, view: QuantizedView) -> bool {
    let w = scale_width(scale);
    match view {
        QuantizedView::Symmetric { scales, code_len, len, .. } => fits_width(scales, w) && code_len
            == len,
        QuantizedView::Asymmetric { scales, zero_points, code_len, len, .. } => fits_width(scales, w)
            && fits_width(zero_points, w) && code_len == len,
        QuantizedView::Adaptive { scales, zero_points, .. } => fits_width(scales, w) && fits_width(
            zero_points,
            w,
        ),
    }
}

/// The pickled fields of a tensor whose scales are `width` bytes each.
pub fn parts(quantized: &Quantized, width: usize) -> (r: Parts)
    requires
        valid_width(width as nat),
        quantized.spec_scales().len() * width <= usize::MAX,
        quantized.spec_zero_points().len() * width <= usize::MAX,
    ensures
        r.kind == view_kind(quantized@),
        r.block == quantized.spec_block(),
        r.len == quantized.spec_len(),
        r.codes@ == quantized.spec_code_bytes(),
        r.scales@ == encoded(quantized.spec_scales(), width as nat),
        r.zero_points@ == encoded(quantized.spec_zero_points(), width as nat),
        match quantized {
            Quantized::Adaptive { bits, .. } => r.code_bits == 0 && r.block_bits@ == bits@,
            Quantized::Symmetric { codes, .. } => r.code_bits == codes.spec_bits()
                && r.block_bits@.len() == 0,
            Quantized::Asymmetric { codes, .. } => r.code_bits == codes.spec_bits()
                && r.block_bits@.len() == 0,
        },
{
    match quantized {
        Quantized::Symmetric { scales, codes, block, len } => {
            let zero_points: Vec<u8> = Vec::new();
            proof {
                assert(zero_points@ =~= encoded(Seq::empty(), width as nat));
            }
            Parts {
                kind: Kind::Symmetric,
                block: *block,
                len: *len,
                codes: vstd::slice::slice_to_vec(codes.as_bytes()),
                code_bits: codes.bits(),
                block_bits: Vec::new(),
                scales: encode(scales.as_slice(), width),
                zero_points,
            }
        },
        Quantized::Asymmetric { scales, zero_points, codes, block, len } => Parts {
            kind: Kind::Asymmetric,
            block: *block,
            len: *len,
            codes: vstd::slice::slice_to_vec(codes.as_bytes()),
            code_bits: codes.bits(),
            block_bits: Vec::new(),
            scales: encode(scales.as_slice(), width),
            zero_points: encode(zero_points.as_slice(), width),
        },
        Quantized::Adaptive { scales, zero_points, bytes, bits, block, len } => Parts {
            kind: Kind::Adaptive,
            block: *block,
            len: *len,
            codes: vstd::slice::slice_to_vec(bytes.as_slice()),
            code_bits: 0,
            block_bits: vstd::slice::slice_to_vec(bits.as_slice()),
            scales: encode(scales.as_slice(), width),
            zero_points: encode(zero_points.as_slice(), width),
        },
    }
}

/// Rebuilds a tensor from its pickled fields; scale or zero point bytes that
/// do not split into whole values are malformed.
pub fn rebuild(parts: Parts, width: usize) -> (r: Result<Quantized, Malformed>)
    requires
        valid_width(width as nat),
    ensures
        match rebuilt(
            parts.kind,
            width as nat,
            parts.block as nat,
            parts.len as nat,
            parts.codes@,
            parts.code_bits as nat,
            parts.block_bits@,
            parts.scales@,
            parts.zero_points@,
        ) {
            Some(view) => r matches Ok(q) && q@ == view,
            None => r is Err,
        },
{
    let scales = decode(parts.scales.as_slice(), width)?;
    match parts.kind {
        Kind::Symmetric => Ok(
            Quantized::Symmetric {
                scales,
                codes: Packed::from_raw(parts.codes, parts.code_bits, parts.len),
                block: parts.block,
                len: parts.len,
            },
        ),
        Kind::Asymmetric => {
            let zero_points = decode(parts.zero_points.as_slice(), width)?;
            Ok(
                Quantized::Asymmetric {
                    scales,
                    zero_points,
                    codes: Packed::from_raw(parts.codes, parts.code_bits, parts.len),
                    block: parts.block,
                    len: parts.len,
                },
            )
        },
        Kind::Adaptive => {
            let zero_points = decode(parts.zero_points.as_slice(), width)?;
            Ok(
                Quantized::Adaptive {
                    scales,
                    zero_points,
                    bytes: parts.codes,
                    bits: parts.block_bits,
                    block: parts.block,
                    len: parts.len,
                },
            )
        },
    }
}

/// The pickle state of a tensor.
pub fn pickle_state(inner: &QuantizedInner) -> (r: PickleState)
    requires
        inner.spec_quantized().spec_scales().len() * 4 <= usize::MAX,
        inner.spec_quantized().spec_zero_points().len() * 4 <= usize::MAX,
    ensures
        r@ == state_of(inner@.0, inner@.1),
{
    let scale = inner.scale();
    proof {
        let q = inner.spec_quantized();
        let w = scale_width(scale) as int;
        assert(q.spec_scales().len() * w <= q.spec_scales().len() * 4) by (nonlinear_arith)
            requires
                w <= 4,
        ;
        assert(q.spec_zero_points().len() * w <= q.spec_zero_points().len() * 4) by (nonlinear_arith)
            requires
                w <= 4,
        ;
    }
    let parts = parts(inner.quantized(), scale.width());
    let kind = parts.kind.name().to_owned();
    let r = PickleState {
        tag: PICKLE_TAG,
        kind,
        scale,
        block: parts.block,
        len: parts.len,
        codes: parts.codes,
        code_bits: parts.code_bits,
        block_bits: parts.block_bits,
        scales: parts.scales,
        zero_points: parts.zero_points,
    };
    proof {
        assert(encoded(Seq::<u32>::empty(), scale_width(scale)) =~= Seq::<u8>::empty());
        assert(r@ =~= state_of(inner@.0, inner@.1));
    }
    r
}

/// Rebuilds a tensor from a pickle state: the tag must match, the kind must
/// be known, and the scale and zero point bytes must split into whole values.
pub fn from_pickle(state: PickleState) -> (r: Result<QuantizedInner, Malformed>)
    ensures
        match inner_of(state@) {
            Some(v) => r matches Ok(inner) && inner@ == v,
            None => r is Err,
        },
{
    if state.tag != PICKLE_TAG {
        return Err(Malformed);
    }
    let kind = Kind::parse(state.kind.as_str())?;
    let scale = state.scale;
    let parts = Parts {
        kind,
        block: state.block,
        len: state.len,
        codes: state.codes,
        code_bits: state.code_bits,
        block_bits: state.block_bits,
        scales: state.scales,
        zero_points: state.zero_points,
    };
    let quantized = rebuild(parts, scale.width())?;
    Ok(QuantizedInner::new(scale, quantized))
}

/// A tensor read back from its own pickle state is the tensor.
pub proof fn lemma_pickle_roundtrip(scale: PyScale, view: QuantizedView)
    requires
        picklable(scale, view),
    ensures
        inner_of(state_of(scale, view)) == Some((scale, view)),
{
    let w = scale_width(scale);
    crate::scheme::lemma_kind_names_distinct();
    match view {
        QuantizedView::Symmetric { scales, codes, code_bits, code_len, block, len } => {
            lemma_decode_encode(scales, w);
            vstd::arithmetic::div_mod::lemma_mod_multiples_basic(scales.len() as int, w as int);
        },
        QuantizedView::Asymmetric { scales, zero_points, .. } => {
            lemma_decode_encode(scales, w);
            lemma_decode_encode(zero_points, w);
            vstd::arithmetic::div_mod::lemma_mod_multiples_basic(scales.len() as int, w as int);
            vstd::arithmetic::div_mod::lemma_mod_multiples_basic(zero_points.len() as int, w as int);
        },
        QuantizedView::Adaptive { scales, zero_points, .. } => {
            lemma_decode_encode(scales, w);
            lemma_decode_encode(zero_points, w);
            vstd::arithmetic::div_mod::lemma_mod_multiples_basic(scales.len() as int, w as int);
            vstd::arithmetic::div_mod::lemma_mod_multiples_basic(zero_points.len() as int, w as int);
        },
    }
}

} // verus!
