//! A quantized tensor together with the width its scales are stored at.
use vstd::prelude::*;
use vstd::string::StringExecFns;
use crate::error::{decimal, push_decimal};
use crate::quantized::{bits, kind, Quantized, QuantizedView};
use crate::scale::{scale_display, PyScale};

verus! {

/// A quantized tensor whose scales are `f32`, `f16` or `bf16` bit patterns.
#[derive(Clone, Debug)]
pub enum QuantizedInner {
    F32(Quantized),
    F16(Quantized),
    Bf16(Quantized),
}

impl View for QuantizedInner {
    type V = (PyScale, QuantizedView);

    open spec fn view(&self) -> (PyScale, QuantizedView) {
        (self.spec_scale(), self.spec_quantized()@)
    }
}

impl QuantizedInner {
    /// The storage width of the scales.
    pub open spec fn spec_scale(&self) -> PyScale {
        match self {
            QuantizedInner::F32(_) => PyScale::F32,
            QuantizedInner::F16(_) => PyScale::F16,
            QuantizedInner::Bf16(_) => PyScale::Bf16,
        }
    }

    /// The tensor.
    pub open spec fn spec_quantized(&self) -> Quantized {
        match self {
            QuantizedInner::F32(q) => *q,
            QuantizedInner::F16(q) => *q,
            QuantizedInner::Bf16(q) => *q,
        }
    }

    /// Wraps a tensor with its scale width.
    pub fn new(scale: PyScale, quantized: Quantized) -> (r: QuantizedInner)
        ensures
            r.spec_scale() == scale,
            r.spec_quantized() == quantized,
    {
        match scale {
            PyScale::F32 => QuantizedInner::F32(quantized),
            PyScale::F16 => QuantizedInner::F16(quantized),
            PyScale::Bf16 => QuantizedInner::Bf16(quantized),
        }
    }

    /// The storage width of the scales.
    pub fn scale(&self) -> (r: PyScale)
        ensures
            r == self.spec_scale(),
    {
        match self {
            QuantizedInner::F32(_) => PyScale::F32,
            QuantizedInner::F16(_) => PyScale::F16,
            QuantizedInner::Bf16(_) => PyScale::Bf16,
        }
    }

    /// The tensor.
    pub fn quantized(&self) -> (r: &Quantized)
        ensures
            *r == self.spec_quantized(),
    {
        match self {
            QuantizedInner::F32(q) => q,
            QuantizedInner::F16(q) => q,
            QuantizedInner::Bf16(q) => q,
        }
    }

    /// Number of values.
    pub fn len(&self) -> (r: usize)
        ensures
            r == self.spec_quantized().spec_len(),
    {
        self.quantized().len()
    }
}


/// How a tensor prints.
pub open spec fn spec_repr(scale: PyScale, q: Quantized) -> Seq<char> {
    match q {
        Quantized::Symmetric { codes, block, len, .. } => "Quantized(kind='"@ + "symmetric"@
            + "', bits="@ + decimal(codes.spec_bits()) + ", block="@ + decimal(block as nat)
            + ", len="@ + decimal(len as nat) + ", scale="@ + scale_display(scale) + ")"@,
        Quantized::Asymmetric { codes, block, len, .. } => "Quantized(kind='"@ + "asymmetric"@
            + "', bits="@ + decimal(codes.spec_bits()) + ", block="@ + decimal(block as nat)
            + ", len="@ + decimal(len as nat) + ", scale="@ + scale_display(scale) + ")"@,
        Quantized::Adaptive { block, len, .. } => "Quantized(kind='adaptive', block="@ + decimal(
            block as nat,
        ) + ", len="@ + decimal(len as nat) + ", scale="@ + scale_display(scale) + ")"@,
    }
}

impl QuantizedInner {
    /// How the tensor prints: its kind, bit width (if it has one), block, length and scale width.
    pub fn repr(&self) -> (r: String)
        ensures
            r@ == spec_repr(self.spec_scale(), self.spec_quantized()),
    {
        let q = self.quantized();
        let scale = self.scale();
        match bits(q) {
            Some(b) => {
                proof {
                    match q {
                        Quantized::Symmetric { codes, .. } => codes.lemma_bits_bound(),
                        Quantized::Asymmetric { codes, .. } => codes.lemma_bits_bound(),
                        Quantized::Adaptive { .. } => {},
                    }
                }
                let mut s = String::from_str("Quantized(kind='");
                s.append(kind(q));
                s.append("', bits=");
                push_decimal(&mut s, b as u64);
                s.append(", block=");
                push_decimal(&mut s, q.block() as u64);
                s.append(", len=");
                push_decimal(&mut s, q.len() as u64);
                s.append(", scale=");
                s.append(scale.display_name());
                s.append(")");
                proof {
                    assert(s@ =~= spec_repr(self.spec_scale(), self.spec_quantized()));
                }
                s
            },
            None => {
                let mut s = String::from_str("Quantized(kind='adaptive', block=");
                push_decimal(&mut s, q.block() as u64);
                s.append(", len=");
                push_decimal(&mut s, q.len() as u64);
                s.append(", scale=");
                s.append(scale.display_name());
                s.append(")");
                proof {
                    assert(s@ =~= spec_repr(self.spec_scale(), self.spec_quantized()));
                }
                s
            },
        }
    }
}

} // verus!
