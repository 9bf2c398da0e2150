//! Quantization schemes and their pickle state.
use vstd::prelude::*;
use vstd::string::StringExecFns;
use crate::error::{decimal, push_decimal, Error};
use crate::scale::str_eq;

verus! {

/// How a tensor is quantized. The tolerance of an adaptive scheme is held by
/// the bit pattern of its `f32` value.
#[derive(Clone, Copy, Debug, PartialEq, Eq)]
pub enum Scheme {
    /// Symmetric blocks of `block` values at `bits` bits.
    Symmetric { bits: u32, block: usize },
    /// Asymmetric blocks of `block` values at `bits` bits.
    Asymmetric { bits: u32, block: usize },
    /// Blocks of `block` values whose bit width follows `tolerance`.
    Adaptive { block: usize, tolerance: u32 },
}

/// Smallest supported bit width.
pub const MIN_BITS: u32 = 2;

/// Largest supported bit width.
pub const MAX_BITS: u32 = 16;

/// Bit pattern of positive infinity in `f32`; every pattern of a positive
/// finite `f32` lies strictly between `0` and it.
pub const F32_INFINITY_BITS: u32 = 0x7F80_0000;

/// The bit pattern of an `f32` that is finite and greater than zero.
pub open spec fn positive_finite_f32(bits: u32) -> bool {
    0 < bits < F32_INFINITY_BITS
}

/// The error a scheme reports for its parameters, if any.
pub open spec fn scheme_error(scheme: Scheme) -> Option<Error> {
    match scheme {
        Scheme::Symmetric { bits, block } | Scheme::Asymmetric { bits, block } => {
            if !(MIN_BITS <= bits <= MAX_BITS) {
                Some(Error::InvalidBits { bits })
            } else if block == 0 {
                Some(Error::InvalidBlock { block })
            } else {
                None
            }
        },
        Scheme::Adaptive { block, tolerance } => {
            if block == 0 {
                Some(Error::InvalidBlock { block })
            } else if !positive_finite_f32(tolerance) {
                Some(Error::InvalidTolerance)
            } else {
                None
            }
        },
    }
}

impl Scheme {
    /// 8-bit symmetric blocks of 32.
    pub fn q8_32() -> (r: Scheme)
        ensures
            r == (Scheme::Symmetric { bits: 8, block: 32 }),
    {
        Scheme::Symmetric { bits: 8, block: 32 }
    }

    /// 4-bit symmetric blocks of 32.
    pub fn q4_32() -> (r: Scheme)
        ensures
            r == (Scheme::Symmetric { bits: 4, block: 32 }),
    {
        Scheme::Symmetric { bits: 4, block: 32 }
    }

    /// Checks the parameters: bit width in `2..=16`, a block of at least one
    /// value, a finite tolerance greater than zero.
    pub fn validate(&self) -> (r: Result<(), Error>)
        ensures
            r is Ok <==> scheme_error(*self) is None,
            r matches Err(e) ==> scheme_error(*self) == Some(e),
            match *self {
                Scheme::Symmetric { bits, block } | Scheme::Asymmetric { bits, block } => {
                    &&& (r is Ok <==> 2 <= bits <= 16 && block >= 1)
                    &&& (r == Err::<(), Error>(Error::InvalidBits { bits }) <==> bits < 2 || bits > 16)
                },
                Scheme::Adaptive { block, tolerance } => r is Ok <==> block >= 1 && 0 < tolerance
                    < 0x7F80_0000,
            },
    {
        proof {
            lemma_supported_parameters(*self);
        }
        match *self {
            Scheme::Symmetric { bits, block } | Scheme::Asymmetric { bits, block } => {
                if bits < MIN_BITS || bits > MAX_BITS {
                    Err(Error::InvalidBits { bits })
                } else if block == 0 {
                    Err(Error::InvalidBlock { block })
                } else {
                    Ok(())
                }
            },
            Scheme::Adaptive { block, tolerance } => {
                if block == 0 {
                    Err(Error::InvalidBlock { block })
                } else if tolerance == 0 || tolerance >= F32_INFINITY_BITS {
                    Err(Error::InvalidTolerance)
                } else {
                    Ok(())
                }
            },
        }
    }
}

/// A block that covers a whole tensor of `len` values: `len`, and at least one.
pub fn tensor_block(len: usize) -> (r: usize)
    ensures
        r == if len == 0 {
            1
        } else {
            len
        },
{
    if len == 0 {
        1
    } else {
        len
    }
}

/// The name of each kind of scheme.
pub open spec fn kind_name(scheme: Scheme) -> Seq<char> {
    match scheme {
        Scheme::Symmetric { .. } => "symmetric"@,
        Scheme::Asymmetric { .. } => "asymmetric"@,
        Scheme::Adaptive { .. } => "adaptive"@,
    }
}

/// The pickle state of a scheme: kind name, bit width, block, tolerance.
pub type SchemePickle = (&'static str, Option<u32>, usize, Option<u32>);

/// The pickle state of a scheme, with the kind name as characters.
pub open spec fn scheme_pickle(scheme: Scheme) -> (Seq<char>, Option<u32>, usize, Option<u32>) {
    match scheme {
        Scheme::Symmetric { bits, block } => ("symmetric"@, Some(bits), block, None),
        Scheme::Asymmetric { bits, block } => ("asymmetric"@, Some(bits), block, None),
        Scheme::Adaptive { block, tolerance } => ("adaptive"@, None, block, Some(tolerance)),
    }
}

/// The scheme that a pickle state names, if it is well formed.
pub open spec fn scheme_from_pickle(kind: Seq<char>, bits: Option<u32>, block: usize, tolerance: Option<u32>) -> Option<Scheme> {
    if kind == "symmetric"@ && bits is Some && tolerance is None {
        Some(Scheme::Symmetric { bits: bits->0, block })
    } else if kind == "asymmetric"@ && bits is Some && tolerance is None {
        Some(Scheme::Asymmetric { bits: bits->0, block })
    } else if kind == "adaptive"@ && bits is None && tolerance is Some {
        Some(Scheme::Adaptive { block, tolerance: tolerance->0 })
    } else {
        None
    }
}

/// A scheme as seen from Python.
#[derive(Clone, Copy, Debug, PartialEq, Eq)]
pub struct PyScheme {
    pub inner: Scheme,
}

/// The three kind names differ from one another.
pub proof fn lemma_kind_names_distinct()
    ensures
        "symmetric"@ != "asymmetric"@,
        "symmetric"@ != "adaptive"@,
        "asymmetric"@ != "adaptive"@,
{
    reveal_strlit("symmetric");
    reveal_strlit("asymmetric");
    reveal_strlit("adaptive");
    assert("symmetric"@.len() != "asymmetric"@.len());
    assert("symmetric"@.len() != "adaptive"@.len());
    assert("asymmetric"@.len() != "adaptive"@.len());
}

impl PyScheme {
    /// The scheme's pickle state.
    pub fn pickle_parts(self) -> (r: SchemePickle)
        ensures
            (r.0@, r.1, r.2, r.3) == scheme_pickle(self.inner),
    {
        match self.inner {
            Scheme::Symmetric { bits, block } => ("symmetric", Some(bits), block, None),
            Scheme::Asymmetric { bits, block } => ("asymmetric", Some(bits), block, None),
            Scheme::Adaptive { block, tolerance } => ("adaptive", None, block, Some(tolerance)),
        }
    }

    /// 8-bit symmetric blocks of 32.
    pub fn q8_32() -> (r: PyScheme)
        ensures
            r.inner == (Scheme::Symmetric { bits: 8, block: 32 }),
    {
        PyScheme { inner: Scheme::q8_32() }
    }

    /// 4-bit symmetric blocks of 32.
    pub fn q4_32() -> (r: PyScheme)
        ensures
            r.inner == (Scheme::Symmetric { bits: 4, block: 32 }),
    {
        PyScheme { inner: Scheme::q4_32() }
    }

    /// A symmetric scheme.
    pub fn symmetric(bits: u32, block: usize) -> (r: PyScheme)
        ensures
            r.inner == (Scheme::Symmetric { bits, block }),
    {
        PyScheme { inner: Scheme::Symmetric { bits, block } }
    }

    /// An asymmetric scheme.
    pub fn asymmetric(bits: u32, block: usize) -> (r: PyScheme)
        ensures
            r.inner == (Scheme::Asymmetric { bits, block }),
    {
        PyScheme { inner: Scheme::Asymmetric { bits, block } }
    }

    /// An adaptive scheme; `tolerance` is the bit pattern of an `f32`.
    pub fn adaptive(block: usize, tolerance: u32) -> (r: PyScheme)
        ensures
            r.inner == (Scheme::Adaptive { block, tolerance }),
    {
        PyScheme { inner: Scheme::Adaptive { block, tolerance } }
    }

    /// The kind of scheme, by name.
    pub fn kind(&self) -> (r: &'static str)
        ensures
            r@ == kind_name(self.inner),
    {
        match self.inner {
            Scheme::Symmetric { .. } => "symmetric",
            Scheme::Asymmetric { .. } => "asymmetric",
            Scheme::Adaptive { .. } => "adaptive",
        }
    }

    /// The bit width; adaptive schemes have none.
    pub fn bits(&self) -> (r: Option<u32>)
        ensures
            r == match self.inner {
                Scheme::Symmetric { bits, .. } | Scheme::Asymmetric { bits, .. } => Some(bits),
                Scheme::Adaptive { .. } => None::<u32>,
            },
    {
        match self.inner {
            Scheme::Symmetric { bits, .. } | Scheme::Asymmetric { bits, .. } => Some(bits),
            Scheme::Adaptive { .. } => None,
        }
    }

    /// Values per block.
    pub fn block(&self) -> (r: usize)
        ensures
            r == match self.inner {
                Scheme::Symmetric { block, .. } | Scheme::Asymmetric { block, .. } | Scheme::Adaptive {
                    block,
                    ..
                } => block,
            },
    {
        match self.inner {
            Scheme::Symmetric { block, .. } | Scheme::Asymmetric { block, .. } | Scheme::Adaptive {
                block,
                ..
            } => block,
        }
    }

    /// The tolerance bit pattern of an adaptive scheme.
    pub fn tolerance(&self) -> (r: Option<u32>)
        ensures
            r == match self.inner {
                Scheme::Adaptive { tolerance, .. } => Some(tolerance),
                _ => None::<u32>,
            },
    {
        match self.inner {
            Scheme::Adaptive { tolerance, .. } => Some(tolerance),
            _ => None,
        }
    }

    /// The scheme's pickle state.
    pub fn __getstate__(&self) -> (r: SchemePickle)
        ensures
            (r.0@, r.1, r.2, r.3) == scheme_pickle(self.inner),
    {
        self.pickle_parts()
    }

    /// Rebuilds a scheme from its pickle state: a kind name with a bit width
    /// and no tolerance for the symmetric and asymmetric kinds, with a
    /// tolerance and no bit width for the adaptive kind; anything else is malformed.
    pub fn _from_pickle(kind: &str, bits: Option<u32>, block: usize, tolerance: Option<u32>) -> (r:
        Option<PyScheme>)
        ensures
            r == match scheme_from_pickle(kind@, bits, block, tolerance) {
                Some(inner) => Some(PyScheme { inner }),
                None => None::<PyScheme>,
            },
    {
        if str_eq(kind, "symmetric") {
            match (bits, tolerance) {
                (Some(bits), None) => {
                    return Some(PyScheme { inner: Scheme::Symmetric { bits, block } });
                },
                _ => {},
            }
        }
        if str_eq(kind, "asymmetric") {
            match (bits, tolerance) {
                (Some(bits), None) => {
                    return Some(PyScheme { inner: Scheme::Asymmetric { bits, block } });
                },
                _ => {},
            }
        }
        if str_eq(kind, "adaptive") {
            match (bits, tolerance) {
                (None, Some(tolerance)) => {
                    return Some(PyScheme { inner: Scheme::Adaptive { block, tolerance } });
                },
                _ => {},
            }
        }
        None
    }
}

/// How a scheme prints; `tolerance` is the printed form of an adaptive
/// scheme's tolerance.
pub open spec fn spec_scheme_repr(scheme: Scheme, tolerance: Seq<char>) -> Seq<char> {
    match scheme {
        Scheme::Symmetric { bits, block } => "Scheme(kind='symmetric', bits="@ + decimal(bits as nat)
            + ", block="@ + decimal(block as nat) + ")"@,
        Scheme::Asymmetric { bits, block } => "Scheme(kind='asymmetric', bits="@ + decimal(
            bits as nat,
        ) + ", block="@ + decimal(block as nat) + ")"@,
        Scheme::Adaptive { block, .. } => "Scheme(kind='adaptive', block="@ + decimal(block as nat)
            + ", tolerance="@ + tolerance + ")"@,
    }
}

impl PyScheme {
    /// How the scheme prints: its kind, then its bit width and block, or its
    /// block and `tolerance`, the printed form of its tolerance.
    pub fn repr(&self, tolerance: &str) -> (r: String)
        ensures
            r@ == spec_scheme_repr(self.inner, tolerance@),
    {
        match self.inner {
            Scheme::Symmetric { bits, block } => {
                let mut s = String::from_str("Scheme(kind='symmetric', bits=");
                push_decimal(&mut s, bits as u64);
                s.append(", block=");
                push_decimal(&mut s, block as u64);
                s.append(")");
                proof {
                    assert(s@ =~= spec_scheme_repr(self.inner, tolerance@));
                }
                s
            },
            Scheme::Asymmetric { bits, block } => {
                let mut s = String::from_str("Scheme(kind='asymmetric', bits=");
                push_decimal(&mut s, bits as u64);
                s.append(", block=");
                push_decimal(&mut s, block as u64);
                s.append(")");
                proof {
                    assert(s@ =~= spec_scheme_repr(self.inner, tolerance@));
                }
                s
            },
            Scheme::Adaptive { block, .. } => {
                let mut s = String::from_str("Scheme(kind='adaptive', block=");
                push_decimal(&mut s, block as u64);
                s.append(", tolerance=");
                s.append(tolerance);
                s.append(")");
                proof {
                    assert(s@ =~= spec_scheme_repr(self.inner, tolerance@));
                }
                s
            },
        }
    }
}

/// Which parameters a scheme accepts: every bit width from 2 to 16 with a
/// non-empty block for the symmetric and asymmetric kinds (a bad width is
/// reported as such exactly when it lies outside 2..=16, before the block is
/// looked at), and a non-empty block with a positive finite tolerance for
/// the adaptive kind.
pub proof fn lemma_supported_parameters(scheme: Scheme)
    ensures
        match scheme {
            Scheme::Symmetric { bits, block } | Scheme::Asymmetric { bits, block } => {
                &&& (scheme_error(scheme) is None <==> 2 <= bits <= 16 && block >= 1)
                &&& (scheme_error(scheme) == Some(Error::InvalidBits { bits }) <==> bits < 2 || bits > 16)
                &&& (2 <= bits <= 16 && block == 0 ==> scheme_error(scheme) == Some(
                    Error::InvalidBlock { block },
                ))
            },
            Scheme::Adaptive { block, tolerance } => {
                &&& (scheme_error(scheme) is None <==> block >= 1 && 0 < tolerance < 0x7F80_0000)
                &&& (block == 0 ==> scheme_error(scheme) == Some(Error::InvalidBlock { block }))
                &&& (block >= 1 && !(0 < tolerance < 0x7F80_0000) ==> scheme_error(scheme) == Some(
                    Error::InvalidTolerance,
                ))
            },
        },
{
}

/// Rebuilding a scheme from its pickle state gives back the scheme.
pub proof fn lemma_scheme_pickle_roundtrip(scheme: Scheme)
    ensures
        ({
            let p = scheme_pickle(scheme);
            scheme_from_pickle(p.0, p.1, p.2, p.3) == Some(scheme)
        }),
{
    lemma_kind_names_distinct();
}

} // verus!
