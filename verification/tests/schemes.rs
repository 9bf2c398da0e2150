use quantize::error::{check_length, length_mismatch, Error};
use quantize::scale::PyScale;
use quantize::scheme::{tensor_block, PyScheme, Scheme};

#[test]
fn named_schemes() {
    assert_eq!(Scheme::q8_32(), Scheme::Symmetric { bits: 8, block: 32 });
    assert_eq!(Scheme::q4_32(), Scheme::Symmetric { bits: 4, block: 32 });
    assert_eq!(PyScheme::q4_32().inner, Scheme::q4_32());
}

#[test]
fn scheme_getters() {
    let s = PyScheme::asymmetric(5, 64);
    assert_eq!(s.kind(), "asymmetric");
    assert_eq!(s.bits(), Some(5));
    assert_eq!(s.block(), 64);
    assert_eq!(s.tolerance(), None);
    let a = PyScheme::adaptive(32, 0.001f32.to_bits());
    assert_eq!(a.kind(), "adaptive");
    assert_eq!(a.bits(), None);
    assert_eq!(a.tolerance(), Some(0.001f32.to_bits()));
}

#[test]
fn scheme_pickle_round_trips() {
    for s in [PyScheme::q8_32(), PyScheme::asymmetric(3, 7), PyScheme::adaptive(16, 0.5f32.to_bits())] {
        let (kind, bits, block, tolerance) = s.__getstate__();
        assert_eq!(PyScheme::_from_pickle(kind, bits, block, tolerance), Some(s));
    }
    assert_eq!(
        PyScheme::symmetric(8, 32).pickle_parts(),
        ("symmetric", Some(8), 32, None)
    );
}

#[test]
fn malformed_scheme_pickles_are_refused() {
    assert_eq!(PyScheme::_from_pickle("symmetric", None, 32, None), None);
    assert_eq!(PyScheme::_from_pickle("symmetric", Some(8), 32, Some(1)), None);
    assert_eq!(PyScheme::_from_pickle("adaptive", Some(8), 32, Some(1)), None);
    assert_eq!(PyScheme::_from_pickle("dense", Some(8), 32, None), None);
}

#[test]
fn scheme_parameters_are_checked() {
    assert_eq!(Scheme::Symmetric { bits: 1, block: 32 }.validate(), Err(Error::InvalidBits { bits: 1 }));
    assert_eq!(Scheme::Asymmetric { bits: 17, block: 0 }.validate(), Err(Error::InvalidBits { bits: 17 }));
    assert_eq!(Scheme::Symmetric { bits: 16, block: 0 }.validate(), Err(Error::InvalidBlock { block: 0 }));
    assert_eq!(Scheme::Symmetric { bits: 2, block: 1 }.validate(), Ok(()));
    assert_eq!(Scheme::Adaptive { block: 0, tolerance: 0 }.validate(), Err(Error::InvalidBlock { block: 0 }));
    assert_eq!(Scheme::Adaptive { block: 1, tolerance: 0.0f32.to_bits() }.validate(), Err(Error::InvalidTolerance));
    assert_eq!(Scheme::Adaptive { block: 1, tolerance: (-1.0f32).to_bits() }.validate(), Err(Error::InvalidTolerance));
    assert_eq!(Scheme::Adaptive { block: 1, tolerance: f32::INFINITY.to_bits() }.validate(), Err(Error::InvalidTolerance));
    assert_eq!(Scheme::Adaptive { block: 1, tolerance: f32::NAN.to_bits() }.validate(), Err(Error::InvalidTolerance));
    assert_eq!(Scheme::Adaptive { block: 1, tolerance: f32::MAX.to_bits() }.validate(), Ok(()));
    assert_eq!(Scheme::Adaptive { block: 1, tolerance: f32::from_bits(1).to_bits() }.validate(), Ok(()));
}

#[test]
fn whole_tensor_blocks_are_never_empty() {
    assert_eq!(tensor_block(0), 1);
    assert_eq!(tensor_block(40), 40);
}

#[test]
fn error_messages() {
    assert_eq!(Error::InvalidBits { bits: 17 }.message(), "bit width 17 is outside the supported range 2..=16");
    assert_eq!(Error::InvalidBlock { block: 0 }.message(), "block size 0 must be at least 1");
    assert_eq!(Error::InvalidTolerance.message(), "tolerance must be a finite number greater than 0");
    assert_eq!(length_mismatch(3, 12345678901).message(), "length mismatch: expected 3, got 12345678901");
    assert_eq!(check_length(4, 4), Ok(()));
    assert_eq!(check_length(4, 5), Err(Error::LengthMismatch { expected: 4, got: 5 }));
}

#[test]
fn scale_names() {
    for s in [PyScale::F32, PyScale::F16, PyScale::Bf16] {
        assert_eq!(PyScale::from_name(s.name()), Some(s));
        assert_eq!(PyScale::_from_pickle(s.__getstate__()), Some(s));
    }
    assert_eq!(PyScale::from_name("f64"), None);
    assert_eq!(PyScale::F16.display_name(), "Scale.F16");
    assert_eq!(PyScale::Bf16.name(), "bf16");
    assert_eq!(PyScale::F32.width(), 4);
    assert_eq!(PyScale::Bf16.width(), 2);
}

#[test]
fn schemes_print_their_parameters() {
    assert_eq!(PyScheme::q4_32().repr(""), "Scheme(kind='symmetric', bits=4, block=32)");
    assert_eq!(PyScheme::asymmetric(3, 64).repr(""), "Scheme(kind='asymmetric', bits=3, block=64)");
    assert_eq!(
        PyScheme::adaptive(16, 0.01f32.to_bits()).repr("0.01"),
        "Scheme(kind='adaptive', block=16, tolerance=0.01)"
    );
}
