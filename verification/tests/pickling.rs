use quantize::inner::QuantizedInner;
use quantize::packed::Packed;
use quantize::pickle::{decode, encode, from_pickle, parts, pickle_state, rebuild, Kind, Malformed, PickleState, PICKLE_LEN, PICKLE_TAG};
use quantize::quantized::Quantized;
use quantize::scale::PyScale;

fn sample_asymmetric() -> Quantized {
    Quantized::Asymmetric {
        scales: vec![0x3c00, 0x4000],
        zero_points: vec![0x0001, 0xfffe],
        codes: Packed::from_i32s(&[1, 2, -3, 4, -5], 4),
        block: 3,
        len: 5,
    }
}

fn same(a: &Quantized, b: &Quantized) -> bool {
    a.len() == b.len()
        && a.block() == b.block()
        && a.codes() == b.codes()
        && a.scales() == b.scales()
        && a.zero_points() == b.zero_points()
        && a.block_bits() == b.block_bits()
        && quantize::quantized::bits(a) == quantize::quantized::bits(b)
        && quantize::quantized::kind(a) == quantize::quantized::kind(b)
}

#[test]
fn scales_are_written_little_endian() {
    assert_eq!(encode(&[0x3f80_0000], 4), vec![0x00, 0x00, 0x80, 0x3f]);
    assert_eq!(encode(&[0x3c00, 0x1234], 2), vec![0x00, 0x3c, 0x34, 0x12]);
    assert_eq!(encode(&[], 4), Vec::<u8>::new());
}

#[test]
fn scales_are_read_back() {
    assert_eq!(decode(&[0x00, 0x00, 0x80, 0x3f], 4), Ok(vec![0x3f80_0000]));
    assert_eq!(decode(&[0x00, 0x3c, 0x34, 0x12], 2), Ok(vec![0x3c00, 0x1234]));
    assert_eq!(decode(&[0x00, 0x3c, 0x34], 2), Err(Malformed));
    assert_eq!(decode(&[0x00, 0x3c], 4), Err(Malformed));
}

#[test]
fn kinds_parse_from_their_names() {
    for kind in [Kind::Symmetric, Kind::Asymmetric, Kind::Adaptive] {
        assert_eq!(Kind::parse(kind.name()), Ok(kind));
    }
    assert_eq!(Kind::parse("Symmetric"), Err(Malformed));
    assert_eq!(Kind::parse(""), Err(Malformed));
}

#[test]
fn parts_hold_the_encoded_fields() {
    let q = sample_asymmetric();
    let p = parts(&q, 2);
    assert_eq!(p.kind, Kind::Asymmetric);
    assert_eq!(p.block, 3);
    assert_eq!(p.len, 5);
    assert_eq!(p.code_bits, 4);
    assert!(p.block_bits.is_empty());
    assert_eq!(p.scales, vec![0x00, 0x3c, 0x00, 0x40]);
    assert_eq!(p.zero_points, vec![0x01, 0x00, 0xfe, 0xff]);
    let back = rebuild(p, 2).unwrap();
    assert!(same(&back, &q));
}

#[test]
fn pickle_state_round_trips_every_kind_and_width() {
    let tensors = vec![
        Quantized::Symmetric {
            scales: vec![0x3f80],
            codes: Packed::from_i32s(&[7, -8, 0], 4),
            block: 32,
            len: 3,
        },
        sample_asymmetric(),
        Quantized::Adaptive {
            scales: vec![0x1111, 0x2222],
            zero_points: vec![0x3333, 0x4444],
            bytes: vec![0x19, 0x30, 0x0C],
            bits: vec![2, 4],
            block: 3,
            len: 6,
        },
    ];
    let wide = Quantized::Symmetric {
        scales: vec![0x3f80_0000],
        codes: Packed::from_i32s(&[1], 4),
        block: 32,
        len: 1,
    };
    let back = from_pickle(pickle_state(&QuantizedInner::new(PyScale::F32, wide.clone()))).unwrap();
    assert!(same(back.quantized(), &wide));
    for q in tensors {
        for scale in [PyScale::F32, PyScale::F16, PyScale::Bf16] {
            let inner = QuantizedInner::new(scale, q.clone());
            let state = pickle_state(&inner);
            assert_eq!(state.tag, PICKLE_TAG);
            assert_eq!(state.scale, scale);
            let back = from_pickle(state).unwrap();
            assert_eq!(back.scale(), scale);
            assert!(same(back.quantized(), &q));
        }
    }
    assert_eq!(PICKLE_LEN, 10);
}

fn state() -> PickleState {
    PickleState {
        tag: 1,
        kind: "symmetric".to_string(),
        scale: PyScale::F32,
        block: 32,
        len: 2,
        codes: vec![0x21],
        code_bits: 4,
        block_bits: vec![],
        scales: vec![0, 0, 0x80, 0x3f],
        zero_points: vec![],
    }
}

#[test]
fn malformed_states_are_refused() {
    assert!(from_pickle(state()).is_ok());
    let mut s = state();
    s.tag = 2;
    assert!(from_pickle(s).is_err());
    let mut s = state();
    s.kind = "dense".to_string();
    assert!(from_pickle(s).is_err());
    let mut s = state();
    s.scales = vec![0, 0, 0x80];
    assert!(from_pickle(s).is_err());
    let mut s = state();
    s.kind = "asymmetric".to_string();
    s.zero_points = vec![1, 2, 3];
    assert!(from_pickle(s).is_err());
    let mut s = state();
    s.scale = PyScale::F16;
    s.scales = vec![0, 0x3c, 0, 0x40];
    let back = from_pickle(s).unwrap();
    assert_eq!(back.quantized().scales(), &[0x3c00, 0x4000]);
}

#[test]
fn symmetric_states_ignore_zero_point_bytes() {
    let mut s = state();
    s.zero_points = vec![9, 9, 9];
    let back = from_pickle(s).unwrap();
    assert_eq!(back.quantized().zero_points(), &[] as &[u32]);
}
