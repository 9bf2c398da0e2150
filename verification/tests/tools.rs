use quantize::args::{max_tokens, parse_usize};
use quantize::cache::causal_mask;
use quantize::corpus::{after_page, append_rows, last_char, NextPage};
use quantize::decode::{prompt_tokens, DECODE_PROMPT};
use quantize::inner::QuantizedInner;
use quantize::input::{check_codes_array, check_matmul_matrix, check_out_array, check_values_array, codes_from_i64, is_refused_buffer, InputError, OutError};
use quantize::layers::saturated_count;
use quantize::packed::Packed;
use quantize::perplexity::{window_count, windows, Window};
use quantize::quantized::Quantized;
use quantize::readme::{find, replace_section, MissingMarker};
use quantize::scale::PyScale;
use quantize::throughput::{lcg_next, SEED};
use quantize::weights::{linear_slots, lm_head_shape, projection_shape, projections, LinearSlot, ModelDims, Projection};

#[test]
fn prompt_is_capped() {
    let tokens: Vec<u32> = (0..300).collect();
    assert_eq!(prompt_tokens(&tokens), (0..DECODE_PROMPT as u32).collect::<Vec<_>>());
    assert_eq!(prompt_tokens(&[5, 6]), vec![5, 6]);
    assert!(prompt_tokens(&[]).is_empty());
}

#[test]
fn rolling_windows_over_a_thousand_tokens() {
    assert_eq!(
        windows(1000),
        vec![
            Window { start: 0, end: 512, score_from: 0 },
            Window { start: 256, end: 768, score_from: 256 },
            Window { start: 512, end: 1000, score_from: 232 },
        ]
    );
    assert_eq!(window_count(1000), 3);
}

#[test]
fn rolling_windows_edge_cases() {
    assert!(windows(0).is_empty());
    assert!(windows(1).is_empty());
    assert_eq!(windows(2), vec![Window { start: 0, end: 2, score_from: 0 }]);
    assert_eq!(windows(512), vec![Window { start: 0, end: 512, score_from: 0 }]);
    assert_eq!(windows(513).len(), 2);
    assert_eq!(window_count(768), 2);
    assert_eq!(window_count(769), 3);
    for n in 0..3000 {
        assert_eq!(windows(n).len(), window_count(n));
    }
}

#[test]
fn rolling_windows_skip_one_target_at_each_full_boundary() {
    // window 0 scores targets 1..=511, window 1 scores 513..=767: target 512 is never scored
    let ws = windows(2000);
    let scored = |w: &Window| (w.start + w.score_from + 1, w.end - 1);
    assert_eq!(scored(&ws[0]), (1, 511));
    assert_eq!(scored(&ws[1]), (513, 767));
}

#[test]
fn saturation_counts_end_codes() {
    let packed = Packed::from_i32s(&[7, -8, 0, 7, 1, -8, 3], 4);
    assert_eq!(saturated_count(packed.as_bytes(), 7), 4);
    assert_eq!(saturated_count(packed.as_bytes(), 2), 2);
    assert_eq!(saturated_count(&[], 0), 0);
    assert_eq!(saturated_count(&[0x78], 2), 2);
    assert_eq!(saturated_count(&[0x69], 2), 0);
}

fn smol() -> ModelDims {
    ModelDims {
        hidden_size: 576,
        intermediate_size: 1536,
        num_attention_heads: 9,
        num_key_value_heads: 3,
        num_hidden_layers: 30,
        vocab_size: 49152,
    }
}

#[test]
fn projection_shapes() {
    let d = smol();
    assert_eq!(projection_shape(Projection::QProj, d), (576, 576));
    assert_eq!(projection_shape(Projection::KProj, d), (192, 576));
    assert_eq!(projection_shape(Projection::VProj, d), (192, 576));
    assert_eq!(projection_shape(Projection::OProj, d), (576, 576));
    assert_eq!(projection_shape(Projection::GateProj, d), (1536, 576));
    assert_eq!(projection_shape(Projection::UpProj, d), (1536, 576));
    assert_eq!(projection_shape(Projection::DownProj, d), (576, 1536));
    assert_eq!(lm_head_shape(d), (49152, 576));
    assert_eq!(Projection::DownProj.path(), "mlp.down_proj");
    assert_eq!(projections()[1].path(), "self_attn.k_proj");
}

#[test]
fn linear_order() {
    let slots = linear_slots(2);
    assert_eq!(slots.len(), 15);
    assert_eq!(slots[0], LinearSlot::Layer { layer: 0, projection: Projection::QProj });
    assert_eq!(slots[6], LinearSlot::Layer { layer: 0, projection: Projection::DownProj });
    assert_eq!(slots[7], LinearSlot::Layer { layer: 1, projection: Projection::QProj });
    assert_eq!(slots[14], LinearSlot::LmHead);
    assert_eq!(linear_slots(0), vec![LinearSlot::LmHead]);
}

#[test]
fn causal_mask_hides_the_future() {
    assert_eq!(causal_mask(3), vec![0, 1, 1, 0, 0, 1, 0, 0, 0]);
    assert!(causal_mask(0).is_empty());
}

fn args(list: &[&str]) -> Vec<String> {
    list.iter().map(|s| s.to_string()).collect()
}

#[test]
fn max_tokens_flag() {
    assert_eq!(max_tokens(&args(&["--max-tokens", "2048"])), Some(2048));
    assert_eq!(max_tokens(&args(&["x", "--max-tokens", "+7", "--max-tokens", "9"])), Some(7));
    assert_eq!(max_tokens(&args(&["--max-tokens"])), None);
    assert_eq!(max_tokens(&args(&["--max-tokens", "-1"])), None);
    assert_eq!(max_tokens(&args(&["--max-tokens", "lots", "--max-tokens", "3"])), None);
    assert_eq!(max_tokens(&args(&[])), None);
}

#[test]
fn usize_parsing_matches_the_standard_library() {
    for s in ["0", "42", "+42", "+", "", "-0", "4 2", "007", "18446744073709551615", "18446744073709551616", "99999999999999999999999", "１"] {
        assert_eq!(parse_usize(s), s.parse::<usize>().ok(), "{s:?}");
    }
}

#[test]
fn rows_end_with_newlines() {
    let mut text = String::from("a\n");
    append_rows(&mut text, &args(&["b", "c\n", "", " = Title = "]));
    assert_eq!(text, "a\nb\nc\n\n = Title = \n");
    assert_eq!(last_char("xyz"), Some('z'));
    assert_eq!(last_char(""), None);
}

#[test]
fn download_pages() {
    assert_eq!(after_page(0, 100, 4358, true), NextPage { offset: 100, fetch: true });
    assert_eq!(after_page(4300, 58, 4358, false), NextPage { offset: 4358, fetch: false });
    assert_eq!(after_page(200, 0, 4358, false), NextPage { offset: 200, fetch: false });
    assert_eq!(after_page(0, 0, 10, true), NextPage { offset: 0, fetch: true });
}

fn chars(s: &str) -> Vec<char> {
    s.chars().collect()
}

#[test]
fn section_replacement() {
    let doc = chars("intro <!-- s --> old <!-- e --> outro");
    let out = replace_section(&doc, &chars("<!-- s -->"), &chars("<!-- e -->"), &chars("NEW")).unwrap();
    assert_eq!(out.into_iter().collect::<String>(), "intro NEW outro");
    assert_eq!(replace_section(&doc, &chars("<!-- x -->"), &chars("<!-- e -->"), &[]), Err(MissingMarker::Start));
    assert_eq!(replace_section(&doc, &chars("<!-- s -->"), &chars("<!-- y -->"), &[]), Err(MissingMarker::End));
    assert_eq!(find(&chars("abcabc"), &chars("ca")), Some(2));
    assert_eq!(find(&chars("ab"), &chars("abc")), None);
    assert_eq!(find(&chars("ab"), &[]), Some(0));
}

#[test]
fn input_checks() {
    assert!(is_refused_buffer("memoryview"));
    assert!(is_refused_buffer("array"));
    assert!(!is_refused_buffer("ndarray"));
    assert_eq!(check_values_array(1, "f", true), Ok(()));
    assert_eq!(check_values_array(2, "f", true), Err(InputError::ValuesType));
    assert_eq!(check_values_array(1, "O", true), Err(InputError::ValuesType));
    assert_eq!(check_values_array(1, "f", false), Err(InputError::ValuesEndian));
    assert_eq!(check_codes_array(1, "i", true), Ok(()));
    assert_eq!(check_codes_array(1, "u", true), Err(InputError::CodesType));
    assert_eq!(check_codes_array(1, "i", false), Err(InputError::CodesType));
    assert_eq!(check_matmul_matrix(true, false), Err(InputError::MatmulMatrix));
    assert_eq!(check_matmul_matrix(false, true), Err(InputError::ValuesEndian));
    assert_eq!(check_out_array(1, true, true, true, 3, 3), Ok(()));
    assert_eq!(check_out_array(1, true, true, false, 3, 3), Err(OutError::Input(InputError::OutContig)));
    assert_eq!(check_out_array(2, true, true, true, 3, 3), Err(OutError::Input(InputError::OutType)));
    assert_eq!(check_out_array(1, true, true, true, 2, 3), Err(OutError::Length { expected: 3, got: 2 }));
    assert_eq!(InputError::CodeOverflow.message(), "code is outside the i32 range");
}

#[test]
fn code_narrowing() {
    assert_eq!(codes_from_i64(&[1, -2, 2147483647, -2147483648]), Ok(vec![1, -2, i32::MAX, i32::MIN]));
    assert_eq!(codes_from_i64(&[0, 2147483648]), Err(InputError::CodeOverflow));
    assert_eq!(codes_from_i64(&[]), Ok(vec![]));
}

#[test]
fn generator_steps() {
    let expected = SEED.wrapping_mul(1664525).wrapping_add(1013904223);
    assert_eq!(lcg_next(SEED), expected);
    assert_eq!(lcg_next(0), 1013904223);
    assert_eq!(lcg_next(u32::MAX), u32::MAX.wrapping_mul(1664525).wrapping_add(1013904223));
}

#[test]
fn tensor_repr() {
    let q = Quantized::Symmetric {
        scales: vec![0],
        codes: Packed::from_i32s(&[1, 2, 3], 4),
        block: 32,
        len: 3,
    };
    let inner = QuantizedInner::new(PyScale::F16, q);
    assert_eq!(inner.repr(), "Quantized(kind='symmetric', bits=4, block=32, len=3, scale=Scale.F16)");
    assert_eq!(inner.len(), 3);
    let a = Quantized::Adaptive {
        scales: vec![],
        zero_points: vec![],
        bytes: vec![],
        bits: vec![],
        block: 32,
        len: 0,
    };
    let inner = QuantizedInner::new(PyScale::Bf16, a);
    assert_eq!(inner.repr(), "Quantized(kind='adaptive', block=32, len=0, scale=Scale.Bf16)");
}
