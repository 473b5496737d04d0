//! Numbers, orders and texts.
use lfm25_inference::bf16::Bf16;
use lfm25_inference::float::{F32, F64};
use lfm25_inference::num::{div_ceil, max_usize, min_usize};
use lfm25_inference::order::{rank_descending, text_precedes};
use lfm25_inference::text::{
    contains_text, decimal, ends_with_text, lowered_eq, setting_allows, setting_asks, text_eq, trim,
};

#[test]
fn narrowing_rounds_as_the_half_crate_does() {
    for value in [
        0.0f32, -0.0, 1.0, 1.00390625, 1.001953125, 1.005859375, 3.14159, -2.71828, 65504.0,
        f32::MAX, f32::MIN_POSITIVE, 1e-45, f32::INFINITY, f32::NEG_INFINITY,
    ] {
        let expected = half::bf16::from_f32(value).to_bits();
        assert_eq!(F32 { bits: value.to_bits() }.narrow(), Bf16 { bits: expected });
    }
    for bits in [0x7fc0_0000u32, 0x7f80_0001, 0xff80_ffff, 0x7fff_ffff] {
        let expected = half::bf16::from_f32(f32::from_bits(bits)).to_bits();
        assert_eq!(F32 { bits }.narrow(), Bf16 { bits: expected });
    }
}

#[test]
fn narrowing_undoes_what_the_half_crate_widens() {
    for bits in (0..=u16::MAX).step_by(7) {
        let value = half::bf16::from_bits(bits);
        if !value.is_nan() {
            assert_eq!(F32 { bits: value.to_f32().to_bits() }.narrow(), Bf16 { bits });
        }
    }
}

#[test]
fn single_comparisons_match_the_machine() {
    let values = [0.0f32, -0.0, 1.5, -1.5, f32::NAN, f32::INFINITY, f32::NEG_INFINITY, 1e-40];
    for a in values {
        for b in values {
            let x = F32 { bits: a.to_bits() };
            let y = F32 { bits: b.to_bits() };
            assert_eq!(x.at_least(y), a >= b);
            assert_eq!(x.equals(y), a == b);
            assert_eq!(
                x.total_order_key() < y.total_order_key(),
                a.total_cmp(&b).is_lt()
            );
        }
        let x = F32 { bits: a.to_bits() };
        assert_eq!(x.is_finite(), a.is_finite());
        assert_eq!(x.is_nan(), a.is_nan());
    }
}

#[test]
fn double_comparisons_match_the_machine() {
    let values = [0.0f64, -0.0, 2.5, -2.5, f64::NAN, f64::INFINITY, f64::NEG_INFINITY, 5e-324];
    for a in values {
        for b in values {
            let x = F64 { bits: a.to_bits() };
            let y = F64 { bits: b.to_bits() };
            assert_eq!(x.at_least(y), a >= b);
            assert_eq!(x.above(y), a > b);
            assert_eq!(x.equals(y), a == b);
            assert_eq!(
                x.total_order_key() < y.total_order_key(),
                a.total_cmp(&b).is_lt()
            );
        }
        let x = F64 { bits: a.to_bits() };
        assert_eq!(x.is_finite(), a.is_finite());
        assert_eq!(x.is_nan(), a.is_nan());
    }
}

#[test]
fn rankings_are_stable() {
    assert_eq!(rank_descending(&vec![3, 9, 3, -1, 9]), vec![1, 4, 0, 2, 3]);
    assert!(rank_descending(&vec![]).is_empty());
}

#[test]
fn texts_are_ordered_by_their_characters() {
    assert!(text_precedes("conv", "convolution"));
    assert!(text_precedes("layer.10", "layer.2"));
    assert!(!text_precedes("b", "a"));
    assert!(!text_precedes("same", "same"));
    assert!(text_precedes("", "a"));
}

#[test]
fn whole_numbers() {
    assert_eq!(div_ceil(0, 16), 0);
    assert_eq!(div_ceil(17, 16), 2);
    assert_eq!(div_ceil(32, 16), 2);
    assert_eq!(min_usize(3, 4), 3);
    assert_eq!(max_usize(3, 4), 4);
    assert_eq!(decimal(0), "0");
    assert_eq!(decimal(18446744073709551615), "18446744073709551615");
}

#[test]
fn text_helpers() {
    assert!(text_eq("lm_head", "lm_head") && !text_eq("lm_head", "lm_heads"));
    assert!(contains_text("model.layers.3.conv.in_proj", ".conv."));
    assert!(!contains_text("model.conv", ".conv."));
    assert!(ends_with_text("layers.0.mlp.down", "mlp.down"));
    assert!(!ends_with_text("down", "mlp.down"));
    assert_eq!(trim(" \t hello world\u{3000}\n"), "hello world");
    assert_eq!(trim(trim("  x  ")), trim("  x  "));
    assert!(lowered_eq("FaLse", "false") && !lowered_eq("falsey", "false"));
}

#[test]
fn switches_of_the_environment() {
    assert!(setting_allows(None));
    assert!(!setting_allows(Some("0")) && !setting_allows(Some(" Off ")));
    assert!(setting_allows(Some("1")));
    assert!(!setting_asks(None));
    assert!(setting_asks(Some("1")) && setting_asks(Some(" TRUE ")));
    assert!(!setting_asks(Some("0")));
}
