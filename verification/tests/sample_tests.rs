use scviz::sample::Sample;

fn s(x: f32) -> Sample {
    Sample::from_bits(x.to_bits())
}

fn table() -> Vec<f32> {
    vec![
        0.0,
        -0.0,
        1.0,
        -1.0,
        0.5,
        -0.5,
        f32::MIN_POSITIVE,
        -f32::MIN_POSITIVE,
        f32::from_bits(1),
        f32::from_bits(0x8000_0001),
        f32::MAX,
        f32::MIN,
        f32::INFINITY,
        f32::NEG_INFINITY,
        f32::NAN,
        f32::from_bits(0xffc0_0000),
        f32::from_bits(0x7f80_0001),
        1.0e-3,
        -3.25,
        65_504.0,
    ]
}

#[test]
fn is_below_agrees_with_float_comparison() {
    for a in table() {
        for b in table() {
            assert_eq!(s(a).is_below(s(b)), a < b, "{a} < {b}");
        }
    }
}

#[test]
fn is_above_agrees_with_float_comparison() {
    for a in table() {
        for b in table() {
            assert_eq!(s(a).is_above(s(b)), a > b, "{a} > {b}");
        }
    }
}

#[test]
fn is_not_a_number_agrees_with_is_nan() {
    for a in table() {
        assert_eq!(s(a).is_not_a_number(), a.is_nan(), "{a}");
    }
}

#[test]
fn both_zeros_are_neither_below_nor_above_each_other() {
    assert!(!s(0.0).is_below(s(-0.0)));
    assert!(!s(-0.0).is_below(s(0.0)));
    assert!(!s(0.0).is_above(s(-0.0)));
}

#[test]
fn bits_round_trip() {
    assert_eq!(Sample::from_bits(0x3f80_0000).to_bits(), 0x3f80_0000);
    assert_eq!(f32::from_bits(Sample::from_bits(2.5f32.to_bits()).to_bits()), 2.5);
    assert_eq!(Sample::zero().to_bits(), 0);
}
