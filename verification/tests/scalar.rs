use raykernel::scalar::Scalar;

fn s(x: f32) -> Scalar {
    Scalar::from_bits(x.to_bits())
}

fn samples() -> Vec<f32> {
    vec![
        0.0,
        -0.0,
        1.0,
        -1.0,
        0.5,
        -0.5,
        2.0,
        0.68790466,
        -1000.0,
        100.0,
        101.0,
        f32::MIN_POSITIVE,
        -f32::MIN_POSITIVE,
        f32::from_bits(1),
        f32::from_bits(0x8000_0001),
        f32::MAX,
        f32::MIN,
        f32::INFINITY,
        f32::NEG_INFINITY,
        f32::NAN,
        -f32::NAN,
        f32::from_bits(0x7f80_0001),
        f32::from_bits(0xffff_ffff),
    ]
}

#[test]
fn bits_round_trip() {
    for x in samples() {
        assert_eq!(s(x).to_bits(), x.to_bits());
    }
    assert_eq!(Scalar::from_bits(0x3f80_0000).to_bits(), 1.0f32.to_bits());
}

#[test]
fn zero_and_infinity() {
    assert_eq!(Scalar::zero().to_bits(), 0.0f32.to_bits());
    assert_eq!(Scalar::infinity().to_bits(), f32::INFINITY.to_bits());
}

#[test]
fn lt_agrees_with_the_hardware() {
    for a in samples() {
        for b in samples() {
            assert_eq!(s(a).lt(&s(b)), a < b, "{:?} < {:?}", a, b);
        }
    }
}

#[test]
fn le_agrees_with_the_hardware() {
    for a in samples() {
        for b in samples() {
            assert_eq!(s(a).le(&s(b)), a <= b, "{:?} <= {:?}", a, b);
        }
    }
}

#[test]
fn eq_agrees_with_the_hardware() {
    for a in samples() {
        for b in samples() {
            assert_eq!(s(a) == s(b), a == b, "{:?} == {:?}", a, b);
        }
    }
}

#[test]
fn zeros_are_equal_and_nan_is_not() {
    assert!(s(0.0) == s(-0.0));
    assert!(s(0.0).le(&s(-0.0)));
    assert!(!s(-0.0).lt(&s(0.0)));
    assert!(s(f32::NAN) != s(f32::NAN));
    assert!(!s(f32::NAN).le(&s(f32::NAN)));
}

#[test]
fn nan_and_sign_are_recognised() {
    for a in samples() {
        assert_eq!(s(a).is_nan(), a.is_nan(), "{:?}", a);
        assert_eq!(s(a).is_sign_negative(), a.is_sign_negative(), "{:?}", a);
    }
}

#[test]
fn neg_agrees_with_the_hardware() {
    for a in samples() {
        assert_eq!(s(a).neg().to_bits(), (-a).to_bits(), "{:?}", a);
    }
    assert_eq!(s(2.5).neg().to_bits(), (-2.5f32).to_bits());
    assert_ne!(s(2.5).neg().to_bits(), s(2.5).to_bits());
}

#[test]
fn order_is_dense_near_a_value() {
    let t = 0.68790466f32;
    let below = f32::from_bits(t.to_bits() - 1);
    let above = f32::from_bits(t.to_bits() + 1);
    assert!(s(below).lt(&s(t)));
    assert!(s(t).lt(&s(above)));
    assert!(!s(above).le(&s(t)));
    let n = -t;
    let n_below = f32::from_bits(n.to_bits() + 1);
    assert!(s(n_below).lt(&s(n)));
    assert!(!s(n).lt(&s(n_below)));
}
