use pnpoly::binary64::{pick_max, pick_min, test_eq, test_le, test_lt, test_nan};

fn samples() -> Vec<f64> {
    vec![
        0.0,
        -0.0,
        1.0,
        -1.0,
        0.5,
        -0.5,
        2.0,
        1.0e300,
        -1.0e300,
        f64::MIN_POSITIVE,
        -f64::MIN_POSITIVE,
        f64::from_bits(1),
        f64::from_bits(0x8000_0000_0000_0001),
        f64::MAX,
        f64::MIN,
        f64::EPSILON,
        f64::INFINITY,
        f64::NEG_INFINITY,
        f64::NAN,
        -f64::NAN,
        f64::from_bits(0x7ff0_0000_0000_0001),
        f64::from_bits(0xffff_ffff_ffff_ffff),
    ]
}

fn alike(a: f64, b: f64) -> bool {
    (a.is_nan() && b.is_nan()) || a == b
}

#[test]
fn nan_is_told_from_numbers() {
    for a in samples() {
        assert_eq!(test_nan(a.to_bits()), a.is_nan(), "{a:?}");
    }
    assert!(!test_nan(f64::INFINITY.to_bits()));
    assert!(!test_nan(f64::NEG_INFINITY.to_bits()));
    assert!(test_nan(0x7ff0_0000_0000_0001));
    assert!(test_nan(0xfff8_0000_0000_0000));
}

#[test]
fn less_than_agrees_with_hardware() {
    for a in samples() {
        for b in samples() {
            assert_eq!(test_lt(a.to_bits(), b.to_bits()), a < b, "{a:?} < {b:?}");
        }
    }
}

#[test]
fn at_most_agrees_with_hardware() {
    for a in samples() {
        for b in samples() {
            assert_eq!(test_le(a.to_bits(), b.to_bits()), a <= b, "{a:?} <= {b:?}");
        }
    }
}

#[test]
fn equality_agrees_with_hardware() {
    for a in samples() {
        for b in samples() {
            assert_eq!(test_eq(a.to_bits(), b.to_bits()), a == b, "{a:?} == {b:?}");
        }
    }
}

#[test]
fn zeros_compare_equal() {
    let plus = 0.0f64.to_bits();
    let minus = (-0.0f64).to_bits();
    assert_ne!(plus, minus);
    assert!(test_eq(plus, minus));
    assert!(test_le(plus, minus));
    assert!(test_le(minus, plus));
    assert!(!test_lt(minus, plus));
    assert!(!test_lt(plus, minus));
}

#[test]
fn nan_compares_with_nothing() {
    let nan = f64::NAN.to_bits();
    for a in samples() {
        assert!(!test_lt(nan, a.to_bits()));
        assert!(!test_lt(a.to_bits(), nan));
        assert!(!test_le(nan, a.to_bits()));
        assert!(!test_le(a.to_bits(), nan));
        assert!(!test_eq(nan, a.to_bits()));
    }
    assert!(!test_eq(nan, nan));
}

#[test]
fn minimum_agrees_with_hardware() {
    for a in samples() {
        for b in samples() {
            let m = f64::from_bits(pick_min(a.to_bits(), b.to_bits()));
            assert!(alike(m, a.min(b)), "min({a:?}, {b:?}) gave {m:?}");
        }
    }
    assert_eq!(pick_min(3.0f64.to_bits(), 2.0f64.to_bits()), 2.0f64.to_bits());
    assert_eq!(pick_min(f64::NAN.to_bits(), 2.0f64.to_bits()), 2.0f64.to_bits());
    assert_eq!(pick_min((-1.0f64).to_bits(), f64::NAN.to_bits()), (-1.0f64).to_bits());
}

#[test]
fn maximum_agrees_with_hardware() {
    for a in samples() {
        for b in samples() {
            let m = f64::from_bits(pick_max(a.to_bits(), b.to_bits()));
            assert!(alike(m, a.max(b)), "max({a:?}, {b:?}) gave {m:?}");
        }
    }
    assert_eq!(pick_max(3.0f64.to_bits(), 2.0f64.to_bits()), 3.0f64.to_bits());
    assert_eq!(pick_max(f64::NAN.to_bits(), 2.0f64.to_bits()), 2.0f64.to_bits());
    assert_eq!(pick_max((-1.0f64).to_bits(), f64::NAN.to_bits()), (-1.0f64).to_bits());
}

#[test]
fn order_runs_through_the_sign() {
    let ascending = [
        f64::NEG_INFINITY,
        f64::MIN,
        -1.0,
        -f64::MIN_POSITIVE,
        f64::from_bits(0x8000_0000_0000_0001),
        0.0,
        f64::from_bits(1),
        f64::MIN_POSITIVE,
        1.0,
        f64::MAX,
        f64::INFINITY,
    ];
    for i in 0..ascending.len() {
        for j in 0..ascending.len() {
            let (a, b) = (ascending[i].to_bits(), ascending[j].to_bits());
            assert_eq!(test_lt(a, b), i < j);
            assert_eq!(test_le(a, b), i <= j);
            assert_eq!(test_eq(a, b), i == j);
        }
    }
}
