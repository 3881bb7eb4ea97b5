use hcl::Number;
use std::cmp::Ordering;

/// A float number carrying its bits and its canonical `ryu` text, as the
/// crate expects them to be produced at the boundary.
fn num_f(f: f64) -> Number {
    let mut buf = ryu::Buffer::new();
    let text = buf.format_finite(f).to_owned();
    Number::from_f64_parts(f.to_bits(), text).unwrap()
}

/// Completes division with the float path the library leaves to the
/// boundary.
fn div_total(a: Number, b: Number) -> Number {
    match a.clone().div(b.clone()) {
        Some(n) => n,
        None => {
            let x = f64::from_bits(a.as_f64_bits());
            let y = f64::from_bits(b.as_f64_bits());
            num_f(x / y)
        },
    }
}

#[test]
fn div() {
    assert_eq!(div_total(Number::from_u64(1), Number::from_u64(2)), num_f(0.5));
    assert_eq!(div_total(num_f(4.1), num_f(2.0)), num_f(2.05));
    assert_eq!(div_total(Number::from_u64(4), Number::from_u64(2)), Number::from_u64(2));
    assert_eq!(div_total(Number::from_i64(-4), Number::from_u64(2)), Number::from_i64(-2));
    assert_eq!(div_total(num_f(4.0), num_f(2.0)), Number::from_i64(2));
    assert_eq!(div_total(num_f(-4.0), num_f(2.0)), Number::from_i64(-2));
}

#[test]
fn division_by_zero_is_declined() {
    assert!(Number::from_u64(4).div(Number::from_u64(0)).is_none());
    assert!(Number::from_u64(1).div(Number::from_u64(3)).is_none());
}

#[test]
fn integer_float_cast_matches_hardware() {
    let samples_u: [u64; 12] = [
        0,
        1,
        2,
        10,
        4503599627370495,
        4503599627370496,
        9007199254740992,
        9007199254740993,
        9007199254740995,
        12345678901234567,
        u64::MAX - 1,
        u64::MAX,
    ];
    for &n in samples_u.iter() {
        assert_eq!(Number::from_u64(n).as_f64_bits(), (n as f64).to_bits());
    }
    let samples_i: [i64; 8] = [
        0,
        -1,
        1,
        -9007199254740993,
        9007199254740993,
        i64::MIN,
        i64::MAX,
        -1234567890123456789,
    ];
    for &i in samples_i.iter() {
        assert_eq!(Number::from_i64(i).as_f64_bits(), (i as f64).to_bits());
    }
}

#[test]
fn number_consistency() {
    let samples: [u64; 6] = [0, 1, 42, 9007199254740992, 9007199254740993, u64::MAX];
    for &n in samples.iter() {
        let int_form = Number::from_u64(n);
        let float_form = num_f(n as f64);
        assert_eq!(int_form, float_form);
        assert_eq!(int_form.hash_key(), float_form.hash_key());
    }
    let neg = Number::from_i64(-7);
    let neg_float = num_f(-7.0);
    assert_eq!(neg, neg_float);
    assert_eq!(neg.hash_key(), neg_float.hash_key());
    let pos_zero = num_f(0.0);
    let neg_zero = num_f(-0.0);
    assert_eq!(pos_zero, neg_zero);
    assert_eq!(pos_zero.hash_key(), neg_zero.hash_key());
}

#[test]
fn non_finite_floats_are_rejected() {
    assert!(Number::from_f64_parts(f64::NAN.to_bits(), "NaN".to_owned()).is_none());
    assert!(Number::from_f64_parts(f64::INFINITY.to_bits(), "inf".to_owned()).is_none());
    assert!(Number::from_f64_parts(f64::NEG_INFINITY.to_bits(), "-inf".to_owned()).is_none());
    assert!(Number::from_f64_parts((42.0f64).to_bits(), "42.0".to_owned()).is_some());
}

#[test]
fn classification_and_accessors() {
    let p = Number::from_u64(7);
    assert!(p.is_u64() && p.is_i64() && !p.is_f64());
    assert_eq!(p.as_u64(), Some(7));
    assert_eq!(p.as_i64(), Some(7));

    let big = Number::from_u64(u64::MAX);
    assert!(big.is_u64() && !big.is_i64());
    assert_eq!(big.as_i64(), None);

    let n = Number::from_i64(-3);
    assert!(!n.is_u64() && n.is_i64() && !n.is_f64());
    assert_eq!(n.as_u64(), None);
    assert_eq!(n.as_i64(), Some(-3));

    let f = num_f(1.5);
    assert!(f.is_f64() && !f.is_u64() && !f.is_i64());
    assert_eq!(f.as_u64(), None);
    assert_eq!(f.as_i64(), None);
    assert_eq!(f.float_bits(), Some((1.5f64).to_bits()));
}

#[test]
fn negation_rules() {
    assert_eq!(Number::from_u64(5).neg(), Number::from_i64(-5));
    assert_eq!(Number::from_i64(-5).neg(), Number::from_u64(5));
    assert_eq!(Number::from_i64(i64::MIN).neg(), Number::from_i64(i64::MIN));
    let f = num_f(1.5).neg();
    assert_eq!(f, num_f(-1.5));
    assert_eq!(f.to_text(), "-1.5");
    assert_eq!(num_f(-2.5).neg().to_text(), "2.5");
}

#[test]
fn integer_arithmetic() {
    assert_eq!(Number::from_u64(2).add(Number::from_u64(3)), Some(Number::from_u64(5)));
    assert_eq!(Number::from_u64(2).add(Number::from_i64(-5)), Some(Number::from_i64(-3)));
    assert_eq!(Number::from_u64(2).sub(Number::from_u64(5)), Some(Number::from_i64(-3)));
    assert_eq!(Number::from_u64(5).sub(Number::from_u64(2)), Some(Number::from_u64(3)));
    assert_eq!(Number::from_i64(-4).mul(Number::from_i64(-5)), Some(Number::from_u64(20)));
    assert_eq!(Number::from_u64(7).rem(Number::from_u64(3)), Some(Number::from_u64(1)));
    assert_eq!(Number::from_i64(-7).rem(Number::from_u64(3)), Some(Number::from_i64(-1)));
    // a float operand is left to the boundary
    assert!(num_f(1.0).add(Number::from_u64(1)).is_none());
    assert!(Number::from_u64(1).mul(num_f(2.0)).is_none());
}

#[test]
fn decimal_text() {
    assert_eq!(Number::from_u64(128).to_text(), "128");
    assert_eq!(Number::from_u64(0).to_text(), "0");
    assert_eq!(Number::from_u64(u64::MAX).to_text(), "18446744073709551615");
    assert_eq!(Number::from_i64(-45).to_text(), "-45");
    assert_eq!(Number::from_i64(i64::MIN).to_text(), "-9223372036854775808");
    assert_eq!(num_f(1.5).to_text(), "1.5");
}

#[test]
fn ordering_follows_coercion() {
    assert_eq!(Number::from_u64(1).partial_cmp(&Number::from_u64(2)), Some(Ordering::Less));
    assert_eq!(Number::from_i64(-1).partial_cmp(&Number::from_u64(1)), Some(Ordering::Less));
    assert_eq!(num_f(2.5).partial_cmp(&Number::from_u64(2)), Some(Ordering::Greater));
    assert_eq!(num_f(2.0).partial_cmp(&Number::from_u64(2)), Some(Ordering::Equal));
    assert_eq!(num_f(0.0).partial_cmp(&num_f(-0.0)), Some(Ordering::Equal));
}
