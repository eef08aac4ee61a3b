use jesse_rust::keys::{le, lt, price_key_of_bits};

fn samples() -> Vec<f64> {
    vec![
        f64::NEG_INFINITY,
        f64::MIN,
        -1.5e300,
        -2.0,
        -1.0,
        -f64::MIN_POSITIVE,
        -5e-324,
        -0.0,
        0.0,
        5e-324,
        f64::MIN_POSITIVE,
        1.0,
        1.0000000000000002,
        2.0,
        1.5e300,
        f64::MAX,
        f64::INFINITY,
        f64::NAN,
        -f64::NAN,
    ]
}

#[test]
fn keys_compare_as_floats() {
    let xs = samples();
    for &a in &xs {
        for &b in &xs {
            let ka = price_key_of_bits(a.to_bits());
            let kb = price_key_of_bits(b.to_bits());
            assert_eq!(le(ka, kb), a <= b, "{a} <= {b}");
            assert_eq!(lt(ka, kb), a < b, "{a} < {b}");
        }
    }
}

#[test]
fn nan_has_no_key_and_zeros_share_one() {
    assert_eq!(price_key_of_bits(f64::NAN.to_bits()), None);
    assert_eq!(price_key_of_bits((-f64::NAN).to_bits()), None);
    assert_eq!(price_key_of_bits(0.0f64.to_bits()), Some(0));
    assert_eq!(price_key_of_bits((-0.0f64).to_bits()), Some(0));
    assert_eq!(price_key_of_bits(f64::INFINITY.to_bits()), Some(0x7ff0_0000_0000_0000));
    assert_eq!(price_key_of_bits(f64::NEG_INFINITY.to_bits()), Some(-0x7ff0_0000_0000_0000));
}
