use ohlcv_store::price::Price;

fn price(value: f64) -> Price {
    Price::from_bits(value.to_bits())
}

fn value(p: Price) -> f64 {
    f64::from_bits(p.to_bits())
}

#[test]
fn bits_are_kept() {
    for bits in [0u64, 1, 0x3ff0_0000_0000_0000, 0x8000_0000_0000_0000, u64::MAX] {
        assert_eq!(Price::from_bits(bits).to_bits(), bits);
        assert_eq!(Price::from_bits(bits).bits, bits);
    }
}

#[test]
fn order_key_follows_the_numbers() {
    let ladder = [
        f64::NEG_INFINITY,
        -1.0e300,
        -2.5,
        -1.0,
        -f64::MIN_POSITIVE,
        -0.0,
        0.0,
        f64::MIN_POSITIVE,
        0.5,
        1.0,
        90302.0,
        1.0e300,
        f64::INFINITY,
    ];
    for i in 0..ladder.len() {
        for j in 0..ladder.len() {
            let a = price(ladder[i]).order_key();
            let b = price(ladder[j]).order_key();
            assert_eq!(a < b, i < j);
            assert_eq!(a == b, i == j);
        }
    }
}

#[test]
fn order_key_has_exact_values() {
    assert_eq!(price(0.0).order_key(), 0x8000_0000_0000_0000);
    assert_eq!(price(-0.0).order_key(), 0x7fff_ffff_ffff_ffff);
    assert_eq!(price(1.0).order_key(), 0x3ff0_0000_0000_0000 + 0x8000_0000_0000_0000);
    assert_eq!(Price::from_bits(u64::MAX).order_key(), 0);
    assert_eq!(Price::from_bits(0x7fff_ffff_ffff_ffff).order_key(), u64::MAX);
}

#[test]
fn order_key_is_the_total_order() {
    let values = [
        f64::NAN,
        -f64::NAN,
        f64::INFINITY,
        f64::NEG_INFINITY,
        0.0,
        -0.0,
        1.5,
        -1.5,
        90399.0,
        90120.0,
    ];
    for a in values {
        for b in values {
            let by_key = price(a).order_key().cmp(&price(b).order_key());
            assert_eq!(by_key, a.total_cmp(&b));
        }
    }
}

#[test]
fn max_and_min_pick_by_value() {
    assert_eq!(value(price(12.0).max(price(15.0))), 15.0);
    assert_eq!(value(price(15.0).max(price(12.0))), 15.0);
    assert_eq!(value(price(9.0).min(price(10.5))), 9.0);
    assert_eq!(value(price(10.5).min(price(9.0))), 9.0);
    assert_eq!(value(price(-3.0).max(price(-7.0))), -3.0);
    assert_eq!(value(price(-3.0).min(price(-7.0))), -7.0);
    assert_eq!(value(price(-3.0).max(price(2.0))), 2.0);
    assert_eq!(value(price(-3.0).min(price(2.0))), -3.0);
    assert_eq!(price(4.25).max(price(4.25)), price(4.25));
    assert_eq!(price(4.25).min(price(4.25)), price(4.25));
}

#[test]
fn max_and_min_agree_with_the_numbers() {
    let values = [-1.0e9, -2.5, -0.25, 0.25, 1.0, 90302.0, 90399.0, 1.0e12];
    for a in values {
        for b in values {
            assert_eq!(value(price(a).max(price(b))), a.max(b));
            assert_eq!(value(price(a).min(price(b))), a.min(b));
        }
    }
}

#[test]
fn signed_zeros_are_ordered() {
    assert_eq!(price(0.0).max(price(-0.0)).to_bits(), 0.0f64.to_bits());
    assert_eq!(price(-0.0).max(price(0.0)).to_bits(), 0.0f64.to_bits());
    assert_eq!(price(0.0).min(price(-0.0)).to_bits(), (-0.0f64).to_bits());
}
