use turtle_bag::rank::{bits, rank, SIGN};

#[test]
fn the_sign_is_the_highest_bit() {
    assert_eq!(SIGN, 1u64 << 63);
    assert_eq!(SIGN, (-0.0f64).to_bits());
}

#[test]
fn ranks_of_some_patterns() {
    assert_eq!(rank(0), 0);
    assert_eq!(rank(SIGN), 0);
    assert_eq!(rank(1), 1);
    assert_eq!(rank(SIGN + 1), -1);
    assert_eq!(rank(SIGN - 1), i64::MAX);
    assert_eq!(rank(u64::MAX), -i64::MAX);
    assert_eq!(rank(1.0f64.to_bits()), 0x3FF0_0000_0000_0000);
    assert_eq!(rank((-1.0f64).to_bits()), -0x3FF0_0000_0000_0000);
}

#[test]
fn patterns_of_some_ranks() {
    assert_eq!(bits(0), Some(0));
    assert_eq!(bits(1), Some(1));
    assert_eq!(bits(-1), Some(SIGN + 1));
    assert_eq!(bits(i64::MAX), Some(SIGN - 1));
    assert_eq!(bits(-i64::MAX), Some(u64::MAX));
    assert_eq!(bits(i64::MIN), None);
}

#[test]
fn a_rank_leads_back_to_its_pattern() {
    for b in [0u64, 1, 2, 0x3FF0_0000_0000_0000, SIGN - 1, SIGN + 1, SIGN + 77, u64::MAX] {
        assert_eq!(bits(rank(b)), Some(b));
    }
    assert_eq!(bits(rank(SIGN)), Some(0));
    for r in [0i64, 1, -1, 42, -42, i64::MAX, -i64::MAX] {
        assert_eq!(rank(bits(r).unwrap()), r);
    }
}

#[test]
fn greater_doubles_have_greater_ranks() {
    let values = [
        f64::NEG_INFINITY,
        f64::MIN,
        -1e300,
        -100.5,
        -1.0,
        -1e-300,
        -5e-324,
        0.0,
        5e-324,
        1e-300,
        0.5,
        1.0,
        50.0,
        100.0,
        1e300,
        f64::MAX,
        f64::INFINITY,
    ];
    for i in 0..values.len() {
        for j in 0..values.len() {
            assert_eq!(
                rank(values[i].to_bits()) < rank(values[j].to_bits()),
                values[i] < values[j],
                "{} {}",
                values[i],
                values[j]
            );
        }
    }
    assert_eq!(rank(0.0f64.to_bits()), rank((-0.0f64).to_bits()));
}

#[test]
fn doubles_come_back_from_their_ranks() {
    for v in [0.0f64, 1.0, -1.0, 0.1, -123.456, 1e300, -1e-300, f64::MAX, f64::MIN_POSITIVE] {
        assert_eq!(f64::from_bits(bits(rank(v.to_bits())).unwrap()), v);
    }
}
