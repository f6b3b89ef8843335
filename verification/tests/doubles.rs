use trana::double::{reaches_fraction, Double};

fn double(x: f64) -> Double {
    Double { bits: x.to_bits() }
}

const VALUES: [f64; 22] = [
    0.0,
    -0.0,
    1.0,
    -1.0,
    0.5,
    0.66,
    0.1,
    1.0 / 3.0,
    2.0 / 3.0,
    0.9999999999999999,
    1.0000000000000002,
    1e-300,
    -1e-300,
    5e-324,
    -5e-324,
    1e300,
    f64::MAX,
    f64::MIN,
    f64::MIN_POSITIVE,
    f64::INFINITY,
    f64::NEG_INFINITY,
    f64::NAN,
];

#[test]
fn less_is_the_order_of_doubles() {
    for a in VALUES {
        for b in VALUES {
            assert_eq!(double(a).is_less(double(b)), a < b, "{a} < {b}");
        }
    }
}

#[test]
fn at_most_zero_is_the_comparison_with_zero() {
    for a in VALUES {
        assert_eq!(double(a).is_at_most_zero(), a <= 0.0, "{a} <= 0");
    }
}

#[test]
fn whole_numbers_convert_as_casts_do() {
    for n in [
        0i64,
        1,
        -1,
        2,
        3,
        10,
        -12,
        1 << 52,
        (1 << 53) - 1,
        1 << 53,
        -(1 << 53),
        -(1 << 53) + 1,
    ] {
        assert_eq!(Double::of_whole(n).bits, (n as f64).to_bits(), "{n}");
    }
    let mut n: i64 = 1;
    for _ in 0..53 {
        for k in [n - 1, n, n + 1, -n] {
            assert_eq!(Double::of_whole(k).bits, (k as f64).to_bits(), "{k}");
        }
        n *= 2;
    }
}

#[test]
fn fractions_are_reached_as_doubles_multiply() {
    for total in 1u64..40 {
        for count in 0..=total {
            for f in VALUES {
                let want = count as f64 >= f * total as f64;
                assert_eq!(reaches_fraction(count, double(f), total), want, "{count} >= {f} * {total}");
            }
            // The share itself, and its neighbours.
            let share = (count as f64 / total as f64).to_bits();
            for bits in [share.saturating_sub(1), share, share + 1] {
                let f = f64::from_bits(bits);
                let want = count as f64 >= f * total as f64;
                assert_eq!(reaches_fraction(count, double(f), total), want, "{count} >= {f} * {total}");
            }
        }
    }
    // Large counts.
    let big = 1u64 << 53;
    for (count, total) in [(big - 1, big), (big / 3, big), (big, big), (1, big), (big - 2, big - 1), (3, big - 1)] {
        let share = (count as f64 / total as f64).to_bits();
        for bits in [share - 2, share - 1, share, share + 1, share + 2] {
            let f = f64::from_bits(bits);
            let want = count as f64 >= f * total as f64;
            assert_eq!(reaches_fraction(count, double(f), total), want, "{count} >= {f} * {total}");
        }
    }
}
