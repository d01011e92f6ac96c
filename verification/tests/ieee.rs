use packet_router::convert::{deg_to_rad, lla_to_degrees, lla_to_radians, rad_to_deg};
use packet_router::ieee::{divide, is_above_zero, multiply, negate, subtract, sum};
use packet_router::schema::Double;
use packet_router::target::Lla;

fn d(value: f64) -> Double {
    Double { bits: value.to_bits() }
}

fn same(got: Double, expected: f64) -> bool {
    if expected.is_nan() {
        f64::from_bits(got.bits).is_nan()
    } else {
        got.bits == expected.to_bits()
    }
}

fn next(state: &mut u64) -> u64 {
    *state = state
        .wrapping_mul(6364136223846793005)
        .wrapping_add(1442695040888963407);
    let high = *state >> 11;
    *state = state
        .wrapping_mul(6364136223846793005)
        .wrapping_add(1442695040888963407);
    (high << 32) ^ (*state >> 13)
}

fn samples() -> Vec<f64> {
    let mut values = vec![
        0.0,
        -0.0,
        1.0,
        -1.0,
        2.0,
        0.5,
        3.0,
        1.0 / 3.0,
        0.1,
        180.0,
        std::f64::consts::PI,
        14.752556321159286,
        42.965306989229525,
        -179.999999,
        1e308,
        -1e308,
        1e-308,
        5e-324,
        -5e-324,
        2.2250738585072014e-308,
        2.225073858507201e-308,
        1.7976931348623157e308,
        f64::INFINITY,
        f64::NEG_INFINITY,
        f64::NAN,
        9007199254740993.0,
        4503599627370497.0,
        1.0000000000000002,
        0.9999999999999999,
        6378137.0,
    ];
    let mut state: u64 = 0x1234_5678_9abc_def0;
    for _ in 0..400 {
        values.push(f64::from_bits(next(&mut state)));
    }
    for _ in 0..200 {
        let bits = next(&mut state);
        let near_one = (bits & 0x800f_ffff_ffff_ffff) | (((1023 + (bits >> 60) % 8) & 0x7ff) << 52);
        values.push(f64::from_bits(near_one));
        let tiny = bits & 0x801f_ffff_ffff_ffff;
        values.push(f64::from_bits(tiny));
        let huge = (bits & 0x800f_ffff_ffff_ffff) | (0x7fd << 52);
        values.push(f64::from_bits(huge));
    }
    values
}

#[test]
fn multiply_matches_hardware_on_samples() {
    let values = samples();
    for &a in &values {
        for &b in values.iter().step_by(7) {
            let got = multiply(d(a), d(b));
            assert!(same(got, a * b), "{:e} * {:e}: got {:016x}", a, b, got.bits);
        }
    }
}

#[test]
fn divide_matches_hardware_on_samples() {
    let values = samples();
    for &a in &values {
        for &b in values.iter().step_by(5) {
            let got = divide(d(a), d(b));
            assert!(same(got, a / b), "{:e} / {:e}: got {:016x}", a, b, got.bits);
        }
    }
}

#[test]
fn multiply_rounds_half_to_even() {
    let a = f64::from_bits(0x3ff0_0000_0000_0001);
    let b = f64::from_bits(0x3ff8_0000_0000_0000);
    assert_eq!(multiply(d(a), d(b)).bits, (a * b).to_bits());
    assert_eq!(multiply(d(a), d(b)).bits, 0x3ff8_0000_0000_0002);
}

#[test]
fn multiply_special_values() {
    assert_eq!(multiply(d(f64::INFINITY), d(0.0)).bits, 0x7ff8_0000_0000_0000);
    assert_eq!(multiply(d(f64::NAN), d(1.0)).bits, 0x7ff8_0000_0000_0000);
    assert_eq!(multiply(d(f64::INFINITY), d(-2.0)).bits, f64::NEG_INFINITY.to_bits());
    assert_eq!(multiply(d(-0.0), d(5.0)).bits, (-0.0f64).to_bits());
    assert_eq!(multiply(d(1e308), d(10.0)).bits, f64::INFINITY.to_bits());
    assert_eq!(multiply(d(5e-324), d(0.5)).bits, 0);
    assert_eq!(multiply(d(5e-324), d(0.75)).bits, 1);
}

#[test]
fn divide_special_values() {
    assert_eq!(divide(d(0.0), d(0.0)).bits, 0x7ff8_0000_0000_0000);
    assert_eq!(divide(d(f64::INFINITY), d(f64::INFINITY)).bits, 0x7ff8_0000_0000_0000);
    assert_eq!(divide(d(1.0), d(0.0)).bits, f64::INFINITY.to_bits());
    assert_eq!(divide(d(-1.0), d(0.0)).bits, f64::NEG_INFINITY.to_bits());
    assert_eq!(divide(d(1.0), d(f64::INFINITY)).bits, 0);
    assert_eq!(divide(d(0.0), d(-3.0)).bits, (-0.0f64).to_bits());
    assert_eq!(divide(d(1.0), d(3.0)).bits, (1.0f64 / 3.0).to_bits());
}

#[test]
fn degrees_and_radians_match_the_formulas() {
    let values = samples();
    for &v in &values {
        assert!(same(deg_to_rad(d(v)), v * std::f64::consts::PI / 180.0), "deg {:e}", v);
        assert!(same(rad_to_deg(d(v)), v * 180.0 / std::f64::consts::PI), "rad {:e}", v);
    }
}

#[test]
fn lla_to_radians_of_a_position() {
    let lla = Lla { lat: d(14.752556321159286), lon: d(42.965306989229525), alt: d(30.0) };
    let r = lla_to_radians(&lla);
    assert_eq!(r.lat.bits, (14.752556321159286f64 * std::f64::consts::PI / 180.0).to_bits());
    assert_eq!(r.lon.bits, (42.965306989229525f64 * std::f64::consts::PI / 180.0).to_bits());
    assert_eq!(r.alt.bits, 30.0f64.to_bits());
    assert_eq!(f64::from_bits(r.lat.bits), 0.25748068089013154);
}

#[test]
fn lla_to_degrees_of_a_position() {
    let lla = Lla { lat: d(0.2574806909304684), lon: d(-1.5), alt: d(-12.5) };
    let r = lla_to_degrees(&lla);
    assert_eq!(r.lat.bits, (0.2574806909304684f64 * 180.0 / std::f64::consts::PI).to_bits());
    assert_eq!(r.lon.bits, (-1.5f64 * 180.0 / std::f64::consts::PI).to_bits());
    assert_eq!(r.alt.bits, (-12.5f64).to_bits());
}

#[test]
fn to_u32_matches_the_cast() {
    let mut values = samples();
    values.extend_from_slice(&[
        4294967295.0,
        4294967296.0,
        4294967295.5,
        4294967294.999,
        0.999,
        1.5,
        255.99,
        -0.5,
        1e10,
    ]);
    for &v in &values {
        assert_eq!(d(v).to_u32(), v as u32, "{:e}", v);
    }
}

#[test]
fn sum_matches_hardware_on_samples() {
    let values = samples();
    for &a in &values {
        for &b in values.iter().step_by(3) {
            let got = sum(d(a), d(b));
            assert!(same(got, a + b), "{:e} + {:e}: got {:016x}", a, b, got.bits);
            let got = subtract(d(a), d(b));
            assert!(same(got, a - b), "{:e} - {:e}: got {:016x}", a, b, got.bits);
        }
    }
}

#[test]
fn sum_of_neighbours_and_of_far_apart_doubles() {
    let mut state: u64 = 0xfeed_beef_0042_4242;
    for _ in 0..20_000 {
        let a = f64::from_bits(next(&mut state) & 0xbfff_ffff_ffff_ffff | 0x3000_0000_0000_0000);
        let step = (next(&mut state) % 130) as i32 - 65;
        let scaled = a * 2f64.powi(step);
        let b = f64::from_bits(scaled.to_bits() ^ (next(&mut state) & 0x8000_0000_0000_00ff));
        for (x, y) in [(a, b), (b, a), (a, -a), (a, a)] {
            assert!(same(sum(d(x), d(y)), x + y), "{:e} + {:e}", x, y);
            assert!(same(subtract(d(x), d(y)), x - y), "{:e} - {:e}", x, y);
        }
    }
}

#[test]
fn sum_special_values() {
    assert_eq!(sum(d(0.0), d(-0.0)).bits, 0);
    assert_eq!(sum(d(-0.0), d(-0.0)).bits, (-0.0f64).to_bits());
    assert_eq!(sum(d(1.5), d(-1.5)).bits, 0);
    assert_eq!(sum(d(-0.0), d(2.5)).bits, 2.5f64.to_bits());
    assert_eq!(sum(d(f64::INFINITY), d(f64::NEG_INFINITY)).bits, 0x7ff8_0000_0000_0000);
    assert_eq!(sum(d(f64::INFINITY), d(1.0)).bits, f64::INFINITY.to_bits());
    assert_eq!(sum(d(1.0), d(f64::NEG_INFINITY)).bits, f64::NEG_INFINITY.to_bits());
    assert_eq!(sum(d(f64::MAX), d(f64::MAX)).bits, f64::INFINITY.to_bits());
    assert_eq!(sum(d(1.0), d(1e-30)).bits, 1.0f64.to_bits());
    assert_eq!(subtract(d(1.0), d(1e-30)).bits, 1.0f64.to_bits());
    assert_eq!(subtract(d(4503599627370496.0), d(1e-30)).bits, 4503599627370496.0f64.to_bits());
    assert_eq!(sum(d(5e-324), d(5e-324)).bits, 2);
    assert_eq!(subtract(d(0.3), d(0.1)).bits, (0.3f64 - 0.1).to_bits());
    assert_eq!(negate(d(1.0)).bits, (-1.0f64).to_bits());
    assert_eq!(negate(d(-0.0)).bits, 0);
}

#[test]
fn doubles_above_zero() {
    assert!(is_above_zero(d(1.0)));
    assert!(is_above_zero(d(5e-324)));
    assert!(is_above_zero(d(f64::INFINITY)));
    assert!(!is_above_zero(d(0.0)));
    assert!(!is_above_zero(d(-0.0)));
    assert!(!is_above_zero(d(-1.0)));
    assert!(!is_above_zero(d(f64::NAN)));
    assert!(!is_above_zero(d(f64::NEG_INFINITY)));
    for &v in &samples() {
        assert_eq!(is_above_zero(d(v)), v > 0.0, "{:e}", v);
    }
}

fn with_exponent(bits: u64, exponent: u64) -> f64 {
    f64::from_bits((bits & 0x800f_ffff_ffff_ffff) | ((exponent & 0x7ff) << 52))
}

#[test]
fn random_pairs_match_hardware() {
    let mut state: u64 = 0x0bad_cafe_dead_f00d;
    for _ in 0..20_000 {
        let a = f64::from_bits(next(&mut state));
        let b = f64::from_bits(next(&mut state));
        assert!(same(multiply(d(a), d(b)), a * b), "{:e} * {:e}", a, b);
        assert!(same(divide(d(a), d(b)), a / b), "{:e} / {:e}", a, b);
        assert!(same(sum(d(a), d(b)), a + b), "{:e} + {:e}", a, b);
        assert!(same(subtract(d(a), d(b)), a - b), "{:e} - {:e}", a, b);
    }
}

#[test]
fn sums_around_the_exact_span_match_hardware() {
    let mut state: u64 = 0x1357_9bdf_0246_8ace;
    for _ in 0..12_000 {
        let base = 1 + next(&mut state) % 1900;
        let gap = 48 + next(&mut state) % 16;
        let a = with_exponent(next(&mut state), base + gap);
        let b = with_exponent(next(&mut state), base);
        for (x, y) in [(a, b), (b, a)] {
            assert!(same(sum(d(x), d(y)), x + y), "{:e} + {:e}", x, y);
            assert!(same(subtract(d(x), d(y)), x - y), "{:e} - {:e}", x, y);
        }
        // powers of two, where the spacing of the doubles changes
        let p = with_exponent(0, base + gap);
        for (x, y) in [(p, b), (-p, b), (p, -b), (b, p)] {
            assert!(same(sum(d(x), d(y)), x + y), "{:e} + {:e}", x, y);
            assert!(same(subtract(d(x), d(y)), x - y), "{:e} - {:e}", x, y);
        }
    }
}

#[test]
fn results_near_the_limits_match_hardware() {
    let mut state: u64 = 0x2468_ace0_1357_9bdf;
    for _ in 0..12_000 {
        // products and quotients that are subnormal or overflow
        let low = with_exponent(next(&mut state), 1 + next(&mut state) % 80);
        let high = with_exponent(next(&mut state), 2046 - next(&mut state) % 80);
        let mid = with_exponent(next(&mut state), 1023 - 40 + next(&mut state) % 80);
        let tiny = f64::from_bits(next(&mut state) & 0x800f_ffff_ffff_ffff);
        for (x, y) in [(low, mid), (low, low), (high, mid), (high, high), (tiny, mid), (tiny, high), (mid, mid), (tiny, tiny)] {
            assert!(same(multiply(d(x), d(y)), x * y), "{:e} * {:e}", x, y);
            assert!(same(divide(d(x), d(y)), x / y), "{:e} / {:e}", x, y);
            assert!(same(divide(d(y), d(x)), y / x), "{:e} / {:e}", y, x);
            assert!(same(sum(d(x), d(y)), x + y), "{:e} + {:e}", x, y);
            assert!(same(subtract(d(x), d(y)), x - y), "{:e} - {:e}", x, y);
        }
    }
}
