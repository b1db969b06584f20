use gain_params::bridge::{Origin, ParameterSnapshot, SyncBridge};
use gain_params::curve::{Curve, NORM_ONE, ParameterDescriptor, to_normalized, to_plain};
use gain_params::smoother::Smoother;
use gain_params::text::{format_display, format_plain};

fn gain_descriptor() -> ParameterDescriptor {
    ParameterDescriptor {
        id: 0,
        display_name: String::from("gain"),
        unit_label: String::from("Decibels"),
        min: -90_000_000,
        max: 3_000_000,
        curve: Curve::Power { num: 3, den: 20 },
    }
}

fn linear_descriptor() -> ParameterDescriptor {
    ParameterDescriptor {
        id: 0,
        display_name: String::from("mix"),
        unit_label: String::from("Percent"),
        min: 0,
        max: 100_000_000,
        curve: Curve::Linear,
    }
}

#[test]
fn round_trip_linear_is_exact() {
    let d = linear_descriptor();
    for &n in &[0u64, 1, 17, 500_000, 999_999, 1_000_000] {
        let p = to_plain(&d, n);
        let back = to_normalized(&d, p);
        assert_eq!(back, n);
    }
}

#[test]
fn round_trip_power_within_tolerance_near_top() {
    // Tolerance 1e-5 of the normalized range is 10 fixed-point units.
    let d = gain_descriptor();
    for &n in &[900_000u64, 950_000, 980_000, 995_100, 1_000_000] {
        let p = to_plain(&d, n);
        let back = to_normalized(&d, p);
        assert!(back >= n, "round trip moved down: {} -> {}", n, back);
        assert!(back - n <= 10, "round trip off by {} at {}", back - n, n);
    }
}

#[test]
fn round_trip_power_stays_on_fiber() {
    // Everywhere on the range, the round trip lands on a normalized value
    // the curve maps to the very same plain value.
    let d = gain_descriptor();
    for &n in &[0u64, 10, 1_000, 100_000, 300_000, 500_000, 700_000, 1_000_000] {
        let p = to_plain(&d, n);
        let back = to_normalized(&d, p);
        assert!(back >= n);
        assert_eq!(to_plain(&d, back), p);
    }
}

#[test]
fn to_plain_monotone_both_curves() {
    for d in [gain_descriptor(), linear_descriptor()] {
        let mut prev = to_plain(&d, 0);
        let mut n: u64 = 0;
        while n <= 1_000_000 {
            let p = to_plain(&d, n);
            assert!(p >= prev, "curve decreased at {}", n);
            prev = p;
            n += 7_919;
        }
        let top = to_plain(&d, 1_000_000);
        assert!(top >= prev);
    }
}

#[test]
fn to_plain_endpoints_exact() {
    let d = gain_descriptor();
    assert_eq!(to_plain(&d, 0), -90_000_000);
    assert_eq!(to_plain(&d, NORM_ONE), 3_000_000);
    // Out-of-range normalized input clamps, never fails.
    assert_eq!(to_plain(&d, 2_000_000), 3_000_000);
}

#[test]
fn power_curve_matches_reference_math() {
    // plain = min + (max - min) * n^(1/0.15), checked against f64 at a
    // generous fixed-point tolerance (0.001 dB).
    let d = gain_descriptor();
    for &n in &[0.25f64, 0.5, 0.75, 0.9, 0.9951] {
        let expected = -90.0 + 93.0 * n.powf(1.0 / 0.15);
        let got = to_plain(&d, (n * 1_000_000.0) as u64) as f64 / 1_000_000.0;
        assert!(
            (got - expected).abs() < 0.001,
            "at {} expected {} got {}",
            n,
            expected,
            got
        );
    }
}

#[test]
fn smoother_reaches_target_exactly_and_stays() {
    let mut s = Smoother::new(0);
    s.set_target(1_000_001, 7);
    let mut last = 0;
    for _ in 0..7 {
        last = s.advance();
    }
    assert_eq!(last, 1_000_001);
    assert_eq!(s.current, 1_000_001);
    assert_eq!(s.remaining, 0);
    for _ in 0..5 {
        assert_eq!(s.advance(), 1_000_001);
    }
}

#[test]
fn smoother_trajectory_never_overshoots() {
    let mut s = Smoother::new(2_000_000);
    s.set_target(-3_000_000, 13);
    let mut prev = 2_000_000;
    for _ in 0..20 {
        let v = s.advance();
        assert!(v <= prev, "downward ramp rose");
        assert!(v >= -3_000_000, "overshot the target");
        prev = v;
    }
    assert_eq!(prev, -3_000_000);
}

#[test]
fn smoother_equal_target_is_noop() {
    let mut s = Smoother::new(42);
    s.set_target(42, 64);
    assert_eq!(s.remaining, 0);
    assert_eq!(s.advance(), 42);
}

#[test]
fn smoother_retarget_restarts_from_current() {
    let mut s = Smoother::new(0);
    s.set_target(1_000_000, 10);
    for _ in 0..4 {
        s.advance();
    }
    let mid = s.current;
    assert!(0 < mid && mid < 1_000_000);
    s.set_target(0, 8);
    assert_eq!(s.start, mid);
    assert_eq!(s.remaining, 8);
    let first = s.advance();
    assert!(first <= mid, "fresh ramp jumped away from the current value");
}

#[test]
fn fill_partial_block_keeps_remaining_steps() {
    let mut s = Smoother::new(0);
    s.set_target(1_000_000, 100);
    let mut buf = vec![0i64; 30];
    s.fill(&mut buf, 30);
    assert_eq!(s.remaining, 70);
    let mut prev = 0i64;
    for &v in &buf {
        assert!(v >= prev && v <= 1_000_000, "fill overshot");
        prev = v;
    }
    let mut rest = vec![0i64; 80];
    s.fill(&mut rest, 80);
    assert_eq!(s.remaining, 0);
    assert_eq!(s.current, 1_000_000);
    for &v in &rest[70..] {
        assert_eq!(v, 1_000_000);
    }
}

#[test]
fn bridge_coalesces_to_last_writer() {
    let mut b = SyncBridge::new(2);
    let s1 = ParameterSnapshot { id: 1, normalized: 100, plain: 7, origin: Origin::Ui };
    let s2 = ParameterSnapshot { id: 1, normalized: 900, plain: 99, origin: Origin::Host };
    b.push_to_audio(s1);
    b.push_to_audio(s2);
    assert_eq!(b.take_to_audio(0), None);
    assert_eq!(b.take_to_audio(1), Some(s2));
    // Drained: nothing stale survives.
    assert_eq!(b.take_to_audio(1), None);
}

#[test]
fn bridge_directions_are_independent() {
    let mut b = SyncBridge::new(1);
    let up = ParameterSnapshot { id: 0, normalized: 1, plain: 1, origin: Origin::Ui };
    let down = ParameterSnapshot { id: 0, normalized: 2, plain: 2, origin: Origin::Host };
    b.push_to_audio(up);
    b.push_to_ui(down);
    assert_eq!(b.take_to_ui(0), Some(down));
    assert_eq!(b.take_to_audio(0), Some(up));
}

#[test]
fn format_plain_fixed_one_decimal() {
    assert_eq!(format_plain(0), "0.0");
    assert_eq!(format_plain(3_000_000), "3.0");
    assert_eq!(format_plain(-6_000_000), "-6.0");
    assert_eq!(format_plain(1_250_000), "1.3");
    assert_eq!(format_plain(-1_950_000), "-2.0");
    assert_eq!(format_plain(-40_000), "0.0");
    assert_eq!(format_plain(-90_000_000), "-90.0");
    assert_eq!(format_plain(123_456_789), "123.5");
}

#[test]
fn format_display_appends_unit_label() {
    let d = gain_descriptor();
    assert_eq!(format_display(&d, 3_000_000), "3.0 Decibels");
    assert_eq!(format_display(&d, -90_000_000), "-90.0 Decibels");
}
