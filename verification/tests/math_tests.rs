use raytracer::math::{clamp, Span};
use raytracer::scalar::Scalar;

fn math_scalar(x: f64) -> Scalar {
    Scalar::from_bits(x.to_bits())
}

fn math_span(start: f64, end: f64) -> Span {
    Span::new(math_scalar(start), math_scalar(end))
}

fn clamp_reference(n: f64, start: f64, end: f64) -> f64 {
    if n < start {
        return start;
    }
    if n > end {
        return end;
    }
    n
}

#[test]
fn clamp_keeps_what_is_inside() {
    let r = clamp(math_scalar(0.25), math_span(0.0, 0.999));
    assert_eq!(r.to_bits(), 0.25f64.to_bits());
}

#[test]
fn clamp_raises_to_the_start() {
    let r = clamp(math_scalar(-3.0), math_span(0.0, 0.999));
    assert_eq!(r.to_bits(), 0.0f64.to_bits());
}

#[test]
fn clamp_lowers_to_the_end() {
    let r = clamp(math_scalar(7.5), math_span(0.0, 0.999));
    assert_eq!(r.to_bits(), 0.999f64.to_bits());
}

#[test]
fn clamp_keeps_the_end_itself() {
    let r = clamp(math_scalar(0.999), math_span(0.0, 0.999));
    assert_eq!(r.to_bits(), 0.999f64.to_bits());
}

#[test]
fn clamp_passes_nan_on() {
    let r = clamp(math_scalar(f64::NAN), math_span(0.0, 0.999));
    assert!(r.is_nan());
}

#[test]
fn clamp_agrees_with_doubles() {
    let values = [
        -1e300,
        -2.0,
        -0.0,
        0.0,
        1e-320,
        0.3,
        0.999,
        0.9990000000000001,
        1.0,
        4.0,
        f64::INFINITY,
        f64::NEG_INFINITY,
    ];
    let bounds = [(0.0, 0.999), (-1.0, 1.0), (0.001, f64::MAX), (2.0, 1.0), (-0.0, 0.0)];
    for n in values {
        for (start, end) in bounds {
            let r = clamp(math_scalar(n), math_span(start, end));
            assert_eq!(r.to_bits(), clamp_reference(n, start, end).to_bits(), "{n} in {start}..{end}");
        }
    }
}

#[test]
fn span_contains_start_but_not_end() {
    let t = math_span(0.001, 10.0);
    assert!(t.contains(math_scalar(0.001)));
    assert!(t.contains(math_scalar(5.0)));
    assert!(!t.contains(math_scalar(10.0)));
    assert!(!t.contains(math_scalar(0.0009)));
    assert!(!t.contains(math_scalar(f64::NAN)));
}

#[test]
fn span_contains_agrees_with_ranges() {
    let values = [-1.0, 0.0, 0.001, 0.5, 1.0, 1e10, f64::MAX, f64::INFINITY, f64::NAN];
    for x in values {
        let t = 0.001..f64::MAX;
        assert_eq!(math_span(0.001, f64::MAX).contains(math_scalar(x)), t.contains(&x), "{x}");
    }
}
