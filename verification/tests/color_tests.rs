use raytracer::color::{as_ppm, channel};
use raytracer::scalar::Scalar;
use raytracer::vec3::Vec3;

fn color_scalar(x: f64) -> Scalar {
    Scalar::from_bits(x.to_bits())
}

fn color_of(r: f64, g: f64, b: f64) -> Vec3 {
    Vec3::new(color_scalar(r), color_scalar(g), color_scalar(b))
}

fn channel_reference(x: f64) -> u32 {
    let held = if x < 0.0 {
        0.0
    } else if x > 0.999 {
        0.999
    } else {
        x
    };
    (256.0 * held) as u32
}

#[test]
fn channel_of_black_is_zero() {
    assert_eq!(channel(color_scalar(0.0)), 0);
    assert_eq!(channel(color_scalar(-0.0)), 0);
}

#[test]
fn channel_of_white_is_255() {
    assert_eq!(channel(color_scalar(1.0)), 255);
    assert_eq!(channel(color_scalar(0.999)), 255);
    assert_eq!(channel(color_scalar(1e300)), 255);
    assert_eq!(channel(color_scalar(f64::INFINITY)), 255);
}

#[test]
fn channel_rounds_down() {
    assert_eq!(channel(color_scalar(0.5)), 128);
    assert_eq!(channel(color_scalar(0.25)), 64);
    assert_eq!(channel(color_scalar(0.7)), 179);
    assert_eq!(channel(color_scalar(0.00390625)), 1);
    assert_eq!(channel(color_scalar(0.0039062499999999996)), 0);
    assert_eq!(channel(color_scalar(0.99609375)), 255);
    assert_eq!(channel(color_scalar(0.9960937499999999)), 254);
}

#[test]
fn channel_of_negative_is_zero() {
    assert_eq!(channel(color_scalar(-0.5)), 0);
    assert_eq!(channel(color_scalar(-1e300)), 0);
    assert_eq!(channel(color_scalar(f64::NEG_INFINITY)), 0);
}

#[test]
fn channel_of_nan_is_zero() {
    assert_eq!(channel(color_scalar(f64::NAN)), 0);
    assert_eq!(channel(color_scalar(-f64::NAN)), 0);
}

#[test]
fn channel_of_tiny_is_zero() {
    assert_eq!(channel(color_scalar(5e-324)), 0);
    assert_eq!(channel(color_scalar(f64::MIN_POSITIVE)), 0);
    assert_eq!(channel(color_scalar(1e-8)), 0);
}

#[test]
fn channel_agrees_with_doubles() {
    for i in -200..1400 {
        let x = i as f64 / 1000.0;
        assert_eq!(channel(color_scalar(x)), channel_reference(x), "{x}");
        let root = x.abs().sqrt();
        assert_eq!(channel(color_scalar(root)), channel_reference(root), "{root}");
    }
    for k in 0..=256 {
        let edge = k as f64 / 256.0;
        let below = f64::from_bits(edge.to_bits().wrapping_sub(1));
        let above = f64::from_bits(edge.to_bits() + 1);
        assert_eq!(channel(color_scalar(edge)), channel_reference(edge), "{edge}");
        assert_eq!(channel(color_scalar(above)), channel_reference(above), "{above}");
        if k > 0 {
            assert_eq!(channel(color_scalar(below)), channel_reference(below), "{below}");
        }
    }
}

#[test]
fn as_ppm_writes_three_decimals() {
    assert_eq!(as_ppm(color_of(0.0, 0.0, 0.0)), "0 0 0");
    assert_eq!(as_ppm(color_of(1.0, 1.0, 1.0)), "255 255 255");
    assert_eq!(as_ppm(color_of(0.5, 0.25, 0.7)), "128 64 179");
    assert_eq!(as_ppm(color_of(0.04, 0.4, 0.999)), "10 102 255");
}

#[test]
fn as_ppm_holds_channels_to_range() {
    assert_eq!(as_ppm(color_of(-1.0, 2.0, f64::NAN)), "0 255 0");
}

#[test]
fn as_ppm_agrees_with_format() {
    let values = [0.0, 0.003, 0.01, 0.0391, 0.1, 0.39, 0.5, 0.77, 0.9, 0.999, 3.0];
    for r in values {
        for g in values {
            for b in values {
                let expected =
                    format!("{} {} {}", channel_reference(r), channel_reference(g), channel_reference(b));
                assert_eq!(as_ppm(color_of(r, g, b)), expected);
            }
        }
    }
}
