use fan_control::curve::fan_speed;
use fan_control::curve::DUTY_LOW;
use fan_control::curve::DUTY_MAX;
use fan_control::curve::DUTY_OFF;

#[test]
fn cold_reading_turns_fan_off() {
    // 30.0 degrees: percentage 0.0, duty 0, whatever the curve byte is.
    assert_eq!(fan_speed(30_000, 0), 0);
    assert_eq!(fan_speed(30_000, 200), 0);
    assert_eq!(fan_speed(0, 255), 0);
    assert_eq!(fan_speed(-5_000, 255), 0);
}

#[test]
fn low_band_holds_spin_floor() {
    // 42.0 degrees: percentage 0.1, duty 25, whatever the curve byte is.
    assert_eq!(fan_speed(42_000, 0), 25);
    assert_eq!(fan_speed(42_000, 200), 25);
    assert_eq!(fan_speed(40_000, 0), 25);
    assert_eq!(fan_speed(44_999, 0), 25);
}

#[test]
fn hot_reading_runs_full_speed() {
    // 80.0 degrees: percentage 1.0, duty 255, whatever the curve byte is.
    assert_eq!(fan_speed(80_000, 0), 255);
    assert_eq!(fan_speed(75_000, 0), 255);
    assert_eq!(fan_speed(120_000, 17), 255);
}

#[test]
fn band_boundaries_are_half_open() {
    assert_eq!(fan_speed(39_999, 200), DUTY_OFF);
    assert_eq!(fan_speed(40_000, 200), DUTY_LOW);
    assert_eq!(fan_speed(74_999, 200), 200);
    assert_eq!(fan_speed(75_000, 200), DUTY_MAX);
}

#[test]
fn min_temp_boundary_takes_the_curve_not_the_floor() {
    // At exactly 45.0 degrees the blend curve's byte (about 56 there) is
    // commanded, not the flat spin floor of 25.
    assert_eq!(fan_speed(45_000, 56), 56);
    assert_ne!(fan_speed(45_000, 56), 25);
}

// The blend curve the process evaluates inside the middle band: the average
// of a sine ease-in and a linear ramp, scaled to the duty byte. The library
// takes its value as an argument; these tests check that the full
// composition behaves as the policy promises.
fn blend_curve_byte(temp: f32) -> u8 {
    let pi = std::f32::consts::PI;
    let gain = (1.0f32 - 0.1) / (75.0 - 45.0);
    let percentage =
        (0.5 * (1.0 - ((pi * temp) / 50.0).sin()) + (0.1 + (temp - 45.0).min(75.0) * gain)) / 2.0;
    (255.0 * percentage).floor() as u8
}

#[test]
fn blended_curve_examples_hit_exact_bytes() {
    // 42.0 degrees sits in the flat low band: percentage 0.1, byte 25.
    assert_eq!(fan_speed(42_000, blend_curve_byte(42.0)), 25);
    // 60.0 degrees sits on the curve: percentage about 0.6719, byte 171.
    assert_eq!(blend_curve_byte(60.0), 171);
    assert_eq!(fan_speed(60_000, blend_curve_byte(60.0)), 171);
    // 80.0 degrees is past the curve: full speed regardless of its value.
    assert_eq!(fan_speed(80_000, blend_curve_byte(80.0)), 255);
}

#[test]
fn blended_curve_never_decreases_over_a_fine_sweep() {
    // Sweep the whole domain in 10-millidegree steps through the real blend
    // curve and the policy together: the duty must never drop, despite the
    // blended shape of the middle band.
    let mut last: u8 = 0;
    let mut milli: i64 = 0;
    while milli <= 120_000 {
        let temp = milli as f32 / 1000.0;
        let duty = fan_speed(milli, blend_curve_byte(temp));
        assert!(duty >= last, "duty dropped at {} millidegrees", milli);
        last = duty;
        milli += 10;
    }
    assert_eq!(last, 255);
}

#[test]
fn duty_never_decreases_over_a_sweep() {
    // Sweep the whole realistic domain with curve bytes from a monotone
    // stand-in ramp that starts at the spin floor, as the real blend curve
    // does; the commanded duty must never drop.
    let curve_byte = |milli: i64| -> u8 {
        if milli < 45_000 {
            25
        } else if milli >= 75_000 {
            255
        } else {
            (25 + (milli - 45_000) * 230 / 30_000) as u8
        }
    };
    let mut last: u8 = 0;
    let mut milli: i64 = -10_000;
    while milli <= 130_000 {
        let duty = fan_speed(milli, curve_byte(milli));
        assert!(duty >= last, "duty dropped at {} millidegrees", milli);
        last = duty;
        milli += 100;
    }
    assert_eq!(last, 255);
}
