//! The fan-speed policy: a piecewise map from temperature to duty cycle.
//!
//! Temperatures are integer millidegrees Celsius, as the sensor reports
//! them. A duty cycle is the single byte written to the fan controller's
//! command register. Inside the middle band the policy follows a smoothed
//! blend curve; that curve is evaluated by the caller (it is real-valued)
//! and handed in as the byte it yields, so everything the policy itself
//! decides — which band a temperature falls in, and the flat values of the
//! outer bands — is stated and proved here.

use vstd::prelude::*;

verus! {

/// Temperature below which the fan is fully off, in millidegrees Celsius.
pub const OFF_TEMP_MILLIDEG: i64 = 40_000;
/// Temperature at and above which the blend curve takes over, in millidegrees Celsius.
pub const MIN_TEMP_MILLIDEG: i64 = 45_000;
/// Temperature at and above which the fan runs at full speed, in millidegrees Celsius.
pub const MAX_TEMP_MILLIDEG: i64 = 75_000;

/// Duty byte for a stopped fan.
pub const DUTY_OFF: u8 = 0;
/// Duty byte of the minimum spin floor: the low band's percentage of one
/// tenth, scaled to the 255-step actuator resolution and rounded down.
pub const DUTY_LOW: u8 = 25;
/// Duty byte for full speed.
pub const DUTY_MAX: u8 = 255;

/// The duty byte commanded at a given temperature, with `curve_duty` the
/// byte the blend curve yields for that same temperature.
///
/// The bands are chosen by strict `<` comparisons, so each threshold
/// belongs to the band above it: at exactly `MIN_TEMP_MILLIDEG` the curve
/// applies, not the spin floor, and at exactly `MAX_TEMP_MILLIDEG` the fan
/// is at full speed.
pub open spec fn spec_fan_speed(temp_millideg: int, curve_duty: u8) -> u8 {
    if temp_millideg < OFF_TEMP_MILLIDEG {
        DUTY_OFF
    } else if temp_millideg < MIN_TEMP_MILLIDEG {
        DUTY_LOW
    } else if temp_millideg < MAX_TEMP_MILLIDEG {
        curve_duty
    } else {
        DUTY_MAX
    }
}

/// Select the duty byte for a temperature reading.
pub fn fan_speed(temp_millideg: i64, curve_duty: u8) -> (duty: u8)
    ensures
        duty == spec_fan_speed(temp_millideg as int, curve_duty),
{
    if temp_millideg < OFF_TEMP_MILLIDEG {
        DUTY_OFF
    } else if temp_millideg < MIN_TEMP_MILLIDEG {
        DUTY_LOW
    } else if temp_millideg < MAX_TEMP_MILLIDEG {
        curve_duty
    } else {
        DUTY_MAX
    }
}

/// Below the off threshold the fan is commanded fully off, whatever the
/// curve would say.
pub proof fn lemma_fan_speed_off(temp_millideg: int, curve_duty: u8)
    requires
        temp_millideg < OFF_TEMP_MILLIDEG,
    ensures
        spec_fan_speed(temp_millideg, curve_duty) == DUTY_OFF,
{
}

/// At and above the full-speed threshold the fan is commanded to the
/// maximum duty, whatever the curve would say.
pub proof fn lemma_fan_speed_full(temp_millideg: int, curve_duty: u8)
    requires
        MAX_TEMP_MILLIDEG <= temp_millideg,
    ensures
        spec_fan_speed(temp_millideg, curve_duty) == DUTY_MAX,
{
}

/// At exactly the curve threshold the commanded duty is the curve's value,
/// not the flat spin floor: the boundary belongs to the curve band.
pub proof fn lemma_min_temp_boundary_uses_curve(curve_duty: u8)
    ensures
        spec_fan_speed(MIN_TEMP_MILLIDEG as int, curve_duty) == curve_duty,
{
}

/// The policy is monotone in the temperature: a hotter reading never
/// commands a slower fan, provided the curve bytes handed in respect the
/// same order and sit at or above the spin floor. (The blend curve itself
/// is increasing and starts above the floor, so its bytes always do.)
pub proof fn lemma_fan_speed_monotone(t1: int, t2: int, c1: u8, c2: u8)
    requires
        t1 <= t2,
        DUTY_LOW <= c1,
        c1 <= c2,
    ensures
        spec_fan_speed(t1, c1) <= spec_fan_speed(t2, c2),
{
}

} // verus!
