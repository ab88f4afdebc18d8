//! Interpolation between telemetry records.
use vstd::prelude::*;
use crate::telemetry::TelemetryData;

verus! {

/// The point `f` thousandths of the way from `a` to `b`, rounded toward `a`.
pub open spec fn between(a: int, b: int, f: int) -> int {
    if b >= a {
        a + (b - a) * f / 1000
    } else {
        a - (a - b) * f / 1000
    }
}

pub open spec fn between_option(a: Option<i64>, b: Option<i64>, f: int) -> Option<int> {
    match (a, b) {
        (Some(x), Some(y)) => Some(between(x as int, y as int, f)),
        (Some(x), None) => Some(x as int),
        (None, Some(y)) => Some(y as int),
        (None, None) => None,
    }
}

pub open spec fn option_view(o: Option<i64>) -> Option<int> {
    match o {
        Some(x) => Some(x as int),
        None => None,
    }
}

proof fn lemma_between_bounds(a: int, b: int, f: int)
    requires
        0 <= f <= 1000,
    ensures
        a <= b ==> a <= between(a, b, f) <= b,
        b < a ==> b <= between(a, b, f) <= a,
{
    if b >= a {
        assert(0 <= (b - a) * f <= (b - a) * 1000) by (nonlinear_arith)
            requires
                b >= a,
                0 <= f <= 1000,
        ;
    } else {
        assert(0 <= (a - b) * f <= (a - b) * 1000) by (nonlinear_arith)
            requires
                a > b,
                0 <= f <= 1000,
        ;
    }
}

fn lerp_channel(a: i64, b: i64, f: i64) -> (r: i64)
    requires
        0 <= f <= 1000,
    ensures
        r == between(a as int, b as int, f as int),
{
    proof {
        lemma_between_bounds(a as int, b as int, f as int);
    }
    let a2 = a as i128;
    let b2 = b as i128;
    let f2 = f as i128;
    if b2 >= a2 {
        assert(0 <= (b2 - a2) * f2 <= 0x1_0000_0000_0000_0000 * 1000) by (nonlinear_arith)
            requires
                0 <= b2 - a2 <= 0x1_0000_0000_0000_0000,
                0 <= f2 <= 1000,
        ;
        (a2 + (b2 - a2) * f2 / 1000) as i64
    } else {
        assert(0 <= (a2 - b2) * f2 <= 0x1_0000_0000_0000_0000 * 1000) by (nonlinear_arith)
            requires
                0 <= a2 - b2 <= 0x1_0000_0000_0000_0000,
                0 <= f2 <= 1000,
        ;
        (a2 - (a2 - b2) * f2 / 1000) as i64
    }
}

fn lerp_timestamp(a: u64, b: u64, f: i64) -> (r: u64)
    requires
        0 <= f <= 1000,
    ensures
        r == between(a as int, b as int, f as int),
{
    proof {
        lemma_between_bounds(a as int, b as int, f as int);
    }
    let a2 = a as i128;
    let b2 = b as i128;
    let f2 = f as i128;
    if b2 >= a2 {
        assert(0 <= (b2 - a2) * f2 <= 0x1_0000_0000_0000_0000 * 1000) by (nonlinear_arith)
            requires
                0 <= b2 - a2 <= 0x1_0000_0000_0000_0000,
                0 <= f2 <= 1000,
        ;
        (a2 + (b2 - a2) * f2 / 1000) as u64
    } else {
        assert(0 <= (a2 - b2) * f2 <= 0x1_0000_0000_0000_0000 * 1000) by (nonlinear_arith)
            requires
                0 <= a2 - b2 <= 0x1_0000_0000_0000_0000,
                0 <= f2 <= 1000,
        ;
        (a2 - (a2 - b2) * f2 / 1000) as u64
    }
}

fn lerp_option(a: Option<i64>, b: Option<i64>, f: i64) -> (r: Option<i64>)
    requires
        0 <= f <= 1000,
    ensures
        option_view(r) == between_option(a, b, f as int),
{
    match (a, b) {
        (Some(x), Some(y)) => Some(lerp_channel(x, y, f)),
        (Some(x), None) => Some(x),
        (None, Some(y)) => Some(y),
        (None, None) => None,
    }
}

/// The record `factor_permille` thousandths of the way from `start` to `end`:
/// every scalar channel and the timestamp lie between the two records' values
/// (rounded toward `start`), a position channel known at one end only keeps
/// that value, and the gear is `start`'s.
pub fn interpolate_telemetry(start: &TelemetryData, end: &TelemetryData, factor_permille: i64) -> (r:
    TelemetryData)
    requires
        0 <= factor_permille <= 1000,
    ensures
        r.speed == between(start.speed as int, end.speed as int, factor_permille as int),
        r.rpm == between(start.rpm as int, end.rpm as int, factor_permille as int),
        r.engine_temp == between(start.engine_temp as int, end.engine_temp as int, factor_permille as int),
        r.fuel_level == between(start.fuel_level as int, end.fuel_level as int, factor_permille as int),
        r.battery_voltage == between(
            start.battery_voltage as int,
            end.battery_voltage as int,
            factor_permille as int,
        ),
        r.oil_pressure == between(start.oil_pressure as int, end.oil_pressure as int, factor_permille as int),
        r.throttle_position == between(
            start.throttle_position as int,
            end.throttle_position as int,
            factor_permille as int,
        ),
        r.brake_pressure == between(
            start.brake_pressure as int,
            end.brake_pressure as int,
            factor_permille as int,
        ),
        r.gear == start.gear,
        r.timestamp == between(start.timestamp as int, end.timestamp as int, factor_permille as int),
        option_view(r.latitude) == between_option(start.latitude, end.latitude, factor_permille as int),
        option_view(r.longitude) == between_option(start.longitude, end.longitude, factor_permille as int),
        option_view(r.altitude) == between_option(start.altitude, end.altitude, factor_permille as int),
        r.acceleration == between(start.acceleration as int, end.acceleration as int, factor_permille as int),
        r.brake_temperature == between(
            start.brake_temperature as int,
            end.brake_temperature as int,
            factor_permille as int,
        ),
        r.tire_pressure_fl == between(
            start.tire_pressure_fl as int,
            end.tire_pressure_fl as int,
            factor_permille as int,
        ),
        r.tire_pressure_fr == between(
            start.tire_pressure_fr as int,
            end.tire_pressure_fr as int,
            factor_permille as int,
        ),
        r.tire_pressure_rl == between(
            start.tire_pressure_rl as int,
            end.tire_pressure_rl as int,
            factor_permille as int,
        ),
        r.tire_pressure_rr == between(
            start.tire_pressure_rr as int,
            end.tire_pressure_rr as int,
            factor_permille as int,
        ),
{
    let f = factor_permille;
    TelemetryData {
        speed: lerp_channel(start.speed, end.speed, f),
        rpm: lerp_channel(start.rpm, end.rpm, f),
        engine_temp: lerp_channel(start.engine_temp, end.engine_temp, f),
        fuel_level: lerp_channel(start.fuel_level, end.fuel_level, f),
        battery_voltage: lerp_channel(start.battery_voltage, end.battery_voltage, f),
        oil_pressure: lerp_channel(start.oil_pressure, end.oil_pressure, f),
        throttle_position: lerp_channel(start.throttle_position, end.throttle_position, f),
        brake_pressure: lerp_channel(start.brake_pressure, end.brake_pressure, f),
        gear: start.gear,
        timestamp: lerp_timestamp(start.timestamp, end.timestamp, f),
        latitude: lerp_option(start.latitude, end.latitude, f),
        longitude: lerp_option(start.longitude, end.longitude, f),
        altitude: lerp_option(start.altitude, end.altitude, f),
        acceleration: lerp_channel(start.acceleration, end.acceleration, f),
        brake_temperature: lerp_channel(start.brake_temperature, end.brake_temperature, f),
        tire_pressure_fl: lerp_channel(start.tire_pressure_fl, end.tire_pressure_fl, f),
        tire_pressure_fr: lerp_channel(start.tire_pressure_fr, end.tire_pressure_fr, f),
        tire_pressure_rl: lerp_channel(start.tire_pressure_rl, end.tire_pressure_rl, f),
        tire_pressure_rr: lerp_channel(start.tire_pressure_rr, end.tire_pressure_rr, f),
    }
}

} // verus!
