//! The telemetry record: one timestamped snapshot of every vehicle channel.
//!
//! Scalar channels are held in fixed point, as hundredths of their unit
//! (a speed of 75.5 mph is `7550`); latitude and longitude are held in
//! millionths of a degree.
use vstd::prelude::*;
use crate::clock::unix_now;

pub mod utils;

verus! {

/// One snapshot of vehicle state.
#[derive(Clone, Copy, Debug, PartialEq, Eq, Structural)]
pub struct TelemetryData {
    /// Hundredths of a mph.
    pub speed: i64,
    /// Hundredths of a revolution per minute.
    pub rpm: i64,
    /// Hundredths of a degree.
    pub engine_temp: i64,
    /// Hundredths of a percent.
    pub fuel_level: i64,
    /// Hundredths of a volt.
    pub battery_voltage: i64,
    /// Hundredths of a psi.
    pub oil_pressure: i64,
    /// Hundredths of a percent.
    pub throttle_position: i64,
    /// Hundredths of a psi.
    pub brake_pressure: i64,
    /// -1 is reverse, 0 is neutral.
    pub gear: i32,
    /// Seconds since the Unix epoch.
    pub timestamp: u64,
    /// Millionths of a degree.
    pub latitude: Option<i64>,
    /// Millionths of a degree.
    pub longitude: Option<i64>,
    /// Hundredths of a metre.
    pub altitude: Option<i64>,
    /// Hundredths of a g.
    pub acceleration: i64,
    /// Hundredths of a degree.
    pub brake_temperature: i64,
    /// Hundredths of a psi.
    pub tire_pressure_fl: i64,
    /// Hundredths of a psi.
    pub tire_pressure_fr: i64,
    /// Hundredths of a psi.
    pub tire_pressure_rl: i64,
    /// Hundredths of a psi.
    pub tire_pressure_rr: i64,
}

/// Every channel zero, no position fix, at the given time.
pub open spec fn zeroed_at(timestamp: u64) -> TelemetryData {
    TelemetryData {
        speed: 0,
        rpm: 0,
        engine_temp: 0,
        fuel_level: 0,
        battery_voltage: 0,
        oil_pressure: 0,
        throttle_position: 0,
        brake_pressure: 0,
        gear: 0,
        timestamp: timestamp,
        latitude: None,
        longitude: None,
        altitude: None,
        acceleration: 0,
        brake_temperature: 0,
        tire_pressure_fl: 0,
        tire_pressure_fr: 0,
        tire_pressure_rl: 0,
        tire_pressure_rr: 0,
    }
}

pub open spec fn within(v: i64, lo: int, hi: int) -> bool {
    lo <= v && v <= hi
}

/// Tire pressure below 30 psi.
pub const LOW_TIRE_PRESSURE: i64 = 3000;

impl Default for TelemetryData {
    fn default() -> (r: Self)
        ensures
            r == zeroed_at(0),
    {
        TelemetryData::with_timestamp(0)
    }
}

impl TelemetryData {
    pub open spec fn engine_running_spec(&self) -> bool {
        self.rpm > 10000
    }

    pub open spec fn low_tire_spec(&self) -> bool {
        self.tire_pressure_fl < LOW_TIRE_PRESSURE || self.tire_pressure_fr < LOW_TIRE_PRESSURE
            || self.tire_pressure_rl < LOW_TIRE_PRESSURE || self.tire_pressure_rr
            < LOW_TIRE_PRESSURE
    }

    /// Every channel lies in its physical range.
    pub open spec fn valid_spec(&self) -> bool {
        &&& within(self.speed, 0, 20000)
        &&& within(self.rpm, 0, 1000000)
        &&& within(self.engine_temp, 0, 30000)
        &&& within(self.fuel_level, 0, 10000)
        &&& within(self.battery_voltage, 800, 1600)
        &&& within(self.oil_pressure, 0, 10000)
        &&& within(self.throttle_position, 0, 10000)
        &&& within(self.brake_pressure, 0, 200000)
        &&& -1 <= self.gear <= 6
    }

    /// The alerts that a record raises, in a fixed order.
    pub open spec fn alerts_spec(&self) -> Seq<Seq<char>> {
        let a0 = Seq::<Seq<char>>::empty();
        let a1 = if self.engine_temp > 22000 {
            a0.push("Engine temperature high!"@)
        } else {
            a0
        };
        let a2 = if self.low_tire_spec() {
            a1.push("Low tire pressure detected"@)
        } else {
            a1
        };
        let a3 = if self.battery_voltage < 1100 {
            a2.push("Low battery voltage"@)
        } else {
            a2
        };
        let a4 = if self.oil_pressure < 1000 && self.engine_running_spec() {
            a3.push("Low oil pressure"@)
        } else {
            a3
        };
        if self.fuel_level < 1000 {
            a4.push("Low fuel level"@)
        } else {
            a4
        }
    }

    pub open spec fn gear_text(gear: i32) -> Seq<char> {
        if gear == -1 {
            "R"@
        } else if gear == 0 {
            "N"@
        } else if gear == 1 {
            "1"@
        } else if gear == 2 {
            "2"@
        } else if gear == 3 {
            "3"@
        } else if gear == 4 {
            "4"@
        } else if gear == 5 {
            "5"@
        } else if gear == 6 {
            "6"@
        } else {
            "?"@
        }
    }

    /// A zeroed record stamped with the current time.
    pub fn new() -> (r: Self)
        ensures
            r == zeroed_at(r.timestamp),
    {
        let now = unix_now();
        TelemetryData::with_timestamp(now)
    }

    /// A zeroed record stamped with `timestamp`.
    pub fn with_timestamp(timestamp: u64) -> (r: Self)
        ensures
            r == zeroed_at(timestamp),
    {
        TelemetryData {
            speed: 0,
            rpm: 0,
            engine_temp: 0,
            fuel_level: 0,
            battery_voltage: 0,
            oil_pressure: 0,
            throttle_position: 0,
            brake_pressure: 0,
            gear: 0,
            timestamp: timestamp,
            latitude: None,
            longitude: None,
            altitude: None,
            acceleration: 0,
            brake_temperature: 0,
            tire_pressure_fl: 0,
            tire_pressure_fr: 0,
            tire_pressure_rl: 0,
            tire_pressure_rr: 0,
        }
    }

    /// Stamps the record with the current time; no other channel changes.
    pub fn update_timestamp(&mut self)
        ensures
            *final(self) == (TelemetryData { timestamp: final(self).timestamp, ..*old(self) }),
    {
        self.timestamp = unix_now();
    }

    /// The engine turns faster than 100 rpm.
    pub fn is_engine_running(&self) -> (r: bool)
        ensures
            r == self.engine_running_spec(),
    {
        self.rpm > 10000
    }

    pub fn engine_status(&self) -> (r: &'static str)
        ensures
            r@ == (if self.engine_running_spec() {
                "Running"@
            } else {
                "Stopped"@
            }),
    {
        if self.is_engine_running() {
            "Running"
        } else {
            "Stopped"
        }
    }

    /// Some tire is below 30 psi.
    pub fn has_low_tire_pressure(&self) -> (r: bool)
        ensures
            r == self.low_tire_spec(),
    {
        self.tire_pressure_fl < LOW_TIRE_PRESSURE || self.tire_pressure_fr < LOW_TIRE_PRESSURE
            || self.tire_pressure_rl < LOW_TIRE_PRESSURE || self.tire_pressure_rr
            < LOW_TIRE_PRESSURE
    }

    /// The least of the four tire pressures.
    pub fn lowest_tire_pressure(&self) -> (r: i64)
        ensures
            r <= self.tire_pressure_fl,
            r <= self.tire_pressure_fr,
            r <= self.tire_pressure_rl,
            r <= self.tire_pressure_rr,
            r == self.tire_pressure_fl || r == self.tire_pressure_fr || r == self.tire_pressure_rl
                || r == self.tire_pressure_rr,
    {
        let mut low = self.tire_pressure_fl;
        if self.tire_pressure_fr < low {
            low = self.tire_pressure_fr;
        }
        if self.tire_pressure_rl < low {
            low = self.tire_pressure_rl;
        }
        if self.tire_pressure_rr < low {
            low = self.tire_pressure_rr;
        }
        low
    }

    /// Engine temperature between 160 and 220 degrees, both included.
    pub fn is_engine_temp_normal(&self) -> (r: bool)
        ensures
            r == within(self.engine_temp, 16000, 22000),
    {
        self.engine_temp >= 16000 && self.engine_temp <= 22000
    }

    pub fn engine_temp_status(&self) -> (r: &'static str)
        ensures
            r@ == (if self.engine_temp < 16000 {
                "Cold"@
            } else if self.engine_temp > 22000 {
                "Hot"@
            } else {
                "Normal"@
            }),
    {
        if self.engine_temp < 16000 {
            "Cold"
        } else if self.engine_temp > 22000 {
            "Hot"
        } else {
            "Normal"
        }
    }

    /// "R" for reverse, "N" for neutral, the digit for gears 1 to 6, "?" otherwise.
    pub fn gear_string(&self) -> (r: String)
        ensures
            r@ == Self::gear_text(self.gear),
    {
        let text = match self.gear {
            -1 => "R",
            0 => "N",
            1 => "1",
            2 => "2",
            3 => "3",
            4 => "4",
            5 => "5",
            6 => "6",
            _ => "?",
        };
        String::from_str(text)
    }

    /// The vehicle goes faster than 1 mph.
    pub fn is_moving(&self) -> (r: bool)
        ensures
            r == (self.speed > 100),
    {
        self.speed > 100
    }

    /// Every channel lies in its physical range.
    pub fn is_valid(&self) -> (r: bool)
        ensures
            r == self.valid_spec(),
    {
        self.speed >= 0 && self.speed <= 20000 && self.rpm >= 0 && self.rpm <= 1000000
            && self.engine_temp >= 0 && self.engine_temp <= 30000 && self.fuel_level >= 0
            && self.fuel_level <= 10000 && self.battery_voltage >= 800 && self.battery_voltage
            <= 1600 && self.oil_pressure >= 0 && self.oil_pressure <= 10000
            && self.throttle_position >= 0 && self.throttle_position <= 10000
            && self.brake_pressure >= 0 && self.brake_pressure <= 200000 && self.gear >= -1
            && self.gear <= 6
    }

    /// The alerts that the record raises; independent of validity.
    pub fn get_alerts(&self) -> (r: Vec<String>)
        ensures
            r@.map_values(|s: String| s@) == self.alerts_spec(),
    {
        let mut alerts: Vec<String> = Vec::new();
        if self.engine_temp > 22000 {
            alerts.push(String::from_str("Engine temperature high!"));
        }
        if self.has_low_tire_pressure() {
            alerts.push(String::from_str("Low tire pressure detected"));
        }
        if self.battery_voltage < 1100 {
            alerts.push(String::from_str("Low battery voltage"));
        }
        if self.oil_pressure < 1000 && self.is_engine_running() {
            alerts.push(String::from_str("Low oil pressure"));
        }
        if self.fuel_level < 1000 {
            alerts.push(String::from_str("Low fuel level"));
        }
        assert(alerts@.map_values(|s: String| s@) =~= self.alerts_spec());
        alerts
    }
}

} // verus!
