//! The core of a vehicle dashboard: telemetry records and their checks, the
//! plugin runtime's registry, and the storage engine's formats and rules
//! (the record and session file formats, backup naming and rotation, session
//! thinning, the integrity hash, CSV export). File and plugin-code I/O is left
//! to the host, which calls these functions around it.
use vstd::prelude::*;

mod clock;
pub mod codec;
pub mod plugin;
pub mod storage;
pub mod telemetry;
pub mod text;
pub mod ui;

verus! {

/// Sum of two integers.
pub fn add(a: i32, b: i32) -> (r: i32)
    requires
        i32::MIN <= a + b <= i32::MAX,
    ensures
        r == a + b,
{
    a + b
}

/// `value` held within `[min, max]`: `min` below it, `max` above it.
pub fn clamp(value: i64, min: i64, max: i64) -> (r: i64)
    ensures
        r == (if value < min {
            min
        } else if value > max {
            max
        } else {
            value
        }),
        min <= max ==> min <= r <= max,
{
    if value < min {
        min
    } else if value > max {
        max
    } else {
        value
    }
}

} // verus!
