//! The measurement record produced by a successful decode, and the capture
//! clock it is stamped with.

use vstd::prelude::*;

verus! {

/// `std::time::SystemTime` is the capture timestamp of a record. The library
/// only ever obtains one from [`now`] and carries it through; nothing is read
/// out of it.
#[verifier::external_type_specification]
#[verifier::external_body]
pub struct ExSystemTime(std::time::SystemTime);

/// Relies on `std::time::SystemTime::clone`: `SystemTime` is a `Copy` type,
/// so its clone is the same value.
pub assume_specification[ <std::time::SystemTime as Clone>::clone ](
    t: &std::time::SystemTime,
) -> (r: std::time::SystemTime)
    ensures
        r == *t,
;

/// Relies on `std::time::SystemTime::now`: the current clock reading. The
/// clock may return anything, so nothing is promised of the value.
#[verifier::external_body]
pub(crate) fn now() -> std::time::SystemTime {
    std::time::SystemTime::now()
}

/// One decoded sensor reading.
///
/// Temperature and humidity are exact integers in thousandths of the unit the
/// sensor reports (thousandths of a degree Celsius, thousandths of a
/// percentage point), so both payload formats fit one field pair without
/// rounding. The battery byte is passed through raw: the vendors document no
/// scale for it.
#[derive(Clone, Debug)]
pub struct Record {
    /// Broadcast name of the reporting device.
    pub name: String,
    /// Temperature in thousandths of a degree Celsius.
    pub temp: i32,
    /// Relative humidity in thousandths of a percentage point.
    pub humi: i32,
    /// Raw battery byte from the payload.
    pub batt: u8,
    /// Capture time at decode; the payloads carry no absolute time.
    pub date: std::time::SystemTime,
}

} // verus!
