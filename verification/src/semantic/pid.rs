//! Standard OBD-II / SAE J1979 PID scaling: public, documented formulas only.
//!
//! ISO 14229-1 mirrors the service-0x01 PIDs into the OBDDataIdentifier DID range
//! `0xF400–0xF4FF`, so a DID read reaches them as `0xF4{PID}`: see [`pid_for_did`]. Values are
//! exact fractions; [`scale`] gives `None` for anything it does not know.
use vstd::prelude::*;
use crate::ratio::Ratio;

verus! {

/// First DID of the OBDDataIdentifier range.
pub const OBD_DID_FIRST: u16 = 0xF400;

/// Last DID of the OBDDataIdentifier range.
pub const OBD_DID_LAST: u16 = 0xF4FF;

/// A standard PID scaled to an engineering value: its name, value, and unit.
#[derive(Debug, Clone, Copy, PartialEq, Eq)]
pub struct ScaledPid {
    /// Human name of the signal, e.g. `"Engine coolant temperature"`.
    pub name: &'static str,
    /// The scaled engineering value, exactly.
    pub value: Ratio,
    /// The engineering unit.
    pub unit: &'static str,
}

/// The J1979 PID a DID addresses, when it is in the OBDDataIdentifier range: its low byte.
pub fn pid_for_did(did: u16) -> (r: Option<u8>)
    ensures
        r == (if OBD_DID_FIRST <= did <= OBD_DID_LAST {
            Some((did - OBD_DID_FIRST) as u8)
        } else {
            None
        }),
{
    if OBD_DID_FIRST <= did && did <= OBD_DID_LAST {
        Some((did - OBD_DID_FIRST) as u8)
    } else {
        None
    }
}

/// How many data bytes the formula of a supported PID needs.
pub open spec fn bytes_needed(pid: u8) -> Option<nat> {
    match pid {
        0x04 => Some(1),
        0x05 => Some(1),
        0x0C => Some(2),
        0x0D => Some(1),
        0x0E => Some(1),
        0x0F => Some(1),
        0x10 => Some(2),
        0x11 => Some(1),
        0x23 => Some(2),
        0x46 => Some(1),
        _ => None,
    }
}

/// The name of a supported PID.
pub open spec fn pid_name(pid: u8) -> &'static str {
    match pid {
        0x04 => "Calculated engine load",
        0x05 => "Engine coolant temperature",
        0x0C => "Engine RPM",
        0x0D => "Vehicle speed",
        0x0E => "Timing advance",
        0x0F => "Intake air temperature",
        0x10 => "MAF air flow rate",
        0x11 => "Throttle position",
        0x23 => "Fuel rail gauge pressure",
        _ => "Ambient air temperature",
    }
}

/// The unit of a supported PID.
pub open spec fn pid_unit(pid: u8) -> &'static str {
    match pid {
        0x04 => "%",
        0x0C => "rpm",
        0x0D => "km/h",
        0x0E => "\u{B0}",
        0x10 => "g/s",
        0x11 => "%",
        0x23 => "kPa",
        _ => "\u{B0}C",
    }
}

/// The value of a supported PID, from its first data bytes `a` and `b`: load and throttle in
/// percent of 255, temperatures less 40, speed as it is, advance in half degrees less 64, and
/// the two-byte counts in quarters (rpm), hundredths (g/s) and tens (kPa).
pub open spec fn pid_value(pid: u8, a: int, b: int) -> Ratio {
    match pid {
        0x04 => Ratio { numerator: (a * 100) as i64, denominator: 255 },
        0x11 => Ratio { numerator: (a * 100) as i64, denominator: 255 },
        0x0C => Ratio { numerator: (256 * a + b) as i64, denominator: 4 },
        0x0D => Ratio { numerator: a as i64, denominator: 1 },
        0x0E => Ratio { numerator: (a - 128) as i64, denominator: 2 },
        0x10 => Ratio { numerator: (256 * a + b) as i64, denominator: 100 },
        0x23 => Ratio { numerator: ((256 * a + b) * 10) as i64, denominator: 1 },
        _ => Ratio { numerator: (a - 40) as i64, denominator: 1 },
    }
}

/// The name, unit and data length of a supported PID.
fn definition(pid: u8) -> (r: Option<(&'static str, &'static str, usize)>)
    ensures
        match r {
            Some(d) => bytes_needed(pid) == Some(d.2 as nat) && d.0 == pid_name(pid) && d.1
                == pid_unit(pid),
            None => bytes_needed(pid) is None,
        },
{
    match pid {
        0x04 => Some(("Calculated engine load", "%", 1)),
        0x05 => Some(("Engine coolant temperature", "\u{B0}C", 1)),
        0x0C => Some(("Engine RPM", "rpm", 2)),
        0x0D => Some(("Vehicle speed", "km/h", 1)),
        0x0E => Some(("Timing advance", "\u{B0}", 1)),
        0x0F => Some(("Intake air temperature", "\u{B0}C", 1)),
        0x10 => Some(("MAF air flow rate", "g/s", 2)),
        0x11 => Some(("Throttle position", "%", 1)),
        0x23 => Some(("Fuel rail gauge pressure", "kPa", 2)),
        0x46 => Some(("Ambient air temperature", "\u{B0}C", 1)),
        _ => None,
    }
}

/// Scale a standard J1979 PID's raw data bytes to an engineering value.
///
/// `None` when `pid` is not a supported standard PID, or when `data` is shorter than that PID
/// needs; the caller then keeps the raw bytes.
pub fn scale(pid: u8, data: &[u8]) -> (r: Option<ScaledPid>)
    ensures
        match r {
            Some(s) => bytes_needed(pid) is Some && data@.len() >= bytes_needed(pid)->0 && s.name
                == pid_name(pid) && s.unit == pid_unit(pid) && s.value == pid_value(
                pid,
                data@[0] as int,
                data@[1] as int,
            ),
            None => bytes_needed(pid) is None || data@.len() < bytes_needed(pid)->0,
        },
{
    let (name, unit, bytes) = match definition(pid) {
        Some(d) => d,
        None => {
            return None;
        },
    };
    if data.len() < bytes {
        return None;
    }
    let a: i64 = data[0] as i64;
    let b: i64 = if bytes == 2 {
        data[1] as i64
    } else {
        0
    };
    let value = match pid {
        0x04 => Ratio { numerator: a * 100, denominator: 255 },
        0x11 => Ratio { numerator: a * 100, denominator: 255 },
        0x0C => Ratio { numerator: 256 * a + b, denominator: 4 },
        0x0D => Ratio { numerator: a, denominator: 1 },
        0x0E => Ratio { numerator: a - 128, denominator: 2 },
        0x10 => Ratio { numerator: 256 * a + b, denominator: 100 },
        0x23 => Ratio { numerator: (256 * a + b) * 10, denominator: 1 },
        _ => Ratio { numerator: a - 40, denominator: 1 },
    };
    Some(ScaledPid { name, value, unit })
}

/// Whether a value is this many of those parts.
pub open spec fn equals(value: Ratio, parts: int, per_unit: int) -> bool {
    value.denominator > 0 && value.numerator * per_unit == parts * value.denominator
}

/// Every supported signal is scaled by its public formula, whatever its bytes: load and throttle
/// are percent of 255, the three temperatures are degrees above minus forty, the engine speed is
/// quarters, the road speed is whole, the advance is half degrees above minus sixty-four, the air
/// flow is hundredths and the rail pressure tens.
pub proof fn law_every_signal_has_its_formula(a: u8, b: u8)
    ensures
        equals(pid_value(0x04, a as int, b as int), 100 * a, 255),
        equals(pid_value(0x11, a as int, b as int), 100 * a, 255),
        equals(pid_value(0x05, a as int, b as int), a - 40, 1),
        equals(pid_value(0x0F, a as int, b as int), a - 40, 1),
        equals(pid_value(0x46, a as int, b as int), a - 40, 1),
        equals(pid_value(0x0C, a as int, b as int), 256 * a + b, 4),
        equals(pid_value(0x0D, a as int, b as int), a as int, 1),
        equals(pid_value(0x0E, a as int, b as int), a - 128, 2),
        equals(pid_value(0x10, a as int, b as int), 256 * a + b, 100),
        equals(pid_value(0x23, a as int, b as int), (256 * a + b) * 10, 1),
{
}

/// Ten signals are supported, no others; the counts take two bytes and the rest one.
pub proof fn law_ten_signals_are_supported(pid: u8)
    ensures
        bytes_needed(pid) is Some <==> pid == 0x04 || pid == 0x05 || pid == 0x0C || pid == 0x0D
            || pid == 0x0E || pid == 0x0F || pid == 0x10 || pid == 0x11 || pid == 0x23 || pid
            == 0x46,
        bytes_needed(pid) == Some(2nat) <==> pid == 0x0C || pid == 0x10 || pid == 0x23,
        bytes_needed(pid) is Some ==> bytes_needed(pid) == Some(1nat) || bytes_needed(pid)
            == Some(2nat),
{
}

/// Every supported signal has its own name and the unit that its formula gives.
pub proof fn law_every_signal_has_its_name_and_unit()
    ensures
        pid_name(0x04) == "Calculated engine load" && pid_unit(0x04) == "%",
        pid_name(0x05) == "Engine coolant temperature" && pid_unit(0x05) == "\u{B0}C",
        pid_name(0x0C) == "Engine RPM" && pid_unit(0x0C) == "rpm",
        pid_name(0x0D) == "Vehicle speed" && pid_unit(0x0D) == "km/h",
        pid_name(0x0E) == "Timing advance" && pid_unit(0x0E) == "\u{B0}",
        pid_name(0x0F) == "Intake air temperature" && pid_unit(0x0F) == "\u{B0}C",
        pid_name(0x10) == "MAF air flow rate" && pid_unit(0x10) == "g/s",
        pid_name(0x11) == "Throttle position" && pid_unit(0x11) == "%",
        pid_name(0x23) == "Fuel rail gauge pressure" && pid_unit(0x23) == "kPa",
        pid_name(0x46) == "Ambient air temperature" && pid_unit(0x46) == "\u{B0}C",
{
}

} // verus!
