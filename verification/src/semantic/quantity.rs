//! Physical quantities a caller can ask for by meaning, not by measurement name.
//!
//! A precondition needs "the battery voltage", but the catalog offers per-variant names whose
//! units differ. Each quantity maps to a curated candidate list, and the unit is normalised from
//! the catalog's own unit column, never from the name and never by guessing.
use vstd::prelude::*;
use crate::ratio::Ratio;
use crate::text::{same_text, trim_text};

verus! {

/// A physical quantity, resolvable to a measurement on a given ECU variant.
#[derive(Debug, Clone, Copy, PartialEq, Eq, Structural)]
pub enum Quantity {
    /// Engine speed, canonically `1/min`.
    EngineSpeed,
    /// Battery voltage, canonically `V`.
    BatteryVoltage,
    /// Coolant temperature, canonically `°C`.
    CoolantTemp,
    /// Road speed, canonically `km/h`.
    RoadSpeed,
}

/// The result names that genuinely carry a quantity, best first.
pub open spec fn candidates_of(q: Quantity) -> Seq<&'static str> {
    match q {
        Quantity::EngineSpeed => seq![
            "STAT_MOTORDREHZAHL_WERT",
            "STAT_MOTORDREHZAHL",
            "STAT_MOTORDREHZAHL_N32_WERT",
        ],
        Quantity::BatteryVoltage => seq![
            "STAT_UBATT_WERT",
            "STAT_UBATT",
            "STAT_BATTERIESPANNUNG_IBS_WERT",
            "STAT_UBATT_IBS_WERT",
        ],
        Quantity::CoolantTemp => seq![
            "STAT_KUEHLMITTELTEMPERATUR_WERT",
            "STAT_KUEHLMITTELTEMPERATUR",
        ],
        Quantity::RoadSpeed => seq![
            "STAT_GESCHWINDIGKEIT_WERT",
            "STAT_FAHRZEUGGESCHWINDIGKEIT_WERT",
        ],
    }
}

/// The unit that a quantity's values are expressed in once normalised.
pub open spec fn canonical_unit_of(q: Quantity) -> &'static str {
    match q {
        Quantity::EngineSpeed => "1/min",
        Quantity::BatteryVoltage => "V",
        Quantity::CoolantTemp => "\u{B0}C",
        Quantity::RoadSpeed => "km/h",
    }
}

/// The factor from a value in the (trimmed) catalog unit to the canonical unit.
pub open spec fn factor_of(q: Quantity, unit: Seq<char>) -> Option<Ratio> {
    let one = Ratio { numerator: 1, denominator: 1 };
    match q {
        Quantity::EngineSpeed => if unit == "1/min"@ || unit == "rpm"@ {
            Some(one)
        } else {
            None
        },
        Quantity::BatteryVoltage => if unit == "V"@ {
            Some(one)
        } else if unit == "mV"@ {
            Some(Ratio { numerator: 1, denominator: 1000 })
        } else {
            None
        },
        Quantity::CoolantTemp => if unit == "\u{B0}C"@ || unit == "C"@ || unit == "degC"@ {
            Some(one)
        } else {
            None
        },
        Quantity::RoadSpeed => if unit == "km/h"@ {
            Some(one)
        } else {
            None
        },
    }
}

/// The factor for an optional catalog unit; an absent unit has none.
pub open spec fn unit_factor_of(q: Quantity, unit: Option<Seq<char>>) -> Option<Ratio> {
    match unit {
        Some(u) => factor_of(q, crate::text::trimmed(u)),
        None => None,
    }
}

/// Every canonical unit is accepted by its owner, with factor one, and by no other quantity.
pub proof fn law_canonical_units_belong_to_their_owner(owner: Quantity, other: Quantity)
    ensures
        factor_of(owner, canonical_unit_of(owner)@) == Some(
            Ratio { numerator: 1i64, denominator: 1i64 },
        ),
        other != owner ==> factor_of(other, canonical_unit_of(owner)@) is None,
{
    reveal_strlit("1/min");
    reveal_strlit("rpm");
    reveal_strlit("V");
    reveal_strlit("mV");
    reveal_strlit("\u{B0}C");
    reveal_strlit("C");
    reveal_strlit("degC");
    reveal_strlit("km/h");
    let unit = canonical_unit_of(owner)@;
    assert(unit != "rpm"@ && unit != "mV"@ && unit != "C"@ && unit != "degC"@) by {
        assert(unit[0] != 'r' && unit[0] != 'm' && unit[0] != 'C' && unit[0] != 'd');
    }
    assert("1/min"@[0] == '1' && "V"@[0] == 'V' && "\u{B0}C"@[0] == '\u{B0}' && "km/h"@[0] == 'k');
}

impl Quantity {
    /// Every quantity.
    pub fn all() -> (r: [Quantity; 4])
        ensures
            r@ == seq![
                Quantity::EngineSpeed,
                Quantity::BatteryVoltage,
                Quantity::CoolantTemp,
                Quantity::RoadSpeed,
            ],
    {
        let all = [
            Quantity::EngineSpeed,
            Quantity::BatteryVoltage,
            Quantity::CoolantTemp,
            Quantity::RoadSpeed,
        ];
        assert(all@ =~= seq![
            Quantity::EngineSpeed,
            Quantity::BatteryVoltage,
            Quantity::CoolantTemp,
            Quantity::RoadSpeed,
        ]);
        all
    }

    /// The EDIABAS result names that genuinely carry this quantity, best first.
    ///
    /// Curated deliberately: a name pattern would also match a pedal sensor, and silently
    /// reading a pedal as a battery would defeat the check it guards.
    pub fn candidates(self) -> (r: Vec<&'static str>)
        ensures
            r@ == candidates_of(self),
    {
        let out: Vec<&'static str> = match self {
            Quantity::EngineSpeed => vec![
                "STAT_MOTORDREHZAHL_WERT",
                "STAT_MOTORDREHZAHL",
                "STAT_MOTORDREHZAHL_N32_WERT",
            ],
            Quantity::BatteryVoltage => vec![
                "STAT_UBATT_WERT",
                "STAT_UBATT",
                "STAT_BATTERIESPANNUNG_IBS_WERT",
                "STAT_UBATT_IBS_WERT",
            ],
            Quantity::CoolantTemp => vec![
                "STAT_KUEHLMITTELTEMPERATUR_WERT",
                "STAT_KUEHLMITTELTEMPERATUR",
            ],
            Quantity::RoadSpeed => vec![
                "STAT_GESCHWINDIGKEIT_WERT",
                "STAT_FAHRZEUGGESCHWINDIGKEIT_WERT",
            ],
        };
        assert(out@ =~= candidates_of(self));
        out
    }

    /// The unit this quantity's values are expressed in once normalised.
    pub fn canonical_unit(self) -> (r: &'static str)
        ensures
            r == canonical_unit_of(self),
    {
        match self {
            Quantity::EngineSpeed => "1/min",
            Quantity::BatteryVoltage => "V",
            Quantity::CoolantTemp => "\u{B0}C",
            Quantity::RoadSpeed => "km/h",
        }
    }

    /// The factor converting a value in `catalog_unit` to [`Self::canonical_unit`].
    ///
    /// `None` means not normalisable: an absent, empty, or unrecognised unit, or a unit
    /// belonging to another quantity. Assuming a unit would bind the wrong sensor silently.
    pub fn unit_factor(self, catalog_unit: Option<&str>) -> (r: Option<Ratio>)
        ensures
            r == unit_factor_of(
                self,
                match catalog_unit {
                    Some(u) => Some(u@),
                    None => None,
                },
            ),
    {
        let unit = match catalog_unit {
            Some(u) => trim_text(u),
            None => {
                return None;
            },
        };
        let u = unit.as_str();
        let one = Ratio { numerator: 1, denominator: 1 };
        match self {
            Quantity::EngineSpeed => if same_text(u, "1/min") || same_text(u, "rpm") {
                Some(one)
            } else {
                None
            },
            Quantity::BatteryVoltage => if same_text(u, "V") {
                Some(one)
            } else if same_text(u, "mV") {
                Some(Ratio { numerator: 1, denominator: 1000 })
            } else {
                None
            },
            Quantity::CoolantTemp => if same_text(u, "\u{B0}C") || same_text(u, "C") || same_text(
                u,
                "degC",
            ) {
                Some(one)
            } else {
                None
            },
            Quantity::RoadSpeed => if same_text(u, "km/h") {
                Some(one)
            } else {
                None
            },
        }
    }
}

/// A unit is accepted by the quantity it is a unit of, whatever white space stands round it, with
/// the factor to the canonical unit: a thousandth for millivolts and one for all others. An absent
/// or unknown unit, or one of another quantity, is not.
pub proof fn law_a_unit_is_normalised_by_its_quantity_only(unit: Seq<char>)
    ensures
        ({
            let t = crate::text::trimmed(unit);
            let factor = |q: Quantity| unit_factor_of(q, Some(unit));
            &&& (factor(Quantity::EngineSpeed) is Some <==> t == "1/min"@ || t == "rpm"@)
            &&& (factor(Quantity::BatteryVoltage) is Some <==> t == "V"@ || t == "mV"@)
            &&& (factor(Quantity::CoolantTemp) is Some <==> t == "\u{B0}C"@ || t == "C"@ || t
                == "degC"@)
            &&& (factor(Quantity::RoadSpeed) is Some <==> t == "km/h"@)
            &&& (t == "mV"@ ==> (factor(Quantity::BatteryVoltage) matches Some(f) && f.numerator
                * 1000 == f.denominator && f.denominator > 0))
            &&& forall|q: Quantity|
                t != "mV"@ ==> (#[trigger] factor(q) matches Some(f) ==> f.numerator
                    == f.denominator && f.denominator > 0)
        }),
        forall|q: Quantity| (#[trigger] unit_factor_of(q, None)) is None,
{
    reveal_strlit("V");
    reveal_strlit("mV");
    assert("V"@.len() == 1 && "mV"@.len() == 2);
}

/// The names that carry a quantity, best first, and its canonical unit.
pub proof fn law_each_quantity_has_its_own_names()
    ensures
        candidates_of(Quantity::EngineSpeed) == seq![
            "STAT_MOTORDREHZAHL_WERT",
            "STAT_MOTORDREHZAHL",
            "STAT_MOTORDREHZAHL_N32_WERT",
        ],
        candidates_of(Quantity::BatteryVoltage) == seq![
            "STAT_UBATT_WERT",
            "STAT_UBATT",
            "STAT_BATTERIESPANNUNG_IBS_WERT",
            "STAT_UBATT_IBS_WERT",
        ],
        candidates_of(Quantity::CoolantTemp) == seq![
            "STAT_KUEHLMITTELTEMPERATUR_WERT",
            "STAT_KUEHLMITTELTEMPERATUR",
        ],
        candidates_of(Quantity::RoadSpeed) == seq![
            "STAT_GESCHWINDIGKEIT_WERT",
            "STAT_FAHRZEUGGESCHWINDIGKEIT_WERT",
        ],
        canonical_unit_of(Quantity::EngineSpeed) == "1/min",
        canonical_unit_of(Quantity::BatteryVoltage) == "V",
        canonical_unit_of(Quantity::CoolantTemp) == "\u{B0}C",
        canonical_unit_of(Quantity::RoadSpeed) == "km/h",
{
}

} // verus!
