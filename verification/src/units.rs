//! The units that temperature and pressure series declare.
use vstd::prelude::*;

use crate::text::{lowercase, lowercased, same, trim, trimmed};

verus! {

#[derive(Clone, Copy, PartialEq, Eq, Structural, Debug)]
pub enum TempUnit {
    Celsius,
    Kelvin,
    Fahrenheit,
}

/// A declared unit, without the space around it and in lower case.
pub open spec fn plain(unit: Seq<char>) -> Seq<char> {
    lowercased(trimmed(unit))
}

impl TempUnit {
    /// Every unit a pane offers.
    pub fn all() -> (r: [TempUnit; 3])
        ensures
            r@ == seq![TempUnit::Celsius, TempUnit::Kelvin, TempUnit::Fahrenheit],
    {
        let r = [TempUnit::Celsius, TempUnit::Kelvin, TempUnit::Fahrenheit];
        assert(r@ =~= seq![TempUnit::Celsius, TempUnit::Kelvin, TempUnit::Fahrenheit]);
        r
    }

    pub fn label(self) -> (r: &'static str)
        ensures
            r@ == match self {
                TempUnit::Celsius => "°C"@,
                TempUnit::Kelvin => "K"@,
                TempUnit::Fahrenheit => "°F"@,
            },
    {
        match self {
            TempUnit::Celsius => "°C",
            TempUnit::Kelvin => "K",
            TempUnit::Fahrenheit => "°F",
        }
    }

    /// How a reading becomes kelvin: the reading that the scale starts at, in hundredths, how many
    /// units make a kelvin, in tenths, and the kelvin that the scale starts at, in hundredths.
    pub open spec fn scale_spec(self) -> (int, int, int) {
        match self {
            TempUnit::Celsius => (0, 10, 27315),
            TempUnit::Kelvin => (0, 10, 0),
            TempUnit::Fahrenheit => (3200, 18, 27315),
        }
    }

    /// How a reading becomes kelvin: the reading that the scale starts at, in hundredths, how many
    /// units make a kelvin, in tenths, and the kelvin that the scale starts at, in hundredths.
    pub fn scale(self) -> (r: (u16, u16, u16))
        ensures
            (r.0 as int, r.1 as int, r.2 as int) == self.scale_spec(),
    {
        match self {
            TempUnit::Celsius => (0, 10, 27315),
            TempUnit::Kelvin => (0, 10, 0),
            TempUnit::Fahrenheit => (3200, 18, 27315),
        }
    }

    /// The kelvin of a reading that is a number of parts of the unit, in as many parts of an
    /// eighteen-hundredth of a kelvin.
    pub open spec fn kelvin(self, reading: int, parts: int) -> int {
        let (zero, per, above) = self.scale_spec();
        (100 * reading - zero * parts) * (180int / per) + 18 * above * parts
    }

    /// The reading of a kelvin, the other way about, in hundredths of a part.
    pub open spec fn reading(self, kelvin: int, parts: int) -> int {
        let (zero, per, above) = self.scale_spec();
        (kelvin - 18 * above * parts) / (180int / per) + zero * parts
    }

    /// The unit that a name in lower case stands for.
    pub open spec fn named(name: Seq<char>) -> Option<TempUnit> {
        if name == "°c"@ || name == "degc"@ || name == "c"@ || name == "celsius"@ {
            Some(TempUnit::Celsius)
        } else if name == "k"@ || name == "kelvin"@ {
            Some(TempUnit::Kelvin)
        } else if name == "°f"@ || name == "degf"@ || name == "f"@ {
            Some(TempUnit::Fahrenheit)
        } else {
            None
        }
    }

    /// The unit that a name in lower case stands for.
    pub fn from_name(name: &str) -> (r: Option<TempUnit>)
        ensures
            r == Self::named(name@),
    {
        if same(name, "°c") || same(name, "degc") || same(name, "c") || same(name, "celsius") {
            Some(TempUnit::Celsius)
        } else if same(name, "k") || same(name, "kelvin") {
            Some(TempUnit::Kelvin)
        } else if same(name, "°f") || same(name, "degf") || same(name, "f") {
            Some(TempUnit::Fahrenheit)
        } else {
            None
        }
    }

    /// What [`TempUnit::from_series_unit`] returns.
    pub open spec fn declared(unit: Option<Seq<char>>) -> Option<TempUnit> {
        match unit {
            Some(u) => Self::named(plain(u)),
            None => None,
        }
    }

    /// The unit a series declares, when it is one we know.
    pub fn from_series_unit(unit: Option<&str>) -> (r: Option<TempUnit>)
        ensures
            r == Self::declared(
                match unit {
                    Some(u) => Some(u@),
                    None => None,
                },
            ),
    {
        match unit {
            Some(u) => Self::from_name(lowercase(trim(u).as_str()).as_str()),
            None => None,
        }
    }
}

/// A reading survives the trip to kelvin and back.
pub proof fn a_reading_survives_the_trip(unit: TempUnit, reading: int, parts: int)
    ensures
        unit.reading(unit.kelvin(reading, parts), parts) == 100 * reading,
{
    let (zero, per, above) = unit.scale_spec();
    let gone = 18 * above * parts;
    assert(unit.kelvin(reading, parts) - gone == (100 * reading - zero * parts) * (180int / per));
    let d = 180int / per;
    assert(d == 18 || d == 10);
    let v = 100 * reading - zero * parts;
    assert(v * d / d == v) by (nonlinear_arith)
        requires
            d == 18 || d == 10,
    ;
}

/// Where a unit's scale starts applies to a reading, never to a difference.
pub proof fn a_span_has_no_zero(unit: TempUnit, a: int, b: int, parts: int)
    ensures
        unit.kelvin(a, parts) - unit.kelvin(b, parts) == (a - b) * 100 * (180int
            / unit.scale_spec().1),
{
    let (zero, per, above) = unit.scale_spec();
    let d = 180int / per;
    let z = zero * parts;
    assert((100 * a - z) * d - (100 * b - z) * d == (a - b) * 100 * d) by (nonlinear_arith);
}

#[derive(Clone, Copy, PartialEq, Eq, Structural, Debug)]
pub enum PressureUnit {
    Bar,
    Kpa,
    Mpa,
    Psi,
    Pa,
}

impl PressureUnit {
    /// Every unit a pane offers.
    pub fn all() -> (r: [PressureUnit; 5])
        ensures
            r@ == seq![
                PressureUnit::Bar,
                PressureUnit::Kpa,
                PressureUnit::Mpa,
                PressureUnit::Psi,
                PressureUnit::Pa,
            ],
    {
        let r = [
            PressureUnit::Bar,
            PressureUnit::Kpa,
            PressureUnit::Mpa,
            PressureUnit::Psi,
            PressureUnit::Pa,
        ];
        assert(r@ =~= seq![
            PressureUnit::Bar,
            PressureUnit::Kpa,
            PressureUnit::Mpa,
            PressureUnit::Psi,
            PressureUnit::Pa,
        ]);
        r
    }

    pub fn label(self) -> (r: &'static str)
        ensures
            r@ == match self {
                PressureUnit::Bar => "bar"@,
                PressureUnit::Kpa => "kPa"@,
                PressureUnit::Mpa => "MPa"@,
                PressureUnit::Psi => "psi"@,
                PressureUnit::Pa => "Pa"@,
            },
    {
        match self {
            PressureUnit::Bar => "bar",
            PressureUnit::Kpa => "kPa",
            PressureUnit::Mpa => "MPa",
            PressureUnit::Psi => "psi",
            PressureUnit::Pa => "Pa",
        }
    }

    /// How much a unit is, in quadrillionths of a kilopascal.
    pub fn kpa_per_unit(self) -> (r: u64)
        ensures
            r == match self {
                PressureUnit::Bar => 100_000_000_000_000_000u64,
                PressureUnit::Kpa => 1_000_000_000_000_000u64,
                PressureUnit::Mpa => 1_000_000_000_000_000_000u64,
                PressureUnit::Psi => 6_894_757_293_168_361u64,
                PressureUnit::Pa => 1_000_000_000_000u64,
            },
    {
        match self {
            PressureUnit::Bar => 100_000_000_000_000_000,
            PressureUnit::Kpa => 1_000_000_000_000_000,
            PressureUnit::Mpa => 1_000_000_000_000_000_000,
            PressureUnit::Psi => 6_894_757_293_168_361,
            PressureUnit::Pa => 1_000_000_000_000,
        }
    }

    /// The unit that a name in lower case stands for.
    pub open spec fn named(name: Seq<char>) -> Option<PressureUnit> {
        if name == "bar"@ {
            Some(PressureUnit::Bar)
        } else if name == "kpa"@ {
            Some(PressureUnit::Kpa)
        } else if name == "mpa"@ {
            Some(PressureUnit::Mpa)
        } else if name == "psi"@ || name == "psia"@ || name == "psig"@ {
            Some(PressureUnit::Psi)
        } else if name == "pa"@ {
            Some(PressureUnit::Pa)
        } else {
            None
        }
    }

    /// The unit that a name in lower case stands for.
    pub fn from_name(name: &str) -> (r: Option<PressureUnit>)
        ensures
            r == Self::named(name@),
    {
        if same(name, "bar") {
            Some(PressureUnit::Bar)
        } else if same(name, "kpa") {
            Some(PressureUnit::Kpa)
        } else if same(name, "mpa") {
            Some(PressureUnit::Mpa)
        } else if same(name, "psi") || same(name, "psia") || same(name, "psig") {
            Some(PressureUnit::Psi)
        } else if same(name, "pa") {
            Some(PressureUnit::Pa)
        } else {
            None
        }
    }

    /// What [`PressureUnit::from_series_unit`] returns.
    pub open spec fn declared(unit: Option<Seq<char>>) -> Option<PressureUnit> {
        match unit {
            Some(u) => Self::named(plain(u)),
            None => None,
        }
    }

    /// The unit a series declares, when it is one we know.
    pub fn from_series_unit(unit: Option<&str>) -> (r: Option<PressureUnit>)
        ensures
            r == Self::declared(
                match unit {
                    Some(u) => Some(u@),
                    None => None,
                },
            ),
    {
        match unit {
            Some(u) => Self::from_name(lowercase(trim(u).as_str()).as_str()),
            None => None,
        }
    }
}

} // verus!
