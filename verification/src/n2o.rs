//! Nitrous oxide saturation (vapour pressure) data, and the phase it implies for a measured
//! temperature and pressure.
//!
//! [`SATURATION`] is the saturation table of the NIST Chemistry WebBook (SRD 69) for nitrous
//! oxide, which evaluates the Lemmon & Span (2006) short fundamental equation of state, read off
//! at 1 K steps from the triple point to 309 K and closed with the critical point. No curve fit
//! sits between the reference data and the plot.
//!
//! Everything here is absolute pressure. A gauge reading has to have ambient added to it before
//! it means anything on this curve. Temperatures are in millikelvin and pressures in tenths of a
//! pascal, which hold the table's last digit.
use vstd::prelude::*;

use crate::double::Double;

verus! {

/// Triple point: below this there is no liquid, and the table stops.
pub const TRIPLE_T: i64 = 182_330;

pub const TRIPLE_P: i64 = 878_373;

/// Critical point: above this there is no vapour/liquid boundary at all.
pub const CRITICAL_T: i64 = 309_520;

pub const CRITICAL_P: i64 = 72_450_000;

/// How many rows the table has.
pub const ROWS: usize = 129;

/// Saturation pressure against temperature, from the triple point to the critical point.
/// Strictly increasing in both columns, which is what lets both lookups below bisect it.
pub const SATURATION: [(i64, i64); ROWS] = [
    (182_330, 878_373),
    (183_330, 933_812),
    (184_330, 991_986),
    (185_330, 1_052_990),
    (186_330, 1_116_920),
    (187_330, 1_183_870),
    (188_330, 1_253_930),
    (189_330, 1_327_220),
    (190_330, 1_403_820),
    (191_330, 1_483_840),
    (192_330, 1_567_390),
    (193_330, 1_654_560),
    (194_330, 1_745_470),
    (195_330, 1_840_210),
    (196_330, 1_938_910),
    (197_330, 2_041_660),
    (198_330, 2_148_580),
    (199_330, 2_259_780),
    (200_330, 2_375_370),
    (201_330, 2_495_470),
    (202_330, 2_620_200),
    (203_330, 2_749_650),
    (204_330, 2_883_970),
    (205_330, 3_023_250),
    (206_330, 3_167_630),
    (207_330, 3_317_220),
    (208_330, 3_472_130),
    (209_330, 3_632_510),
    (210_330, 3_798_460),
    (211_330, 3_970_110),
    (212_330, 4_147_580),
    (213_330, 4_331_000),
    (214_330, 4_520_500),
    (215_330, 4_716_200),
    (216_330, 4_918_220),
    (217_330, 5_126_710),
    (218_330, 5_341_780),
    (219_330, 5_563_560),
    (220_330, 5_792_190),
    (221_330, 6_027_800),
    (222_330, 6_270_510),
    (223_330, 6_520_470),
    (224_330, 6_777_800),
    (225_330, 7_042_640),
    (226_330, 7_315_110),
    (227_330, 7_595_370),
    (228_330, 7_883_530),
    (229_330, 8_179_750),
    (230_330, 8_484_140),
    (231_330, 8_796_860),
    (232_330, 9_118_040),
    (233_330, 9_447_820),
    (234_330, 9_786_330),
    (235_330, 10_133_700),
    (236_330, 10_490_100),
    (237_330, 10_855_700),
    (238_330, 11_230_600),
    (239_330, 11_614_900),
    (240_330, 12_008_700),
    (241_330, 12_412_400),
    (242_330, 12_825_900),
    (243_330, 13_249_400),
    (244_330, 13_683_000),
    (245_330, 14_127_000),
    (246_330, 14_581_400),
    (247_000, 14_891_800),
    (248_000, 15_364_000),
    (249_000, 15_847_100),
    (250_000, 16_341_200),
    (251_000, 16_846_400),
    (252_000, 17_362_900),
    (253_000, 17_890_900),
    (254_000, 18_430_400),
    (255_000, 18_981_800),
    (256_000, 19_545_000),
    (257_000, 20_120_400),
    (258_000, 20_707_900),
    (259_000, 21_307_900),
    (260_000, 21_920_400),
    (261_000, 22_545_600),
    (262_000, 23_183_700),
    (263_000, 23_834_800),
    (264_000, 24_499_200),
    (265_000, 25_176_900),
    (266_000, 25_868_100),
    (267_000, 26_573_100),
    (268_000, 27_292_000),
    (269_000, 28_024_900),
    (270_000, 28_772_100),
    (271_000, 29_533_600),
    (272_000, 30_309_800),
    (273_000, 31_100_800),
    (274_000, 31_906_800),
    (275_000, 32_728_000),
    (276_000, 33_564_500),
    (277_000, 34_416_600),
    (278_000, 35_284_400),
    (279_000, 36_168_300),
    (280_000, 37_068_400),
    (281_000, 37_984_900),
    (282_000, 38_918_000),
    (283_000, 39_868_000),
    (284_000, 40_835_100),
    (285_000, 41_819_600),
    (286_000, 42_821_700),
    (287_000, 43_841_700),
    (288_000, 44_879_800),
    (289_000, 45_936_400),
    (290_000, 47_011_700),
    (291_000, 48_106_100),
    (292_000, 49_219_800),
    (293_000, 50_353_300),
    (294_000, 51_506_800),
    (295_000, 52_680_900),
    (296_000, 53_875_800),
    (297_000, 55_092_100),
    (298_000, 56_330_300),
    (299_000, 57_590_800),
    (300_000, 58_874_300),
    (301_000, 60_181_400),
    (302_000, 61_512_900),
    (303_000, 62_869_600),
    (304_000, 64_252_600),
    (305_000, 65_663_100),
    (306_000, 67_102_700),
    (307_000, 68_573_400),
    (308_000, 70_078_400),
    (309_000, 71_623_300),
    (309_520, 72_450_000),
];

/// Whether both columns go up from row `from` on.
spec fn goes_up(from: int) -> bool
    decreases 128 - from,
{
    from >= 128 || (SATURATION@[from].0 < SATURATION@[from + 1].0 && SATURATION@[from].1
        < SATURATION@[from + 1].1 && goes_up(from + 1))
}

proof fn lemma_goes_up()
    ensures
        goes_up(0),
{
    reveal_with_fuel(goes_up, 66);
    assert(goes_up(64));
    assert(goes_up(0));
}

proof fn lemma_rows(from: int, i: int, j: int)
    requires
        0 <= from <= i < j <= 128,
        goes_up(from),
    ensures
        SATURATION@[i].0 < SATURATION@[j].0,
        SATURATION@[i].1 < SATURATION@[j].1,
    decreases 128 - from, j - i,
{
    if i > from {
        lemma_rows(from + 1, i, j);
    } else if j > i + 1 {
        lemma_rows(from + 1, i + 1, j);
    }
}

/// The table is strictly increasing in both columns.
pub proof fn the_table_is_strictly_increasing(i: int, j: int)
    requires
        0 <= i < j < 129,
    ensures
        SATURATION@[i].0 < SATURATION@[j].0,
        SATURATION@[i].1 < SATURATION@[j].1,
{
    lemma_goes_up();
    lemma_rows(0, i, j);
}

/// The table runs from the triple point to the critical point.
pub proof fn the_table_spans_the_two_phase_range()
    ensures
        SATURATION@[0] == (TRIPLE_T, TRIPLE_P),
        SATURATION@[128] == (CRITICAL_T, CRITICAL_P),
{
}

/// A row's temperature or pressure, in millionths of what the table counts in.
pub open spec fn row_key(i: int, by_pressure: bool) -> int {
    1_000_000 * (if by_pressure {
        SATURATION@[i].1
    } else {
        SATURATION@[i].0
    })
}

/// Whether row `i` closes the interval that a value lies in.
pub open spec fn closes(i: int, value: int, by_pressure: bool) -> bool {
    &&& 1 <= i <= 128
    &&& (i == 1 || row_key(i - 1, by_pressure) < value)
    &&& value <= row_key(i, by_pressure)
    &&& row_key(0, by_pressure) <= value
}

/// The row that closes the interval a value lies in: the table's neighbours to interpolate
/// between are it and the one before. `None` outside the table. The value is in millionths of
/// what the table counts in.
pub fn upper_row(value: i64, by_pressure: bool) -> (r: Option<usize>)
    ensures
        match r {
            Some(i) => closes(i as int, value as int, by_pressure),
            None => value < row_key(0, by_pressure) || value > row_key(128, by_pressure),
        },
{
    let first: i64 = if by_pressure {
        TRIPLE_P
    } else {
        TRIPLE_T
    };
    let last: i64 = if by_pressure {
        CRITICAL_P
    } else {
        CRITICAL_T
    };
    if value < 1_000_000 * first || value > 1_000_000 * last {
        return None;
    }
    // Below `lo` everything is less than the value; from `hi` on nothing is.
    let mut lo: usize = 1;
    let mut hi: usize = 128;
    while lo < hi
        invariant
            1 <= lo <= hi <= 128,
            lo == 1 || row_key(lo - 1, by_pressure) < value,
            value <= row_key(hi as int, by_pressure),
            row_key(0, by_pressure) <= value,
        decreases hi - lo,
    {
        let mid: usize = lo + (hi - lo) / 2;
        let key: i64 = if by_pressure {
            SATURATION[mid].1
        } else {
            SATURATION[mid].0
        };
        proof {
            lemma_row_bounds(mid as int);
        }
        if 1_000_000 * key < value {
            lo = mid + 1;
        } else {
            hi = mid;
        }
    }
    Some(lo)
}

proof fn lemma_row_bounds(i: int)
    requires
        0 <= i <= 128,
    ensures
        0 < SATURATION@[i].0 <= CRITICAL_T,
        0 < SATURATION@[i].1 <= CRITICAL_P,
{
    if i > 0 {
        the_table_is_strictly_increasing(0, i);
    }
    if i < 128 {
        the_table_is_strictly_increasing(i, 128);
    }
}

/// A value lies in one interval only.
pub proof fn the_interval_is_unique(i: int, j: int, value: int, by_pressure: bool)
    requires
        closes(i, value, by_pressure),
        closes(j, value, by_pressure),
    ensures
        i == j,
{
    if i < j - 1 {
        the_table_is_strictly_increasing(i, j - 1);
    } else if j < i - 1 {
        the_table_is_strictly_increasing(j, i - 1);
    }
}

/// A table row's own temperature is found at its own pressure, and the other way round: the two
/// lookups close the same interval at the same row.
pub proof fn the_lookups_agree_on_the_table(i: int)
    requires
        1 <= i <= 128,
    ensures
        closes(i, row_key(i, false), false),
        closes(i, row_key(i, true), true),
{
    the_table_is_strictly_increasing(0, i);
    the_table_is_strictly_increasing(i - 1, i);
}

/// Which side of the saturation curve a measurement sits on.
#[derive(Clone, Copy, PartialEq, Eq, Structural, Debug)]
pub enum Phase {
    /// Pressure above the vapour pressure: liquid, and not boiling.
    Liquid,
    /// On the curve within the tolerance band: liquid and vapour coexisting, which is where a
    /// self-pressurising tank spends its life.
    Saturated,
    /// Pressure below the vapour pressure: dry gas.
    Vapor,
    /// Above the critical temperature, where the distinction stops existing.
    Supercritical,
    /// Below the triple point: solid, and off the end of the data.
    BelowTriple,
}

impl Phase {
    pub fn label(self) -> (r: &'static str)
        ensures
            r@ == match self {
                Phase::Liquid => "liquid (subcooled)"@,
                Phase::Saturated => "saturated (two-phase)"@,
                Phase::Vapor => "vapour (superheated)"@,
                Phase::Supercritical => "supercritical"@,
                Phase::BelowTriple => "below the triple point"@,
            },
    {
        match self {
            Phase::Liquid => "liquid (subcooled)",
            Phase::Saturated => "saturated (two-phase)",
            Phase::Vapor => "vapour (superheated)",
            Phase::Supercritical => "supercritical",
            Phase::BelowTriple => "below the triple point",
        }
    }

    /// Short form for a dense readout.
    pub fn short(self) -> (r: &'static str)
        ensures
            r@ == match self {
                Phase::Liquid => "liquid"@,
                Phase::Saturated => "saturated"@,
                Phase::Vapor => "vapour"@,
                Phase::Supercritical => "supercritical"@,
                Phase::BelowTriple => "solid"@,
            },
    {
        match self {
            Phase::Liquid => "liquid",
            Phase::Saturated => "saturated",
            Phase::Vapor => "vapour",
            Phase::Supercritical => "supercritical",
            Phase::BelowTriple => "solid",
        }
    }
}

/// Whether a number is no further from zero than a limit.
pub open spec fn within(margin: Double, limit: Double) -> bool {
    !margin.nan() && !limit.nan() && margin.magnitude() <= limit.rank_spec()
}

/// The phase of a temperature, in billionths of a kelvin, whose pressure is `margin` above the
/// vapour pressure, where up to `limit` either way counts as being on the curve.
pub open spec fn phase_spec(t: int, margin: Option<(Double, Double)>) -> Phase {
    if t < 1_000_000 * TRIPLE_T {
        Phase::BelowTriple
    } else if t > 1_000_000 * CRITICAL_T {
        Phase::Supercritical
    } else {
        match margin {
            Some((margin, limit)) => if within(margin, limit) {
                Phase::Saturated
            } else if (Double { bits: 0 }).lt(margin) {
                Phase::Liquid
            } else {
                Phase::Vapor
            },
            None => Phase::Supercritical,
        }
    }
}

/// Classifies a measurement: a temperature in billionths of a kelvin, and how far its pressure is
/// above the vapour pressure, beside the half-width of the zone that is called saturated.
///
/// The zone exists because a real tank at equilibrium never reads exactly on the curve: a 1 %
/// pressure transducer and a thermocouple a kelvin out already put the point a bar off it, and
/// calling that "subcooled liquid" would be reading instrument error as physics.
pub fn phase(t: i64, margin: Option<(Double, Double)>) -> (r: Phase)
    ensures
        r == phase_spec(t as int, margin),
{
    if t < 1_000_000 * TRIPLE_T {
        Phase::BelowTriple
    } else if t > 1_000_000 * CRITICAL_T {
        Phase::Supercritical
    } else {
        match margin {
            Some((margin, limit)) => {
                let size: i64 = if margin.rank() >= 0 {
                    margin.rank()
                } else {
                    -margin.rank()
                };
                if !margin.is_nan() && !limit.is_nan() && size <= limit.rank() {
                    Phase::Saturated
                } else if (Double { bits: 0 }).less(margin) {
                    Phase::Liquid
                } else {
                    Phase::Vapor
                }
            },
            None => Phase::Supercritical,
        }
    }
}

/// At one temperature, a higher pressure never reads as a drier phase: going up through the
/// vapour pressure, vapour comes first, then saturated, then liquid.
pub proof fn phases_come_in_order(t: int, low: Double, high: Double, limit: Double)
    requires
        1_000_000 * TRIPLE_T <= t <= 1_000_000 * CRITICAL_T,
        low.lt(high),
        !limit.nan(),
    ensures
        phase_spec(t, Some((low, limit))) == Phase::Liquid ==> phase_spec(t, Some((high, limit)))
            == Phase::Liquid,
        phase_spec(t, Some((high, limit))) == Phase::Vapor ==> phase_spec(t, Some((low, limit)))
            == Phase::Vapor,
{
}

} // verus!
