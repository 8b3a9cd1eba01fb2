//! TPDO mirrors: every process-data frame is a copy of one or more dictionary objects.
use vstd::prelude::*;

use crate::can::iocan::{
    i16x4, nibble, pair_of_bits, signed16, u16x4, unpack_2bit, unpack_nibbles, word, TpdoKind,
};

verus! {

broadcast use vstd::seq_lib::group_seq_properties;

/// Consecutive entries of an array object.
pub open spec fn entries(index: u16, first: int, values: Seq<int>) -> Seq<(u16, u8, i64)> {
    Seq::new(values.len(), |i: int| (index, (first + i) as u8, values[i] as i64))
}

/// The first `n` 16-bit words of a payload.
pub open spec fn words(data: Seq<u8>, n: nat) -> Seq<int> {
    Seq::new(n, |i: int| word(data, i))
}

/// The objects the first `n` outputs of an `HcoState` payload are: switched on, off, or on a
/// pulse width.
pub open spec fn outputs(data: Seq<u8>, n: nat) -> Seq<(u16, u8, i64)>
    decreases n,
{
    if n == 0 {
        Seq::empty()
    } else {
        let w = word(data, n - 1);
        outputs(data, (n - 1) as nat) + if w == 0x8000 {
            seq![(0x2020u16, n as u8, 1i64)]
        } else if w == 0 {
            seq![(0x2020u16, n as u8, 0i64), (0x2021u16, n as u8, 0i64)]
        } else {
            seq![(0x2021u16, n as u8, w as i64)]
        }
    }
}

/// Every dictionary object a TPDO frame carries, as `(index, sub, raw)`.
pub open spec fn tpdo_values(kind: TpdoKind, data: Seq<u8>) -> Seq<(u16, u8, i64)> {
    match kind {
        TpdoKind::ValveCommanded => entries(0x2010, 1, words(data, 4)),
        TpdoKind::ValveTarget => entries(0x2011, 1, words(data, 4)),
        TpdoKind::ValveMeasured => entries(0x2012, 1, words(data, 4)),
        TpdoKind::ValveCurrent => entries(0x2014, 1, words(data, 4)),
        TpdoKind::ValveStatus => entries(0x2013, 1, Seq::new(4, |i: int| nibble(data, i)))
            + entries(0x2022, 1, Seq::new(4, |i: int| nibble(data, i + 4)))
            + seq![(0x2015u16, 0u8, data[4] as i64)],
        TpdoKind::HcoState => outputs(data, 4),
        TpdoKind::RawBus0A => entries(0x2000, 1, words(data, 4)),
        TpdoKind::RawBus0B => entries(0x2000, 5, words(data, 4)),
        TpdoKind::RawBus1A => entries(0x2001, 1, words(data, 4)),
        TpdoKind::RawBus1B => entries(0x2001, 5, words(data, 4)),
        TpdoKind::Sensor0 => entries(0x2004, 1, Seq::new(4, |i: int| signed16(word(data, i)))),
        TpdoKind::Sensor1 => entries(0x2004, 5, Seq::new(4, |i: int| signed16(word(data, i)))),
        TpdoKind::Sensor3 => entries(0x2004, 9, Seq::new(4, |i: int| signed16(word(data, i)))),
        TpdoKind::SensorUnits => entries(0x2005, 1, Seq::new(12, |i: int| pair_of_bits(data, i))),
        // Only the low 16 bits of the counter travel.
        TpdoKind::I2cScan => entries(0x2002, 1, words(data, 2))
            + seq![(0x2003u16, 0u8, word(data, 2) as i64)],
        TpdoKind::RailVoltage => entries(0x2041, 1, words(data, 3)),
        TpdoKind::RailCurrent => entries(0x2040, 1, words(data, 3)),
        TpdoKind::Status => seq![
            (0x2032u16, 0u8, data[0] as i64),
            (0x2031u16, 0u8, if data[1] != 0 { 1i64 } else { 0i64 }),
            (0x2033u16, 0u8, (word(data, 2) + 0x1_0000 * word(data, 3)) as i64),
        ],
    }
}

fn push_words(out: &mut Vec<(u16, u8, i64)>, index: u16, first: u8, data: &[u8; 8], n: usize)
    requires
        first <= 9,
        n <= 4,
    ensures
        final(out)@ == old(out)@ + entries(index, first as int, words(data@, n as nat)),
{
    let w = u16x4(data);
    let ghost before = out@;
    let mut i: usize = 0;
    while i < n
        invariant
            i <= n <= 4,
            first <= 9,
            forall|k: int| 0 <= k < 4 ==> #[trigger] w@[k] == word(data@, k),
            out@ == before + entries(index, first as int, words(data@, i as nat)),
        decreases n - i,
    {
        out.push((index, first + i as u8, w[i] as i64));
        i += 1;
        assert(out@ =~= before + entries(index, first as int, words(data@, i as nat)));
    }
}

fn push_readings(out: &mut Vec<(u16, u8, i64)>, first: u8, data: &[u8; 8])
    requires
        first <= 9,
    ensures
        final(out)@ == old(out)@ + entries(
            0x2004,
            first as int,
            Seq::new(4, |i: int| signed16(word(data@, i))),
        ),
{
    let w = i16x4(data);
    let ghost before = out@;
    out.push((0x2004, first, w[0] as i64));
    out.push((0x2004, first + 1, w[1] as i64));
    out.push((0x2004, first + 2, w[2] as i64));
    out.push((0x2004, first + 3, w[3] as i64));
    assert(out@ =~= before + entries(
        0x2004,
        first as int,
        Seq::new(4, |i: int| signed16(word(data@, i))),
    ));
}

fn push_outputs(out: &mut Vec<(u16, u8, i64)>, data: &[u8; 8])
    ensures
        final(out)@ == old(out)@ + outputs(data@, 4),
{
    let w = u16x4(data);
    let ghost before = out@;
    let mut i: usize = 0;
    while i < 4
        invariant
            i <= 4,
            forall|k: int| 0 <= k < 4 ==> #[trigger] w@[k] == word(data@, k),
            out@ == before + outputs(data@, i as nat),
        decreases 4 - i,
    {
        let sub: u8 = i as u8 + 1;
        if w[i] == 0x8000 {
            out.push((0x2020, sub, 1));
        } else if w[i] == 0 {
            out.push((0x2020, sub, 0));
            out.push((0x2021, sub, 0));
        } else {
            out.push((0x2021, sub, w[i] as i64));
        }
        i += 1;
        assert(out@ =~= before + outputs(data@, i as nat));
    }
}

fn push_bytes(out: &mut Vec<(u16, u8, i64)>, index: u16, values: &[u8])
    requires
        values@.len() <= 12,
    ensures
        final(out)@ == old(out)@ + entries(
            index,
            1,
            Seq::new(values@.len(), |i: int| values@[i] as int),
        ),
{
    let ghost before = out@;
    let mut i: usize = 0;
    while i < values.len()
        invariant
            i <= values@.len() <= 12,
            out@ == before + entries(index, 1, Seq::new(i as nat, |k: int| values@[k] as int)),
        decreases values@.len() - i,
    {
        out.push((index, i as u8 + 1, values[i] as i64));
        i += 1;
        assert(out@ =~= before + entries(index, 1, Seq::new(i as nat, |k: int| values@[k] as int)));
    }
}

/// Every dictionary object a TPDO frame carries, as `(index, sub, raw)`.
pub fn tpdo_objects(kind: TpdoKind, data: &[u8; 8]) -> (r: Vec<(u16, u8, i64)>)
    ensures
        r@ == tpdo_values(kind, data@),
{
    let mut out: Vec<(u16, u8, i64)> = Vec::new();
    match kind {
        TpdoKind::ValveCommanded => push_words(&mut out, 0x2010, 1, data, 4),
        TpdoKind::ValveTarget => push_words(&mut out, 0x2011, 1, data, 4),
        TpdoKind::ValveMeasured => push_words(&mut out, 0x2012, 1, data, 4),
        TpdoKind::ValveCurrent => push_words(&mut out, 0x2014, 1, data, 4),
        TpdoKind::ValveStatus => {
            let status = unpack_nibbles(&[data[0], data[1]]);
            let owner = unpack_nibbles(&[data[2], data[3]]);
            push_bytes(&mut out, 0x2013, &status);
            push_bytes(&mut out, 0x2022, &owner);
            out.push((0x2015, 0, data[4] as i64));
            assert(out@ =~= tpdo_values(kind, data@));
        },
        TpdoKind::HcoState => push_outputs(&mut out, data),
        TpdoKind::RawBus0A => push_words(&mut out, 0x2000, 1, data, 4),
        TpdoKind::RawBus0B => push_words(&mut out, 0x2000, 5, data, 4),
        TpdoKind::RawBus1A => push_words(&mut out, 0x2001, 1, data, 4),
        TpdoKind::RawBus1B => push_words(&mut out, 0x2001, 5, data, 4),
        TpdoKind::Sensor0 => push_readings(&mut out, 1, data),
        TpdoKind::Sensor1 => push_readings(&mut out, 5, data),
        TpdoKind::Sensor3 => push_readings(&mut out, 9, data),
        TpdoKind::SensorUnits => {
            let codes = unpack_2bit(&[data[0], data[1], data[2]]);
            push_bytes(&mut out, 0x2005, &codes);
            assert(out@ =~= tpdo_values(kind, data@));
        },
        TpdoKind::I2cScan => {
            push_words(&mut out, 0x2002, 1, data, 2);
            let w = u16x4(data);
            out.push((0x2003, 0, w[2] as i64));
        },
        TpdoKind::RailVoltage => push_words(&mut out, 0x2041, 1, data, 3),
        TpdoKind::RailCurrent => push_words(&mut out, 0x2040, 1, data, 3),
        TpdoKind::Status => {
            let w = u16x4(data);
            out.push((0x2032, 0, data[0] as i64));
            out.push((0x2031, 0, if data[1] != 0 { 1 } else { 0 }));
            out.push((0x2033, 0, w[2] as i64 + 0x1_0000 * w[3] as i64));
        },
    }
    out
}

} // verus!
