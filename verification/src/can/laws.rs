//! What a frame of the IO boards' protocol says, stated over its identifier and its bytes.
//!
//! Every law here is about the series that decoding a log gives: what one more frame adds to the
//! points of a signal, whatever came before it.
use vstd::prelude::*;

use crate::can::canopen::mirror::tpdo_values;
use crate::can::collector::{
    are_present, declared_units, frame_points, lists, points, scale, taken, CountSeries, SignalKey,
};
use crate::can::iocan::{process_data_spec, word, TpdoKind, KINDS};
use crate::can::signals::{kind_samples, samples, word_samples, words_samples, Signal};
use crate::can::{
    big_endian_value, bytes_value, instance, longest, occurrences, CanFrame, FieldKind, RawValue,
    SignalSpec,
};
use crate::text::{dec, hex, trimmed};
use crate::text_laws::{
    a_hexadecimal_number_reads_back, a_number_reads_back, a_separator_parts, lacks, nothing_parts,
    parts, read_digits, read_hex,
};

verus! {

broadcast use vstd::seq_lib::group_seq_properties;

/// The unsigned number in the two bytes of a frame at word position `i`, low byte first.
pub open spec fn two_bytes(frame: CanFrame, i: int) -> int {
    frame.data@[2 * i] as int + 256 * (frame.data@[2 * i + 1] as int)
}

/// A signal of the node that a frame comes from.
pub open spec fn key_of(frame: CanFrame, signal: Signal) -> SignalKey {
    SignalKey { bus: frame.bus, node: (frame.id % 16) as u8, signal }
}

/// Whether a frame adds one point to a signal of its node: `value`, at the time of the frame,
/// behind what was there.
pub open spec fn adds(frames: Seq<CanFrame>, frame: CanFrame, signal: Signal, value: int) -> bool {
    let key = key_of(frame, signal);
    let (before, after) = (points(frames, key), points(frames.push(frame), key));
    &&& after.len() == before.len() + 1
    &&& after.take(before.len() as int) == before
    &&& after.last().0 == frame.t_utc
    &&& after.last().1 == value
}

/// Whether a frame leaves a signal of its node as it was.
pub open spec fn adds_nothing(frames: Seq<CanFrame>, frame: CanFrame, signal: Signal) -> bool {
    let key = key_of(frame, signal);
    points(frames.push(frame), key) == points(frames, key)
}

spec fn says_nothing(all: Seq<(Signal, i64)>, signal: Signal) -> bool {
    forall|k: int| 0 <= k < all.len() ==> (#[trigger] all[k]).0 != signal
}

proof fn lemma_taken_nothing(all: Seq<(Signal, i64)>, signal: Signal, t: i64)
    requires
        says_nothing(all, signal),
    ensures
        taken(all, signal, t) == Seq::<(i64, i64)>::empty(),
    decreases all.len(),
{
    if all.len() > 0 {
        assert(all.last() == all[all.len() - 1]);
        assert forall|k: int| 0 <= k < all.drop_last().len() implies (
        #[trigger] all.drop_last()[k]).0 != signal by {
            assert(all.drop_last()[k] == all[k]);
        }
        lemma_taken_nothing(all.drop_last(), signal, t);
    }
}

/// A list with one sample of a signal gives that sample.
proof fn lemma_taken_once(all: Seq<(Signal, i64)>, at: int, t: i64)
    requires
        0 <= at < all.len(),
        forall|k: int| 0 <= k < all.len() && k != at ==> (#[trigger] all[k]).0 != all[at].0,
    ensures
        taken(all, all[at].0, t) == seq![(t, all[at].1)],
    decreases all.len(),
{
    let front = all.drop_last();
    assert(all.last() == all[all.len() - 1]);
    if at == all.len() - 1 {
        assert forall|k: int| 0 <= k < front.len() implies (#[trigger] front[k]).0 != all[at].0 by {
            assert(front[k] == all[k]);
        }
        lemma_taken_nothing(front, all[at].0, t);
        assert(taken(all, all[at].0, t) =~= seq![(t, all[at].1)]);
    } else {
        assert forall|k: int| 0 <= k < front.len() && k != at implies (#[trigger] front[k]).0
            != front[at].0 by {
            assert(front[k] == all[k]);
        }
        lemma_taken_once(front, at, t);
    }
}

proof fn lemma_taken_add(a: Seq<(Signal, i64)>, b: Seq<(Signal, i64)>, signal: Signal, t: i64)
    ensures
        taken(a + b, signal, t) == taken(a, signal, t) + taken(b, signal, t),
    decreases b.len(),
{
    if b.len() == 0 {
        assert(a + b =~= a);
        assert(taken(a, signal, t) + taken(b, signal, t) =~= taken(a, signal, t));
    } else {
        assert((a + b).drop_last() =~= a + b.drop_last());
        lemma_taken_add(a, b.drop_last(), signal, t);
        assert(taken(a + b, signal, t) =~= taken(a, signal, t) + taken(b, signal, t));
    }
}

/// Of the words of a frame only one is about a signal.
proof fn lemma_one_word(kind: TpdoKind, data: Seq<u8>, n: nat, i: int, signal: Signal, t: i64)
    requires
        n <= 4,
        0 <= i < 4,
        forall|j: int|
            0 <= j < 4 && j != i ==> says_nothing(
                #[trigger] word_samples(kind, word(data, j), j as u8),
                signal,
            ),
    ensures
        taken(words_samples(kind, data, n), signal, t) == if i < n {
            taken(word_samples(kind, word(data, i), i as u8), signal, t)
        } else {
            Seq::empty()
        },
    decreases n,
{
    if n > 0 {
        let front = words_samples(kind, data, (n - 1) as nat);
        let last = word_samples(kind, word(data, n - 1), (n - 1) as u8);
        lemma_one_word(kind, data, (n - 1) as nat, i, signal, t);
        lemma_taken_add(front, last, signal, t);
        if i != n - 1 {
            lemma_taken_nothing(last, signal, t);
        }
        assert(taken(front + last, signal, t) =~= if i < n {
            taken(word_samples(kind, word(data, i), i as u8), signal, t)
        } else {
            Seq::empty()
        });
    }
}

/// What a frame adds, given what is taken of it.
proof fn lemma_added(frames: Seq<CanFrame>, frame: CanFrame, signal: Signal)
    ensures
        ({
            let all = taken(samples(frame), signal, frame.t_utc);
            &&& all.len() == 0 ==> adds_nothing(frames, frame, signal)
            &&& all.len() == 1 ==> all[0].0 == frame.t_utc ==> adds(
                frames,
                frame,
                signal,
                all[0].1 as int,
            )
        }),
{
    let key = key_of(frame, signal);
    let all = taken(samples(frame), signal, frame.t_utc);
    assert(frames.push(frame).drop_last() =~= frames);
    assert(frame_points(frame, key) == all);
    let after = points(frames.push(frame), key);
    assert(after == points(frames, key) + all);
    if all.len() == 0 {
        assert(after =~= points(frames, key));
    } else if all.len() == 1 {
        assert(after.take(points(frames, key).len() as int) =~= points(frames, key));
    }
}

proof fn lemma_word_frame(
    frames: Seq<CanFrame>,
    frame: CanFrame,
    kind: TpdoKind,
    i: int,
    at: int,
    signal: Signal,
)
    requires
        frame.len == 8,
        process_data_spec(frame.id) == Some(((frame.id % 16) as u8, kind)),
        kind != TpdoKind::ValveStatus && kind != TpdoKind::Status,
        0 <= i < 4,
        forall|j: int|
            0 <= j < 4 && j != i ==> says_nothing(
                #[trigger] word_samples(kind, word(frame.data@, j), j as u8),
                signal,
            ),
        ({
            let here = word_samples(kind, word(frame.data@, i), i as u8);
            ||| says_nothing(here, signal)
            ||| 0 <= at < here.len() && here[at].0 == signal && forall|k: int|
                0 <= k < here.len() && k != at ==> (#[trigger] here[k]).0 != signal
        }),
    ensures
        ({
            let here = word_samples(kind, word(frame.data@, i), i as u8);
            if says_nothing(here, signal) {
                adds_nothing(frames, frame, signal)
            } else {
                adds(frames, frame, signal, here[at].1 as int)
            }
        }),
{
    let here = word_samples(kind, word(frame.data@, i), i as u8);
    assert(samples(frame) == words_samples(kind, frame.data@, 4));
    lemma_one_word(kind, frame.data@, 4, i, signal, frame.t_utc);
    if says_nothing(here, signal) {
        lemma_taken_nothing(here, signal, frame.t_utc);
    } else {
        lemma_taken_once(here, at, frame.t_utc);
    }
    lemma_added(frames, frame, signal);
}

/// A sensor slot reads the two's complement number in its two bytes: slots 0 to 3 are the words
/// of `0x290 + node`, 4 to 7 of `0x2A0 + node`, 8 to 11 of `0x2B0 + node`. The word 0x8000 is no
/// reading. The dictionary's copy of the slot, `0x2004`, holds the same number.
pub proof fn a_sensor_slot_is_a_signed_word(frames: Seq<CanFrame>, frame: CanFrame, i: int)
    requires
        frame.len == 8,
        0x290 <= frame.id < 0x2C0,
        0 <= i < 4,
    ensures
        ({
            let slot = 4 * ((frame.id - 0x290) / 16) + i;
            let signal = Signal::Slot(slot as u8);
            let u = two_bytes(frame, i);
            let added = points(frames.push(frame), key_of(frame, signal)).last().1;
            &&& u == 0x8000 ==> adds_nothing(frames, frame, signal)
            &&& u != 0x8000 ==> {
                &&& adds(frames, frame, signal, added as int)
                &&& -0x8000 < added < 0x8000
                &&& (added - u) % 0x1_0000 == 0
                &&& process_data_spec(frame.id) matches Some((_, kind)) && tpdo_values(
                    kind,
                    frame.data@,
                )[i] == (0x2004u16, (slot + 1) as u8, added)
            }
        }),
{
    let kind = KINDS@[(frame.id - 0x200) / 16];
    let slot = 4 * ((frame.id - 0x290) / 16) + i;
    assert(kind == TpdoKind::Sensor0 || kind == TpdoKind::Sensor1 || kind == TpdoKind::Sensor3);
    assert(word(frame.data@, i) == two_bytes(frame, i));
    lemma_word_frame(frames, frame, kind, i, 0, Signal::Slot(slot as u8));
}

/// A valve's position words are a promille below a flag: of `0x200 + node` what was commanded, of
/// `0x210 + node` the target, of `0x220 + node` what was measured. The flag, the top bit of the
/// word, says that the drive is released.
pub proof fn a_valve_word_is_a_position_and_a_flag(frames: Seq<CanFrame>, frame: CanFrame, i: int)
    requires
        frame.len == 8,
        0x200 <= frame.id < 0x230,
        0 <= i < 4,
    ensures
        ({
            let (at, off) = if frame.id < 0x210 {
                (Signal::Commanded(i as u8), Signal::CommandedUnpowered(i as u8))
            } else if frame.id < 0x220 {
                (Signal::Target(i as u8), Signal::TargetUnpowered(i as u8))
            } else {
                (Signal::Measured(i as u8), Signal::MeasuredUnpowered(i as u8))
            };
            let position = points(frames.push(frame), key_of(frame, at)).last().1;
            let released = points(frames.push(frame), key_of(frame, off)).last().1;
            &&& adds(frames, frame, at, position as int)
            &&& adds(frames, frame, off, released as int)
            &&& 0 <= position < 0x8000
            &&& released == 0 || released == 1
            &&& position + 0x8000 * released == two_bytes(frame, i)
        }),
{
    let kind = KINDS@[(frame.id - 0x200) / 16];
    assert(word(frame.data@, i) == two_bytes(frame, i));
    let (at, off) = if frame.id < 0x210 {
        (Signal::Commanded(i as u8), Signal::CommandedUnpowered(i as u8))
    } else if frame.id < 0x220 {
        (Signal::Target(i as u8), Signal::TargetUnpowered(i as u8))
    } else {
        (Signal::Measured(i as u8), Signal::MeasuredUnpowered(i as u8))
    };
    lemma_word_frame(frames, frame, kind, i, 0, at);
    lemma_word_frame(frames, frame, kind, i, 1, off);
}

/// What a node measures of its valves, its amplifiers and its rails is the unsigned number in the
/// two bytes, but for an amplifier word of 0xFFFF, which is no reading, and the fourth word of a
/// rail frame, which is padding.
pub proof fn a_measured_word_is_its_number(frames: Seq<CanFrame>, frame: CanFrame, i: int)
    requires
        frame.len == 8,
        0x250 <= frame.id < 0x290 || 0x2E0 <= frame.id < 0x300 || 0x310 <= frame.id < 0x320,
        0 <= i < 4,
    ensures
        ({
            let signal = if frame.id < 0x260 {
                Signal::AdcBus0(i as u8)
            } else if frame.id < 0x270 {
                Signal::AdcBus0((4 + i) as u8)
            } else if frame.id < 0x280 {
                Signal::AdcBus1(i as u8)
            } else if frame.id < 0x290 {
                Signal::AdcBus1((4 + i) as u8)
            } else if frame.id < 0x2F0 {
                Signal::RailVoltage(i as u8)
            } else if frame.id < 0x300 {
                Signal::RailCurrent(i as u8)
            } else {
                Signal::ValveCurrent(i as u8)
            };
            let u = two_bytes(frame, i);
            if (frame.id < 0x290 && u == 0xFFFF) || (0x2E0 <= frame.id < 0x300 && i == 3) {
                adds_nothing(frames, frame, signal)
            } else {
                adds(frames, frame, signal, u)
            }
        }),
{
    let kind = KINDS@[(frame.id - 0x200) / 16];
    assert(word(frame.data@, i) == two_bytes(frame, i));
    let signal = if frame.id < 0x260 {
        Signal::AdcBus0(i as u8)
    } else if frame.id < 0x270 {
        Signal::AdcBus0((4 + i) as u8)
    } else if frame.id < 0x280 {
        Signal::AdcBus1(i as u8)
    } else if frame.id < 0x290 {
        Signal::AdcBus1((4 + i) as u8)
    } else if frame.id < 0x2F0 {
        Signal::RailVoltage(i as u8)
    } else if frame.id < 0x300 {
        Signal::RailCurrent(i as u8)
    } else {
        Signal::ValveCurrent(i as u8)
    };
    lemma_word_frame(frames, frame, kind, i, 0, signal);
}

/// An output is driven unless its word of `0x240 + node` is zero. It has a pulse width, the word
/// itself, only where that is neither of the two that switch it.
pub proof fn an_output_is_driven_or_not(frames: Seq<CanFrame>, frame: CanFrame, i: int)
    requires
        frame.len == 8,
        0x240 <= frame.id < 0x250,
        0 <= i < 4,
    ensures
        ({
            let u = two_bytes(frame, i);
            &&& adds(
                frames,
                frame,
                Signal::Out(i as u8),
                if u == 0 {
                    0
                } else {
                    1
                },
            )
            &&& u == 0 || u == 0x8000 ==> adds_nothing(frames, frame, Signal::OutPwm(i as u8))
            &&& u != 0 && u != 0x8000 ==> adds(frames, frame, Signal::OutPwm(i as u8), u)
        }),
{
    assert(KINDS@[(frame.id - 0x200) / 16] == TpdoKind::HcoState);
    assert(word(frame.data@, i) == two_bytes(frame, i));
    lemma_word_frame(frames, frame, TpdoKind::HcoState, i, 0, Signal::Out(i as u8));
    lemma_word_frame(frames, frame, TpdoKind::HcoState, i, 1, Signal::OutPwm(i as u8));
}

/// A scan of the amplifiers, `0x2D0 + node`: which answer on each of the two buses, and how many
/// sweeps there were.
pub proof fn a_scan_is_three_words(frames: Seq<CanFrame>, frame: CanFrame)
    requires
        frame.len == 8,
        0x2D0 <= frame.id < 0x2E0,
    ensures
        adds(frames, frame, Signal::PresentBus0, two_bytes(frame, 0)),
        adds(frames, frame, Signal::PresentBus1, two_bytes(frame, 1)),
        adds(frames, frame, Signal::Sweeps, two_bytes(frame, 2)),
{
    assert(KINDS@[(frame.id - 0x200) / 16] == TpdoKind::I2cScan);
    lemma_word_frame(frames, frame, TpdoKind::I2cScan, 0, 0, Signal::PresentBus0);
    lemma_word_frame(frames, frame, TpdoKind::I2cScan, 1, 0, Signal::PresentBus1);
    lemma_word_frame(frames, frame, TpdoKind::I2cScan, 2, 0, Signal::Sweeps);
}

proof fn lemma_listed(frames: Seq<CanFrame>, frame: CanFrame, at: int)
    requires
        0 <= at < samples(frame).len(),
        forall|k: int|
            0 <= k < samples(frame).len() && k != at ==> (#[trigger] samples(frame)[k]).0
                != samples(frame)[at].0,
    ensures
        adds(frames, frame, samples(frame)[at].0, samples(frame)[at].1 as int),
{
    lemma_taken_once(samples(frame), at, frame.t_utc);
    lemma_added(frames, frame, samples(frame)[at].0);
}

/// A status frame of the valves, `0x230 + node`: two valves' states in each of its first two
/// bytes, two outputs' owners in each of the next two, the lower four bits first, and the state
/// of the relief in the fifth byte.
pub proof fn valve_states_are_half_bytes(frames: Seq<CanFrame>, frame: CanFrame, k: int)
    requires
        frame.len == 8,
        0x230 <= frame.id < 0x240,
        0 <= k < 2,
    ensures
        ({
            let last = |signal: Signal| points(frames.push(frame), key_of(frame, signal)).last().1;
            let (low, high) = (Signal::ValveStatus((2 * k) as u8), Signal::ValveStatus(
                (2 * k + 1) as u8,
            ));
            let (first, second) = (Signal::HcoOwner((2 * k) as u8), Signal::HcoOwner(
                (2 * k + 1) as u8,
            ));
            &&& adds(frames, frame, low, last(low) as int)
            &&& adds(frames, frame, high, last(high) as int)
            &&& adds(frames, frame, first, last(first) as int)
            &&& adds(frames, frame, second, last(second) as int)
            &&& 0 <= last(low) < 16 && 0 <= last(high) < 16
            &&& 0 <= last(first) < 16 && 0 <= last(second) < 16
            &&& last(low) + 16 * last(high) == frame.data@[k]
            &&& last(first) + 16 * last(second) == frame.data@[2 + k]
            &&& adds(frames, frame, Signal::ReliefState, frame.data@[4] as int)
        }),
{
    assert(KINDS@[(frame.id - 0x200) / 16] == TpdoKind::ValveStatus);
    assert(samples(frame) == kind_samples(TpdoKind::ValveStatus, frame.data@));
    lemma_listed(frames, frame, 2 * k);
    lemma_listed(frames, frame, 2 * k + 1);
    lemma_listed(frames, frame, 4 + 2 * k);
    lemma_listed(frames, frame, 4 + 2 * k + 1);
    lemma_listed(frames, frame, 8);
}

/// A node's own status, `0x300 + node`: the state of its link, whether it sends raw values, which
/// valves are stalled, and in the last four bytes, low byte first, how long ago it heard the
/// master.
pub proof fn a_status_is_read_byte_by_byte(frames: Seq<CanFrame>, frame: CanFrame)
    requires
        frame.len == 8,
        0x300 <= frame.id < 0x310,
    ensures
        adds(frames, frame, Signal::LinkState, frame.data@[0] as int),
        adds(
            frames,
            frame,
            Signal::RawDebug,
            if frame.data@[1] == 0 {
                0
            } else {
                1
            },
        ),
        adds(frames, frame, Signal::StalledMask, frame.data@[2] as int),
        adds(
            frames,
            frame,
            Signal::MsSinceHeartbeat,
            frame.data@[4] + 256 * (frame.data@[5] + 256 * (frame.data@[6] + 256
                * frame.data@[7])),
        ),
{
    assert(KINDS@[(frame.id - 0x200) / 16] == TpdoKind::Status);
    assert(samples(frame) == kind_samples(TpdoKind::Status, frame.data@));
    lemma_listed(frames, frame, 0);
    lemma_listed(frames, frame, 1);
    lemma_listed(frames, frame, 2);
    lemma_listed(frames, frame, 3);
}

/// A heartbeat, `0x700 + node`, carries the node's state in its first byte. One without a byte
/// says nothing.
pub proof fn a_heartbeat_carries_a_state(frames: Seq<CanFrame>, frame: CanFrame)
    requires
        0x700 <= frame.id < 0x710,
    ensures
        frame.len >= 1 ==> adds(frames, frame, Signal::NmtState, frame.data@[0] as int),
        frame.len == 0 ==> adds_nothing(frames, frame, Signal::NmtState),
{
    if frame.len >= 1 {
        lemma_listed(frames, frame, 0);
    } else {
        lemma_taken_nothing(samples(frame), Signal::NmtState, frame.t_utc);
        lemma_added(frames, frame, Signal::NmtState);
    }
}

proof fn lemma_first_units(frames: Seq<CanFrame>, first: int, bus: u8, node: u8)
    requires
        node < 16,
        0 <= first < frames.len(),
        frames[first].bus == bus,
        frames[first].len == 8,
        frames[first].id == 0x2C0 + node,
        forall|k: int|
            0 <= k < first ==> !((#[trigger] frames[k]).bus == bus && frames[k].len == 8
                && frames[k].id == 0x2C0 + node),
    ensures
        declared_units(frames, bus, node) == Some(
            crate::can::collector::unit_codes(frames[first]),
        ),
{
    let (before, declaration, after) = (frames.take(first), frames[first], frames.skip(first + 1));
    assert(frames =~= before.push(declaration) + after);
    assert forall|k: int| 0 <= k < before.len() implies !crate::can::collector::declares_units(
        #[trigger] before[k],
        bus,
        node,
    ) by {
        assert(before[k] == frames[k]);
        crate::can::iocan::process_data_inverts_the_layout(
            frames[k].id,
            node,
            TpdoKind::SensorUnits,
        );
    }
    crate::can::iocan::process_data_inverts_the_layout(
        declaration.id,
        node,
        TpdoKind::SensorUnits,
    );
    crate::can::collector::the_first_declaration_holds(before, declaration, after, bus, node);
}

/// The unit of a sensor slot is declared by its node's first frame on `0x2C0 + node`, in two bits
/// for each slot, the lowest first: hundredths of a bar, tenths of a bar, hundredths of a degree
/// or bare counts. It holds for every sample of the slot, and without such a frame they are bare
/// counts.
pub proof fn a_slot_has_the_unit_its_node_declares(
    frames: Seq<CanFrame>,
    first: int,
    slot: u8,
    bus: u8,
    node: u8,
)
    requires
        slot < 12,
        node < 16,
        0 <= first <= frames.len(),
        forall|k: int|
            0 <= k < first ==> !((#[trigger] frames[k]).bus == bus && frames[k].len == 8
                && frames[k].id == 0x2C0 + node),
        first < frames.len() ==> frames[first].bus == bus && frames[first].len == 8
            && frames[first].id == 0x2C0 + node,
    ensures
        ({
            let byte = frames[first].data@[slot as int / 4] as int;
            let code = if slot % 4 == 0 {
                byte % 4
            } else if slot % 4 == 1 {
                byte % 16 / 4
            } else if slot % 4 == 2 {
                byte % 64 / 16
            } else {
                byte / 64
            };
            let unit = scale(frames, SignalKey { bus, node, signal: Signal::Slot(slot) });
            if first == frames.len() || code == 3 {
                unit == ("counts"@, 0nat)
            } else if code == 0 {
                unit == ("bar"@, 2nat)
            } else if code == 1 {
                unit == ("bar"@, 1nat)
            } else {
                unit == ("°C"@, 2nat)
            }
        }),
{
    if first < frames.len() {
        lemma_first_units(frames, first, bus, node);
    } else {
        assert forall|k: int| 0 <= k < frames.len() implies !crate::can::collector::declares_units(
            #[trigger] frames[k],
            bus,
            node,
        ) by {
            crate::can::iocan::process_data_inverts_the_layout(
                frames[k].id,
                node,
                TpdoKind::SensorUnits,
            );
        }
        crate::can::collector::lemma_undeclared(frames, bus, node);
    }
}

/// The number in some bytes of a frame, in either order.
pub open spec fn number_in(frame: CanFrame, offset: int, width: int, big_endian: bool) -> int {
    let d = frame.data@;
    if width == 1 {
        d[offset] as int
    } else if width == 2 {
        if big_endian {
            256 * d[offset] + d[offset + 1]
        } else {
            d[offset] + 256 * d[offset + 1]
        }
    } else if big_endian {
        256 * (256 * (256 * d[offset] + d[offset + 1]) + d[offset + 2]) + d[offset + 3]
    } else {
        d[offset] + 256 * (d[offset + 1] + 256 * (d[offset + 2] + 256 * d[offset + 3]))
    }
}

proof fn lemma_bytes_value(frame: CanFrame, offset: int, width: int, big_endian: bool)
    requires
        width == 1 || width == 2 || width == 4,
        0 <= offset,
        offset + width <= 8,
    ensures
        bytes_value(frame.data@.subrange(offset, offset + width), big_endian) == number_in(
            frame,
            offset,
            width,
            big_endian,
        ),
        0 <= number_in(frame, offset, width, big_endian) < 0x1_0000_0000,
        width == 1 ==> number_in(frame, offset, width, big_endian) < 0x100,
        width == 2 ==> number_in(frame, offset, width, big_endian) < 0x1_0000,
{
    let bytes = frame.data@.subrange(offset, offset + width);
    let ordered = if big_endian {
        bytes
    } else {
        bytes.reverse()
    };
    reveal_with_fuel(big_endian_value, 5);
    let d = frame.data@;
    if width == 1 {
        assert(ordered.drop_last() =~= Seq::empty());
        assert(ordered[0] == d[offset]);
    } else if width == 2 {
        assert(ordered.drop_last().drop_last() =~= Seq::empty());
        assert(bytes[0] == d[offset] && bytes[1] == d[offset + 1]);
    } else {
        assert(ordered.drop_last().drop_last().drop_last().drop_last() =~= Seq::empty());
        assert(bytes[0] == d[offset] && bytes[1] == d[offset + 1] && bytes[2] == d[offset + 2]
            && bytes[3] == d[offset + 3]);
    }
}

/// A field that was picked by hand reads the number in its bytes, in the byte order it was picked
/// with: the number itself where it is unsigned, the one congruent to it around zero where it is
/// signed, and its bits where it is a fraction.
pub proof fn a_picked_field_is_its_bytes(
    kind: FieldKind,
    frame: CanFrame,
    offset: usize,
    big_endian: bool,
)
    requires
        kind.read_spec(frame, offset, big_endian) is Some,
    ensures
        ({
            let at = offset as int;
            let byte = number_in(frame, at, 1, big_endian);
            let word = number_in(frame, at, 2, big_endian);
            let all = number_in(frame, at, 4, big_endian);
            match (kind, kind.read_spec(frame, offset, big_endian)->0) {
                (FieldKind::U8, RawValue::Int(v)) => v == byte,
                (FieldKind::I8, RawValue::Int(v)) => -0x80 <= v < 0x80 && (v - byte) % 0x100 == 0,
                (FieldKind::U16, RawValue::Int(v)) => v == word,
                (FieldKind::I16, RawValue::Int(v)) => -0x8000 <= v < 0x8000 && (v - word) % 0x1_0000
                    == 0,
                (FieldKind::U32, RawValue::Int(v)) => v == all,
                (FieldKind::I32, RawValue::Int(v)) => -0x8000_0000 <= v < 0x8000_0000 && (v - all)
                    % 0x1_0000_0000 == 0,
                (FieldKind::F32, RawValue::Float(bits)) => bits == all,
                (FieldKind::Bit(_), RawValue::Int(v)) => v == 0 || v == 1,
                _ => false,
            }
        }),
{
    lemma_bytes_value(frame, offset as int, kind.width_spec(), big_endian);
}

/// A picked bit is the bit of the byte at that place, the lowest being the first.
pub proof fn a_picked_bit_is_its_bit(frame: CanFrame, offset: usize, big_endian: bool, k: u8)
    requires
        offset < frame.len,
        offset < 8,
        k < 8,
    ensures
        FieldKind::Bit(k).read_spec(frame, offset, big_endian) == Some(
            RawValue::Int(((frame.data@[offset as int] >> k) & 1) as i64),
        ),
{
    lemma_bytes_value(frame, offset as int, 1, big_endian);
    let b = frame.data@[offset as int];
    assert((b >> 0u8) & 1 == b % 2 && (b >> 1u8) & 1 == b / 2 % 2 && (b >> 2u8) & 1 == b / 4 % 2 && (
    b >> 3u8) & 1 == b / 8 % 2 && (b >> 4u8) & 1 == b / 16 % 2 && (b >> 5u8) & 1 == b / 32 % 2 && (b
        >> 6u8) & 1 == b / 64 % 2 && (b >> 7u8) & 1 == b / 128 % 2) by (bit_vector);
    assert(k as int % 8 == k);
}

/// A picked signal has a sample for each frame that carries it, in the order of arrival: one with
/// its identifier, on its bus where it names one, and long enough to hold the field.
pub proof fn a_picked_signal_is_read_frame_by_frame(
    signal: SignalSpec,
    frames: Seq<CanFrame>,
    frame: CanFrame,
)
    ensures
        ({
            let before = signal.values_in(frames);
            let after = signal.values_in(frames.push(frame));
            let carried = frame.id == signal.id && (signal.bus is None || signal.bus == Some(
                frame.bus,
            )) && signal.offset + signal.kind.width_spec() <= frame.len && signal.offset
                + signal.kind.width_spec() <= 8;
            &&& carried ==> after.len() == before.len() + 1 && after.drop_last() == before
                && after.last().0 == frame.t_utc && Some(after.last().1) == signal.kind.read_spec(
                frame,
                signal.offset,
                signal.big_endian,
            )
            &&& !carried ==> after == before
        }),
{
    assert(frames.push(frame).drop_last() =~= frames);
    let after = signal.values_in(frames.push(frame));
    if after.len() > signal.values_in(frames).len() {
        assert(after.drop_last() =~= signal.values_in(frames));
    }
}

/// An identifier's entry counts every frame that carries it, one by one, and no payload under it
/// is longer than the longest, which is one of them.
pub proof fn an_identifier_is_tallied(frames: Seq<CanFrame>, bus: u8, id: u32, k: int)
    requires
        0 <= k < frames.len(),
    ensures
        occurrences(frames.drop_last(), bus, id) == occurrences(frames, bus, id) - if (
        frames[frames.len() - 1].bus == bus && frames[frames.len() - 1].id == id) {
            1int
        } else {
            0int
        },
        frames[k].bus == bus && frames[k].id == id ==> frames[k].len <= longest(frames, bus, id),
        longest(frames, bus, id) > 0 ==> exists|i: int|
            0 <= i < frames.len() && (#[trigger] frames[i]).bus == bus && frames[i].id == id
                && frames[i].len == longest(frames, bus, id),
    decreases frames.len(),
{
    let front = frames.drop_last();
    let last = frames[frames.len() - 1];
    if front.len() > 0 {
        an_identifier_is_tallied(
            front,
            bus,
            id,
            if k < front.len() {
                k
            } else {
                0
            },
        );
        if longest(front, bus, id) > 0 {
            let i = choose|i: int|
                0 <= i < front.len() && (#[trigger] front[i]).bus == bus && front[i].id == id
                    && front[i].len == longest(front, bus, id);
            assert(frames[i] == front[i]);
        }
    } else {
        assert(longest(front, bus, id) == 0);
    }
    assert(frames.last() == last);
}

/// Decoding a log files every sample under the name of its signal, and invents none: the series
/// that holds a signal's points is the one of that name.
pub proof fn every_sample_is_in_its_series(
    out: Seq<CountSeries>,
    frames: Seq<CanFrame>,
    keys: Seq<SignalKey>,
    key: SignalKey,
)
    requires
        are_present(keys, frames),
        lists(out, frames, keys),
    ensures
        points(frames, key).len() > 0 ==> exists|i: int|
            0 <= i < out.len() && (#[trigger] out[i]).points@ == points(frames, key)
                && out[i].decimals == scale(frames, key).1 && out[i].name@ == key.signal.group_spec()
                + "["@ + crate::can::instance(
                crate::can::collector::several_buses(frames),
                key.bus,
                key.node,
            ) + "]."@ + key.signal.field_spec(),
        forall|i: int|
            0 <= i < out.len() ==> exists|k: SignalKey|
                (#[trigger] out[i]).points@ == #[trigger] points(frames, k) && points(
                    frames,
                    k,
                ).len() > 0,
{
    if points(frames, key).len() > 0 {
        assert(keys.contains(key));
        let i = keys.index_of(key);
        assert(crate::can::collector::is_series_of(out[i], frames, keys[i]));
    }
    assert forall|i: int| 0 <= i < out.len() implies exists|k: SignalKey|
        (#[trigger] out[i]).points@ == #[trigger] points(frames, k) && points(frames, k).len()
            > 0 by {
        assert(crate::can::collector::is_series_of(out[i], frames, keys[i]));
        assert(keys.contains(keys[i]));
        assert(out[i].points@ == points(frames, keys[i]));
    }
}

/// Whether a text names a picked field: the identifier, how it is read, and the byte it is at.
pub open spec fn names_field(
    text: Seq<char>,
    id: Seq<char>,
    kind: Seq<char>,
    offset: Seq<char>,
) -> bool {
    text == "CAN["@ + id + "]."@ + kind + "@"@ + offset
}

/// A picked field that was given no name goes by its place: its identifier in hexadecimal, with
/// the bus in front where one was picked, and the byte it starts at.
pub proof fn a_field_without_a_name_goes_by_its_place(s: SignalSpec)
    ensures
        exists|id: Seq<char>, bus: Seq<char>, digits: Seq<char>, kind: Seq<char>, offset: Seq<char>|
            {
                &&& #[trigger] names_field(s.default_name_spec(), id, kind, offset)
                &&& id == #[trigger] (bus + "0x"@ + digits)
                &&& read_hex(digits) == s.id
                &&& read_digits(offset) == s.offset
                &&& match s.bus {
                    Some(n) => exists|number: Seq<char>|
                        bus == #[trigger] ("bus"@ + number + ":"@) && read_digits(number) == n,
                    None => bus.len() == 0,
                }
                &&& s.kind matches FieldKind::Bit(bit) ==> exists|number: Seq<char>|
                    kind == #[trigger] ("bit"@ + number) && read_digits(number) == bit
            },
{
    let text = s.default_name_spec();
    let bus = match s.bus {
        Some(bus) => "bus"@ + dec(bus as nat) + ":"@,
        None => Seq::<char>::empty(),
    };
    let kind = match s.kind {
        FieldKind::Bit(bit) => "bit"@ + dec(bit as nat),
        other => if other.width_spec() > 1 && s.big_endian {
            other.name_spec() + "be"@
        } else {
            other.name_spec()
        },
    };
    let digits = hex(s.id as nat, 3);
    let offset = dec(s.offset as nat);
    a_hexadecimal_number_reads_back(s.id as nat, 3);
    a_number_reads_back(s.offset as nat);
    if let Some(n) = s.bus {
        a_number_reads_back(n as nat);
        assert(bus == "bus"@ + dec(n as nat) + ":"@);
    }
    if let FieldKind::Bit(bit) = s.kind {
        a_number_reads_back(bit as nat);
        assert(kind == "bit"@ + dec(bit as nat));
    }
    let id = bus + "0x"@ + digits;
    assert("CAN["@ + bus + "0x"@ + digits =~= "CAN["@ + id);
    assert(names_field(text, id, kind, offset));
}

/// A name that was given is the one that is used, without the white space around it.
pub proof fn a_given_name_is_used(s: SignalSpec)
    ensures
        trimmed(s.name@).len() > 0 ==> s.series_name_spec() == trimmed(s.name@),
        trimmed(s.name@).len() == 0 ==> s.series_name_spec() == s.default_name_spec(),
{
}

/// Nodes are told apart by their part of a series name: on one bus by their number, and over
/// several by the number of the bus too.
pub proof fn a_node_is_named_by_its_number(multi_bus: bool, bus: u8, node: u8)
    ensures
        !multi_bus ==> read_digits(instance(multi_bus, bus, node)) == node,
        multi_bus ==> ({
            let split = parts(instance(multi_bus, bus, node), ':');
            &&& split.len() == 2
            &&& read_digits(split[0].skip(3)) == bus
            &&& read_digits(split[1]) == node
        }),
{
    a_number_reads_back(bus as nat);
    a_number_reads_back(node as nat);
    if multi_bus {
        reveal_strlit("bus");
        reveal_strlit(":");
        let (b, n) = (dec(bus as nat), dec(node as nat));
        let front = "bus"@ + b;
        assert(lacks(front, ':'));
        assert(lacks(n, ':'));
        nothing_parts(front, ':');
        a_separator_parts(front, ':', n);
        assert(instance(multi_bus, bus, node) =~= front.push(':') + n);
        assert(front.skip(3) =~= b);
    }
}

} // verus!
