//! What a frame does to a node's dictionary, stated over its identifier and its bytes.
use vstd::prelude::*;

use crate::can::canopen::dictionary::{object_spec, DataType};
use crate::can::canopen::log::{
    object_codes, NodeKey, ObjectKey, Origin, TrackState, ValueChange,
};
use crate::can::canopen::mirror::{outputs, tpdo_values};
use crate::can::canopen::replay::{mirrored, node_of, object_of, track_of, LogState};
use crate::can::canopen::sdo::sdo_of;
use crate::can::iocan::{pair_of_bits, word, TpdoKind, KINDS};
use crate::can::CanFrame;

verus! {

broadcast use vstd::seq_lib::group_seq_properties;

/// Whether a number is what some bytes hold, low byte first: congruent to their sum, and in the
/// range of their width, around zero where it is signed.
pub open spec fn is_number_in(v: int, bytes: Seq<u8>, width: int, signed: bool) -> bool {
    let sum = if width == 1 {
        bytes[0] as int
    } else if width == 2 {
        bytes[0] + 256 * bytes[1]
    } else {
        bytes[0] + 256 * (bytes[1] + 256 * (bytes[2] + 256 * bytes[3]))
    };
    let full: int = if width == 1 {
        0x100
    } else if width == 2 {
        0x1_0000
    } else {
        0x1_0000_0000
    };
    &&& (v - sum) % full == 0
    &&& if signed {
        -full <= 2 * v < full
    } else {
        0 <= v < full
    }
}

/// The object that a transfer is about: its node is in the identifier, its index in the second
/// and the third byte, low byte first, and its sub-index in the fourth.
pub open spec fn addressed(frame: CanFrame) -> ObjectKey {
    ObjectKey {
        bus: frame.bus,
        node: (frame.id % 16) as u8,
        index: (frame.data@[1] + 256 * frame.data@[2]) as u16,
        sub: frame.data@[3],
    }
}

/// How many bytes of a transfer its value takes, and whether they are signed: by the object's
/// type, or for an object that is in no dictionary by what the command byte says.
pub open spec fn shape(frame: CanFrame) -> (int, bool) {
    let unused = frame.data@[0] / 4 % 4;
    match object_spec(addressed(frame).index) {
        Some(def) => match def.ty {
            DataType::U8 => (1, false),
            DataType::U16 => (2, false),
            DataType::I16 => (2, true),
            DataType::U32 => (4, false),
            DataType::I32 => (4, true),
        },
        None => if frame.data@[0] % 2 == 1 && unused == 3 {
            (1, false)
        } else if frame.data@[0] % 2 == 1 && unused == 2 {
            (2, false)
        } else {
            (4, false)
        },
    }
}

/// Whether a number is the value that a transfer carries.
pub open spec fn carries(frame: CanFrame, v: int) -> bool {
    is_number_in(v, frame.data@.subrange(4, 8), shape(frame).0, shape(frame).1)
}

/// What is known of an object in a state.
pub open spec fn known(s: LogState, key: ObjectKey) -> TrackState {
    track_of(s.objects, key.code_spec())
}

/// Whether an object was seen at `raw`: an update then, and a change unless it was there already.
pub open spec fn was_seen_at(
    before: TrackState,
    after: TrackState,
    t: i64,
    raw: int,
    origin: Origin,
) -> bool {
    let change = ValueChange { t_utc: t, raw: raw as i64, origin };
    &&& after.updates == before.updates + 1
    &&& after.last_seen == t
    &&& after.changes.len() > 0 && after.changes.last().raw == raw
    &&& before.changes.len() > 0 && before.changes.last().raw == raw ==> after.changes
        == before.changes
    &&& before.changes.len() == 0 || before.changes.last().raw != raw ==> after.changes.len()
        == before.changes.len() + 1 && after.changes.last() == change && after.changes.drop_last()
        == before.changes
}

/// A frame that a node answers a read with, on `0x580 + node`: the command's upper three bits are
/// 2, and the value is in the frame.
pub open spec fn answers_a_read(frame: CanFrame) -> bool {
    0x580 <= frame.id < 0x590 && frame.len >= 4 && frame.data@[0] / 32 == 2 && frame.data@[0] / 2
        % 2 == 1
}

/// A frame that the master writes with, on `0x600 + node`: the command's upper three bits are 1,
/// and the value is in the frame.
pub open spec fn asks_to_write(frame: CanFrame) -> bool {
    0x600 <= frame.id < 0x610 && frame.len >= 4 && frame.data@[0] / 32 == 1 && frame.data@[0] / 2
        % 2 == 1
}

/// A frame that the master reads with.
pub open spec fn asks_to_read(frame: CanFrame) -> bool {
    0x600 <= frame.id < 0x610 && frame.len >= 4 && frame.data@[0] / 32 == 2
}

/// A frame that a node acknowledges a write with.
pub open spec fn confirms_a_write(frame: CanFrame) -> bool {
    0x580 <= frame.id < 0x590 && frame.len >= 4 && frame.data@[0] / 32 == 3
}

proof fn lemma_value(frame: CanFrame)
    requires
        answers_a_read(frame) || asks_to_write(frame),
    ensures
        sdo_of(frame) is Some,
        sdo_of(frame)->0.value_spec() matches Some(v) && carries(frame, v) && -0x8000_0000 <= v
            < 0x1_0000_0000,
        object_of(sdo_of(frame)->0) == addressed(frame),
{
    let d = frame.data@;
    assert(frame.id - frame.id % 16 == 0x580 || frame.id - frame.id % 16 == 0x600);
    let payload = d.subrange(4, 8);
    assert(payload[0] == d[4] && payload[1] == d[5] && payload[2] == d[6] && payload[3] == d[7]);
    let t = sdo_of(frame)->0;
    let v = t.value_spec()->0;
    assert(t.data == payload);
    let sum = payload[0] + 256 * (payload[1] + 256 * (payload[2] + 256 * payload[3]));
    assert(sum == payload[0] + 256 * payload[1] + 0x1_0000 * payload[2] + 0x100_0000 * payload[3]);
}

/// A read lands when it is answered: whatever was known before, the object that the answer is
/// about has been read once more, and is from then on at the number in the answer's bytes. No
/// other object is touched.
pub proof fn a_read_lands_when_it_is_answered(s: LogState, frame: CanFrame, other: ObjectKey)
    requires
        answers_a_read(frame),
    ensures
        ({
            let (before, after) = (
                known(s, addressed(frame)),
                known(s.step(frame), addressed(frame)),
            );
            let raw = after.changes.last().raw as int;
            &&& carries(frame, raw)
            &&& was_seen_at(before, after, frame.t_utc, raw, Origin::SdoRead)
            &&& after.reads == before.reads + 1
            &&& after.writes == before.writes
            &&& after.aborts == before.aborts
        }),
        other != addressed(frame) ==> known(s.step(frame), other) == known(s, other),
{
    lemma_value(frame);
    object_codes(other, addressed(frame));
    let before = known(s, addressed(frame));
    let after = known(s.step(frame), addressed(frame));
    assert(after.changes.len() > before.changes.len() ==> after.changes.drop_last()
        =~= before.changes);
}

/// A write lands when it is acknowledged: a request to write and the next answer of its node for
/// the same object, whatever was known before, leave the object at the number in the request's
/// bytes, as of the acknowledgement. The acknowledgement knows how long it took.
pub proof fn a_write_lands_as_it_was_sent(s: LogState, asked: CanFrame, answer: CanFrame)
    requires
        asks_to_write(asked),
        confirms_a_write(answer),
        addressed(asked) == addressed(answer),
    ensures
        ({
            let key = addressed(asked);
            let (before, after) = (known(s.step(asked), key), known(
                s.step(asked).step(answer),
                key,
            ));
            let raw = after.changes.last().raw as int;
            &&& carries(asked, raw)
            &&& was_seen_at(before, after, answer.t_utc, raw, Origin::SdoWrite)
            &&& after.writes == before.writes + 1
            &&& after.reads == before.reads
            &&& s.step(asked).step(answer).transfers.last().latency == Some(
                (answer.t_utc - asked.t_utc) as i128,
            )
        }),
{
    lemma_value(asked);
    let r = sdo_of(asked)->0;
    assert(answer.id - answer.id % 16 == 0x580);
    let a = sdo_of(answer)->0;
    assert(node_of(asked) == node_of(answer));
    let mid = s.step(asked);
    assert(mid == s.request(node_of(asked), r));
    assert(mid.transfers[mid.pending[node_of(asked).code_spec()] as int] == r);
    assert(mid.answered_by(node_of(answer), a) == Some(r));
    let before = known(mid, addressed(asked));
    let after = known(mid.step(answer), addressed(asked));
    assert(after.changes.len() > before.changes.len() ==> after.changes.drop_last()
        =~= before.changes);
}

/// Asking changes no value: after a request the dictionary is as it was, but for a write that the
/// node had been asked for before and that nothing answered.
pub proof fn asking_changes_no_value(s: LogState, frame: CanFrame, key: ObjectKey)
    requires
        asks_to_write(frame) || asks_to_read(frame),
        !s.pending.contains_key(node_of(frame).code_spec()),
    ensures
        known(s.step(frame), key) == known(s, key),
{
    assert(frame.id - frame.id % 16 == 0x600);
}

/// A write that is never answered still happened: where the next frame to or from the node is
/// another request, the object is taken to be at the number sent, as of when it was sent.
pub proof fn an_unanswered_write_is_the_best_guess(s: LogState, asked: CanFrame, next: CanFrame)
    requires
        asks_to_write(asked),
        asks_to_write(next) || asks_to_read(next),
        asked.bus == next.bus,
        asked.id == next.id,
    ensures
        ({
            let key = addressed(asked);
            let (before, after) = (known(s.step(asked), key), known(s.step(asked).step(next), key));
            let raw = after.changes.last().raw as int;
            &&& carries(asked, raw)
            &&& was_seen_at(before, after, asked.t_utc, raw, Origin::SdoWrite)
            &&& after.writes == before.writes
        }),
{
    lemma_value(asked);
    let r = sdo_of(asked)->0;
    assert(next.id - next.id % 16 == 0x600);
    let mid = s.step(asked);
    assert(mid == s.request(node_of(asked), r));
    assert(mid.transfers[mid.pending[node_of(asked).code_spec()] as int] == r);
    let before = known(mid, addressed(asked));
    let after = known(mid.step(next), addressed(asked));
    assert(after.changes.len() > before.changes.len() ==> after.changes.drop_last()
        =~= before.changes);
}

/// A log that ends with a write that nothing answered takes the object to be at the number sent.
pub proof fn a_write_at_the_end_is_the_best_guess(s: LogState, asked: CanFrame)
    requires
        asks_to_write(asked),
    ensures
        ({
            let key = addressed(asked);
            let settled = s.step(asked).settled();
            let after = settled[key.code_spec()];
            let raw = after.changes.last().raw as int;
            &&& settled.contains_key(key.code_spec())
            &&& carries(asked, raw)
            &&& was_seen_at(
                known(s.step(asked), key),
                after,
                asked.t_utc,
                raw,
                Origin::SdoWrite,
            )
        }),
{
    lemma_value(asked);
    let r = sdo_of(asked)->0;
    let key = addressed(asked);
    let mid = s.step(asked);
    object_codes(key, key);
    assert(mid == s.request(node_of(asked), r));
    assert(node_of(asked) == key.node_spec());
    assert(mid.transfers[mid.pending[node_of(asked).code_spec()] as int] == r);
    assert(mid.pending_write(key.code_spec()) is Some);
    let before = known(mid, key);
    let after = mid.settled()[key.code_spec()];
    assert(after.changes.len() > before.changes.len() ==> after.changes.drop_last()
        =~= before.changes);
}

/// An abort names its reason in the last four bytes, low byte first, and touches no value.
pub proof fn an_abort_says_why(s: LogState, frame: CanFrame)
    requires
        0x580 <= frame.id < 0x590,
        frame.len >= 4,
        frame.data@[0] / 32 == 4,
    ensures
        ({
            let key = addressed(frame);
            let (before, after) = (known(s, key), known(s.step(frame), key));
            let d = frame.data@;
            &&& after.aborts == before.aborts + 1
            &&& after.last_abort == Some(
                (d[4] + 256 * (d[5] + 256 * (d[6] + 256 * d[7]))) as u32,
            )
            &&& after.changes == before.changes
            &&& after.updates == before.updates
        }),
{
    assert(frame.id - frame.id % 16 == 0x580);
    let payload = frame.data@.subrange(4, 8);
    let sum = payload[0] + 256 * (payload[1] + 256 * (payload[2] + 256 * payload[3]));
    assert(sum == payload[0] + 256 * payload[1] + 0x1_0000 * payload[2] + 0x100_0000 * payload[3]);
}

/// Where one of the values of a frame goes, if no other of them goes there too.
proof fn lemma_mirrored_once(
    objects: Map<u64, TrackState>,
    node: NodeKey,
    t: i64,
    values: Seq<(u16, u8, i64)>,
    at: int,
)
    requires
        0 <= at < values.len(),
        forall|k: int|
            0 <= k < values.len() && k != at ==> (#[trigger] values[k]).0 != values[at].0
                || values[k].1 != values[at].1,
    ensures
        ({
            let key = ObjectKey {
                bus: node.bus,
                node: node.node,
                index: values[at].0,
                sub: values[at].1,
            };
            track_of(mirrored(objects, node, t, values), key.code_spec()) == track_of(
                objects,
                key.code_spec(),
            ).record(t, values[at].2, Origin::Tpdo)
        }),
    decreases values.len(),
{
    let front = values.drop_last();
    let key = ObjectKey {
        bus: node.bus,
        node: node.node,
        index: values[at].0,
        sub: values[at].1,
    };
    let last = values.last();
    let there = ObjectKey { bus: node.bus, node: node.node, index: last.0, sub: last.1 };
    object_codes(key, there);
    assert(values.last() == values[values.len() - 1]);
    if at == values.len() - 1 {
        lemma_not_mirrored(objects, node, t, front, key);
    } else {
        assert forall|k: int| 0 <= k < front.len() && k != at implies (#[trigger] front[k]).0
            != front[at].0 || front[k].1 != front[at].1 by {
            assert(front[k] == values[k]);
        }
        lemma_mirrored_once(objects, node, t, front, at);
    }
}

proof fn lemma_not_mirrored(
    objects: Map<u64, TrackState>,
    node: NodeKey,
    t: i64,
    values: Seq<(u16, u8, i64)>,
    key: ObjectKey,
)
    requires
        key.bus != node.bus || key.node != node.node || forall|k: int|
            0 <= k < values.len() ==> (#[trigger] values[k]).0 != key.index || values[k].1
                != key.sub,
    ensures
        track_of(mirrored(objects, node, t, values), key.code_spec()) == track_of(
            objects,
            key.code_spec(),
        ),
    decreases values.len(),
{
    if values.len() > 0 {
        let last = values.last();
        let there = ObjectKey { bus: node.bus, node: node.node, index: last.0, sub: last.1 };
        object_codes(key, there);
        assert(values.last() == values[values.len() - 1]);
        assert forall|k: int| 0 <= k < values.drop_last().len() implies (
        #[trigger] values.drop_last()[k]) == values[k] by {}
        lemma_not_mirrored(objects, node, t, values.drop_last(), key);
    }
}

/// The arrays that process data copies word by word: for an identifier without its node, the
/// object, the sub-index of its first word, and how many there are.
pub open spec fn word_array(base: int) -> Option<(u16, int, int)> {
    if base == 0x200 {
        Some((0x2010u16, 1, 4))
    } else if base == 0x210 {
        Some((0x2011u16, 1, 4))
    } else if base == 0x220 {
        Some((0x2012u16, 1, 4))
    } else if base == 0x250 {
        Some((0x2000u16, 1, 4))
    } else if base == 0x260 {
        Some((0x2000u16, 5, 4))
    } else if base == 0x270 {
        Some((0x2001u16, 1, 4))
    } else if base == 0x280 {
        Some((0x2001u16, 5, 4))
    } else if base == 0x290 {
        Some((0x2004u16, 1, 4))
    } else if base == 0x2A0 {
        Some((0x2004u16, 5, 4))
    } else if base == 0x2B0 {
        Some((0x2004u16, 9, 4))
    } else if base == 0x2D0 {
        Some((0x2002u16, 1, 2))
    } else if base == 0x2E0 {
        Some((0x2041u16, 1, 3))
    } else if base == 0x2F0 {
        Some((0x2040u16, 1, 3))
    } else if base == 0x310 {
        Some((0x2014u16, 1, 4))
    } else {
        None
    }
}

/// Process data is a copy of the dictionary: after a frame of an array's words, entry by entry,
/// each is at the number in its two bytes, signed for the sensors' readings and unsigned for
/// everything else.
pub proof fn process_data_mirrors_its_words(s: LogState, frame: CanFrame, i: int)
    requires
        frame.len == 8,
        0x200 <= frame.id < 0x320,
        word_array(frame.id - frame.id % 16) matches Some((_, _, n)) && 0 <= i < n,
    ensures
        ({
            let (index, first, _) = word_array(frame.id - frame.id % 16)->0;
            let key = ObjectKey {
                bus: frame.bus,
                node: (frame.id % 16) as u8,
                index,
                sub: (first + i) as u8,
            };
            let (before, after) = (known(s, key), known(s.step(frame), key));
            let raw = after.changes.last().raw as int;
            &&& is_number_in(
                raw,
                frame.data@.subrange(2 * i, 2 * i + 2),
                2,
                index == 0x2004,
            )
            &&& was_seen_at(before, after, frame.t_utc, raw, Origin::Tpdo)
        }),
{
    let base = frame.id - frame.id % 16;
    let (index, first, n) = word_array(base)->0;
    let kind = KINDS@[(frame.id - 0x200) / 16];
    let values = tpdo_values(kind, frame.data@);
    let node = node_of(frame);
    assert((frame.id - 0x200) / 16 == (base - 0x200) / 16);
    assert(sdo_of(frame) is None);
    assert(s.step(frame) == s.process(node, frame.t_utc, kind, frame.data@));
    assert(values[i].0 == index && values[i].1 == first + i);
    lemma_mirrored_once(s.objects, node, frame.t_utc, values, i);
    let pair = frame.data@.subrange(2 * i, 2 * i + 2);
    assert(pair[0] == frame.data@[2 * i] && pair[1] == frame.data@[2 * i + 1]);
    let key = ObjectKey { bus: frame.bus, node: node.node, index, sub: (first + i) as u8 };
    let (before, after) = (known(s, key), known(s.step(frame), key));
    assert(after == before.record(frame.t_utc, values[i].2, Origin::Tpdo));
    assert(after.changes.len() > before.changes.len() ==> after.changes.drop_last()
        =~= before.changes);
}

proof fn lemma_outputs_are_outputs(data: Seq<u8>, n: nat, k: int)
    requires
        n <= 4,
        0 <= k < outputs(data, n).len(),
    ensures
        outputs(data, n)[k].0 == 0x2020 || outputs(data, n)[k].0 == 0x2021,
        1 <= outputs(data, n)[k].1 <= n,
    decreases n,
{
    if n > 0 {
        let front = outputs(data, (n - 1) as nat);
        if k < front.len() {
            lemma_outputs_are_outputs(data, (n - 1) as nat, k);
        }
    }
}

proof fn lemma_mirrored_add(
    objects: Map<u64, TrackState>,
    node: NodeKey,
    t: i64,
    a: Seq<(u16, u8, i64)>,
    b: Seq<(u16, u8, i64)>,
)
    ensures
        mirrored(objects, node, t, a + b) == mirrored(mirrored(objects, node, t, a), node, t, b),
    decreases b.len(),
{
    if b.len() == 0 {
        assert(a + b =~= a);
    } else {
        assert((a + b).drop_last() =~= a + b.drop_last());
        lemma_mirrored_add(objects, node, t, a, b.drop_last());
    }
}

/// The object of an output: whether it is switched on, or its pulse width.
spec fn output_key(node: NodeKey, pwm: bool, i: int) -> ObjectKey {
    ObjectKey {
        bus: node.bus,
        node: node.node,
        index: if pwm {
            0x2021
        } else {
            0x2020
        },
        sub: (i + 1) as u8,
    }
}

/// What a word of an output says of whether it is switched on, or of its pulse width.
pub open spec fn output_says(w: int, pwm: bool) -> Option<int> {
    if w == 0 {
        Some(0)
    } else if w == 0x8000 {
        if pwm {
            None
        } else {
            Some(1)
        }
    } else if pwm {
        Some(w)
    } else {
        None
    }
}

proof fn lemma_outputs(
    objects: Map<u64, TrackState>,
    node: NodeKey,
    t: i64,
    data: Seq<u8>,
    n: nat,
    i: int,
    pwm: bool,
)
    requires
        n <= 4,
        0 <= i < 4,
    ensures
        ({
            let code = output_key(node, pwm, i).code_spec();
            let after = track_of(mirrored(objects, node, t, outputs(data, n)), code);
            match output_says(word(data, i), pwm) {
                Some(v) if i < n => after == track_of(objects, code).record(
                    t,
                    v as i64,
                    Origin::Tpdo,
                ),
                _ => after == track_of(objects, code),
            }
        }),
    decreases n,
{
    if n > 0 {
        let front = outputs(data, (n - 1) as nat);
        let w = word(data, n - 1);
        let last = if w == 0x8000 {
            seq![(0x2020u16, n as u8, 1i64)]
        } else if w == 0 {
            seq![(0x2020u16, n as u8, 0i64), (0x2021u16, n as u8, 0i64)]
        } else {
            seq![(0x2021u16, n as u8, w as i64)]
        };
        let key = output_key(node, pwm, i);
        lemma_outputs(objects, node, t, data, (n - 1) as nat, i, pwm);
        lemma_mirrored_add(objects, node, t, front, last);
        let mid = mirrored(objects, node, t, front);
        if i == n - 1 && output_says(w, pwm) is Some {
            let at = if w == 0 && pwm {
                1int
            } else {
                0int
            };
            assert(last[at] == (key.index, key.sub, output_says(w, pwm)->0 as i64));
            lemma_mirrored_once(mid, node, t, last, at);
        } else {
            lemma_not_mirrored(mid, node, t, last, key);
        }
    }
}

/// The outputs of `0x240 + node`, word by word: zero is switched off without a pulse width,
/// 0x8000 is switched on and says nothing of the width, and anything else is a width and says
/// nothing of the switch.
pub proof fn process_data_mirrors_its_outputs(s: LogState, frame: CanFrame, i: int, pwm: bool)
    requires
        frame.len == 8,
        0x240 <= frame.id < 0x250,
        0 <= i < 4,
    ensures
        ({
            let key = ObjectKey {
                bus: frame.bus,
                node: (frame.id % 16) as u8,
                index: if pwm {
                    0x2021
                } else {
                    0x2020
                },
                sub: (i + 1) as u8,
            };
            let w = frame.data@[2 * i] + 256 * frame.data@[2 * i + 1];
            let (before, after) = (known(s, key), known(s.step(frame), key));
            match output_says(w, pwm) {
                Some(v) => was_seen_at(before, after, frame.t_utc, v, Origin::Tpdo),
                None => after == before,
            }
        }),
{
    assert(sdo_of(frame) is None);
    assert(KINDS@[(frame.id - 0x200) / 16] == TpdoKind::HcoState);
    let node = node_of(frame);
    lemma_outputs(s.objects, node, frame.t_utc, frame.data@, 4, i, pwm);
    let key = output_key(node, pwm, i);
    let (before, after) = (known(s, key), known(s.step(frame), key));
    assert(after.changes.len() > before.changes.len() ==> after.changes.drop_last()
        =~= before.changes);
}

/// A single object that process data copies, at a place among the values of its frame.
spec fn listed(frame: CanFrame, kind: TpdoKind, at: int, index: u16, sub: int, v: int) -> bool {
    let values = tpdo_values(kind, frame.data@);
    &&& 0 <= at < values.len()
    &&& values[at] == (index, sub as u8, v as i64)
    &&& forall|k: int|
        0 <= k < values.len() && k != at ==> (#[trigger] values[k]).0 != index || values[k].1
            != sub as u8
}

proof fn lemma_listed(
    s: LogState,
    frame: CanFrame,
    kind: TpdoKind,
    at: int,
    index: u16,
    sub: int,
    v: int,
)
    requires
        frame.len == 8,
        0x200 <= frame.id < 0x320,
        KINDS@[(frame.id - 0x200) / 16] == kind,
        listed(frame, kind, at, index, sub, v),
        0 <= v < 0x1_0000_0000,
    ensures
        ({
            let key = ObjectKey {
                bus: frame.bus,
                node: (frame.id % 16) as u8,
                index,
                sub: sub as u8,
            };
            was_seen_at(known(s, key), known(s.step(frame), key), frame.t_utc, v, Origin::Tpdo)
        }),
{
    assert(sdo_of(frame) is None);
    let node = node_of(frame);
    lemma_mirrored_once(s.objects, node, frame.t_utc, tpdo_values(kind, frame.data@), at);
    let key = ObjectKey { bus: frame.bus, node: node.node, index, sub: sub as u8 };
    let (before, after) = (known(s, key), known(s.step(frame), key));
    assert(after.changes.len() > before.changes.len() ==> after.changes.drop_last()
        =~= before.changes);
}

/// The states of the valves and the owners of the outputs, `0x230 + node`, are four bits each,
/// the lower ones of a byte first; the relief's state is the fifth byte.
pub proof fn process_data_mirrors_its_states(s: LogState, frame: CanFrame, i: int)
    requires
        frame.len == 8,
        0x230 <= frame.id < 0x240,
        0 <= i < 4,
    ensures
        ({
            let key = |index: u16, sub: int| ObjectKey {
                bus: frame.bus,
                node: (frame.id % 16) as u8,
                index,
                sub: sub as u8,
            };
            let half = |byte: int| if i % 2 == 0 {
                byte % 16
            } else {
                byte / 16
            };
            let seen = |k: ObjectKey, v: int| was_seen_at(
                known(s, k),
                known(s.step(frame), k),
                frame.t_utc,
                v,
                Origin::Tpdo,
            );
            &&& seen(key(0x2013, i + 1), half(frame.data@[i / 2] as int))
            &&& seen(key(0x2022, i + 1), half(frame.data@[2 + i / 2] as int))
            &&& seen(key(0x2015, 0), frame.data@[4] as int)
        }),
{
    let d = frame.data@;
    assert(KINDS@[(frame.id - 0x200) / 16] == TpdoKind::ValveStatus);
    let a = if i % 2 == 0 {
        d[i / 2] as int % 16
    } else {
        d[i / 2] as int / 16
    };
    let b = if i % 2 == 0 {
        d[2 + i / 2] as int % 16
    } else {
        d[2 + i / 2] as int / 16
    };
    lemma_listed(s, frame, TpdoKind::ValveStatus, i, 0x2013, i + 1, a);
    lemma_listed(s, frame, TpdoKind::ValveStatus, 4 + i, 0x2022, i + 1, b);
    lemma_listed(s, frame, TpdoKind::ValveStatus, 8, 0x2015, 0, d[4] as int);
}

/// Two bits of a byte, the lowest first.
pub open spec fn two_bits(byte: int, place: int) -> int {
    if place == 0 {
        byte % 4
    } else if place == 1 {
        byte % 16 / 4
    } else if place == 2 {
        byte % 64 / 16
    } else {
        byte / 64
    }
}

proof fn lemma_two_bits(bytes: Seq<u8>, i: int)
    requires
        0 <= i < 12,
        bytes.len() >= 3,
    ensures
        pair_of_bits(bytes, i) == two_bits(bytes[i / 4] as int, i % 4),
        0 <= pair_of_bits(bytes, i) < 4,
{
    let b = bytes[i / 4];
    assert(b / 4 % 4 == b % 16 / 4 && b / 16 % 4 == b % 64 / 16) by (bit_vector);
    assert(b / 4 % 4 < 4 && b / 16 % 4 < 4 && b / 64 < 4 && b % 4 < 4) by (bit_vector);
}

proof fn lemma_units_listed(frame: CanFrame, slot: int)
    requires
        0 <= slot < 12,
    ensures
        listed(
            frame,
            TpdoKind::SensorUnits,
            slot,
            0x2005,
            slot + 1,
            pair_of_bits(frame.data@, slot),
        ),
{
    let values = tpdo_values(TpdoKind::SensorUnits, frame.data@);
    assert(values.len() == 12);
    assert forall|k: int| 0 <= k < values.len() implies (#[trigger] values[k]).1 == k + 1 by {}
}

/// The unit codes of the sensors, `0x2C0 + node`, are two bits for each slot, the lowest of a byte
/// first.
pub proof fn process_data_mirrors_its_units(s: LogState, frame: CanFrame, slot: int)
    requires
        frame.len == 8,
        0x2C0 <= frame.id < 0x2D0,
        0 <= slot < 12,
    ensures
        ({
            let code = two_bits(frame.data@[slot / 4] as int, slot % 4);
            let key = ObjectKey {
                bus: frame.bus,
                node: (frame.id % 16) as u8,
                index: 0x2005,
                sub: (slot + 1) as u8,
            };
            was_seen_at(known(s, key), known(s.step(frame), key), frame.t_utc, code, Origin::Tpdo)
        }),
{
    assert(KINDS@[(frame.id - 0x200) / 16] == TpdoKind::SensorUnits);
    lemma_two_bits(frame.data@, slot);
    lemma_units_listed(frame, slot);
    let code = pair_of_bits(frame.data@, slot);
    lemma_listed(s, frame, TpdoKind::SensorUnits, slot, 0x2005, slot + 1, code);
}

/// A node's own status, `0x300 + node`, and the sweeps of a scan, `0x2D0 + node`.
pub proof fn process_data_mirrors_its_status(s: LogState, frame: CanFrame)
    requires
        frame.len == 8,
        0x300 <= frame.id < 0x310 || 0x2D0 <= frame.id < 0x2E0,
    ensures
        ({
            let d = frame.data@;
            let seen = |index: u16, v: int|
                {
                    let k = ObjectKey {
                        bus: frame.bus,
                        node: (frame.id % 16) as u8,
                        index,
                        sub: 0,
                    };
                    was_seen_at(
                        known(s, k),
                        known(s.step(frame), k),
                        frame.t_utc,
                        v,
                        Origin::Tpdo,
                    )
                };
            if frame.id < 0x300 {
                seen(0x2003, d[4] + 256 * d[5])
            } else {
                &&& seen(0x2032, d[0] as int)
                &&& seen(
                    0x2031,
                    if d[1] == 0 {
                        0
                    } else {
                        1
                    },
                )
                &&& seen(0x2033, d[4] + 256 * (d[5] + 256 * (d[6] + 256 * d[7])))
            }
        }),
{
    let d = frame.data@;
    if frame.id < 0x300 {
        assert(KINDS@[(frame.id - 0x200) / 16] == TpdoKind::I2cScan);
        lemma_listed(s, frame, TpdoKind::I2cScan, 2, 0x2003, 0, d[4] + 256 * d[5]);
    } else {
        assert(KINDS@[(frame.id - 0x200) / 16] == TpdoKind::Status);
        let on: int = if d[1] == 0 {
            0
        } else {
            1
        };
        let all = d[4] + 256 * (d[5] + 256 * (d[6] + 256 * d[7]));
        lemma_listed(s, frame, TpdoKind::Status, 0, 0x2032, 0, d[0] as int);
        lemma_listed(s, frame, TpdoKind::Status, 1, 0x2031, 0, on);
        lemma_listed(s, frame, TpdoKind::Status, 2, 0x2033, 0, all);
    }
}

/// A frame of process data says nothing of other nodes, nor of objects that process data does
/// not copy.
pub proof fn process_data_is_of_its_own_node(s: LogState, frame: CanFrame, key: ObjectKey)
    requires
        0x200 <= frame.id < 0x320,
        key.bus != frame.bus || key.node != frame.id % 16 || key.index < 0x2000 || key.index
            > 0x2041,
    ensures
        known(s.step(frame), key) == known(s, key),
{
    assert(sdo_of(frame) is None);
    let kind = KINDS@[(frame.id - 0x200) / 16];
    if frame.len == 8 {
        if kind == TpdoKind::HcoState {
            assert forall|k: int| 0 <= k < outputs(frame.data@, 4).len() implies 0x2020 <= (
            #[trigger] outputs(frame.data@, 4)[k]).0 <= 0x2021 by {
                lemma_outputs_are_outputs(frame.data@, 4, k);
            }
        }
        lemma_not_mirrored(
            s.objects,
            node_of(frame),
            frame.t_utc,
            tpdo_values(kind, frame.data@),
            key,
        );
    }
}

} // verus!
