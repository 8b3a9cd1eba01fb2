//! What a log comes to once it has been replayed: the values in force, the line of an object's
//! history, and what each node did.
use vstd::prelude::*;

use crate::can::canopen::dictionary::{Format, ObjectDef};
use crate::can::canopen::history::{
    history_line, lemma_time_sorted, lemma_without_repeats, plotted, sorted_track, steps,
    time_sorted, times, without_repeats,
};
use crate::can::canopen::log::{
    in_force, in_time_order, object_codes, NodeKey, TrackState, ValueChange,
};
use crate::can::canopen::mirror::tpdo_values;
use crate::can::canopen::replay::{mirrored, node_of, replayed, track_of, LogState};
use crate::can::canopen::sdo::sdo_of;
use crate::can::canopen::wire_laws::{
    a_read_lands_when_it_is_answered, addressed, answers_a_read, carries, known,
};
use crate::can::iocan::{process_data_spec, KINDS};
use crate::can::CanFrame;
use crate::order::{a_stable_order_exists, is_stable_order, precedes};

verus! {

broadcast use vstd::seq_lib::group_seq_properties;

proof fn lemma_steps(def: Option<ObjectDef>, changes: Seq<ValueChange>, k: int)
    requires
        0 <= k < changes.len(),
    ensures
        steps(def, changes).len() == 2 * changes.len() - 1,
        steps(def, changes)[2 * k] == (changes[k].t_utc, plotted(def, changes[k].raw)),
        k > 0 ==> steps(def, changes)[2 * k - 1] == (
            changes[k].t_utc,
            plotted(def, changes[k - 1].raw),
        ),
    decreases changes.len(),
{
    if changes.len() > 1 {
        let front = changes.drop_last();
        let n = changes.len() as int;
        if k < n - 1 {
            lemma_steps(def, front, k);
        } else {
            lemma_steps(def, front, 0);
        }
        let rest = steps(def, front);
        let (last, held) = (changes[n - 1], changes[n - 2]);
        let tail = seq![(last.t_utc, plotted(def, held.raw)), (last.t_utc, plotted(def, last.raw))];
        assert(steps(def, changes) == rest + tail);
        if k == n - 1 {
            assert((rest + tail)[rest.len() as int] == tail[0]);
            assert((rest + tail)[rest.len() + 1int] == tail[1]);
        }
    }
}

/// An object's history is a line of steps: at every change it is at the new value, and just
/// before it, at the same instant, still at the old one. It goes on at the last value to when the
/// object was last seen.
pub proof fn a_history_steps(def: Option<ObjectDef>, track: TrackState, k: int)
    requires
        0 <= k < track.changes.len(),
    ensures
        ({
            let (line, changes) = (history_line(def, track), track.changes);
            let n = changes.len() as int;
            &&& line[2 * k] == (changes[k].t_utc, plotted(def, changes[k].raw))
            &&& k > 0 ==> line[2 * k - 1] == (changes[k].t_utc, plotted(def, changes[k - 1].raw))
            &&& if track.last_seen > changes[n - 1].t_utc {
                line.len() == 2 * n && line[2 * n - 1] == (
                    track.last_seen,
                    plotted(def, changes[n - 1].raw),
                )
            } else {
                line.len() == 2 * n - 1
            }
        }),
{
    lemma_steps(def, track.changes, k);
    assert(track.changes.last() == track.changes[track.changes.len() - 1]);
}

/// What is drawn of a value is the value, but for a valve's position word, whose top bit is a
/// flag: of it the number below the flag is drawn.
pub proof fn a_value_is_plotted_as_it_is(def: Option<ObjectDef>, raw: i64)
    ensures
        match def {
            Some(d) if d.format == Format::Position => 0 <= plotted(def, raw) < 0x8000 && (raw
                - plotted(def, raw)) % 0x8000 == 0,
            _ => plotted(def, raw) == raw,
        },
{
}

/// Leaving out what repeats the value before it changes no value: at every instant the same
/// number is in force.
pub proof fn repeats_are_of_no_consequence(changes: Seq<ValueChange>, t: i64)
    requires
        in_time_order(changes),
    ensures
        ({
            let kept = without_repeats(changes);
            let (i, j) = (in_force(changes, t), in_force(kept, t));
            &&& i >= 0 <==> j >= 0
            &&& i >= 0 ==> i < changes.len() && j < kept.len() && changes[i].raw == kept[j].raw
        }),
    decreases changes.len(),
{
    if changes.len() > 0 {
        let front = changes.drop_last();
        assert(in_time_order(front));
        repeats_are_of_no_consequence(front, t);
        lemma_without_repeats(front);
        let before = without_repeats(front);
        if front.len() > 0 {
            assert(front.last() == changes[changes.len() - 2]);
            assert(changes[changes.len() - 2].t_utc <= changes[changes.len() - 1].t_utc);
        }
        if before.len() > 0 && before.last().raw == changes.last().raw {
        } else {
            assert(before.push(changes.last()).drop_last() =~= before);
        }
    }
}

/// Sorting changes by time loses none and invents none.
pub proof fn sorting_keeps_every_change(changes: Seq<ValueChange>, c: ValueChange)
    requires
        changes.len() <= usize::MAX,
    ensures
        in_time_order(time_sorted(changes)),
        time_sorted(changes).len() == changes.len(),
        time_sorted(changes).contains(c) <==> changes.contains(c),
{
    a_stable_order_exists(times(changes));
    let order = choose|order: Seq<usize>| is_stable_order(times(changes), order);
    lemma_time_sorted(changes, order);
    let sorted = time_sorted(changes);
    if sorted.contains(c) {
        let k = sorted.index_of(c);
        assert(sorted[k] == changes[order[k] as int]);
    }
    if changes.contains(c) {
        let p = changes.index_of(c);
        assert(order.contains(p as usize));
        let k = order.index_of(p as usize);
        assert(sorted[k] == changes[order[k] as int]);
    }
}

proof fn lemma_last_stays_last(changes: Seq<ValueChange>)
    requires
        0 < changes.len() <= usize::MAX,
        forall|k: int| 0 <= k < changes.len() ==> (#[trigger] changes[k]).t_utc
            <= changes.last().t_utc,
    ensures
        time_sorted(changes).len() == changes.len(),
        time_sorted(changes).last() == changes.last(),
{
    a_stable_order_exists(times(changes));
    let order = choose|order: Seq<usize>| is_stable_order(times(changes), order);
    lemma_time_sorted(changes, order);
    let n = changes.len() as int;
    assert(order.contains((n - 1) as usize));
    let k = order.index_of((n - 1) as usize);
    if k < n - 1 {
        assert(precedes(times(changes), order[k] as int, order[n - 1] as int));
        assert(changes[order[n - 1] as int].t_utc <= changes.last().t_utc);
    }
}

spec fn all_by(changes: Seq<ValueChange>, t: i64) -> bool {
    forall|k: int| 0 <= k < changes.len() ==> (#[trigger] changes[k]).t_utc <= t
}

proof fn lemma_mirrored_by(
    objects: Map<u64, TrackState>,
    node: NodeKey,
    at: i64,
    values: Seq<(u16, u8, i64)>,
    code: u64,
    t: i64,
)
    requires
        all_by(track_of(objects, code).changes, t),
        at <= t,
    ensures
        all_by(track_of(mirrored(objects, node, at, values), code).changes, t),
    decreases values.len(),
{
    if values.len() > 0 {
        lemma_mirrored_by(objects, node, at, values.drop_last(), code, t);
    }
}

proof fn lemma_replayed_by(frames: Seq<CanFrame>, code: u64, t: i64)
    requires
        forall|k: int| 0 <= k < frames.len() ==> (#[trigger] frames[k]).t_utc <= t,
    ensures
        all_by(track_of(replayed(frames).objects, code).changes, t),
        forall|k: int|
            0 <= k < replayed(frames).transfers.len() ==> (#[trigger] replayed(
                frames,
            ).transfers[k]).t_utc <= t,
    decreases frames.len(),
{
    if frames.len() > 0 {
        let front = frames.drop_last();
        assert forall|k: int| 0 <= k < front.len() implies (#[trigger] front[k]).t_utc <= t by {
            assert(front[k] == frames[k]);
        }
        lemma_replayed_by(front, code, t);
        crate::can::canopen::replay::replayed_is_wf(front);
        let s = replayed(front);
        let frame = frames.last();
        assert(frame == frames[frames.len() - 1]);
        if let Some((_, kind)) = process_data_spec(frame.id) {
            lemma_mirrored_by(
                s.objects,
                node_of(frame),
                frame.t_utc,
                tpdo_values(kind, frame.data@),
                code,
                t,
            );
        }
    }
}

/// What was read is the value from then on: a log, however it began, that ends with an answer to
/// a read, no earlier than anything before it and other than the value the object was last seen
/// at, has the object at the number in the answer's bytes at that time and at any time after.
pub proof fn what_was_read_is_in_force(frames: Seq<CanFrame>, answer: CanFrame, t: i64)
    requires
        frames.len() < usize::MAX / 32,
        answers_a_read(answer),
        forall|k: int| 0 <= k < frames.len() ==> (#[trigger] frames[k]).t_utc <= answer.t_utc,
        answer.t_utc <= t,
        ({
            let before = known(replayed(frames), addressed(answer)).changes;
            before.len() == 0 || !carries(answer, before.last().raw as int)
        }),
    ensures
        ({
            let tracks = replayed(frames.push(answer)).tracks();
            let code = addressed(answer).code_spec();
            let changes = tracks[code].changes;
            &&& tracks.contains_key(code)
            &&& in_time_order(changes)
            &&& 0 <= in_force(changes, t) < changes.len()
            &&& carries(answer, changes[in_force(changes, t)].raw as int)
        }),
{
    let s = replayed(frames);
    let key = addressed(answer);
    let code = key.code_spec();
    let all = frames.push(answer);
    assert(all.drop_last() =~= frames);
    let after = replayed(all);
    assert(after == s.step(answer));
    a_read_lands_when_it_is_answered(s, answer, key);
    object_codes(key, key);
    assert(sdo_of(answer) is Some);
    assert(after.pending_write(code) is None);
    assert(after.objects.contains_key(code));
    let track = after.settled()[code];
    assert(track == known(after, key));
    assert forall|k: int| 0 <= k < all.len() implies (#[trigger] all[k]).t_utc <= answer.t_utc by {
        if k < frames.len() {
            assert(all[k] == frames[k]);
        }
    }
    lemma_replayed_by(all, code, answer.t_utc);
    crate::can::canopen::laws::lemma_changes_are_updates(all, code);
    lemma_last_stays_last(track.changes);
    let sorted = time_sorted(track.changes);
    sorting_keeps_every_change(track.changes, track.changes.last());
    lemma_without_repeats(sorted);
    repeats_are_of_no_consequence(sorted, t);
    assert(in_force(sorted, t) == sorted.len() - 1);
    assert(after.tracks()[code] == sorted_track(track));
}

/// Whether a frame is of a node at all: a transfer, a heartbeat, or full process data.
pub open spec fn is_of(frame: CanFrame, node: NodeKey) -> bool {
    &&& frame.bus == node.bus && frame.id % 16 == node.node
    &&& {
        ||| (0x580 <= frame.id < 0x590 || 0x600 <= frame.id < 0x610) && frame.len >= 4
        ||| 0x700 <= frame.id < 0x710
        ||| 0x200 <= frame.id < 0x320 && frame.len == 8
    }
}

/// How many of some frames are a node's requests, answers or aborts, or its process data of one
/// sort.
pub open spec fn tally(frames: Seq<CanFrame>, node: NodeKey, sort: Traffic) -> nat
    decreases frames.len(),
{
    if frames.len() == 0 {
        0
    } else {
        let frame = frames.last();
        let counts = is_of(frame, node) && match sort {
            Traffic::Asked => 0x600 <= frame.id < 0x610,
            Traffic::Answered => 0x580 <= frame.id < 0x590,
            Traffic::Aborted => 0x580 <= frame.id < 0x590 && frame.data@[0] / 32 == 4,
            Traffic::Broadcast(base) => base <= frame.id < base + 16,
        };
        tally(frames.drop_last(), node, sort) + if counts {
            1nat
        } else {
            0nat
        }
    }
}

/// What a node's frames are counted by.
pub enum Traffic {
    Asked,
    Answered,
    Aborted,
    Broadcast(int),
}

/// When a node was heard of, frame by frame.
pub open spec fn heard_at(frames: Seq<CanFrame>, node: NodeKey) -> Seq<i64>
    decreases frames.len(),
{
    if frames.len() == 0 {
        Seq::empty()
    } else {
        let before = heard_at(frames.drop_last(), node);
        if is_of(frames.last(), node) {
            before.push(frames.last().t_utc)
        } else {
            before
        }
    }
}

/// A node's record counts what went over the bus for it: the requests to it, its answers, the
/// aborts among them, its process data of each sort; and it knows when it was first and last
/// heard of.
pub proof fn traffic_is_counted(frames: Seq<CanFrame>, node: NodeKey, kind: int)
    requires
        0 <= kind < 18,
        node.node < 16,
    ensures
        ({
            let nodes = replayed(frames).nodes;
            let code = node.code_spec();
            let info = nodes[code];
            let heard = heard_at(frames, node);
            &&& nodes.contains_key(code) <==> heard.len() > 0
            &&& nodes.contains_key(code) ==> {
                &&& info.sdo_requests == tally(frames, node, Traffic::Asked)
                &&& info.sdo_responses == tally(frames, node, Traffic::Answered)
                &&& info.aborts == tally(frames, node, Traffic::Aborted)
                &&& info.tpdo_frames.len() == 18
                &&& info.tpdo_frames[kind] == tally(
                    frames,
                    node,
                    Traffic::Broadcast(0x200 + 16 * kind),
                )
                &&& info.first_seen == heard[0]
                &&& info.last_seen == heard.last()
            }
            &&& heard.len() == 0 ==> tally(frames, node, Traffic::Asked) == 0 && tally(
                frames,
                node,
                Traffic::Answered,
            ) == 0 && tally(frames, node, Traffic::Aborted) == 0 && tally(
                frames,
                node,
                Traffic::Broadcast(0x200 + 16 * kind),
            ) == 0
        }),
    decreases frames.len(),
{
    if frames.len() > 0 {
        traffic_is_counted(frames.drop_last(), node, kind);
        let s = replayed(frames.drop_last());
        let frame = frames.last();
        let other = node_of(frame);
        assert(other.code_spec() == node.code_spec() ==> other == node);
        assert(sdo_of(frame) is Some <==> (0x580 <= frame.id < 0x590 || 0x600 <= frame.id < 0x610)
            && frame.len >= 4);
        if 0x200 <= frame.id < 0x320 {
            let place = (frame.id - 0x200) / 16;
            crate::can::iocan::kinds_are_distinct(place);
            assert(process_data_spec(frame.id) == Some(((frame.id % 16) as u8, KINDS@[place])));
            assert(place == kind <==> 0x200 + 16 * kind <= frame.id < 0x200 + 16 * kind + 16);
        } else {
            assert(process_data_spec(frame.id) is None);
        }
    }
}

/// The state that a node is in is the one its last heartbeat with a payload carried.
pub proof fn the_last_heartbeat_says_the_state(s: LogState, frame: CanFrame, node: NodeKey)
    requires
        node.node < 16,
    ensures
        ({
            let (before, after) = (s.node_at(node, frame.t_utc), s.step(frame).node_at(
                node,
                frame.t_utc,
            ));
            if 0x700 <= frame.id < 0x710 && frame.len >= 1 && is_of(frame, node) {
                after.nmt_state == Some(frame.data@[0])
            } else {
                after.nmt_state == before.nmt_state
            }
        }),
{
    let other = node_of(frame);
    assert(other.code_spec() == node.code_spec() ==> other == node);
    if 0x700 <= frame.id < 0x710 {
        assert(sdo_of(frame) is None);
    }
}

} // verus!
