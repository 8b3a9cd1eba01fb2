//! What holds of every replay, whatever the frames.
use vstd::prelude::*;

use crate::can::canopen::history::{lemma_sorted_track, sorted_track};
use crate::can::canopen::log::{in_time_order, only_changes, NodeKey, Origin, TrackState, ValueChange};
use crate::can::canopen::mirror::tpdo_values;
use crate::can::canopen::replay::{
    lemma_tpdo_values_few, mirrored, node_of, object_of, replayed, responded, track_of, LogState,
};
use crate::can::canopen::sdo::{sdo_of, Transfer};
use crate::can::iocan::{process_data_spec, HEARTBEAT_BASE};
use crate::can::CanFrame;

verus! {

broadcast use vstd::seq_lib::group_seq_properties;

/// An extended (29-bit) identifier is not this protocol: such a frame changes nothing.
pub proof fn extended_identifiers_change_nothing(s: LogState, frame: CanFrame)
    requires
        frame.id > 0x7FF,
    ensures
        s.step(frame) == s,
{
}

/// A write lands when it is acknowledged: whatever was known before, a write request followed
/// by its acknowledgement leaves the object at the value written, as of the acknowledgement,
/// and the acknowledgement knows how long it took.
pub proof fn an_acknowledged_write_lands(s: LogState, asked: CanFrame, answer: CanFrame)
    requires
        asked.id <= 0x7FF,
        answer.id <= 0x7FF,
        sdo_of(asked) matches Some(r) && r.kind is WriteRequest && r.request,
        sdo_of(answer) matches Some(a) && a.kind is WriteAck && !a.request,
        object_of(sdo_of(asked)->0) == object_of(sdo_of(answer)->0),
    ensures
        ({
            let after = s.step(asked).step(answer);
            let code = object_of(sdo_of(answer)->0).code_spec();
            let track = track_of(after.objects, code);
            let before = track_of(s.step(asked).objects, code);
            let written = sdo_of(asked)->0.value_spec()->0 as i64;
            &&& track.writes == before.writes + 1
            &&& track.changes.last().raw == written
            &&& track.last_seen == answer.t_utc
            &&& (before.changes.len() == 0 || before.changes.last().raw != written)
                ==> track.changes.last() == (ValueChange {
                t_utc: answer.t_utc,
                raw: written,
                origin: Origin::SdoWrite,
            })
            &&& after.transfers.last().latency == Some((answer.t_utc - asked.t_utc) as i128)
        }),
{
    let r = sdo_of(asked)->0;
    let a = sdo_of(answer)->0;
    assert(node_of(asked) == node_of(answer));
    let mid = s.step(asked);
    assert(mid == s.request(node_of(asked), r));
    assert(mid.transfers[mid.pending[node_of(asked).code_spec()] as int] == r);
    assert(mid.answered_by(node_of(answer), a) == Some(r));
}

/// A rejected write does not land: an abort is counted and its reason kept, and no object
/// changes value.
pub proof fn a_rejected_write_does_not_land(s: LogState, answer: CanFrame, code: u64)
    requires
        answer.id <= 0x7FF,
        sdo_of(answer) matches Some(a) && a.kind is Abort && !a.request,
    ensures
        track_of(s.step(answer).objects, code).changes == track_of(s.objects, code).changes,
        code == object_of(sdo_of(answer)->0).code_spec() ==> ({
            let track = track_of(s.step(answer).objects, code);
            &&& track.aborts == track_of(s.objects, code).aborts + 1
            &&& track.last_abort == Some(sdo_of(answer)->0.kind->Abort_0)
        }),
{
}

proof fn lemma_record_only_changes(track: TrackState, t: i64, raw: i64, origin: Origin)
    requires
        only_changes(track.changes),
    ensures
        only_changes(track.record(t, raw, origin).changes),
{
}

proof fn lemma_responded_only_changes(
    track: TrackState,
    response: Transfer,
    request: Option<Transfer>,
)
    requires
        only_changes(track.changes),
    ensures
        only_changes(responded(track, response, request).changes),
{
    let read = TrackState { reads: track.reads + 1, ..track };
    let written = TrackState { writes: track.writes + 1, ..track };
    match response.value_spec() {
        Some(raw) => lemma_record_only_changes(read, response.t_utc, raw as i64, Origin::SdoRead),
        None => {},
    }
    match request {
        Some(r) => match r.value_spec() {
            Some(raw) => lemma_record_only_changes(
                written,
                response.t_utc,
                raw as i64,
                Origin::SdoWrite,
            ),
            None => {},
        },
        None => {},
    }
}

proof fn lemma_mirrored_only_changes(
    objects: Map<u64, TrackState>,
    node: NodeKey,
    t: i64,
    values: Seq<(u16, u8, i64)>,
    code: u64,
)
    requires
        forall|c: u64| only_changes((#[trigger] track_of(objects, c)).changes),
    ensures
        only_changes(track_of(mirrored(objects, node, t, values), code).changes),
    decreases values.len(),
{
    if values.len() > 0 {
        lemma_mirrored_only_changes(objects, node, t, values.drop_last(), code);
        let before = mirrored(objects, node, t, values.drop_last());
        let (index, sub, raw) = values.last();
        lemma_record_only_changes(track_of(before, code), t, raw, Origin::Tpdo);
    }
}

/// In the order values were seen, no recorded change repeats the value before it.
pub proof fn only_changes_are_recorded(frames: Seq<CanFrame>, code: u64)
    ensures
        only_changes(track_of(replayed(frames).objects, code).changes),
    decreases frames.len(),
{
    if frames.len() > 0 {
        let s = replayed(frames.drop_last());
        let frame = frames.last();
        assert forall|c: u64| only_changes((#[trigger] track_of(s.objects, c)).changes) by {
            only_changes_are_recorded(frames.drop_last(), c);
        }
        let node = node_of(frame);
        let track = track_of(s.objects, code);
        assert(only_changes(track.changes));
        if let Some(t) = sdo_of(frame) {
            lemma_responded_only_changes(track, t, s.answered_by(node, t));
            let stale = s.transfers[s.pending[node.code_spec()] as int];
            lemma_record_only_changes(
                track,
                stale.t_utc,
                stale.value_spec()->0 as i64,
                Origin::SdoWrite,
            );
        } else if let Some((_, kind)) = process_data_spec(frame.id) {
            lemma_mirrored_only_changes(
                s.objects,
                node,
                frame.t_utc,
                tpdo_values(kind, frame.data@),
                code,
            );
        }
    }
}

/// Only changes are kept: once the log is over, an object's changes stand in time order, and none
/// of them repeats the value before it, whatever was answered and whatever was not.
pub proof fn only_changes_are_kept(frames: Seq<CanFrame>, code: u64)
    requires
        frames.len() <= usize::MAX / 32,
        replayed(frames).tracks().contains_key(code),
    ensures
        in_time_order(replayed(frames).tracks()[code].changes),
        only_changes(replayed(frames).tracks()[code].changes),
{
    let s = replayed(frames);
    lemma_changes_are_updates(frames, code);
    lemma_sorted_track(s.settled()[code]);
    assert(s.tracks()[code] == sorted_track(s.settled()[code]));
}

proof fn lemma_record_counts(track: TrackState, t: i64, raw: i64, origin: Origin)
    requires
        track.changes.len() <= track.updates,
    ensures
        track.record(t, raw, origin).changes.len() <= track.record(t, raw, origin).updates,
{
}

proof fn lemma_mirrored_counts(
    objects: Map<u64, TrackState>,
    node: NodeKey,
    t: i64,
    values: Seq<(u16, u8, i64)>,
    code: u64,
)
    requires
        track_of(objects, code).changes.len() <= track_of(objects, code).updates,
    ensures
        ({
            let after = track_of(mirrored(objects, node, t, values), code);
            &&& after.changes.len() <= after.updates
            &&& after.changes.len() <= track_of(objects, code).changes.len() + values.len()
        }),
    decreases values.len(),
{
    if values.len() > 0 {
        lemma_mirrored_counts(objects, node, t, values.drop_last(), code);
        let before = mirrored(objects, node, t, values.drop_last());
        let (index, sub, raw) = values.last();
        lemma_record_counts(track_of(before, code), t, raw, Origin::Tpdo);
    }
}

pub proof fn lemma_changes_are_updates(frames: Seq<CanFrame>, code: u64)
    ensures
        ({
            let track = track_of(replayed(frames).objects, code);
            &&& track.changes.len() <= track.updates
            &&& track.changes.len() <= 14 * frames.len()
        }),
    decreases frames.len(),
{
    if frames.len() > 0 {
        let s = replayed(frames.drop_last());
        let frame = frames.last();
        lemma_changes_are_updates(frames.drop_last(), code);
        if let Some((_, kind)) = process_data_spec(frame.id) {
            lemma_tpdo_values_few(kind, frame.data@);
            lemma_mirrored_counts(
                s.objects,
                node_of(frame),
                frame.t_utc,
                tpdo_values(kind, frame.data@),
                code,
            );
        }
    }
}

/// Every change is an update: an object changes no more often than a value of it is seen.
pub proof fn every_change_is_an_update(frames: Seq<CanFrame>, code: u64)
    requires
        frames.len() <= usize::MAX / 32,
        replayed(frames).tracks().contains_key(code),
    ensures
        replayed(frames).tracks()[code].changes.len() <= replayed(frames).tracks()[code].updates,
{
    let s = replayed(frames);
    lemma_changes_are_updates(frames, code);
    lemma_sorted_track(s.settled()[code]);
    assert(s.tracks()[code] == sorted_track(s.settled()[code]));
}

/// The transfers that frames carry, one after the other.
pub open spec fn decoded(frames: Seq<CanFrame>) -> Seq<Transfer>
    decreases frames.len(),
{
    if frames.len() == 0 {
        Seq::empty()
    } else {
        let before = decoded(frames.drop_last());
        match sdo_of(frames.last()) {
            Some(t) => before.push(t),
            None => before,
        }
    }
}

/// A transfer as its frame says it, without how long the answer took.
pub open spec fn as_sent(t: Transfer) -> Transfer {
    Transfer { latency: None, ..t }
}

/// The transfers of a log are those its frames carry, in their order; only how long an answer
/// took is added, and a request has taken no time.
pub proof fn transfers_are_the_decoded_frames(frames: Seq<CanFrame>)
    ensures
        replayed(frames).transfers.map_values(|t: Transfer| as_sent(t)) == decoded(frames),
        forall|i: int|
            0 <= i < replayed(frames).transfers.len() && (#[trigger] replayed(
                frames,
            ).transfers[i]).request ==> replayed(frames).transfers[i].latency is None,
    decreases frames.len(),
{
    if frames.len() > 0 {
        let front = frames.drop_last();
        transfers_are_the_decoded_frames(front);
        let s = replayed(front);
        let frame = frames.last();
        let sent = |t: Transfer| as_sent(t);
        if let Some(t) = sdo_of(frame) {
            assert(frame.id <= 0x7FF);
            assert(t.latency is None);
            let added = replayed(frames).transfers.last();
            assert(as_sent(added) == t);
            assert(replayed(frames).transfers.map_values(sent) =~= s.transfers.map_values(
                sent,
            ).push(t));
        }
    }
}

/// Seeing the value an object already has counts as an update and is no change.
pub proof fn a_repeated_value_is_no_change(track: TrackState, t: i64, origin: Origin)
    requires
        track.changes.len() > 0,
    ensures
        ({
            let after = track.record(t, track.changes.last().raw, origin);
            &&& after.changes == track.changes
            &&& after.updates == track.updates + 1
            &&& after.last_seen == t
        }),
{
}

/// Whether a frame is a heartbeat.
pub open spec fn is_heartbeat(frame: CanFrame) -> bool {
    HEARTBEAT_BASE <= frame.id < HEARTBEAT_BASE + 16
}

/// When a node's heartbeats came.
pub open spec fn beats(frames: Seq<CanFrame>, node: NodeKey) -> Seq<i64>
    decreases frames.len(),
{
    if frames.len() == 0 {
        Seq::empty()
    } else {
        let before = beats(frames.drop_last(), node);
        if is_heartbeat(frames.last()) && node_of(frames.last()) == node {
            before.push(frames.last().t_utc)
        } else {
            before
        }
    }
}

/// The first longest gap between neighbouring beats, and when it ended.
pub open spec fn longest_gap(beats: Seq<i64>) -> Option<(int, i64)>
    decreases beats.len(),
{
    if beats.len() < 2 {
        None
    } else {
        let gap = beats.last() - beats[beats.len() - 2];
        match longest_gap(beats.drop_last()) {
            Some((longest, at)) if gap <= longest => Some((longest, at)),
            _ => Some((gap, beats.last())),
        }
    }
}

/// A node's record sums up its heartbeats and nothing else it sent: their number, the first
/// and the last of them, and the longest silence between two.
pub proof fn heartbeats_are_summed_up(frames: Seq<CanFrame>, node: NodeKey)
    ensures
        ({
            let nodes = replayed(frames).nodes;
            let code = node.code_spec();
            let all = beats(frames, node);
            &&& nodes.contains_key(code) ==> {
                &&& nodes[code].key == node
                &&& nodes[code].heartbeats == all.len()
                &&& nodes[code].heartbeat_span == (if all.len() == 0 {
                    None
                } else {
                    Some((all[0], all.last()))
                })
                &&& nodes[code].longest_heartbeat_gap == longest_gap(all)
            }
            &&& !nodes.contains_key(code) ==> all.len() == 0
        }),
    decreases frames.len(),
{
    if frames.len() > 0 {
        heartbeats_are_summed_up(frames.drop_last(), node);
        let s = replayed(frames.drop_last());
        let frame = frames.last();
        let other = node_of(frame);
        assert(other.code_spec() == node.code_spec() ==> other == node);
        let before = beats(frames.drop_last(), node);
        let all = beats(frames, node);
        if is_heartbeat(frame) && other == node {
            assert(all.drop_last() =~= before);
            assert(sdo_of(frame) is None);
        }
    }
}

/// The longest gap is one of the gaps, and none is longer.
pub proof fn the_longest_gap_is_the_longest(beats: Seq<i64>)
    ensures
        longest_gap(beats) is Some <==> beats.len() >= 2,
        longest_gap(beats) matches Some((longest, at)) ==> {
            &&& forall|i: int| 0 < i < beats.len() ==> (#[trigger] beats[i]) - beats[i - 1] <= longest
            &&& exists|i: int|
                0 < i < beats.len() && (#[trigger] beats[i]) == at && at - beats[i - 1] == longest
        },
    decreases beats.len(),
{
    if beats.len() >= 2 {
        let front = beats.drop_last();
        the_longest_gap_is_the_longest(front);
        let gap = beats.last() - beats[beats.len() - 2];
        match longest_gap(front) {
            Some((longest, at)) => {
                let k = choose|i: int|
                    0 < i < front.len() && (#[trigger] front[i]) == at && at - front[i - 1] == longest;
                assert(beats[k] == front[k] && beats[k - 1] == front[k - 1]);
                assert forall|i: int| 0 < i < beats.len() implies (#[trigger] beats[i]) - beats[i - 1]
                    <= longest || i == beats.len() - 1 by {
                    if i < beats.len() - 1 {
                        assert(front[i] == beats[i] && front[i - 1] == beats[i - 1]);
                    }
                }
            },
            None => {},
        }
        assert(beats[beats.len() - 1] == beats.last());
    }
}

/// Whether a log holds no request of the master's.
pub open spec fn answers_only(frames: Seq<CanFrame>) -> bool {
    forall|i: int|
        0 <= i < frames.len() ==> !(sdo_of(#[trigger] frames[i]) matches Some(t) && t.request)
}

/// Whether a value came from anywhere but a write.
pub open spec fn not_written(changes: Seq<ValueChange>) -> bool {
    forall|i: int| 0 <= i < changes.len() ==> (#[trigger] changes[i]).origin != Origin::SdoWrite
}

proof fn lemma_mirrored_not_written(
    objects: Map<u64, TrackState>,
    node: NodeKey,
    t: i64,
    values: Seq<(u16, u8, i64)>,
    code: u64,
)
    requires
        forall|c: u64| not_written((#[trigger] track_of(objects, c)).changes),
    ensures
        not_written(track_of(mirrored(objects, node, t, values), code).changes),
    decreases values.len(),
{
    if values.len() > 0 {
        lemma_mirrored_not_written(objects, node, t, values.drop_last(), code);
    }
}

/// A log that recorded the nodes' answers but not the master's requests knows of writes, never
/// of what was written: every value in it comes from a read or from process data, and nothing
/// is left pending.
pub proof fn without_requests_no_value_is_written(frames: Seq<CanFrame>, code: u64)
    requires
        answers_only(frames),
    ensures
        not_written(track_of(replayed(frames).objects, code).changes),
        replayed(frames).pending == Map::<u64, nat>::empty(),
    decreases frames.len(),
{
    if frames.len() > 0 {
        let front = frames.drop_last();
        let s = replayed(front);
        let frame = frames.last();
        assert(answers_only(front)) by {
            assert forall|i: int| 0 <= i < front.len() implies !(sdo_of(#[trigger] front[i]) matches Some(t)
                && t.request) by {
                assert(front[i] == frames[i]);
            }
        }
        assert(!(sdo_of(frames[frames.len() - 1]) matches Some(t) && t.request));
        without_requests_no_value_is_written(front, code);
        assert forall|c: u64| not_written((#[trigger] track_of(s.objects, c)).changes) by {
            without_requests_no_value_is_written(front, c);
        }
        if let Some((_, kind)) = process_data_spec(frame.id) {
            lemma_mirrored_not_written(
                s.objects,
                node_of(frame),
                frame.t_utc,
                tpdo_values(kind, frame.data@),
                code,
            );
        }
        assert(replayed(frames).pending =~= Map::<u64, nat>::empty());
    }
}

} // verus!
