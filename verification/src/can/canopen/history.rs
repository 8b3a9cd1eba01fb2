//! Everything the log says about the IO boards' dictionaries, once it has been replayed.
use vstd::prelude::*;

use crate::can::canopen::dictionary::{object, object_spec, ObjectDef};
use crate::can::canopen::laws::{
    as_sent, decoded, every_change_is_an_update, transfers_are_the_decoded_frames,
};
use crate::can::canopen::log::{
    in_force, in_time_order, object_code_round_trip, object_codes, only_changes, NodeInfo, NodeKey, ObjectKey,
    ObjectTrack, TrackState, ValueChange,
};
use crate::can::canopen::replay::{
    node_map, object_map, object_of, replayed, unanswered, LogState, Replay,
};
use crate::can::canopen::sdo::{SdoTransfer, Transfer};
use crate::can::iocan::{sensor_unit, sensor_unit_spec};
use crate::can::{instance, push_instance, CanFrame};
use crate::keyed::Keyed;
use crate::order::{
    a_stable_order_exists, is_stable_order, picked, precedes, stable_order, stable_order_is_unique,
};
use crate::text::{dec, dec_int, fixed, hex, opt_view, push_dec, push_fixed, push_hex, push_int};

verus! {

broadcast use vstd::seq_lib::group_seq_properties;

/// When each change happened.
pub open spec fn times(changes: Seq<ValueChange>) -> Seq<i64> {
    changes.map_values(|c: ValueChange| c.t_utc)
}

/// The changes in time order; changes at one instant keep the order they were recorded in.
pub open spec fn time_sorted(changes: Seq<ValueChange>) -> Seq<ValueChange> {
    picked(changes, choose|order: Seq<usize>| is_stable_order(times(changes), order))
}

/// Changes without those that repeat the value before them.
pub open spec fn without_repeats(changes: Seq<ValueChange>) -> Seq<ValueChange>
    decreases changes.len(),
{
    if changes.len() == 0 {
        Seq::empty()
    } else {
        let before = without_repeats(changes.drop_last());
        if before.len() > 0 && before.last().raw == changes.last().raw {
            before
        } else {
            before.push(changes.last())
        }
    }
}

/// An object's track with its changes in time order: a write applied late, because nothing
/// answered it, can land out of order. Where it lands behind a value it repeats, it is no change.
pub open spec fn sorted_track(track: TrackState) -> TrackState {
    TrackState { changes: without_repeats(time_sorted(track.changes)), ..track }
}

pub proof fn lemma_without_repeats(changes: Seq<ValueChange>)
    requires
        in_time_order(changes),
    ensures
        in_time_order(without_repeats(changes)),
        only_changes(without_repeats(changes)),
        without_repeats(changes).len() <= changes.len(),
        changes.len() > 0 ==> without_repeats(changes).len() > 0 && without_repeats(
            changes,
        ).last().t_utc <= changes.last().t_utc,
    decreases changes.len(),
{
    if changes.len() > 0 {
        let front = changes.drop_last();
        assert(in_time_order(front));
        lemma_without_repeats(front);
        if front.len() > 0 {
            assert(front.last() == changes[changes.len() - 2]);
            assert(changes[changes.len() - 2].t_utc <= changes[changes.len() - 1].t_utc);
        }
    }
}

pub proof fn lemma_time_sorted(changes: Seq<ValueChange>, order: Seq<usize>)
    requires
        is_stable_order(times(changes), order),
    ensures
        time_sorted(changes) == picked(changes, order),
        time_sorted(changes).len() == changes.len(),
        in_time_order(time_sorted(changes)),
{
    let chosen = choose|order: Seq<usize>| is_stable_order(times(changes), order);
    stable_order_is_unique(times(changes), order, chosen);
    let sorted = picked(changes, order);
    assert forall|i: int, j: int| 0 <= i <= j < sorted.len() implies sorted[i].t_utc
        <= sorted[j].t_utc by {
        if i < j {
            assert(precedes(times(changes), order[i] as int, order[j] as int));
        }
    }
}

/// A finished track's changes stand in time order, none repeats the value before it, and none was
/// added.
pub(crate) proof fn lemma_sorted_track(track: TrackState)
    requires
        track.changes.len() <= usize::MAX,
    ensures
        in_time_order(sorted_track(track).changes),
        only_changes(sorted_track(track).changes),
        sorted_track(track).changes.len() <= track.changes.len(),
{
    a_stable_order_exists(times(track.changes));
    let order = choose|order: Seq<usize>| is_stable_order(times(track.changes), order);
    lemma_time_sorted(track.changes, order);
    lemma_without_repeats(time_sorted(track.changes));
}

fn sort_changes(changes: &Vec<ValueChange>) -> (r: Vec<ValueChange>)
    ensures
        r@ == without_repeats(time_sorted(changes@)),
        in_time_order(r@),
        only_changes(r@),
{
    let mut keys: Vec<i64> = Vec::new();
    let mut i: usize = 0;
    while i < changes.len()
        invariant
            i <= changes@.len(),
            keys@ == times(changes@.take(i as int)),
        decreases changes@.len() - i,
    {
        keys.push(changes[i].t_utc);
        i += 1;
        assert(keys@ =~= times(changes@.take(i as int)));
    }
    assert(changes@.take(i as int) =~= changes@);
    let order = stable_order(&keys);
    let ghost sorted = time_sorted(changes@);
    proof {
        lemma_time_sorted(changes@, order@);
        lemma_without_repeats(sorted);
    }
    let mut out: Vec<ValueChange> = Vec::new();
    let mut k: usize = 0;
    assert(sorted.take(0) =~= Seq::empty());
    while k < order.len()
        invariant
            k <= order@.len(),
            is_stable_order(times(changes@), order@),
            sorted == picked(changes@, order@),
            out@ == without_repeats(sorted.take(k as int)),
        decreases order@.len() - k,
    {
        let next = changes[order[k]];
        proof {
            assert(sorted.take(k + 1).drop_last() =~= sorted.take(k as int));
            assert(sorted.take(k + 1).last() == next);
        }
        let repeats = if out.len() == 0 {
            false
        } else {
            out[out.len() - 1].raw == next.raw
        };
        if !repeats {
            out.push(next);
        }
        k += 1;
    }
    assert(sorted.take(k as int) =~= sorted);
    out
}

/// Everything the log says about the IO boards' dictionaries.
pub struct CanOpenLog {
    pub transfers: Vec<SdoTransfer>,
    pub nodes: Vec<NodeInfo>,
    /// The objects the log has anything about, filed under their keys' codes.
    pub objects: Keyed<ObjectTrack>,
    pub multi_bus: bool,
}

impl LogState {
    /// The objects once the log is over, their changes in time order.
    pub open spec fn tracks(self) -> Map<u64, TrackState> {
        self.settled().map_values(|track: TrackState| sorted_track(track))
    }

    /// Whether more than one bus carried the boards' traffic.
    pub open spec fn multi_bus(self) -> bool {
        exists|a: u8, b: u8| self.buses.contains(a) && self.buses.contains(b) && a != b
    }

    /// The objects when only the pending requests of some nodes have been settled.
    pub open spec fn partly_settled(self, done: Seq<u64>) -> Map<u64, TrackState> {
        Map::new(
            |code: u64|
                if done.contains((code / 0x100_0000) as u64) {
                    self.settled().contains_key(code)
                } else {
                    self.objects.contains_key(code)
                },
            |code: u64|
                if done.contains((code / 0x100_0000) as u64) {
                    self.settled()[code]
                } else {
                    self.objects[code]
                },
        )
    }
}

proof fn lemma_settle_one(s: LogState, done: Seq<u64>, node: u64)
    requires
        s.wf(),
        s.pending.contains_key(node),
        !done.contains(node),
    ensures
        s.partly_settled(done.push(node)) == unanswered(
            s.partly_settled(done),
            s.transfers[s.pending[node] as int],
        ),
{
    let r = s.transfers[s.pending[node] as int];
    let key = object_of(r);
    object_codes(key, key);
    let before = s.partly_settled(done);
    let after = s.partly_settled(done.push(node));
    let goal = unanswered(before, r);
    assert((NodeKey { bus: r.bus, node: r.node }).code_spec() == node);
    assert(key.node_spec().code_spec() == node);
    assert((key.code_spec() / 0x100_0000) as u64 == node);
    assert forall|q: u64| done.push(node).contains(q) <==> done.contains(q) || q == node by {
        assert(done.push(node)[done.len() as int] == node);
        if done.contains(q) {
            let i = done.index_of(q);
            assert(done.push(node)[i] == q);
        }
        if done.push(node).contains(q) && q != node {
            let i = done.push(node).index_of(q);
            assert(done[i] == q);
        }
    }
    assert(r.kind is WriteRequest ==> r.value_spec() is Some);
    assert forall|code: u64| after.contains_key(code) == goal.contains_key(code) && (
    after.contains_key(code) ==> after[code] == goal[code]) by {
        let at = (code / 0x100_0000) as u64;
        if at == node {
            assert(!done.contains(at));
        }
    }
    assert(after =~= goal);
}

proof fn lemma_all_settled(s: LogState, done: Seq<u64>)
    requires
        forall|node: u64| #[trigger] s.pending.contains_key(node) ==> done.contains(node),
    ensures
        s.partly_settled(done) == s.settled(),
{
    assert forall|code: u64|
        s.partly_settled(done).contains_key(code) == s.settled().contains_key(code) && (
        s.settled().contains_key(code) ==> s.partly_settled(done)[code] == s.settled()[code]) by {
        let at = (code / 0x100_0000) as u64;
        if !done.contains(at) {
            assert(!s.pending.contains_key(at));
        }
    }
    assert(s.partly_settled(done) =~= s.settled());
}

impl CanOpenLog {
    /// Nodes and objects stand in key order, and every object's changes in time order, none of
    /// them repeating the value before it.
    pub open spec fn wf(self) -> bool {
        &&& self.objects.wf()
        &&& forall|code: u64| (#[trigger] self.objects.lookup(code)) matches Some(track)
            ==> in_time_order(track.changes@) && only_changes(track.changes@) && code
            < 0x100_0000_0000
        &&& forall|i: int, j: int|
            0 <= i < j < self.nodes@.len() ==> self.nodes@[i].key.code_spec()
                < self.nodes@[j].key.code_spec()
    }

    /// What is known of an object.
    pub open spec fn track(self, key: ObjectKey) -> Option<TrackState> {
        match self.objects.lookup(key.code_spec()) {
            Some(track) => Some(track@),
            None => None,
        }
    }

    /// Whether this is what `state` comes to.
    pub open spec fn reports(self, state: LogState) -> bool {
        &&& self.transfers@.map_values(|t: SdoTransfer| t@) == state.transfers
        &&& object_map(self.objects) == state.tracks()
        &&& self.multi_bus == state.multi_bus()
        &&& forall|i: int|
            0 <= i < self.nodes@.len() ==> state.nodes.contains_key(
                (#[trigger] self.nodes@[i]).key.code_spec(),
            ) && self.nodes@[i]@ == state.nodes[self.nodes@[i].key.code_spec()]
        &&& forall|code: u64| #[trigger]
            state.nodes.contains_key(code) ==> exists|i: int|
                0 <= i < self.nodes@.len() && (#[trigger] self.nodes@[i]).key.code_spec() == code
    }

    /// Reads a log's frames as a dictionary over time.
    pub fn build(frames: &[CanFrame]) -> (r: Self)
        requires
    // A slice spans at most `isize::MAX` bytes, and a frame takes more than sixteen.
            frames@.len() <= usize::MAX / 32,
        ensures
            r.wf(),
            r.reports(replayed(frames@)),
            forall|code: u64| (#[trigger] r.objects.lookup(code)) matches Some(track)
                ==> track.changes@.len() <= track.updates,
            r.transfers@.map_values(|t: SdoTransfer| as_sent(t@)) == decoded(frames@),
            forall|i: int|
                0 <= i < r.transfers@.len() && (#[trigger] r.transfers@[i]).request
                    ==> r.transfers@[i].latency is None,
    {
        let mut replay = Replay::new();
        let mut i: usize = 0;
        while i < frames.len()
            invariant
                i <= frames@.len() <= usize::MAX / 32,
                replay.wf(14 * i),
                replay@ == replayed(frames@.take(i as int)),
            decreases frames@.len() - i,
        {
            replay.step(&frames[i], Ghost(14 * i as int));
            i += 1;
            proof {
                assert(frames@.take(i as int).drop_last() =~= frames@.take(i - 1));
                assert(frames@.take(i as int).last() == frames@[i - 1]);
            }
        }
        assert(frames@.take(i as int) =~= frames@);
        let r = replay.finish(Ghost(14 * i as int));
        proof {
            let s = replayed(frames@);
            assert forall|code: u64| (#[trigger] r.objects.lookup(code)) is Some implies
                r.objects.lookup(code)->0.changes@.len() <= r.objects.lookup(code)->0.updates by {
                assert(object_map(r.objects).contains_key(code));
                every_change_is_an_update(frames@, code);
                assert(object_map(r.objects)[code] == r.objects.lookup(code)->0@);
            }
            transfers_are_the_decoded_frames(frames@);
            assert(r.transfers@.map_values(|t: SdoTransfer| as_sent(t@)) =~= s.transfers.map_values(
                |t: Transfer| as_sent(t),
            ));
            assert forall|i: int|
                0 <= i < r.transfers@.len() && (#[trigger] r.transfers@[i]).request implies
                r.transfers@[i].latency is None by {
                assert(s.transfers[i] == r.transfers@[i]@);
            }
        }
        r
    }
}

impl Replay {
    /// Settles what is still pending and sorts the changes.
    fn finish(self, Ghost(n): Ghost<int>) -> (r: CanOpenLog)
        requires
            self.wf(n),
            0 <= n <= 14 * (usize::MAX / 32),
        ensures
            r.wf(),
            r.reports(self@),
    {
        let ghost s = self@;
        proof {
            lemma_few_pending(self, n);
        }
        let mut replay = self;
        let count: usize = replay.pending.len();
        let mut i: usize = 0;
        let ghost pending = replay.pending;
        while i < count
            invariant
                i <= count <= 0x1_0000,
                0 <= n <= 14 * (usize::MAX / 32),
                count == pending.keys().len(),
                pending.wf(),
                replay.pending == pending,
                replay.wf(n + i),
                s.wf(),
                s.pending == replay@.pending,
                replay@ == (LogState {
                    objects: s.partly_settled(pending.keys().take(i as int)),
                    ..s
                }),
            decreases count - i,
        {
            let node: u64 = replay.pending.key_at(i);
            let at: usize = *replay.pending.value_at(i);
            proof {
                pending.lemma_at(i as int);
                assert(replay@.pending.contains_key(node));
                assert(replay@.pending[node] == at);
                let done = pending.keys().take(i as int);
                assert(!done.contains(node)) by {
                    if done.contains(node) {
                        let j = done.index_of(node);
                        assert(done[j] == node);
                        assert(pending.keys()[j] == node);
                    }
                }
                lemma_settle_one(s, done, node);
                assert(pending.keys().take(i + 1) =~= done.push(node));
            }
            replay.unanswered(at, Ghost(n + i));
            i += 1;
        }
        proof {
            let done = pending.keys().take(i as int);
            assert(done =~= pending.keys());
            assert forall|node: u64| #[trigger] s.pending.contains_key(node) implies done.contains(
                node,
            ) by {
                assert(replay@.pending.contains_key(node));
                assert(pending.has(node));
            }
            lemma_all_settled(s, done);
            assert(replay@.objects == s.settled());
        }
        let multi_bus = replay.multi_bus;
        proof {
            if replay.multi_bus {
                let b = replay.bus->0;
                let a = choose|a: u8| replay.buses@.contains(a) && a != b;
                assert(s.buses.contains(a) && s.buses.contains(b) && a != b);
            }
            if s.multi_bus() {
                let (a, b) = choose|a: u8, b: u8| s.buses.contains(a) && s.buses.contains(b) && a != b;
                let first = replay.bus->0;
                assert(replay.buses@.contains(if a != first { a } else { b }));
            }
        }
        let Replay { transfers, nodes, mut objects, .. } = replay;
        let ghost all = objects;
        let ghost settled = s.settled();
        let total: usize = objects.len();
        let mut k: usize = 0;
        while k < total
            invariant
                k <= total,
                all.wf(),
                objects.wf(),
                objects.keys() == all.keys(),
                total == all.keys().len(),
                forall|j: int|
                    0 <= j < k ==> (#[trigger] objects.values()[j])@ == sorted_track(
                        all.values()[j]@,
                    ) && in_time_order(objects.values()[j].changes@) && only_changes(
                        objects.values()[j].changes@,
                    ),
                forall|j: int| k <= j < total ==> #[trigger] objects.values()[j] == all.values()[j],
            decreases total - k,
        {
            let ghost mid = objects;
            let track = objects.value_mut(k);
            let sorted = sort_changes(&track.changes);
            track.changes = sorted;
            proof {
                Keyed::lemma_update(mid, objects, k as int);
                assert(objects.values()[k as int]@ =~= sorted_track(all.values()[k as int]@));
            }
            k += 1;
        }
        proof {
            assert forall|code: u64| #[trigger] objects.lookup(code) is Some <==> all.lookup(code)
                is Some by {}
            assert forall|code: u64| (#[trigger] objects.lookup(code)) is Some implies objects.lookup(
                code,
            )->0@ == sorted_track(all.lookup(code)->0@) && in_time_order(
                objects.lookup(code)->0.changes@,
            ) && only_changes(objects.lookup(code)->0.changes@) && code < 0x100_0000_0000 by {
                let j = objects.keys().index_of(code);
                assert(objects.keys()[j] == code);
                assert(objects.values()[j]@ == sorted_track(all.values()[j]@));
                assert(all.lookup(code) is Some);
            }
            assert(object_map(all) == settled);
            assert(object_map(objects) =~= s.tracks()) by {
                assert forall|code: u64| object_map(objects).contains_key(code)
                    == s.tracks().contains_key(code) && (object_map(objects).contains_key(code)
                    ==> object_map(objects)[code] == s.tracks()[code]) by {
                    assert(object_map(objects).contains_key(code) == (objects.lookup(code) is Some));
                    assert(object_map(all).contains_key(code) == (all.lookup(code) is Some));
                    if objects.lookup(code) is Some {
                        assert(object_map(all)[code] == all.lookup(code)->0@);
                        assert(settled.contains_key(code));
                    }
                }
            }
        }
        let ghost table = nodes;
        let nodes = nodes.into_values();
        proof {
            assert forall|i: int| 0 <= i < nodes@.len() implies (#[trigger] nodes@[i]).key.code_spec()
                == table.keys()[i] && s.nodes.contains_key(table.keys()[i]) && nodes@[i]@
                == s.nodes[table.keys()[i]] by {
                table.lemma_at(i);
                assert(node_map(table) == s.nodes);
            }
            assert forall|code: u64| #[trigger] s.nodes.contains_key(code) implies exists|i: int|
                0 <= i < nodes@.len() && (#[trigger] nodes@[i]).key.code_spec() == code by {
                assert(node_map(table) == s.nodes);
                assert(table.lookup(code) is Some);
                let i = table.keys().index_of(code);
                assert(table.keys()[i] == code);
                assert(nodes@[i].key.code_spec() == code);
            }
        }
        CanOpenLog { transfers, nodes, objects, multi_bus }
    }
}

proof fn lemma_few_pending(replay: Replay, n: int)
    requires
        replay.wf(n),
    ensures
        replay.pending.keys().len() <= 0x1_0000,
{
    let keys = replay.pending.keys();
    assert forall|i: int| 0 <= i < keys.len() implies (#[trigger] keys[i]) < 0x1_0000 by {
        replay.pending.lemma_at(i);
        assert(replay@.pending.contains_key(keys[i]));
    }
    if keys.len() > 0 {
        lemma_at_least_index(keys, keys.len() - 1);
    }
}

proof fn lemma_at_least_index(keys: Seq<u64>, i: int)
    requires
        0 <= i < keys.len(),
        forall|a: int, b: int| 0 <= a < b < keys.len() ==> keys[a] < keys[b],
    ensures
        keys[i] >= i,
    decreases i,
{
    if i > 0 {
        lemma_at_least_index(keys, i - 1);
        assert(keys[i - 1] < keys[i]);
    }
}

/// An object's history as a line: held up to each change, so it steps rather than ramping
/// between two samples that may be minutes apart. Values are what a graph draws.
pub open spec fn steps(def: Option<ObjectDef>, changes: Seq<ValueChange>) -> Seq<(i64, i64)>
    decreases changes.len(),
{
    if changes.len() == 0 {
        Seq::empty()
    } else if changes.len() == 1 {
        seq![(changes[0].t_utc, plotted(def, changes[0].raw))]
    } else {
        let last = changes.last();
        let held = changes[changes.len() - 2];
        steps(def, changes.drop_last()) + seq![
            (last.t_utc, plotted(def, held.raw)),
            (last.t_utc, plotted(def, last.raw)),
        ]
    }
}

/// The number a graph draws for a raw value of an object.
pub open spec fn plotted(def: Option<ObjectDef>, raw: i64) -> i64 {
    match def {
        Some(d) => d.plot_value_spec(raw) as i64,
        None => raw,
    }
}

/// An object's whole history as a line: its steps, drawn on to when it was last seen.
pub open spec fn history_line(def: Option<ObjectDef>, track: TrackState) -> Seq<(i64, i64)> {
    if track.last_seen > track.changes.last().t_utc {
        steps(def, track.changes).push((track.last_seen, plotted(def, track.changes.last().raw)))
    } else {
        steps(def, track.changes)
    }
}

/// One object's history as a series.
pub struct StepSeries {
    pub name: String,
    pub unit: Option<String>,
    /// Time and value.
    pub points: Vec<(i64, i64)>,
}

/// The object's part of a series name.
pub open spec fn field_name(key: ObjectKey) -> Seq<char> {
    match object_spec(key.index) {
        Some(def) => match def.array {
            Some((_, element)) => if key.sub > 0 {
                def.short@ + "_"@ + element.tag_spec((key.sub - 1) as nat)
            } else {
                def.short@
            },
            None => def.short@,
        },
        None => "x"@ + hex(key.index as nat, 4) + "_"@ + dec(key.sub as nat),
    }
}

impl CanOpenLog {
    /// What one node did.
    pub fn node(&self, key: NodeKey) -> (r: Option<&NodeInfo>)
        requires
            self.wf(),
        ensures
            match r {
                Some(info) => info.key == key && self.nodes@.contains(*info),
                None => forall|i: int| 0 <= i < self.nodes@.len() ==> (#[trigger] self.nodes@[i]).key != key,
            },
    {
        let mut i: usize = 0;
        while i < self.nodes.len()
            invariant
                i <= self.nodes@.len(),
                forall|k: int| 0 <= k < i ==> (#[trigger] self.nodes@[k]).key != key,
            decreases self.nodes@.len() - i,
        {
            if self.nodes[i].key == key {
                assert(self.nodes@.contains(self.nodes@[i as int]));
                return Some(&self.nodes[i]);
            }
            i += 1;
        }
        None
    }

    /// Every object of one node the log has anything about, in index order.
    pub fn objects_of(&self, node: NodeKey) -> (r: Vec<ObjectKey>)
        requires
            self.wf(),
        ensures
            forall|i: int|
                0 <= i < r@.len() ==> (#[trigger] r@[i]).node_spec() == node && self.track(r@[i])
                    is Some,
            forall|key: ObjectKey|
                key.node_spec() == node && self.track(key) is Some ==> #[trigger] r@.contains(key),
            forall|i: int, j: int|
                0 <= i < j < r@.len() ==> r@[i].code_spec() < r@[j].code_spec(),
    {
        let low: u64 = 0x100_0000 * node.code();
        let high: u64 = low + 0x100_0000;
        let from: usize = self.objects.lower_bound(low);
        let to: usize = self.objects.lower_bound(high);
        proof {
            if to < from {
                assert(self.objects.keys()[to as int] < low);
            }
        }
        let mut out: Vec<ObjectKey> = Vec::new();
        let mut i: usize = from;
        while i < to
            invariant
                self.wf(),
                from <= i <= to <= self.objects.keys().len(),
                low == 0x100_0000 * node.code_spec(),
                high == low + 0x100_0000,
                forall|k: int| from <= k ==> k < self.objects.keys().len() ==> self.objects.keys()[k] >= low,
                forall|k: int| 0 <= k < to ==> self.objects.keys()[k] < high,
                out@.len() == i - from,
                forall|k: int|
                    0 <= k < out@.len() ==> (#[trigger] out@[k]).code_spec() == self.objects.keys()[from
                        + k] && out@[k].node_spec() == node && self.track(out@[k]) is Some,
            decreases to - i,
        {
            let code: u64 = self.objects.key_at(i);
            proof {
                self.objects.lemma_at(i as int);
                object_code_round_trip(code);
                let key = ObjectKey::from_code_spec(code);
                object_codes(key, key);
                assert(code / 0x100_0000 == node.code_spec());
                assert(key.node_spec() == node);
            }
            out.push(ObjectKey::from_code(code));
            i += 1;
        }
        proof {
            assert forall|key: ObjectKey|
                key.node_spec() == node && self.track(key) is Some implies #[trigger] out@.contains(
                key,
            ) by {
                let code = key.code_spec();
                object_codes(key, key);
                assert(self.objects.has(code));
                let at = self.objects.keys().index_of(code);
                assert(self.objects.keys()[at] == code);
                assert(low <= code < high);
                assert(from <= at < to);
                let found = out@[at - from];
                assert(found.code_spec() == code);
                object_codes(found, key);
            }
        }
        out
    }

    /// The value of an object in force at an instant.
    pub open spec fn value_at_spec(self, key: ObjectKey, t_utc: i64) -> Option<ValueChange> {
        match self.track(key) {
            Some(track) => if in_force(track.changes, t_utc) >= 0 {
                Some(track.changes[in_force(track.changes, t_utc)])
            } else {
                None
            },
            None => None,
        }
    }

    /// The value of an object in force at an instant.
    pub fn value_at(&self, key: ObjectKey, t_utc: i64) -> (r: Option<ValueChange>)
        requires
            self.wf(),
        ensures
            r == self.value_at_spec(key, t_utc),
    {
        match self.objects.get(key.code()) {
            Some(track) => track.value_at(t_utc),
            None => None,
        }
    }

    /// A raw value of an object as a person reads it, knowing what else the node said at `t`.
    pub open spec fn format_value_at_spec(self, key: ObjectKey, raw: i64, t_utc: i64) -> Seq<char> {
        match object_spec(key.index) {
            None => dec_int(raw as int),
            Some(def) => {
                let text = def.format_value_spec(raw);
                let declared = self.value_at_spec(ObjectKey { index: 0x2005, ..key }, t_utc);
                let code = match declared {
                    Some(change) => if 0 <= change.raw <= 255 {
                        Some(change.raw as u8)
                    } else {
                        None
                    },
                    None => None,
                };
                let (unit, decimals) = sensor_unit_spec(code);
                if key.index != 0x2004 || raw == -0x8000 || decimals == 0 {
                    text
                } else {
                    text + " = "@ + fixed(raw as int, decimals) + " "@ + unit
                }
            },
        }
    }

    /// `raw` as a person reads it, knowing what else the node said at `t`: a sensor slot's
    /// counts are only a quantity once its unit code (0x2005, same slot) says which.
    pub fn format_value_at(&self, key: ObjectKey, raw: i64, t_utc: i64) -> (r: String)
        requires
            self.wf(),
        ensures
            r@ == self.format_value_at_spec(key, raw, t_utc),
    {
        match object(key.index) {
            None => {
                let mut out = String::new();
                push_int(&mut out, raw);
                out
            },
            Some(def) => {
                let mut text = def.format_value(raw);
                if key.index != 0x2004 || raw == -0x8000 {
                    return text;
                }
                let declared = self.value_at(ObjectKey { index: 0x2005, ..key }, t_utc);
                let code = match declared {
                    Some(change) => if 0 <= change.raw && change.raw <= 255 {
                        Some(change.raw as u8)
                    } else {
                        None
                    },
                    None => None,
                };
                let (unit, decimals) = sensor_unit(code);
                if decimals != 0 {
                    text.append(" = ");
                    push_fixed(&mut text, raw, decimals);
                    text.append(" ");
                    text.append(unit);
                }
                text
            },
        }
    }

    /// Whether the master's requests were recorded at all. The flight computer's log has only
    /// the nodes' answers, so a write is known to have happened but not what it wrote.
    pub fn has_requests(&self) -> (r: bool)
        ensures
            r == exists|i: int| 0 <= i < self.transfers@.len() && (#[trigger] self.transfers@[i]).request,
    {
        let mut i: usize = 0;
        while i < self.transfers.len()
            invariant
                i <= self.transfers@.len(),
                forall|k: int| 0 <= k < i ==> !(#[trigger] self.transfers@[k]).request,
            decreases self.transfers@.len() - i,
        {
            if self.transfers[i].request {
                return true;
            }
            i += 1;
        }
        false
    }

    pub open spec fn series_name_spec(self, key: ObjectKey) -> Seq<char> {
        "CAN_OD["@ + instance(self.multi_bus, key.bus, key.node) + "]."@ + field_name(key)
    }

    /// `CAN_OD[5].valve_commanded_0`.
    pub fn series_name(&self, key: ObjectKey) -> (r: String)
        ensures
            r@ == self.series_name_spec(key),
    {
        let mut out = "CAN_OD[".to_owned();
        push_instance(&mut out, self.multi_bus, key.bus, key.node);
        out.append("].");
        match object(key.index) {
            Some(def) => {
                out.append(def.short);
                match def.array {
                    Some((_, element)) => {
                        if key.sub > 0 {
                            out.append("_");
                            let tag = element.tag(key.sub as usize - 1);
                            out.append(tag.as_str());
                        }
                    },
                    None => {},
                }
            },
            None => {
                out.append("x");
                push_hex(&mut out, key.index as u64, 4);
                out.append("_");
                push_dec(&mut out, key.sub as u64);
            },
        }
        out
    }

    /// One object's history as a series, drawn as the steps it really is. `None` when the log
    /// has no value of it.
    pub fn series(&self, key: ObjectKey) -> (r: Option<StepSeries>)
        requires
            self.wf(),
        ensures
            match r {
                Some(series) => {
                    &&& self.track(key) is Some
                    &&& self.track(key)->0.changes.len() > 0
                    &&& series.name@ == self.series_name_spec(key)
                    &&& opt_view(series.unit) == match object_spec(key.index) {
                        Some(def) => def.plot_unit_spec(),
                        None => None,
                    }
                    &&& series.points@ == history_line(object_spec(key.index), self.track(key)->0)
                },
                None => self.track(key) is None || self.track(key)->0.changes.len() == 0,
            },
    {
        let track = match self.objects.get(key.code()) {
            Some(track) => track,
            None => {
                return None;
            },
        };
        let n: usize = track.changes.len();
        if n == 0 {
            return None;
        }
        let def = object(key.index);
        let mut points: Vec<(i64, i64)> = Vec::new();
        let first = track.changes[0];
        points.push((first.t_utc, plot_of(&def, first.raw)));
        let mut i: usize = 1;
        assert(points@ =~= steps(def, track.changes@.take(1)));
        while i < n
            invariant
                1 <= i <= n == track.changes@.len(),
                points@ == steps(def, track.changes@.take(i as int)),
            decreases n - i,
        {
            let held = track.changes[i - 1];
            let change = track.changes[i];
            points.push((change.t_utc, plot_of(&def, held.raw)));
            points.push((change.t_utc, plot_of(&def, change.raw)));
            i += 1;
            proof {
                assert(track.changes@.take(i as int).drop_last() =~= track.changes@.take(i - 1));
                assert(points@ =~= steps(def, track.changes@.take(i as int)));
            }
        }
        assert(track.changes@.take(n as int) =~= track.changes@);
        let last = track.changes[n - 1];
        if track.last_seen > last.t_utc {
            points.push((track.last_seen, plot_of(&def, last.raw)));
        }
        let unit = match def {
            Some(d) => d.plot_unit(),
            None => None,
        };
        Some(StepSeries { name: self.series_name(key), unit, points })
    }
}

fn plot_of(def: &Option<ObjectDef>, raw: i64) -> (r: i64)
    ensures
        r == plotted(*def, raw),
{
    match def {
        Some(d) => d.plot_value(raw),
        None => raw,
    }
}

} // verus!
