//! The log, read as a dictionary over time.
use vstd::prelude::*;

use crate::can::iocan::TpdoKind;

verus! {

broadcast use vstd::seq_lib::group_seq_properties;

/// One node of one bus.
#[derive(Clone, Copy, PartialEq, Eq, Structural, Debug, Hash, PartialOrd, Ord)]
pub struct NodeKey {
    pub bus: u8,
    pub node: u8,
}

impl NodeKey {
    /// The key as one number, ordered by bus and then by node.
    pub open spec fn code_spec(self) -> u64 {
        (256 * self.bus + self.node) as u64
    }

    /// The key as one number, ordered by bus and then by node.
    pub fn code(self) -> (r: u64)
        ensures
            r == self.code_spec(),
    {
        256 * self.bus as u64 + self.node as u64
    }
}

/// One object of one node.
#[derive(Clone, Copy, PartialEq, Eq, Structural, Debug, Hash, PartialOrd, Ord)]
pub struct ObjectKey {
    pub bus: u8,
    pub node: u8,
    pub index: u16,
    pub sub: u8,
}

impl ObjectKey {
    pub open spec fn node_spec(self) -> NodeKey {
        NodeKey { bus: self.bus, node: self.node }
    }

    pub fn node(&self) -> (r: NodeKey)
        ensures
            r == self.node_spec(),
    {
        NodeKey { bus: self.bus, node: self.node }
    }

    /// The key as one number, ordered by bus, node, index and sub-index.
    pub open spec fn code_spec(self) -> u64 {
        (0x100_0000 * (256 * self.bus + self.node) + 256 * self.index + self.sub) as u64
    }

    /// The key as one number, ordered by bus, node, index and sub-index.
    pub fn code(self) -> (r: u64)
        ensures
            r == self.code_spec(),
    {
        0x100_0000 * (256 * self.bus as u64 + self.node as u64) + 256 * self.index as u64
            + self.sub as u64
    }

    /// The key that a number stands for.
    pub open spec fn from_code_spec(code: u64) -> ObjectKey {
        ObjectKey {
            bus: (code / 0x1_0000_0000) as u8,
            node: (code / 0x100_0000 % 256) as u8,
            index: (code / 256 % 0x1_0000) as u16,
            sub: (code % 256) as u8,
        }
    }

    /// The key that a number stands for.
    pub fn from_code(code: u64) -> (r: ObjectKey)
        requires
            code < 0x100_0000_0000,
        ensures
            r == ObjectKey::from_code_spec(code),
    {
        ObjectKey {
            bus: (code / 0x1_0000_0000) as u8,
            node: (code / 0x100_0000 % 256) as u8,
            index: (code / 256 % 0x1_0000) as u16,
            sub: (code % 256) as u8,
        }
    }
}

/// Numbers and keys stand for each other, and the numbers order the keys by bus, node, index
/// and sub-index.
pub proof fn object_codes(a: ObjectKey, b: ObjectKey)
    ensures
        a.code_spec() < 0x100_0000_0000,
        ObjectKey::from_code_spec(a.code_spec()) == a,
        a.code_spec() / 0x100_0000 == a.node_spec().code_spec(),
        a.code_spec() == b.code_spec() <==> a == b,
        a.code_spec() < b.code_spec() <==> (a.bus < b.bus || (a.bus == b.bus && (a.node < b.node || (
        a.node == b.node && (a.index < b.index || (a.index == b.index && a.sub < b.sub)))))),
{
    lemma_code_fields(a);
    lemma_code_fields(b);
}

proof fn lemma_code_fields(a: ObjectKey)
    ensures
        a.code_spec() < 0x100_0000_0000,
        ObjectKey::from_code_spec(a.code_spec()) == a,
        a.code_spec() / 0x100_0000 == a.node_spec().code_spec(),
{
    let c = a.code_spec();
    assert(c / 0x1_0000_0000 == a.bus);
    assert(c / 0x100_0000 == 256 * a.bus + a.node);
    assert(c / 256 == 0x1_0000 * (256 * a.bus + a.node) + a.index);
    assert(c % 256 == a.sub);
}

/// A number below the limit is the code of the key that it stands for.
pub proof fn object_code_round_trip(code: u64)
    requires
        code < 0x100_0000_0000,
    ensures
        ObjectKey::from_code_spec(code).code_spec() == code,
{
    let c = code as int;
    let top = c / 0x1_0000_0000;
    assert(0 <= top < 256);
    assert(c / 0x100_0000 / 256 == top);
    assert(c / 256 / 0x1_0000 == c / 0x100_0000);
}

/// Where a value came from.
#[derive(Clone, Copy, PartialEq, Eq, Structural, Debug)]
pub enum Origin {
    Tpdo,
    SdoRead,
    SdoWrite,
}

impl Origin {
    pub open spec fn label_spec(self) -> Seq<char> {
        match self {
            Origin::Tpdo => "TPDO"@,
            Origin::SdoRead => "SDO read"@,
            Origin::SdoWrite => "SDO write"@,
        }
    }

    pub fn label(self) -> (r: &'static str)
        ensures
            r@ == self.label_spec(),
    {
        match self {
            Origin::Tpdo => "TPDO",
            Origin::SdoRead => "SDO read",
            Origin::SdoWrite => "SDO write",
        }
    }
}

/// A value an object took on.
#[derive(Clone, Copy, PartialEq, Eq, Structural, Debug)]
pub struct ValueChange {
    pub t_utc: i64,
    pub raw: i64,
    pub origin: Origin,
}

/// One object of one node, across the log.
pub struct ObjectTrack {
    /// Only the samples where the value *changed* -- a TPDO repeating the same number twice a
    /// second for fifteen minutes is one entry, not 1800.
    pub changes: Vec<ValueChange>,
    /// Every time a value was seen, changed or not.
    pub updates: usize,
    pub last_seen: i64,
    pub reads: usize,
    pub writes: usize,
    pub aborts: usize,
    pub last_abort: Option<u32>,
}

/// What is known of one object, as contracts speak of it.
#[verifier::ext_equal]
pub struct TrackState {
    pub changes: Seq<ValueChange>,
    pub updates: nat,
    pub last_seen: i64,
    pub reads: nat,
    pub writes: nat,
    pub aborts: nat,
    pub last_abort: Option<u32>,
}

impl TrackState {
    /// An object that nothing has been said about.
    pub open spec fn empty() -> Self {
        TrackState {
            changes: Seq::empty(),
            updates: 0,
            last_seen: 0,
            reads: 0,
            writes: 0,
            aborts: 0,
            last_abort: None,
        }
    }

    /// A value was seen: always an update, a change only if it differs from the last one.
    pub open spec fn record(self, t: i64, raw: i64, origin: Origin) -> Self {
        TrackState {
            changes: if self.changes.len() == 0 || self.changes.last().raw != raw {
                self.changes.push(ValueChange { t_utc: t, raw, origin })
            } else {
                self.changes
            },
            updates: self.updates + 1,
            last_seen: t,
            ..self
        }
    }
}

impl View for ObjectTrack {
    type V = TrackState;

    open spec fn view(&self) -> TrackState {
        TrackState {
            changes: self.changes@,
            updates: self.updates as nat,
            last_seen: self.last_seen,
            reads: self.reads as nat,
            writes: self.writes as nat,
            aborts: self.aborts as nat,
            last_abort: self.last_abort,
        }
    }
}

/// Whether changes stand in time order.
pub open spec fn in_time_order(changes: Seq<ValueChange>) -> bool {
    forall|i: int, j: int| 0 <= i <= j < changes.len() ==> changes[i].t_utc <= changes[j].t_utc
}

/// Whether no value repeats the one before it.
pub open spec fn only_changes(changes: Seq<ValueChange>) -> bool {
    forall|i: int, j: int|
        #![trigger changes[i], changes[j]]
        0 <= i && j == i + 1 && j < changes.len() ==> changes[i].raw != changes[j].raw
}

/// The position of the value in force at `t`: the last change at or before it; -1 if there is
/// none.
pub open spec fn in_force(changes: Seq<ValueChange>, t: i64) -> int
    decreases changes.len(),
{
    if changes.len() == 0 {
        -1
    } else if changes.last().t_utc <= t {
        changes.len() - 1
    } else {
        in_force(changes.drop_last(), t)
    }
}

proof fn lemma_in_force(changes: Seq<ValueChange>, t: i64, p: int)
    requires
        0 <= p <= changes.len(),
        forall|i: int| 0 <= i < p ==> (#[trigger] changes[i]).t_utc <= t,
        forall|i: int| p <= i < changes.len() ==> (#[trigger] changes[i]).t_utc > t,
    ensures
        in_force(changes, t) == p - 1,
    decreases changes.len(),
{
    if changes.len() > 0 {
        if p < changes.len() {
            assert(changes.last() == changes[changes.len() - 1]);
            lemma_in_force(changes.drop_last(), t, p);
        }
    }
}

impl ObjectTrack {
    pub fn new() -> (r: Self)
        ensures
            r@ == TrackState::empty(),
    {
        ObjectTrack {
            changes: Vec::new(),
            updates: 0,
            last_seen: 0,
            reads: 0,
            writes: 0,
            aborts: 0,
            last_abort: None,
        }
    }

    /// The value in force at `t`: the last change at or before it.
    pub fn value_at(&self, t_utc: i64) -> (r: Option<ValueChange>)
        requires
            in_time_order(self.changes@),
        ensures
            match r {
                Some(c) => 0 <= in_force(self.changes@, t_utc) && c == self.changes@[in_force(
                    self.changes@,
                    t_utc,
                )],
                None => in_force(self.changes@, t_utc) == -1,
            },
    {
        let mut lo: usize = 0;
        let mut hi: usize = self.changes.len();
        while lo < hi
            invariant
                in_time_order(self.changes@),
                lo <= hi <= self.changes@.len(),
                forall|i: int| 0 <= i < lo ==> (#[trigger] self.changes@[i]).t_utc <= t_utc,
                forall|i: int|
                    hi <= i < self.changes@.len() ==> (#[trigger] self.changes@[i]).t_utc > t_utc,
            decreases hi - lo,
        {
            let mid: usize = lo + (hi - lo) / 2;
            if self.changes[mid].t_utc <= t_utc {
                lo = mid + 1;
            } else {
                hi = mid;
            }
        }
        proof {
            lemma_in_force(self.changes@, t_utc, lo as int);
        }
        if lo == 0 {
            None
        } else {
            Some(self.changes[lo - 1])
        }
    }

    /// Takes note of a value.
    pub(crate) fn record(&mut self, t_utc: i64, raw: i64, origin: Origin)
        requires
            old(self).updates < usize::MAX,
        ensures
            final(self)@ == old(self)@.record(t_utc, raw, origin),
    {
        self.updates = self.updates + 1;
        self.last_seen = t_utc;
        let changed = if self.changes.len() == 0 {
            true
        } else {
            self.changes[self.changes.len() - 1].raw != raw
        };
        if changed {
            self.changes.push(ValueChange { t_utc, raw, origin });
        }
    }
}

/// The last change at or before an instant is the value in force: everything up to it is at or
/// before the instant, everything after it later.
pub proof fn the_value_in_force(changes: Seq<ValueChange>, t: i64)
    requires
        in_time_order(changes),
    ensures
        -1 <= in_force(changes, t) < changes.len(),
        forall|i: int|
            0 <= i < changes.len() ==> ((#[trigger] changes[i]).t_utc <= t <==> i <= in_force(
                changes,
                t,
            )),
    decreases changes.len(),
{
    if changes.len() > 0 {
        assert(changes.last() == changes[changes.len() - 1]);
        if changes.last().t_utc > t {
            the_value_in_force(changes.drop_last(), t);
            assert forall|i: int| 0 <= i < changes.len() implies ((#[trigger] changes[i]).t_utc <= t
                <==> i <= in_force(changes, t)) by {
                if i < changes.len() - 1 {
                    assert(changes.drop_last()[i] == changes[i]);
                }
            }
        }
    }
}

/// What one node did over the log.
pub struct NodeInfo {
    pub key: NodeKey,
    pub first_seen: i64,
    pub last_seen: i64,
    pub heartbeats: usize,
    /// First and last heartbeat -- not first and last frame, or a node whose TPDOs start
    /// before its heartbeat would seem to beat slower than it does.
    pub heartbeat_span: Option<(i64, i64)>,
    pub nmt_state: Option<u8>,
    /// The longest silence between two heartbeats, and when it ended.
    pub longest_heartbeat_gap: Option<(i128, i64)>,
    /// Frames per TPDO kind, by wire index.
    pub tpdo_frames: Vec<usize>,
    pub sdo_requests: usize,
    pub sdo_responses: usize,
    pub aborts: usize,
}

/// What is known of one node, as contracts speak of it.
#[verifier::ext_equal]
pub struct NodeState {
    pub key: NodeKey,
    pub first_seen: i64,
    pub last_seen: i64,
    pub heartbeats: nat,
    pub heartbeat_span: Option<(i64, i64)>,
    pub nmt_state: Option<u8>,
    pub longest_heartbeat_gap: Option<(int, i64)>,
    pub tpdo_frames: Seq<nat>,
    pub sdo_requests: nat,
    pub sdo_responses: nat,
    pub aborts: nat,
}

impl NodeState {
    /// A node first heard of at `t`.
    pub open spec fn new(key: NodeKey, t: i64) -> Self {
        NodeState {
            key,
            first_seen: t,
            last_seen: t,
            heartbeats: 0,
            heartbeat_span: None,
            nmt_state: None,
            longest_heartbeat_gap: None,
            tpdo_frames: Seq::new(18, |i: int| 0),
            sdo_requests: 0,
            sdo_responses: 0,
            aborts: 0,
        }
    }

    /// A request to the node went over the bus.
    pub open spec fn asked(self, t: i64) -> Self {
        NodeState { last_seen: t, sdo_requests: self.sdo_requests + 1, ..self }
    }

    /// The node answered, perhaps with an abort.
    pub open spec fn answered(self, t: i64, abort: bool) -> Self {
        NodeState {
            last_seen: t,
            sdo_responses: self.sdo_responses + 1,
            aborts: if abort {
                self.aborts + 1
            } else {
                self.aborts
            },
            ..self
        }
    }

    /// The node sent a heartbeat.
    pub open spec fn beat(self, t: i64, nmt: Option<u8>) -> Self {
        NodeState {
            last_seen: t,
            heartbeats: self.heartbeats + 1,
            heartbeat_span: Some(
                (
                    match self.heartbeat_span {
                        Some((first, _)) => first,
                        None => t,
                    },
                    t,
                ),
            ),
            nmt_state: if nmt is Some {
                nmt
            } else {
                self.nmt_state
            },
            longest_heartbeat_gap: match self.heartbeat_span {
                Some((_, previous)) => match self.longest_heartbeat_gap {
                    Some((longest, at)) if t - previous <= longest => Some((longest, at)),
                    _ => Some((t - previous, t)),
                },
                None => self.longest_heartbeat_gap,
            },
            ..self
        }
    }

    /// The node sent process data.
    pub open spec fn broadcast(self, t: i64, kind: int) -> Self {
        NodeState {
            last_seen: t,
            tpdo_frames: self.tpdo_frames.update(kind, self.tpdo_frames[kind] + 1),
            ..self
        }
    }
}

impl View for NodeInfo {
    type V = NodeState;

    open spec fn view(&self) -> NodeState {
        NodeState {
            key: self.key,
            first_seen: self.first_seen,
            last_seen: self.last_seen,
            heartbeats: self.heartbeats as nat,
            heartbeat_span: self.heartbeat_span,
            nmt_state: self.nmt_state,
            longest_heartbeat_gap: match self.longest_heartbeat_gap {
                Some((gap, at)) => Some((gap as int, at)),
                None => None,
            },
            tpdo_frames: self.tpdo_frames@.map_values(|n: usize| n as nat),
            sdo_requests: self.sdo_requests as nat,
            sdo_responses: self.sdo_responses as nat,
            aborts: self.aborts as nat,
        }
    }
}

impl NodeInfo {
    /// Whether every counter is at most `n`.
    pub open spec fn counted_within(self, n: int) -> bool {
        &&& self.heartbeats <= n
        &&& self.sdo_requests <= n
        &&& self.sdo_responses <= n
        &&& self.aborts <= n
        &&& self.tpdo_frames@.len() == 18
        &&& forall|i: int| 0 <= i < 18 ==> (#[trigger] self.tpdo_frames@[i]) <= n
    }

    pub(crate) fn new(key: NodeKey, t: i64) -> (r: Self)
        ensures
            r@ == NodeState::new(key, t),
            r.counted_within(0),
    {
        let mut tpdo_frames: Vec<usize> = Vec::new();
        let mut i: usize = 0;
        while i < 18
            invariant
                i <= 18,
                tpdo_frames@ == Seq::new(i as nat, |k: int| 0usize),
            decreases 18 - i,
        {
            tpdo_frames.push(0);
            i += 1;
            assert(tpdo_frames@ =~= Seq::new(i as nat, |k: int| 0usize));
        }
        let r = NodeInfo {
            key,
            first_seen: t,
            last_seen: t,
            heartbeats: 0,
            heartbeat_span: None,
            nmt_state: None,
            longest_heartbeat_gap: None,
            tpdo_frames,
            sdo_requests: 0,
            sdo_responses: 0,
            aborts: 0,
        };
        assert(r@ =~= NodeState::new(key, t));
        r
    }

    pub(crate) fn asked(&mut self, t: i64, Ghost(n): Ghost<int>)
        requires
            old(self).counted_within(n),
            n < usize::MAX,
        ensures
            final(self)@ == old(self)@.asked(t),
            final(self).counted_within(n + 1),
    {
        self.last_seen = t;
        self.sdo_requests = self.sdo_requests + 1;
    }

    pub(crate) fn answered(&mut self, t: i64, abort: bool, Ghost(n): Ghost<int>)
        requires
            old(self).counted_within(n),
            n < usize::MAX,
        ensures
            final(self)@ == old(self)@.answered(t, abort),
            final(self).counted_within(n + 1),
    {
        self.last_seen = t;
        self.sdo_responses = self.sdo_responses + 1;
        if abort {
            self.aborts = self.aborts + 1;
        }
    }

    pub(crate) fn beat(&mut self, t: i64, nmt: Option<u8>, Ghost(n): Ghost<int>)
        requires
            old(self).counted_within(n),
            n < usize::MAX,
        ensures
            final(self)@ == old(self)@.beat(t, nmt),
            final(self).counted_within(n + 1),
    {
        self.last_seen = t;
        self.heartbeats = self.heartbeats + 1;
        match self.heartbeat_span {
            Some((first, previous)) => {
                let gap: i128 = t as i128 - previous as i128;
                let longer = match self.longest_heartbeat_gap {
                    Some((longest, _)) => gap > longest,
                    None => true,
                };
                if longer {
                    self.longest_heartbeat_gap = Some((gap, t));
                }
                self.heartbeat_span = Some((first, t));
            },
            None => {
                self.heartbeat_span = Some((t, t));
            },
        }
        if nmt.is_some() {
            self.nmt_state = nmt;
        }
    }

    pub(crate) fn broadcast(&mut self, t: i64, kind: TpdoKind, Ghost(n): Ghost<int>)
        requires
            old(self).counted_within(n),
            n < usize::MAX,
        ensures
            final(self)@ == old(self)@.broadcast(t, kind.wire_index()),
            final(self).counted_within(n + 1),
    {
        let ghost before = *self;
        self.last_seen = t;
        let k: usize = kind.index();
        let seen: usize = self.tpdo_frames[k];
        self.tpdo_frames.set(k, seen + 1);
        assert(self@.tpdo_frames =~= before@.tpdo_frames.update(
            k as int,
            before@.tpdo_frames[k as int] + 1,
        ));
        assert forall|i: int| 0 <= i < 18 implies (#[trigger] self.tpdo_frames@[i]) <= n + 1 by {
            assert(before.tpdo_frames@[i] <= n);
        }
    }

    /// The mean heartbeat period, the thing `0x1017` configures, as the time it is taken over
    /// and the number of periods in it.
    pub fn heartbeat_period(&self) -> (r: Option<(i128, usize)>)
        ensures
            match r {
                Some((span, periods)) => self.heartbeat_span matches Some((first, last))
                    && self.heartbeats > 1 && span == last - first && periods == self.heartbeats - 1,
                None => self.heartbeat_span is None || self.heartbeats <= 1,
            },
    {
        match self.heartbeat_span {
            Some((first, last)) => if self.heartbeats > 1 {
                Some((last as i128 - first as i128, self.heartbeats - 1))
            } else {
                None
            },
            None => None,
        }
    }
}

} // verus!
