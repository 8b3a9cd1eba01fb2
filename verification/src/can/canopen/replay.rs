//! Replaying a log's frames, one after the other, into what they say about the dictionaries.
use vstd::prelude::*;

use crate::can::canopen::log::{
    NodeInfo, NodeKey, NodeState, ObjectKey, ObjectTrack, Origin, TrackState,
};
use crate::can::canopen::mirror::{tpdo_objects, tpdo_values};
use crate::can::canopen::sdo::{decode_sdo, sdo_of, SdoKind, SdoTransfer, Transfer};
use crate::can::iocan::{process_data, process_data_spec, TpdoKind, HEARTBEAT_BASE};
use crate::can::CanFrame;
use crate::keyed::Keyed;

verus! {

broadcast use vstd::seq_lib::group_seq_properties;

/// What the frames so far have said. Nodes and objects are filed under their codes.
#[verifier::ext_equal]
pub struct LogState {
    pub transfers: Seq<Transfer>,
    pub nodes: Map<u64, NodeState>,
    pub objects: Map<u64, TrackState>,
    /// The request each node is still answering, as a position in `transfers`. Only one is
    /// outstanding at a time: expedited SDO is strictly request, response.
    pub pending: Map<u64, nat>,
    /// The buses that carried any of this.
    pub buses: Set<u8>,
}

/// The object a transfer addresses.
pub open spec fn object_of(t: Transfer) -> ObjectKey {
    ObjectKey { bus: t.bus, node: t.node, index: t.index, sub: t.sub }
}

/// The node a frame comes from or goes to.
pub open spec fn node_of(frame: CanFrame) -> NodeKey {
    NodeKey { bus: frame.bus, node: (frame.id % 16) as u8 }
}

/// What is known of an object so far.
pub open spec fn track_of(objects: Map<u64, TrackState>, code: u64) -> TrackState {
    if objects.contains_key(code) {
        objects[code]
    } else {
        TrackState::empty()
    }
}

/// A request that was never answered still happened: a write that was sent is the best guess
/// at the value.
pub open spec fn unanswered(objects: Map<u64, TrackState>, request: Transfer) -> Map<
    u64,
    TrackState,
> {
    if request.kind is WriteRequest && request.value_spec() is Some {
        let code = object_of(request).code_spec();
        objects.insert(
            code,
            track_of(objects, code).record(
                request.t_utc,
                request.value_spec()->0 as i64,
                Origin::SdoWrite,
            ),
        )
    } else {
        objects
    }
}

/// What a response does to the object it is about. `request` is the request it answers, if the
/// log has it.
pub open spec fn responded(track: TrackState, response: Transfer, request: Option<Transfer>) -> TrackState {
    match response.kind {
        SdoKind::ReadResponse => {
            let read = TrackState { reads: track.reads + 1, ..track };
            match response.value_spec() {
                Some(raw) => read.record(response.t_utc, raw as i64, Origin::SdoRead),
                None => read,
            }
        },
        // The value is in the request; only an acknowledged write is known to have landed.
        SdoKind::WriteAck => {
            let written = TrackState { writes: track.writes + 1, ..track };
            match request {
                Some(r) => match r.value_spec() {
                    Some(raw) => written.record(response.t_utc, raw as i64, Origin::SdoWrite),
                    None => written,
                },
                None => written,
            }
        },
        SdoKind::Abort(code) => TrackState {
            aborts: track.aborts + 1,
            last_abort: Some(code),
            ..track
        },
        _ => track,
    }
}

/// The values of a process-data frame, recorded one after the other.
pub open spec fn mirrored(
    objects: Map<u64, TrackState>,
    node: NodeKey,
    t: i64,
    values: Seq<(u16, u8, i64)>,
) -> Map<u64, TrackState>
    decreases values.len(),
{
    if values.len() == 0 {
        objects
    } else {
        let before = mirrored(objects, node, t, values.drop_last());
        let (index, sub, raw) = values.last();
        let code = (ObjectKey { bus: node.bus, node: node.node, index, sub }).code_spec();
        before.insert(code, track_of(before, code).record(t, raw, Origin::Tpdo))
    }
}

impl LogState {
    /// Nothing has been heard yet.
    pub open spec fn empty() -> Self {
        LogState {
            transfers: Seq::empty(),
            nodes: Map::empty(),
            objects: Map::empty(),
            pending: Map::empty(),
            buses: Set::empty(),
        }
    }

    /// What is known of a node at `t`; a node heard of for the first time starts out then.
    pub open spec fn node_at(self, key: NodeKey, t: i64) -> NodeState {
        if self.nodes.contains_key(key.code_spec()) {
            self.nodes[key.code_spec()]
        } else {
            NodeState::new(key, t)
        }
    }

    /// The request a response answers: the pending one, if it addresses the same object.
    pub open spec fn answered_by(self, node: NodeKey, response: Transfer) -> Option<Transfer> {
        if self.pending.contains_key(node.code_spec()) {
            let r = self.transfers[self.pending[node.code_spec()] as int];
            if r.index == response.index && r.sub == response.sub {
                Some(r)
            } else {
                None
            }
        } else {
            None
        }
    }

    /// A request goes out. One that was still pending at the node will not be answered.
    pub open spec fn request(self, node: NodeKey, t: Transfer) -> Self {
        let code = node.code_spec();
        LogState {
            transfers: self.transfers.push(t),
            nodes: self.nodes.insert(code, self.node_at(node, t.t_utc).asked(t.t_utc)),
            objects: if self.pending.contains_key(code) {
                unanswered(self.objects, self.transfers[self.pending[code] as int])
            } else {
                self.objects
            },
            pending: self.pending.insert(code, self.transfers.len()),
            buses: self.buses.insert(node.bus),
        }
    }

    /// A response comes in, to the request that is pending at the node.
    pub open spec fn response(self, node: NodeKey, t: Transfer) -> Self {
        let code = node.code_spec();
        let request = self.answered_by(node, t);
        let object = object_of(t).code_spec();
        LogState {
            transfers: self.transfers.push(
                Transfer {
                    latency: match request {
                        Some(r) => Some((t.t_utc - r.t_utc) as i128),
                        None => None,
                    },
                    ..t
                },
            ),
            nodes: self.nodes.insert(
                code,
                self.node_at(node, t.t_utc).answered(t.t_utc, t.kind is Abort),
            ),
            objects: self.objects.insert(
                object,
                responded(track_of(self.objects, object), t, request),
            ),
            pending: self.pending.remove(code),
            buses: self.buses.insert(node.bus),
        }
    }

    /// A heartbeat comes in; `nmt` is the state it carries, if it has a payload.
    pub open spec fn heartbeat(self, node: NodeKey, t: i64, nmt: Option<u8>) -> Self {
        LogState {
            nodes: self.nodes.insert(node.code_spec(), self.node_at(node, t).beat(t, nmt)),
            buses: self.buses.insert(node.bus),
            ..self
        }
    }

    /// A process-data frame comes in.
    pub open spec fn process(self, node: NodeKey, t: i64, kind: TpdoKind, data: Seq<u8>) -> Self {
        LogState {
            nodes: self.nodes.insert(
                node.code_spec(),
                self.node_at(node, t).broadcast(t, kind.wire_index()),
            ),
            objects: mirrored(self.objects, node, t, tpdo_values(kind, data)),
            buses: self.buses.insert(node.bus),
            ..self
        }
    }

    /// One frame goes over the bus.
    pub open spec fn step(self, frame: CanFrame) -> Self {
        let node = node_of(frame);
        if frame.id > 0x7FF {
            self
        } else if let Some(t) = sdo_of(frame) {
            if t.request {
                self.request(node, t)
            } else {
                self.response(node, t)
            }
        } else if HEARTBEAT_BASE <= frame.id < HEARTBEAT_BASE + 16 {
            self.heartbeat(
                node,
                frame.t_utc,
                if frame.len >= 1 {
                    Some(frame.data@[0])
                } else {
                    None
                },
            )
        } else if let Some((_, kind)) = process_data_spec(frame.id) {
            if frame.len == 8 {
                self.process(node, frame.t_utc, kind, frame.data@)
            } else {
                self
            }
        } else {
            self
        }
    }

    /// Every pending request is one of the transfers, and stands under its own node.
    pub open spec fn wf(self) -> bool {
        forall|code: u64| #[trigger]
            self.pending.contains_key(code) ==> self.pending[code] < self.transfers.len() && ({
                let r = self.transfers[self.pending[code] as int];
                (NodeKey { bus: r.bus, node: r.node }).code_spec() == code
            })
    }

    /// The objects once the log is over: what is still pending will not be answered.
    pub open spec fn settled(self) -> Map<u64, TrackState> {
        Map::new(
            |code: u64| self.objects.contains_key(code) || self.pending_write(code) is Some,
            |code: u64|
                match self.pending_write(code) {
                    Some((t, raw)) => track_of(self.objects, code).record(t, raw, Origin::SdoWrite),
                    None => self.objects[code],
                },
        )
    }

    /// The write to an object that its node has not answered: when, and what.
    pub open spec fn pending_write(self, code: u64) -> Option<(i64, i64)> {
        let node = (code / 0x100_0000) as u64;
        if self.pending.contains_key(node) {
            let r = self.transfers[self.pending[node] as int];
            if r.kind is WriteRequest && object_of(r).code_spec() == code {
                Some((r.t_utc, r.value_spec()->0 as i64))
            } else {
                None
            }
        } else {
            None
        }
    }
}

/// What a sequence of frames says.
pub open spec fn replayed(frames: Seq<CanFrame>) -> LogState
    decreases frames.len(),
{
    if frames.len() == 0 {
        LogState::empty()
    } else {
        replayed(frames.drop_last()).step(frames.last())
    }
}

/// Replaying keeps the pending requests in order.
pub proof fn replayed_is_wf(frames: Seq<CanFrame>)
    ensures
        replayed(frames).wf(),
    decreases frames.len(),
{
    if frames.len() > 0 {
        replayed_is_wf(frames.drop_last());
        lemma_step_wf(replayed(frames.drop_last()), frames.last());
    }
}

proof fn lemma_step_wf(s: LogState, frame: CanFrame)
    requires
        s.wf(),
    ensures
        s.step(frame).wf(),
{
    let after = s.step(frame);
    assert forall|code: u64| #[trigger] after.pending.contains_key(code) implies after.pending[code]
        < after.transfers.len() && ({
        let r = after.transfers[after.pending[code] as int];
        (NodeKey { bus: r.bus, node: r.node }).code_spec() == code
    }) by {
        if s.pending.contains_key(code) && after.pending[code] == s.pending[code] {
            assert(after.transfers[s.pending[code] as int] == s.transfers[s.pending[code] as int]);
        }
    }
}

/// The state of a replay.
pub struct Replay {
    pub transfers: Vec<SdoTransfer>,
    pub nodes: Keyed<NodeInfo>,
    pub objects: Keyed<ObjectTrack>,
    pub pending: Keyed<usize>,
    /// The first bus heard, and whether another one was.
    pub bus: Option<u8>,
    pub multi_bus: bool,
    pub buses: Ghost<Set<u8>>,
}

pub open spec fn node_map(nodes: Keyed<NodeInfo>) -> Map<u64, NodeState> {
    Map::new(|k: u64| nodes.lookup(k) is Some, |k: u64| nodes.lookup(k)->0@)
}

pub open spec fn object_map(objects: Keyed<ObjectTrack>) -> Map<u64, TrackState> {
    Map::new(|k: u64| objects.lookup(k) is Some, |k: u64| objects.lookup(k)->0@)
}

impl View for Replay {
    type V = LogState;

    open spec fn view(&self) -> LogState {
        LogState {
            transfers: self.transfers@.map_values(|t: SdoTransfer| t@),
            nodes: node_map(self.nodes),
            objects: object_map(self.objects),
            pending: Map::new(
                |k: u64| self.pending.lookup(k) is Some,
                |k: u64| self.pending.lookup(k)->0 as nat,
            ),
            buses: self.buses@,
        }
    }
}

impl ObjectTrack {
    /// Whether every counter is at most `n`.
    pub open spec fn counted_within(self, n: int) -> bool {
        self.updates <= n && self.reads <= n && self.writes <= n && self.aborts <= n
    }
}

impl Replay {
    /// The tables are in order, every counter is at most `n`, and every node stands under its
    /// own key.
    pub open spec fn wf(self, n: int) -> bool {
        &&& self.nodes.wf()
        &&& self.objects.wf()
        &&& self.pending.wf()
        &&& self@.wf()
        &&& forall|k: u64| (#[trigger] self.nodes.lookup(k)) matches Some(info)
            ==> info.counted_within(n) && info.key.code_spec() == k
        &&& forall|k: u64| (#[trigger] self.objects.lookup(k)) matches Some(track)
            ==> track.counted_within(n) && k < 0x100_0000_0000
        &&& match self.bus {
            None => self.buses@ == Set::<u8>::empty() && !self.multi_bus,
            Some(b) => self.buses@.contains(b) && (self.multi_bus <==> exists|a: u8|
                self.buses@.contains(a) && a != b),
        }
    }

    pub(crate) fn new() -> (r: Self)
        ensures
            r.wf(0),
            r@ == LogState::empty(),
    {
        let r = Replay {
            transfers: Vec::new(),
            nodes: Keyed::new(),
            objects: Keyed::new(),
            pending: Keyed::new(),
            bus: None,
            multi_bus: false,
            buses: Ghost(Set::empty()),
        };
        assert(r@ =~= LogState::empty());
        r
    }

    fn hear(&mut self, bus: u8, Ghost(n): Ghost<int>)
        requires
            old(self).wf(n),
        ensures
            final(self).wf(n),
            final(self)@ == (LogState { buses: old(self)@.buses.insert(bus), ..old(self)@ }),
    {
        let ghost before = *self;
        match self.bus {
            None => {
                self.bus = Some(bus);
            },
            Some(first) => {
                if first != bus {
                    self.multi_bus = true;
                }
            },
        }
        self.buses = Ghost(self.buses@.insert(bus));
        assert(self@ =~= (LogState { buses: before@.buses.insert(bus), ..before@ }));
        assert(self@.wf());
        proof {
            let b = self.bus->0;
            if self.multi_bus && before.bus is Some {
                if b != bus {
                    assert(self.buses@.contains(bus) && bus != b);
                } else {
                    let a = choose|a: u8| before.buses@.contains(a) && a != b;
                    assert(self.buses@.contains(a) && a != b);
                }
            }
        }
    }

    fn record(&mut self, key: ObjectKey, t: i64, raw: i64, origin: Origin, Ghost(n): Ghost<int>)
        requires
            old(self).wf(n),
            0 <= n < usize::MAX,
        ensures
            final(self).wf(n + 1),
            final(self)@ == (LogState {
                objects: old(self)@.objects.insert(
                    key.code_spec(),
                    track_of(old(self)@.objects, key.code_spec()).record(t, raw, origin),
                ),
                ..old(self)@
            }),
            final(self).pending == old(self).pending,
            final(self).transfers == old(self).transfers,
    {
        let ghost before = *self;
        let code: u64 = key.code();
        proof {
            crate::can::canopen::log::object_codes(key, key);
        }
        let i: usize = self.objects.slot(code, ObjectTrack::new());
        let ghost mid = self.objects;
        let track = self.objects.value_mut(i);
        track.record(t, raw, origin);
        proof {
            Keyed::lemma_update(mid, self.objects, i as int);
            assert(self@.objects =~= before@.objects.insert(
                code,
                track_of(before@.objects, code).record(t, raw, origin),
            ));
            assert(self@.wf());
        }
    }

    /// Applies a request that was never answered.
    pub(crate) fn unanswered(&mut self, at: usize, Ghost(n): Ghost<int>)
        requires
            old(self).wf(n),
            0 <= n < usize::MAX,
            at < old(self).transfers@.len(),
        ensures
            final(self).wf(n + 1),
            final(self)@ == (LogState {
                objects: unanswered(old(self)@.objects, old(self)@.transfers[at as int]),
                ..old(self)@
            }),
            final(self).pending == old(self).pending,
            final(self).transfers == old(self).transfers,
    {
        let request = self.transfers[at];
        assert(self@.transfers[at as int] == request@);
        let write = match request.kind {
            SdoKind::WriteRequest => true,
            _ => false,
        };
        if write {
            match request.value() {
                Some(raw) => {
                    let key = ObjectKey {
                        bus: request.bus,
                        node: request.node,
                        index: request.index,
                        sub: request.sub,
                    };
                    self.record(key, request.t_utc, raw, Origin::SdoWrite, Ghost(n));
                },
                None => {},
            }
        }
    }

    fn request(&mut self, key: NodeKey, transfer: SdoTransfer, Ghost(n): Ghost<int>)
        requires
            old(self).wf(n),
            0 <= n < usize::MAX - 2,
            transfer.bus == key.bus,
            transfer.node == key.node,
        ensures
            final(self).wf(n + 2),
            final(self)@ == old(self)@.request(key, transfer@),
    {
        let ghost before = *self;
        let code: u64 = key.code();
        let stale = match self.pending.get(code) {
            Some(at) => Some(*at),
            None => None,
        };
        if let Some(at) = stale {
            proof {
                assert(before@.pending.contains_key(code));
            }
            self.unanswered(at, Ghost(n));
        }
        let ghost one = *self;
        assert(one.wf(n + 1));
        let i: usize = self.nodes.slot(code, NodeInfo::new(key, transfer.t_utc));
        let ghost mid = self.nodes;
        let info = self.nodes.value_mut(i);
        info.asked(transfer.t_utc, Ghost(n + 1));
        proof {
            Keyed::lemma_update(mid, self.nodes, i as int);
        }
        self.pending.insert(code, self.transfers.len());
        self.transfers.push(transfer);
        let ghost two = *self;
        proof {
            let goal = before@.request(key, transfer@);
            assert(two@.transfers =~= goal.transfers);
            assert(two@.nodes =~= goal.nodes);
            assert(two@.objects =~= goal.objects);
            assert(two@.pending =~= goal.pending);
            lemma_request_wf(before@, key, transfer@);
            assert(two@ =~= (LogState { buses: before@.buses, ..goal }));
            assert(two@.wf());
        }
        self.hear(key.bus, Ghost(n + 2));
        assert(self@ =~= before@.request(key, transfer@));
    }

    fn response(&mut self, key: NodeKey, mut transfer: SdoTransfer, Ghost(n): Ghost<int>)
        requires
            old(self).wf(n),
            0 <= n < usize::MAX - 2,
            transfer.bus == key.bus,
            transfer.node == key.node,
            transfer.latency is None,
        ensures
            final(self).wf(n + 2),
            final(self)@ == old(self)@.response(key, transfer@),
    {
        let ghost before = *self;
        let ghost given = transfer@;
        let code: u64 = key.code();
        let pending = self.pending.remove(code);
        let request = match pending {
            Some(at) => {
                assert(before@.pending.contains_key(code));
                let r = self.transfers[at];
                assert(before@.transfers[at as int] == r@);
                if r.index == transfer.index && r.sub == transfer.sub {
                    Some(r)
                } else {
                    None
                }
            },
            None => None,
        };
        let ghost asked = before@.answered_by(key, given);
        proof {
            assert(request is Some <==> asked is Some);
            assert(request is Some ==> asked == Some(request->0@));
        }
        transfer.latency = match request {
            Some(r) => Some(transfer.t_utc as i128 - r.t_utc as i128),
            None => None,
        };
        let abort = match transfer.kind {
            SdoKind::Abort(_) => true,
            _ => false,
        };
        let i: usize = self.nodes.slot(code, NodeInfo::new(key, transfer.t_utc));
        let ghost mid = self.nodes;
        let info = self.nodes.value_mut(i);
        info.answered(transfer.t_utc, abort, Ghost(n));
        proof {
            Keyed::lemma_update(mid, self.nodes, i as int);
        }
        let object = ObjectKey {
            bus: transfer.bus,
            node: transfer.node,
            index: transfer.index,
            sub: transfer.sub,
        };
        proof {
            crate::can::canopen::log::object_codes(object, object);
        }
        let object_code: u64 = object.code();
        let j: usize = self.objects.slot(object_code, ObjectTrack::new());
        let ghost mid_objects = self.objects;
        let track = self.objects.value_mut(j);
        let ghost track_before = track@;
        match transfer.kind {
            SdoKind::ReadResponse => {
                track.reads = track.reads + 1;
                if let Some(raw) = transfer.value() {
                    track.record(transfer.t_utc, raw, Origin::SdoRead);
                }
            },
            SdoKind::WriteAck => {
                track.writes = track.writes + 1;
                if let Some(r) = request {
                    if let Some(raw) = r.value() {
                        track.record(transfer.t_utc, raw, Origin::SdoWrite);
                    }
                }
            },
            SdoKind::Abort(reason) => {
                track.aborts = track.aborts + 1;
                track.last_abort = Some(reason);
            },
            _ => {},
        }
        assert(track@ =~= responded(track_before, given, asked)) by {
            assert(transfer@.value_spec() == given.value_spec());
        }
        proof {
            Keyed::lemma_update(mid_objects, self.objects, j as int);
        }
        self.transfers.push(transfer);
        let ghost two = *self;
        proof {
            let goal = before@.response(key, given);
            assert(two@.transfers =~= goal.transfers);
            assert(two@.nodes =~= goal.nodes);
            assert(two@.objects =~= goal.objects);
            assert(two@.pending =~= goal.pending);
            lemma_response_wf(before@, key, given);
            assert(two@ =~= (LogState { buses: before@.buses, ..goal }));
            assert(two@.wf());
        }
        self.hear(key.bus, Ghost(n + 2));
        assert(self@ =~= before@.response(key, given));
    }

    fn heartbeat(&mut self, key: NodeKey, t: i64, nmt: Option<u8>, Ghost(n): Ghost<int>)
        requires
            old(self).wf(n),
            0 <= n < usize::MAX,
        ensures
            final(self).wf(n + 1),
            final(self)@ == old(self)@.heartbeat(key, t, nmt),
    {
        let ghost before = *self;
        let code: u64 = key.code();
        let i: usize = self.nodes.slot(code, NodeInfo::new(key, t));
        let ghost mid = self.nodes;
        let info = self.nodes.value_mut(i);
        info.beat(t, nmt, Ghost(n));
        proof {
            Keyed::lemma_update(mid, self.nodes, i as int);
            assert(self@.nodes =~= before@.heartbeat(key, t, nmt).nodes);
            assert(self@.wf());
        }
        self.hear(key.bus, Ghost(n + 1));
        assert(self@ =~= before@.heartbeat(key, t, nmt));
    }

    fn process(
        &mut self,
        key: NodeKey,
        t: i64,
        kind: TpdoKind,
        data: &[u8; 8],
        Ghost(n): Ghost<int>,
    )
        requires
            old(self).wf(n),
            0 <= n < usize::MAX - 14,
        ensures
            final(self).wf(n + 14),
            final(self)@ == old(self)@.process(key, t, kind, data@),
    {
        let ghost before = *self;
        let code: u64 = key.code();
        let i: usize = self.nodes.slot(code, NodeInfo::new(key, t));
        let ghost mid = self.nodes;
        let info = self.nodes.value_mut(i);
        info.broadcast(t, kind, Ghost(n));
        proof {
            Keyed::lemma_update(mid, self.nodes, i as int);
            assert(self@.nodes =~= before@.process(key, t, kind, data@).nodes);
            assert(self@.wf());
        }
        let ghost one = *self;
        let values = tpdo_objects(kind, data);
        proof {
            lemma_tpdo_values_few(kind, data@);
        }
        let mut k: usize = 0;
        while k < values.len()
            invariant
                k <= values@.len() <= 12,
                0 <= n < usize::MAX - 14,
                self.wf(n + 1 + k),
                self@ == (LogState {
                    objects: mirrored(one@.objects, key, t, values@.take(k as int)),
                    ..one@
                }),
            decreases values@.len() - k,
        {
            let (index, sub, raw) = values[k];
            let object = ObjectKey { bus: key.bus, node: key.node, index, sub };
            self.record(object, t, raw, Origin::Tpdo, Ghost(n + 1 + k));
            proof {
                assert(values@.take(k + 1).drop_last() =~= values@.take(k as int));
                assert(values@.take(k + 1).last() == values@[k as int]);
            }
            k += 1;
        }
        assert(values@.take(values@.len() as int) =~= values@);
        self.hear(key.bus, Ghost(n + 1 + values@.len()));
        assert(self@ =~= before@.process(key, t, kind, data@));
    }

    /// Takes in one frame.
    pub(crate) fn step(&mut self, frame: &CanFrame, Ghost(n): Ghost<int>)
        requires
            old(self).wf(n),
            0 <= n < usize::MAX - 14,
        ensures
            final(self).wf(n + 14),
            final(self)@ == old(self)@.step(*frame),
    {
        if frame.id > 0x7FF {
            return;
        }
        let key = NodeKey { bus: frame.bus, node: (frame.id % 16) as u8 };
        if let Some(transfer) = decode_sdo(frame) {
            if transfer.request {
                self.request(key, transfer, Ghost(n));
            } else {
                self.response(key, transfer, Ghost(n));
            }
            return;
        }
        if HEARTBEAT_BASE <= frame.id && frame.id < HEARTBEAT_BASE + 16 {
            let nmt = if frame.len >= 1 {
                Some(frame.data[0])
            } else {
                None
            };
            self.heartbeat(key, frame.t_utc, nmt, Ghost(n));
            return;
        }
        if let Some((_, kind)) = process_data(frame.id) {
            if frame.len == 8 {
                self.process(key, frame.t_utc, kind, &frame.data, Ghost(n));
            }
        }
    }
}

pub(crate) proof fn lemma_tpdo_values_few(kind: TpdoKind, data: Seq<u8>)
    ensures
        tpdo_values(kind, data).len() <= 12,
{
    reveal_with_fuel(crate::can::canopen::mirror::outputs, 5);
}

proof fn lemma_request_wf(s: LogState, node: NodeKey, t: Transfer)
    requires
        s.wf(),
        t.bus == node.bus,
        t.node == node.node,
    ensures
        s.request(node, t).wf(),
{
    let after = s.request(node, t);
    assert forall|code: u64| #[trigger] after.pending.contains_key(code) implies after.pending[code]
        < after.transfers.len() && ({
        let r = after.transfers[after.pending[code] as int];
        (NodeKey { bus: r.bus, node: r.node }).code_spec() == code
    }) by {
        if code != node.code_spec() {
            assert(s.pending.contains_key(code));
        }
    }
}

proof fn lemma_response_wf(s: LogState, node: NodeKey, t: Transfer)
    requires
        s.wf(),
    ensures
        s.response(node, t).wf(),
{
    let after = s.response(node, t);
    assert forall|code: u64| #[trigger] after.pending.contains_key(code) implies after.pending[code]
        < after.transfers.len() && ({
        let r = after.transfers[after.pending[code] as int];
        (NodeKey { bus: r.bus, node: r.node }).code_spec() == code
    }) by {
        assert(s.pending.contains_key(code));
    }
}

} // verus!
