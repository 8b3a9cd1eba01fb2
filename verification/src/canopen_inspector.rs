//! The CANopen inspector: the IO boards' object dictionaries as the log saw them.
//!
//! Where the series answer "how did this signal move?", this answers the questions a series
//! can't: which nodes were on the bus and whether they dropped off, what the master read and
//! wrote and which of those a node refused, and what every dictionary object of a node held at
//! the playhead.
use vstd::prelude::*;

use crate::can::canopen::dictionary::{
    abort_reason, abort_reason_spec, describe_object, describe_object_spec, nmt_label,
    nmt_label_spec, ObjectDef, DICTIONARY,
};
use crate::can::canopen::history::{CanOpenLog, StepSeries};
use crate::can::canopen::log::{NodeInfo, NodeKey, ObjectKey, ObjectTrack};
use crate::can::canopen::sdo::{SdoKind, SdoTransfer};
use crate::can::iocan::KIND_NAMES;
use crate::can::CanFrames;
use crate::keyed::Keyed;
use crate::model::SourceId;
use crate::text::{
    contains, dec, hex, hex_byte_lower, holds, join, joined, lowercase, lowercased, push_dec,
    push_hex, push_hex_byte_lower, push_quotient, quotient, texts_of, trim, trimmed,
};

verus! {

broadcast use vstd::seq_lib::group_seq_properties;

pub enum InspectorAction {
    Nothing,
    Close,
    /// Move the playhead here, in master time.
    Seek(i64),
    /// Add this series to the source and open it in a graph.
    Plot(StepSeries),
}

#[derive(Clone, Copy, PartialEq, Eq, Structural, Debug)]
pub enum Tab {
    Nodes,
    Dictionary,
    Sdo,
}

/// What the list of transfers is filtered with.
pub struct SdoFilter {
    pub node: Option<NodeKey>,
    pub text: String,
    pub aborts_only: bool,
}

pub struct CanOpenInspector {
    pub source: SourceId,
    pub log: CanOpenLog,
    pub tab: Tab,
    pub node: Option<NodeKey>,
    /// Hide dictionary objects the log says nothing about.
    pub only_seen: bool,
    pub sdo_filter: SdoFilter,
    /// Scroll the list of transfers to the playhead on the next frame.
    pub scroll_to_cursor: bool,
}

/// Whether one node is at least as busy as another: by its transfers, then its heartbeats.
pub open spec fn as_busy(a: NodeInfo, b: NodeInfo) -> bool {
    let x = a.sdo_responses + a.sdo_requests;
    let y = b.sdo_responses + b.sdo_requests;
    x > y || (x == y && a.heartbeats >= b.heartbeats)
}

/// Whether a node is the busiest of a list; of several equally busy, the last.
pub open spec fn is_busiest(nodes: Seq<NodeInfo>, i: int) -> bool {
    &&& 0 <= i < nodes.len()
    &&& forall|k: int| 0 <= k < nodes.len() ==> as_busy(nodes[i], #[trigger] nodes[k])
    &&& forall|k: int| i < k < nodes.len() ==> !as_busy(#[trigger] nodes[k], nodes[i])
}

fn busiest(nodes: &Vec<NodeInfo>) -> (r: Option<usize>)
    ensures
        match r {
            Some(i) => is_busiest(nodes@, i as int),
            None => nodes@.len() == 0,
        },
{
    if nodes.len() == 0 {
        return None;
    }
    let mut best: usize = 0;
    let mut i: usize = 1;
    while i < nodes.len()
        invariant
            best < i <= nodes@.len(),
            forall|k: int| 0 <= k < i ==> as_busy(nodes@[best as int], #[trigger] nodes@[k]),
            forall|k: int| best < k < i ==> !as_busy(#[trigger] nodes@[k], nodes@[best as int]),
        decreases nodes@.len() - i,
    {
        let x: u128 = nodes[i].sdo_responses as u128 + nodes[i].sdo_requests as u128;
        let y: u128 = nodes[best].sdo_responses as u128 + nodes[best].sdo_requests as u128;
        if x > y || (x == y && nodes[i].heartbeats >= nodes[best].heartbeats) {
            best = i;
        }
        i += 1;
    }
    Some(best)
}

/// The key of an object of a node.
pub fn object_key(node: NodeKey, index: u16, sub: u8) -> (r: ObjectKey)
    ensures
        r == (ObjectKey { bus: node.bus, node: node.node, index, sub }),
{
    ObjectKey { bus: node.bus, node: node.node, index, sub }
}

/// What a node is called.
pub open spec fn node_label_spec(key: NodeKey, multi_bus: bool) -> Seq<char> {
    if multi_bus {
        "bus "@ + dec(key.bus as nat) + " node "@ + dec(key.node as nat)
    } else {
        "node "@ + dec(key.node as nat)
    }
}

/// What a node is called.
pub fn node_label(key: NodeKey, multi_bus: bool) -> (r: String)
    ensures
        r@ == node_label_spec(key, multi_bus),
{
    let mut out = String::new();
    if multi_bus {
        out.append("bus ");
        push_dec(&mut out, key.bus as u64);
        out.append(" node ");
    } else {
        out.append("node ");
    }
    push_dec(&mut out, key.node as u64);
    assert(Seq::<char>::empty() + "bus "@ =~= "bus "@);
    assert(Seq::<char>::empty() + "node "@ =~= "node "@);
    out
}

/// Whether a node's longest silence is worth a look: well past its period. A clean node's longest
/// gap is jitter.
pub open spec fn is_dropout(gap: int, span: int, periods: int) -> bool {
    2 * gap * periods > 5 * span
}

/// What a node's row says of its state.
pub fn nmt_text(state: Option<u8>) -> (r: String)
    ensures
        r@ == match state {
            Some(s) => "0x"@ + hex_byte_lower(s as int) + " "@ + nmt_label_spec(s),
            None => "no heartbeat"@,
        },
{
    match state {
        Some(s) => {
            let mut out = "0x".to_owned();
            push_hex_byte_lower(&mut out, s);
            out.append(" ");
            out.append(nmt_label(s));
            out
        },
        None => "no heartbeat".to_owned(),
    }
}

/// What a node's row says of its heartbeats: how many, and how far apart in milliseconds.
pub open spec fn heartbeat_spec(info: NodeInfo) -> Seq<char> {
    if info.heartbeat_span is Some && info.heartbeats > 1 {
        let (first, last) = info.heartbeat_span.unwrap();
        dec(info.heartbeats as nat) + " × "@ + quotient(
            last - first,
            1000 * (info.heartbeats - 1),
            0,
        ) + " ms"@
    } else {
        dec(info.heartbeats as nat)
    }
}

/// What a node's row says of its heartbeats.
pub fn heartbeat_text(info: &NodeInfo) -> (r: String)
    ensures
        r@ == heartbeat_spec(*info),
{
    let mut out = String::new();
    push_dec(&mut out, info.heartbeats as u64);
    assert(out@ =~= dec(info.heartbeats as nat));
    if let Some((span, periods)) = info.heartbeat_period() {
        out.append(" × ");
        push_quotient(&mut out, span, 1000 * periods as u128, 0);
        out.append(" ms");
    }
    out
}

proof fn lemma_dropout(gap: int, span: int, periods: int, limit: int)
    requires
        periods > 0,
        limit == if span >= 0 {
            5 * span / (2 * periods)
        } else {
            -((5 * -span + 2 * periods - 1) / (2 * periods))
        },
    ensures
        gap > limit <==> is_dropout(gap, span, periods),
{
    let d = 2 * periods;
    let n = if span >= 0 {
        5 * span
    } else {
        5 * -span + d - 1
    };
    let q = n / d;
    let r = n % d;
    vstd::arithmetic::div_mod::lemma_fundamental_div_mod(n, d);
    vstd::arithmetic::div_mod::lemma_mod_bound(n, d);
    let product = 2 * gap * periods;
    assert(product == d * gap) by (nonlinear_arith)
        requires
            d == 2 * periods,
            product == 2 * gap * periods,
    ;
    assert(gap >= limit + 1 ==> d * gap >= d * limit + d) by (nonlinear_arith)
        requires
            d > 0,
    ;
    assert(gap <= limit ==> d * gap <= d * limit) by (nonlinear_arith)
        requires
            d > 0,
    ;
    if span < 0 {
        assert(d * limit == -(d * q)) by (nonlinear_arith)
            requires
                limit == -q,
        ;
    }
}

/// Whether a node dropped off: its longest silence was over two and a half periods.
pub fn dropped_off(info: &NodeInfo) -> (r: bool)
    ensures
        r == match (info.longest_heartbeat_gap, info.heartbeat_span) {
            (Some((gap, _)), Some((first, last))) => info.heartbeats > 1 && is_dropout(
                gap as int,
                last - first,
                info.heartbeats - 1,
            ),
            _ => false,
        },
{
    match (info.longest_heartbeat_gap, info.heartbeat_period()) {
        (Some((gap, _)), Some((span, periods))) => {
            // Products with the gap could pass what 128 bits hold; the quotient does not.
            let periods: u128 = periods as u128;
            let limit: i128 = if span >= 0 {
                (5 * span as u128 / (2 * periods)) as i128
            } else {
                -(((5 * (-span) as u128 + 2 * periods - 1) / (2 * periods)) as i128)
            };
            proof {
                lemma_dropout(gap as int, span as int, periods as int, limit as int);
            }
            gap > limit
        },
        _ => false,
    }
}

/// The number of process-data frames of a node, over the first `n` kinds.
pub open spec fn tpdo_total(frames: Seq<usize>, n: nat) -> nat
    decreases n,
{
    if n == 0 {
        0
    } else {
        tpdo_total(frames, (n - 1) as nat) + frames[n - 1] as nat
    }
}

/// The kinds of process data that a node sent, of the first `n`, by name.
pub open spec fn tpdo_kinds(frames: Seq<usize>, n: nat) -> Seq<Seq<char>>
    decreases n,
{
    if n == 0 {
        Seq::empty()
    } else {
        let rest = tpdo_kinds(frames, (n - 1) as nat);
        if frames[n - 1] > 0 {
            rest.push(KIND_NAMES@[n - 1]@)
        } else {
            rest
        }
    }
}

/// How many process-data frames a node sent, and of which kinds.
pub fn tpdo_text(info: &NodeInfo) -> (r: (u128, String))
    requires
        info.tpdo_frames@.len() == 18,
    ensures
        r.0 == tpdo_total(info.tpdo_frames@, 18),
        r.1@ == if tpdo_kinds(info.tpdo_frames@, 18).len() == 0 {
            "no process data"@
        } else {
            joined(tpdo_kinds(info.tpdo_frames@, 18), ", "@)
        },
{
    let mut total: u128 = 0;
    let mut kinds: Vec<String> = Vec::new();
    let mut i: usize = 0;
    assert(texts_of(kinds@) =~= Seq::<Seq<char>>::empty());
    while i < 18
        invariant
            i <= 18,
            info.tpdo_frames@.len() == 18,
            total == tpdo_total(info.tpdo_frames@, i as nat),
            total <= i * 0xFFFF_FFFF_FFFF_FFFF,
            texts_of(kinds@) == tpdo_kinds(info.tpdo_frames@, i as nat),
            kinds@.len() == tpdo_kinds(info.tpdo_frames@, i as nat).len(),
        decreases 18 - i,
    {
        let n = info.tpdo_frames[i];
        total = total + n as u128;
        if n > 0 {
            let ghost before = kinds@;
            kinds.push(KIND_NAMES[i].to_owned());
            assert(texts_of(kinds@) =~= texts_of(before).push(KIND_NAMES@[i as int]@));
        }
        i += 1;
    }
    let text = if kinds.len() == 0 {
        "no process data".to_owned()
    } else {
        join(&kinds, ", ")
    };
    (total, text)
}

/// What a node's row says of its transfers.
pub fn sdo_text(info: &NodeInfo) -> (r: String)
    ensures
        r@ == dec(info.sdo_requests as nat) + " req / "@ + dec(info.sdo_responses as nat) + " resp"@
            + if info.aborts > 0 {
            ", "@ + dec(info.aborts as nat) + " aborted"@
        } else {
            Seq::empty()
        },
{
    let mut out = String::new();
    push_dec(&mut out, info.sdo_requests as u64);
    assert(out@ =~= dec(info.sdo_requests as nat));
    out.append(" req / ");
    push_dec(&mut out, info.sdo_responses as u64);
    out.append(" resp");
    if info.aborts > 0 {
        let mut tail = ", ".to_owned();
        push_dec(&mut tail, info.aborts as u64);
        tail.append(" aborted");
        out.append(tail.as_str());
    } else {
        assert(out@ =~= out@ + Seq::<char>::empty());
    }
    out
}

/// What an entry of an object is called.
pub fn entry_text(def: Option<&ObjectDef>, sub: u8) -> (r: String)
    ensures
        r@ == match def {
            Some(d) => match d.sub_label_spec(sub) {
                Some(label) => "."@ + dec(sub as nat) + " "@ + label,
                None => "."@ + dec(sub as nat),
            },
            None => "."@ + dec(sub as nat),
        },
{
    let mut out = ".".to_owned();
    push_dec(&mut out, sub as u64);
    if let Some(d) = def {
        if let Some(label) = d.sub_label(sub) {
            out.append(" ");
            out.append(label.as_str());
        }
    }
    out
}

/// Why an object has no value at an instant: the log has one later, or none at all.
pub fn missing_text(track: Option<&ObjectTrack>, t: i64) -> (r: &'static str)
    ensures
        r@ == match track {
            Some(tr) => if tr.changes@.len() > 0 && tr.changes@[0].t_utc > t {
                "not yet"@
            } else {
                "--"@
            },
            None => "--"@,
        },
{
    match track {
        Some(tr) => if tr.changes.len() > 0 && tr.changes[0].t_utc > t {
            "not yet"
        } else {
            "--"
        },
        None => "--",
    }
}

/// How an object was accessed, compactly: what was read, written and refused, or how often it was
/// seen where none of these.
pub open spec fn traffic_parts(track: ObjectTrack) -> Seq<Seq<char>> {
    let reads = if track.reads > 0 {
        seq![dec(track.reads as nat) + " r"@]
    } else {
        Seq::empty()
    };
    let writes = if track.writes > 0 {
        seq![dec(track.writes as nat) + " w"@]
    } else {
        Seq::empty()
    };
    let aborts = if track.aborts > 0 {
        seq![dec(track.aborts as nat) + " ✖"@]
    } else {
        Seq::empty()
    };
    let parts = reads + writes + aborts;
    if parts.len() == 0 && track.updates > 0 {
        seq![dec(track.updates as nat) + " upd"@]
    } else {
        parts
    }
}

fn counted(n: usize, what: &str) -> (r: String)
    ensures
        r@ == dec(n as nat) + what@,
{
    let mut out = String::new();
    push_dec(&mut out, n as u64);
    assert(out@ =~= dec(n as nat));
    out.append(what);
    out
}

/// How an object was accessed, compactly.
pub fn traffic(track: Option<&ObjectTrack>) -> (r: String)
    ensures
        r@ == match track {
            Some(tr) => joined(traffic_parts(*tr), ", "@),
            None => Seq::<char>::empty(),
        },
{
    let track = match track {
        Some(tr) => tr,
        None => return String::new(),
    };
    let mut parts: Vec<String> = Vec::new();
    if track.reads > 0 {
        parts.push(counted(track.reads, " r"));
    }
    if track.writes > 0 {
        parts.push(counted(track.writes, " w"));
    }
    if track.aborts > 0 {
        parts.push(counted(track.aborts, " ✖"));
    }
    if parts.len() == 0 && track.updates > 0 {
        parts.push(counted(track.updates, " upd"));
    }
    assert(texts_of(parts@) =~= traffic_parts(*track));
    join(&parts, ", ")
}

/// How an object was accessed, at length.
pub open spec fn traffic_detail_spec(track: ObjectTrack) -> Seq<char> {
    dec(track.updates as nat) + " value updates, "@ + dec(track.changes@.len())
        + " distinct changes"@ + "\nSDO: "@ + dec(track.reads as nat) + " reads, "@ + dec(
        track.writes as nat,
    ) + " writes acknowledged, "@ + dec(track.aborts as nat) + " aborted"@ + match track.last_abort {
        Some(code) => "\nlast abort: 0x"@ + hex(code as nat, 8) + " "@ + abort_reason_spec(code),
        None => Seq::empty(),
    }
}

/// How an object was accessed, at length.
pub fn traffic_detail(track: &ObjectTrack) -> (r: String)
    ensures
        r@ == traffic_detail_spec(*track),
{
    let mut out = counted(track.updates, " value updates, ");
    push_dec(&mut out, track.changes.len() as u64);
    out.append(" distinct changes");
    out.append("\nSDO: ");
    push_dec(&mut out, track.reads as u64);
    out.append(" reads, ");
    push_dec(&mut out, track.writes as u64);
    out.append(" writes acknowledged, ");
    push_dec(&mut out, track.aborts as u64);
    out.append(" aborted");
    match track.last_abort {
        Some(code) => {
            let mut tail = "\nlast abort: 0x".to_owned();
            push_hex(&mut tail, code as u64, 8);
            tail.append(" ");
            tail.append(abort_reason(code));
            out.append(tail.as_str());
        },
        None => {
            assert(out@ =~= out@ + Seq::<char>::empty());
        },
    }
    out
}

/// The text that a transfer is searched by.
pub open spec fn searched(t: SdoTransfer) -> Seq<char> {
    describe_object_spec(t.index, t.sub) + " "@ + t.kind.label_spec() + " "@ + t@.detail_spec()
}

/// Whether a transfer passes a filter.
pub open spec fn passes(t: SdoTransfer, filter: SdoFilter) -> bool {
    let needle = lowercased(trimmed(filter.text@));
    &&& match filter.node {
        Some(key) => key.bus == t.bus && key.node == t.node,
        None => true,
    }
    &&& !filter.aborts_only || t.kind is Abort
    &&& needle.len() == 0 || holds(lowercased(searched(t)), needle)
}

/// The places of the first `n` transfers that pass a filter.
pub open spec fn passing(transfers: Seq<SdoTransfer>, filter: SdoFilter, n: nat) -> Seq<usize>
    decreases n,
{
    if n == 0 {
        Seq::empty()
    } else {
        let rest = passing(transfers, filter, (n - 1) as nat);
        if passes(transfers[n - 1], filter) {
            rest.push((n - 1) as usize)
        } else {
            rest
        }
    }
}

/// The places of the transfers that pass a filter, in order.
pub fn filter_transfers(transfers: &Vec<SdoTransfer>, filter: &SdoFilter) -> (r: Vec<usize>)
    ensures
        r@ == passing(transfers@, *filter, transfers@.len()),
{
    let bare = trim(filter.text.as_str());
    let needle = lowercase(bare.as_str());
    let mut out: Vec<usize> = Vec::new();
    let mut i: usize = 0;
    while i < transfers.len()
        invariant
            i <= transfers@.len(),
            needle@ == lowercased(trimmed(filter.text@)),
            out@ == passing(transfers@, *filter, i as nat),
        decreases transfers@.len() - i,
    {
        let t = &transfers[i];
        let by_node = match filter.node {
            Some(key) => key.bus == t.bus && key.node == t.node,
            None => true,
        };
        let abort = match t.kind {
            SdoKind::Abort(_) => true,
            _ => false,
        };
        let by_kind = !filter.aborts_only || abort;
        let by_text = needle.as_str().is_empty() || {
            let mut text = describe_object(t.index, t.sub);
            text.append(" ");
            text.append(t.kind.label());
            text.append(" ");
            text.append(t.detail().as_str());
            let low = lowercase(text.as_str());
            contains(low.as_str(), needle.as_str())
        };
        if by_node && by_kind && by_text {
            out.push(i);
        }
        i += 1;
    }
    out
}

/// Whether listed transfers come in the order of their times.
pub open spec fn in_order(transfers: Seq<SdoTransfer>, rows: Seq<usize>) -> bool {
    forall|i: int, j: int|
        0 <= i <= j < rows.len() ==> transfers[#[trigger] rows[i] as int].t_utc
            <= transfers[#[trigger] rows[j] as int].t_utc
}

/// The row at or just before the playhead, of rows in the order of their times.
pub fn row_at(transfers: &Vec<SdoTransfer>, rows: &Vec<usize>, t: i64) -> (r: Option<usize>)
    requires
        forall|i: int| 0 <= i < rows@.len() ==> (#[trigger] rows@[i]) < transfers@.len(),
    ensures
        in_order(transfers@, rows@) ==> match r {
            Some(i) => i < rows@.len() && (forall|k: int|
                0 <= k <= i ==> transfers@[#[trigger] rows@[k] as int].t_utc <= t) && (forall|k:
                int|
                i < k < rows@.len() ==> transfers@[#[trigger] rows@[k] as int].t_utc > t),
            None => forall|k: int|
                0 <= k < rows@.len() ==> transfers@[#[trigger] rows@[k] as int].t_utc > t,
        },
        r matches Some(i) ==> i < rows@.len(),
{
    let mut lo: usize = 0;
    let mut hi: usize = rows.len();
    while lo < hi
        invariant
            lo <= hi <= rows@.len(),
            forall|i: int| 0 <= i < rows@.len() ==> (#[trigger] rows@[i]) < transfers@.len(),
            in_order(transfers@, rows@) ==> forall|k: int|
                0 <= k < lo ==> transfers@[#[trigger] rows@[k] as int].t_utc <= t,
            in_order(transfers@, rows@) ==> forall|k: int|
                hi <= k < rows@.len() ==> transfers@[#[trigger] rows@[k] as int].t_utc > t,
        decreases hi - lo,
    {
        let mid: usize = lo + (hi - lo) / 2;
        if transfers[rows[mid]].t_utc <= t {
            lo = mid + 1;
        } else {
            hi = mid;
        }
    }
    if lo == 0 {
        None
    } else {
        Some(lo - 1)
    }
}

/// The texts of a transfer's row, but its time: who, which way, how, what of, with what, and how
/// long it took.
pub open spec fn row_spec(t: SdoTransfer, multi_bus: bool) -> Seq<Seq<char>> {
    seq![
        node_label_spec(NodeKey { bus: t.bus, node: t.node }, multi_bus),
        if t.request {
            "→"@
        } else {
            "←"@
        },
        t.kind.label_spec(),
        describe_object_spec(t.index, t.sub),
        t@.detail_spec(),
        match t.latency {
            Some(l) => quotient(l as int, 100, 1) + " ms"@,
            None => Seq::empty(),
        },
    ]
}

/// The texts of a transfer's row, but its time.
pub fn sdo_row(t: &SdoTransfer, multi_bus: bool) -> (r: Vec<String>)
    ensures
        texts_of(r@) == row_spec(*t, multi_bus),
{
    let mut out: Vec<String> = Vec::new();
    out.push(node_label(NodeKey { bus: t.bus, node: t.node }, multi_bus));
    out.push(
        if t.request {
            "→".to_owned()
        } else {
            "←".to_owned()
        },
    );
    out.push(t.kind.label().to_owned());
    out.push(describe_object(t.index, t.sub));
    out.push(t.detail());
    let latency = match t.latency {
        Some(l) => {
            let mut s = String::new();
            push_quotient(&mut s, l, 100, 1);
            assert(s@ =~= quotient(l as int, 100, 1));
            s.append(" ms");
            s
        },
        None => String::new(),
    };
    out.push(latency);
    assert(texts_of(out@) =~= row_spec(*t, multi_bus));
    out
}

/// An entry of a dictionary as one number, which orders by the object first.
pub open spec fn entry_code(index: u16, sub: u8) -> u64 {
    (256 * index + sub) as u64
}

/// Whether the dictionary defines an entry.
pub open spec fn is_defined(index: u16, sub: u8) -> bool {
    exists|i: int| #[trigger] row_defines(i, index, sub)
}

/// Whether a row of the dictionary defines an entry: sub-index zero of a variable, one to the
/// length of an array.
pub open spec fn row_defines(i: int, index: u16, sub: u8) -> bool {
    0 <= i < 67 && DICTIONARY@[i].0 == index && if DICTIONARY@[i].5 == 0 {
        sub == 0
    } else {
        1 <= sub <= DICTIONARY@[i].5
    }
}

impl CanOpenInspector {
    /// Opens on the busiest node: the one the master talks to is usually the one worth looking
    /// at first.
    pub fn new(source: SourceId, frames: &CanFrames) -> (r: Self)
        requires
            frames@.len() <= usize::MAX / 32,
        ensures
            r.source == source,
            r.log.wf(),
            r.log.reports(crate::can::canopen::replay::replayed(frames@)),
            r.tab == Tab::Nodes,
            r.only_seen,
            r.sdo_filter.node is None && r.sdo_filter.text@.len() == 0 && !r.sdo_filter.aborts_only,
            !r.scroll_to_cursor,
            match r.node {
                Some(key) => exists|i: int| #[trigger]
                    is_busiest(r.log.nodes@, i) && r.log.nodes@[i].key == key,
                None => r.log.nodes@.len() == 0,
            },
    {
        let log = CanOpenLog::build(frames.frames());
        let node = match busiest(&log.nodes) {
            Some(i) => {
                let key = log.nodes[i].key;
                assert(is_busiest(log.nodes@, i as int) && log.nodes@[i as int].key == key);
                Some(key)
            },
            None => None,
        };
        assert(node matches Some(key) ==> exists|i: int| #[trigger]
            is_busiest(log.nodes@, i) && log.nodes@[i].key == key);
        CanOpenInspector {
            source,
            log,
            tab: Tab::Nodes,
            node,
            only_seen: true,
            sdo_filter: SdoFilter { node: None, text: String::new(), aborts_only: false },
            scroll_to_cursor: false,
        }
    }

    pub fn source(&self) -> (r: SourceId)
        ensures
            r == self.source,
    {
        self.source
    }

    pub fn log(&self) -> (r: &CanOpenLog)
        ensures
            *r == self.log,
    {
        &self.log
    }

    pub fn open_tab(&mut self, tab: Tab)
        ensures
            *final(self) == (CanOpenInspector { tab, ..*old(self) }),
    {
        self.tab = tab;
    }

    /// Lists every object the firmware defines, not only the ones the log has something about.
    pub fn show_every_object(&mut self, every: bool)
        ensures
            *final(self) == (CanOpenInspector { only_seen: !every, ..*old(self) }),
    {
        self.only_seen = !every;
    }

    /// Turns to one node's dictionary.
    pub fn open_dictionary(&mut self, node: NodeKey)
        ensures
            *final(self) == (CanOpenInspector {
                node: Some(node),
                tab: Tab::Dictionary,
                ..*old(self)
            }),
    {
        self.node = Some(node);
        self.tab = Tab::Dictionary;
    }

    /// The rows for one node: what the log has, and, unless only those are wanted, everything
    /// else the dictionary defines. In the order of index and sub-index, each once.
    pub fn dictionary_rows(&self, node: NodeKey) -> (r: Vec<(u16, u8)>)
        requires
            self.log.wf(),
        ensures
            forall|i: int, j: int|
                0 <= i < j < r@.len() ==> entry_code((#[trigger] r@[i]).0, r@[i].1) < entry_code(
                    (#[trigger] r@[j]).0,
                    r@[j].1,
                ),
            forall|index: u16, sub: u8| #[trigger]
                r@.contains((index, sub)) <==> self.log.track(
                    ObjectKey { bus: node.bus, node: node.node, index, sub },
                ) is Some || (!self.only_seen && is_defined(index, sub)),
    {
        let mut table: Keyed<()> = Keyed::new();
        let seen = self.log.objects_of(node);
        let mut i: usize = 0;
        while i < seen.len()
            invariant
                i <= seen@.len(),
                table.wf(),
                forall|k: int|
                    0 <= k < i ==> table.has(
                        entry_code((#[trigger] seen@[k]).index, seen@[k].sub),
                    ),
                forall|code: u64| #[trigger]
                    table.has(code) ==> exists|k: int|
                        0 <= k < i && code == entry_code(
                            (#[trigger] seen@[k]).index,
                            seen@[k].sub,
                        ),
            decreases seen@.len() - i,
        {
            let code: u64 = 256 * seen[i].index as u64 + seen[i].sub as u64;
            let ghost before = table;
            table.insert(code, ());
            proof {
                lemma_inserted(before, table, code);
            }
            i += 1;
        }
        if !self.only_seen {
            add_defined(&mut table);
        }
        let ghost whole = table;
        let mut out: Vec<(u16, u8)> = Vec::new();
        let mut j: usize = 0;
        proof {
            assert forall|code: u64| #[trigger] table.has(code) implies code < 0x100_0000 by {}
        }
        while j < table.len()
            invariant
                table.wf(),
                j <= table.keys().len(),
                out@.len() == j,
                forall|code: u64| #[trigger] table.has(code) ==> code < 0x100_0000,
                forall|k: int|
                    0 <= k < j ==> entry_code((#[trigger] out@[k]).0, out@[k].1)
                        == table.keys()[k],
            decreases table.keys().len() - j,
        {
            let code = table.key_at(j);
            proof {
                table.lemma_at(j as int);
            }
            out.push(((code / 256) as u16, (code % 256) as u8));
            j += 1;
        }
        proof {
            assert forall|index: u16, sub: u8| #[trigger] out@.contains((index, sub)) <==> table.has(
                entry_code(index, sub),
            ) by {
                if out@.contains((index, sub)) {
                    let k = out@.index_of((index, sub));
                    assert(out@[k] == (index, sub));
                    table.lemma_at(k);
                }
                if table.has(entry_code(index, sub)) {
                    let k = table.keys().index_of(entry_code(index, sub));
                    assert(table.keys()[k] == entry_code(index, sub));
                    assert(entry_code(out@[k].0, out@[k].1) == entry_code(index, sub));
                    assert(out@[k] == (index, sub));
                }
            }
            assert forall|index: u16, sub: u8| #[trigger] out@.contains((index, sub)) <==> self.log.track(
                ObjectKey { bus: node.bus, node: node.node, index, sub },
            ) is Some || (!self.only_seen && is_defined(index, sub)) by {
                let key = ObjectKey { bus: node.bus, node: node.node, index, sub };
                if self.log.track(key) is Some {
                    assert(key.node_spec() == node);
                    assert(seen@.contains(key));
                    let k = seen@.index_of(key);
                    assert(table.has(entry_code(seen@[k].index, seen@[k].sub)));
                }
                if exists|k: int|
                    0 <= k < seen@.len() && entry_code(index, sub) == entry_code(
                        (#[trigger] seen@[k]).index,
                        seen@[k].sub,
                    ) {
                    let k = choose|k: int|
                        0 <= k < seen@.len() && entry_code(index, sub) == entry_code(
                            (#[trigger] seen@[k]).index,
                            seen@[k].sub,
                        );
                    assert(seen@[k].node_spec() == node);
                    assert(seen@[k] == key);
                }
            }
        }
        out
    }
}

proof fn lemma_inserted(before: Keyed<()>, after: Keyed<()>, code: u64)
    requires
        before.wf(),
        after.wf(),
        after.lookup(code) == Some(()),
        forall|k: u64| k != code ==> #[trigger] after.lookup(k) == before.lookup(k),
    ensures
        forall|k: u64| #[trigger] after.has(k) <==> before.has(k) || k == code,
{
    assert forall|k: u64| #[trigger] after.has(k) <==> before.has(k) || k == code by {
        if k != code {
            assert(after.lookup(k) == before.lookup(k));
        }
    }
}

fn add_defined(table: &mut Keyed<()>)
    requires
        old(table).wf(),
    ensures
        final(table).wf(),
        forall|code: u64| #[trigger]
            final(table).has(code) <==> old(table).has(code) || exists|index: u16, sub: u8|
                code == #[trigger] entry_code(index, sub) && is_defined(index, sub),
{
    let mut i: usize = 0;
    while i < 67
        invariant
            i <= 67,
            table.wf(),
            forall|code: u64| #[trigger]
                table.has(code) <==> old(table).has(code) || defined_by(code, i as int),
        decreases 67 - i,
    {
        let index = DICTIONARY[i].0;
        let len = DICTIONARY[i].5;
        let first: u16 = if len == 0 {
            0
        } else {
            1
        };
        let mut sub: u16 = first;
        while sub <= len as u16
            invariant
                i < 67,
                index == DICTIONARY@[i as int].0,
                len == DICTIONARY@[i as int].5,
                first == if len == 0 {
                    0u16
                } else {
                    1u16
                },
                first <= sub <= len as u16 + 1,
                table.wf(),
                forall|code: u64| #[trigger]
                    table.has(code) <==> old(table).has(code) || defined_by(code, i as int) || (
                    exists|s: u8| first <= s < sub && code == #[trigger] entry_code(index, s)),
            decreases len + 1 - sub,
        {
            let code: u64 = 256 * index as u64 + sub as u64;
            let ghost before = *table;
            table.insert(code, ());
            proof {
                lemma_inserted(before, *table, code);
                assert(code == entry_code(index, sub as u8));
                assert forall|c: u64| #[trigger] table.has(c) <==> old(table).has(c) || defined_by(
                    c,
                    i as int,
                ) || (exists|s: u8|
                    first <= s < sub + 1 && c == #[trigger] entry_code(index, s)) by {
                    if exists|s: u8| first <= s < sub + 1 && c == #[trigger] entry_code(index, s) {
                        let s = choose|s: u8|
                            first <= s < sub + 1 && c == #[trigger] entry_code(index, s);
                        if s < sub {
                            assert(before.has(c));
                        }
                    }
                    if before.has(c) && !old(table).has(c) && !defined_by(c, i as int) {
                        let s = choose|s: u8|
                            first <= s < sub && c == #[trigger] entry_code(index, s);
                        assert(first <= s < sub + 1 && c == entry_code(index, s));
                    }
                }
            }
            sub += 1;
        }
        proof {
            assert forall|code: u64| #[trigger] table.has(code) <==> old(table).has(code)
                || defined_by(code, i + 1) by {
                if defined_by(code, i + 1) && !defined_by(code, i as int) {
                    let (n, x, s) = choose|n: int, x: u16, s: u8|
                        0 <= n < i + 1 && #[trigger] row_defines(n, x, s) && code
                            == #[trigger] entry_code(x, s);
                    assert(n == i);
                    assert(first <= s < sub && code == entry_code(index, s));
                }
                if exists|s: u8| first <= s < sub && code == #[trigger] entry_code(index, s) {
                    let s = choose|s: u8|
                        first <= s < sub && code == #[trigger] entry_code(index, s);
                    assert(row_defines(i as int, index, s));
                }
            }
        }
        i += 1;
    }
    proof {
        assert forall|code: u64| #[trigger] table.has(code) <==> old(table).has(code) || exists|
            index: u16,
            sub: u8,
        | code == #[trigger] entry_code(index, sub) && is_defined(index, sub) by {
            if defined_by(code, 67) {
                let (n, x, s) = choose|n: int, x: u16, s: u8|
                    0 <= n < 67 && #[trigger] row_defines(n, x, s) && code
                        == #[trigger] entry_code(x, s);
                assert(is_defined(x, s));
            }
            if exists|index: u16, sub: u8|
                code == #[trigger] entry_code(index, sub) && is_defined(index, sub) {
                let (x, s) = choose|index: u16, sub: u8|
                    code == #[trigger] entry_code(index, sub) && is_defined(index, sub);
                let n = choose|n: int| #[trigger] row_defines(n, x, s);
                assert(defined_by(code, 67));
            }
        }
    }
}

/// Whether one of the first rows of the dictionary defines the entry of a code.
spec fn defined_by(code: u64, rows: int) -> bool {
    exists|n: int, x: u16, s: u8|
        0 <= n < rows && #[trigger] row_defines(n, x, s) && code == #[trigger] entry_code(x, s)
}

} // verus!
