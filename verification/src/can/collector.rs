//! Decoding a log's frames into one series per signal of each node.
use vstd::prelude::*;

use crate::can::iocan::{
    pair_of_bits, process_data, process_data_spec, sensor_unit, sensor_unit_spec, unpack_2bit,
    word, TpdoKind, HCO_DIGITAL_OFF, HCO_DIGITAL_ON, PROTOCOL_SENSOR_SLOTS, RAW_INVALID,
    SENSOR_INVALID,
};
use crate::can::signals::{read_frame, samples, word_samples, words_samples, Signal};
use crate::can::{instance, push_instance, CanFrame};
use crate::keyed::Keyed;
use crate::order::{is_text_order, text_order};
use crate::text::{lex_lt, lex_lt_asymmetric, opt_view, texts_of};

verus! {

broadcast use vstd::seq_lib::group_seq_properties;

/// What one series is: a signal of a node, on a bus.
#[derive(Clone, Copy, PartialEq, Eq, Structural, Debug)]
pub struct SignalKey {
    pub bus: u8,
    pub node: u8,
    pub signal: Signal,
}

impl SignalKey {
    /// The key as a number.
    pub open spec fn code_spec(self) -> int {
        0x100_0000 * self.bus + 0x1_0000 * self.node + self.signal.code_spec()
    }

    fn code(self) -> (r: u64)
        ensures
            r == self.code_spec(),
    {
        0x100_0000 * self.bus as u64 + 0x1_0000 * self.node as u64 + self.signal.code()
    }
}

/// Two keys with one number are one key.
pub proof fn signal_codes_are_distinct(a: SignalKey, b: SignalKey)
    ensures
        a.code_spec() == b.code_spec() <==> a == b,
{
    if a.code_spec() == b.code_spec() {
        assert(a.bus == b.bus && a.node == b.node);
        assert(a.signal.tag() == b.signal.tag());
        assert(a.signal.channel() == b.signal.channel());
    }
}

/// Samples that hold whole counts of a decimal fraction of the unit: with two decimals, 1645
/// is 16.45.
pub struct CountSeries {
    /// `CAN_HCO[5].out1`.
    pub name: String,
    pub unit: Option<String>,
    pub decimals: u8,
    /// Time and count, in the order of arrival.
    pub points: Vec<(i64, i64)>,
}

/// The samples of one signal among those of a frame received at `t`.
pub open spec fn taken(all: Seq<(Signal, i64)>, signal: Signal, t: i64) -> Seq<(i64, i64)>
    decreases all.len(),
{
    if all.len() == 0 {
        Seq::empty()
    } else {
        let rest = taken(all.drop_last(), signal, t);
        if all.last().0 == signal {
            rest.push((t, all.last().1))
        } else {
            rest
        }
    }
}

/// What a frame contributes to a series.
pub open spec fn frame_points(frame: CanFrame, key: SignalKey) -> Seq<(i64, i64)> {
    if frame.bus == key.bus && frame.id % 16 == key.node {
        taken(samples(frame), key.signal, frame.t_utc)
    } else {
        Seq::empty()
    }
}

/// The points of a series, in the order of arrival.
pub open spec fn points(frames: Seq<CanFrame>, key: SignalKey) -> Seq<(i64, i64)>
    decreases frames.len(),
{
    if frames.len() == 0 {
        Seq::empty()
    } else {
        points(frames.drop_last(), key) + frame_points(frames.last(), key)
    }
}

/// Whether a log carries more than one bus.
pub open spec fn several_buses(frames: Seq<CanFrame>) -> bool {
    exists|i: int, j: int|
        0 <= i < frames.len() && 0 <= j < frames.len() && (#[trigger] frames[i]).bus != (
        #[trigger] frames[j]).bus
}

/// Whether a frame declares the units of a node's sensor slots.
pub open spec fn declares_units(frame: CanFrame, bus: u8, node: u8) -> bool {
    frame.bus == bus && frame.len == 8 && process_data_spec(frame.id) == Some(
        (node, TpdoKind::SensorUnits),
    )
}

/// The unit codes a frame declares.
pub open spec fn unit_codes(frame: CanFrame) -> Seq<u8> {
    Seq::new(12, |i: int| pair_of_bits(frame.data@, i) as u8)
}

/// The unit codes of a node's sensor slots: those it declared first.
pub open spec fn declared_units(frames: Seq<CanFrame>, bus: u8, node: u8) -> Option<Seq<u8>>
    decreases frames.len(),
{
    if frames.len() == 0 {
        None
    } else {
        match declared_units(frames.drop_last(), bus, node) {
            Some(codes) => Some(codes),
            None => if declares_units(frames.last(), bus, node) {
                Some(unit_codes(frames.last()))
            } else {
                None
            },
        }
    }
}

/// The unit and the decimals of a series. Empty is no unit.
pub open spec fn scale(frames: Seq<CanFrame>, key: SignalKey) -> (Seq<char>, nat) {
    match key.signal {
        Signal::Slot(i) => sensor_unit_spec(
            match declared_units(frames, key.bus, key.node) {
                Some(codes) => Some(codes[i as int]),
                None => None,
            },
        ),
        signal => (signal.unit_spec(), 0),
    }
}

/// The name of a series: the bus joins it only when the log carries more than one.
pub open spec fn signal_name(multi_bus: bool, key: SignalKey) -> Seq<char> {
    key.signal.group_spec() + "["@ + instance(multi_bus, key.bus, key.node) + "]."@
        + key.signal.field_spec()
}

/// Whether a series is the one of a signal in a log.
pub open spec fn is_series_of(s: CountSeries, frames: Seq<CanFrame>, key: SignalKey) -> bool {
    &&& s.name@ == signal_name(several_buses(frames), key)
    &&& s.points@ == points(frames, key)
    &&& s.decimals == scale(frames, key).1
    &&& opt_view(s.unit) == if scale(frames, key).0 == ""@ {
        None
    } else {
        Some(scale(frames, key).0)
    }
}

/// Whether a list holds the series of `keys`, in that order.
pub open spec fn lists(
    out: Seq<CountSeries>,
    frames: Seq<CanFrame>,
    keys: Seq<SignalKey>,
) -> bool {
    &&& keys.len() == out.len()
    &&& forall|i: int| 0 <= i < out.len() ==> is_series_of(#[trigger] out[i], frames, keys[i])
}

/// Whether `keys` are the signals that a log has any sample of, each once.
pub open spec fn are_present(keys: Seq<SignalKey>, frames: Seq<CanFrame>) -> bool {
    &&& keys.no_duplicates()
    &&& forall|key: SignalKey| #[trigger] keys.contains(key) <==> points(frames, key).len() > 0
}

/// Whether names stand in order.
pub open spec fn names_in_order(out: Seq<CountSeries>) -> bool {
    forall|i: int, j: int|
        0 <= i < j < out.len() ==> !lex_lt((#[trigger] out[j]).name@, (#[trigger] out[i]).name@)
}

struct Samples {
    key: SignalKey,
    points: Vec<(i64, i64)>,
}

/// Builds the series of a log frame by frame.
struct Collector {
    series: Keyed<Samples>,
    /// Unit code per sensor slot, from each node's first `SensorUnits` frame.
    ///
    /// Resolved up front rather than as the frames arrive, so that the samples before a
    /// node's first `SensorUnits` frame are scaled the same as the ones after it; otherwise a
    /// series would step by a factor of 100 in the middle for no physical reason.
    sensor_units: Keyed<[u8; PROTOCOL_SENSOR_SLOTS]>,
    multi_bus: bool,
}

/// What a table of unit codes holds of a node.
spec fn units_at(
    units: Keyed<[u8; PROTOCOL_SENSOR_SLOTS]>,
    bus: u8,
    node: u8,
) -> Option<Seq<u8>> {
    match units.lookup((256 * bus + node) as u64) {
        Some(codes) => Some(codes@),
        None => None,
    }
}

/// The points a table of series holds under a key.
spec fn points_at(series: Keyed<Samples>, key: SignalKey) -> Seq<(i64, i64)> {
    match series.lookup(key.code_spec() as u64) {
        Some(s) => s.points@,
        None => Seq::empty(),
    }
}

/// Whether a table files each series under its own key, and none that is empty.
spec fn files_by_key(series: Keyed<Samples>) -> bool {
    &&& series.wf()
    &&& forall|i: int|
        0 <= i < series.keys().len() ==> {
            let s = #[trigger] series.values()[i];
            series.keys()[i] == s.key.code_spec() && s.key.signal.wf() && s.points@.len() > 0
        }
}

impl Collector {
    fn new(frames: &[CanFrame]) -> (r: Self)
        ensures
            files_by_key(r.series),
            forall|key: SignalKey| #[trigger] points_at(r.series, key).len() == 0,
            r.sensor_units.wf(),
            forall|bus: u8, node: u8|
                #[trigger] units_at(r.sensor_units, bus, node) == declared_units(
                    frames@,
                    bus,
                    node,
                ),
            r.multi_bus == several_buses(frames@),
    {
        let mut sensor_units: Keyed<[u8; PROTOCOL_SENSOR_SLOTS]> = Keyed::new();
        let mut multi_bus = false;
        let mut i: usize = 0;
        assert(frames@.take(0) =~= Seq::<CanFrame>::empty());
        while i < frames.len()
            invariant
                i <= frames@.len(),
                sensor_units.wf(),
                forall|bus: u8, node: u8|
                    #[trigger] units_at(sensor_units, bus, node) == declared_units(
                        frames@.take(i as int),
                        bus,
                        node,
                    ),
                multi_bus <==> exists|k: int|
                    0 <= k < i && (#[trigger] frames@[k]).bus != frames@[0].bus,
            decreases frames@.len() - i,
        {
            let frame = &frames[i];
            let ghost before = sensor_units;
            assert(frames@.take(i + 1).drop_last() =~= frames@.take(i as int));
            assert(frames@.take(i + 1).last() == *frame);
            if frame.bus != frames[0].bus {
                multi_bus = true;
                assert(frames@[i as int].bus != frames@[0].bus);
            }
            let mut declared: Option<u8> = None;
            if frame.len == 8 {
                match process_data(frame.id) {
                    Some((node, kind)) => {
                        if kind == TpdoKind::SensorUnits {
                            declared = Some(node);
                        }
                    },
                    None => {},
                }
            }
            if let Some(node) = declared {
                let code: u64 = 256 * frame.bus as u64 + node as u64;
                let codes = unpack_2bit(&[frame.data[0], frame.data[1], frame.data[2]]);
                assert(codes@ =~= unit_codes(*frame));
                if sensor_units.get(code).is_none() {
                    sensor_units.insert(code, codes);
                }
                assert forall|b: u8, n: u8| #[trigger]
                    units_at(sensor_units, b, n) == declared_units(
                        frames@.take(i + 1),
                        b,
                        n,
                    ) by {
                    assert(units_at(before, b, n) == declared_units(
                        frames@.take(i as int),
                        b,
                        n,
                    ));
                    assert((256 * b + n) as u64 == code <==> b == frame.bus && n == node);
                }
            } else {
                assert forall|b: u8, n: u8| #[trigger]
                    units_at(sensor_units, b, n) == declared_units(
                        frames@.take(i + 1),
                        b,
                        n,
                    ) by {
                    assert(units_at(before, b, n) == declared_units(
                        frames@.take(i as int),
                        b,
                        n,
                    ));
                    assert(!declares_units(*frame, b, n));
                }
            }
            i += 1;
        }
        assert(frames@.take(frames@.len() as int) =~= frames@);
        proof {
            if several_buses(frames@) {
                let (a, b) = choose|a: int, b: int|
                    0 <= a < frames@.len() && 0 <= b < frames@.len() && (
                    #[trigger] frames@[a]).bus != (#[trigger] frames@[b]).bus;
                assert(frames@[a].bus != frames@[0].bus || frames@[b].bus != frames@[0].bus);
            }
        }
        Collector { series: Keyed::new(), sensor_units, multi_bus }
    }

    fn push(&mut self, key: SignalKey, t: i64, value: i64)
        requires
            files_by_key(old(self).series),
            key.signal.wf(),
        ensures
            files_by_key(final(self).series),
            final(self).sensor_units == old(self).sensor_units,
            final(self).multi_bus == old(self).multi_bus,
            points_at(final(self).series, key) == points_at(old(self).series, key).push((t, value)),
            forall|k: SignalKey|
                k != key ==> #[trigger] points_at(final(self).series, k) == points_at(
                    old(self).series,
                    k,
                ),
    {
        let code = key.code();
        let ghost before = self.series;
        proof {
            assert forall|k: SignalKey| #[trigger] k.code_spec() == code implies k == key by {
                signal_codes_are_distinct(k, key);
            }
            if before.has(code) {
                let i = before.keys().index_of(code);
                assert(before.keys()[i] == code);
                before.lemma_at(i);
                assert(before.values()[i].key.code_spec() == code);
            }
        }
        let i = self.series.slot(code, Samples { key, points: Vec::new() });
        let ghost mid = self.series;
        proof {
            assert forall|j: int| 0 <= j < mid.keys().len() && j != i implies {
                let s = #[trigger] mid.values()[j];
                mid.keys()[j] == s.key.code_spec() && s.key.signal.wf() && s.points@.len() > 0
            } by {
                mid.lemma_at(j);
                let kj = mid.keys()[j];
                assert(kj != code);
                assert(mid.lookup(kj) == before.lookup(kj));
                let jb = before.keys().index_of(kj);
                assert(before.keys()[jb] == kj);
                before.lemma_at(jb);
                assert(before.values()[jb].key.code_spec() == kj);
            }
        }
        let slot = self.series.value_mut(i);
        slot.points.push((t, value));
        proof {
            Keyed::lemma_update(mid, self.series, i as int);
            assert forall|k: SignalKey| k != key implies #[trigger] points_at(self.series, k)
                == points_at(before, k) by {
                signal_codes_are_distinct(k, key);
                assert(k.code_spec() as u64 != code);
            }
            assert forall|j: int| 0 <= j < self.series.keys().len() implies {
                let s = #[trigger] self.series.values()[j];
                self.series.keys()[j] == s.key.code_spec() && s.key.signal.wf() && s.points@.len()
                    > 0
            } by {
                if j != i {
                    assert(self.series.values()[j] == mid.values()[j]);
                }
            }
        }
    }

    fn push_frame(&mut self, frame: &CanFrame)
        requires
            files_by_key(old(self).series),
        ensures
            files_by_key(final(self).series),
            final(self).sensor_units == old(self).sensor_units,
            final(self).multi_bus == old(self).multi_bus,
            forall|k: SignalKey| #[trigger]
                points_at(final(self).series, k) == points_at(old(self).series, k) + frame_points(
                    *frame,
                    k,
                ),
    {
        let all = read_frame(frame);
        let node: u8 = (frame.id % 16) as u8;
        let mut i: usize = 0;
        let ghost before = *self;
        assert(all@.take(0) =~= Seq::<(Signal, i64)>::empty());
        while i < all.len()
            invariant
                i <= all@.len(),
                all@ == samples(*frame),
                node == frame.id % 16,
                files_by_key(self.series),
                self.sensor_units == before.sensor_units,
                self.multi_bus == before.multi_bus,
                forall|k: SignalKey| #[trigger]
                    points_at(self.series, k) == points_at(before.series, k) + (if k.bus
                        == frame.bus && k.node == node {
                        taken(all@.take(i as int), k.signal, frame.t_utc)
                    } else {
                        Seq::empty()
                    }),
            decreases all@.len() - i,
        {
            let (signal, value) = all[i];
            let ghost mid = self.series;
            proof {
                samples_are_well_formed(*frame, i as int);
                assert(all@.take(i + 1).drop_last() =~= all@.take(i as int));
            }
            self.push(SignalKey { bus: frame.bus, node, signal }, frame.t_utc, value);
            proof {
                let key = SignalKey { bus: frame.bus, node, signal };
                assert forall|k: SignalKey| #[trigger]
                    points_at(self.series, k) == points_at(before.series, k) + (if k.bus
                        == frame.bus && k.node == node {
                        taken(all@.take(i + 1), k.signal, frame.t_utc)
                    } else {
                        Seq::empty()
                    }) by {
                    assert(points_at(mid, k) == points_at(before.series, k) + (if k.bus == frame.bus
                        && k.node == node {
                        taken(all@.take(i as int), k.signal, frame.t_utc)
                    } else {
                        Seq::empty()
                    }));
                }
            }
            i += 1;
        }
        assert(all@.take(all@.len() as int) =~= all@);
        proof {
            assert forall|k: SignalKey| #[trigger]
                points_at(self.series, k) == points_at(before.series, k) + frame_points(
                    *frame,
                    k,
                ) by {}
        }
    }
}

proof fn lemma_words_well_formed(kind: TpdoKind, data: Seq<u8>, n: nat, i: int)
    requires
        n <= 4,
        0 <= i < words_samples(kind, data, n).len(),
    ensures
        words_samples(kind, data, n)[i].0.wf(),
    decreases n,
{
    let front = words_samples(kind, data, (n - 1) as nat);
    if i < front.len() {
        lemma_words_well_formed(kind, data, (n - 1) as nat, i);
    } else {
        assert(words_samples(kind, data, n)[i] == word_samples(
            kind,
            word(data, n - 1),
            (n - 1) as u8,
        )[i - front.len()]);
    }
}

/// Every sample is of a channel that the protocol has.
pub proof fn samples_are_well_formed(frame: CanFrame, i: int)
    requires
        0 <= i < samples(frame).len(),
    ensures
        samples(frame)[i].0.wf(),
{
    if let Some((_, kind)) = process_data_spec(frame.id) {
        if frame.len == 8 && kind != TpdoKind::ValveStatus && kind != TpdoKind::Status {
            lemma_words_well_formed(kind, frame.data@, 4, i);
        }
    }
}

/// The keys a table of series is filed under.
spec fn keys_of(series: Seq<Samples>) -> Seq<SignalKey> {
    series.map_values(|s: Samples| s.key)
}

proof fn lemma_keys_are_present(series: Keyed<Samples>, frames: Seq<CanFrame>)
    requires
        files_by_key(series),
        forall|k: SignalKey| #[trigger] points_at(series, k) == points(frames, k),
    ensures
        are_present(keys_of(series.values()), frames),
        forall|i: int|
            0 <= i < series.values().len() ==> points(
                frames,
                (#[trigger] series.values()[i]).key,
            ) == series.values()[i].points@,
{
    let keys = keys_of(series.values());
    assert forall|i: int| 0 <= i < series.values().len() implies points(
        frames,
        (#[trigger] series.values()[i]).key,
    ) == series.values()[i].points@ by {
        series.lemma_at(i);
        assert(points_at(series, series.values()[i].key) == series.values()[i].points@);
    }
    assert forall|key: SignalKey| #[trigger] keys.contains(key) <==> points(frames, key).len()
        > 0 by {
        assert(points_at(series, key) == points(frames, key));
        if keys.contains(key) {
            let i = keys.index_of(key);
            assert(keys[i] == key);
            assert(series.values()[i].points@.len() > 0);
        }
        if points(frames, key).len() > 0 {
            let code = key.code_spec() as u64;
            assert(series.has(code));
            let i = series.keys().index_of(code);
            assert(series.keys()[i] == code);
            assert(series.values()[i].key.code_spec() == key.code_spec());
            signal_codes_are_distinct(series.values()[i].key, key);
            assert(keys[i] == key);
        }
    }
    assert forall|i: int, j: int| 0 <= i < keys.len() && 0 <= j < keys.len() && i
        != j implies keys[i] != keys[j] by {
        assert(series.values()[i].key.code_spec() == series.keys()[i]);
        assert(series.values()[j].key.code_spec() == series.keys()[j]);
        assert(series.keys()[i] != series.keys()[j]);
    }
}

impl Collector {
    fn name(&self, key: SignalKey) -> (name: String)
        requires
            key.signal.wf(),
        ensures
            name@ == signal_name(self.multi_bus, key),
    {
        let mut name = key.signal.group().to_owned();
        name.append("[");
        push_instance(&mut name, self.multi_bus, key.bus, key.node);
        name.append("].");
        key.signal.push_field(&mut name);
        name
    }

    fn scale(&self, key: SignalKey, Ghost(frames): Ghost<Seq<CanFrame>>) -> (r: (&'static str, u8))
        requires
            key.signal.wf(),
            self.sensor_units.wf(),
            forall|bus: u8, node: u8|
                #[trigger] units_at(self.sensor_units, bus, node) == declared_units(
                    frames,
                    bus,
                    node,
                ),
        ensures
            (r.0@, r.1 as nat) == scale(frames, key),
    {
        match key.signal {
            Signal::Slot(i) => {
                let code: u64 = 256 * key.bus as u64 + key.node as u64;
                assert(units_at(self.sensor_units, key.bus, key.node) == declared_units(
                    frames,
                    key.bus,
                    key.node,
                ));
                match self.sensor_units.get(code) {
                    Some(codes) => sensor_unit(Some(codes[i as usize])),
                    None => sensor_unit(None),
                }
            },
            signal => (signal.unit(), 0),
        }
    }

    fn finish(self, Ghost(frames): Ghost<Seq<CanFrame>>) -> (out: Vec<CountSeries>)
        requires
            files_by_key(self.series),
            self.sensor_units.wf(),
            self.multi_bus == several_buses(frames),
            forall|k: SignalKey| #[trigger] points_at(self.series, k) == points(frames, k),
            forall|bus: u8, node: u8|
                #[trigger] units_at(self.sensor_units, bus, node) == declared_units(
                    frames,
                    bus,
                    node,
                ),
        ensures
            names_in_order(out@),
            exists|keys: Seq<SignalKey>| #[trigger]
                are_present(keys, frames) && lists(out@, frames, keys),
    {
        proof {
            lemma_keys_are_present(self.series, frames);
        }
        let mut names: Vec<String> = Vec::new();
        let n = self.series.len();
        let mut i: usize = 0;
        while i < n
            invariant
                i <= n == self.series.values().len(),
                files_by_key(self.series),
                names@.len() == i,
                forall|k: int|
                    0 <= k < i ==> (#[trigger] names@[k])@ == signal_name(
                        self.multi_bus,
                        self.series.values()[k].key,
                    ),
            decreases n - i,
        {
            names.push(self.name(self.series.value_at(i).key));
            i += 1;
        }
        let order = text_order(&names);
        let mut out: Vec<CountSeries> = Vec::new();
        let ghost mut keys: Seq<SignalKey> = Seq::empty();
        let mut j: usize = 0;
        while j < n
            invariant
                j <= n == self.series.values().len() == self.series.keys().len(),
                n == names@.len(),
                n == order@.len(),
                files_by_key(self.series),
                self.sensor_units.wf(),
                self.multi_bus == several_buses(frames),
                forall|bus: u8, node: u8|
                    #[trigger] units_at(self.sensor_units, bus, node) == declared_units(
                        frames,
                        bus,
                        node,
                    ),
                forall|i: int|
                    0 <= i < n ==> points(frames, (#[trigger] self.series.values()[i]).key)
                        == self.series.values()[i].points@,
                forall|k: int|
                    0 <= k < n ==> (#[trigger] names@[k])@ == signal_name(
                        self.multi_bus,
                        self.series.values()[k].key,
                    ),
                is_text_order(texts_of(names@), order@),
                out@.len() == j,
                keys.len() == j,
                lists(out@, frames, keys),
                forall|k: int|
                    0 <= k < j ==> #[trigger] keys[k] == self.series.values()[order@[k] as int].key
                        && out@[k].name@ == names@[order@[k] as int]@,
            decreases n - j,
        {
            let p = order[j];
            let s = self.series.value_at(p);
            let (unit, decimals) = self.scale(s.key, Ghost(frames));
            let mut points: Vec<(i64, i64)> = Vec::new();
            let mut q: usize = 0;
            while q < s.points.len()
                invariant
                    q <= s.points@.len(),
                    points@ == s.points@.take(q as int),
                decreases s.points@.len() - q,
            {
                points.push(s.points[q]);
                q += 1;
            }
            assert(s.points@.take(s.points@.len() as int) =~= s.points@);
            proof {
                reveal_strlit("");
                if unit@.len() == 0 {
                    assert(unit@ =~= ""@);
                }
                keys = keys.push(s.key);
            }
            out.push(
                CountSeries {
                    name: names[p].clone(),
                    unit: if unit.to_owned().as_str().is_empty() {
                        None
                    } else {
                        Some(unit.to_owned())
                    },
                    decimals,
                    points,
                },
            );
            j += 1;
        }
        proof {
            assert forall|a: int, b: int| 0 <= a < b < out@.len() implies !lex_lt(
                (#[trigger] out@[b]).name@,
                (#[trigger] out@[a]).name@,
            ) by {
                let x = order@[a] as int;
                let y = order@[b] as int;
                assert(keys[a] == self.series.values()[x].key);
                assert(keys[b] == self.series.values()[y].key);
                assert(crate::order::text_precedes(texts_of(names@), x, y));
                if lex_lt(names@[x]@, names@[y]@) {
                    lex_lt_asymmetric(names@[x]@, names@[y]@);
                } else {
                    crate::text::lex_lt_irreflexive(names@[x]@);
                }
            }
            let all = keys_of(self.series.values());
            assert forall|key: SignalKey| #[trigger] keys.contains(key) <==> points(
                frames,
                key,
            ).len() > 0 by {
                assert(all.contains(key) <==> points(frames, key).len() > 0);
                if keys.contains(key) {
                    let k = keys.index_of(key);
                    assert(keys[k] == all[order@[k] as int]);
                }
                if all.contains(key) {
                    let p = all.index_of(key);
                    assert(all[p] == key);
                    assert(order@.contains(p as usize));
                    let k = order@.index_of(p as usize);
                    assert(order@[k] == p);
                    assert(keys[k] == key);
                }
            }
            assert forall|a: int, b: int| 0 <= a < keys.len() && 0 <= b < keys.len() && a
                != b implies keys[a] != keys[b] by {
                let x = order@[a] as int;
                let y = order@[b] as int;
                if a < b {
                    assert(crate::order::text_precedes(texts_of(names@), x, y));
                } else {
                    assert(crate::order::text_precedes(texts_of(names@), y, x));
                }
                crate::text::lex_lt_irreflexive(names@[x]@);
                assert(x != y);
                assert(all[x] != all[y]);
            }
            assert(are_present(keys, frames));
        }
        out
    }
}

/// Turns every recognized frame into named series, in the order of their names: one for each
/// signal of each node that the log has a sample of.
///
/// The bus number joins the series name only when the log carries more than one, since two IO
/// buses use the same node ids for different boards but one bus is the common case and
/// `CAN_HCO[5]` reads better than `CAN_HCO[bus1:5]`.
pub fn decode(frames: &[CanFrame]) -> (out: Vec<CountSeries>)
    ensures
        names_in_order(out@),
        exists|keys: Seq<SignalKey>| #[trigger]
            are_present(keys, frames@) && lists(out@, frames@, keys),
{
    let mut collector = Collector::new(frames);
    let ghost fresh = collector;
    let mut i: usize = 0;
    assert(frames@.take(0) =~= Seq::<CanFrame>::empty());
    assert forall|k: SignalKey| #[trigger] points_at(collector.series, k) == points(
        frames@.take(0),
        k,
    ) by {}
    while i < frames.len()
        invariant
            i <= frames@.len(),
            files_by_key(collector.series),
            collector.sensor_units == fresh.sensor_units,
            collector.multi_bus == fresh.multi_bus,
            forall|k: SignalKey| #[trigger]
                points_at(collector.series, k) == points(frames@.take(i as int), k),
        decreases frames@.len() - i,
    {
        let ghost before = collector.series;
        collector.push_frame(&frames[i]);
        proof {
            assert(frames@.take(i + 1).drop_last() =~= frames@.take(i as int));
            assert forall|k: SignalKey| #[trigger] points_at(collector.series, k) == points(
                frames@.take(i + 1),
                k,
            ) by {
                assert(points_at(before, k) == points(frames@.take(i as int), k));
            }
        }
        i += 1;
    }
    assert(frames@.take(frames@.len() as int) =~= frames@);
    collector.finish(Ghost(frames@))
}

/// Whether a sample is a sentinel that stands for the lack of a reading.
pub open spec fn is_sentinel(sample: (Signal, i64)) -> bool {
    match sample.0 {
        Signal::Slot(_) => sample.1 == SENSOR_INVALID,
        Signal::AdcBus0(_) | Signal::AdcBus1(_) => sample.1 == RAW_INVALID,
        Signal::OutPwm(_) => sample.1 == HCO_DIGITAL_ON || sample.1 == HCO_DIGITAL_OFF,
        _ => false,
    }
}

proof fn lemma_words_are_values(kind: TpdoKind, data: Seq<u8>, n: nat, i: int)
    requires
        n <= 4,
        0 <= i < words_samples(kind, data, n).len(),
    ensures
        !is_sentinel(words_samples(kind, data, n)[i]),
    decreases n,
{
    let front = words_samples(kind, data, (n - 1) as nat);
    if i < front.len() {
        lemma_words_are_values(kind, data, (n - 1) as nat, i);
    } else {
        assert(words_samples(kind, data, n)[i] == word_samples(
            kind,
            word(data, n - 1),
            (n - 1) as u8,
        )[i - front.len()]);
    }
}

/// Unread sensor slots, unread amplifier channels and the pulse widths of digital outputs are
/// gaps: no frame yields a sentinel as a value.
pub proof fn gaps_are_not_values(frame: CanFrame, i: int)
    requires
        0 <= i < samples(frame).len(),
    ensures
        !is_sentinel(samples(frame)[i]),
{
    if let Some((_, kind)) = process_data_spec(frame.id) {
        if frame.len == 8 && kind != TpdoKind::ValveStatus && kind != TpdoKind::Status {
            lemma_words_are_values(kind, frame.data@, 4, i);
        }
    }
}

/// A frame outside the protocol yields nothing: one with an extended identifier, and one on a
/// process-data identifier that is not a full eight bytes.
pub proof fn other_frames_say_nothing(frame: CanFrame)
    requires
        frame.id > 0x7FF || (process_data_spec(frame.id) is Some && frame.len != 8),
    ensures
        samples(frame).len() == 0,
{
}

/// A node's first declaration of its units holds for the whole log: for the samples received
/// before it, and whatever is declared after it.
pub proof fn the_first_declaration_holds(
    before: Seq<CanFrame>,
    declaration: CanFrame,
    after: Seq<CanFrame>,
    bus: u8,
    node: u8,
)
    requires
        declares_units(declaration, bus, node),
        forall|i: int| 0 <= i < before.len() ==> !declares_units(#[trigger] before[i], bus, node),
    ensures
        declared_units(before.push(declaration) + after, bus, node) == Some(
            unit_codes(declaration),
        ),
    decreases before.len() + after.len(),
{
    let all = before.push(declaration) + after;
    if after.len() > 0 {
        assert(all.drop_last() =~= before.push(declaration) + after.drop_last());
        the_first_declaration_holds(before, declaration, after.drop_last(), bus, node);
    } else {
        assert(all.drop_last() =~= before);
        assert(all.last() == declaration);
        lemma_undeclared(before, bus, node);
    }
}

pub proof fn lemma_undeclared(frames: Seq<CanFrame>, bus: u8, node: u8)
    requires
        forall|i: int| 0 <= i < frames.len() ==> !declares_units(#[trigger] frames[i], bus, node),
    ensures
        declared_units(frames, bus, node) is None,
    decreases frames.len(),
{
    if frames.len() > 0 {
        assert(frames.last() == frames[frames.len() - 1]);
        lemma_undeclared(frames.drop_last(), bus, node);
    }
}

/// Frames of one node leave the series of every other node as they are.
pub proof fn each_node_has_its_own_series(frames: Seq<CanFrame>, frame: CanFrame, key: SignalKey)
    requires
        frame.bus != key.bus || frame.id % 16 != key.node,
    ensures
        points(frames.push(frame), key) == points(frames, key),
{
    assert(frames.push(frame).drop_last() =~= frames);
}

} // verus!
