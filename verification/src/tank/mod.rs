//! The tank level pane: ten temperatures lining a cylinder, as a picture of height against time.
//!
//! A tank with sensors up its wall is not really ten signals. It is one signal with a height
//! axis, and the thing worth seeing is stratification: a warm layer sitting on cold liquid, or a
//! boil-off front travelling up the wall. So the pane draws the column itself: height up the
//! screen, temperature as colour, time to the right.
use vstd::prelude::*;

use crate::model::{Project, SourceId};
use crate::picker::{follow, ref_view, target, SeriesRef};
use crate::text::{chars_of, dec, push_dec, same, text_of};
use crate::vapor::{declared_unit, refers_to};

pub mod picture;
pub mod sensors;

pub use crate::tank::picture::{
    axis_ticks, column_cell, column_count, grid_lines, heat_blocks, heat_colour, heat_mesh,
    hover_text, layout, ramp_stop, sensor_band, Area, Field, Layout, Summary, RAMP,
};

pub use crate::tank::sensors::{
    indexed, is_unitless, sensor_groups, sensor_score, SensorGroup, SensorUnit, TANK_SENSORS,
};

use crate::tank::sensors::{are_groups, indexed_spec};

verus! {

broadcast use vstd::seq_lib::group_seq_properties;

pub type TankId = u64;

/// The critical point, in thousandths of a °C: above it there is no liquid N₂O, so it is the end
/// of the pressure-follows-temperature regime rather than just a hot reading.
pub const CRITICAL_C: i64 = 36_370;

/// How long one sample stands for, by default. The IO boards broadcast their sensor slots at
/// 50 ms, so a column with nothing inside two seconds of it is a real gap in the log and is
/// drawn as one rather than smeared over.
pub const DEFAULT_HOLD: i64 = 2_000_000;

/// The default cold end of the colour ramp: a chilled or freshly filled tank.
pub const DEFAULT_LO: i64 = -20_000;

/// The default hot end, which puts the critical point just inside the ramp.
pub const DEFAULT_HI: i64 = 40_000;

/// The least that the ramp spans.
pub const MIN_SPAN: i64 = 5_000;

/// Fewer sensors than this in a group and it is not a picture of a fluid column, so a pane opens
/// blank and asks rather than guessing wrong.
pub const MIN_GUESSED_SENSORS: usize = 5;

/// The critical point of the ramp is the one that ends the saturation table.
pub proof fn the_critical_point_ends_the_table()
    ensures
        CRITICAL_C + 273_150 == crate::n2o::SATURATION@[128].0,
        DEFAULT_LO < CRITICAL_C < DEFAULT_HI,
{
    crate::n2o::the_table_spans_the_two_phase_range();
}

pub struct TankSpec {
    pub id: TankId,
    /// The wall, bottom sensor first.
    pub sensors: Vec<Option<SeriesRef>>,
    /// The unit the series report in, not a display unit.
    pub unit: SensorUnit,
    /// Ends of the colour ramp, in thousandths of a °C.
    pub lo_c: i64,
    pub hi_c: i64,
    /// A line at each sensor's height, or at each region boundary in blocks mode.
    pub grid: bool,
    /// Draw each sensor's region as one flat rectangle instead of shading between neighbours.
    pub blocks: bool,
    /// How long one sample stands for before the strip shows a hole.
    pub hold: i64,
    /// Shared by the ten pickers, since only one of their menus is open at a time.
    pub filter: String,
    pub sensors_open: bool,
}

fn blank_wall() -> (r: Vec<Option<SeriesRef>>)
    ensures
        r@.len() == TANK_SENSORS,
        forall|h: int| 0 <= h < TANK_SENSORS ==> #[trigger] r@[h] is None,
{
    let mut out: Vec<Option<SeriesRef>> = Vec::new();
    let mut h: usize = 0;
    while h < TANK_SENSORS
        invariant
            h <= TANK_SENSORS,
            out@.len() == h,
            forall|k: int| 0 <= k < h ==> #[trigger] out@[k] is None,
        decreases TANK_SENSORS - h,
    {
        out.push(None);
        h += 1;
    }
    out
}

/// How many of the first `n` heights are picked.
pub open spec fn picked_spec(sensors: Seq<Option<SeriesRef>>, n: nat) -> nat
    decreases n,
{
    if n == 0 {
        0
    } else {
        picked_spec(sensors, (n - 1) as nat) + if sensors[n - 1] is Some {
            1nat
        } else {
            0nat
        }
    }
}

/// Whether the picked series are one row of a stem.
pub open spec fn share_stem(sensors: Seq<Option<SeriesRef>>, stem: Seq<char>) -> bool {
    &&& exists|h: int| 0 <= h < sensors.len() && #[trigger] sensors[h] is Some
    &&& forall|h: int|
        0 <= h < sensors.len() && #[trigger] sensors[h] is Some ==> indexed_spec(
            sensors[h].unwrap().series@,
        ) is Some && indexed_spec(sensors[h].unwrap().series@).unwrap().0 == stem
}

/// A stem without the marks that part it from its number.
pub open spec fn without_marks(s: Seq<char>) -> Seq<char>
    decreases s.len(),
{
    if s.len() > 0 && (s.last() == '.' || s.last() == '_' || s.last() == '-') {
        without_marks(s.drop_last())
    } else {
        s
    }
}

fn trim_marks(s: &str) -> (r: String)
    ensures
        r@ == without_marks(s@),
{
    let chars = chars_of(s);
    let mut n: usize = chars.len();
    assert(chars@.take(n as int) =~= chars@);
    while n > 0 && (chars[n - 1] == '.' || chars[n - 1] == '_' || chars[n - 1] == '-')
        invariant
            n <= chars@.len(),
            without_marks(chars@) == without_marks(chars@.take(n as int)),
        decreases n,
    {
        assert(chars@.take(n as int).drop_last() =~= chars@.take(n - 1));
        n -= 1;
    }
    let out = text_of(&chars, 0, n);
    assert(out@ =~= chars@.take(n as int));
    out
}

/// The unit that the first of the series from a height on to declare one is in.
pub open spec fn first_unit(
    project: Project,
    sensors: Seq<Option<SeriesRef>>,
    from: int,
) -> Option<SensorUnit>
    decreases sensors.len() - from,
{
    if from < 0 || from >= sensors.len() {
        None
    } else {
        let own = match sensors[from] {
            Some(r) => if target(project, r) is Some {
                SensorUnit::declared(declared_unit(project, r))
            } else {
                None
            },
            None => None,
        };
        if own is Some {
            own
        } else {
            first_unit(project, sensors, from + 1)
        }
    }
}

fn unit_of_row(project: &Project, sensors: &Vec<Option<SeriesRef>>) -> (r: Option<SensorUnit>)
    requires
        project.wf(),
    ensures
        r == first_unit(*project, sensors@, 0),
{
    let mut h: usize = 0;
    while h < sensors.len()
        invariant
            h <= sensors@.len(),
            project.wf(),
            first_unit(*project, sensors@, 0) == first_unit(*project, sensors@, h as int),
        decreases sensors@.len() - h,
    {
        if let Some(r) = &sensors[h] {
            if let Some((s, _)) = follow(project, r) {
                let unit: Option<&str> = match &s.unit {
                    Some(u) => Some(u.as_str()),
                    None => None,
                };
                let own = SensorUnit::from_series_unit(unit);
                if own.is_some() {
                    return own;
                }
            }
        }
        h += 1;
    }
    None
}

impl TankSpec {
    /// Ten heights, and a ramp that runs from cold to hot.
    pub open spec fn wf(self) -> bool {
        &&& self.sensors@.len() == TANK_SENSORS
        &&& -100_000 <= self.lo_c <= 95_000
        &&& self.lo_c + MIN_SPAN <= self.hi_c <= 200_000
    }

    /// A pane on nothing, at the default settings.
    pub fn new(id: TankId) -> (r: Self)
        ensures
            r.wf(),
            r.id == id,
            forall|h: int| 0 <= h < TANK_SENSORS ==> #[trigger] r.sensors@[h] is None,
            r.unit == SensorUnit::Celsius,
            r.lo_c == DEFAULT_LO,
            r.hi_c == DEFAULT_HI,
            r.grid,
            !r.blocks,
            r.hold == DEFAULT_HOLD,
            r.filter@.len() == 0,
            !r.sensors_open,
    {
        TankSpec {
            id,
            sensors: blank_wall(),
            unit: SensorUnit::Celsius,
            lo_c: DEFAULT_LO,
            hi_c: DEFAULT_HI,
            grid: true,
            blocks: false,
            hold: DEFAULT_HOLD,
            filter: String::new(),
            sensors_open: false,
        }
    }

    /// What the picked series share, when they are one row of sensors.
    pub fn stem(&self) -> (r: Option<String>)
        ensures
            match r {
                Some(stem) => share_stem(self.sensors@, stem@),
                None => forall|stem: Seq<char>| !#[trigger] share_stem(self.sensors@, stem),
            },
    {
        let mut stem: Option<String> = None;
        let mut h: usize = 0;
        while h < self.sensors.len()
            invariant
                h <= self.sensors@.len(),
                match stem {
                    Some(s) => exists|k: int| 0 <= k < h && #[trigger] self.sensors@[k] is Some,
                    None => forall|k: int| 0 <= k < h ==> #[trigger] self.sensors@[k] is None,
                },
                stem matches Some(s) ==> forall|k: int|
                    0 <= k < h && #[trigger] self.sensors@[k] is Some ==> indexed_spec(
                        self.sensors@[k].unwrap().series@,
                    ) is Some && indexed_spec(self.sensors@[k].unwrap().series@).unwrap().0 == s@,
            decreases self.sensors@.len() - h,
        {
            if let Some(r) = &self.sensors[h] {
                match indexed(r.series.as_str()) {
                    Some((s, _)) => {
                        if let Some(previous) = &stem {
                            if !same(previous.as_str(), s.as_str()) {
                                proof {
                                    assert forall|x: Seq<char>| !#[trigger] share_stem(
                                        self.sensors@,
                                        x,
                                    ) by {
                                        let k = choose|k: int|
                                            0 <= k < h && #[trigger] self.sensors@[k] is Some;
                                        assert(self.sensors@[k] is Some);
                                        assert(self.sensors@[h as int] is Some);
                                    }
                                }
                                return None;
                            }
                        }
                        stem = Some(s);
                    },
                    None => {
                        assert(self.sensors@[h as int] is Some);
                        return None;
                    },
                }
            }
            h += 1;
        }
        stem
    }

    /// The pane's name: after the row it shows.
    pub fn title(&self) -> (r: String)
        ensures
            forall|stem: Seq<char>| #[trigger]
                share_stem(self.sensors@, stem) ==> r@ == "Tank · "@ + without_marks(stem),
            (forall|stem: Seq<char>| !#[trigger] share_stem(self.sensors@, stem)) ==> r@
                == "Tank level"@,
    {
        match self.stem() {
            Some(stem) => {
                let mut out = "Tank · ".to_owned();
                let bare = trim_marks(stem.as_str());
                out.append(bare.as_str());
                proof {
                    assert forall|x: Seq<char>| #[trigger] share_stem(self.sensors@, x) implies x
                        == stem@ by {
                        let k = choose|k: int|
                            0 <= k < self.sensors@.len() && #[trigger] self.sensors@[k] is Some;
                        assert(self.sensors@[k] is Some);
                    }
                }
                out
            },
            None => "Tank level".to_owned(),
        }
    }

    /// What the button that offers the rows says.
    pub fn row_label(&self) -> (r: String)
        ensures
            forall|stem: Seq<char>| #[trigger]
                share_stem(self.sensors@, stem) ==> r@ == stem + "…"@,
            (forall|stem: Seq<char>| !#[trigger] share_stem(self.sensors@, stem)) ==> r@ == if (
            picked_spec(self.sensors@, self.sensors@.len()) == 0) {
                "pick a row…"@
            } else {
                dec(picked_spec(self.sensors@, self.sensors@.len())) + " picked"@
            },
    {
        match self.stem() {
            Some(stem) => {
                let mut out = stem.as_str().to_owned();
                out.append("…");
                proof {
                    assert forall|x: Seq<char>| #[trigger] share_stem(self.sensors@, x) implies x
                        == stem@ by {
                        let k = choose|k: int|
                            0 <= k < self.sensors@.len() && #[trigger] self.sensors@[k] is Some;
                        assert(self.sensors@[k] is Some);
                    }
                }
                out
            },
            None => {
                let n = self.picked();
                if n == 0 {
                    "pick a row…".to_owned()
                } else {
                    let mut out = String::new();
                    push_dec(&mut out, n as u64);
                    out.append(" picked");
                    out
                }
            },
        }
    }

    /// Whether this pane draws anything belonging to a source.
    pub fn uses(&self, source: SourceId) -> (r: bool)
        ensures
            r == exists|h: int|
                0 <= h < self.sensors@.len() && refers_to(#[trigger] self.sensors@[h], source),
    {
        let mut h: usize = 0;
        while h < self.sensors.len()
            invariant
                h <= self.sensors@.len(),
                forall|k: int| 0 <= k < h ==> !refers_to(#[trigger] self.sensors@[k], source),
            decreases self.sensors@.len() - h,
        {
            if let Some(r) = &self.sensors[h] {
                if r.source == source {
                    assert(refers_to(self.sensors@[h as int], source));
                    return true;
                }
            }
            h += 1;
        }
        false
    }

    /// Whether two panes agree in everything but what they point at.
    pub open spec fn same_settings(self, other: TankSpec) -> bool {
        &&& self.id == other.id
        &&& self.unit == other.unit
        &&& self.lo_c == other.lo_c
        &&& self.hi_c == other.hi_c
        &&& self.grid == other.grid
        &&& self.blocks == other.blocks
        &&& self.hold == other.hold
        &&& self.filter == other.filter
        &&& self.sensors_open == other.sensors_open
    }

    /// Whether a pane is another without what it drew of a source.
    pub open spec fn without_source(self, before: TankSpec, source: SourceId) -> bool {
        &&& self.same_settings(before)
        &&& self.sensors@.len() == before.sensors@.len()
        &&& forall|h: int|
            0 <= h < before.sensors@.len() ==> #[trigger] self.sensors@[h] == if refers_to(
                before.sensors@[h],
                source,
            ) {
                None
            } else {
                before.sensors@[h]
            }
    }

    /// Forgets series from a source that is being unloaded. The pane stays: it can be pointed
    /// at another log.
    pub fn forget_source(&mut self, source: SourceId)
        ensures
            final(self).without_source(*old(self), source),
    {
        let ghost before = *self;
        let mut h: usize = 0;
        while h < self.sensors.len()
            invariant
                h <= self.sensors@.len() == before.sensors@.len(),
                self.same_settings(before),
                forall|k: int|
                    h <= k < before.sensors@.len() ==> #[trigger] self.sensors@[k]
                        == before.sensors@[k],
                forall|k: int|
                    0 <= k < h ==> #[trigger] self.sensors@[k] == if refers_to(
                        before.sensors@[k],
                        source,
                    ) {
                        None
                    } else {
                        before.sensors@[k]
                    },
            decreases self.sensors@.len() - h,
        {
            let gone = match &self.sensors[h] {
                Some(r) => r.source == source,
                None => false,
            };
            if gone {
                self.sensors.set(h, None);
            }
            h += 1;
        }
    }

    /// How many heights are picked.
    pub fn picked(&self) -> (r: usize)
        ensures
            r == picked_spec(self.sensors@, self.sensors@.len()),
            r == 0 <==> forall|h: int|
                0 <= h < self.sensors@.len() ==> #[trigger] self.sensors@[h] is None,
    {
        let mut h: usize = 0;
        let mut n: usize = 0;
        while h < self.sensors.len()
            invariant
                h <= self.sensors@.len(),
                n <= h,
                n == picked_spec(self.sensors@, h as nat),
                n == 0 <==> forall|k: int| 0 <= k < h ==> #[trigger] self.sensors@[k] is None,
            decreases self.sensors@.len() - h,
        {
            if self.sensors[h].is_some() {
                n += 1;
            }
            h += 1;
        }
        n
    }

    /// Opens the by-hand height pickers, which is what the pane does for itself when it could
    /// not guess a row.
    pub fn open_sensor_pickers(&mut self)
        ensures
            *final(self) == (TankSpec { sensors_open: true, ..*old(self) }),
    {
        self.sensors_open = true;
    }

    /// Fills all ten heights from one row.
    pub fn pick_row(&mut self, group: &SensorGroup)
        requires
            group.wf(),
        ensures
            *final(self) == (TankSpec { sensors: final(self).sensors, ..*old(self) }),
            final(self).sensors@.len() == TANK_SENSORS,
            forall|h: int|
                0 <= h < TANK_SENSORS ==> match #[trigger] final(self).sensors@[h] {
                    Some(s) => s.source == group.source && group.assigned(h) == Some(s.series@),
                    None => group.assigned(h) is None,
                },
    {
        self.sensors = group.assign();
    }

    /// Points one height at a series, or leaves it blank.
    pub fn pick_height(&mut self, height: usize, r: Option<SeriesRef>)
        requires
            old(self).wf(),
            height < TANK_SENSORS,
        ensures
            *final(self) == (TankSpec { sensors: final(self).sensors, ..*old(self) }),
            final(self).sensors@ == old(self).sensors@.update(height as int, r),
    {
        self.sensors.set(height, r);
    }

    /// Moves the cold end of the ramp. Dragging the low end past the high one is easier than it
    /// looks, and a ramp that runs backwards paints cold as red: so the hot end gives way.
    pub fn set_lo(&mut self, lo: i64)
        requires
            old(self).wf(),
        ensures
            final(self).wf(),
            *final(self) == (TankSpec {
                lo_c: final(self).lo_c,
                hi_c: final(self).hi_c,
                ..*old(self)
            }),
            final(self).lo_c == if lo < -100_000 {
                -100_000
            } else if lo > 95_000 {
                95_000
            } else {
                lo as int
            },
            final(self).hi_c == if old(self).hi_c < final(self).lo_c + MIN_SPAN {
                final(self).lo_c + MIN_SPAN
            } else {
                old(self).hi_c as int
            },
    {
        self.lo_c = if lo < -100_000 {
            -100_000
        } else if lo > 95_000 {
            95_000
        } else {
            lo
        };
        if self.hi_c < self.lo_c + MIN_SPAN {
            self.hi_c = self.lo_c + MIN_SPAN;
        }
    }

    /// Moves the hot end of the ramp.
    pub fn set_hi(&mut self, hi: i64)
        requires
            old(self).wf(),
        ensures
            final(self).wf(),
            *final(self) == (TankSpec { hi_c: final(self).hi_c, ..*old(self) }),
            final(self).hi_c == if hi < old(self).lo_c + MIN_SPAN {
                old(self).lo_c + MIN_SPAN
            } else if hi > 200_000 {
                200_000
            } else {
                hi as int
            },
    {
        self.hi_c = if hi < self.lo_c + MIN_SPAN {
            self.lo_c + MIN_SPAN
        } else if hi > 200_000 {
            200_000
        } else {
            hi
        };
    }

    /// Back to the default range.
    pub fn reset_scale(&mut self)
        requires
            old(self).wf(),
        ensures
            final(self).wf(),
            *final(self) == (TankSpec { lo_c: DEFAULT_LO, hi_c: DEFAULT_HI, ..*old(self) }),
    {
        self.lo_c = DEFAULT_LO;
        self.hi_c = DEFAULT_HI;
    }
}

impl Default for TankSpec {
    fn default() -> (r: Self)
        ensures
            r.wf(),
            r.id == 0,
            forall|h: int| 0 <= h < TANK_SENSORS ==> #[trigger] r.sensors@[h] is None,
            r.unit == SensorUnit::Celsius,
            r.lo_c == DEFAULT_LO,
            r.hi_c == DEFAULT_HI,
            r.grid,
            !r.blocks,
            r.hold == DEFAULT_HOLD,
            !r.sensors_open,
    {
        TankSpec::new(0)
    }
}

/// What the menu of rows says of one: its label, and the source it is from.
pub fn row_entry(project: &Project, group: &SensorGroup) -> (r: String)
    requires
        group.wf(),
    ensures
        r@ == group.stem@ + "…  ("@ + dec(group.fill_spec()) + " of 10 heights)"@ + "  —  "@
            + match project.find_spec(group.source) {
            Some(i) => project.sources@[i].name@,
            None => Seq::empty(),
        },
{
    let mut out = group.label();
    out.append("  —  ");
    match project.source(group.source) {
        Some(source) => {
            out.append(source.name.as_str());
        },
        None => {},
    }
    out
}

/// What a height is called in the list of pickers.
pub fn height_name(sensor: usize) -> (r: String)
    requires
        sensor < TANK_SENSORS,
    ensures
        r@ == "s"@ + dec(sensor as nat) + if sensor == 0 {
            " bottom"@
        } else if sensor == TANK_SENSORS - 1 {
            " top"@
        } else {
            Seq::empty()
        },
{
    let mut out = "s".to_owned();
    push_dec(&mut out, sensor as u64);
    if sensor == 0 {
        out.append(" bottom");
    } else if sensor == TANK_SENSORS - 1 {
        out.append(" top");
    }
    out
}

/// Every tank pane the user has opened, and the only place their ids are minted.
pub struct Tanks {
    pub list: Vec<TankSpec>,
    pub next_id: TankId,
}

/// The position of the pane of an id, from `from` on.
pub open spec fn tank_from(list: Seq<TankSpec>, id: TankId, from: int) -> Option<int>
    decreases list.len() - from,
{
    if from < 0 || from >= list.len() {
        None
    } else if list[from].id == id {
        Some(from)
    } else {
        tank_from(list, id, from + 1)
    }
}

/// Whether a pane opened on the best of a project's rows, or blank where none is long enough.
pub open spec fn opened_on(
    spec: TankSpec,
    project: Project,
    groups: Seq<SensorGroup>,
) -> bool {
    let guessed = groups.len() > 0 && groups[0].fill_spec() >= MIN_GUESSED_SENSORS;
    &&& are_groups(project, groups)
    &&& spec.sensors_open == !guessed
    &&& forall|h: int|
        0 <= h < TANK_SENSORS ==> ref_view(#[trigger] spec.sensors@[h]) == if guessed {
            match groups[0].assigned(h) {
                Some(name) => Some((groups[0].source, name)),
                None => None,
            }
        } else {
            None
        }
}

impl Default for Tanks {
    fn default() -> (r: Self)
        ensures
            r.wf(),
            r.list@.len() == 0,
            r.next_id == 0,
    {
        Tanks::new()
    }
}

impl Tanks {
    /// Panes under ids of their own, each given out before.
    pub open spec fn wf(self) -> bool {
        &&& forall|i: int| 0 <= i < self.list@.len() ==> (#[trigger] self.list@[i]).id < self.next_id
        &&& forall|i: int| 0 <= i < self.list@.len() ==> (#[trigger] self.list@[i]).wf()
        &&& forall|i: int, j: int|
            0 <= i < j < self.list@.len() ==> (#[trigger] self.list@[i]).id != (
            #[trigger] self.list@[j]).id
    }

    pub fn new() -> (r: Self)
        ensures
            r.wf(),
            r.list@.len() == 0,
            r.next_id == 0,
    {
        Tanks { list: Vec::new(), next_id: 0 }
    }

    /// The position of the pane of an id.
    pub open spec fn find_spec(self, id: TankId) -> Option<int> {
        tank_from(self.list@, id, 0)
    }

    /// The position of the pane of an id.
    pub fn find(&self, id: TankId) -> (r: Option<usize>)
        ensures
            match r {
                Some(i) => self.find_spec(id) == Some(i as int) && i < self.list@.len()
                    && self.list@[i as int].id == id,
                None => self.find_spec(id) is None && forall|k: int|
                    0 <= k < self.list@.len() ==> (#[trigger] self.list@[k]).id != id,
            },
    {
        let mut i: usize = 0;
        while i < self.list.len()
            invariant
                i <= self.list@.len(),
                self.find_spec(id) == tank_from(self.list@, id, i as int),
                forall|k: int| 0 <= k < i ==> (#[trigger] self.list@[k]).id != id,
            decreases self.list@.len() - i,
        {
            if self.list[i].id == id {
                return Some(i);
            }
            i += 1;
        }
        None
    }

    /// The pane of an id.
    pub fn get(&self, id: TankId) -> (r: Option<&TankSpec>)
        ensures
            match r {
                Some(p) => self.find_spec(id) is Some && *p
                    == self.list@[self.find_spec(id).unwrap()],
                None => self.find_spec(id) is None,
            },
    {
        match self.find(id) {
            Some(i) => Some(&self.list[i]),
            None => None,
        }
    }

    /// The pane of an id, to be changed in place. The others stay.
    pub fn get_mut(&mut self, id: TankId) -> (r: Option<&mut TankSpec>)
        ensures
            match r {
                Some(p) => {
                    &&& old(self).find_spec(id) is Some
                    &&& *p == old(self).list@[old(self).find_spec(id).unwrap()]
                    &&& final(self).list@ == old(self).list@.update(
                        old(self).find_spec(id).unwrap(),
                        *final(p),
                    )
                    &&& final(self).next_id == old(self).next_id
                },
                None => old(self).find_spec(id) is None && *final(self) == *old(self),
            },
    {
        match self.find(id) {
            Some(i) => Some(&mut self.list[i]),
            None => None,
        }
    }

    /// Whether `after` is `before` with a new pane, on the most likely row of sensors.
    pub open spec fn created(before: Tanks, after: Tanks, project: Project) -> bool {
        let spec = after.list@.last();
        &&& after.next_id == before.next_id + 1
        &&& after.list@.len() == before.list@.len() + 1
        &&& after.list@.drop_last() == before.list@
        &&& spec.id == before.next_id
        &&& exists|groups: Seq<SensorGroup>| #[trigger] opened_on(spec, project, groups)
        &&& spec.unit == match first_unit(project, spec.sensors@, 0) {
            Some(unit) => unit,
            None => SensorUnit::Celsius,
        }
        &&& spec.lo_c == DEFAULT_LO
        &&& spec.hi_c == DEFAULT_HI
        &&& spec.grid
        &&& !spec.blocks
        &&& spec.hold == DEFAULT_HOLD
        &&& spec.filter@.len() == 0
    }

    /// Whether `after` is `before` without a pane.
    pub open spec fn closed(before: Tanks, after: Tanks, id: TankId) -> bool {
        &&& after.next_id == before.next_id
        &&& after.find_spec(id) is None
        &&& after.list@ == match before.find_spec(id) {
            Some(i) => before.list@.remove(i),
            None => before.list@,
        }
    }

    /// Whether `after` is `before` with a source forgotten in every pane.
    pub open spec fn forgot(before: Tanks, after: Tanks, source: SourceId) -> bool {
        &&& after.next_id == before.next_id
        &&& after.list@.len() == before.list@.len()
        &&& forall|i: int|
            0 <= i < before.list@.len() ==> (#[trigger] after.list@[i]).without_source(
                before.list@[i],
                source,
            )
    }

    /// Opens a pane on the most likely row of sensors in the project. The row brings its own
    /// declared unit with it, which is nearly always the right one.
    pub fn create(&mut self, project: &Project) -> (id: TankId)
        requires
            old(self).wf(),
            old(self).next_id < u64::MAX,
            project.wf(),
        ensures
            final(self).wf(),
            id == old(self).next_id,
            Self::created(*old(self), *final(self), *project),
    {
        let id = self.next_id;
        self.next_id = id + 1;
        let ghost before = self.list@;
        let groups = sensor_groups(project);
        let mut spec = TankSpec::new(id);
        if groups.len() > 0 && groups[0].fill() >= MIN_GUESSED_SENSORS {
            spec.sensors = groups[0].assign();
        } else {
            spec.sensors_open = true;
        }
        spec.unit = match unit_of_row(project, &spec.sensors) {
            Some(unit) => unit,
            None => SensorUnit::Celsius,
        };
        proof {
            assert(opened_on(spec, *project, groups@));
        }
        self.list.push(spec);
        proof {
            assert(self.list@.drop_last() =~= before);
            assert forall|i: int, j: int| 0 <= i < j < self.list@.len() implies (
            #[trigger] self.list@[i]).id != (#[trigger] self.list@[j]).id by {
                assert(before[i] == self.list@[i]);
                if j < before.len() {
                    assert(before[j] == self.list@[j]);
                }
            }
        }
        id
    }

    /// Closes a pane. Closing one that is gone already changes nothing.
    pub fn close(&mut self, id: TankId)
        requires
            old(self).wf(),
        ensures
            final(self).wf(),
            Self::closed(*old(self), *final(self), id),
    {
        let ghost before = self.list@;
        match self.find(id) {
            Some(i) => {
                let _ = self.list.remove(i);
                proof {
                    assert(self.list@ =~= before.remove(i as int));
                    assert forall|a: int| 0 <= a < self.list@.len() implies (
                    #[trigger] self.list@[a]).id < self.next_id && self.list@[a].id != id
                        && self.list@[a].wf() by {
                        let x = if a < i {
                            a
                        } else {
                            a + 1
                        };
                        assert(self.list@[a] == before[x]);
                    }
                    assert forall|a: int, b: int| 0 <= a < b < self.list@.len() implies (
                    #[trigger] self.list@[a]).id != (#[trigger] self.list@[b]).id by {
                        let x = if a < i {
                            a
                        } else {
                            a + 1
                        };
                        let y = if b < i {
                            b
                        } else {
                            b + 1
                        };
                        assert(self.list@[a] == before[x] && self.list@[b] == before[y]);
                    }
                    lemma_not_there(self.list@, id, 0);
                }
            },
            None => {},
        }
    }

    /// Forgets a source in every pane.
    pub fn forget_source(&mut self, source: SourceId)
        requires
            old(self).wf(),
        ensures
            final(self).wf(),
            Self::forgot(*old(self), *final(self), source),
    {
        let ghost before = self.list@;
        let ghost next = self.next_id;
        let mut i: usize = 0;
        while i < self.list.len()
            invariant
                i <= self.list@.len() == before.len(),
                self.next_id == next,
                forall|k: int| i <= k < before.len() ==> #[trigger] self.list@[k] == before[k],
                forall|k: int|
                    0 <= k < i ==> (#[trigger] self.list@[k]).without_source(before[k], source),
            decreases self.list@.len() - i,
        {
            let spec = &mut self.list[i];
            spec.forget_source(source);
            i += 1;
        }
        proof {
            assert forall|k: int| 0 <= k < self.list@.len() implies (
            #[trigger] self.list@[k]).id < self.next_id && self.list@[k].wf() by {
                assert(before[k].id < next && before[k].wf());
            }
            assert forall|a: int, b: int| 0 <= a < b < self.list@.len() implies (
            #[trigger] self.list@[a]).id != (#[trigger] self.list@[b]).id by {
                assert(self.list@[a].id == before[a].id);
                assert(self.list@[b].id == before[b].id);
            }
        }
    }
}

proof fn lemma_not_there(list: Seq<TankSpec>, id: TankId, from: int)
    requires
        0 <= from,
        forall|k: int| 0 <= k < list.len() ==> (#[trigger] list[k]).id != id,
    ensures
        tank_from(list, id, from) is None,
    decreases list.len() - from,
{
    if from < list.len() {
        assert(list[from].id != id);
        lemma_not_there(list, id, from + 1);
    }
}

} // verus!
