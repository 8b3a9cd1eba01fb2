//! Graph panes: which series each one shows, under which titles, labels and axes.
use vstd::prelude::*;

use crate::colors::{color_for_index, Rgb, PALETTE};
use crate::double::Double;
use crate::model::SourceId;
use crate::text::{
    chars_of, dec, join, joined, last_of, longer_than, push_dec, rfind_char, same, text_of,
    texts_of, utf8_len,
};

verus! {

broadcast use vstd::seq_lib::group_seq_properties;

pub type PlotId = u64;

/// What a pane shows.
#[derive(Clone, Copy, PartialEq, Eq, Structural, Debug)]
pub enum Pane {
    Plot(PlotId),
    Video(SourceId),
    Audio(SourceId),
    Vapor(u64),
    Tank(u64),
}

/// Which of a graph's two value axes a series is drawn against.
#[derive(Clone, Copy, PartialEq, Eq, Structural, Debug)]
pub enum PlotAxis {
    Left,
    Right,
}

impl PlotAxis {
    pub fn label(self) -> (r: &'static str)
        ensures
            r@ == match self {
                PlotAxis::Left => "L"@,
                PlotAxis::Right => "R"@,
            },
    {
        match self {
            PlotAxis::Left => "L",
            PlotAxis::Right => "R",
        }
    }

    /// The other axis.
    pub open spec fn other(self) -> PlotAxis {
        match self {
            PlotAxis::Left => PlotAxis::Right,
            PlotAxis::Right => PlotAxis::Left,
        }
    }

    pub fn flipped(self) -> (r: Self)
        ensures
            r == self.other(),
    {
        match self {
            PlotAxis::Left => PlotAxis::Right,
            PlotAxis::Right => PlotAxis::Left,
        }
    }
}

/// One series drawn in a graph.
pub struct PlotEntry {
    pub source: SourceId,
    pub series: String,
    pub color: Rgb,
    pub axis: PlotAxis,
    /// Added to every value of the series, in its own unit: the correction of a sensor that
    /// reads off by a constant.
    pub value_offset: Double,
}

/// A graph pane: any number of series sharing one time axis.
///
/// Several series per graph is the point: comparing a tank's pressure against its temperature
/// only means something when the two are drawn over each other. So a plot is a list rather than
/// a single series, and the title is what identifies it once the contents stop being one obvious
/// name.
pub struct PlotSpec {
    pub id: PlotId,
    pub entries: Vec<PlotEntry>,
    /// Only used once the user renames the plot; until then the title follows whatever is in
    /// it.
    pub custom_title: String,
    /// Rescale every series to 0..1 over the visible window. The escape hatch for comparing
    /// quantities whose ranges are orders of magnitude apart, where a shared axis would flatten
    /// one into a straight line.
    pub normalize: bool,
    /// Value range fixed by a box zoom, in left-axis units. `None` means the range follows
    /// whatever is visible.
    pub y_manual: Option<(Double, Double)>,
    /// Kept separate from the number of entries so removing a series doesn't recolour the ones
    /// that stay.
    pub color_cursor: usize,
}

/// The names of the series in a graph.
pub open spec fn names_of(entries: Seq<PlotEntry>) -> Seq<Seq<char>> {
    entries.map_values(|e: PlotEntry| e.series@)
}

/// How many characters two texts start with alike.
pub open spec fn common_len(a: Seq<char>, b: Seq<char>) -> int
    decreases a.len(),
{
    if a.len() == 0 || b.len() == 0 || a[0] != b[0] {
        0
    } else {
        1 + common_len(a.drop_first(), b.drop_first())
    }
}

/// How many characters the first `n` names start with alike.
pub open spec fn shared_len(names: Seq<Seq<char>>, n: nat) -> int
    decreases n,
{
    if n <= 1 {
        names[0].len() as int
    } else {
        let rest = shared_len(names, (n - 1) as nat);
        let own = common_len(names[0], names[n - 1]);
        if own < rest {
            own
        } else {
            rest
        }
    }
}

/// Longest common prefix of names, cut back to a `.` so it ends on a whole message or instance
/// rather than mid-word.
pub open spec fn shared_prefix_spec(names: Seq<Seq<char>>) -> Seq<char> {
    if names.len() == 0 {
        Seq::empty()
    } else {
        let alike = names[0].take(shared_len(names, names.len()));
        names[0].take(last_of(alike, '.') + 1)
    }
}

/// A text without the dots it ends with.
pub open spec fn without_dots(s: Seq<char>) -> Seq<char>
    decreases s.len(),
{
    if s.len() > 0 && s.last() == '.' {
        without_dots(s.drop_last())
    } else {
        s
    }
}

/// What of each name follows the shared prefix.
pub open spec fn tails(names: Seq<Seq<char>>) -> Seq<Seq<char>> {
    names.map_values(|n: Seq<char>| n.skip(shared_prefix_spec(names).len() as int))
}

/// A name for a graph built from what it contains: the shared part of the series names, then
/// what differs. `PRESSURE_VESSEL[1].pressure1` next to `PRESSURE_VESSEL[1].temperature1` reads
/// as `PRESSURE_VESSEL[1]: pressure1 / temperature1`. What would be longer than sixty bytes
/// gives way to the first name and a count.
pub open spec fn auto_title_spec(names: Seq<Seq<char>>) -> Seq<char> {
    if names.len() == 0 {
        "empty plot"@
    } else if names.len() == 1 {
        names[0]
    } else {
        let prefix = shared_prefix_spec(names);
        let all = joined(tails(names), " / "@);
        let body = if utf8_len(all) > 60 {
            names[0] + " +"@ + dec((names.len() - 1) as nat) + " more"@
        } else {
            all
        };
        if prefix.len() == 0 {
            body
        } else {
            without_dots(prefix) + ": "@ + body
        }
    }
}

proof fn lemma_common_len(a: Seq<char>, b: Seq<char>, i: int)
    requires
        0 <= i <= a.len(),
        i <= b.len(),
        forall|k: int| 0 <= k < i ==> a[k] == b[k],
        i == a.len() || i == b.len() || a[i] != b[i],
    ensures
        common_len(a, b) == i,
    decreases a.len(),
{
    if i > 0 {
        let x = a.drop_first();
        let y = b.drop_first();
        assert forall|k: int| 0 <= k < i - 1 implies x[k] == y[k] by {
            assert(a[k + 1] == b[k + 1]);
        }
        lemma_common_len(x, y, i - 1);
    }
}

proof fn lemma_shared_len(names: Seq<Seq<char>>, n: nat, k: int)
    requires
        0 <= k < n <= names.len(),
    ensures
        0 <= shared_len(names, n) <= names[k].len(),
        shared_len(names, n) <= names[0].len(),
        names[k].take(shared_len(names, n)) == names[0].take(shared_len(names, n)),
    decreases n,
{
    if n <= 1 {
        assert(names[k].take(names[0].len() as int) =~= names[0].take(names[0].len() as int));
    } else {
        lemma_common_prefix(names[0], names[n - 1]);
        lemma_shared_len(names, (n - 1) as nat, 0);
        let short = shared_len(names, n);
        if k < n - 1 {
            lemma_shared_len(names, (n - 1) as nat, k);
            let long = shared_len(names, (n - 1) as nat);
            assert(names[k].take(short) =~= names[k].take(long).take(short));
            assert(names[0].take(short) =~= names[0].take(long).take(short));
        } else {
            let long = common_len(names[0], names[n - 1]);
            assert(names[k].take(short) =~= names[k].take(long).take(short));
            assert(names[0].take(short) =~= names[0].take(long).take(short));
        }
    }
}

proof fn lemma_common_prefix(a: Seq<char>, b: Seq<char>)
    ensures
        0 <= common_len(a, b) <= a.len(),
        common_len(a, b) <= b.len(),
        a.take(common_len(a, b)) == b.take(common_len(a, b)),
    decreases a.len(),
{
    let n = common_len(a, b);
    if a.len() > 0 && b.len() > 0 && a[0] == b[0] {
        let x = a.drop_first();
        let y = b.drop_first();
        lemma_common_prefix(x, y);
        assert forall|k: int| 0 <= k < n implies a[k] == b[k] by {
            if k > 0 {
                assert(x.take(n - 1)[k - 1] == y.take(n - 1)[k - 1]);
            }
        }
        assert(a.take(n) =~= b.take(n));
    } else {
        assert(a.take(0) =~= b.take(0));
    }
}

/// Every name starts with the prefix that a title factors out.
pub proof fn the_shared_prefix_is_shared(names: Seq<Seq<char>>, k: int)
    requires
        0 <= k < names.len(),
    ensures
        shared_prefix_spec(names).len() <= names[k].len(),
        names[k].take(shared_prefix_spec(names).len() as int) == shared_prefix_spec(names),
{
    lemma_shared_len(names, names.len(), k);
    lemma_shared_len(names, names.len(), 0);
    let n = shared_len(names, names.len());
    let alike = names[0].take(n);
    lemma_last_of(alike, '.');
    let d = last_of(alike, '.') + 1;
    assert(names[k].take(d) =~= names[k].take(n).take(d));
    assert(names[0].take(d) =~= names[0].take(n).take(d));
}

proof fn lemma_last_of(s: Seq<char>, c: char)
    ensures
        -1 <= last_of(s, c) < s.len(),
    decreases s.len(),
{
    if s.len() > 0 {
        lemma_last_of(s.drop_last(), c);
    }
}

/// How many characters two texts start with alike.
fn alike_len(a: &Vec<char>, b: &Vec<char>) -> (i: usize)
    ensures
        i == common_len(a@, b@),
        i <= a@.len(),
{
    let mut i: usize = 0;
    while i < a.len() && i < b.len() && a[i] == b[i]
        invariant
            i <= a@.len(),
            i <= b@.len(),
            forall|k: int| 0 <= k < i ==> a@[k] == b@[k],
        decreases a@.len() - i,
    {
        i += 1;
    }
    proof {
        lemma_common_len(a@, b@, i as int);
    }
    i
}

/// How many of the first `len` characters reach to the last dot among them.
fn up_to_dot(chars: &Vec<char>, len: usize) -> (dot: usize)
    requires
        len <= chars@.len(),
    ensures
        dot == last_of(chars@.take(len as int), '.') + 1,
        dot <= len,
{
    let ghost alike = chars@.take(len as int);
    let mut dot: usize = len;
    assert(alike.take(dot as int) =~= alike);
    while dot > 0 && chars[dot - 1] != '.'
        invariant
            dot <= len <= chars@.len(),
            alike == chars@.take(len as int),
            last_of(alike, '.') == last_of(alike.take(dot as int), '.'),
        decreases dot,
    {
        assert(alike.take(dot as int).drop_last() =~= alike.take(dot - 1));
        dot -= 1;
    }
    dot
}

/// The length of the prefix that all names share, cut back to a dot.
fn shared_prefix(names: &Vec<Vec<char>>, Ghost(views): Ghost<Seq<Seq<char>>>) -> (r: usize)
    requires
        names@.len() > 0,
        views.len() == names@.len(),
        forall|k: int| 0 <= k < names@.len() ==> (#[trigger] names@[k])@ == views[k],
    ensures
        r == shared_prefix_spec(views).len(),
        r <= names@[0]@.len(),
{
    let mut len: usize = names[0].len();
    let mut n: usize = 1;
    while n < names.len()
        invariant
            1 <= n <= names@.len() == views.len(),
            forall|k: int| 0 <= k < names@.len() ==> (#[trigger] names@[k])@ == views[k],
            len == shared_len(views, n as nat),
            len <= names@[0]@.len(),
        decreases names@.len() - n,
    {
        let i = alike_len(&names[0], &names[n]);
        if i < len {
            len = i;
        }
        n += 1;
    }
    up_to_dot(&names[0], len)
}

/// A name for a graph built from the names of the series in it.
pub fn auto_title(entries: &Vec<PlotEntry>) -> (r: String)
    ensures
        r@ == auto_title_spec(names_of(entries@)),
{
    let ghost names = names_of(entries@);
    if entries.len() == 0 {
        return "empty plot".to_owned();
    }
    assert(names[0] == entries@[0].series@);
    if entries.len() == 1 {
        return entries[0].series.clone();
    }
    let mut chars: Vec<Vec<char>> = Vec::new();
    let mut i: usize = 0;
    while i < entries.len()
        invariant
            i <= entries@.len(),
            chars@.len() == i,
            forall|k: int| 0 <= k < i ==> (#[trigger] chars@[k])@ == entries@[k].series@,
        decreases entries@.len() - i,
    {
        chars.push(chars_of(entries[i].series.as_str()));
        i += 1;
    }
    let cut = shared_prefix(&chars, Ghost(names));
    let mut parts: Vec<String> = Vec::new();
    let mut j: usize = 0;
    while j < chars.len()
        invariant
            j <= chars@.len() == names.len(),
            forall|k: int| 0 <= k < chars@.len() ==> (#[trigger] chars@[k])@ == names[k],
            cut == shared_prefix_spec(names).len(),
            parts@.len() == j,
            forall|k: int|
                0 <= k < j ==> (#[trigger] parts@[k])@ == names[k].skip(
                    shared_prefix_spec(names).len() as int,
                ),
        decreases chars@.len() - j,
    {
        proof {
            the_shared_prefix_is_shared(names, j as int);
        }
        let part = text_of(&chars[j], cut, chars[j].len());
        assert(part@ =~= names[j as int].skip(cut as int));
        parts.push(part);
        j += 1;
    }
    assert(texts_of(parts@) =~= tails(names));
    let all = join(&parts, " / ");
    let body = if longer_than(all.as_str(), 60) {
        let mut short = entries[0].series.clone();
        short.append(" +");
        push_dec(&mut short, entries.len() as u64 - 1);
        short.append(" more");
        short
    } else {
        all
    };
    if cut == 0 {
        body
    } else {
        let ghost prefix = shared_prefix_spec(names);
        proof {
            the_shared_prefix_is_shared(names, 0);
        }
        let mut end: usize = cut;
        assert(prefix.take(end as int) =~= prefix);
        while end > 0 && chars[0][end - 1] == '.'
            invariant
                end <= cut == prefix.len(),
                chars@.len() > 0,
                cut <= chars@[0]@.len(),
                prefix == chars@[0]@.take(cut as int),
                without_dots(prefix) == without_dots(prefix.take(end as int)),
            decreases end,
        {
            assert(prefix.take(end as int).drop_last() =~= prefix.take(end - 1));
            end -= 1;
        }
        let mut out = text_of(&chars[0], 0, end);
        assert(out@ =~= prefix.take(end as int));
        out.append(": ");
        out.append(body.as_str());
        out
    }
}

/// What of a name follows its last dot.
pub open spec fn short_label_spec(label: Seq<char>) -> Seq<char> {
    label.skip(last_of(label, '.') + 1)
}

/// Legend labels repeat the message prefix on every line; the playhead readout is tighter with
/// just the field.
pub fn short_label(label: &str) -> (r: String)
    ensures
        r@ == short_label_spec(label@),
{
    let chars = chars_of(label);
    let len: usize = chars.len();
    let from: usize = match rfind_char(&chars, '.') {
        Some(dot) => dot + 1,
        None => 0,
    };
    let r = text_of(&chars, from, len);
    assert(r@ =~= label@.skip(from as int));
    r
}

/// Whether an entry is a series of a source.
pub open spec fn is_entry(e: PlotEntry, source: SourceId, series: Seq<char>) -> bool {
    e.source == source && e.series@ == series
}

/// Whether a list of entries has a series.
pub open spec fn has_series(entries: Seq<PlotEntry>, source: SourceId, series: Seq<char>) -> bool {
    exists|i: int| 0 <= i < entries.len() && is_entry(#[trigger] entries[i], source, series)
}

/// Whether no series is in a graph twice.
pub open spec fn no_series_twice(entries: Seq<PlotEntry>) -> bool {
    forall|i: int, j: int|
        0 <= i < j < entries.len() ==> !((#[trigger] entries[i]).source == (
        #[trigger] entries[j]).source && entries[i].series@ == entries[j].series@)
}

impl PlotSpec {
    /// What [`PlotSpec::title`] returns.
    pub open spec fn title_spec(self) -> Seq<char> {
        if self.custom_title@.len() > 0 {
            self.custom_title@
        } else {
            auto_title_spec(names_of(self.entries@))
        }
    }

    /// The name the user gave, or one built from the contents.
    pub fn title(&self) -> (r: String)
        ensures
            r@ == self.title_spec(),
    {
        if !self.custom_title.as_str().is_empty() {
            return self.custom_title.clone();
        }
        auto_title(&self.entries)
    }

    /// Whether the graph shows a series.
    pub fn contains(&self, source: SourceId, series: &str) -> (r: bool)
        ensures
            r == has_series(self.entries@, source, series@),
    {
        let mut i: usize = 0;
        while i < self.entries.len()
            invariant
                i <= self.entries@.len(),
                forall|k: int|
                    0 <= k < i ==> !is_entry(#[trigger] self.entries@[k], source, series@),
            decreases self.entries@.len() - i,
        {
            if self.entries[i].source == source && same(self.entries[i].series.as_str(), series) {
                assert(is_entry(self.entries@[i as int], source, series@));
                return true;
            }
            i += 1;
        }
        false
    }

    /// Whether two graphs agree in everything but their entries and value range.
    pub open spec fn same_settings(self, other: PlotSpec) -> bool {
        &&& self.id == other.id
        &&& self.custom_title@ == other.custom_title@
        &&& self.normalize == other.normalize
        &&& self.color_cursor == other.color_cursor
    }

    /// Adds a series in the next colour, unless the graph shows it already.
    pub fn add(&mut self, source: SourceId, series: &str, axis: PlotAxis)
        requires
            no_series_twice(old(self).entries@),
            old(self).color_cursor < usize::MAX,
        ensures
            no_series_twice(final(self).entries@),
            final(self).id == old(self).id,
            final(self).custom_title@ == old(self).custom_title@,
            final(self).normalize == old(self).normalize,
            if has_series(old(self).entries@, source, series@) {
                final(self).entries@ == old(self).entries@ && final(self).y_manual
                    == old(self).y_manual && final(self).color_cursor == old(self).color_cursor
            } else {
                &&& final(self).entries@.len() == old(self).entries@.len() + 1
                &&& final(self).entries@.drop_last() == old(self).entries@
                &&& is_entry(final(self).entries@.last(), source, series@)
                &&& final(self).entries@.last().axis == axis
                &&& final(self).entries@.last().value_offset == (Double { bits: 0 })
                &&& (
                    final(self).entries@.last().color.r,
                    final(self).entries@.last().color.g,
                    final(self).entries@.last().color.b,
                ) == PALETTE@[old(self).color_cursor as int % 8]
                &&& final(self).y_manual is None
                &&& final(self).color_cursor == old(self).color_cursor + 1
            },
    {
        if self.contains(source, series) {
            return;
        }
        let ghost before = self.entries@;
        let color = color_for_index(self.color_cursor);
        self.color_cursor = self.color_cursor + 1;
        let value_offset = Double { bits: 0 };
        self.entries.push(
            PlotEntry { source, series: series.to_owned(), color, axis, value_offset },
        );
        // A range picked for the old contents would just clip the new series.
        self.y_manual = None;
        proof {
            assert(self.entries@.drop_last() =~= before);
            assert forall|i: int, j: int| 0 <= i < j < self.entries@.len() implies !((
            #[trigger] self.entries@[i]).source == (#[trigger] self.entries@[j]).source
                && self.entries@[i].series@ == self.entries@[j].series@) by {
                assert(before[i] == self.entries@[i]);
                if j == before.len() {
                    assert(!is_entry(before[i], source, series@));
                } else {
                    assert(before[j] == self.entries@[j]);
                }
            }
        }
    }

    /// Draws an entry against the other value axis.
    pub fn flip(&mut self, i: usize)
        requires
            i < old(self).entries@.len(),
        ensures
            final(self).same_settings(*old(self)),
            final(self).y_manual is None,
            final(self).entries@.len() == old(self).entries@.len(),
            forall|k: int|
                0 <= k < old(self).entries@.len() && k != i ==> #[trigger] final(self).entries@[k]
                    == old(self).entries@[k],
            final(self).entries@[i as int].axis == old(self).entries@[i as int].axis.other(),
            final(self).entries@[i as int].source == old(self).entries@[i as int].source,
            final(self).entries@[i as int].series@ == old(self).entries@[i as int].series@,
            final(self).entries@[i as int].color == old(self).entries@[i as int].color,
            final(self).entries@[i as int].value_offset == old(self).entries@[i as int].value_offset,
    {
        let axis = self.entries[i].axis.flipped();
        let entry = &mut self.entries[i];
        entry.axis = axis;
        self.y_manual = None;
    }

    /// Corrects an entry's values by a constant. A range picked for the old values would just
    /// clip the new ones.
    pub fn correct(&mut self, i: usize, value_offset: Double)
        requires
            i < old(self).entries@.len(),
        ensures
            final(self).same_settings(*old(self)),
            final(self).y_manual is None,
            final(self).entries@.len() == old(self).entries@.len(),
            forall|k: int|
                0 <= k < old(self).entries@.len() && k != i ==> #[trigger] final(self).entries@[k]
                    == old(self).entries@[k],
            final(self).entries@[i as int].value_offset == value_offset,
            final(self).entries@[i as int].axis == old(self).entries@[i as int].axis,
            final(self).entries@[i as int].source == old(self).entries@[i as int].source,
            final(self).entries@[i as int].series@ == old(self).entries@[i as int].series@,
            final(self).entries@[i as int].color == old(self).entries@[i as int].color,
    {
        let entry = &mut self.entries[i];
        entry.value_offset = value_offset;
        self.y_manual = None;
    }

    /// Takes an entry out. Returns whether the graph is left empty, and so to be closed.
    pub fn drop_entry(&mut self, i: usize) -> (emptied: bool)
        requires
            i < old(self).entries@.len(),
        ensures
            final(self).same_settings(*old(self)),
            final(self).y_manual is None,
            final(self).entries@ == old(self).entries@.remove(i as int),
            emptied == (old(self).entries@.len() == 1),
    {
        let _ = self.entries.remove(i);
        self.y_manual = None;
        self.entries.len() == 0
    }

    /// Adopts the value range that a gesture ended with. A normalized graph has none of its
    /// own.
    pub fn adopt_range(&mut self, range: Option<(Double, Double)>)
        ensures
            final(self).same_settings(*old(self)),
            final(self).entries@ == old(self).entries@,
            final(self).y_manual == if range is Some && !old(self).normalize {
                range
            } else {
                old(self).y_manual
            },
    {
        if range.is_some() && !self.normalize {
            self.y_manual = range;
        }
    }

    /// Puts the value axis back on autoscale.
    pub fn reset_range(&mut self)
        ensures
            final(self).same_settings(*old(self)),
            final(self).entries@ == old(self).entries@,
            final(self).y_manual is None,
    {
        self.y_manual = None;
    }
}

/// Every graph the user has opened, and the only place plot ids are minted.
pub struct Plots {
    pub list: Vec<PlotSpec>,
    pub next_id: PlotId,
}

/// The position of the graph of an id, from `from` on.
pub open spec fn plot_from(list: Seq<PlotSpec>, id: PlotId, from: int) -> Option<int>
    decreases list.len() - from,
{
    if from < 0 || from >= list.len() {
        None
    } else if list[from].id == id {
        Some(from)
    } else {
        plot_from(list, id, from + 1)
    }
}

/// The entries without those of a source, or of one series of it.
pub open spec fn without(
    entries: Seq<PlotEntry>,
    source: SourceId,
    series: Option<Seq<char>>,
) -> Seq<PlotEntry>
    decreases entries.len(),
{
    if entries.len() == 0 {
        Seq::empty()
    } else {
        let rest = without(entries.drop_last(), source, series);
        let e = entries.last();
        if e.source == source && (series is None || series == Some(e.series@)) {
            rest
        } else {
            rest.push(e)
        }
    }
}

/// The ids of the graphs with nothing in them.
pub open spec fn empty_ids(list: Seq<PlotSpec>) -> Seq<PlotId>
    decreases list.len(),
{
    if list.len() == 0 {
        Seq::empty()
    } else {
        let rest = empty_ids(list.drop_last());
        if list.last().entries@.len() == 0 {
            rest.push(list.last().id)
        } else {
            rest
        }
    }
}

/// The graphs without the one of an id.
pub open spec fn without_plot(list: Seq<PlotSpec>, id: PlotId) -> Seq<PlotSpec>
    decreases list.len(),
{
    if list.len() == 0 {
        Seq::empty()
    } else {
        let rest = without_plot(list.drop_last(), id);
        if list.last().id == id {
            rest
        } else {
            rest.push(list.last())
        }
    }
}

fn retain(entries: &mut Vec<PlotEntry>, source: SourceId, series: Option<&str>)
    ensures
        final(entries)@ == without(
            old(entries)@,
            source,
            match series {
                Some(s) => Some(s@),
                None => None,
            },
        ),
{
    let ghost before = entries@;
    let ghost name: Option<Seq<char>> = match series {
        Some(s) => Some(s@),
        None => None,
    };
    let mut i: usize = 0;
    let ghost mut k: int = 0;
    assert(before.take(0) =~= Seq::<PlotEntry>::empty());
    assert(before.skip(0) =~= before);
    assert(without(before.take(0), source, name) + before.skip(0) =~= before);
    while i < entries.len()
        invariant
            i <= entries@.len(),
            0 <= k <= before.len(),
            entries@.len() - i == before.len() - k,
            i == without(before.take(k), source, name).len(),
            entries@ == without(before.take(k), source, name) + before.skip(k),
            name == match series {
                Some(s) => Some(s@),
                None => None,
            },
        decreases entries@.len() - i,
    {
        let ghost kept = without(before.take(k), source, name);
        proof {
            assert(entries@[i as int] == before[k]);
            assert(before.take(k + 1).drop_last() =~= before.take(k));
        }
        let goes = entries[i].source == source && match series {
            Some(s) => same(entries[i].series.as_str(), s),
            None => true,
        };
        if goes {
            let _ = entries.remove(i);
            assert(entries@ =~= kept + before.skip(k + 1));
        } else {
            i += 1;
            assert(kept + before.skip(k) =~= kept.push(before[k]) + before.skip(k + 1));
        }
        proof {
            k = k + 1;
        }
    }
    assert(before.take(k) =~= before);
    assert(before.skip(k) =~= Seq::<PlotEntry>::empty());
    assert(entries@ =~= without(before, source, name));
}

proof fn lemma_without_keeps_apart(
    entries: Seq<PlotEntry>,
    source: SourceId,
    series: Option<Seq<char>>,
)
    requires
        no_series_twice(entries),
    ensures
        no_series_twice(without(entries, source, series)),
        forall|i: int|
            0 <= i < without(entries, source, series).len() ==> entries.contains(
                #[trigger] without(entries, source, series)[i],
            ),
    decreases entries.len(),
{
    if entries.len() > 0 {
        let front = entries.drop_last();
        assert forall|i: int, j: int| 0 <= i < j < front.len() implies !((
        #[trigger] front[i]).source == (#[trigger] front[j]).source && front[i].series@
            == front[j].series@) by {
            assert(front[i] == entries[i] && front[j] == entries[j]);
        }
        lemma_without_keeps_apart(front, source, series);
        let rest = without(front, source, series);
        let all = without(entries, source, series);
        assert forall|i: int| 0 <= i < all.len() implies entries.contains(#[trigger] all[i]) by {
            if i < rest.len() {
                assert(front.contains(rest[i]));
                let k = front.index_of(rest[i]);
                assert(entries[k] == rest[i]);
            } else {
                assert(entries[entries.len() - 1] == all[i]);
            }
        }
        assert forall|i: int, j: int| 0 <= i < j < all.len() implies !((
        #[trigger] all[i]).source == (#[trigger] all[j]).source && all[i].series@
            == all[j].series@) by {
            if j >= rest.len() {
                assert(front.contains(rest[i]));
                let k = front.index_of(rest[i]);
                assert(entries[k] == all[i]);
                assert(entries[entries.len() - 1] == all[j]);
            } else {
                assert(all[i] == rest[i] && all[j] == rest[j]);
            }
        }
    }
}

impl Default for Plots {
    fn default() -> (r: Self)
        ensures
            r.wf(),
            r.list@.len() == 0,
            r.next_id == 0,
    {
        Plots::new()
    }
}

impl Plots {
    /// Graphs under ids of their own, each given out before, and no series in a graph twice.
    pub open spec fn wf(self) -> bool {
        &&& forall|i: int|
            0 <= i < self.list@.len() ==> (#[trigger] self.list@[i]).id < self.next_id
                && no_series_twice(self.list@[i].entries@)
        &&& forall|i: int, j: int|
            0 <= i < j < self.list@.len() ==> (#[trigger] self.list@[i]).id != (
            #[trigger] self.list@[j]).id
    }

    pub fn new() -> (r: Self)
        ensures
            r.wf(),
            r.list@.len() == 0,
            r.next_id == 0,
    {
        Plots { list: Vec::new(), next_id: 0 }
    }

    /// The position of the graph of an id.
    pub open spec fn find_spec(self, id: PlotId) -> Option<int> {
        plot_from(self.list@, id, 0)
    }

    /// The position of the graph of an id.
    pub fn find(&self, id: PlotId) -> (r: Option<usize>)
        ensures
            match r {
                Some(i) => self.find_spec(id) == Some(i as int) && i < self.list@.len()
                    && self.list@[i as int].id == id,
                None => self.find_spec(id) is None && forall|k: int|
                    0 <= k < self.list@.len() ==> (#[trigger] self.list@[k]).id != id,
            },
    {
        let mut i: usize = 0;
        while i < self.list.len()
            invariant
                i <= self.list@.len(),
                self.find_spec(id) == plot_from(self.list@, id, i as int),
                forall|k: int| 0 <= k < i ==> (#[trigger] self.list@[k]).id != id,
            decreases self.list@.len() - i,
        {
            if self.list[i].id == id {
                return Some(i);
            }
            i += 1;
        }
        None
    }

    /// The graph of an id.
    pub fn get(&self, id: PlotId) -> (r: Option<&PlotSpec>)
        ensures
            match r {
                Some(p) => self.find_spec(id) is Some && *p
                    == self.list@[self.find_spec(id).unwrap()],
                None => self.find_spec(id) is None,
            },
    {
        match self.find(id) {
            Some(i) => Some(&self.list[i]),
            None => None,
        }
    }

    /// The graph of an id, to be changed in place. The others stay.
    pub fn get_mut(&mut self, id: PlotId) -> (r: Option<&mut PlotSpec>)
        ensures
            match r {
                Some(p) => {
                    &&& old(self).find_spec(id) is Some
                    &&& *p == old(self).list@[old(self).find_spec(id).unwrap()]
                    &&& final(self).list@ == old(self).list@.update(
                        old(self).find_spec(id).unwrap(),
                        *final(p),
                    )
                    &&& final(self).next_id == old(self).next_id
                },
                None => old(self).find_spec(id) is None && *final(self) == *old(self),
            },
    {
        match self.find(id) {
            Some(i) => Some(&mut self.list[i]),
            None => None,
        }
    }

    /// Whether `after` is `before` with a new graph of one series, against the left axis.
    pub open spec fn created(
        before: Plots,
        after: Plots,
        source: SourceId,
        series: Seq<char>,
    ) -> bool {
        let p = after.list@.last();
        &&& after.next_id == before.next_id + 1
        &&& after.list@.len() == before.list@.len() + 1
        &&& after.list@.drop_last() == before.list@
        &&& p.id == before.next_id
        &&& p.custom_title@.len() == 0
        &&& !p.normalize
        &&& p.y_manual is None
        &&& p.color_cursor == 1
        &&& p.entries@.len() == 1
        &&& is_entry(p.entries@[0], source, series)
        &&& p.entries@[0].axis == PlotAxis::Left
        &&& p.entries@[0].value_offset == (Double { bits: 0 })
        &&& (p.entries@[0].color.r, p.entries@[0].color.g, p.entries@[0].color.b) == PALETTE@[0]
    }

    /// Opens a new graph showing a series.
    pub fn create(&mut self, source: SourceId, series: String) -> (id: PlotId)
        requires
            old(self).wf(),
            old(self).next_id < u64::MAX,
        ensures
            final(self).wf(),
            id == old(self).next_id,
            Self::created(*old(self), *final(self), source, series@),
    {
        let id = self.next_id;
        self.next_id = id + 1;
        let ghost before = self.list@;
        let mut plot = PlotSpec {
            id,
            entries: Vec::new(),
            custom_title: String::new(),
            normalize: false,
            y_manual: None,
            color_cursor: 0,
        };
        plot.add(source, series.as_str(), PlotAxis::Left);
        self.list.push(plot);
        proof {
            assert(self.list@.drop_last() =~= before);
            assert forall|i: int, j: int| 0 <= i < j < self.list@.len() implies (
            #[trigger] self.list@[i]).id != (#[trigger] self.list@[j]).id by {
                assert(before[i] == self.list@[i]);
                if j < before.len() {
                    assert(before[j] == self.list@[j]);
                }
            }
        }
        id
    }

    /// Whether `after` is `before` with a series added to a graph against an axis. A graph that
    /// shows it already stays, and so do all the others.
    pub open spec fn added(
        before: Plots,
        after: Plots,
        id: PlotId,
        source: SourceId,
        series: Seq<char>,
        axis: PlotAxis,
    ) -> bool {
        &&& after.next_id == before.next_id
        &&& after.list@.len() == before.list@.len()
        &&& forall|k: int|
            0 <= k < before.list@.len() && before.list@[k].id != id ==> #[trigger] after.list@[k]
                == before.list@[k]
        &&& match before.find_spec(id) {
            Some(i) => {
                let had = before.list@[i];
                let new = after.list@[i];
                &&& new.id == had.id
                &&& new.custom_title@ == had.custom_title@
                &&& new.normalize == had.normalize
                &&& if has_series(had.entries@, source, series) {
                    new.entries@ == had.entries@ && new.y_manual == had.y_manual
                        && new.color_cursor == had.color_cursor
                } else {
                    let entry = new.entries@.last();
                    &&& new.entries@.drop_last() == had.entries@
                    &&& new.entries@.len() == had.entries@.len() + 1
                    &&& is_entry(entry, source, series)
                    &&& entry.axis == axis
                    &&& entry.value_offset == (Double { bits: 0 })
                    &&& (entry.color.r, entry.color.g, entry.color.b)
                        == PALETTE@[had.color_cursor as int % 8]
                    &&& new.y_manual is None
                    &&& new.color_cursor == had.color_cursor + 1
                }
            },
            None => after.list@ == before.list@,
        }
    }

    /// Adds a series to a graph, unless it shows it already or is not there.
    pub fn add(&mut self, id: PlotId, source: SourceId, series: String, axis: PlotAxis)
        requires
            old(self).wf(),
            match old(self).find_spec(id) {
                Some(i) => old(self).list@[i].color_cursor < usize::MAX,
                None => true,
            },
        ensures
            final(self).wf(),
            Self::added(*old(self), *final(self), id, source, series@, axis),
    {
        let ghost before = self.list@;
        match self.find(id) {
            Some(i) => {
                let plot = &mut self.list[i];
                plot.add(source, series.as_str(), axis);
                proof {
                    assert forall|k: int| 0 <= k < before.len() && before[k].id
                        != id implies #[trigger] self.list@[k] == before[k] by {}
                    assert forall|a: int, b: int| 0 <= a < b < self.list@.len() implies (
                    #[trigger] self.list@[a]).id != (#[trigger] self.list@[b]).id by {
                        assert(self.list@[a].id == before[a].id);
                        assert(self.list@[b].id == before[b].id);
                    }
                }
            },
            None => {},
        }
    }

    /// Whether any graph shows a series.
    pub open spec fn shows_spec(self, source: SourceId, series: Seq<char>) -> bool {
        exists|i: int|
            0 <= i < self.list@.len() && has_series(
                (#[trigger] self.list@[i]).entries@,
                source,
                series,
            )
    }

    pub fn shows(&self, source: SourceId, series: &str) -> (r: bool)
        ensures
            r == self.shows_spec(source, series@),
    {
        let mut i: usize = 0;
        while i < self.list.len()
            invariant
                i <= self.list@.len(),
                forall|k: int|
                    0 <= k < i ==> !has_series(
                        (#[trigger] self.list@[k]).entries@,
                        source,
                        series@,
                    ),
            decreases self.list@.len() - i,
        {
            if self.list[i].contains(source, series) {
                return true;
            }
            i += 1;
        }
        false
    }

    /// Whether every graph has the entries of before without some.
    pub open spec fn is_without(
        after: Seq<PlotSpec>,
        before: Seq<PlotSpec>,
        source: SourceId,
        series: Option<Seq<char>>,
    ) -> bool {
        &&& after.len() == before.len()
        &&& forall|i: int|
            0 <= i < before.len() ==> (#[trigger] after[i]).entries@ == without(
                before[i].entries@,
                source,
                series,
            ) && after[i].same_settings(before[i]) && after[i].y_manual == before[i].y_manual
    }

    fn drop_from_all(&mut self, source: SourceId, series: Option<&str>)
        requires
            old(self).wf(),
        ensures
            final(self).wf(),
            final(self).next_id == old(self).next_id,
            Self::is_without(
                final(self).list@,
                old(self).list@,
                source,
                match series {
                    Some(s) => Some(s@),
                    None => None,
                },
            ),
    {
        let ghost before = self.list@;
        let ghost name: Option<Seq<char>> = match series {
            Some(s) => Some(s@),
            None => None,
        };
        let ghost next = self.next_id;
        let mut i: usize = 0;
        while i < self.list.len()
            invariant
                i <= self.list@.len() == before.len(),
                self.next_id == next,
                name == match series {
                    Some(s) => Some(s@),
                    None => None,
                },
                forall|k: int| i <= k < before.len() ==> #[trigger] self.list@[k] == before[k],
                forall|k: int|
                    0 <= k < i ==> (#[trigger] self.list@[k]).entries@ == without(
                        before[k].entries@,
                        source,
                        name,
                    ) && self.list@[k].same_settings(before[k]) && self.list@[k].y_manual
                        == before[k].y_manual,
            decreases self.list@.len() - i,
        {
            let plot = &mut self.list[i];
            retain(&mut plot.entries, source, series);
            i += 1;
        }
        proof {
            assert forall|k: int| 0 <= k < self.list@.len() implies (
            #[trigger] self.list@[k]).id < self.next_id && no_series_twice(
                self.list@[k].entries@,
            ) by {
                assert(before[k].id < next);
                lemma_without_keeps_apart(before[k].entries@, source, name);
            }
            assert forall|a: int, b: int| 0 <= a < b < self.list@.len() implies (
            #[trigger] self.list@[a]).id != (#[trigger] self.list@[b]).id by {
                assert(self.list@[a].id == before[a].id);
                assert(self.list@[b].id == before[b].id);
            }
        }
    }

    /// Drops a series from every graph. Returns the graphs left empty, which the caller closes.
    pub fn remove_series(&mut self, source: SourceId, series: &str) -> (r: Vec<PlotId>)
        requires
            old(self).wf(),
        ensures
            final(self).wf(),
            final(self).next_id == old(self).next_id,
            Self::is_without(final(self).list@, old(self).list@, source, Some(series@)),
            r@ == empty_ids(final(self).list@),
    {
        self.drop_from_all(source, Some(series));
        self.empty_plots()
    }

    /// Drops everything belonging to a source that is going away. Returns the graphs left
    /// empty, which the caller closes.
    pub fn remove_source(&mut self, source: SourceId) -> (r: Vec<PlotId>)
        requires
            old(self).wf(),
        ensures
            final(self).wf(),
            final(self).next_id == old(self).next_id,
            Self::is_without(final(self).list@, old(self).list@, source, None),
            r@ == empty_ids(final(self).list@),
    {
        self.drop_from_all(source, None);
        self.empty_plots()
    }

    fn empty_plots(&self) -> (r: Vec<PlotId>)
        ensures
            r@ == empty_ids(self.list@),
    {
        let mut out: Vec<PlotId> = Vec::new();
        let mut i: usize = 0;
        assert(self.list@.take(0) =~= Seq::<PlotSpec>::empty());
        while i < self.list.len()
            invariant
                i <= self.list@.len(),
                out@ == empty_ids(self.list@.take(i as int)),
            decreases self.list@.len() - i,
        {
            assert(self.list@.take(i + 1).drop_last() =~= self.list@.take(i as int));
            if self.list[i].entries.len() == 0 {
                out.push(self.list[i].id);
            }
            i += 1;
        }
        assert(self.list@.take(self.list@.len() as int) =~= self.list@);
        out
    }

    /// Closes a graph.
    pub fn close(&mut self, id: PlotId)
        requires
            old(self).wf(),
        ensures
            final(self).wf(),
            final(self).next_id == old(self).next_id,
            final(self).list@ == without_plot(old(self).list@, id),
    {
        let ghost before = self.list@;
        match self.find(id) {
            Some(i) => {
                let _ = self.list.remove(i);
                proof {
                    lemma_without_plot(before, id, i as int);
                    assert(self.list@ =~= before.remove(i as int));
                    assert forall|a: int, b: int| 0 <= a < b < self.list@.len() implies (
                    #[trigger] self.list@[a]).id != (#[trigger] self.list@[b]).id by {
                        let x = if a < i {
                            a
                        } else {
                            a + 1
                        };
                        let y = if b < i {
                            b
                        } else {
                            b + 1
                        };
                        assert(self.list@[a] == before[x] && self.list@[b] == before[y]);
                    }
                    assert forall|k: int| 0 <= k < self.list@.len() implies (
                    #[trigger] self.list@[k]).id < self.next_id && no_series_twice(
                        self.list@[k].entries@,
                    ) by {
                        let x = if k < i {
                            k
                        } else {
                            k + 1
                        };
                        assert(self.list@[k] == before[x]);
                    }
                }
            },
            None => {
                proof {
                    lemma_without_absent(before, id);
                }
            },
        }
    }

    /// Puts every graph's value axis back on autoscale, the other half of "reset the zoom".
    pub fn clear_manual_ranges(&mut self)
        requires
            old(self).wf(),
        ensures
            final(self).wf(),
            final(self).next_id == old(self).next_id,
            final(self).list@.len() == old(self).list@.len(),
            forall|i: int|
                0 <= i < old(self).list@.len() ==> (#[trigger] final(self).list@[i]).y_manual
                    is None && final(self).list@[i].entries@ == old(self).list@[i].entries@
                    && final(self).list@[i].same_settings(old(self).list@[i]),
    {
        let ghost before = self.list@;
        let ghost next = self.next_id;
        let mut i: usize = 0;
        while i < self.list.len()
            invariant
                i <= self.list@.len() == before.len(),
                self.next_id == next,
                forall|k: int| i <= k < before.len() ==> #[trigger] self.list@[k] == before[k],
                forall|k: int|
                    0 <= k < i ==> (#[trigger] self.list@[k]).y_manual is None
                        && self.list@[k].entries@ == before[k].entries@
                        && self.list@[k].same_settings(before[k]),
            decreases self.list@.len() - i,
        {
            let plot = &mut self.list[i];
            plot.y_manual = None;
            i += 1;
        }
        proof {
            assert forall|k: int| 0 <= k < self.list@.len() implies (
            #[trigger] self.list@[k]).id < self.next_id && no_series_twice(
                self.list@[k].entries@,
            ) by {
                assert(before[k].id < next);
            }
            assert forall|a: int, b: int| 0 <= a < b < self.list@.len() implies (
            #[trigger] self.list@[a]).id != (#[trigger] self.list@[b]).id by {
                assert(self.list@[a].id == before[a].id);
                assert(self.list@[b].id == before[b].id);
            }
        }
    }
}

proof fn lemma_without_absent(list: Seq<PlotSpec>, id: PlotId)
    requires
        forall|k: int| 0 <= k < list.len() ==> (#[trigger] list[k]).id != id,
    ensures
        without_plot(list, id) == list,
    decreases list.len(),
{
    if list.len() > 0 {
        assert(list.last() == list[list.len() - 1]);
        lemma_without_absent(list.drop_last(), id);
        assert(list =~= list.drop_last().push(list.last()));
    }
}

proof fn lemma_without_plot(list: Seq<PlotSpec>, id: PlotId, i: int)
    requires
        0 <= i < list.len(),
        list[i].id == id,
        forall|k: int| 0 <= k < list.len() && k != i ==> (#[trigger] list[k]).id != id,
    ensures
        without_plot(list, id) == list.remove(i),
    decreases list.len(),
{
    let front = list.drop_last();
    if i < list.len() - 1 {
        assert(list.last() == list[list.len() - 1]);
        lemma_without_plot(front, id, i);
        assert(list.remove(i) =~= front.remove(i).push(list.last()));
    } else {
        lemma_without_absent(front, id);
        assert(list.remove(i) =~= front);
    }
}

/// A series that was dropped from every graph is shown by none.
pub proof fn a_removed_series_is_not_shown(
    before: Seq<PlotSpec>,
    after: Plots,
    source: SourceId,
    series: Seq<char>,
)
    requires
        Plots::is_without(after.list@, before, source, Some(series)),
    ensures
        !after.shows_spec(source, series),
{
    assert forall|i: int| 0 <= i < after.list@.len() implies !has_series(
        (#[trigger] after.list@[i]).entries@,
        source,
        series,
    ) by {
        lemma_without_has_none(before[i].entries@, source, Some(series), series);
    }
}

/// A source that was dropped from every graph is shown nowhere.
pub proof fn a_removed_source_is_not_shown(
    before: Seq<PlotSpec>,
    after: Plots,
    source: SourceId,
    series: Seq<char>,
)
    requires
        Plots::is_without(after.list@, before, source, None),
    ensures
        !after.shows_spec(source, series),
{
    assert forall|i: int| 0 <= i < after.list@.len() implies !has_series(
        (#[trigger] after.list@[i]).entries@,
        source,
        series,
    ) by {
        lemma_without_has_none(before[i].entries@, source, None, series);
    }
}

proof fn lemma_without_has_none(
    entries: Seq<PlotEntry>,
    source: SourceId,
    dropped: Option<Seq<char>>,
    series: Seq<char>,
)
    requires
        dropped is None || dropped == Some(series),
    ensures
        !has_series(without(entries, source, dropped), source, series),
    decreases entries.len(),
{
    if entries.len() > 0 {
        lemma_without_has_none(entries.drop_last(), source, dropped, series);
        let rest = without(entries.drop_last(), source, dropped);
        let all = without(entries, source, dropped);
        assert forall|i: int| 0 <= i < all.len() implies !is_entry(
            #[trigger] all[i],
            source,
            series,
        ) by {
            if i < rest.len() {
                assert(!is_entry(rest[i], source, series));
            }
        }
    }
}

proof fn lemma_without_keeps_others(
    entries: Seq<PlotEntry>,
    source: SourceId,
    dropped: Option<Seq<char>>,
    other: SourceId,
    series: Seq<char>,
)
    requires
        other != source,
    ensures
        has_series(without(entries, source, dropped), other, series) == has_series(
            entries,
            other,
            series,
        ),
    decreases entries.len(),
{
    if entries.len() > 0 {
        let front = entries.drop_last();
        lemma_without_keeps_others(front, source, dropped, other, series);
        let rest = without(front, source, dropped);
        let all = without(entries, source, dropped);
        if has_series(entries, other, series) {
            let i = choose|i: int|
                0 <= i < entries.len() && is_entry(#[trigger] entries[i], other, series);
            if i < front.len() {
                assert(is_entry(front[i], other, series));
                let k = choose|k: int|
                    0 <= k < rest.len() && is_entry(#[trigger] rest[k], other, series);
                assert(all[k] == rest[k]);
            } else {
                assert(all[rest.len() as int] == entries[i]);
            }
        }
        if has_series(all, other, series) {
            let i = choose|i: int|
                0 <= i < all.len() && is_entry(#[trigger] all[i], other, series);
            if i < rest.len() {
                assert(is_entry(rest[i], other, series));
                let k = choose|k: int|
                    0 <= k < front.len() && is_entry(#[trigger] front[k], other, series);
                assert(entries[k] == front[k]);
            } else {
                assert(all[i] == entries[entries.len() - 1]);
            }
        }
    }
}

/// Dropping a source leaves the other sources' series where they are.
pub proof fn dropping_a_source_keeps_the_others(
    before: Plots,
    after: Plots,
    source: SourceId,
    other: SourceId,
    series: Seq<char>,
)
    requires
        other != source,
        Plots::is_without(after.list@, before.list@, source, None),
    ensures
        after.shows_spec(other, series) == before.shows_spec(other, series),
{
    if before.shows_spec(other, series) {
        let i = choose|i: int|
            0 <= i < before.list@.len() && has_series(
                (#[trigger] before.list@[i]).entries@,
                other,
                series,
            );
        lemma_without_keeps_others(before.list@[i].entries@, source, None, other, series);
        assert(has_series(after.list@[i].entries@, other, series));
    }
    if after.shows_spec(other, series) {
        let i = choose|i: int|
            0 <= i < after.list@.len() && has_series(
                (#[trigger] after.list@[i]).entries@,
                other,
                series,
            );
        lemma_without_keeps_others(before.list@[i].entries@, source, None, other, series);
        assert(has_series(before.list@[i].entries@, other, series));
    }
}

/// Flipping an entry's axis twice puts it back.
pub proof fn flipping_twice_is_nothing(axis: PlotAxis)
    ensures
        axis.other().other() == axis,
{
}

} // verus!
