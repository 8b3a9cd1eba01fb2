//! The export window: which graphs, over what stretch of time, at what size.
use vstd::prelude::*;

use crate::clock::{duration_spec, format_duration, format_utc, utc_label_spec, utc_text, whole_seconds};
use crate::double::half_even;
use crate::export::png::MAX_PIXELS;
use crate::export::{
    file_name_spec, is_drawable_range, pixels_of_mm, sanitize_file_name, ExportFormat,
    ExportItem, ExportSettings, RangeMode,
};
use crate::text::{dec, push_dec, push_dec_wide};
use crate::timeline::Timeline;

verus! {

broadcast use vstd::seq_lib::group_seq_properties;

/// What the export window keeps from one showing to the next.
pub struct ExportDialog {
    pub open: bool,
    pub settings: ExportSettings,
    /// Panes ticked for export, each once. Kept across openings, and filtered against what is
    /// actually on screen every time it is shown.
    pub selected: Vec<ExportItem>,
    pub error: Option<String>,
    /// What the last export wrote, shown until the next one.
    pub notice: Option<String>,
}

/// The items of a list that are also in another, in the order of the first.
pub open spec fn among(items: Seq<ExportItem>, others: Seq<ExportItem>) -> Seq<ExportItem>
    decreases items.len(),
{
    if items.len() == 0 {
        Seq::empty()
    } else {
        let rest = among(items.drop_last(), others);
        if others.contains(items.last()) {
            rest.push(items.last())
        } else {
            rest
        }
    }
}

/// What is in both is in both lists.
pub proof fn what_is_among_is_in_both(
    items: Seq<ExportItem>,
    others: Seq<ExportItem>,
    item: ExportItem,
)
    ensures
        among(items, others).contains(item) <==> items.contains(item) && others.contains(item),
    decreases items.len(),
{
    if items.len() > 0 {
        let front = items.drop_last();
        what_is_among_is_in_both(front, others, item);
        assert(items == front.push(items.last()));
        let rest = among(front, others);
        if others.contains(items.last()) {
            assert(among(items, others) == rest.push(items.last()));
            if among(items, others).contains(item) && !rest.contains(item) {
                let k = choose|k: int|
                    0 <= k < among(items, others).len() && among(items, others)[k] == item;
                assert(k == rest.len());
            }
            if rest.contains(item) {
                let k = rest.index_of(item);
                assert(among(items, others)[k] == item);
            }
            assert(among(items, others)[rest.len() as int] == items.last());
        }
        if items.contains(item) && item != items.last() {
            let k = items.index_of(item);
            assert(front[k] == item);
        }
        if front.contains(item) {
            let k = front.index_of(item);
            assert(items[k] == item);
        }
        assert(items[items.len() - 1] == items.last());
    }
}

fn is_in(items: &Vec<ExportItem>, item: ExportItem) -> (r: bool)
    ensures
        r == items@.contains(item),
{
    let mut i: usize = 0;
    while i < items.len()
        invariant
            i <= items@.len(),
            forall|k: int| 0 <= k < i ==> #[trigger] items@[k] != item,
        decreases items@.len() - i,
    {
        if items[i] == item {
            return true;
        }
        i += 1;
    }
    false
}

fn keep(items: &Vec<ExportItem>, others: &Vec<ExportItem>) -> (r: Vec<ExportItem>)
    ensures
        r@ == among(items@, others@),
{
    let mut out: Vec<ExportItem> = Vec::new();
    let mut i: usize = 0;
    assert(items@.take(0) =~= Seq::<ExportItem>::empty());
    while i < items.len()
        invariant
            i <= items@.len(),
            out@ == among(items@.take(i as int), others@),
        decreases items@.len() - i,
    {
        assert(items@.take(i + 1).drop_last() =~= items@.take(i as int));
        if is_in(others, items[i]) {
            out.push(items[i]);
        }
        i += 1;
    }
    assert(items@.take(items@.len() as int) =~= items@);
    out
}

fn copy(items: &Vec<ExportItem>) -> (r: Vec<ExportItem>)
    ensures
        r@ == items@,
{
    let mut out: Vec<ExportItem> = Vec::new();
    let mut i: usize = 0;
    while i < items.len()
        invariant
            i <= items@.len(),
            out@ == items@.take(i as int),
        decreases items@.len() - i,
    {
        out.push(items[i]);
        i += 1;
    }
    assert(out@ =~= items@);
    out
}

impl Default for ExportDialog {
    fn default() -> (r: Self)
        ensures
            !r.open,
            r.settings == crate::export::starting_settings(),
            r.selected@.len() == 0,
            r.error is None,
            r.notice is None,
    {
        ExportDialog {
            open: false,
            settings: ExportSettings::default(),
            selected: Vec::new(),
            error: None,
            notice: None,
        }
    }
}

/// The nearest whole number of millimetres to one of hundredths, halves to the even one.
pub open spec fn whole_mm(mm: int) -> nat {
    half_even(mm, 100) as nat
}

fn push_mm(out: &mut String, mm: u128)
    ensures
        final(out)@ == old(out)@ + dec(whole_mm(mm as int)),
{
    let (q, r): (u128, u128) = (mm / 100, mm % 100);
    push_dec_wide(
        out,
        if r > 50 || (r == 50 && q % 2 == 1) {
            q + 1
        } else {
            q
        },
    );
}

impl ExportDialog {
    pub fn is_open(&self) -> (r: bool)
        ensures
            r == self.open,
    {
        self.open
    }

    /// Opens the window, starting from every graph currently on screen unless some of those
    /// that are ticked still are.
    pub fn open(&mut self, visible: &Vec<ExportItem>)
        ensures
            final(self).open,
            final(self).error is None,
            final(self).notice is None,
            final(self).settings == old(self).settings,
            final(self).selected@ == if exists|i: int|
                0 <= i < old(self).selected@.len() && visible@.contains(
                    #[trigger] old(self).selected@[i],
                ) {
                old(self).selected@
            } else {
                visible@
            },
    {
        self.open = true;
        self.error = None;
        self.notice = None;
        let mut i: usize = 0;
        while i < self.selected.len()
            invariant
                i <= self.selected@.len(),
                self.selected@ == old(self).selected@,
                self.open,
                self.error is None,
                self.notice is None,
                self.settings == old(self).settings,
                forall|k: int| 0 <= k < i ==> !visible@.contains(#[trigger] self.selected@[k]),
            decreases self.selected@.len() - i,
        {
            if is_in(visible, self.selected[i]) {
                assert(visible@.contains(old(self).selected@[i as int]));
                return;
            }
            i += 1;
        }
        self.selected = copy(visible);
    }

    /// Drops what is no longer on screen: a graph whose pane was closed while the window was
    /// open must not stay in the export.
    pub fn retain_visible(&mut self, visible: &Vec<ExportItem>)
        ensures
            final(self).selected@ == among(old(self).selected@, visible@),
            final(self).open == old(self).open,
            final(self).settings == old(self).settings,
            final(self).error == old(self).error,
            final(self).notice == old(self).notice,
    {
        self.selected = keep(&self.selected, visible);
    }

    /// The graphs to export, in the order they are shown in.
    pub fn ordered_selection(&self, visible: &Vec<ExportItem>) -> (r: Vec<ExportItem>)
        ensures
            r@ == among(visible@, self.selected@),
    {
        keep(visible, &self.selected)
    }

    /// Ticks or unticks one graph.
    pub fn select(&mut self, item: ExportItem, on: bool)
        ensures
            final(self).selected@ == if on {
                if old(self).selected@.contains(item) {
                    old(self).selected@
                } else {
                    old(self).selected@.push(item)
                }
            } else {
                without_item(old(self).selected@, item)
            },
            final(self).open == old(self).open,
            final(self).settings == old(self).settings,
            final(self).error == old(self).error,
            final(self).notice == old(self).notice,
    {
        if on {
            if !is_in(&self.selected, item) {
                self.selected.push(item);
            }
        } else {
            let mut out: Vec<ExportItem> = Vec::new();
            let mut i: usize = 0;
            assert(self.selected@.take(0) =~= Seq::<ExportItem>::empty());
            while i < self.selected.len()
                invariant
                    i <= self.selected@.len(),
                    *self == *old(self),
                    out@ == without_item(self.selected@.take(i as int), item),
                decreases self.selected@.len() - i,
            {
                assert(self.selected@.take(i + 1).drop_last() =~= self.selected@.take(i as int));
                if self.selected[i] != item {
                    out.push(self.selected[i]);
                }
                i += 1;
            }
            assert(self.selected@.take(self.selected@.len() as int) =~= self.selected@);
            self.selected = out;
        }
    }

    /// Ticks every graph on screen.
    pub fn select_all(&mut self, visible: &Vec<ExportItem>)
        ensures
            final(self).selected@ == visible@,
            *final(self) == (ExportDialog { selected: final(self).selected, ..*old(self) }),
    {
        self.selected = copy(visible);
    }

    /// How many graphs end up in one file.
    pub open spec fn panels_spec(self) -> usize {
        if self.settings.separate_files || self.selected@.len() == 0 {
            1
        } else {
            self.selected@.len() as usize
        }
    }

    /// How many graphs end up in one file.
    pub fn panels_per_file(&self) -> (r: usize)
        ensures
            r == self.panels_spec(),
            r > 0,
    {
        if self.settings.separate_files || self.selected.len() == 0 {
            1
        } else {
            self.selected.len()
        }
    }

    /// Whether there is something to export.
    pub fn ready(&self, range: (i64, i64)) -> (r: bool)
        ensures
            r == (self.selected@.len() > 0 && range.0 < range.1),
    {
        self.selected.len() > 0 && is_drawable_range(range)
    }

    /// How many are ticked, in words.
    pub fn count_note(&self, visible: usize) -> (r: String)
        ensures
            r@ == dec(self.selected@.len()) + " of "@ + dec(visible as nat) + " selected"@,
    {
        let mut out = String::new();
        push_dec(&mut out, self.selected.len() as u64);
        out.append(" of ");
        push_dec(&mut out, visible as u64);
        out.append(" selected");
        out
    }

    /// What the size line under the buttons says: the same arithmetic the file uses.
    pub fn size_note(&self) -> (r: String)
        ensures
            ({
                let rows = ExportSettings::rows(self.panels_spec());
                let w = self.settings.width_mm as int;
                let h = self.settings.height_mm * rows;
                let size = dec(whole_mm(w)) + " × "@ + dec(whole_mm(h));
                r@ == match self.settings.format {
                    ExportFormat::Svg => size + " mm, vector"@,
                    ExportFormat::Png => size + " mm · "@ + dec(
                        pixels_of_mm(w, self.settings.dpi as int) as nat,
                    ) + " × "@ + dec(pixels_of_mm(h, self.settings.dpi as int) as nat) + " px"@,
                }
            }),
    {
        let panels = self.panels_per_file();
        let (w, h) = self.settings.size_mm(panels);
        let mut out = String::new();
        push_mm(&mut out, w);
        out.append(" × ");
        push_mm(&mut out, h);
        match self.settings.format {
            ExportFormat::Svg => {
                out.append(" mm, vector");
            },
            ExportFormat::Png => {
                let (pw, ph) = self.settings.size_pixels(panels);
                out.append(" mm · ");
                push_dec(&mut out, pw as u64);
                out.append(" × ");
                push_dec(&mut out, ph as u64);
                out.append(" px");
            },
        }
        out
    }

    /// The warning that a bitmap is too large to render, where it is.
    pub fn size_warning(&self) -> (r: Option<String>)
        ensures
            ({
                let w = pixels_of_mm(self.settings.width_mm as int, self.settings.dpi as int);
                let h = pixels_of_mm(
                    self.settings.height_mm * ExportSettings::rows(self.panels_spec()),
                    self.settings.dpi as int,
                );
                match r {
                    Some(text) => self.settings.format == ExportFormat::Png && w * h > MAX_PIXELS
                        && text@ == "⚠ "@ + dec(w as nat) + " × "@ + dec(h as nat)
                        + " px is too large to render"@,
                    None => self.settings.format != ExportFormat::Png || w * h <= MAX_PIXELS,
                }
            }),
    {
        if self.settings.format != ExportFormat::Png {
            return None;
        }
        let (w, h) = self.settings.size_pixels(self.panels_per_file());
        proof {
            assert(0 <= w * h <= 0xFFFF_FFFF * 0xFFFF_FFFF) by (nonlinear_arith)
                requires
                    0 <= w <= 0xFFFF_FFFF,
                    0 <= h <= 0xFFFF_FFFF,
            ;
        }
        if w as u64 * h as u64 <= MAX_PIXELS {
            return None;
        }
        let mut out = "⚠ ".to_owned();
        push_dec(&mut out, w as u64);
        out.append(" × ");
        push_dec(&mut out, h as u64);
        out.append(" px is too large to render");
        Some(out)
    }

    /// What the preview shows of the files.
    pub fn preview_note(&self) -> (r: String)
        ensures
            r@ == if self.settings.separate_files && self.selected@.len() > 1 {
                "the first of "@ + dec(self.selected@.len()) + " files"@
            } else {
                "the figure, at screen resolution"@
            },
    {
        if self.settings.separate_files && self.selected.len() > 1 {
            let mut out = "the first of ".to_owned();
            push_dec(&mut out, self.selected.len() as u64);
            out.append(" files");
            out
        } else {
            "the figure, at screen resolution".to_owned()
        }
    }

    /// Chooses the custom range. An empty window is a poor place to start typing from, so the
    /// first time round it is filled in from what is on screen.
    pub fn choose_custom(&mut self, timeline: &Timeline, bounds: Option<(i64, i64)>)
        ensures
            *final(self) == (ExportDialog { settings: final(self).settings, ..*old(self) }),
            final(self).settings.range == RangeMode::Custom,
            old(self).settings.custom_from < old(self).settings.custom_to ==> final(self).settings
                == (ExportSettings { range: RangeMode::Custom, ..old(self).settings }),
            old(self).settings.custom_from >= old(self).settings.custom_to ==> ({
                let start = match bounds {
                    Some((lo, _)) => lo as int,
                    None => 0,
                };
                let from = timeline.view_start - start;
                let to = timeline.view_end - start;
                final(self).settings == if i64::MIN <= from <= i64::MAX && i64::MIN <= to
                    <= i64::MAX {
                    ExportSettings {
                        range: RangeMode::Custom,
                        custom_from: from as i64,
                        custom_to: to as i64,
                        ..old(self).settings
                    }
                } else {
                    ExportSettings { range: RangeMode::Custom, ..old(self).settings }
                }
            }),
    {
        self.settings.range = RangeMode::Custom;
        if self.settings.custom_to <= self.settings.custom_from {
            self.settings.use_view(timeline, bounds);
        }
    }

    /// Notes what an export wrote, and returns the line for the app's status bar.
    pub fn wrote(&mut self, files: usize, place: &str) -> (r: String)
        ensures
            r@ == exported_spec(files, place@),
            final(self).error is None,
            final(self).notice is Some && final(self).notice.unwrap()@ == "✔ "@ + r@,
            final(self).open == old(self).open,
            final(self).settings == old(self).settings,
            final(self).selected == old(self).selected,
    {
        let mut out = "Exported ".to_owned();
        if files != 1 {
            push_dec(&mut out, files as u64);
            out.append(" files to ");
        }
        out.append(place);
        let mut notice = "✔ ".to_owned();
        notice.append(out.as_str());
        self.error = None;
        self.notice = Some(notice);
        out
    }

    /// Notes that an export failed.
    pub fn failed(&mut self, why: &str)
        ensures
            final(self).notice is None,
            final(self).error is Some && final(self).error.unwrap()@ == "Export failed: "@ + why@,
            final(self).open == old(self).open,
            final(self).settings == old(self).settings,
            final(self).selected == old(self).selected,
    {
        let mut out = "Export failed: ".to_owned();
        out.append(why);
        self.notice = None;
        self.error = Some(out);
    }
}

/// What an export wrote: one file by its path, several by the directory they are in.
pub open spec fn exported_spec(files: usize, place: Seq<char>) -> Seq<char> {
    if files == 1 {
        "Exported "@ + place
    } else {
        "Exported "@ + dec(files as nat) + " files to "@ + place
    }
}

/// A list without one item.
pub open spec fn without_item(items: Seq<ExportItem>, item: ExportItem) -> Seq<ExportItem>
    decreases items.len(),
{
    if items.len() == 0 {
        Seq::empty()
    } else {
        let rest = without_item(items.drop_last(), item);
        if items.last() == item {
            rest
        } else {
            rest.push(items.last())
        }
    }
}

/// The file name to suggest for a figure of a title.
pub fn suggested_name(title: &str, format: ExportFormat) -> (r: String)
    ensures
        r@ == file_name_spec(title@) + "."@ + format.extension_spec(),
{
    let mut out = sanitize_file_name(title);
    out.append(".");
    out.append(format.extension());
    out
}

/// A window in words: when it starts and ends, and how long it is.
pub open spec fn range_spec(range: (i64, i64)) -> Seq<char> {
    utc_label_spec(
        utc_text(whole_seconds(range.0 as int), "%Y-%m-%d %H:%M:%S"@),
        range.0 as int,
    ) + "  to  "@ + utc_label_spec(
        utc_text(whole_seconds(range.1 as int), "%Y-%m-%d %H:%M:%S"@),
        range.1 as int,
    ) + "   ("@ + duration_spec(range.1 - range.0) + ")"@
}

/// A window in words, or that it is empty.
pub fn range_note(range: (i64, i64)) -> (r: Result<String, &'static str>)
    requires
        range.1 - range.0 <= i64::MAX,
    ensures
        match r {
            Ok(text) => range.0 < range.1 && text@ == range_spec(range),
            Err(warning) => range.0 >= range.1 && warning@ == "⚠ that range is empty"@,
        },
{
    if !is_drawable_range(range) {
        return Err("⚠ that range is empty");
    }
    let mut out = format_utc(range.0);
    out.append("  to  ");
    out.append(format_utc(range.1).as_str());
    out.append("   (");
    out.append(format_duration(range.1 - range.0).as_str());
    out.append(")");
    Ok(out)
}

/// Widest the preview is rendered, in hundredths of a point: big enough to read the tick labels,
/// small enough to render again on every change of a setting.
pub const PREVIEW_WIDTH: u32 = 42_000;

/// And a ceiling on its height, for a stack of many graphs.
pub const PREVIEW_MAX_HEIGHT: u32 = 50_000;

/// A length, or a unit where it is shorter.
pub open spec fn at_least_a_unit(length: u32) -> u32 {
    if length < 100 {
        100
    } else {
        length
    }
}

/// How much smaller than the figure its preview is, as a quotient: as large as its limits let
/// it be.
pub fn preview_scale(size: (u32, u32)) -> (r: (u32, u32))
    ensures
        r.1 > 0,
        ({
            let (w, h) = (at_least_a_unit(size.0), at_least_a_unit(size.1));
            r == if PREVIEW_WIDTH * h <= PREVIEW_MAX_HEIGHT * w {
                (PREVIEW_WIDTH, w)
            } else {
                (PREVIEW_MAX_HEIGHT, h)
            }
        }),
        size.0 * r.0 <= PREVIEW_WIDTH * r.1,
        size.1 * r.0 <= PREVIEW_MAX_HEIGHT * r.1,
{
    let w: u32 = if size.0 < 100 {
        100
    } else {
        size.0
    };
    let h: u32 = if size.1 < 100 {
        100
    } else {
        size.1
    };
    if PREVIEW_WIDTH as u64 * h as u64 <= PREVIEW_MAX_HEIGHT as u64 * w as u64 {
        (PREVIEW_WIDTH, w)
    } else {
        (PREVIEW_MAX_HEIGHT, h)
    }
}

} // verus!
