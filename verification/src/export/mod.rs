//! Exporting a graph as a picture, for putting in a written report.
//!
//! What comes out is deliberately *not* a screenshot: the same series the panes draw are laid
//! out again into a figure the user gives a physical size, a resolution and a time window.
//!
//! Lengths are whole numbers here: hundredths of a millimetre, of a point, of a dot per inch and
//! of a figure unit. A figure unit is a CSS pixel, 96 to the inch, which is what an SVG `viewBox`
//! is measured in; two decimals of one are as fine as anything that is written out.
use vstd::prelude::*;

use crate::colors::Rgb;
use crate::export::drawing::Style;
use crate::panes::{PlotId, Plots};
use crate::tank::{share_stem, TankId, Tanks};
use crate::text::{chars_of, dec, push_dec, text_of};
use crate::timeline::Timeline;

pub mod dialog;
pub mod drawing;
pub mod figure;
pub mod laws;
pub mod page;
pub mod png;
pub mod preview;
pub mod svg;
pub mod svg_laws;
pub mod value_axis;

verus! {

broadcast use vstd::seq_lib::group_seq_properties;

/// The nearest whole number to a quotient, of two equally near the greater.
pub open spec fn rounded(n: int, d: int) -> int {
    (2 * n + d) / (2 * d)
}

/// A length on the page, in hundredths of a millimetre, as hundredths of a figure unit.
pub open spec fn units_of_mm(mm: int) -> int {
    rounded(mm * 480, 127)
}

/// A length on the page, in hundredths of a millimetre, as hundredths of a figure unit.
pub fn mm_to_units(mm: u32) -> (r: u64)
    ensures
        r == units_of_mm(mm as int),
{
    (2 * (mm as u64 * 480) + 127) / 254
}

/// A type size in hundredths of a point, as hundredths of a figure unit.
pub open spec fn units_of_points(pt: int) -> int {
    rounded(pt * 4, 3)
}

/// A type size in hundredths of a point, as hundredths of a figure unit.
pub fn points_to_units(pt: u32) -> (r: u64)
    ensures
        r == units_of_points(pt as int),
        r <= 0x2_0000_0000,
{
    (2 * (pt as u64 * 4) + 3) / 6
}

/// A length in hundredths of a millimetre, at hundredths of a dot per inch, in whole pixels: at
/// least one.
pub open spec fn pixels_of_mm(mm: int, dpi: int) -> int {
    let n = rounded(mm * dpi, 254_000);
    if n < 1 {
        1
    } else if n > u32::MAX {
        u32::MAX as int
    } else {
        n
    }
}

/// A length in pixels.
pub fn mm_to_pixels(mm: u128, dpi: u32) -> (r: u32)
    requires
        mm <= 0xFFFF_FFFF * 0xFFFF_FFFF_FFFF_FFFF,
    ensures
        r == pixels_of_mm(mm as int, dpi as int),
{
    if mm == 0 {
        assert(mm * dpi == 0);
        return 1;
    }
    // Far past what a picture can hold, so the rest need not be multiplied out.
    if mm > 0xFFFF_FFFF_FFFF_FFFF && dpi > 0 {
        proof {
            assert(mm * dpi >= 0x1_0000_0000_0000_0000) by (nonlinear_arith)
                requires
                    mm >= 0x1_0000_0000_0000_0000,
                    dpi >= 1,
            ;
            let n = mm * dpi;
            assert(rounded(n, 254_000) == (2 * n + 254_000) / 508_000);
        }
        return u32::MAX;
    }
    if dpi == 0 {
        assert(mm * dpi == 0) by (nonlinear_arith)
            requires
                dpi == 0,
        ;
        return 1;
    }
    proof {
        assert(mm * dpi <= 0xFFFF_FFFF_FFFF_FFFF * 0xFFFF_FFFF) by (nonlinear_arith)
            requires
                0 <= mm <= 0xFFFF_FFFF_FFFF_FFFF,
                0 <= dpi <= 0xFFFF_FFFF,
        ;
    }
    let n: u128 = (2 * (mm * dpi as u128) + 254_000) / 508_000;
    if n < 1 {
        1
    } else if n > u32::MAX as u128 {
        u32::MAX
    } else {
        n as u32
    }
}

/// A pane the exporter can put in a figure. Graphs and tank panes both draw against the master
/// timeline, which is what makes them stackable in one figure.
#[derive(Clone, Copy, PartialEq, Eq, Structural, Hash, Debug)]
pub enum ExportItem {
    Plot(PlotId),
    Tank(TankId),
}

impl ExportItem {
    /// What to call it in the picker and on the panel.
    pub fn title(self, plots: &Plots, tanks: &Tanks) -> (r: String)
        ensures
            match self {
                ExportItem::Plot(id) => r@ == match plots.find_spec(id) {
                    Some(i) => plots.list@[i].title_spec(),
                    None => "plot"@,
                },
                ExportItem::Tank(id) => match tanks.find_spec(id) {
                    Some(i) => {
                        let sensors = tanks.list@[i].sensors@;
                        &&& forall|stem: Seq<char>| #[trigger]
                            share_stem(sensors, stem) ==> r@ == "Tank · "@
                                + crate::tank::without_marks(stem)
                        &&& (forall|stem: Seq<char>| !#[trigger] share_stem(sensors, stem)) ==> r@
                            == "Tank level"@
                    },
                    None => r@ == "tank"@,
                },
            },
    {
        match self {
            ExportItem::Plot(id) => match plots.get(id) {
                Some(plot) => plot.title(),
                None => "plot".to_owned(),
            },
            ExportItem::Tank(id) => match tanks.get(id) {
                Some(tank) => tank.title(),
                None => "tank".to_owned(),
            },
        }
    }
}

/// Whether a time window is one anything can be drawn in.
pub fn is_drawable_range(range: (i64, i64)) -> (r: bool)
    ensures
        r == (range.0 < range.1),
{
    range.0 < range.1
}

#[derive(Clone, Copy, PartialEq, Eq, Structural, Debug)]
pub enum ExportFormat {
    Svg,
    Png,
}

impl ExportFormat {
    pub open spec fn extension_spec(self) -> Seq<char> {
        match self {
            ExportFormat::Svg => "svg"@,
            ExportFormat::Png => "png"@,
        }
    }

    pub fn extension(self) -> (r: &'static str)
        ensures
            r@ == self.extension_spec(),
    {
        match self {
            ExportFormat::Svg => "svg",
            ExportFormat::Png => "png",
        }
    }

    pub fn label(self) -> (r: &'static str)
        ensures
            r@ == match self {
                ExportFormat::Svg => "SVG (vector)"@,
                ExportFormat::Png => "PNG (bitmap)"@,
            },
    {
        match self {
            ExportFormat::Svg => "SVG (vector)",
            ExportFormat::Png => "PNG (bitmap)",
        }
    }
}

/// Which stretch of the timeline the figure covers.
#[derive(Clone, Copy, PartialEq, Eq, Structural, Debug)]
pub enum RangeMode {
    /// Whatever the graphs are showing right now.
    View,
    /// Everything that is loaded.
    All,
    /// A window typed in by hand, as time from the start of the data.
    Custom,
}

#[derive(Clone, Copy, PartialEq, Eq, Structural, Debug)]
pub enum ExportTheme {
    Light,
    Dark,
}

#[derive(Clone, Copy, PartialEq, Eq, Structural, Debug)]
pub enum LegendPos {
    Off,
    TopLeft,
    TopRight,
    Below,
}

impl LegendPos {
    pub fn label(self) -> (r: &'static str)
        ensures
            r@ == match self {
                LegendPos::Off => "off"@,
                LegendPos::TopLeft => "top left"@,
                LegendPos::TopRight => "top right"@,
                LegendPos::Below => "below the graph"@,
            },
    {
        match self {
            LegendPos::Off => "off",
            LegendPos::TopLeft => "top left",
            LegendPos::TopRight => "top right",
            LegendPos::Below => "below the graph",
        }
    }
}

/// Everything the export dialog asks about.
#[derive(Clone, Copy, PartialEq, Eq, Structural, Debug)]
pub struct ExportSettings {
    pub format: ExportFormat,
    /// Figure width on the page.
    pub width_mm: u32,
    /// Height of *one* graph; a figure with three stacked is three times this.
    pub height_mm: u32,
    /// Pixels per inch. Sets the size of a PNG, and is written into it so a word processor
    /// places it at its width rather than at its own guess.
    pub dpi: u32,
    pub padding_mm: u32,
    pub font_pt: u32,
    pub line_width_pt: u32,
    pub theme: ExportTheme,
    pub transparent: bool,
    pub grid: bool,
    pub legend: LegendPos,
    pub titles: bool,
    pub cursor: bool,
    /// Ignore the value range a box zoom pinned, and fit the axes to what the exported window
    /// actually holds.
    pub auto_fit_y: bool,
    /// One file per graph instead of one figure with the graphs stacked.
    pub separate_files: bool,
    pub range: RangeMode,
    /// Microseconds from the start of the data, for a custom range.
    pub custom_from: i64,
    pub custom_to: i64,
}

/// The settings an export starts with.
pub open spec fn starting_settings() -> ExportSettings {
    ExportSettings {
        format: ExportFormat::Svg,
        width_mm: 16_000,
        height_mm: 9_000,
        dpi: 30_000,
        padding_mm: 300,
        font_pt: 900,
        line_width_pt: 100,
        theme: ExportTheme::Light,
        transparent: false,
        grid: true,
        legend: LegendPos::TopLeft,
        titles: true,
        cursor: false,
        auto_fit_y: false,
        separate_files: false,
        range: RangeMode::View,
        custom_from: 0,
        custom_to: 0,
    }
}

impl Default for ExportSettings {
    /// Vector by default, since it is the one that survives being printed; the width of a text
    /// column on A4 with 25 mm margins; and light, since a report is printed on white paper.
    fn default() -> (r: Self)
        ensures
            r == starting_settings(),
    {
        ExportSettings {
            format: ExportFormat::Svg,
            width_mm: 16_000,
            height_mm: 9_000,
            dpi: 30_000,
            padding_mm: 300,
            font_pt: 900,
            line_width_pt: 100,
            theme: ExportTheme::Light,
            transparent: false,
            grid: true,
            legend: LegendPos::TopLeft,
            titles: true,
            cursor: false,
            auto_fit_y: false,
            separate_files: false,
            range: RangeMode::View,
            custom_from: 0,
            custom_to: 0,
        }
    }
}

/// The colours of a figure; none where nothing is painted.
#[derive(Clone, Copy, PartialEq, Eq, Structural, Debug)]
pub struct Palette {
    pub bg: Option<Rgb>,
    pub plot_bg: Option<Rgb>,
    /// Inside the tank, where nothing was measured. Distinct from the page, or a dropout would
    /// look like a hole in the *vessel* rather than in the data.
    pub hole: Option<Rgb>,
    pub frame: Rgb,
    pub grid: Rgb,
    pub text: Rgb,
    pub weak_text: Rgb,
    pub cursor: Rgb,
}

/// A shade of grey.
pub open spec fn gray_spec(v: u8) -> Rgb {
    Rgb { r: v, g: v, b: v }
}

fn gray(v: u8) -> (c: Rgb)
    ensures
        c == gray_spec(v),
{
    Rgb { r: v, g: v, b: v }
}

impl Palette {
    /// The default, and the one a report wants: black on white.
    pub open spec fn light_spec() -> Palette {
        Palette {
            bg: Some(gray_spec(0xFF)),
            plot_bg: Some(gray_spec(0xFF)),
            hole: Some(gray_spec(0xEE)),
            frame: gray_spec(0x55),
            grid: gray_spec(0xDD),
            text: gray_spec(0x20),
            weak_text: gray_spec(0x60),
            cursor: Rgb { r: 0xFF, g: 0x5C, b: 0x3D },
        }
    }

    /// The default, and the one a report wants: black on white.
    pub fn light() -> (r: Palette)
        ensures
            r == Self::light_spec(),
    {
        Palette {
            bg: Some(gray(0xFF)),
            plot_bg: Some(gray(0xFF)),
            hole: Some(gray(0xEE)),
            frame: gray(0x55),
            grid: gray(0xDD),
            text: gray(0x20),
            weak_text: gray(0x60),
            cursor: Rgb { r: 0xFF, g: 0x5C, b: 0x3D },
        }
    }

    /// For a slide, or a report that is read on a screen.
    pub open spec fn dark_spec() -> Palette {
        Palette {
            bg: Some(gray_spec(0x1B)),
            plot_bg: Some(gray_spec(0x11)),
            hole: Some(gray_spec(0x0A)),
            frame: gray_spec(0x77),
            grid: gray_spec(0x33),
            text: gray_spec(0xEE),
            weak_text: gray_spec(0xAA),
            cursor: Rgb { r: 0xFF, g: 0x5C, b: 0x3D },
        }
    }

    /// For a slide, or a report that is read on a screen.
    pub fn dark() -> (r: Palette)
        ensures
            r == Self::dark_spec(),
    {
        Palette {
            bg: Some(gray(0x1B)),
            plot_bg: Some(gray(0x11)),
            hole: Some(gray(0x0A)),
            frame: gray(0x77),
            grid: gray(0x33),
            text: gray(0xEE),
            weak_text: gray(0xAA),
            cursor: Rgb { r: 0xFF, g: 0x5C, b: 0x3D },
        }
    }

    /// Same colours, but with nothing painted behind the graph.
    pub fn transparent(self) -> (r: Palette)
        ensures
            r == (Palette { bg: None, plot_bg: None, hole: None, ..self }),
    {
        Palette { bg: None, plot_bg: None, hole: None, ..self }
    }
}

impl ExportSettings {
    /// How many graphs tall a figure is: an empty one is as tall as one graph.
    pub open spec fn rows(panels: usize) -> int {
        if panels == 0 {
            1
        } else {
            panels as int
        }
    }

    /// The figure's size on the page, in hundredths of a millimetre, for stacked graphs.
    pub fn size_mm(&self, panels: usize) -> (r: (u128, u128))
        ensures
            r.0 == self.width_mm,
            r.1 == self.height_mm * Self::rows(panels),
            r.0 <= 0xFFFF_FFFF * 0xFFFF_FFFF_FFFF_FFFF,
            r.1 <= 0xFFFF_FFFF * 0xFFFF_FFFF_FFFF_FFFF,
    {
        let rows: u128 = if panels == 0 {
            1
        } else {
            panels as u128
        };
        proof {
            let h = self.height_mm;
            assert(h * rows <= 0xFFFF_FFFF * 0xFFFF_FFFF_FFFF_FFFF) by (nonlinear_arith)
                requires
                    0 <= h <= 0xFFFF_FFFF,
                    0 <= rows <= 0xFFFF_FFFF_FFFF_FFFF,
            ;
        }
        (self.width_mm as u128, self.height_mm as u128 * rows)
    }

    /// The figure's size in hundredths of a figure unit.
    pub fn size_units(&self, panels: usize) -> (r: (u64, u128))
        ensures
            r.0 == units_of_mm(self.width_mm as int),
            r.1 == units_of_mm(self.height_mm as int) * Self::rows(panels),
    {
        let rows: u128 = if panels == 0 {
            1
        } else {
            panels as u128
        };
        let h = mm_to_units(self.height_mm);
        proof {
            assert(h == (2 * (self.height_mm * 480) + 127) / 254);
            assert(h * rows <= 0x4_0000_0000 * 0xFFFF_FFFF_FFFF_FFFF) by (nonlinear_arith)
                requires
                    0 <= h <= 0x4_0000_0000,
                    0 <= rows <= 0xFFFF_FFFF_FFFF_FFFF,
            ;
        }
        (mm_to_units(self.width_mm), h as u128 * rows)
    }

    /// The PNG's pixel dimensions.
    pub fn size_pixels(&self, panels: usize) -> (r: (u32, u32))
        ensures
            r.0 == pixels_of_mm(self.width_mm as int, self.dpi as int),
            r.1 == pixels_of_mm(self.height_mm * Self::rows(panels), self.dpi as int),
    {
        let (w, h) = self.size_mm(panels);
        (mm_to_pixels(w, self.dpi), mm_to_pixels(h, self.dpi))
    }

    /// The colours of the chosen theme.
    pub open spec fn palette_spec(self) -> Palette {
        let palette = match self.theme {
            ExportTheme::Light => Palette::light_spec(),
            ExportTheme::Dark => Palette::dark_spec(),
        };
        if self.transparent {
            Palette { bg: None, plot_bg: None, hole: None, ..palette }
        } else {
            palette
        }
    }

    /// How a figure is drawn.
    pub fn style(&self) -> (r: Style)
        ensures
            r.wf(),
            r.palette == self.palette_spec(),
            r.font == units_of_points(self.font_pt as int),
            r.line_width == units_of_points(self.line_width_pt as int),
            r.padding == units_of_mm(self.padding_mm as int),
            r.grid == self.grid,
            r.legend == self.legend,
            r.titles == self.titles,
            r.cursor == self.cursor,
    {
        let palette = match self.theme {
            ExportTheme::Light => Palette::light(),
            ExportTheme::Dark => Palette::dark(),
        };
        Style {
            palette: if self.transparent {
                palette.transparent()
            } else {
                palette
            },
            font: points_to_units(self.font_pt),
            line_width: points_to_units(self.line_width_pt),
            padding: mm_to_units(self.padding_mm),
            grid: self.grid,
            legend: self.legend,
            titles: self.titles,
            cursor: self.cursor,
        }
    }

    /// The window to export, resolved against the timeline and the data.
    pub open spec fn range_spec(self, timeline: Timeline, bounds: Option<(i64, i64)>) -> (
        int,
        int,
    ) {
        let view = (timeline.view_start as int, timeline.view_end as int);
        match self.range {
            RangeMode::View => view,
            RangeMode::All => match bounds {
                Some((lo, hi)) => (lo as int, hi as int),
                None => view,
            },
            RangeMode::Custom => {
                let start = match bounds {
                    Some((lo, _)) => lo as int,
                    None => 0,
                };
                (start + self.custom_from, start + self.custom_to)
            },
        }
    }

    /// The window to export, or none where it leaves what an instant can hold.
    pub fn resolve_range(&self, timeline: &Timeline, bounds: Option<(i64, i64)>) -> (r: Option<
        (i64, i64),
    >)
        ensures
            match r {
                Some((a, b)) => self.range_spec(*timeline, bounds) == (a as int, b as int),
                None => {
                    let (a, b) = self.range_spec(*timeline, bounds);
                    !(i64::MIN <= a <= i64::MAX && i64::MIN <= b <= i64::MAX)
                },
            },
    {
        let view = (timeline.view_start, timeline.view_end);
        match self.range {
            RangeMode::View => Some(view),
            RangeMode::All => match bounds {
                Some(all) => Some(all),
                None => Some(view),
            },
            RangeMode::Custom => {
                let start: i64 = match bounds {
                    Some((lo, _)) => lo,
                    None => 0,
                };
                match (start.checked_add(self.custom_from), start.checked_add(self.custom_to)) {
                    (Some(a), Some(b)) => Some((a, b)),
                    _ => None,
                }
            },
        }
    }

    /// Fills in the custom range from what is on screen, measured from the start of the data.
    /// Nothing changes where the view is too far from that start to be written down.
    pub fn use_view(&mut self, timeline: &Timeline, bounds: Option<(i64, i64)>)
        ensures
            ({
                let start = match bounds {
                    Some((lo, _)) => lo as int,
                    None => 0,
                };
                let from = timeline.view_start - start;
                let to = timeline.view_end - start;
                *final(self) == if i64::MIN <= from <= i64::MAX && i64::MIN <= to <= i64::MAX {
                    ExportSettings {
                        custom_from: from as i64,
                        custom_to: to as i64,
                        ..*old(self)
                    }
                } else {
                    *old(self)
                }
            }),
    {
        let start: i64 = match bounds {
            Some((lo, _)) => lo,
            None => 0,
        };
        match (timeline.view_start.checked_sub(start), timeline.view_end.checked_sub(start)) {
            (Some(from), Some(to)) => {
                self.custom_from = from;
                self.custom_to = to;
            },
            _ => {},
        }
    }
}

/// The custom range filled in from the view is the view.
pub proof fn a_range_taken_from_the_view_is_the_view(
    settings: ExportSettings,
    timeline: Timeline,
    bounds: Option<(i64, i64)>,
)
    requires
        ({
            let start = match bounds {
                Some((lo, _)) => lo as int,
                None => 0,
            };
            &&& settings.custom_from == timeline.view_start - start
            &&& settings.custom_to == timeline.view_end - start
        }),
        settings.range == RangeMode::Custom,
    ensures
        settings.range_spec(timeline, bounds) == (timeline.view_start as int, timeline.view_end as int),
{
}

/// Why nothing is exported.
#[derive(Clone, Copy, PartialEq, Eq, Structural, Debug)]
pub enum ExportError {
    NoGraphs,
    EmptyRange,
}

impl ExportError {
    pub fn message(self) -> (r: &'static str)
        ensures
            r@ == match self {
                ExportError::NoGraphs => "no graphs selected"@,
                ExportError::EmptyRange => "the exported time range is empty"@,
            },
    {
        match self {
            ExportError::NoGraphs => "no graphs selected",
            ExportError::EmptyRange => "the exported time range is empty",
        }
    }
}

/// One file to write: the panes in it, and its number where there are several.
pub struct Batch {
    pub ids: Vec<ExportItem>,
    pub number: Option<usize>,
}

/// What an export writes: every selected graph, either as one stacked figure or as a file each,
/// numbered from one.
pub fn export(ids: &Vec<ExportItem>, range: (i64, i64), settings: &ExportSettings) -> (r: Result<
    Vec<Batch>,
    ExportError,
>)
    ensures
        match r {
            Err(ExportError::NoGraphs) => ids@.len() == 0,
            Err(ExportError::EmptyRange) => ids@.len() > 0 && range.0 >= range.1,
            Ok(batches) => ids@.len() > 0 && range.0 < range.1 && if !settings.separate_files
                || ids@.len() == 1 {
                batches@.len() == 1 && batches@[0].ids@ == ids@ && batches@[0].number is None
            } else {
                batches@.len() == ids@.len() && forall|i: int|
                    0 <= i < ids@.len() ==> (#[trigger] batches@[i]).ids@ == seq![ids@[i]]
                        && batches@[i].number == Some((i + 1) as usize)
            },
        },
{
    if ids.len() == 0 {
        return Err(ExportError::NoGraphs);
    }
    if !is_drawable_range(range) {
        return Err(ExportError::EmptyRange);
    }
    let mut out: Vec<Batch> = Vec::new();
    if !settings.separate_files || ids.len() == 1 {
        let mut all: Vec<ExportItem> = Vec::new();
        let mut i: usize = 0;
        while i < ids.len()
            invariant
                i <= ids@.len(),
                all@ == ids@.take(i as int),
            decreases ids@.len() - i,
        {
            all.push(ids[i]);
            i += 1;
        }
        assert(all@ =~= ids@);
        out.push(Batch { ids: all, number: None });
        return Ok(out);
    }
    let mut i: usize = 0;
    while i < ids.len()
        invariant
            i <= ids@.len(),
            out@.len() == i,
            forall|k: int|
                0 <= k < i ==> (#[trigger] out@[k]).ids@ == seq![ids@[k]] && out@[k].number == Some(
                    (k + 1) as usize,
                ),
        decreases ids@.len() - i,
    {
        let mut one: Vec<ExportItem> = Vec::new();
        one.push(ids[i]);
        assert(one@ =~= seq![ids@[i as int]]);
        out.push(Batch { ids: one, number: Some(i + 1) });
        i += 1;
    }
    Ok(out)
}

/// The name of the `n`th file of several: `plots` becomes `plots-2.svg`.
pub fn numbered(stem: Option<&str>, n: usize, format: ExportFormat) -> (r: String)
    ensures
        r@ == match stem {
            Some(s) => s@,
            None => "figure"@,
        } + "-"@ + dec(n as nat) + "."@ + format.extension_spec(),
{
    let mut out = match stem {
        Some(s) => s.to_owned(),
        None => "figure".to_owned(),
    };
    out.append("-");
    push_dec(&mut out, n as u64);
    out.append(".");
    out.append(format.extension());
    out
}

/// What a character of a title becomes in a file name.
pub open spec fn file_char(c: char) -> char {
    if ('a' <= c <= 'z') || ('A' <= c <= 'Z') || ('0' <= c <= '9') || c == '-' || c == '_' || c
        == '.' {
        c
    } else {
        '_'
    }
}

/// A text with every character that a file name cannot hold replaced, and no two underscores in
/// a row.
pub open spec fn squeezed(s: Seq<char>) -> Seq<char>
    decreases s.len(),
{
    if s.len() == 0 {
        Seq::empty()
    } else {
        let rest = squeezed(s.drop_last());
        let c = file_char(s.last());
        if c == '_' && rest.len() > 0 && rest.last() == '_' {
            rest
        } else {
            rest.push(c)
        }
    }
}

/// Whether a file name may not start or end with a character.
pub open spec fn is_edge(c: char) -> bool {
    c == '_' || c == '.'
}

/// How many characters at the start are edges.
pub open spec fn edge_start(s: Seq<char>, from: int) -> int
    decreases s.len() - from,
{
    if 0 <= from < s.len() && is_edge(s[from]) {
        edge_start(s, from + 1)
    } else {
        from
    }
}

/// How many characters there are before those at the end that are edges, down to `from`.
pub open spec fn edge_end(s: Seq<char>, from: int, to: int) -> int
    decreases to - from,
{
    if from < to && is_edge(s[to - 1]) {
        edge_end(s, from, to - 1)
    } else {
        to
    }
}

/// A file name from a title.
pub open spec fn file_name_spec(title: Seq<char>) -> Seq<char> {
    let s = squeezed(title);
    let from = edge_start(s, 0);
    let to = edge_end(s, from, s.len() as int);
    if from >= to {
        "figure"@
    } else if to - from > 60 {
        s.subrange(from, from + 60)
    } else {
        s.subrange(from, to)
    }
}

fn file_char_of(c: char) -> (r: char)
    ensures
        r == file_char(c),
{
    if ('a' <= c && c <= 'z') || ('A' <= c && c <= 'Z') || ('0' <= c && c <= '9') || c == '-' || c
        == '_' || c == '.' {
        c
    } else {
        '_'
    }
}

/// A file name from a graph's title, which is a series name and so can hold anything a MAVLink
/// field can.
pub fn sanitize_file_name(title: &str) -> (r: String)
    ensures
        r@ == file_name_spec(title@),
{
    let chars = chars_of(title);
    let mut s: Vec<char> = Vec::new();
    let mut i: usize = 0;
    assert(chars@.take(0) =~= Seq::<char>::empty());
    while i < chars.len()
        invariant
            i <= chars@.len(),
            s@ == squeezed(chars@.take(i as int)),
        decreases chars@.len() - i,
    {
        assert(chars@.take(i + 1).drop_last() =~= chars@.take(i as int));
        let c = file_char_of(chars[i]);
        if !(c == '_' && s.len() > 0 && s[s.len() - 1] == '_') {
            s.push(c);
        }
        i += 1;
    }
    assert(chars@.take(chars@.len() as int) =~= title@);
    let mut from: usize = 0;
    while from < s.len() && (s[from] == '_' || s[from] == '.')
        invariant
            from <= s@.len(),
            edge_start(s@, 0) == edge_start(s@, from as int),
        decreases s@.len() - from,
    {
        from += 1;
    }
    let mut to: usize = s.len();
    while to > from && (s[to - 1] == '_' || s[to - 1] == '.')
        invariant
            from <= to <= s@.len(),
            edge_end(s@, from as int, s@.len() as int) == edge_end(s@, from as int, to as int),
        decreases to,
    {
        to -= 1;
    }
    if from >= to {
        return "figure".to_owned();
    }
    if to - from > 60 {
        text_of(&s, from, from + 60)
    } else {
        text_of(&s, from, to)
    }
}

proof fn lemma_squeezed(s: Seq<char>)
    ensures
        forall|i: int| 0 <= i < squeezed(s).len() ==> file_char(#[trigger] squeezed(s)[i]) == squeezed(s)[i],
        forall|i: int, j: int|
            0 <= i && j == i + 1 && j < squeezed(s).len() ==> !(#[trigger] squeezed(s)[i] == '_'
                && #[trigger] squeezed(s)[j] == '_'),
    decreases s.len(),
{
    if s.len() > 0 {
        lemma_squeezed(s.drop_last());
        let rest = squeezed(s.drop_last());
        assert forall|i: int, j: int| 0 <= i && j == i + 1 && j < squeezed(s).len() implies !(
        #[trigger] squeezed(s)[i] == '_' && #[trigger] squeezed(s)[j] == '_') by {
            if j < rest.len() {
                assert(rest[i] == squeezed(s)[i] && rest[j] == squeezed(s)[j]);
            } else if squeezed(s).len() > rest.len() {
                assert(squeezed(s)[i] == rest.last());
            } else {
                assert(squeezed(s) == rest);
            }
        }
    }
}

proof fn lemma_edges(s: Seq<char>, from: int, to: int)
    requires
        0 <= from <= to <= s.len(),
    ensures
        from <= edge_end(s, from, to) <= to,
        from < edge_end(s, from, to) ==> !is_edge(s[edge_end(s, from, to) - 1]),
    decreases to - from,
{
    if from < to && is_edge(s[to - 1]) {
        lemma_edges(s, from, to - 1);
    }
}

proof fn lemma_edge_start(s: Seq<char>, from: int)
    requires
        0 <= from <= s.len(),
    ensures
        from <= edge_start(s, from) <= s.len(),
        edge_start(s, from) < s.len() ==> !is_edge(s[edge_start(s, from)]),
    decreases s.len() - from,
{
    if from < s.len() && is_edge(s[from]) {
        lemma_edge_start(s, from + 1);
    }
}

/// A file name survives any title: it is never empty, never over long, holds nothing that a
/// path could be made of, and does not start with a dot.
pub proof fn a_file_name_is_always_safe(title: Seq<char>)
    ensures
        0 < file_name_spec(title).len() <= 60,
        forall|i: int|
            0 <= i < file_name_spec(title).len() ==> file_char(#[trigger] file_name_spec(title)[i])
                == file_name_spec(title)[i],
        !is_edge(file_name_spec(title)[0]),
{
    reveal_strlit("figure");
    let s = squeezed(title);
    lemma_squeezed(title);
    lemma_edge_start(s, 0);
    let from = edge_start(s, 0);
    lemma_edges(s, from, s.len() as int);
    let to = edge_end(s, from, s.len() as int);
    if from < to {
        let r = file_name_spec(title);
        assert(r[0] == s[from]);
        assert forall|i: int| 0 <= i < r.len() implies file_char(#[trigger] r[i]) == r[i] by {
            assert(r[i] == s[from + i]);
        }
    }
}

} // verus!
