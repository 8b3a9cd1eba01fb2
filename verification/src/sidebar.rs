//! The source browser: how a log's series are grouped, and what its rows say.
use vstd::prelude::*;

use crate::model::{AudioSource, SourceId, VideoSource};
use crate::panes::{has_series, PlotSpec, Plots};
use crate::series::TimeSeries;
use crate::text::{
    chars_of, contains, dec, has_prefix, holds, last_of, lowercase, lowercased, opt_view, push_dec,
    push_quotient, quotient, rfind_char, same, text_of,
};

verus! {

broadcast use vstd::seq_lib::group_seq_properties;

/// The message that a series is a field of: what stands before its last dot.
pub open spec fn group_spec(name: Seq<char>) -> Option<Seq<char>> {
    let dot = last_of(name, '.');
    if 0 <= dot < name.len() {
        Some(name.take(dot))
    } else {
        None
    }
}

/// `PRESSURE_VESSEL[1].pressure1` is a field of `PRESSURE_VESSEL[1]`.
pub fn group_of(name: &str) -> (r: Option<String>)
    ensures
        opt_view(r) == group_spec(name@),
{
    let chars = chars_of(name);
    match rfind_char(&chars, '.') {
        Some(dot) => {
            let group = text_of(&chars, 0, dot);
            assert(group@ =~= name@.take(dot as int));
            Some(group)
        },
        None => None,
    }
}

/// Whether a series passes the filter, which is in lower case.
pub open spec fn matches_filter(name: Seq<char>, filter: Seq<char>) -> bool {
    filter.len() == 0 || holds(lowercased(name), filter)
}

/// The places of the first `n` series that pass the filter.
pub open spec fn matching_spec(series: Seq<TimeSeries>, filter: Seq<char>, n: nat) -> Seq<usize>
    decreases n,
{
    if n == 0 {
        Seq::empty()
    } else {
        let rest = matching_spec(series, filter, (n - 1) as nat);
        if matches_filter(series[n - 1].name@, filter) {
            rest.push((n - 1) as usize)
        } else {
            rest
        }
    }
}

/// The places of the series that pass the filter.
pub fn matching(series: &Vec<TimeSeries>, filter: &str) -> (r: Vec<usize>)
    ensures
        r@ == matching_spec(series@, filter@, series@.len()),
        forall|i: int| 0 <= i < r@.len() ==> (#[trigger] r@[i]) < series@.len(),
{
    let mut out: Vec<usize> = Vec::new();
    let mut n: usize = 0;
    while n < series.len()
        invariant
            n <= series@.len(),
            out@ == matching_spec(series@, filter@, n as nat),
            forall|i: int| 0 <= i < out@.len() ==> (#[trigger] out@[i]) < n,
        decreases series@.len() - n,
    {
        let keep = filter.is_empty() || {
            let low = lowercase(series[n].name.as_str());
            contains(low.as_str(), filter)
        };
        if keep {
            out.push(n);
        }
        n += 1;
    }
    out
}

/// A run of listed series that are fields of one message: the first, and one past the last.
pub struct Group {
    /// None for series without a message, which have nothing to group by.
    pub name: Option<String>,
    pub from: usize,
    pub to: usize,
}

/// The message of a listed series.
pub open spec fn group_at(series: Seq<TimeSeries>, rows: Seq<usize>, i: int) -> Option<Seq<char>> {
    group_spec(series[rows[i] as int].name@)
}

/// Whether groups are the runs of listed series of one message: all of the list, in order, each
/// as far as it goes.
pub open spec fn are_groups(
    series: Seq<TimeSeries>,
    rows: Seq<usize>,
    groups: Seq<Group>,
) -> bool {
    &&& rows.len() == 0 <==> groups.len() == 0
    &&& groups.len() > 0 ==> groups[0].from == 0 && groups.last().to == rows.len()
    &&& forall|g: int|
        0 <= g < groups.len() ==> (#[trigger] groups[g]).from < groups[g].to <= rows.len()
    &&& forall|g: int, h: int|
        0 <= g && h == g + 1 && h < groups.len() ==> (#[trigger] groups[g]).to == (
        #[trigger] groups[h]).from && opt_view(groups[g].name) != opt_view(groups[h].name)
    &&& forall|g: int, i: int|
        0 <= g < groups.len() && (#[trigger] groups[g]).from <= i < groups[g].to
            ==> #[trigger] group_at(series, rows, i) == opt_view(groups[g].name)
}

fn same_group(a: &Option<String>, b: &Option<String>) -> (r: bool)
    ensures
        r == (opt_view(*a) == opt_view(*b)),
{
    match (a, b) {
        (Some(x), Some(y)) => same(x.as_str(), y.as_str()),
        (None, None) => true,
        _ => false,
    }
}

/// Groups a list by message. A log's list is sorted by name, so each message's fields are
/// already one run: it takes no more than a look at where the message changes.
pub fn groups(series: &Vec<TimeSeries>, rows: &Vec<usize>) -> (r: Vec<Group>)
    requires
        forall|i: int| 0 <= i < rows@.len() ==> (#[trigger] rows@[i]) < series@.len(),
    ensures
        are_groups(series@, rows@, r@),
{
    let mut out: Vec<Group> = Vec::new();
    let mut i: usize = 0;
    while i < rows.len()
        invariant
            i <= rows@.len(),
            forall|k: int| 0 <= k < rows@.len() ==> (#[trigger] rows@[k]) < series@.len(),
            i == 0 <==> out@.len() == 0,
            out@.len() > 0 ==> out@[0].from == 0 && out@.last().to == i,
            i > 0 && i < rows@.len() ==> group_at(series@, rows@, i as int) != opt_view(
                out@.last().name,
            ),
            forall|g: int|
                0 <= g < out@.len() ==> (#[trigger] out@[g]).from < out@[g].to <= rows@.len(),
            forall|g: int, h: int|
                0 <= g && h == g + 1 && h < out@.len() ==> (#[trigger] out@[g]).to == (
                #[trigger] out@[h]).from && opt_view(out@[g].name) != opt_view(out@[h].name),
            forall|g: int, k: int|
                0 <= g < out@.len() && (#[trigger] out@[g]).from <= k < out@[g].to
                    ==> #[trigger] group_at(series@, rows@, k) == opt_view(out@[g].name),
        decreases rows@.len() - i,
    {
        let name = group_of(series[rows[i]].name.as_str());
        let mut to: usize = i + 1;
        let mut more = true;
        while more && to < rows.len()
            invariant
                i < to <= rows@.len(),
                forall|k: int| 0 <= k < rows@.len() ==> (#[trigger] rows@[k]) < series@.len(),
                forall|k: int|
                    i <= k < to ==> #[trigger] group_at(series@, rows@, k) == opt_view(name),
                !more ==> to < rows@.len() && group_at(series@, rows@, to as int) != opt_view(name),
            decreases rows@.len() - to + if more {
                1int
            } else {
                0int
            },
        {
            let other = group_of(series[rows[to]].name.as_str());
            if same_group(&other, &name) {
                to += 1;
            } else {
                more = false;
            }
        }
        let ghost before = out@;
        out.push(Group { name, from: i, to });
        proof {
            assert forall|g: int, h: int| 0 <= g && h == g + 1 && h < out@.len() implies (
            #[trigger] out@[g]).to == (#[trigger] out@[h]).from && opt_view(out@[g].name)
                != opt_view(out@[h].name) by {
                if h == before.len() {
                    assert(out@[g] == before.last());
                    assert(group_at(series@, rows@, i as int) == opt_view(out@[h].name));
                }
            }
        }
        i = to;
    }
    out
}

/// What a field is called inside its message's group: without the message and the dot.
pub open spec fn label_spec(name: Seq<char>, group: Option<Seq<char>>) -> Seq<char> {
    match group {
        Some(g) => if has_prefix(name, g) && g.len() < name.len() && name[g.len() as int] == '.' {
            name.skip(g.len() as int + 1)
        } else {
            name
        },
        None => name,
    }
}

/// What a series is called inside its group.
pub fn row_label(name: &str, group: &Option<String>) -> (r: String)
    ensures
        r@ == label_spec(name@, opt_view(*group)),
{
    if let Some(g) = group {
        let chars = chars_of(name);
        let prefix = chars_of(g.as_str());
        let n = prefix.len();
        if n < chars.len() && chars[n] == '.' {
            let head = text_of(&chars, 0, n);
            assert(head@ =~= name@.take(n as int));
            if same(head.as_str(), g.as_str()) {
                assert(has_prefix(name@, g@));
                let rest = text_of(&chars, n + 1, chars.len());
                assert(rest@ =~= name@.skip(n + 1));
                return rest;
            }
            assert(!has_prefix(name@, g@));
        }
    }
    name.to_owned()
}

/// What a series' row says: its label, and its unit where it declares one.
pub fn row_text(label: &str, unit: &Option<String>) -> (r: String)
    ensures
        r@ == match *unit {
            Some(u) => label@ + "  ["@ + u@ + "]"@,
            None => label@,
        },
{
    let mut out = label.to_owned();
    if let Some(u) = unit {
        out.append("  [");
        out.append(u.as_str());
        out.append("]");
    }
    out
}

/// What hovering over a series' row says.
pub fn row_hover(series: &TimeSeries) -> (r: String)
    ensures
        r@ == series.name@ + " ("@ + dec(series.samples().len()) + " samples)"@,
{
    let mut out = series.name.as_str().to_owned();
    out.append(" (");
    push_dec(&mut out, series.len() as u64);
    out.append(" samples)");
    out
}

/// The places of the first `n` graphs that a series can be added to.
pub open spec fn targets_spec(list: Seq<PlotSpec>, source: SourceId, series: Seq<char>, n: nat) -> Seq<
    usize,
>
    decreases n,
{
    if n == 0 {
        Seq::empty()
    } else {
        let rest = targets_spec(list, source, series, (n - 1) as nat);
        if has_series(list[n - 1].entries@, source, series) {
            rest
        } else {
            rest.push((n - 1) as usize)
        }
    }
}

/// The places of the graphs that a series can be added to: those that do not show it.
pub fn targets(plots: &Plots, source: SourceId, series: &str) -> (r: Vec<usize>)
    ensures
        r@ == targets_spec(plots.list@, source, series@, plots.list@.len()),
        forall|i: int| 0 <= i < r@.len() ==> (#[trigger] r@[i]) < plots.list@.len(),
{
    let mut out: Vec<usize> = Vec::new();
    let mut n: usize = 0;
    while n < plots.list.len()
        invariant
            n <= plots.list@.len(),
            out@ == targets_spec(plots.list@, source, series@, n as nat),
            forall|i: int| 0 <= i < out@.len() ==> (#[trigger] out@[i]) < n,
        decreases plots.list@.len() - n,
    {
        if !plots.list[n].contains(source, series) {
            out.push(n);
        }
        n += 1;
    }
    out
}

/// The most series a source may have for its list to start open.
pub const OPEN_BY_DEFAULT: usize = 12;

/// The header of a source's list, and whether it starts open.
pub fn list_header(series: usize) -> (r: (String, bool))
    ensures
        r.0@ == "series ("@ + dec(series as nat) + ")"@,
        r.1 == (series <= OPEN_BY_DEFAULT),
{
    let mut out = "series (".to_owned();
    push_dec(&mut out, series as u64);
    out.append(")");
    (out, series <= OPEN_BY_DEFAULT)
}

/// The header of a message's group.
pub fn group_header(name: &str, fields: usize) -> (r: String)
    ensures
        r@ == name@ + "  ("@ + dec(fields as nat) + ")"@,
{
    let mut out = name.to_owned();
    out.append("  (");
    push_dec(&mut out, fields as u64);
    out.append(")");
    out
}

/// A duration in seconds, to a tenth.
pub open spec fn tenths(duration: i64) -> Seq<char> {
    quotient(duration as int, 100_000, 1) + "s"@
}

fn push_tenths(out: &mut String, duration: i64)
    ensures
        final(out)@ == old(out)@ + tenths(duration),
{
    let ghost before = out@;
    push_quotient(out, duration as i128, 100_000, 1);
    out.append("s");
    assert(out@ =~= before + tenths(duration));
}

/// The tick box of a video's pane. The frame rate is given as it is to be written.
pub fn video_box(v: &VideoSource, fps: &str) -> (r: String)
    ensures
        r@ == "video panel ("@ + tenths(v.duration) + ", "@ + dec(v.width as nat) + "x"@ + dec(
            v.height as nat,
        ) + " @"@ + fps@ + "fps)"@,
{
    let mut out = "video panel (".to_owned();
    push_tenths(&mut out, v.duration);
    out.append(", ");
    push_dec(&mut out, v.width as u64);
    out.append("x");
    push_dec(&mut out, v.height as u64);
    out.append(" @");
    out.append(fps);
    out.append("fps)");
    out
}

/// The tick box of a recording's pane.
pub fn audio_box(a: &AudioSource) -> (r: String)
    ensures
        r@ == "audio panel ("@ + tenths(a.duration) + ")"@,
{
    let mut out = "audio panel (".to_owned();
    push_tenths(&mut out, a.duration);
    out.append(")");
    out
}

/// How many CAN frames a log carries, in words.
pub fn frames_note(frames: usize) -> (r: String)
    ensures
        r@ == dec(frames as nat) + " CAN frames"@,
{
    let mut out = String::new();
    push_dec(&mut out, frames as u64);
    assert(out@ =~= dec(frames as nat));
    out.append(" CAN frames");
    out
}

/// What the status line says of an import that failed.
pub fn import_failed(path: &str, why: &str) -> (r: String)
    ensures
        r@ == "Import failed for "@ + path@ + ": "@ + why@,
{
    let mut out = "Import failed for ".to_owned();
    out.append(path);
    out.append(": ");
    out.append(why);
    out
}

} // verus!
