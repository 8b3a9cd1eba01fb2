//! Choosing series by what they look like: scoring them as temperatures or pressures, guessing
//! the pair that belongs together, and listing candidates for a menu.
use vstd::prelude::*;

use crate::model::{Project, SourceId, SourceKind};
use crate::order::{is_stable_order, is_text_order, precedes, stable_order, text_order, text_precedes};
use crate::plot_view::{find_series, series_at, series_of};
use crate::series::TimeSeries;
use crate::text::{
    chars_of, contains, dec, has_prefix, holds, last_of, lex_lt, lex_lt_irreflexive, lowercase,
    lowercased, opt_view, push_dec, rfind_char, strip_prefix, text_of, texts_of,
};
use crate::units::{PressureUnit, TempUnit};

verus! {

broadcast use vstd::seq_lib::group_seq_properties;

/// One series of one source, by name: the same way a graph pane refers to one, so a reimport or
/// a rename shows up as "no longer loaded" rather than as silently wrong data.
pub struct SeriesRef {
    pub source: SourceId,
    pub series: String,
}

/// A reference, as contracts speak of it.
pub open spec fn ref_view(r: Option<SeriesRef>) -> Option<(SourceId, Seq<char>)> {
    match r {
        Some(r) => Some((r.source, r.series@)),
        None => None,
    }
}

/// Where a reference leads: the position of its source, and that of the series in it.
pub open spec fn target(project: Project, r: SeriesRef) -> Option<(int, int)> {
    match project.find_spec(r.source) {
        Some(i) => match series_of(project.sources@[i], r.series@) {
            Some(k) => Some((i, k)),
            None => None,
        },
        None => None,
    }
}

/// The series at a target.
pub open spec fn target_series(project: Project, at: (int, int)) -> TimeSeries {
    series_at(project.sources@[at.0], at.1)
}

/// The series that a reference leads to, and its source's offset.
pub fn follow<'p>(project: &'p Project, r: &SeriesRef) -> (found: Option<(&'p TimeSeries, i64)>)
    requires
        project.wf(),
    ensures
        match found {
            Some((s, offset)) => match target(*project, *r) {
                Some(at) => *s == target_series(*project, at) && offset
                    == project.sources@[at.0].offset && s.wf() && s.fits(offset),
                None => false,
            },
            None => target(*project, *r) is None,
        },
{
    match project.source(r.source) {
        Some(source) => match find_series(source, r.series.as_str()) {
            Some(s) => {
                proof {
                    crate::plot_view::lemma_found(*project, r.source);
                    crate::plot_view::lemma_series_fits(*source, *s);
                }
                Some((s, source.offset))
            },
            None => None,
        },
        None => None,
    }
}

/// How strong the evidence is: a declared unit is evidence; a name is a guess.
pub open spec fn grade_spec(by_unit: bool, by_name: bool) -> u8 {
    if by_unit && by_name {
        3
    } else if by_unit {
        2
    } else if by_name {
        1
    } else {
        0
    }
}

/// How strong the evidence is: a declared unit is evidence; a name is a guess.
pub fn grade(by_unit: bool, by_name: bool) -> (r: u8)
    ensures
        r == grade_spec(by_unit, by_name),
{
    if by_unit && by_name {
        3
    } else if by_unit {
        2
    } else if by_name {
        1
    } else {
        0
    }
}

/// How well a series looks like the quantity we want: its declared unit first, then its name.
pub open spec fn score_spec(s: TimeSeries, temperature: bool) -> u8 {
    let name = lowercased(s.name@);
    if temperature {
        grade_spec(TempUnit::declared(opt_view(s.unit)) is Some, holds(name, "temp"@))
    } else {
        grade_spec(PressureUnit::declared(opt_view(s.unit)) is Some, holds(name, "press"@))
    }
}

/// How well a series looks like a temperature, or like a pressure.
pub fn score(s: &TimeSeries, temperature: bool) -> (r: u8)
    ensures
        r == score_spec(*s, temperature),
        r <= 3,
{
    let unit: Option<&str> = match &s.unit {
        Some(u) => Some(u.as_str()),
        None => None,
    };
    let name = lowercase(s.name.as_str());
    if temperature {
        grade(TempUnit::from_series_unit(unit).is_some(), contains(name.as_str(), "temp"))
    } else {
        grade(PressureUnit::from_series_unit(unit).is_some(), contains(name.as_str(), "press"))
    }
}

/// The group that two series share: what stands before the first one's last dot, where the
/// other starts with it too.
pub open spec fn shared_group_spec(a: Seq<char>, b: Seq<char>) -> Option<Seq<char>> {
    let dot = last_of(a, '.');
    if dot < 0 {
        None
    } else if has_prefix(b, a.take(dot)) {
        Some(a.take(dot))
    } else {
        None
    }
}

/// `("CAN_SENSOR[5].slot0", "CAN_SENSOR[5].slot1")` is `"CAN_SENSOR[5]"`.
pub fn shared_group(a: &str, b: &str) -> (r: Option<String>)
    ensures
        opt_view(r) == shared_group_spec(a@, b@),
{
    let chars = chars_of(a);
    match rfind_char(&chars, '.') {
        Some(dot) => {
            let group = text_of(&chars, 0, dot);
            assert(group@ =~= a@.take(dot as int));
            match strip_prefix(b, group.as_str()) {
                Some(_) => Some(group),
                None => None,
            }
        },
        None => None,
    }
}

/// Whether a place is that of a series of a log.
pub open spec fn is_series(project: Project, i: int, k: int) -> bool {
    &&& 0 <= i < project.sources@.len()
    &&& match project.sources@[i].kind {
        SourceKind::Log(log) => 0 <= k < log.series@.len(),
        _ => false,
    }
}

/// The score of the series at a place.
pub open spec fn score_at(project: Project, i: int, k: int, temperature: bool) -> u8 {
    score_spec(series_at(project.sources@[i], k), temperature)
}

/// Whether one place comes before another.
pub open spec fn earlier(i: int, k: int, j: int, l: int) -> bool {
    i < j || (i == j && k < l)
}

/// Whether a place is the first of those whose score is the highest, and that is above zero.
pub open spec fn is_best(project: Project, i: int, k: int, temperature: bool) -> bool {
    &&& is_series(project, i, k)
    &&& score_at(project, i, k, temperature) > 0
    &&& forall|j: int, l: int| #[trigger]
        is_series(project, j, l) ==> score_at(project, j, l, temperature) <= score_at(
            project,
            i,
            k,
            temperature,
        ) && (earlier(j, l, i, k) ==> score_at(project, j, l, temperature) < score_at(
            project,
            i,
            k,
            temperature,
        ))
}

/// The series that looks most like a temperature, or a pressure: of several, the first.
pub fn best_series(project: &Project, temperature: bool) -> (r: Option<(usize, usize)>)
    ensures
        match r {
            Some((i, k)) => is_best(*project, i as int, k as int, temperature),
            None => forall|j: int, l: int| #[trigger]
                is_series(*project, j, l) ==> score_at(*project, j, l, temperature) == 0,
        },
{
    let mut best: Option<(usize, usize)> = None;
    let mut top: u8 = 0;
    let mut i: usize = 0;
    while i < project.sources.len()
        invariant
            i <= project.sources@.len(),
            match best {
                Some((a, b)) => is_series(*project, a as int, b as int) && score_at(
                    *project,
                    a as int,
                    b as int,
                    temperature,
                ) == top && top > 0 && a < i,
                None => top == 0,
            },
            forall|j: int, l: int| #[trigger]
                is_series(*project, j, l) && j < i ==> score_at(*project, j, l, temperature) <= top,
            best matches Some((a, b)) ==> forall|j: int, l: int| #[trigger]
                is_series(*project, j, l) && earlier(j, l, a as int, b as int) ==> score_at(
                    *project,
                    j,
                    l,
                    temperature,
                ) < top,
        decreases project.sources@.len() - i,
    {
        if let SourceKind::Log(log) = &project.sources[i].kind {
            let mut k: usize = 0;
            while k < log.series.len()
                invariant
                    i < project.sources@.len(),
                    project.sources@[i as int].kind == SourceKind::Log(*log),
                    k <= log.series@.len(),
                    match best {
                        Some((a, b)) => is_series(*project, a as int, b as int) && score_at(
                            *project,
                            a as int,
                            b as int,
                            temperature,
                        ) == top && top > 0 && earlier(a as int, b as int, i as int, k as int),
                        None => top == 0,
                    },
                    forall|j: int, l: int| #[trigger]
                        is_series(*project, j, l) && earlier(j, l, i as int, k as int) ==> score_at(
                            *project,
                            j,
                            l,
                            temperature,
                        ) <= top,
                    best matches Some((a, b)) ==> forall|j: int, l: int| #[trigger]
                        is_series(*project, j, l) && earlier(j, l, a as int, b as int) ==> score_at(
                            *project,
                            j,
                            l,
                            temperature,
                        ) < top,
                decreases log.series@.len() - k,
            {
                let s = score(&log.series[k], temperature);
                assert(is_series(*project, i as int, k as int));
                assert(s == score_at(*project, i as int, k as int, temperature));
                if s > top {
                    top = s;
                    best = Some((i, k));
                }
                k += 1;
            }
        }
        i += 1;
    }
    best
}

/// Whether two series of a log look like a temperature and a pressure of the same thing.
pub open spec fn is_pair(project: Project, i: int, t: int, p: int) -> bool {
    &&& is_series(project, i, t)
    &&& is_series(project, i, p)
    &&& score_at(project, i, t, true) > 0
    &&& score_at(project, i, p, false) > 0
    &&& shared_group_spec(
        series_at(project.sources@[i], t).name@,
        series_at(project.sources@[i], p).name@,
    ) is Some
}

/// What a pair is worth.
pub open spec fn worth(project: Project, i: int, t: int, p: int) -> int {
    score_at(project, i, t, true) + score_at(project, i, p, false)
}

/// Whether one pair of places comes before another.
pub open spec fn earlier_pair(a: (int, int, int), b: (int, int, int)) -> bool {
    a.0 < b.0 || (a.0 == b.0 && earlier(a.1, a.2, b.1, b.2))
}

/// Whether a pair is the first of those that are worth the most.
pub open spec fn is_best_pair(project: Project, i: int, t: int, p: int) -> bool {
    &&& is_pair(project, i, t, p)
    &&& forall|a: int, b: int, c: int| #[trigger]
        is_pair(project, a, b, c) ==> worth(project, a, b, c) <= worth(project, i, t, p) && (
        earlier_pair((a, b, c), (i, t, p)) ==> worth(project, a, b, c) < worth(project, i, t, p))
}

/// What is known of the best pair among those that come before a place.
spec fn pair_so_far(
    project: Project,
    best: Option<(usize, usize, usize)>,
    top: u8,
    at: (int, int, int),
) -> bool {
    &&& match best {
        Some((i, t, p)) => {
            &&& is_pair(project, i as int, t as int, p as int)
            &&& worth(project, i as int, t as int, p as int) == top
            &&& top > 0
            &&& earlier_pair((i as int, t as int, p as int), at)
            &&& forall|a: int, b: int, c: int| #[trigger]
                is_pair(project, a, b, c) && earlier_pair(
                    (a, b, c),
                    (i as int, t as int, p as int),
                ) ==> worth(project, a, b, c) < top
        },
        None => top == 0,
    }
    &&& forall|a: int, b: int, c: int| #[trigger]
        is_pair(project, a, b, c) && earlier_pair((a, b, c), at) ==> worth(project, a, b, c) <= top
}

/// The temperature and the pressure that most likely describe the same thing: the same vessel,
/// or the same board.
pub fn best_pair(project: &Project) -> (r: Option<(usize, usize, usize)>)
    ensures
        match r {
            Some((i, t, p)) => is_best_pair(*project, i as int, t as int, p as int),
            None => forall|a: int, b: int, c: int| !#[trigger] is_pair(*project, a, b, c),
        },
{
    let mut best: Option<(usize, usize, usize)> = None;
    let mut top: u8 = 0;
    let mut i: usize = 0;
    while i < project.sources.len()
        invariant
            i <= project.sources@.len(),
            pair_so_far(*project, best, top, (i as int, 0, 0)),
        decreases project.sources@.len() - i,
    {
        if let SourceKind::Log(log) = &project.sources[i].kind {
            let mut t: usize = 0;
            while t < log.series.len()
                invariant
                    i < project.sources@.len(),
                    project.sources@[i as int].kind == SourceKind::Log(*log),
                    t <= log.series@.len(),
                    pair_so_far(*project, best, top, (i as int, t as int, 0)),
                decreases log.series@.len() - t,
            {
                let t_score = score(&log.series[t], true);
                if t_score > 0 {
                    let mut p: usize = 0;
                    while p < log.series.len()
                        invariant
                            i < project.sources@.len(),
                            project.sources@[i as int].kind == SourceKind::Log(*log),
                            t < log.series@.len(),
                            p <= log.series@.len(),
                            t_score == score_at(*project, i as int, t as int, true),
                            0 < t_score <= 3,
                            pair_so_far(*project, best, top, (i as int, t as int, p as int)),
                        decreases log.series@.len() - p,
                    {
                        let p_score = score(&log.series[p], false);
                        let ghost place = (i as int, t as int, p as int);
                        if p_score > 0 && shared_group(
                            log.series[t].name.as_str(),
                            log.series[p].name.as_str(),
                        ).is_some() {
                            assert(is_pair(*project, i as int, t as int, p as int));
                            if t_score + p_score > top {
                                top = t_score + p_score;
                                best = Some((i, t, p));
                            }
                        } else {
                            assert(!is_pair(*project, i as int, t as int, p as int));
                        }
                        p += 1;
                        proof {
                            assert forall|a: int, b: int, c: int| #[trigger]
                                is_pair(*project, a, b, c) && earlier_pair(
                                    (a, b, c),
                                    (i as int, t as int, p as int),
                                ) implies worth(*project, a, b, c) <= top by {
                                if (a, b, c) != place {
                                    assert(earlier_pair((a, b, c), place));
                                }
                            }
                        }
                    }
                }
                t += 1;
                proof {
                    assert forall|a: int, b: int, c: int| #[trigger]
                        is_pair(*project, a, b, c) && earlier_pair(
                            (a, b, c),
                            (i as int, t as int, 0),
                        ) implies worth(*project, a, b, c) <= top by {
                        if a == i && b == t - 1 {
                            assert(c < log.series@.len());
                        }
                    }
                }
            }
        }
        i += 1;
        proof {
            assert forall|a: int, b: int, c: int| #[trigger]
                is_pair(*project, a, b, c) && earlier_pair(
                    (a, b, c),
                    (i as int, 0, 0),
                ) implies worth(*project, a, b, c) <= top by {}
        }
    }
    best
}

/// The reference to the series at a place.
pub open spec fn ref_to(project: Project, i: int, k: int) -> (SourceId, Seq<char>) {
    (project.sources@[i].id, series_at(project.sources@[i], k).name@)
}

fn refer(project: &Project, i: usize, k: usize) -> (r: SeriesRef)
    requires
        is_series(*project, i as int, k as int),
    ensures
        (r.source, r.series@) == ref_to(*project, i as int, k as int),
{
    let source = &project.sources[i];
    let series = match &source.kind {
        SourceKind::Log(log) => log.series[k].name.clone(),
        _ => String::new(),
    };
    SeriesRef { source: source.id, series }
}

/// Picks the most likely temperature and pressure in the project, preferring two that describe
/// the same thing over the two best individual matches.
pub fn guess_series(project: &Project) -> (r: (Option<SeriesRef>, Option<SeriesRef>))
    ensures
        forall|i: int, t: int, p: int| #[trigger]
            is_best_pair(*project, i, t, p) ==> ref_view(r.0) == Some(ref_to(*project, i, t))
                && ref_view(r.1) == Some(ref_to(*project, i, p)),
        (forall|a: int, b: int, c: int| !#[trigger] is_pair(*project, a, b, c)) ==> {
            &&& forall|i: int, k: int| #[trigger]
                is_best(*project, i, k, true) ==> ref_view(r.0) == Some(ref_to(*project, i, k))
            &&& forall|i: int, k: int| #[trigger]
                is_best(*project, i, k, false) ==> ref_view(r.1) == Some(ref_to(*project, i, k))
            &&& (forall|i: int, k: int| #[trigger]
                is_series(*project, i, k) ==> score_at(*project, i, k, true) == 0) ==> r.0 is None
            &&& (forall|i: int, k: int| #[trigger]
                is_series(*project, i, k) ==> score_at(*project, i, k, false) == 0) ==> r.1 is None
        },
{
    match best_pair(project) {
        Some((i, t, p)) => {
            proof {
                assert forall|a: int, b: int, c: int| #[trigger]
                    is_best_pair(*project, a, b, c) implies a == i && b == t && c == p by {
                    assert(is_pair(*project, a, b, c));
                    assert(is_pair(*project, i as int, t as int, p as int));
                    assert(earlier_pair((a, b, c), (i as int, t as int, p as int)) || earlier_pair(
                        (i as int, t as int, p as int),
                        (a, b, c),
                    ) || (a, b, c) == (i as int, t as int, p as int));
                }
            }
            (Some(refer(project, i, t)), Some(refer(project, i, p)))
        },
        None => {
            let temperature = match best_series(project, true) {
                Some((i, k)) => {
                    proof {
                        lemma_best_is_unique(*project, i as int, k as int, true);
                    }
                    Some(refer(project, i, k))
                },
                None => None,
            };
            let pressure = match best_series(project, false) {
                Some((i, k)) => {
                    proof {
                        lemma_best_is_unique(*project, i as int, k as int, false);
                    }
                    Some(refer(project, i, k))
                },
                None => None,
            };
            (temperature, pressure)
        },
    }
}

proof fn lemma_best_is_unique(project: Project, i: int, k: int, temperature: bool)
    requires
        is_best(project, i, k, temperature),
    ensures
        forall|j: int, l: int| #[trigger] is_best(project, j, l, temperature) ==> j == i && l == k,
        !(forall|j: int, l: int| #[trigger]
            is_series(project, j, l) ==> score_at(project, j, l, temperature) == 0),
{
    assert(is_series(project, i, k));
    assert forall|j: int, l: int| #[trigger] is_best(project, j, l, temperature) implies j == i
        && l == k by {
        assert(is_series(project, j, l));
        assert(earlier(j, l, i, k) || earlier(i, k, j, l) || (j == i && l == k));
    }
}

/// How many characters of a name a button shows.
pub const SHORT_NAME: usize = 28;

/// A name cut down to its tail, which is the part that differs.
pub open spec fn short_name_spec(name: Seq<char>) -> Seq<char> {
    if name.len() <= SHORT_NAME {
        name
    } else {
        "…"@ + name.skip(name.len() - SHORT_NAME + 1)
    }
}

/// Series names are long and their tail is the part that differs.
pub fn short_name(name: &str) -> (r: String)
    ensures
        r@ == short_name_spec(name@),
{
    let chars = chars_of(name);
    let n: usize = chars.len();
    if n <= SHORT_NAME {
        return name.to_owned();
    }
    let tail = text_of(&chars, n - SHORT_NAME + 1, n);
    assert(tail@ =~= name@.skip(name@.len() - SHORT_NAME + 1));
    let mut out = "…".to_owned();
    out.append(tail.as_str());
    out
}

/// At most this many series in a picker list at once. Rendering a few hundred buttons a frame is
/// slow, and a list that long is unusable anyway; the filter box above it is the way through.
pub const PICKER_LIMIT: usize = 150;

/// The name of the series at a place.
pub open spec fn name_at(project: Project, at: (usize, usize)) -> Seq<char> {
    series_at(project.sources@[at.0 as int], at.1 as int).name@
}

/// Whether a place is that of a series whose name holds a lower case filter. An empty filter
/// holds nothing back.
pub open spec fn is_candidate(project: Project, at: (usize, usize), filter: Seq<char>) -> bool {
    &&& is_series(project, at.0 as int, at.1 as int)
    &&& (filter.len() == 0 || holds(lowercased(name_at(project, at)), filter))
}

/// Whether one series is before another in the project.
pub open spec fn is_before(a: (usize, usize), b: (usize, usize)) -> bool {
    earlier(a.0 as int, a.1 as int, b.0 as int, b.1 as int)
}

/// Whether the better guess comes first, equally good ones by name, and those of one name as
/// they stand in the project.
pub open spec fn in_picker_order(
    project: Project,
    a: (usize, usize),
    b: (usize, usize),
    temperature: bool,
) -> bool {
    let x = score_at(project, a.0 as int, a.1 as int, temperature);
    let y = score_at(project, b.0 as int, b.1 as int, temperature);
    ||| x > y
    ||| x == y && lex_lt(name_at(project, a), name_at(project, b))
    ||| x == y && name_at(project, a) == name_at(project, b) && is_before(a, b)
}

/// The places of the series whose names hold a lower case filter, as they stand in the project.
fn matching(project: &Project, filter: &str) -> (r: Vec<(usize, usize)>)
    ensures
        r@.no_duplicates(),
        forall|a: int, b: int|
            0 <= a < b < r@.len() ==> is_before(#[trigger] r@[a], #[trigger] r@[b]),
        forall|at: (usize, usize)| #[trigger]
            r@.contains(at) <==> is_candidate(*project, at, filter@),
{
    let mut out: Vec<(usize, usize)> = Vec::new();
    let mut i: usize = 0;
    while i < project.sources.len()
        invariant
            i <= project.sources@.len(),
            out@.no_duplicates(),
            forall|a: int, b: int|
                0 <= a < b < out@.len() ==> is_before(#[trigger] out@[a], #[trigger] out@[b]),
            forall|at: (usize, usize)| #[trigger]
                out@.contains(at) <==> is_candidate(*project, at, filter@) && at.0 < i,
        decreases project.sources@.len() - i,
    {
        if let SourceKind::Log(log) = &project.sources[i].kind {
            let mut k: usize = 0;
            while k < log.series.len()
                invariant
                    i < project.sources@.len(),
                    project.sources@[i as int].kind == SourceKind::Log(*log),
                    k <= log.series@.len(),
                    out@.no_duplicates(),
                    forall|a: int, b: int|
                        0 <= a < b < out@.len() ==> is_before(
                            #[trigger] out@[a],
                            #[trigger] out@[b],
                        ),
                    forall|at: (usize, usize)| #[trigger]
                        out@.contains(at) <==> is_candidate(*project, at, filter@) && (at.0 < i || (
                        at.0 == i && at.1 < k)),
                decreases log.series@.len() - k,
            {
                let ghost before = out@;
                let here = filter.to_owned().as_str().is_empty() || contains(
                    lowercase(log.series[k].name.as_str()).as_str(),
                    filter,
                );
                assert(here == is_candidate(*project, (i, k), filter@));
                if here {
                    out.push((i, k));
                    proof {
                        assert(!before.contains((i, k)));
                        assert forall|a: int| 0 <= a < before.len() implies is_before(
                            #[trigger] before[a],
                            (i, k),
                        ) by {
                            assert(before.contains(before[a]));
                        }
                    }
                }
                proof {
                    assert forall|at: (usize, usize)| #[trigger]
                        out@.contains(at) <==> is_candidate(*project, at, filter@) && (at.0 < i || (
                        at.0 == i && at.1 < k + 1)) by {
                        assert(before.contains(at) <==> is_candidate(*project, at, filter@) && (
                        at.0 < i || (at.0 == i && at.1 < k)));
                        if here {
                            if out@.contains(at) {
                                let j = out@.index_of(at);
                                if j < before.len() {
                                    assert(before[j] == at);
                                }
                            }
                            if before.contains(at) {
                                let j = before.index_of(at);
                                assert(out@[j] == at);
                            }
                            assert(out@[before.len() as int] == (i, k));
                        }
                    }
                }
                k += 1;
            }
        }
        i += 1;
    }
    out
}

/// The series that a picker offers for a lower case filter: best guesses first, then
/// alphabetically, so an unfiltered list opens on the handful that could plausibly be the
/// answer.
pub fn candidates(project: &Project, temperature: bool, filter: &str) -> (r: Vec<(usize, usize)>)
    ensures
        r@.no_duplicates(),
        forall|at: (usize, usize)| #[trigger]
            r@.contains(at) <==> is_candidate(*project, at, filter@),
        forall|a: int, b: int|
            0 <= a < b < r@.len() ==> in_picker_order(
                *project,
                #[trigger] r@[a],
                #[trigger] r@[b],
                temperature,
            ),
{
    let found = matching(project, filter);
    let mut names: Vec<String> = Vec::new();
    let mut n: usize = 0;
    while n < found.len()
        invariant
            n <= found@.len(),
            forall|at: (usize, usize)| #[trigger]
                found@.contains(at) <==> is_candidate(*project, at, filter@),
            names@.len() == n,
            forall|k: int| 0 <= k < n ==> (#[trigger] names@[k])@ == name_at(*project, found@[k]),
        decreases found@.len() - n,
    {
        assert(found@.contains(found@[n as int]));
        let at = found[n];
        names.push(refer(project, at.0, at.1).series);
        n += 1;
    }
    let by_name = text_order(&names);
    // Sorted by name; now stably by falling score.
    let mut keys: Vec<i64> = Vec::new();
    let mut m: usize = 0;
    while m < by_name.len()
        invariant
            m <= by_name@.len() == found@.len() == names@.len(),
            is_text_order(texts_of(names@), by_name@),
            forall|at: (usize, usize)| #[trigger]
                found@.contains(at) <==> is_candidate(*project, at, filter@),
            keys@.len() == m,
            forall|k: int|
                0 <= k < m ==> #[trigger] keys@[k] == -(score_at(
                    *project,
                    found@[by_name@[k] as int].0 as int,
                    found@[by_name@[k] as int].1 as int,
                    temperature,
                ) as int),
        decreases by_name@.len() - m,
    {
        let at = found[by_name[m]];
        assert(found@.contains(found@[by_name@[m as int] as int]));
        let s: u8 = match &project.sources[at.0].kind {
            SourceKind::Log(log) => score(&log.series[at.1], temperature),
            _ => 0,
        };
        keys.push(-(s as i64));
        m += 1;
    }
    let by_score = stable_order(&keys);
    let mut out: Vec<(usize, usize)> = Vec::new();
    let mut j: usize = 0;
    while j < by_score.len()
        invariant
            j <= by_score@.len() == by_name@.len() == found@.len() == keys@.len() == names@.len(),
            is_text_order(texts_of(names@), by_name@),
            is_stable_order(keys@, by_score@),
            out@.len() == j,
            forall|k: int|
                0 <= k < j ==> #[trigger] out@[k] == found@[by_name@[by_score@[k] as int] as int],
        decreases by_score@.len() - j,
    {
        out.push(found[by_name[by_score[j]]]);
        j += 1;
    }
    proof {
        assert(names.len() == names@.len());
        assert forall|a: int, b: int| 0 <= a < b < out@.len() implies in_picker_order(
            *project,
            #[trigger] out@[a],
            #[trigger] out@[b],
            temperature,
        ) by {
            let x = by_score@[a] as int;
            let y = by_score@[b] as int;
            assert(precedes(keys@, x, y));
            if keys@[x] == keys@[y] {
                assert(x < y);
                let u = by_name@[x] as int;
                let v = by_name@[y] as int;
                assert(text_precedes(texts_of(names@), u, v));
                if u < v {
                    assert(is_before(found@[u], found@[v]));
                }
                assert(names@[u]@ == name_at(*project, found@[u]));
                assert(names@[v]@ == name_at(*project, found@[v]));
            }
        }
        assert forall|at: (usize, usize)| #[trigger] out@.contains(at) <==> is_candidate(
            *project,
            at,
            filter@,
        ) by {
            assert(found@.contains(at) <==> is_candidate(*project, at, filter@));
            if out@.contains(at) {
                let k = out@.index_of(at);
                assert(out@[k] == found@[by_name@[by_score@[k] as int] as int]);
            }
            if found@.contains(at) {
                let p = found@.index_of(at);
                assert(found@[p] == at);
                assert(by_name@.contains(p as usize));
                let q = by_name@.index_of(p as usize);
                assert(by_name@[q] == p);
                assert(by_score@.contains(q as usize));
                let k = by_score@.index_of(q as usize);
                assert(by_score@[k] == q);
                assert(out@[k] == at);
            }
        }
        assert forall|a: int, b: int| 0 <= a < out@.len() && 0 <= b < out@.len() && a
            != b implies out@[a] != out@[b] by {
            let x = by_score@[a] as int;
            let y = by_score@[b] as int;
            if a < b {
                assert(by_score@[a] != by_score@[b]);
            } else {
                assert(by_score@[b] != by_score@[a]);
            }
            let u = by_name@[x] as int;
            let v = by_name@[y] as int;
            if x < y {
                assert(text_precedes(texts_of(names@), u, v));
            } else {
                assert(text_precedes(texts_of(names@), v, u));
            }
            lex_lt_irreflexive(names@[u]@);
            assert(u != v);
            assert(found@[u] != found@[v]);
        }
    }
    out
}

/// What a picker's button says of a candidate.
pub open spec fn candidate_label_spec(project: Project, at: (usize, usize), several: bool) -> Seq<
    char,
> {
    let s = series_at(project.sources@[at.0 as int], at.1 as int);
    let unit = match opt_view(s.unit) {
        Some(u) => u,
        None => Seq::<char>::empty(),
    };
    let base = s.name@ + "  ["@ + unit + "]"@;
    if several {
        base + "  —  "@ + project.sources@[at.0 as int].name@
    } else {
        base
    }
}

/// What a picker's button says of a candidate: its source too, where there are several.
pub fn candidate_label(project: &Project, at: (usize, usize), several: bool) -> (r: String)
    requires
        is_series(*project, at.0 as int, at.1 as int),
    ensures
        r@ == candidate_label_spec(*project, at, several),
{
    let source = &project.sources[at.0];
    let mut out = String::new();
    if let SourceKind::Log(log) = &source.kind {
        let s = &log.series[at.1];
        out.append(s.name.as_str());
        out.append("  [");
        if let Some(unit) = &s.unit {
            out.append(unit.as_str());
        }
        out.append("]");
    }
    if several {
        out.append("  —  ");
        out.append(source.name.as_str());
    }
    out
}

/// What a picker says of a list that it cuts short.
pub fn limit_note(matching: usize) -> (r: Option<String>)
    ensures
        match r {
            Some(note) => matching > PICKER_LIMIT && note@ == dec(matching as nat)
                + " series match; showing the first "@ + dec(PICKER_LIMIT as nat),
            None => matching <= PICKER_LIMIT,
        },
{
    if matching <= PICKER_LIMIT {
        return None;
    }
    let mut out = String::new();
    push_dec(&mut out, matching as u64);
    out.append(" series match; showing the first ");
    push_dec(&mut out, PICKER_LIMIT as u64);
    Some(out)
}

} // verus!
