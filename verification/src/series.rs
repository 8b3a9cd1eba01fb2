//! Time series storage with a min/max mipmap, so that multi-million point series can be drawn
//! at interactive frame rates regardless of zoom.
use vstd::prelude::*;

use crate::order::{is_stable_order, picked, stable_order, stable_order_keeps_a_sorted_list};
use crate::double::Double;

verus! {

broadcast use vstd::seq_lib::group_seq_properties;

/// A sample: microseconds UTC, and the value.
pub type Sample = (i64, Double);

/// Bucket size multiplier between consecutive levels of detail.
pub const LOD_FACTOR: usize = 8;

/// Stop building coarser levels once a level would have fewer than this many points.
pub const MIN_LOD_POINTS: usize = 2048;

/// Whether samples stand in the order of their times.
pub open spec fn in_time_order(points: Seq<Sample>) -> bool {
    forall|i: int, j: int|
        0 <= i <= j < points.len() ==> (#[trigger] points[i]).0 <= (#[trigger] points[j]).0
}

/// The times of samples.
pub open spec fn times(points: Seq<Sample>) -> Seq<i64> {
    points.map_values(|p: Sample| p.0)
}

/// How many samples are before `t`.
pub open spec fn count_before(points: Seq<Sample>, t: int) -> nat
    decreases points.len(),
{
    if points.len() == 0 {
        0
    } else {
        count_before(points.drop_last(), t) + if points.last().0 < t {
            1nat
        } else {
            0nat
        }
    }
}

/// In a list in time order, those before `t` are the first ones.
pub proof fn the_earlier_come_first(points: Seq<Sample>, t: int, p: int)
    requires
        0 <= p <= points.len(),
        forall|i: int| 0 <= i < p ==> (#[trigger] points[i]).0 < t,
        forall|i: int| p <= i < points.len() ==> (#[trigger] points[i]).0 >= t,
    ensures
        count_before(points, t) == p,
    decreases points.len(),
{
    if points.len() > 0 {
        let front = points.drop_last();
        if p == points.len() {
            the_earlier_come_first(front, t, p - 1);
        } else {
            the_earlier_come_first(front, t, p);
        }
    }
}

/// The first sample that is not before `t`.
pub fn partition_point(points: &Vec<Sample>, t: i128) -> (p: usize)
    requires
        in_time_order(points@),
    ensures
        p == count_before(points@, t as int),
        p <= points@.len(),
        forall|i: int| 0 <= i < p ==> (#[trigger] points@[i]).0 < t,
        forall|i: int| p <= i < points@.len() ==> (#[trigger] points@[i]).0 >= t,
{
    let mut lo: usize = 0;
    let mut hi: usize = points.len();
    while lo < hi
        invariant
            lo <= hi <= points@.len(),
            in_time_order(points@),
            forall|i: int| 0 <= i < lo ==> (#[trigger] points@[i]).0 < t,
            forall|i: int| hi <= i < points@.len() ==> (#[trigger] points@[i]).0 >= t,
        decreases hi - lo,
    {
        let mid: usize = lo + (hi - lo) / 2;
        if (points[mid].0 as i128) < t {
            lo = mid + 1;
        } else {
            hi = mid;
        }
    }
    proof {
        the_earlier_come_first(points@, t as int, lo as int);
    }
    lo
}

/// The positions that cover the times from `t0` to `t1`, with one more on each side so that
/// lines do not visibly clip at the edge.
pub open spec fn range_spec(points: Seq<Sample>, t0: int, t1: int) -> (int, int) {
    let before = count_before(points, t0) as int;
    let upto = count_before(points, t1 + 1) as int;
    (
        if before > 0 {
            before - 1
        } else {
            0
        },
        if upto + 1 < points.len() {
            upto + 1
        } else {
            points.len() as int
        },
    )
}

/// The positions that cover a range of times.
pub fn range_indices(points: &Vec<Sample>, t0: i128, t1: i128) -> (r: (usize, usize))
    requires
        in_time_order(points@),
        t1 < i128::MAX,
    ensures
        (r.0 as int, r.1 as int) == range_spec(points@, t0 as int, t1 as int),
        r.0 <= points@.len(),
        r.1 <= points@.len(),
{
    let before = partition_point(points, t0);
    let upto = partition_point(points, t1 + 1);
    (
        if before > 0 {
            before - 1
        } else {
            0
        },
        if upto < points.len() {
            upto + 1
        } else {
            upto
        },
    )
}

/// The position of the least value from `from` to before `to`, the first of equals.
pub open spec fn lowest(points: Seq<Sample>, from: int, to: int) -> int
    decreases to - from,
{
    if to <= from + 1 {
        from
    } else {
        let m = lowest(points, from, to - 1);
        if points[to - 1].1.lt(points[m].1) {
            to - 1
        } else {
            m
        }
    }
}

/// The position of the greatest value from `from` to before `to`, the first of equals.
pub open spec fn highest(points: Seq<Sample>, from: int, to: int) -> int
    decreases to - from,
{
    if to <= from + 1 {
        from
    } else {
        let m = highest(points, from, to - 1);
        if points[m].1.lt(points[to - 1].1) {
            to - 1
        } else {
            m
        }
    }
}

/// The least and the greatest sample of a bucket, whichever comes first in time first.
pub open spec fn envelope(points: Seq<Sample>, from: int, to: int) -> Seq<Sample> {
    let lo = lowest(points, from, to);
    let hi = highest(points, from, to);
    if lo <= hi {
        seq![points[lo], points[hi]]
    } else {
        seq![points[hi], points[lo]]
    }
}

/// The lesser of two.
pub open spec fn least(a: int, b: int) -> int {
    if a <= b {
        a
    } else {
        b
    }
}

/// The envelopes of the first `n` buckets of `size` samples.
pub open spec fn level_spec(points: Seq<Sample>, size: int, n: nat) -> Seq<Sample>
    decreases n,
{
    if n == 0 {
        Seq::empty()
    } else {
        level_spec(points, size, (n - 1) as nat) + envelope(
            points,
            (n - 1) * size,
            least(n * size, points.len() as int),
        )
    }
}

/// How many buckets of `size` hold `len` samples.
pub open spec fn buckets(len: int, size: int) -> nat {
    if len % size == 0 {
        (len / size) as nat
    } else {
        (len / size + 1) as nat
    }
}

/// Whether a level of buckets of `size` is worth building over `len` samples: each bucket
/// makes two points.
pub open spec fn worthwhile(len: int, size: int) -> bool {
    len / size * 2 >= MIN_LOD_POINTS
}

/// The bucket size of a level.
pub open spec fn bucket_size(level: nat) -> int
    decreases level,
{
    if level == 0 {
        LOD_FACTOR as int
    } else {
        LOD_FACTOR * bucket_size((level - 1) as nat)
    }
}

proof fn lemma_envelope_indices(points: Seq<Sample>, from: int, to: int)
    requires
        from < to,
    ensures
        from <= lowest(points, from, to) < to,
        from <= highest(points, from, to) < to,
    decreases to - from,
{
    if to > from + 1 {
        lemma_envelope_indices(points, from, to - 1);
    }
}

/// No value of a bucket is below the least one or above the greatest, where the bucket starts
/// with a number.
pub proof fn the_envelope_bounds_its_bucket(points: Seq<Sample>, from: int, to: int, i: int)
    requires
        from <= i < to,
        !points[from].1.nan(),
    ensures
        !points[i].1.lt(points[lowest(points, from, to)].1),
        !points[highest(points, from, to)].1.lt(points[i].1),
        !points[lowest(points, from, to)].1.nan(),
        !points[highest(points, from, to)].1.nan(),
    decreases to - from,
{
    if to > from + 1 {
        if i < to - 1 {
            the_envelope_bounds_its_bucket(points, from, to - 1, i);
        } else {
            the_envelope_bounds_its_bucket(points, from, to - 1, from);
        }
    }
}

proof fn lemma_level_len(points: Seq<Sample>, size: int, n: nat)
    ensures
        level_spec(points, size, n).len() == 2 * n,
    decreases n,
{
    if n > 0 {
        lemma_level_len(points, size, (n - 1) as nat);
    }
}

/// Whether `n` buckets of `size` do not start past the end of `len` samples.
spec fn within(len: int, size: int, n: nat) -> bool {
    size > 0 && (n > 0 ==> (n - 1) * size < len)
}

proof fn lemma_level_in_order(points: Seq<Sample>, size: int, n: nat)
    requires
        in_time_order(points),
        within(points.len() as int, size, n),
    ensures
        in_time_order(level_spec(points, size, n)),
        forall|k: int|
            0 <= k < 2 * n ==> exists|i: int|
                0 <= i < least(n * size, points.len() as int) && #[trigger] level_spec(
                    points,
                    size,
                    n,
                )[k] == #[trigger] points[i],
    decreases n,
{
    lemma_level_len(points, size, n);
    if n > 0 {
        let m = (n - 1) as nat;
        lemma_level_len(points, size, m);
        assert(m > 0 ==> (m - 1) * size < points.len()) by (nonlinear_arith)
            requires
                m * size < points.len(),
                size > 0,
        ;
        lemma_level_in_order(points, size, m);
        let from = m * size;
        let to = least(n * size, points.len() as int);
        assert(from < n * size) by (nonlinear_arith)
            requires
                from == m * size,
                n == m + 1,
                size > 0,
        ;
        assert(from >= 0) by (nonlinear_arith)
            requires
                from == m * size,
                size > 0,
                m >= 0,
        ;
        lemma_envelope_indices(points, from, to);
        let front = level_spec(points, size, m);
        let all = level_spec(points, size, n);
        let pair = envelope(points, from, to);
        assert forall|k: int| 0 <= k < 2 * n implies exists|i: int|
            0 <= i < to && #[trigger] all[k] == #[trigger] points[i] by {
            if k < 2 * m {
                assert(all[k] == front[k]);
                let i = choose|i: int|
                    0 <= i < least(m * size, points.len() as int) && front[k]
                        == #[trigger] points[i];
                assert(0 <= i < to && all[k] == points[i]);
            } else {
                assert(all[k] == pair[k - 2 * m]);
                let i = if k == 2 * m {
                    least(lowest(points, from, to), highest(points, from, to))
                } else {
                    let lo = lowest(points, from, to);
                    let hi = highest(points, from, to);
                    if lo <= hi {
                        hi
                    } else {
                        lo
                    }
                };
                assert(all[k] == points[i]);
            }
        }
        assert forall|i: int, j: int| 0 <= i <= j < all.len() implies (#[trigger] all[i]).0 <= (
        #[trigger] all[j]).0 by {
            if j < 2 * m {
                assert(all[i] == front[i] && all[j] == front[j]);
            } else if i < 2 * m {
                assert(all[i] == front[i]);
                let a = choose|a: int|
                    0 <= a < least(m * size, points.len() as int) && front[i]
                        == #[trigger] points[a];
                assert(all[j] == pair[j - 2 * m]);
                assert(points[a].0 <= points[lowest(points, from, to)].0);
                assert(points[a].0 <= points[highest(points, from, to)].0);
            } else {
                assert(all[i] == pair[i - 2 * m] && all[j] == pair[j - 2 * m]);
            }
        }
    }
}

/// The envelope of one bucket, appended to a level.
fn push_envelope(level: &mut Vec<Sample>, points: &Vec<Sample>, from: usize, to: usize)
    requires
        from < to <= points@.len(),
    ensures
        final(level)@ == old(level)@ + envelope(points@, from as int, to as int),
{
    let mut lo: usize = from;
    let mut hi: usize = from;
    let mut i: usize = from + 1;
    while i < to
        invariant
            from < i <= to <= points@.len(),
            from <= lo < i,
            from <= hi < i,
            lo == lowest(points@, from as int, i as int),
            hi == highest(points@, from as int, i as int),
        decreases to - i,
    {
        if points[i].1.less(points[lo].1) {
            lo = i;
        }
        if points[hi].1.less(points[i].1) {
            hi = i;
        }
        i += 1;
    }
    if lo <= hi {
        level.push(points[lo]);
        level.push(points[hi]);
    } else {
        level.push(points[hi]);
        level.push(points[lo]);
    }
}

/// One level of detail: the envelope of each bucket of `size` samples.
fn build_level(points: &Vec<Sample>, size: usize) -> (level: Vec<Sample>)
    requires
        size > 0,
        in_time_order(points@),
    ensures
        level@ == level_spec(points@, size as int, buckets(points@.len() as int, size as int)),
        in_time_order(level@),
{
    let mut level: Vec<Sample> = Vec::new();
    let mut from: usize = 0;
    let ghost mut n: nat = 0;
    let ghost len = points@.len() as int;
    while from < points.len()
        invariant
            size > 0,
            len == points@.len(),
            from <= len,
            from == least(n * size, len),
            within(len, size as int, n),
            level@ == level_spec(points@, size as int, n),
        decreases len - from,
    {
        let to: usize = if points.len() - from <= size {
            points.len()
        } else {
            from + size
        };
        proof {
            assert((n + 1) * size == n * size + size) by (nonlinear_arith);
        }
        push_envelope(&mut level, points, from, to);
        proof {
            n = n + 1;
        }
        from = to;
    }
    proof {
        assert(n == buckets(len, size as int)) by {
            let q = len / size as int;
            let r = len % size as int;
            vstd::arithmetic::div_mod::lemma_fundamental_div_mod(len, size as int);
            let s = size as int;
            assert(s * q + r == len && 0 <= r < s);
            if n == 0 {
                assert(len == 0) by (nonlinear_arith)
                    requires
                        len == least(n * s, len) || len == 0,
                        least(n * s, len) <= n * s,
                        n == 0,
                        len >= 0,
                ;
                assert(q == 0) by (nonlinear_arith)
                    requires
                        s * q + r == 0,
                        0 <= r < s,
                ;
                assert(r == 0);
            } else {
                assert((n - 1) * s < len <= n * s);
                if r == 0 {
                    assert(q == n) by (nonlinear_arith)
                        requires
                            (n - 1) * s < s * q <= n * s,
                            s > 0,
                    ;
                } else {
                    assert(q + 1 == n) by (nonlinear_arith)
                        requires
                            (n - 1) * s < s * q + r <= n * s,
                            0 < r < s,
                    ;
                }
            }
        }
        lemma_level_in_order(points@, size as int, n);
    }
    level
}

/// The number of levels that are worth building, from `level` on.
pub open spec fn is_level_count(len: int, levels: nat) -> bool {
    &&& forall|l: nat| l < levels ==> worthwhile(len, #[trigger] bucket_size(l))
    &&& !worthwhile(len, bucket_size(levels))
}

/// A level of detail over samples.
pub open spec fn lod_spec(points: Seq<Sample>, level: nat) -> Seq<Sample> {
    let size = bucket_size(level);
    level_spec(points, size, buckets(points.len() as int, size))
}

/// Whether levels are the levels of detail of samples, finest first.
pub open spec fn are_lods(points: Seq<Sample>, lods: Seq<Vec<Sample>>) -> bool {
    &&& is_level_count(points.len() as int, lods.len())
    &&& forall|l: int|
        0 <= l < lods.len() ==> {
            &&& (#[trigger] lods[l])@ == lod_spec(points, l as nat)
            &&& in_time_order(lods[l]@)
        }
}

proof fn lemma_bucket_size_positive(level: nat)
    ensures
        bucket_size(level) >= LOD_FACTOR,
    decreases level,
{
    if level > 0 {
        lemma_bucket_size_positive((level - 1) as nat);
    }
}

fn build_lods(points: &Vec<Sample>) -> (lods: Vec<Vec<Sample>>)
    requires
        in_time_order(points@),
    ensures
        are_lods(points@, lods@),
{
    let mut lods: Vec<Vec<Sample>> = Vec::new();
    let mut size: usize = LOD_FACTOR;
    let ghost len = points@.len() as int;
    while points.len() / size >= MIN_LOD_POINTS / 2
        invariant_except_break
            size == bucket_size(lods@.len()),
        invariant
            size >= LOD_FACTOR,
            len == points@.len(),
            in_time_order(points@),
            forall|l: nat| l < lods@.len() ==> worthwhile(len, #[trigger] bucket_size(l)),
            forall|l: int|
                0 <= l < lods@.len() ==> {
                    &&& (#[trigger] lods@[l])@ == lod_spec(points@, l as nat)
                    &&& in_time_order(lods@[l]@)
                },
        ensures
            !worthwhile(len, bucket_size(lods@.len())),
        decreases usize::MAX - size,
    {
        proof {
            assert(worthwhile(len, size as int));
        }
        lods.push(build_level(points, size));
        proof {
            assert(bucket_size(lods@.len()) == LOD_FACTOR * size);
        }
        match size.checked_mul(LOD_FACTOR) {
            Some(next) => {
                size = next;
            },
            None => {
                proof {
                    let next = bucket_size(lods@.len());
                    assert(next > len);
                    vstd::arithmetic::div_mod::lemma_basic_div(len, next);
                }
                break;
            },
        }
    }
    lods
}

/// A named quantity over time.
pub struct TimeSeries {
    pub name: String,
    pub unit: Option<String>,
    /// Samples in the order of their times.
    pub raw: Vec<Sample>,
    /// Progressively coarser envelopes, finest first. Each level holds two points, the least
    /// and the greatest in the order in which they occur, per bucket of samples.
    pub lods: Vec<Vec<Sample>>,
}

/// What a series is at an instant.
#[derive(Clone, Copy, PartialEq, Eq, Structural, Debug)]
pub enum Reading {
    /// The value of the nearest sample, at or outside the series' ends.
    Held(Double),
    /// A point on the line between two neighbouring samples, `at` microseconds into the
    /// `of` that part them.
    Between { before: Double, after: Double, at: u64, of: u64 },
}

impl TimeSeries {
    /// The samples.
    pub open spec fn samples(self) -> Seq<Sample> {
        self.raw@
    }

    /// The levels of detail, finest first.
    pub open spec fn levels(self) -> Seq<Seq<Sample>> {
        self.lods@.map_values(|l: Vec<Sample>| l@)
    }

    /// Samples in the order of their times, under the levels of detail that they call for.
    pub open spec fn wf(self) -> bool {
        &&& in_time_order(self.samples())
        &&& is_level_count(self.samples().len() as int, self.levels().len())
        &&& forall|l: int|
            0 <= l < self.levels().len() ==> #[trigger] self.levels()[l] == lod_spec(
                self.samples(),
                l as nat,
            ) && in_time_order(self.levels()[l])
    }

    /// A series of the given samples, put in the order of their times. Samples of one time
    /// stay in the order in which they were given.
    pub fn from_points(name: &str, points: Vec<Sample>) -> (r: Self)
        ensures
            r.wf(),
            r.name@ == name@,
            r.unit is None,
            exists|order: Seq<usize>| #[trigger]
                is_stable_order(times(points@), order) && r.samples() == picked(points@, order),
    {
        let mut keys: Vec<i64> = Vec::new();
        let mut i: usize = 0;
        while i < points.len()
            invariant
                i <= points@.len(),
                keys@.len() == i,
                forall|k: int| 0 <= k < i ==> keys@[k] == (#[trigger] points@[k]).0,
            decreases points@.len() - i,
        {
            keys.push(points[i].0);
            i += 1;
        }
        assert(keys@ =~= times(points@));
        let order = stable_order(&keys);
        let mut raw: Vec<Sample> = Vec::new();
        let mut j: usize = 0;
        while j < order.len()
            invariant
                j <= order@.len(),
                is_stable_order(times(points@), order@),
                raw@.len() == j,
                forall|k: int| 0 <= k < j ==> #[trigger] raw@[k] == points@[order@[k] as int],
            decreases order@.len() - j,
        {
            raw.push(points[order[j]]);
            j += 1;
        }
        assert(raw@ =~= picked(points@, order@));
        proof {
            assert forall|a: int, b: int| 0 <= a <= b < raw@.len() implies (#[trigger] raw@[a]).0
                <= (#[trigger] raw@[b]).0 by {
                if a < b {
                    assert(order@[a] != order@[b]);
                    assert(crate::order::precedes(
                        times(points@),
                        order@[a] as int,
                        order@[b] as int,
                    ));
                }
            }
        }
        let lods = build_lods(&raw);
        TimeSeries { name: name.to_owned(), unit: None, raw, lods }
    }

    /// The series, with another unit.
    pub fn with_unit(self, unit: Option<String>) -> (r: Self)
        ensures
            r.name@ == self.name@,
            r.unit == unit,
            r.samples() == self.samples(),
            r.levels() == self.levels(),
    {
        TimeSeries { name: self.name, unit, raw: self.raw, lods: self.lods }
    }

    /// Number of samples, for the "how much data is behind this line" hint in the source
    /// browser.
    pub fn len(&self) -> (n: usize)
        ensures
            n == self.samples().len(),
    {
        self.raw.len()
    }

    pub fn is_empty(&self) -> (r: bool)
        ensures
            r == (self.samples().len() == 0),
    {
        self.raw.len() == 0
    }

    /// A sample, by its place in time.
    pub fn sample(&self, i: usize) -> (r: Sample)
        requires
            i < self.samples().len(),
        ensures
            r == self.samples()[i as int],
    {
        self.raw[i]
    }

    /// What [`TimeSeries::time_bounds`] returns.
    pub open spec fn time_bounds_spec(self) -> Option<(i64, i64)> {
        if self.samples().len() == 0 {
            None
        } else {
            Some((self.samples()[0].0, self.samples().last().0))
        }
    }

    /// The times of the first and the last sample.
    pub fn time_bounds(&self) -> (r: Option<(i64, i64)>)
        ensures
            r == self.time_bounds_spec(),
    {
        if self.raw.len() == 0 {
            None
        } else {
            Some((self.raw[0].0, self.raw[self.raw.len() - 1].0))
        }
    }

    /// Whether all of the series, moved by an offset, stays within what an instant can hold.
    pub open spec fn fits(self, offset: i64) -> bool {
        match self.time_bounds_spec() {
            Some((lo, hi)) => i64::MIN <= lo + offset && hi + offset <= i64::MAX,
            None => true,
        }
    }

    /// How many samples cover a range.
    pub open spec fn covering(points: Seq<Sample>, t0: int, t1: int) -> int {
        let (lo, hi) = range_spec(points, t0, t1);
        if lo <= hi {
            hi - lo
        } else {
            0
        }
    }

    /// The coarsest of the first `n` levels of detail that still has `target` points in a
    /// range, or the samples themselves where none has.
    pub open spec fn level_for(self, n: nat, t0: int, t1: int, target: int) -> Seq<Sample>
        decreases n,
    {
        if n == 0 {
            self.samples()
        } else if Self::covering(self.levels()[n - 1], t0, t1) >= target {
            self.levels()[n - 1]
        } else {
            self.level_for((n - 1) as nat, t0, t1, target)
        }
    }

    fn level(&self, t0: i128, t1: i128, target: usize) -> (level: &Vec<Sample>)
        requires
            self.wf(),
            t1 < i128::MAX,
        ensures
            level@ == self.level_for(self.levels().len(), t0 as int, t1 as int, target as int),
            in_time_order(level@),
            level@ == self.samples() || exists|l: int|
                0 <= l < self.levels().len() && level@ == #[trigger] self.levels()[l],
    {
        let mut n: usize = self.lods.len();
        while n > 0
            invariant
                n <= self.lods@.len() == self.levels().len(),
                self.wf(),
                t1 < i128::MAX,
                self.level_for(n as nat, t0 as int, t1 as int, target as int) == self.level_for(
                    self.levels().len(),
                    t0 as int,
                    t1 as int,
                    target as int,
                ),
            decreases n,
        {
            assert(self.levels()[n - 1] == self.lods@[n - 1]@);
            let (lo, hi) = range_indices(&self.lods[n - 1], t0, t1);
            let covering: usize = if lo <= hi {
                hi - lo
            } else {
                0
            };
            if covering >= target {
                return &self.lods[n - 1];
            }
            n -= 1;
        }
        &self.raw
    }

    /// Samples moved by an offset.
    pub open spec fn moved(points: Seq<Sample>, offset: i64) -> Seq<Sample> {
        points.map_values(|p: Sample| ((p.0 + offset) as i64, p.1))
    }

    /// The points that cover a range of a list.
    pub open spec fn covered(points: Seq<Sample>, t0: int, t1: int) -> Seq<Sample> {
        let (lo, hi) = range_spec(points, t0, t1);
        if lo <= hi {
            points.subrange(lo, hi)
        } else {
            Seq::empty()
        }
    }

    /// The points covering `t0` to `t1` of the master timeline, on which the series stands
    /// `offset` later than its own clock says: of the coarsest level of detail that still has
    /// `target_points` there, or the samples where none has.
    pub fn slice_for_range(&self, t0: i64, t1: i64, offset: i64, target_points: usize) -> (r: Vec<
        Sample,
    >)
        requires
            self.wf(),
            self.fits(offset),
        ensures
            r@ == Self::moved(
                Self::covered(
                    self.level_for(
                        self.levels().len(),
                        t0 - offset,
                        t1 - offset,
                        target_points as int,
                    ),
                    t0 - offset,
                    t1 - offset,
                ),
                offset,
            ),
    {
        let raw_t0: i128 = t0 as i128 - offset as i128;
        let raw_t1: i128 = t1 as i128 - offset as i128;
        let level = self.level(raw_t0, raw_t1, target_points);
        let (lo, hi) = range_indices(level, raw_t0, raw_t1);
        let mut out: Vec<Sample> = Vec::new();
        let ghost part = Self::covered(level@, raw_t0 as int, raw_t1 as int);
        if lo <= hi {
            let mut i: usize = lo;
            while i < hi
                invariant
                    lo <= i <= hi <= level@.len(),
                    self.wf(),
                    self.fits(offset),
                    level@ == self.samples() || exists|l: int|
                        0 <= l < self.levels().len() && level@ == #[trigger] self.levels()[l],
                    part == level@.subrange(lo as int, hi as int),
                    out@ == Self::moved(part.take(i - lo), offset),
                decreases hi - i,
            {
                proof {
                    self.lemma_level_within(level@, i as int);
                    assert(part.take(i - lo + 1) =~= part.take(i - lo).push(level@[i as int]));
                }
                out.push((level[i].0 + offset, level[i].1));
                i += 1;
            }
            assert(part.take(hi - lo) =~= part);
        }
        out
    }

    /// Every point of a level of detail is a sample.
    proof fn lemma_level_within(self, level: Seq<Sample>, k: int)
        requires
            self.wf(),
            0 <= k < level.len(),
            level == self.samples() || exists|l: int|
                0 <= l < self.levels().len() && level == #[trigger] self.levels()[l],
        ensures
            self.samples().contains(level[k]),
            self.samples().len() > 0,
            self.samples()[0].0 <= level[k].0 <= self.samples().last().0,
    {
        let points = self.samples();
        if level == points {
            assert(points.contains(points[k]));
        } else {
            let l = choose|l: int| 0 <= l < self.levels().len() && level == #[trigger]
                self.levels()[l];
            points_of_a_level_are_samples(points, l as nat, k);
        }
        let i = points.index_of(level[k]);
        assert(points[i] == level[k]);
        assert(points[0].0 <= points[i].0 <= points[points.len() - 1].0);
    }

    /// Whether `bounds` are the least and the greatest number among points: each is one of
    /// them, and no number is beyond.
    pub open spec fn bounds_values(points: Seq<Sample>, lo: Double, hi: Double) -> bool {
        &&& exists|i: int| 0 <= i < points.len() && (#[trigger] points[i]).1 == lo
        &&& exists|i: int| 0 <= i < points.len() && (#[trigger] points[i]).1 == hi
        &&& forall|i: int|
            0 <= i < points.len() ==> !(#[trigger] points[i]).1.lt(lo) && !hi.lt(points[i].1)
    }

    /// Whether some points have values to scale an axis by: at least one number, and none that
    /// is infinite.
    pub open spec fn has_bounds(points: Seq<Sample>) -> bool {
        &&& exists|i: int| 0 <= i < points.len() && !(#[trigger] points[i]).1.nan()
        &&& forall|i: int|
            0 <= i < points.len() ==> (#[trigger] points[i]).1.nan() || points[i].1.finite()
    }

    /// The points that the value bounds of a range are taken from: the coarsest level of
    /// detail with 32 points there is exact enough for scaling an axis.
    pub open spec fn bounded(self, t0: int, t1: int) -> Seq<Sample> {
        Self::covered(self.level_for(self.levels().len(), t0, t1, 32), t0, t1)
    }

    /// The least and the greatest value in a range of the master timeline, over the samples that
    /// a line drawn there runs through: those in the range, and the next one outside it at
    /// either end. A range past the last sample is therefore bounded by that sample, and not
    /// without bounds: the figure of such a window has the axis of the value the data ended
    /// with. `None` where there is no number, or an infinite one.
    pub fn value_bounds_in_range(&self, t0: i64, t1: i64, offset: i64) -> (r: Option<
        (Double, Double),
    >)
        requires
            self.wf(),
        ensures
            r is Some <==> Self::covering(self.samples(), t0 - offset, t1 - offset) > 0
                && Self::has_bounds(self.bounded(t0 - offset, t1 - offset)),
            match r {
                Some((lo, hi)) => lo.finite() && hi.finite() && Self::bounds_values(
                    self.bounded(t0 - offset, t1 - offset),
                    lo,
                    hi,
                ),
                None => true,
            },
    {
        let raw_t0: i128 = t0 as i128 - offset as i128;
        let raw_t1: i128 = t1 as i128 - offset as i128;
        let (lo, hi) = range_indices(&self.raw, raw_t0, raw_t1);
        if lo >= hi {
            return None;
        }
        let level = self.level(raw_t0, raw_t1, 32);
        let (lo, hi) = range_indices(level, raw_t0, raw_t1);
        let ghost part = Self::covered(level@, raw_t0 as int, raw_t1 as int);
        let mut found: Option<(Double, Double)> = None;
        if lo > hi {
            return None;
        }
        let mut i: usize = lo;
        while i < hi
            invariant
                lo <= i <= hi <= level@.len(),
                part == level@.subrange(lo as int, hi as int),
                match found {
                    None => forall|k: int| 0 <= k < i - lo ==> (#[trigger] part[k]).1.nan(),
                    Some((a, b)) => !a.nan() && !b.nan() && Self::bounds_values(
                        part.take(i - lo),
                        a,
                        b,
                    ),
                },
            decreases hi - i,
        {
            let v = level[i].1;
            let ghost front = part.take(i - lo);
            let ghost next = part.take(i - lo + 1);
            assert(part[i - lo] == level@[i as int]);
            assert(next[i - lo].1 == v);
            if !v.is_nan() {
                let ghost was = found;
                found =
                match found {
                    None => Some((v, v)),
                    Some((a, b)) => Some(
                        (
                            if v.less(a) {
                                v
                            } else {
                                a
                            },
                            if b.less(v) {
                                v
                            } else {
                                b
                            },
                        ),
                    ),
                };
                proof {
                    match was {
                        None => {
                            assert forall|k: int| 0 <= k < next.len() implies !(
                            #[trigger] next[k]).1.lt(v) && !v.lt(next[k].1) by {
                                assert(next[k] == part[k]);
                            }
                        },
                        Some((a, b)) => {
                            let x = choose|x: int|
                                0 <= x < front.len() && (#[trigger] front[x]).1 == a;
                            let y = choose|y: int|
                                0 <= y < front.len() && (#[trigger] front[y]).1 == b;
                            assert(next[x] == front[x] && next[y] == front[y]);
                            assert forall|k: int| 0 <= k < next.len() implies !(
                            #[trigger] next[k]).1.lt(
                                found.unwrap().0,
                            ) && !found.unwrap().1.lt(next[k].1) by {
                                if k < front.len() {
                                    assert(next[k] == front[k]);
                                }
                            }
                        },
                    }
                }
            } else {
                proof {
                    if let Some((a, b)) = found {
                        let x = choose|x: int|
                            0 <= x < front.len() && (#[trigger] front[x]).1 == a;
                        let y = choose|y: int|
                            0 <= y < front.len() && (#[trigger] front[y]).1 == b;
                        assert(next[x] == front[x] && next[y] == front[y]);
                        assert forall|k: int| 0 <= k < next.len() implies !(
                        #[trigger] next[k]).1.lt(a) && !b.lt(next[k].1) by {
                            if k < front.len() {
                                assert(next[k] == front[k]);
                            }
                        }
                    }
                }
            }
            i += 1;
        }
        assert(part.take(hi - lo) =~= part);
        match found {
            Some((a, b)) => {
                if a.is_finite() && b.is_finite() {
                    proof {
                        assert forall|k: int| 0 <= k < part.len() implies (
                        #[trigger] part[k]).1.nan() || part[k].1.finite() by {
                            assert(!part[k].1.lt(a) && !b.lt(part[k].1));
                        }
                    }
                    Some((a, b))
                } else {
                    None
                }
            },
            None => None,
        }
    }

    /// The last sample at or before an instant of the series' own clock.
    pub open spec fn last_by(self, t: int) -> Option<Sample> {
        let n = count_before(self.samples(), t + 1) as int;
        if n == 0 {
            None
        } else {
            Some(self.samples()[n - 1])
        }
    }

    /// The last sample at or before an instant of the master timeline, at its own instant there.
    pub fn last_at_or_before(&self, t_master: i64, offset: i64) -> (r: Option<Sample>)
        requires
            self.wf(),
            self.fits(offset),
        ensures
            match self.last_by(t_master - offset) {
                Some(p) => r == Some(((p.0 + offset) as i64, p.1)) && i64::MIN <= p.0 + offset
                    <= i64::MAX && p.0 + offset <= t_master,
                None => r is None,
            },
    {
        let t: i128 = t_master as i128 - offset as i128;
        let n = partition_point(&self.raw, t + 1);
        if n == 0 {
            return None;
        }
        let (at, value) = self.raw[n - 1];
        assert(self.samples()[0].0 <= at <= self.samples().last().0);
        Some((at + offset, value))
    }

    /// What the series is at an instant of the master timeline: the value of the first or the
    /// last sample outside its ends, and on the line between the two neighbours inside.
    pub open spec fn reading_spec(self, t: int) -> Option<Reading> {
        let points = self.samples();
        let i = count_before(points, t) as int;
        if points.len() == 0 {
            None
        } else if i == 0 {
            Some(Reading::Held(points[0].1))
        } else if i == points.len() {
            Some(Reading::Held(points[i - 1].1))
        } else {
            Some(
                Reading::Between {
                    before: points[i - 1].1,
                    after: points[i].1,
                    at: (t - points[i - 1].0) as u64,
                    of: (points[i].0 - points[i - 1].0) as u64,
                },
            )
        }
    }

    /// What the series is at an instant of the master timeline.
    pub fn value_at(&self, t_master: i64, offset: i64) -> (r: Option<Reading>)
        requires
            self.wf(),
        ensures
            r == self.reading_spec(t_master - offset),
            r matches Some(Reading::Between { at, of, .. }) ==> 0 < at <= of,
    {
        if self.raw.len() == 0 {
            return None;
        }
        let t: i128 = t_master as i128 - offset as i128;
        let i = partition_point(&self.raw, t);
        if i == 0 {
            return Some(Reading::Held(self.raw[0].1));
        }
        if i == self.raw.len() {
            return Some(Reading::Held(self.raw[i - 1].1));
        }
        let (t0, before) = self.raw[i - 1];
        let (t1, after) = self.raw[i];
        Some(
            Reading::Between {
                before,
                after,
                at: (t - t0 as i128) as u64,
                of: (t1 as i128 - t0 as i128) as u64,
            },
        )
    }
}

/// Decimation invents nothing: every point of a level of detail is one of the samples.
pub proof fn points_of_a_level_are_samples(points: Seq<Sample>, level: nat, k: int)
    requires
        in_time_order(points),
        0 <= k < lod_spec(points, level).len(),
    ensures
        points.contains(lod_spec(points, level)[k]),
{
    let size = bucket_size(level);
    let n = buckets(points.len() as int, size);
    lemma_bucket_size_positive(level);
    lemma_buckets_within(points.len() as int, size);
    lemma_level_len(points, size, n);
    lemma_level_in_order(points, size, n);
    let i = choose|i: int|
        0 <= i < least(n * size, points.len() as int) && #[trigger] level_spec(points, size, n)[k]
            == #[trigger] points[i];
    assert(points[i] == lod_spec(points, level)[k]);
}

proof fn lemma_buckets_within(len: int, size: int)
    requires
        len >= 0,
        size > 0,
    ensures
        within(len, size, buckets(len, size)),
        buckets(len, size) * size >= len,
{
    let q = len / size;
    let r = len % size;
    vstd::arithmetic::div_mod::lemma_fundamental_div_mod(len, size);
    assert(q >= 0) by (nonlinear_arith)
        requires
            size * q + r == len,
            0 <= r < size,
            len >= 0,
    ;
    let n = buckets(len, size);
    if r == 0 {
        assert(n > 0 ==> (n - 1) * size < len) by (nonlinear_arith)
            requires
                n == q,
                size * q == len,
                size > 0,
        ;
        assert(n * size >= len) by (nonlinear_arith)
            requires
                n == q,
                size * q == len,
        ;
    } else {
        assert((n - 1) * size < len) by (nonlinear_arith)
            requires
                n == q + 1,
                size * q + r == len,
                0 < r,
        ;
        assert(n * size >= len) by (nonlinear_arith)
            requires
                n == q + 1,
                size * q + r == len,
                r < size,
        ;
    }
}

proof fn lemma_level_at(points: Seq<Sample>, size: int, n: nat, b: int)
    requires
        0 <= b < n,
    ensures
        level_spec(points, size, n).len() == 2 * n,
        level_spec(points, size, n).subrange(2 * b, 2 * b + 2) == envelope(
            points,
            b * size,
            least((b + 1) * size, points.len() as int),
        ),
    decreases n,
{
    lemma_level_len(points, size, n);
    lemma_level_len(points, size, (n - 1) as nat);
    let all = level_spec(points, size, n);
    let front = level_spec(points, size, (n - 1) as nat);
    if b < n - 1 {
        lemma_level_at(points, size, (n - 1) as nat, b);
        assert(all.subrange(2 * b, 2 * b + 2) =~= front.subrange(2 * b, 2 * b + 2));
    } else {
        assert(all.subrange(2 * b, 2 * b + 2) =~= envelope(
            points,
            b * size,
            least((b + 1) * size, points.len() as int),
        ));
    }
}

/// Decimation keeps the extremes: for every number among the samples, each level of detail
/// holds a point no higher and a point no lower, unless the sample's bucket starts with
/// something that is not a number.
pub proof fn a_level_keeps_the_extremes(points: Seq<Sample>, level: nat, i: int)
    requires
        in_time_order(points),
        0 <= i < points.len(),
        !points[i / bucket_size(level) * bucket_size(level)].1.nan(),
    ensures
        exists|k: int|
            0 <= k < lod_spec(points, level).len() && !points[i].1.lt(
                (#[trigger] lod_spec(points, level)[k]).1,
            ) && !lod_spec(points, level)[k].1.nan(),
        exists|k: int|
            0 <= k < lod_spec(points, level).len() && !(#[trigger] lod_spec(
                points,
                level,
            )[k]).1.lt(points[i].1) && !lod_spec(points, level)[k].1.nan(),
{
    let size = bucket_size(level);
    let len = points.len() as int;
    let n = buckets(len, size);
    lemma_bucket_size_positive(level);
    lemma_buckets_within(len, size);
    let b = i / size;
    vstd::arithmetic::div_mod::lemma_fundamental_div_mod(i, size);
    let r = i % size;
    assert(b >= 0) by (nonlinear_arith)
        requires
            size * b + r == i,
            0 <= r < size,
            i >= 0,
    ;
    assert(b * size <= i < (b + 1) * size) by (nonlinear_arith)
        requires
            size * b + r == i,
            0 <= r < size,
    ;
    assert(b < n) by (nonlinear_arith)
        requires
            b * size <= i,
            i < len,
            n * size >= len,
            size > 0,
    ;
    let from = b * size;
    let to = least((b + 1) * size, len);
    lemma_level_at(points, size, n, b);
    the_envelope_bounds_its_bucket(points, from, to, i);
    lemma_envelope_indices(points, from, to);
    let all = lod_spec(points, level);
    let pair = all.subrange(2 * b, 2 * b + 2);
    assert(all[2 * b] == pair[0] && all[2 * b + 1] == pair[1]);
    let lo = points[lowest(points, from, to)];
    let hi = points[highest(points, from, to)];
    if lowest(points, from, to) <= highest(points, from, to) {
        assert(all[2 * b] == lo && all[2 * b + 1] == hi);
    } else {
        assert(all[2 * b] == hi && all[2 * b + 1] == lo);
    }
}

/// Samples already in time order are kept as they are.
pub proof fn ordered_samples_are_kept(points: Seq<Sample>, order: Seq<usize>)
    requires
        in_time_order(points),
        points.len() <= usize::MAX,
        is_stable_order(times(points), order),
    ensures
        picked(points, order) == points,
{
    stable_order_keeps_a_sorted_list(times(points), order);
    assert(picked(points, order) =~= points);
}

/// Putting samples in the order of their times keeps every one of them: each stands in the result
/// once, with its value still at its own time, and those of one time stay in the order they had.
pub proof fn sorting_keeps_every_sample(points: Seq<Sample>, order: Seq<usize>)
    requires
        points.len() <= usize::MAX,
        is_stable_order(times(points), order),
    ensures
        picked(points, order).len() == points.len(),
        order.no_duplicates(),
        forall|i: int|
            0 <= i < points.len() ==> picked(points, order).contains(#[trigger] points[i]),
        forall|a: int, b: int|
            0 <= a < b < order.len() ==> {
                let (x, y) = (#[trigger] order[a], #[trigger] order[b]);
                points[x as int].0 < points[y as int].0 || (points[x as int].0
                    == points[y as int].0 && x < y)
            },
{
    assert forall|a: int, b: int| 0 <= a < b < order.len() implies {
        let (x, y) = (#[trigger] order[a], #[trigger] order[b]);
        points[x as int].0 < points[y as int].0 || (points[x as int].0 == points[y as int].0 && x
            < y)
    } by {
        assert(crate::order::precedes(times(points), order[a] as int, order[b] as int));
    }
    assert forall|i: int| 0 <= i < points.len() implies picked(points, order).contains(
        #[trigger] points[i],
    ) by {
        assert(order.contains(i as usize));
        let k = order.index_of(i as usize);
        assert(order[k] == i as usize);
        assert(picked(points, order)[k] == points[i]);
    }
}

proof fn lemma_level_no_longer(points: Seq<Sample>, level: nat)
    requires
        worthwhile(points.len() as int, bucket_size(level)),
    ensures
        lod_spec(points, level).len() <= points.len(),
{
    let size = bucket_size(level);
    let len = points.len() as int;
    lemma_bucket_size_positive(level);
    lemma_level_len(points, size, buckets(len, size));
    let q = len / size;
    vstd::arithmetic::div_mod::lemma_fundamental_div_mod(len, size);
    vstd::arithmetic::div_mod::lemma_mod_bound(len, size);
    let r = len % size;
    assert(2 * (q + 1) <= len) by (nonlinear_arith)
        requires
            len == size * q + r,
            r >= 0,
            size >= 8,
            q >= 1,
    ;
}

/// Over everything and with more points wanted than there are samples, a slice is the samples
/// themselves, moved by the offset.
pub proof fn a_slice_over_everything_is_the_samples(
    series: TimeSeries,
    t0: i64,
    t1: i64,
    offset: i64,
    target: usize,
)
    requires
        series.wf(),
        series.fits(offset),
        series.samples().len() < target,
        forall|i: int|
            0 <= i < series.samples().len() ==> t0 <= (#[trigger] series.samples()[i]).0 + offset
                <= t1,
    ensures
        ({
            let level = series.level_for(
                series.levels().len(),
                t0 - offset,
                t1 - offset,
                target as int,
            );
            let slice = TimeSeries::moved(
                TimeSeries::covered(level, t0 - offset, t1 - offset),
                offset,
            );
            &&& slice == TimeSeries::moved(series.samples(), offset)
            &&& offset == 0 ==> slice == series.samples()
        }),
{
    let points = series.samples();
    let (a, b) = (t0 - offset, t1 - offset);
    lemma_samples_for(series, series.levels().len(), a, b, target as int);
    the_earlier_come_first(points, a, 0);
    the_earlier_come_first(points, b + 1, points.len() as int);
    assert(points.subrange(0, points.len() as int) =~= points);
    if offset == 0 {
        assert(TimeSeries::moved(points, offset) =~= points);
    }
}

proof fn lemma_samples_for(series: TimeSeries, n: nat, t0: int, t1: int, target: int)
    requires
        series.wf(),
        n <= series.levels().len(),
        series.samples().len() < target,
    ensures
        series.level_for(n, t0, t1, target) == series.samples(),
    decreases n,
{
    if n > 0 {
        let level = series.levels()[n - 1];
        assert(worthwhile(series.samples().len() as int, bucket_size((n - 1) as nat)));
        lemma_level_no_longer(series.samples(), (n - 1) as nat);
        assert(level == lod_spec(series.samples(), (n - 1) as nat));
        assert(TimeSeries::covering(level, t0, t1) <= level.len());
        lemma_samples_for(series, (n - 1) as nat, t0, t1, target);
    }
}

} // verus!
