//! The waveform overview of a recording.
use vstd::prelude::*;

use crate::double::{Double, INFINITY_BITS, SIGN_BIT};

verus! {

broadcast use vstd::seq_lib::group_seq_properties;

/// Number of buckets to generate for the waveform overview, independent of the audio's actual
/// length.
pub const WAVEFORM_BUCKETS: usize = 4000;

/// The least number from `from` to before `to`; infinity where there is none.
pub open spec fn trough(samples: Seq<Double>, from: int, to: int) -> Double
    decreases to - from,
{
    if to <= from {
        Double { bits: INFINITY_BITS }
    } else {
        let rest = trough(samples, from, to - 1);
        if samples[to - 1].lt(rest) {
            samples[to - 1]
        } else {
            rest
        }
    }
}

/// The greatest number from `from` to before `to`; negative infinity where there is none.
pub open spec fn crest(samples: Seq<Double>, from: int, to: int) -> Double
    decreases to - from,
{
    if to <= from {
        Double { bits: (SIGN_BIT + INFINITY_BITS) as u64 }
    } else {
        let rest = crest(samples, from, to - 1);
        if rest.lt(samples[to - 1]) {
            samples[to - 1]
        } else {
            rest
        }
    }
}

/// The number of samples to a bucket.
pub open spec fn samples_per_bucket(len: int) -> int {
    if len / (WAVEFORM_BUCKETS as int) > 1 {
        len / (WAVEFORM_BUCKETS as int)
    } else {
        1
    }
}

/// The lesser of two.
pub open spec fn least(a: int, b: int) -> int {
    if a <= b {
        a
    } else {
        b
    }
}

/// The extremes of each bucket in turn, from `from` on.
pub open spec fn peaks_from(samples: Seq<Double>, size: int, from: int) -> Seq<(Double, Double)>
    decreases samples.len() - from,
{
    if size <= 0 || from >= samples.len() {
        Seq::empty()
    } else {
        let to = least(from + size, samples.len() as int);
        seq![(trough(samples, from, to), crest(samples, from, to))] + peaks_from(
            samples,
            size,
            to,
        )
    }
}

/// The extremes of each bucket of a recording, evenly spaced across it.
pub fn waveform(samples: &Vec<Double>) -> (r: Vec<(Double, Double)>)
    ensures
        r@ == peaks_from(samples@, samples_per_bucket(samples@.len() as int), 0),
{
    let len: usize = samples.len();
    let size: usize = if len / WAVEFORM_BUCKETS > 1 {
        len / WAVEFORM_BUCKETS
    } else {
        1
    };
    let mut out: Vec<(Double, Double)> = Vec::new();
    let mut from: usize = 0;
    let ghost all = peaks_from(samples@, size as int, 0);
    assert(out@ + all =~= all);
    while from < len
        invariant
            len == samples@.len(),
            size >= 1,
            from <= len,
            out@ + peaks_from(samples@, size as int, from as int) == all,
        decreases len - from,
    {
        let to: usize = if len - from <= size {
            len
        } else {
            from + size
        };
        let mut lo = Double { bits: INFINITY_BITS };
        let mut hi = Double { bits: 0xFFF0_0000_0000_0000 };
        let mut i: usize = from;
        while i < to
            invariant
                from <= i <= to <= len == samples@.len(),
                lo == trough(samples@, from as int, i as int),
                hi == crest(samples@, from as int, i as int),
            decreases to - i,
        {
            if samples[i].less(lo) {
                lo = samples[i];
            }
            if hi.less(samples[i]) {
                hi = samples[i];
            }
            i += 1;
        }
        let ghost before = out@;
        out.push((lo, hi));
        proof {
            let rest = peaks_from(samples@, size as int, to as int);
            assert(before + (seq![(lo, hi)] + rest) =~= out@ + rest);
        }
        from = to;
    }
    assert(out@ + Seq::<(Double, Double)>::empty() =~= out@);
    out
}

/// No sample of a bucket is below its trough or above its crest.
pub proof fn the_waveform_encloses_its_samples(samples: Seq<Double>, from: int, to: int, i: int)
    requires
        from <= i < to,
    ensures
        !samples[i].lt(trough(samples, from, to)),
        !crest(samples, from, to).lt(samples[i]),
    decreases to - from,
{
    lemma_extremes_are_numbers(samples, from, to - 1);
    if i < to - 1 {
        the_waveform_encloses_its_samples(samples, from, to - 1, i);
    }
}

proof fn lemma_extremes_are_numbers(samples: Seq<Double>, from: int, to: int)
    ensures
        !trough(samples, from, to).nan(),
        !crest(samples, from, to).nan(),
    decreases to - from,
{
    if to > from {
        lemma_extremes_are_numbers(samples, from, to - 1);
    }
}

} // verus!
