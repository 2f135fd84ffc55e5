//! How a burst is sliced into runs and marks.

use vstd::prelude::*;
#[allow(unused_imports)]
use crate::dsp::ook::us_spec;
#[allow(unused_imports)]
use crate::dsp::twolevel::{
    alternate, begins, glitches_read_as_what_they_interrupt, least_run, levels_spec, paired,
    present, raw_runs, raw_runs_facts, reads, runs_alternate_without_glitches, runs_spec,
};

verus! {

/// A burst has levels exactly when sixteen of its samples are there.
pub proof fn sixteen_samples_have_levels(samples: Seq<Option<i64>>)
    ensures
        levels_spec(samples) is Some <==> present(samples).len() >= 16,
{
}

/// The samples that are there are kept in their order, and missing ones are left
/// out.
pub proof fn missing_samples_are_left_out(samples: Seq<Option<i64>>, v: i64)
    ensures
        present(Seq::empty()).len() == 0,
        present(samples.push(Some(v))) == present(samples).push(v),
        present(samples.push(None)) == present(samples),
{
    assert(samples.push(Some(v)).drop_last() =~= samples);
    assert(samples.push(None).drop_last() =~= samples);
}

/// Of the runs of level in a burst, those as long as the shortest that is asked
/// for stay as they are, and a shorter one that is not the first reads as what
/// comes before it. So no run but the first is shorter than was asked for.
pub proof fn runs_are_as_long_as_asked(
    samples: Seq<Option<i64>>,
    low: int,
    high: int,
    min_run: nat,
    k: int,
    i: int,
)
    requires
        0 <= k < raw_runs(samples, samples.len(), low, high).len(),
        ({
            let raw = raw_runs(samples, samples.len(), low, high);
            begins(raw, k) <= i < begins(raw, k) + raw[k].1
        }),
    ensures
        ({
            let raw = raw_runs(samples, samples.len(), low, high);
            let runs = runs_spec(samples, low, high, min_run);
            &&& k == 0 || raw[k].1 >= min_run ==> reads(runs, i) == raw[k].0
            &&& k > 0 && raw[k].1 < min_run ==> reads(runs, i) == reads(runs, begins(raw, k) - 1)
            &&& forall|j: int| 1 <= j < runs.len() ==> (#[trigger] runs[j]).1 >= min_run
        }),
{
    let raw = raw_runs(samples, samples.len(), low, high);
    raw_runs_facts(samples, samples.len(), low, high);
    assert(raw[k].1 >= 1);
    glitches_read_as_what_they_interrupt(raw, least_run(min_run), k, i);
    runs_alternate_without_glitches(samples, low, high, min_run);
}

/// Runs that are never high give no pulse.
pub proof fn silence_gives_no_pulse(runs: Seq<(bool, int)>, rate: int, reset_us: u32)
    requires
        alternate(runs),
        forall|i: int| 0 <= i < runs.len() ==> !(#[trigger] runs[i]).0,
    ensures
        paired(runs, rate, reset_us).len() == 0,
{
    if runs.len() > 0 {
        assert(!runs[0].0);
    }
    if runs.len() > 1 {
        assert(runs[1].0 != runs[0].0);
        assert(!runs[1].0);
    }
}

/// Runs are taken two by two as they come: the first that is high, or the second
/// where the first is not, is a mark, the next its gap, and so on to the end.
pub proof fn runs_are_taken_two_by_two(runs: Seq<(bool, int)>, rate: int, reset_us: u32, k: int)
    requires
        runs.len() > 0,
    ensures
        ({
            let p = paired(runs, rate, reset_us);
            let first = if runs[0].0 {
                0int
            } else {
                1
            };
            &&& 2 * p.len() <= runs.len() - first + 1 < 2 * p.len() + 2
            &&& 0 <= k < p.len() ==> p[k].mark == us_spec(runs[first + 2 * k].1 as nat, rate)
            &&& 0 <= k < p.len() && first + 2 * k + 1 < runs.len() ==> p[k].gap == us_spec(
                runs[first + 2 * k + 1].1 as nat,
                rate,
            )
            &&& 0 <= k < p.len() && first + 2 * k + 1 == runs.len() ==> p[k].gap == reset_us
        }),
{
}

} // verus!
