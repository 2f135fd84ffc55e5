//! Thresholding a buffered burst that has two levels.
//!
//! The two levels are frequencies for a frequency-keyed burst and amplitudes
//! for an amplitude-keyed one. Neither can be thresholded in advance: both sit
//! wherever the path and the crystal put them, so they are measured from the
//! burst itself.
//!
//! A sample is an integer that orders as the measurement does, and is absent
//! where the measurement says nothing about either level.

use vstd::prelude::*;
use crate::dsp::ook::samples_to_us;
#[allow(unused_imports)]
use crate::dsp::ook::us_spec;
#[allow(unused_imports)]
use crate::dsp::bursts::durations_are_right;
use crate::dsp::pulse::Pulse;
use crate::fixed::{nearest, Micro};
#[allow(unused_imports)]
use crate::fixed::{nearest_bounds, nearest_spec};
use crate::sort::sort;
#[allow(unused_imports)]
use crate::sort::{in_order, ordered, orders};

verus! {

/// The samples that are there, in the order they came.
pub open spec fn present(samples: Seq<Option<i64>>) -> Seq<i64>
    decreases samples.len(),
{
    if samples.len() == 0 {
        Seq::empty()
    } else {
        match samples.last() {
            Some(v) => present(samples.drop_last()).push(v),
            None => present(samples.drop_last()),
        }
    }
}

/// Position of percentile `q` in `n` ordered samples.
pub open spec fn percentile_at(n: nat, q: nat) -> nat {
    nearest_spec(((n - 1) * q) as nat, 100)
}

/// The two levels of a burst: its second and its ninety-eighth percentile.
pub open spec fn levels_spec(samples: Seq<Option<i64>>) -> Option<(i64, i64)> {
    let kept = present(samples);
    if kept.len() < 16 {
        None
    } else {
        Some(
            (
                ordered(kept)[percentile_at(kept.len(), 2) as int],
                ordered(kept)[percentile_at(kept.len(), 98) as int],
            ),
        )
    }
}

proof fn percentile_is_inside(n: nat, q: nat)
    requires
        n >= 1,
        q <= 100,
    ensures
        percentile_at(n, q) < n,
{
    let num = ((n - 1) * q) as nat;
    assert(num <= 100 * (n - 1)) by (nonlinear_arith)
        requires
            num == (n - 1) * q,
            q <= 100,
            n >= 1,
    ;
    assert(nearest_spec(num, 100) == (2 * num + 100) / 200);
}

/// The two levels of a burst, as percentiles rather than the true extremes: a
/// single outlier decides a least or a greatest sample. None when fewer than
/// sixteen samples are there.
pub fn levels(samples: &[Option<i64>]) -> (r: Option<(i64, i64)>)
    ensures
        r == levels_spec(samples@),
        r matches Some((low, high)) ==> low <= high,
{
    let mut kept: Vec<i64> = Vec::new();
    let mut i: usize = 0;
    let n: usize = samples.len();
    while i < n
        invariant
            n == samples@.len(),
            i <= n,
            kept@ == present(samples@.take(i as int)),
        decreases n - i,
    {
        assert(samples@.take(i + 1).drop_last() =~= samples@.take(i as int));
        match samples[i] {
            Some(v) => {
                kept.push(v);
            },
            None => {},
        }
        i += 1;
    }
    assert(samples@.take(n as int) =~= samples@);
    if kept.len() < 16 {
        return None;
    }
    let sorted: Vec<i64> = sort(&kept);
    proof {
        broadcast use vstd::seq_lib::group_to_multiset_ensures;

        assert(sorted@.to_multiset().len() == kept@.to_multiset().len());
        percentile_is_inside(kept@.len(), 2);
        percentile_is_inside(kept@.len(), 98);
    }
    let last: u128 = (kept.len() - 1) as u128;
    let low: u128 = nearest(last * 2, 100);
    let high: u128 = nearest(last * 98, 100);
    assert(low == (4 * last + 100) / 200);
    assert(high == (196 * last + 100) / 200);
    assert(low <= high < sorted@.len());
    assert(sorted@[low as int] <= sorted@[high as int]);
    Some((sorted[low as usize], sorted[high as usize]))
}

/// Whether a sample reads as high. A high level is left only below the lower
/// threshold and entered only above the upper one; a missing sample holds the
/// level it finds.
pub open spec fn level_of(state: bool, v: Option<i64>, low: int, high: int) -> bool {
    match v {
        None => state,
        Some(x) => if state {
            x > low
        } else {
            x > high
        },
    }
}

/// The level after the first `n` samples, starting low.
pub open spec fn held(samples: Seq<Option<i64>>, n: nat, low: int, high: int) -> bool
    decreases n,
{
    if n == 0 {
        false
    } else {
        level_of(held(samples, (n - 1) as nat, low, high), samples[n - 1], low, high)
    }
}

/// One sample more: it lengthens the last run or starts another.
pub open spec fn extended(runs: Seq<(bool, int)>, level: bool) -> Seq<(bool, int)> {
    if runs.len() > 0 && runs.last().0 == level {
        runs.update(runs.len() - 1, (level, runs.last().1 + 1))
    } else {
        runs.push((level, 1))
    }
}

/// The runs of equal level among the first `n` samples.
pub open spec fn raw_runs(samples: Seq<Option<i64>>, n: nat, low: int, high: int) -> Seq<
    (bool, int),
>
    decreases n,
{
    if n == 0 {
        Seq::empty()
    } else {
        extended(raw_runs(samples, (n - 1) as nat, low, high), held(samples, n, low, high))
    }
}

/// Whether a run is a glitch in the one before it.
pub open spec fn is_glitch(merged: Seq<(bool, int)>, run: (bool, int), least: int) -> bool {
    merged.len() > 0 && run.1 < least && merged.last().0 != run.0
}

/// One run more: a glitch and a run of the same level join the last run.
pub open spec fn joined(merged: Seq<(bool, int)>, run: (bool, int), least: int) -> Seq<
    (bool, int),
> {
    if is_glitch(merged, run, least) || (merged.len() > 0 && merged.last().0 == run.0) {
        merged.update(merged.len() - 1, (merged.last().0, merged.last().1 + run.1))
    } else {
        merged.push(run)
    }
}

/// The runs with every glitch merged into the run it interrupted.
pub open spec fn merged_runs(raw: Seq<(bool, int)>, least: int) -> Seq<(bool, int)>
    decreases raw.len(),
{
    if raw.len() == 0 {
        Seq::empty()
    } else {
        joined(merged_runs(raw.drop_last(), least), raw.last(), least)
    }
}

/// How many glitches were merged.
pub open spec fn glitch_count(raw: Seq<(bool, int)>, least: int) -> nat
    decreases raw.len(),
{
    if raw.len() == 0 {
        0
    } else {
        glitch_count(raw.drop_last(), least) + if is_glitch(
            merged_runs(raw.drop_last(), least),
            raw.last(),
            least,
        ) {
            1nat
        } else {
            0
        }
    }
}

/// The shortest run that is no glitch.
pub open spec fn least_run(min_run: nat) -> int {
    if min_run == 0 {
        1
    } else {
        min_run as int
    }
}

/// The runs of a burst.
pub open spec fn runs_spec(samples: Seq<Option<i64>>, low: int, high: int, min_run: nat) -> Seq<
    (bool, int),
> {
    merged_runs(raw_runs(samples, samples.len(), low, high), least_run(min_run))
}

/// Lengths as integers.
pub open spec fn runs_view(runs: Seq<(bool, usize)>) -> Seq<(bool, int)> {
    Seq::new(runs.len(), |i: int| (runs[i].0, runs[i].1 as int))
}

/// Samples in all the runs.
pub open spec fn total(runs: Seq<(bool, int)>) -> int
    decreases runs.len(),
{
    if runs.len() == 0 {
        0
    } else {
        total(runs.drop_last()) + runs.last().1
    }
}

/// Whether every run is followed by one of the other level.
pub open spec fn alternate(runs: Seq<(bool, int)>) -> bool {
    forall|i: int| 1 <= i < runs.len() ==> #[trigger] runs[i].0 != runs[i - 1].0
}

/// Whether every run holds a sample.
pub open spec fn no_empty(runs: Seq<(bool, int)>) -> bool {
    forall|i: int| 0 <= i < runs.len() ==> (#[trigger] runs[i]).1 >= 1
}

proof fn last_changed(runs: Seq<(bool, int)>, run: (bool, int))
    requires
        runs.len() > 0,
        run.0 == runs.last().0,
    ensures
        total(runs.update(runs.len() - 1, run)) == total(runs) - runs.last().1 + run.1,
        alternate(runs) ==> alternate(runs.update(runs.len() - 1, run)),
        no_empty(runs) && run.1 >= 1 ==> no_empty(runs.update(runs.len() - 1, run)),
{
    assert(runs.update(runs.len() - 1, run).drop_last() =~= runs.drop_last());
}

proof fn run_added(runs: Seq<(bool, int)>, run: (bool, int))
    requires
        runs.len() > 0 ==> run.0 != runs.last().0,
    ensures
        total(runs.push(run)) == total(runs) + run.1,
        alternate(runs) ==> alternate(runs.push(run)),
        no_empty(runs) && run.1 >= 1 ==> no_empty(runs.push(run)),
{
    let t = runs.push(run);
    assert(t.drop_last() =~= runs);
    if alternate(runs) {
        assert forall|i: int| 1 <= i < t.len() implies #[trigger] t[i].0 != t[i - 1].0 by {
            if i < runs.len() {
                assert(t[i] == runs[i]);
                assert(t[i - 1] == runs[i - 1]);
            }
        }
    }
}

pub(crate) proof fn raw_runs_facts(samples: Seq<Option<i64>>, n: nat, low: int, high: int)
    ensures
        total(raw_runs(samples, n, low, high)) == n,
        alternate(raw_runs(samples, n, low, high)),
        no_empty(raw_runs(samples, n, low, high)),
        raw_runs(samples, n, low, high).len() <= n,
        n > 0 ==> raw_runs(samples, n, low, high).len() > 0 && raw_runs(
            samples,
            n,
            low,
            high,
        ).last().0 == held(samples, n, low, high),
    decreases n,
{
    if n > 0 {
        raw_runs_facts(samples, (n - 1) as nat, low, high);
        let before = raw_runs(samples, (n - 1) as nat, low, high);
        let level = held(samples, n, low, high);
        if before.len() > 0 && before.last().0 == level {
            last_changed(before, (level, before.last().1 + 1));
        } else {
            run_added(before, (level, 1));
        }
    }
}

proof fn merged_runs_facts(raw: Seq<(bool, int)>, least: int)
    requires
        no_empty(raw),
    ensures
        total(merged_runs(raw, least)) == total(raw),
        alternate(merged_runs(raw, least)),
        no_empty(merged_runs(raw, least)),
        merged_runs(raw, least).len() <= raw.len(),
        raw.len() > 0 ==> merged_runs(raw, least).len() > 0,
        glitch_count(raw, least) <= raw.len(),
        forall|i: int|
            1 <= i < merged_runs(raw, least).len() ==> (#[trigger] merged_runs(raw, least)[i]).1
                >= least,
    decreases raw.len(),
{
    if raw.len() > 0 {
        merged_runs_facts(raw.drop_last(), least);
        let before = merged_runs(raw.drop_last(), least);
        let run = raw.last();
        if is_glitch(before, run, least) || (before.len() > 0 && before.last().0 == run.0) {
            last_changed(before, (before.last().0, before.last().1 + run.1));
        } else {
            run_added(before, run);
        }
    }
}

/// A run lies within the samples that all of them hold.
proof fn run_within_total(runs: Seq<(bool, int)>, i: int)
    requires
        no_empty(runs),
        0 <= i < runs.len(),
    ensures
        0 <= runs[i].1 <= total(runs),
        total(runs) >= 0,
    decreases runs.len(),
{
    reveal_with_fuel(total, 2);
    assert(runs[runs.len() - 1].1 >= 1);
    if runs.len() > 1 {
        run_within_total(runs.drop_last(), if i < runs.len() - 1 {
            i
        } else {
            i - 1
        });
    }
}

/// A run before the end leaves room for the samples of the last one.
proof fn last_run_within_total(runs: Seq<(bool, int)>)
    requires
        no_empty(runs),
        runs.len() > 0,
    ensures
        runs.last().1 <= total(runs),
{
    run_within_total(runs, runs.len() - 1);
}

/// Thresholds a burst into alternating runs of `(is_high, samples)`.
///
/// Runs shorter than `min_run` are merged into the run they interrupted rather
/// than dropped: dropping one would join the runs either side into a single
/// run of the wrong length and corrupt every timing after it.
pub fn runs(
    samples: &[Option<i64>],
    low: i64,
    high: i64,
    min_run: usize,
    glitches: &mut u64,
) -> (r: Vec<(bool, usize)>)
    requires
        *old(glitches) + samples@.len() <= u64::MAX,
    ensures
        runs_view(r@) == runs_spec(samples@, low as int, high as int, min_run as nat),
        *final(glitches) == *old(glitches) + glitch_count(
            raw_runs(samples@, samples@.len(), low as int, high as int),
            least_run(min_run as nat),
        ),
{
    let n: usize = samples.len();
    let mut raw: Vec<(bool, usize)> = Vec::new();
    let mut state: bool = false;
    let mut i: usize = 0;
    while i < n
        invariant
            n == samples@.len(),
            i <= n,
            state == held(samples@, i as nat, low as int, high as int),
            runs_view(raw@) == raw_runs(samples@, i as nat, low as int, high as int),
        decreases n - i,
    {
        let ghost before = runs_view(raw@);
        proof {
            raw_runs_facts(samples@, i as nat, low as int, high as int);
            if raw@.len() > 0 {
                last_run_within_total(before);
                assert(before.last().1 == raw@.last().1);
            }
        }
        let level: bool = match samples[i] {
            None => state,
            Some(v) => if state {
                v > low
            } else {
                v > high
            },
        };
        let ghost next = raw_runs(samples@, (i + 1) as nat, low as int, high as int);
        if i == 0 || level != state {
            state = level;
            raw.push((level, 1));
            assert(runs_view(raw@) =~= next);
        } else {
            let k: usize = raw.len() - 1;
            let count: usize = raw[k].1;
            raw.set(k, (level, count + 1));
            assert(runs_view(raw@) =~= next);
        }
        i += 1;
    }
    let least: usize = if min_run == 0 {
        1
    } else {
        min_run
    };
    let ghost all = runs_view(raw@);
    proof {
        raw_runs_facts(samples@, n as nat, low as int, high as int);
    }
    let mut merged: Vec<(bool, usize)> = Vec::new();
    let mut j: usize = 0;
    let count: usize = raw.len();
    while j < count
        invariant
            count == raw@.len(),
            j <= count,
            all == runs_view(raw@),
            all.len() <= n,
            no_empty(all),
            total(all) == n,
            least == least_run(min_run as nat),
            *old(glitches) + n <= u64::MAX,
            runs_view(merged@) == merged_runs(all.take(j as int), least as int),
            *glitches == *old(glitches) + glitch_count(all.take(j as int), least as int),
        decreases count - j,
    {
        let (level, len) = raw[j];
        let ghost head = all.take(j as int);
        let ghost before = runs_view(merged@);
        proof {
            assert(all.take(j + 1).drop_last() =~= head);
            assert(all.take(j + 1).last() == (level, len as int));
            merged_runs_facts(head, least as int);
            if merged@.len() > 0 {
                last_run_within_total(before);
                assert(before.last().1 == merged@.last().1);
            }
            total_of_head(all, j + 1);
            assert(total(all.take(j + 1)) == total(head) + len);
        }
        let m: usize = merged.len();
        if m > 0 {
            let (last_level, last_len) = merged[m - 1];
            if len < least && last_level != level {
                merged.set(m - 1, (last_level, last_len + len));
                *glitches = *glitches + 1;
            } else if last_level == level {
                merged.set(m - 1, (last_level, last_len + len));
            } else {
                merged.push((level, len));
            }
        } else {
            merged.push((level, len));
        }
        j += 1;
        assert(runs_view(merged@) =~= merged_runs(all.take(j as int), least as int));
    }
    assert(all.take(count as int) =~= all);
    merged
}

/// The first runs hold no more samples than all of them.
proof fn total_of_head(runs: Seq<(bool, int)>, n: int)
    requires
        no_empty(runs),
        0 <= n <= runs.len(),
    ensures
        0 <= total(runs.take(n)) <= total(runs),
    decreases runs.len(),
{
    if n == runs.len() {
        assert(runs.take(n) =~= runs);
        if runs.len() > 0 {
            run_within_total(runs, 0);
        }
    } else {
        total_of_head(runs.drop_last(), n);
        assert(runs.drop_last().take(n) =~= runs.take(n));
    }
}

/// The pulses of alternating runs, high level first: each mark with the gap
/// that follows it, the last with the timeout that ended the burst.
pub open spec fn paired(runs: Seq<(bool, int)>, rate: int, reset_us: u32) -> Seq<Pulse> {
    let skipped = if runs.len() > 0 && !runs[0].0 {
        1int
    } else {
        0
    };
    Seq::new(
        ((runs.len() - skipped + 1) / 2) as nat,
        |k: int|
            Pulse {
                mark: us_spec(runs[skipped + 2 * k].1 as nat, rate) as u32,
                gap: if skipped + 2 * k + 1 < runs.len() {
                    us_spec(runs[skipped + 2 * k + 1].1 as nat, rate) as u32
                } else {
                    reset_us
                },
            },
    )
}

/// Pairs alternating runs into mark/gap pulses, high level first.
///
/// A burst that opens on the low level loses that first run: a gap with no
/// mark before it has no pulse to belong to.
pub fn pair_runs(runs: &[(bool, usize)], rate: Micro, reset_us: u32) -> (r: Vec<Pulse>)
    requires
        runs@.len() <= usize::MAX - 2,
    ensures
        r@ == paired(runs_view(runs@), rate@, reset_us),
{
    let n: usize = runs.len();
    let mut i: usize = if n > 0 && !runs[0].0 {
        1
    } else {
        0
    };
    let ghost skipped = i;
    let ghost all = runs_view(runs@);
    let mut pulses: Vec<Pulse> = Vec::new();
    assert(n > 0 ==> all[0].0 == runs@[0].0);
    while i < n
        invariant
            n == runs@.len(),
            n <= usize::MAX - 2,
            all == runs_view(runs@),
            skipped == (if all.len() > 0 && !all[0].0 {
                1int
            } else {
                0
            }),
            skipped <= i <= n + 1,
            i == skipped + 2 * pulses@.len(),
            pulses@.len() <= paired(all, rate@, reset_us).len(),
            forall|k: int|
                0 <= k < pulses@.len() ==> #[trigger] pulses@[k] == paired(all, rate@, reset_us)[k],
        decreases n + 2 - i,
    {
        let gap: u32 = if i + 1 < n {
            samples_to_us(runs[i + 1].1 as u64, rate)
        } else {
            reset_us
        };
        let mark: u32 = samples_to_us(runs[i].1 as u64, rate);
        pulses.push(Pulse { mark, gap });
        i += 2;
    }
    assert(pulses@ =~= paired(all, rate@, reset_us));
    pulses
}

/// No sample is lost or counted twice: the runs of a burst hold as many samples
/// as the burst, and every run holds one at least.
pub proof fn every_sample_is_in_a_run(
    samples: Seq<Option<i64>>,
    low: int,
    high: int,
    min_run: nat,
)
    ensures
        total(runs_spec(samples, low, high, min_run)) == samples.len(),
        no_empty(runs_spec(samples, low, high, min_run)),
{
    raw_runs_facts(samples, samples.len(), low, high);
    merged_runs_facts(raw_runs(samples, samples.len(), low, high), least_run(min_run));
}

/// Runs alternate between the levels, and only the first may be shorter than
/// the shortest run that is no glitch.
pub proof fn runs_alternate_without_glitches(
    samples: Seq<Option<i64>>,
    low: int,
    high: int,
    min_run: nat,
)
    ensures
        alternate(runs_spec(samples, low, high, min_run)),
        forall|i: int|
            1 <= i < runs_spec(samples, low, high, min_run).len() ==> (#[trigger] runs_spec(
                samples,
                low,
                high,
                min_run,
            )[i]).1 >= least_run(min_run),
{
    raw_runs_facts(samples, samples.len(), low, high);
    merged_runs_facts(raw_runs(samples, samples.len(), low, high), least_run(min_run));
}

/// A missing sample holds the level it finds, so a dropout makes no transition:
/// the run in progress grows by one sample.
pub proof fn dropouts_make_no_transition(
    samples: Seq<Option<i64>>,
    n: nat,
    low: int,
    high: int,
)
    requires
        0 < n < samples.len(),
        samples[n as int] is None,
    ensures
        held(samples, n + 1, low, high) == held(samples, n, low, high),
        raw_runs(samples, n + 1, low, high).len() == raw_runs(samples, n, low, high).len(),
{
    raw_runs_facts(samples, n, low, high);
}

/// Hysteresis holds the level: a sample over the upper threshold reads high, one
/// at or under the lower threshold reads low, and one between them reads as what
/// came before it. Where the thresholds cross, one between them is past both,
/// and the level turns. Before the first sample the level is low.
pub proof fn hysteresis_holds_the_level(
    samples: Seq<Option<i64>>,
    n: nat,
    low: int,
    high: int,
    x: int,
)
    requires
        n < samples.len(),
        samples[n as int] matches Some(v) && v == x,
    ensures
        !held(samples, 0, low, high),
        x > low && x > high ==> held(samples, n + 1, low, high),
        x <= low && x <= high ==> !held(samples, n + 1, low, high),
        low < x <= high ==> held(samples, n + 1, low, high) == held(samples, n, low, high),
        high < x <= low ==> held(samples, n + 1, low, high) == !held(samples, n, low, high),
{
}

/// The level that runs give sample `i`.
pub open spec fn reads(runs: Seq<(bool, int)>, i: int) -> bool
    decreases runs.len(),
{
    if runs.len() == 0 {
        false
    } else if i >= total(runs.drop_last()) {
        runs.last().0
    } else {
        reads(runs.drop_last(), i)
    }
}

proof fn raw_runs_read_as_held(samples: Seq<Option<i64>>, n: nat, low: int, high: int, i: int)
    requires
        0 <= i < n,
    ensures
        reads(raw_runs(samples, n, low, high), i) == held(samples, (i + 1) as nat, low, high),
    decreases n,
{
    let before = raw_runs(samples, (n - 1) as nat, low, high);
    let now = raw_runs(samples, n, low, high);
    raw_runs_facts(samples, (n - 1) as nat, low, high);
    if i < n - 1 {
        raw_runs_read_as_held(samples, (n - 1) as nat, low, high, i);
    }
    if before.len() > 0 && before.last().0 == held(samples, n, low, high) {
        assert(now.drop_last() =~= before.drop_last());
    } else {
        assert(now.drop_last() =~= before);
    }
}

/// Runs without a shortest length are the levels themselves: every sample reads
/// in them as it does in the burst, so a run ends where the level turns and
/// nowhere else.
pub proof fn runs_are_the_levels(
    samples: Seq<Option<i64>>,
    low: int,
    high: int,
    min_run: nat,
    i: int,
)
    requires
        min_run <= 1,
        0 <= i < samples.len(),
    ensures
        reads(runs_spec(samples, low, high, min_run), i) == held(
            samples,
            (i + 1) as nat,
            low,
            high,
        ),
        glitch_count(raw_runs(samples, samples.len(), low, high), least_run(min_run)) == 0,
{
    let raw = raw_runs(samples, samples.len(), low, high);
    raw_runs_facts(samples, samples.len(), low, high);
    raw_runs_read_as_held(samples, samples.len(), low, high, i);
    nothing_is_merged(raw);
}

proof fn nothing_is_merged(raw: Seq<(bool, int)>)
    requires
        no_empty(raw),
        alternate(raw),
    ensures
        merged_runs(raw, 1) == raw,
        glitch_count(raw, 1) == 0,
    decreases raw.len(),
{
    if raw.len() > 0 {
        let head = raw.drop_last();
        assert(alternate(head)) by {
            assert forall|i: int| 1 <= i < head.len() implies #[trigger] head[i].0 != head[i
                - 1].0 by {
                assert(raw[i].0 != raw[i - 1].0);
            }
        }
        nothing_is_merged(head);
        assert(raw[raw.len() - 1].1 >= 1);
        if head.len() > 0 {
            assert(raw[raw.len() - 1].0 != raw[raw.len() - 2].0);
        }
        assert(head.push(raw.last()) =~= raw);
    } else {
        assert(raw =~= Seq::empty());
    }
}

/// The sample that run `k` begins with.
pub open spec fn begins(runs: Seq<(bool, int)>, k: int) -> int {
    total(runs.take(k))
}

proof fn earlier_samples_read_the_same(runs: Seq<(bool, int)>, run: (bool, int), i: int)
    requires
        runs.len() > 0,
        i < total(runs),
        run.0 == runs.last().0,
    ensures
        reads(runs.update(runs.len() - 1, run), i) == reads(runs, i),
{
    assert(runs.update(runs.len() - 1, run).drop_last() =~= runs.drop_last());
}

/// Merging moves no sample that is not in a glitch: a sample of a run that is
/// long enough, or of the first, reads as it did, and one of a shorter run reads
/// as the sample before its run does.
pub proof fn glitches_read_as_what_they_interrupt(
    raw: Seq<(bool, int)>,
    least: int,
    k: int,
    i: int,
)
    requires
        no_empty(raw),
        0 <= k < raw.len(),
        begins(raw, k) <= i < begins(raw, k) + raw[k].1,
    ensures
        k == 0 || raw[k].1 >= least ==> reads(merged_runs(raw, least), i) == raw[k].0,
        k > 0 && raw[k].1 < least ==> reads(merged_runs(raw, least), i) == reads(
            merged_runs(raw, least),
            begins(raw, k) - 1,
        ),
    decreases raw.len(),
{
    let head = raw.drop_last();
    let before = merged_runs(head, least);
    let now = merged_runs(raw, least);
    let run = raw.last();
    assert(no_empty(head)) by {
        assert forall|j: int| 0 <= j < head.len() implies (#[trigger] head[j]).1 >= 1 by {
            assert(raw[j].1 >= 1);
        }
    }
    merged_runs_facts(head, least);
    total_of_head(raw, k);
    let joins = is_glitch(before, run, least) || (before.len() > 0 && before.last().0 == run.0);
    let last = (before.last().0, before.last().1 + run.1);
    if k < raw.len() - 1 {
        assert(head.take(k) =~= raw.take(k));
        assert(head[k] == raw[k]);
        glitches_read_as_what_they_interrupt(head, least, k, i);
        total_of_head(head, k + 1);
        assert(head.take(k + 1).drop_last() =~= head.take(k));
        assert(head.take(k + 1).last() == head[k]);
        if joins {
            earlier_samples_read_the_same(before, last, i);
            earlier_samples_read_the_same(before, last, begins(raw, k) - 1);
        } else {
            assert(now.drop_last() =~= before);
        }
    } else {
        assert(raw.take(k) =~= head);
        assert(raw[raw.len() - 1].1 >= 1);
        if joins {
            assert(now.drop_last() =~= before.drop_last());
            assert(before[before.len() - 1].1 >= 1);
            earlier_samples_read_the_same(before, last, begins(raw, k) - 1);
        } else {
            assert(now.drop_last() =~= before);
        }
        if before.len() == 0 {
            assert(head.len() == 0);
        }
    }
}

/// Every run that merging turned over is counted as a glitch, and nothing else.
pub proof fn glitches_are_the_runs_turned_over(raw: Seq<(bool, int)>, least: int)
    requires
        no_empty(raw),
    ensures
        glitch_count(raw, least) == turned_over(raw, merged_runs(raw, least)),
    decreases raw.len(),
{
    if raw.len() > 0 {
        let head = raw.drop_last();
        let before = merged_runs(head, least);
        let now = merged_runs(raw, least);
        let run = raw.last();
        assert(no_empty(head)) by {
            assert forall|j: int| 0 <= j < head.len() implies (#[trigger] head[j]).1 >= 1 by {
                assert(raw[j].1 >= 1);
            }
        }
        glitches_are_the_runs_turned_over(head, least);
        merged_runs_facts(head, least);
        assert(raw[raw.len() - 1].1 >= 1);
        let k = raw.len() - 1;
        assert(raw.take(k) =~= head);
        if is_glitch(before, run, least) || (before.len() > 0 && before.last().0 == run.0) {
            let last = (before.last().0, before.last().1 + run.1);
            assert(now.drop_last() =~= before.drop_last());
            assert(before[before.len() - 1].1 >= 1);
            earlier_runs_are_turned_the_same(head, before, now);
        } else {
            assert(now.drop_last() =~= before);
            earlier_runs_are_turned_the_same(head, before, now);
        }
    }
}

/// How many runs read otherwise, at their first sample, among other runs.
pub open spec fn turned_over(raw: Seq<(bool, int)>, merged: Seq<(bool, int)>) -> nat
    decreases raw.len(),
{
    if raw.len() == 0 {
        0
    } else {
        turned_over(raw.drop_last(), merged) + if reads(merged, total(raw.drop_last()))
            != raw.last().0 {
            1nat
        } else {
            0
        }
    }
}

proof fn earlier_runs_are_turned_the_same(
    raw: Seq<(bool, int)>,
    a: Seq<(bool, int)>,
    b: Seq<(bool, int)>,
)
    requires
        no_empty(raw),
        total(raw) <= total(a),
        b.len() > 0,
        b.drop_last() == a || (a.len() > 0 && b.drop_last() == a.drop_last() && b.last().0
            == a.last().0),
    ensures
        turned_over(raw, b) == turned_over(raw, a),
    decreases raw.len(),
{
    if raw.len() > 0 {
        let head = raw.drop_last();
        assert(no_empty(head)) by {
            assert forall|j: int| 0 <= j < head.len() implies (#[trigger] head[j]).1 >= 1 by {
                assert(raw[j].1 >= 1);
            }
        }
        assert(raw[raw.len() - 1].1 >= 1);
        earlier_runs_are_turned_the_same(head, a, b);
        assert(total(head) < total(a));
    }
}

/// The levels are samples of the burst that few others lie beyond: the lower one
/// stands two hundredths of the way up the ordered samples and the upper one as
/// far down from the top, each to the nearest sample.
pub proof fn the_levels_stand_near_the_ends(samples: Seq<Option<i64>>)
    requires
        present(samples).len() >= 16,
    ensures
        ({
            let n = present(samples).len();
            exists|p: int, q: int|
                0 <= p <= q < n && levels_spec(samples) == Some(
                    (#[trigger] ordered(present(samples))[p], #[trigger] ordered(
                        present(samples),
                    )[q]),
                ) && -50 <= 100 * p - 2 * (n - 1) <= 50 && -50 <= 100 * (n - 1 - q) - 2 * (n - 1)
                    <= 50
        }),
{
    let n = present(samples).len();
    let all = ordered(present(samples));
    let (p, q) = (percentile_at(n, 2) as int, percentile_at(n, 98) as int);
    percentile_is_inside(n, 2);
    percentile_is_inside(n, 98);
    nearest_bounds(((n - 1) * 2) as nat, 100);
    nearest_bounds(((n - 1) * 98) as nat, 100);
    assert(levels_spec(samples) == Some((all[p], all[q])));
}

/// How many runs are high.
pub open spec fn high_runs(runs: Seq<(bool, int)>) -> nat
    decreases runs.len(),
{
    if runs.len() == 0 {
        0
    } else {
        high_runs(runs.drop_last()) + if runs.last().0 {
            1nat
        } else {
            0
        }
    }
}

/// Where the level of a run in alternating runs depends on the first.
proof fn levels_alternate(runs: Seq<(bool, int)>, i: int)
    requires
        alternate(runs),
        0 <= i < runs.len(),
    ensures
        runs[i].0 == (runs[0].0 == (i % 2 == 0)),
    decreases i,
{
    if i > 0 {
        levels_alternate(runs, i - 1);
        assert(runs[i].0 != runs[i - 1].0);
    }
}

proof fn high_runs_are_half(runs: Seq<(bool, int)>)
    requires
        alternate(runs),
        runs.len() > 0,
    ensures
        high_runs(runs) == if runs[0].0 {
            (runs.len() + 1) / 2
        } else {
            runs.len() / 2
        },
    decreases runs.len(),
{
    let head = runs.drop_last();
    levels_alternate(runs, runs.len() - 1);
    if head.len() > 0 {
        assert(alternate(head)) by {
            assert forall|i: int| 1 <= i < head.len() implies #[trigger] head[i].0 != head[i
                - 1].0 by {
                assert(runs[i].0 != runs[i - 1].0);
            }
        }
        high_runs_are_half(head);
        assert(head[0] == runs[0]);
    } else {
        assert(high_runs(head) == 0);
    }
}

/// Every high run is a mark, and there are no others: alternating runs give as
/// many pulses as there are high ones, in their order, and each has the run that
/// follows for its gap. Only where none follows is the gap the timeout.
pub proof fn every_high_run_is_a_mark(
    runs: Seq<(bool, int)>,
    rate: int,
    reset_us: u32,
    i: int,
)
    requires
        alternate(runs),
        0 <= i < runs.len(),
        runs[i].0,
    ensures
        paired(runs, rate, reset_us).len() == high_runs(runs),
        ({
            let k = high_runs(runs.take(i)) as int;
            &&& k < paired(runs, rate, reset_us).len()
            &&& paired(runs, rate, reset_us)[k].mark == us_spec(runs[i].1 as nat, rate)
            &&& i + 1 < runs.len() ==> paired(runs, rate, reset_us)[k].gap == us_spec(
                runs[i + 1].1 as nat,
                rate,
            )
            &&& i + 1 == runs.len() ==> paired(runs, rate, reset_us)[k].gap == reset_us
        }),
{
    high_runs_are_half(runs);
    levels_alternate(runs, i);
    let head = runs.take(i);
    if i > 0 {
        assert(alternate(head)) by {
            assert forall|j: int| 1 <= j < head.len() implies #[trigger] head[j].0 != head[j
                - 1].0 by {
                assert(runs[j].0 != runs[j - 1].0);
            }
        }
        high_runs_are_half(head);
        assert(head[0] == runs[0]);
    }
    durations_are_right(runs[i].1 as nat, rate);
    if i + 1 < runs.len() {
        durations_are_right(runs[i + 1].1 as nat, rate);
    }
}

} // verus!
