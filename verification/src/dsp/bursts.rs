//! What the pulse detector makes of whole bursts.
//!
//! A burst is written here as it is keyed, mark by mark with the gap behind
//! each, and the laws say which packages come of it.

use vstd::prelude::*;
use crate::dsp::ook::PulseConfig;
#[allow(unused_imports)]
use crate::dsp::ook::{
    after, blocks_do_not_split_pulses, closed, closed_pulses, packages, samples_spec, silent,
    stepped, taken, turned, us_spec, Ook,
};
use crate::dsp::pulse::Pulse;
#[allow(unused_imports)]
use crate::fixed::{nearest_bounds, nearest_spec};

verus! {

/// A mark and the gap behind it, in samples. The gap is cut into pieces where the
/// threshold is crossed inside it: the first, third and so on are low, those
/// between them are crossings too short to be marks.
pub struct Shot {
    pub mark: nat,
    pub gap: Seq<nat>,
}

/// `n` samples of one level.
pub open spec fn level(high: bool, n: nat) -> Seq<bool> {
    Seq::new(n, |i: int| high)
}

/// The levels of the pieces of a gap.
pub open spec fn gap_levels(gap: Seq<nat>) -> Seq<bool>
    decreases gap.len(),
{
    if gap.len() == 0 {
        Seq::empty()
    } else {
        gap_levels(gap.drop_last()) + level(gap.len() % 2 == 0, gap.last())
    }
}

/// Microseconds of the pieces of a gap.
pub open spec fn gap_us(gap: Seq<nat>, rate: int) -> nat
    decreases gap.len(),
{
    if gap.len() == 0 {
        0
    } else {
        gap_us(gap.drop_last(), rate) + us_spec(gap.last(), rate)
    }
}

/// Whether no piece of a gap ends the package, and no crossing in it is a mark.
pub open spec fn gap_holds(gap: Seq<nat>, cfg: PulseConfig, rate: int) -> bool
    decreases gap.len(),
{
    if gap.len() == 0 {
        true
    } else {
        let n = gap.last();
        &&& gap_holds(gap.drop_last(), cfg, rate)
        &&& n >= 1
        &&& gap.len() % 2 == 0 ==> us_spec(n, rate) < cfg.min_mark_us
        &&& gap.len() % 2 == 1 ==> n <= samples_spec(cfg.reset_us as nat, rate) && gap_us(gap, rate)
            <= cfg.reset_us
    }
}

/// Whether a mark is long enough to count and the gap behind it ends low and
/// within the package.
pub open spec fn shot_holds(s: Shot, cfg: PulseConfig, rate: int) -> bool {
    &&& s.mark >= 1
    &&& us_spec(s.mark, rate) >= cfg.min_mark_us
    &&& s.gap.len() % 2 == 1
    &&& gap_holds(s.gap, cfg, rate)
}

/// The levels of shots.
pub open spec fn shots_levels(shots: Seq<Shot>) -> Seq<bool>
    decreases shots.len(),
{
    if shots.len() == 0 {
        Seq::empty()
    } else {
        shots_levels(shots.drop_last()) + level(true, shots.last().mark) + gap_levels(
            shots.last().gap,
        )
    }
}

/// The pulse of a shot.
pub open spec fn shot_pulse(s: Shot, rate: int) -> Pulse {
    Pulse { mark: us_spec(s.mark, rate) as u32, gap: gap_us(s.gap, rate) as u32 }
}

/// The pulses of shots, one each.
pub open spec fn shot_pulses(shots: Seq<Shot>, rate: int) -> Seq<Pulse> {
    Seq::new(shots.len(), |i: int| shot_pulse(shots[i], rate))
}

/// More samples last no less.
pub proof fn more_samples_last_no_less(m: nat, n: nat, rate: int)
    requires
        m <= n,
    ensures
        us_spec(m, rate) <= us_spec(n, rate),
{
    if rate > 0 {
        let (a, b) = (m * 1_000_000_000_000, n * 1_000_000_000_000);
        nearest_bounds(a, rate as nat);
        nearest_bounds(b, rate as nat);
        let (p, q) = (nearest_spec(a, rate as nat) as int, nearest_spec(b, rate as nat) as int);
        assert(p <= q) by (nonlinear_arith)
            requires
                (2 * rate) * p <= 2 * a + rate,
                2 * b + rate < (2 * rate) * (q + 1),
                a <= b,
                rate > 0,
        ;
    }
}

/// A duration is off by half a microsecond at most, and no duration that can be
/// held is cut short.
pub proof fn durations_are_right(n: nat, rate: int)
    ensures
        us_spec(n, rate) <= u32::MAX,
        rate > 0 && us_spec(n, rate) < u32::MAX ==> -rate <= 2 * (us_spec(n, rate) * rate) - 2 * (n
            * 1_000_000_000_000) <= rate,
        rate > 0 && us_spec(n, rate) == u32::MAX ==> 2 * (n * 1_000_000_000_000) >= (2 * u32::MAX
            - 1) * rate,
        n == 0 ==> us_spec(n, rate) == 0,
        rate == 0 && n > 0 ==> us_spec(n, rate) == u32::MAX,
        rate < 0 ==> us_spec(n, rate) == 0,
{
    if rate > 0 {
        let a = n * 1_000_000_000_000;
        nearest_bounds(a, rate as nat);
        let q = nearest_spec(a, rate as nat) as int;
        assert((2 * rate) * q == 2 * (q * rate)) by (nonlinear_arith);
        if q >= u32::MAX {
            assert(2 * (q * rate) >= 2 * (u32::MAX * rate)) by (nonlinear_arith)
                requires
                    q >= u32::MAX,
                    rate > 0,
            ;
            assert((2 * u32::MAX - 1) * rate == 2 * (u32::MAX * rate) - rate) by (nonlinear_arith);
        }
    }
}

/// The samples of a duration are all that fit into it.
pub proof fn whole_samples_fit(us: nat, rate: int)
    requires
        rate > 0,
    ensures
        samples_spec(us, rate) * 1_000_000_000_000 <= us * rate < (samples_spec(us, rate) + 1)
            * 1_000_000_000_000,
{
}

proof fn holding(s: Ook, high: bool, n: nat, cfg: PulseConfig, rate: int)
    requires
        s.high == high,
        !high ==> s.run + n <= samples_spec(cfg.reset_us as nat, rate) && s.gap + us_spec(
            s.run + n,
            rate,
        ) <= cfg.reset_us,
    ensures
        after(s, level(high, n), cfg, rate) == (Ook { run: s.run + n, sample: s.sample + n, ..s }),
        packages(s, level(high, n), cfg, rate) == Seq::<(Seq<Pulse>, nat)>::empty(),
    decreases n,
{
    if n > 0 {
        let m = (n - 1) as nat;
        more_samples_last_no_less(s.run + m, s.run + n, rate);
        holding(s, high, m, cfg, rate);
        assert(level(high, n).drop_last() =~= level(high, m));
    }
}

/// A run of the other level.
proof fn changing(s: Ook, n: nat, cfg: PulseConfig, rate: int)
    requires
        n >= 1,
        s.high ==> {
            let t = turned(s, cfg, rate);
            n <= samples_spec(cfg.reset_us as nat, rate) && t.gap + us_spec(n, rate)
                <= cfg.reset_us
        },
    ensures
        ({
            let t = turned(s, cfg, rate);
            &&& after(s, level(!s.high, n), cfg, rate) == (Ook {
                run: n,
                sample: s.sample + n,
                ..t
            })
            &&& packages(s, level(!s.high, n), cfg, rate) == Seq::<(Seq<Pulse>, nat)>::empty()
        }),
{
    let t = turned(s, cfg, rate);
    let first = seq![!s.high];
    let rest = (n - 1) as nat;
    assert(level(!s.high, n) =~= first + level(!s.high, rest));
    blocks_do_not_split_pulses(s, first, level(!s.high, rest), cfg, rate);
    more_samples_last_no_less(1, n, rate);
    let one = Ook { run: 1, sample: s.sample + 1, ..t };
    reveal_with_fuel(after, 2);
    reveal_with_fuel(packages, 2);
    assert(first.drop_last() =~= Seq::empty());
    assert(taken(s, !s.high, cfg, rate) == one);
    assert(after(s, first, cfg, rate) == one);
    assert(packages(s, first, cfg, rate) =~= Seq::empty());
    holding(one, !s.high, rest, cfg, rate);
    assert(Seq::<(Seq<Pulse>, nat)>::empty() + Seq::<(Seq<Pulse>, nat)>::empty() =~= Seq::empty());
}

/// Where a mark has just ended and so many pieces of its gap have been heard.
proof fn gap_is_gathered(s: Ook, gap: Seq<nat>, cfg: PulseConfig, rate: int)
    requires
        s.high,
        us_spec(s.run, rate) >= cfg.min_mark_us,
        gap.len() >= 1,
        gap_holds(gap, cfg, rate),
    ensures
        ({
            let t = turned(s, cfg, rate);
            &&& after(s, gap_levels(gap), cfg, rate) == (Ook {
                high: gap.len() % 2 == 0,
                run: gap.last(),
                gap: gap_us(gap.drop_last(), rate),
                sample: s.sample + gap_levels(gap).len(),
                ..t
            })
            &&& packages(s, gap_levels(gap), cfg, rate) == Seq::<(Seq<Pulse>, nat)>::empty()
        }),
    decreases gap.len(),
{
    let none = Seq::<(Seq<Pulse>, nat)>::empty();
    let head = gap.drop_last();
    let piece = level(gap.len() % 2 == 0, gap.last());
    assert(none + none =~= none);
    if gap.len() == 1 {
        assert(gap_levels(head) =~= Seq::empty());
        assert(gap_levels(gap) =~= piece);
        assert(gap_us(gap, rate) == us_spec(gap.last(), rate)) by {
            reveal_with_fuel(gap_us, 2);
        }
        changing(s, gap.last(), cfg, rate);
    } else {
        gap_is_gathered(s, head, cfg, rate);
        let mid = after(s, gap_levels(head), cfg, rate);
        blocks_do_not_split_pulses(s, gap_levels(head), piece, cfg, rate);
        assert(gap_us(head, rate) == gap_us(head.drop_last(), rate) + us_spec(head.last(), rate));
        assert(mid.high ==> us_spec(mid.run, rate) < cfg.min_mark_us) by {
            reveal_with_fuel(gap_holds, 2);
        }
        assert(turned(mid, cfg, rate) == (Ook {
            high: !mid.high,
            run: 0,
            gap: gap_us(head, rate),
            ..mid
        }));
        changing(mid, gap.last(), cfg, rate);
    }
}

/// What the detector holds after shots that it began without a burst in
/// progress: one pulse for every mark but the last, which waits for the rest of
/// its gap.
proof fn shots_are_gathered(s: Ook, shots: Seq<Shot>, cfg: PulseConfig, rate: int)
    requires
        !s.high,
        s.pulses.len() == 0,
        s.pending == 0,
        cfg.min_mark_us >= 1,
        shots.len() >= 1,
        forall|i: int| 0 <= i < shots.len() ==> shot_holds(#[trigger] shots[i], cfg, rate),
    ensures
        after(s, shots_levels(shots), cfg, rate) == (Ook {
            high: false,
            run: shots.last().gap.last(),
            pulses: shot_pulses(shots.drop_last(), rate),
            start: s.sample,
            pending: us_spec(shots.last().mark, rate),
            gap: gap_us(shots.last().gap.drop_last(), rate),
            sample: s.sample + shots_levels(shots).len(),
            too_few: s.too_few,
        }),
        packages(s, shots_levels(shots), cfg, rate) == Seq::<(Seq<Pulse>, nat)>::empty(),
    decreases shots.len(),
{
    let none = Seq::<(Seq<Pulse>, nat)>::empty();
    assert(none + none =~= none);
    let head = shots.drop_last();
    let (mark, gap) = (shots.last().mark, shots.last().gap);
    assert(shot_holds(shots[shots.len() - 1], cfg, rate));
    let before = after(s, shots_levels(head), cfg, rate);
    if head.len() == 0 {
        assert(shots_levels(head) =~= Seq::empty());
        assert(before == s);
        assert(packages(s, shots_levels(head), cfg, rate) == none);
    } else {
        assert forall|i: int| 0 <= i < head.len() implies shot_holds(#[trigger] head[i], cfg, rate) by {
            assert(shot_holds(shots[i], cfg, rate));
        }
        shots_are_gathered(s, head, cfg, rate);
        assert(shot_holds(shots[head.len() - 1], cfg, rate));
    }
    changing(before, mark, cfg, rate);
    blocks_do_not_split_pulses(s, shots_levels(head), level(true, mark), cfg, rate);
    let marked = after(s, shots_levels(head) + level(true, mark), cfg, rate);
    gap_is_gathered(marked, gap, cfg, rate);
    blocks_do_not_split_pulses(
        s,
        shots_levels(head) + level(true, mark),
        gap_levels(gap),
        cfg,
        rate,
    );
    let now = after(s, shots_levels(shots), cfg, rate);
    if head.len() > 0 {
        let last = head.last();
        assert(gap_us(last.gap, rate) == gap_us(last.gap.drop_last(), rate) + us_spec(
            last.gap.last(),
            rate,
        ));
        assert(now.pulses =~= shot_pulses(head, rate));
    } else {
        assert(now.pulses =~= shot_pulses(head, rate));
    }
}

/// Nothing comes of silence where no burst is in progress.
proof fn silence_gives_nothing(s: Ook, n: nat, cfg: PulseConfig, rate: int)
    requires
        !s.high,
        s.pulses.len() == 0,
        s.pending == 0,
        cfg.min_mark_us >= 1,
        cfg.min_pulses >= 1,
    ensures
        packages(s, level(false, n), cfg, rate) == Seq::<(Seq<Pulse>, nat)>::empty(),
        ({
            let t = after(s, level(false, n), cfg, rate);
            !t.high && t.pulses.len() == 0 && t.pending == 0 && t.too_few == s.too_few && t.sample
                == s.sample + n
        }),
    decreases n,
{
    if n > 0 {
        silence_gives_nothing(s, (n - 1) as nat, cfg, rate);
        assert(level(false, n).drop_last() =~= level(false, (n - 1) as nat));
    }
}

/// A long silence behind a mark ends the burst once.
proof fn silence_ends_the_burst(s: Ook, n: nat, cfg: PulseConfig, rate: int)
    requires
        !s.high,
        !silent(s, cfg, rate),
        s.pending >= cfg.min_mark_us,
        s.run + n > samples_spec(cfg.reset_us as nat, rate),
        cfg.min_mark_us >= 1,
        cfg.min_pulses >= 1,
    ensures
        ({
            let all = closed_pulses(s, cfg);
            let t = after(s, level(false, n), cfg, rate);
            &&& packages(s, level(false, n), cfg, rate) == if all.len() >= cfg.min_pulses {
                seq![(all, s.start)]
            } else {
                Seq::empty()
            }
            &&& !t.high && t.pulses.len() == 0 && t.pending == 0
            &&& t.sample == s.sample + n
            &&& t.too_few == closed(s, cfg).too_few
        }),
    decreases n,
{
    let none = Seq::<(Seq<Pulse>, nat)>::empty();
    assert(n > 0);
    let rest = (n - 1) as nat;
    let first = seq![false];
    assert(level(false, n) =~= first + level(false, rest));
    blocks_do_not_split_pulses(s, first, level(false, rest), cfg, rate);
    reveal_with_fuel(after, 2);
    reveal_with_fuel(packages, 2);
    assert(first.drop_last() =~= Seq::empty());
    let t = taken(s, false, cfg, rate);
    let next = stepped(s, false, cfg, rate);
    assert(after(s, first, cfg, rate) == next);
    if silent(t, cfg, rate) {
        silence_gives_nothing(next, rest, cfg, rate);
        if closed_pulses(t, cfg).len() >= cfg.min_pulses {
            let p = (closed_pulses(t, cfg), t.start);
            assert(none.push(p) =~= seq![p]);
            assert(packages(s, first, cfg, rate) =~= seq![p]);
            assert(seq![p] + none =~= seq![p]);
        } else {
            assert(packages(s, first, cfg, rate) =~= none);
            assert(none + none =~= none);
        }
    } else {
        assert(packages(s, first, cfg, rate) =~= none);
        silence_ends_the_burst(next, rest, cfg, rate);
        let r = packages(next, level(false, rest), cfg, rate);
        assert(none + r =~= r);
    }
}

/// A long silence behind a mark that has just been keyed ends the burst once.
proof fn silence_behind_a_mark(s: Ook, n: nat, cfg: PulseConfig, rate: int)
    requires
        s.high,
        us_spec(s.run, rate) >= cfg.min_mark_us,
        n > samples_spec(cfg.reset_us as nat, rate),
        cfg.min_mark_us >= 1,
        cfg.min_pulses >= 1,
    ensures
        ({
            let u = turned(s, cfg, rate);
            let all = u.pulses.push(Pulse { mark: u.pending as u32, gap: cfg.reset_us });
            let t = after(s, level(false, n), cfg, rate);
            &&& packages(s, level(false, n), cfg, rate) == if all.len() >= cfg.min_pulses {
                seq![(all, u.start)]
            } else {
                Seq::empty()
            }
            &&& !t.high && t.pulses.len() == 0 && t.pending == 0
            &&& t.sample == s.sample + n
            &&& t.too_few == closed(u, cfg).too_few
        }),
{
    let none = Seq::<(Seq<Pulse>, nat)>::empty();
    let rest = (n - 1) as nat;
    let first = seq![false];
    assert(level(false, n) =~= first + level(false, rest));
    blocks_do_not_split_pulses(s, first, level(false, rest), cfg, rate);
    reveal_with_fuel(after, 2);
    reveal_with_fuel(packages, 2);
    assert(first.drop_last() =~= Seq::empty());
    let t = taken(s, false, cfg, rate);
    let next = stepped(s, false, cfg, rate);
    assert(after(s, first, cfg, rate) == next);
    if silent(t, cfg, rate) {
        silence_gives_nothing(next, rest, cfg, rate);
        let p = (closed_pulses(t, cfg), t.start);
        if closed_pulses(t, cfg).len() >= cfg.min_pulses {
            assert(packages(s, first, cfg, rate) =~= seq![p]);
            assert(seq![p] + none =~= seq![p]);
        } else {
            assert(packages(s, first, cfg, rate) =~= none);
            assert(none + none =~= none);
        }
    } else {
        assert(packages(s, first, cfg, rate) =~= none);
        silence_ends_the_burst(next, rest, cfg, rate);
        let r = packages(next, level(false, rest), cfg, rate);
        assert(none + r =~= r);
    }
}

/// A burst comes out as it was keyed: one pulse for every mark, in order and
/// whatever their number, each with the whole gap behind it, crossings too short
/// to be marks included. The last mark gets the timeout for its gap. A burst of
/// fewer pulses than are asked for gives nothing and is counted.
pub proof fn a_burst_comes_out_as_it_was_keyed(
    s: Ook,
    shots: Seq<Shot>,
    last: nat,
    silence: nat,
    cfg: PulseConfig,
    rate: int,
)
    requires
        !s.high,
        s.pulses.len() == 0,
        s.pending == 0,
        s.too_few < u64::MAX,
        cfg.min_mark_us >= 1,
        cfg.min_pulses >= 1,
        forall|i: int| 0 <= i < shots.len() ==> shot_holds(#[trigger] shots[i], cfg, rate),
        last >= 1,
        us_spec(last, rate) >= cfg.min_mark_us,
        silence > samples_spec(cfg.reset_us as nat, rate),
    ensures
        ({
            let levels = shots_levels(shots) + level(true, last) + level(false, silence);
            let pulses = shot_pulses(shots, rate).push(
                Pulse { mark: us_spec(last, rate) as u32, gap: cfg.reset_us },
            );
            let t = after(s, levels, cfg, rate);
            &&& packages(s, levels, cfg, rate) == if shots.len() + 1 >= cfg.min_pulses {
                seq![(pulses, s.sample)]
            } else {
                Seq::empty()
            }
            &&& t.too_few == s.too_few + if shots.len() + 1 >= cfg.min_pulses {
                0int
            } else {
                1
            }
            &&& t.sample == s.sample + levels.len()
            &&& !t.high && t.pulses.len() == 0 && t.pending == 0
        }),
{
    let none = Seq::<(Seq<Pulse>, nat)>::empty();
    assert(none + none =~= none);
    let body = shots_levels(shots);
    let before = after(s, body, cfg, rate);
    if shots.len() == 0 {
        assert(body =~= Seq::empty());
        assert(before == s);
    } else {
        shots_are_gathered(s, shots, cfg, rate);
        assert(shot_holds(shots[shots.len() - 1], cfg, rate));
    }
    changing(before, last, cfg, rate);
    blocks_do_not_split_pulses(s, body, level(true, last), cfg, rate);
    let marked = after(s, body + level(true, last), cfg, rate);
    let quiet = level(false, silence);
    blocks_do_not_split_pulses(s, body + level(true, last), quiet, cfg, rate);
    if shots.len() > 0 {
        let tail = shots.last();
        assert(gap_us(tail.gap, rate) == gap_us(tail.gap.drop_last(), rate) + us_spec(
            tail.gap.last(),
            rate,
        ));
    }
    assert(turned(marked, cfg, rate).pulses =~= shot_pulses(shots, rate));
    silence_behind_a_mark(marked, silence, cfg, rate);
    let r = packages(marked, quiet, cfg, rate);
    assert(none + r =~= r);
}

} // verus!
