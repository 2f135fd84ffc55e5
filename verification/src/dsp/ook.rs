//! On-off-keying pulse detector.
//!
//! The detector learns, sample by sample, whether the envelope is above the
//! threshold that holds in its present state, and turns that into packages of
//! mark/gap timings. The threshold comes from [`Levels`]; what ratio a package
//! had in decibels is for the caller to say.

use vstd::prelude::*;
use crate::dsp::level::{Levels, FULL_SCALE};
#[allow(unused_imports)]
use crate::dsp::level::{above, heard, seeded, Following, Lv};
use crate::dsp::pulse::{Package, Pulse};
use crate::fixed::{nearest, Micro};
#[allow(unused_imports)]
use crate::fixed::{nearest_bounds, nearest_spec};

verus! {

/// How pulses are told from noise and packages from each other.
#[derive(Clone, Copy, Debug, PartialEq, Eq, Structural)]
pub struct PulseConfig {
    /// Gap longer than this ends the package, in microseconds.
    pub reset_us: u32,
    /// Marks shorter than this are impulse noise, not signal.
    pub min_mark_us: u32,
    /// Packages with fewer pulses than this are discarded.
    pub min_pulses: usize,
    /// Hysteresis as a fraction of the gap between the noise and signal
    /// estimates.
    pub hysteresis: Micro,
    /// Estimator time constant in microseconds.
    pub tau_us: Micro,
    /// Least signal-to-noise ratio at which a package is believed, in dB.
    pub min_snr_db: Micro,
}

impl Default for PulseConfig {
    fn default() -> (r: PulseConfig)
        ensures
            r.reset_us == 4_000,
            r.min_mark_us == 100,
            r.min_pulses == 4,
            r.hysteresis@ == 200_000,
            r.tau_us@ == 500_000_000,
            r.min_snr_db@ == 6_000_000,
    {
        PulseConfig {
            // Some protocols use long inter-symbol gaps and would otherwise be
            // split mid-packet.
            reset_us: 4_000,
            // The fastest common OOK symbol is around 100 us; anything briefer
            // is a threshold crossing, not a transmission.
            min_mark_us: 100,
            min_pulses: 4,
            hysteresis: Micro(200_000),
            tau_us: Micro(500_000_000),
            min_snr_db: Micro(6_000_000),
        }
    }
}

/// Bursts that were seen and not reported.
#[derive(Clone, Copy, Debug, PartialEq, Eq, Structural)]
pub struct PulseStats {
    pub rejected_too_few_pulses: u64,
    pub rejected_low_snr: u64,
}

impl PulseStats {
    /// Bursts rejected for any reason.
    pub fn rejected_total(self) -> (r: u128)
        ensures
            r == self.rejected_too_few_pulses + self.rejected_low_snr,
    {
        self.rejected_too_few_pulses as u128 + self.rejected_low_snr as u128
    }
}

/// Microseconds that `n` samples last at `rate`, to the nearest one and no more
/// than the timings can hold. At a rate of nothing they last for ever.
pub open spec fn us_spec(n: nat, rate: int) -> nat {
    if rate > 0 {
        let us = nearest_spec(n * 1_000_000_000_000, rate as nat);
        if us > 0xffff_ffff {
            0xffff_ffff
        } else {
            us
        }
    } else if rate == 0 && n > 0 {
        0xffff_ffff
    } else {
        0
    }
}

/// Whole samples in `us` microseconds at `rate`.
pub open spec fn samples_spec(us: nat, rate: int) -> nat {
    if rate > 0 {
        us * (rate as nat) / 1_000_000_000_000
    } else {
        0
    }
}

/// Microseconds that `n` samples last at `rate`.
pub fn samples_to_us(n: u64, rate: Micro) -> (r: u32)
    ensures
        r == us_spec(n as nat, rate@),
{
    if rate.0 <= 0 {
        return if rate.0 == 0 && n > 0 {
            0xffff_ffff
        } else {
            0
        };
    }
    let us: u128 = nearest(n as u128 * 1_000_000_000_000, rate.0 as u128);
    if us > 0xffff_ffff {
        0xffff_ffff
    } else {
        us as u32
    }
}

/// Whole samples in `us` microseconds at `rate`.
pub fn us_to_samples(us: u32, rate: Micro) -> (r: u64)
    ensures
        r == samples_spec(us as nat, rate@),
{
    if rate.0 <= 0 {
        return 0;
    }
    assert(us * rate.0 <= 0xffff_ffff * 0x7fff_ffff_ffff_ffff) by (nonlinear_arith)
        requires
            0 <= us <= 0xffff_ffff,
            0 <= rate.0 <= 0x7fff_ffff_ffff_ffff,
    ;
    let n: u128 = us as u128 * rate.0 as u128 / 1_000_000_000_000;
    n as u64
}

/// State of the detector.
pub struct Ook {
    /// Above threshold.
    pub high: bool,
    /// Samples since the level last changed.
    pub run: nat,
    /// Pulses of the package being built whose gap is known.
    pub pulses: Seq<Pulse>,
    /// Sample at which that package started.
    pub start: nat,
    /// Mark awaiting its gap, zero for none.
    pub pending: nat,
    /// Gap since that mark.
    pub gap: nat,
    /// Samples seen.
    pub sample: nat,
    pub too_few: nat,
}

/// A run of one level has ended and the other begins. A high run long enough is
/// a mark: the mark before it now has its whole gap. Every other run belongs to
/// the gap in progress.
pub open spec fn turned(s: Ook, cfg: PulseConfig, rate: int) -> Ook {
    let dur = us_spec(s.run, rate);
    if s.high && dur >= cfg.min_mark_us {
        Ook {
            high: false,
            run: 0,
            pulses: if s.pending > 0 {
                s.pulses.push(Pulse { mark: s.pending as u32, gap: s.gap as u32 })
            } else {
                s.pulses
            },
            start: if s.pending == 0 && s.pulses.len() == 0 {
                if s.sample >= s.run {
                    (s.sample - s.run) as nat
                } else {
                    0
                }
            } else {
                s.start
            },
            pending: dur,
            gap: 0,
            ..s
        }
    } else {
        Ook { high: !s.high, run: 0, gap: s.gap + dur, ..s }
    }
}

/// The level of one sample has been taken in.
pub open spec fn taken(s: Ook, above: bool, cfg: PulseConfig, rate: int) -> Ook {
    let t = if above != s.high {
        turned(s, cfg, rate)
    } else {
        s
    };
    Ook { run: t.run + 1, sample: t.sample + 1, ..t }
}

/// Whether there is no carrier and the gap since the last mark, crossings too
/// short to be marks included, has grown long enough to end the package.
pub open spec fn silent(s: Ook, cfg: PulseConfig, rate: int) -> bool {
    !s.high && (s.run > samples_spec(cfg.reset_us as nat, rate) || s.gap + us_spec(s.run, rate)
        > cfg.reset_us)
}

/// Every pulse of the package that a silence ends: the last mark gets the
/// timeout for its gap.
pub open spec fn closed_pulses(s: Ook, cfg: PulseConfig) -> Seq<Pulse> {
    if s.pending >= cfg.min_mark_us {
        s.pulses.push(Pulse { mark: s.pending as u32, gap: cfg.reset_us })
    } else {
        s.pulses
    }
}

/// The package has ended, reported or not.
pub open spec fn closed(s: Ook, cfg: PulseConfig) -> Ook {
    let n = closed_pulses(s, cfg).len();
    Ook {
        run: 0,
        pulses: Seq::empty(),
        pending: 0,
        gap: 0,
        too_few: if 0 < n < cfg.min_pulses {
            if s.too_few < u64::MAX {
                s.too_few + 1
            } else {
                s.too_few
            }
        } else {
            s.too_few
        },
        ..s
    }
}

/// One sample on.
pub open spec fn stepped(s: Ook, above: bool, cfg: PulseConfig, rate: int) -> Ook {
    let t = taken(s, above, cfg, rate);
    if silent(t, cfg, rate) {
        closed(t, cfg)
    } else {
        t
    }
}

/// The package that one sample completes: its pulses and where it started.
pub open spec fn completed(s: Ook, above: bool, cfg: PulseConfig, rate: int) -> Option<
    (Seq<Pulse>, nat),
> {
    let t = taken(s, above, cfg, rate);
    if silent(t, cfg, rate) && closed_pulses(t, cfg).len() >= cfg.min_pulses {
        Some((closed_pulses(t, cfg), t.start))
    } else {
        None
    }
}

/// Whether the run that has lasted so far would join the gap when it ends.
pub open spec fn joins_the_gap(s: Ook, cfg: PulseConfig, rate: int) -> bool {
    !(s.high && us_spec(s.run, rate) >= cfg.min_mark_us)
}

/// Whether the counters can hold one more sample of that level.
pub open spec fn room(s: Ook, above: bool, cfg: PulseConfig, rate: int) -> bool {
    &&& s.sample < u64::MAX
    &&& s.run < u64::MAX
    &&& above != s.high && joins_the_gap(s, cfg, rate) ==> s.gap + us_spec(s.run, rate) <= u32::MAX
}

/// Whether every mark that counts is credible and no gap inside the package is
/// one that would have ended it.
pub open spec fn sound(s: Ook, cfg: PulseConfig) -> bool {
    &&& forall|i: int|
        0 <= i < s.pulses.len() ==> (#[trigger] s.pulses[i]).mark >= cfg.min_mark_us
            && s.pulses[i].gap <= cfg.reset_us
    &&& s.pulses.len() > 0 ==> s.pending >= cfg.min_mark_us
    &&& s.pending > 0 ==> s.pending >= cfg.min_mark_us
    &&& s.pending <= u32::MAX
    &&& s.gap <= u32::MAX
}

/// What holds of the detector between samples.
pub open spec fn steady(s: Ook, cfg: PulseConfig, rate: int) -> bool {
    &&& sound(s, cfg)
    &&& s.high ==> s.gap <= cfg.reset_us
    &&& !s.high ==> s.gap + us_spec(s.run, rate) <= cfg.reset_us
}

/// A detector that has seen nothing.
pub open spec fn fresh() -> Ook {
    Ook {
        high: false,
        run: 0,
        pulses: Seq::empty(),
        start: 0,
        pending: 0,
        gap: 0,
        sample: 0,
        too_few: 0,
    }
}

/// On-off-keying pulse detector.
pub struct OokDetector {
    cfg: PulseConfig,
    rate: Micro,
    high: bool,
    run: u64,
    pulses: Vec<Pulse>,
    start: u64,
    pending_mark: u32,
    gap_accum: u32,
    sample: u64,
    stats: PulseStats,
}

impl View for OokDetector {
    type V = Ook;

    closed spec fn view(&self) -> Ook {
        Ook {
            high: self.high,
            run: self.run as nat,
            pulses: self.pulses@,
            start: self.start as nat,
            pending: self.pending_mark as nat,
            gap: self.gap_accum as nat,
            sample: self.sample as nat,
            too_few: self.stats.rejected_too_few_pulses as nat,
        }
    }
}

impl OokDetector {
    pub closed spec fn cfg(&self) -> PulseConfig {
        self.cfg
    }

    /// Samples per second, in millionths.
    pub closed spec fn rate_view(&self) -> int {
        self.rate@
    }

    /// Packages rejected for their signal-to-noise ratio.
    pub closed spec fn low_snr(&self) -> nat {
        self.stats.rejected_low_snr as nat
    }

    pub open spec fn wf(&self) -> bool {
        steady(self@, self.cfg(), self.rate_view())
    }

    pub fn new(rate: Micro, cfg: PulseConfig) -> (r: OokDetector)
        ensures
            r.wf(),
            r.cfg() == cfg,
            r.rate_view() == rate@,
            r.low_snr() == 0,
            r@ == fresh(),
    {
        proof {
            no_samples_last_no_time(rate@);
        }
        OokDetector {
            cfg,
            rate,
            high: false,
            run: 0,
            pulses: Vec::new(),
            start: 0,
            pending_mark: 0,
            gap_accum: 0,
            sample: 0,
            stats: PulseStats { rejected_too_few_pulses: 0, rejected_low_snr: 0 },
        }
    }

    pub fn rate(&self) -> (r: Micro)
        ensures
            r@ == self.rate_view(),
    {
        self.rate
    }

    pub fn config(&self) -> (r: PulseConfig)
        ensures
            r == self.cfg(),
    {
        self.cfg
    }

    /// Whether the envelope was last above the threshold, which is what the
    /// hysteresis depends on.
    pub fn is_high(&self) -> (r: bool)
        ensures
            r == self@.high,
    {
        self.high
    }

    /// Drops the burst in progress. The sample count goes on.
    pub fn reset(&mut self)
        requires
            old(self).wf(),
        ensures
            final(self).wf(),
            final(self).cfg() == old(self).cfg(),
            final(self).rate_view() == old(self).rate_view(),
            final(self).low_snr() == old(self).low_snr(),
            final(self)@ == (Ook {
                high: false,
                run: 0,
                pulses: Seq::empty(),
                start: 0,
                pending: 0,
                gap: 0,
                sample: old(self)@.sample,
                too_few: old(self)@.too_few,
            }),
    {
        proof {
            no_samples_last_no_time(self.rate_view());
        }
        self.high = false;
        self.run = 0;
        self.pulses = Vec::new();
        self.start = 0;
        self.pending_mark = 0;
        self.gap_accum = 0;
    }

    /// Drops the burst that filled the counters, and says whether the detector
    /// can go on: it can until there are more samples than it can count.
    pub fn make_room(&mut self) -> (r: bool)
        requires
            old(self).wf(),
        ensures
            final(self).wf(),
            final(self).cfg() == old(self).cfg(),
            final(self).rate_view() == old(self).rate_view(),
            final(self).low_snr() == old(self).low_snr(),
            final(self)@ == (Ook {
                sample: old(self)@.sample,
                too_few: old(self)@.too_few,
                ..fresh()
            }),
            r == (old(self)@.sample < u64::MAX),
            forall|above: bool|
                r == #[trigger] room(final(self)@, above, old(self).cfg(), old(self).rate_view()),
    {
        proof {
            no_samples_last_no_time(self.rate_view());
        }
        self.reset();
        self.sample < u64::MAX
    }

    /// Takes the counts of rejected bursts and starts them again.
    pub fn take_stats(&mut self) -> (r: PulseStats)
        requires
            old(self).wf(),
        ensures
            final(self).wf(),
            final(self).cfg() == old(self).cfg(),
            final(self).rate_view() == old(self).rate_view(),
            r.rejected_too_few_pulses == old(self)@.too_few,
            r.rejected_low_snr == old(self).low_snr(),
            final(self)@ == (Ook { too_few: 0, ..old(self)@ }),
            final(self).low_snr() == 0,
    {
        let s: PulseStats = self.stats;
        self.stats = PulseStats { rejected_too_few_pulses: 0, rejected_low_snr: 0 };
        s
    }

    /// Whether one more sample of that level can be counted.
    pub fn has_room(&self, above: bool) -> (r: bool)
        requires
            self.wf(),
        ensures
            r == room(self@, above, self.cfg(), self.rate_view()),
    {
        if self.sample == u64::MAX || self.run == u64::MAX {
            return false;
        }
        if above == self.high {
            return true;
        }
        let dur: u32 = samples_to_us(self.run, self.rate);
        (self.high && dur >= self.cfg.min_mark_us) || dur <= u32::MAX - self.gap_accum
    }

    /// The level has changed.
    fn turn(&mut self)
        requires
            old(self).wf(),
            room(old(self)@, !old(self)@.high, old(self).cfg(), old(self).rate_view()),
        ensures
            sound(final(self)@, final(self).cfg()),
            final(self).cfg() == old(self).cfg(),
            final(self).rate_view() == old(self).rate_view(),
            final(self).low_snr() == old(self).low_snr(),
            final(self)@ == turned(old(self)@, old(self).cfg(), old(self).rate_view()),
    {
        let dur: u32 = samples_to_us(self.run, self.rate);
        if self.high && dur >= self.cfg.min_mark_us {
            if self.pending_mark > 0 {
                self.pulses.push(Pulse { mark: self.pending_mark, gap: self.gap_accum });
            } else if self.pulses.len() == 0 {
                self.start = self.sample.saturating_sub(self.run);
            }
            self.pending_mark = dur;
            self.gap_accum = 0;
        } else {
            // A mark too short to be a symbol is a threshold crossing inside a
            // gap. Discarding it would split one gap into two shorter ones and
            // corrupt every timing that follows.
            self.gap_accum = self.gap_accum + dur;
        }
        self.high = !self.high;
        self.run = 0;
        proof {
            let before = old(self)@;
            let now = self@;
            assert forall|i: int| 0 <= i < now.pulses.len() implies (
            #[trigger] now.pulses[i]).mark >= self.cfg().min_mark_us && now.pulses[i].gap
                <= self.cfg().reset_us by {
                if i < before.pulses.len() {
                    assert(now.pulses[i] == before.pulses[i]);
                }
            }
        }
    }

    /// Takes in whether one sample of the envelope is above the threshold.
    /// Returns a package once a long silence has ended one with enough pulses;
    /// whether it is believed is for [`OokDetector::judge`] to say.
    pub fn step(&mut self, above: bool) -> (r: Option<Package>)
        requires
            old(self).wf(),
            room(old(self)@, above, old(self).cfg(), old(self).rate_view()),
        ensures
            final(self).wf(),
            final(self).cfg() == old(self).cfg(),
            final(self).rate_view() == old(self).rate_view(),
            final(self).low_snr() == old(self).low_snr(),
            final(self)@ == stepped(old(self)@, above, old(self).cfg(), old(self).rate_view()),
            match completed(old(self)@, above, old(self).cfg(), old(self).rate_view()) {
                Some((pulses, start)) => {
                    &&& r matches Some(p)
                    &&& p.pulses@ == pulses
                    &&& p.start_sample == start
                    &&& p.snr_db@ == 0
                    &&& p.rate@ == old(self).rate_view()
                },
                None => r is None,
            },
    {
        if above != self.high {
            self.turn();
        }
        self.run = self.run + 1;
        self.sample = self.sample + 1;
        assert(self@ == taken(old(self)@, above, old(self).cfg(), old(self).rate_view()));
        proof {
            steps_stay_steady(old(self)@, above, old(self).cfg(), old(self).rate_view());
        }
        let gap: u64 = self.gap_accum as u64 + samples_to_us(self.run, self.rate) as u64;
        if self.high || (self.run <= us_to_samples(self.cfg.reset_us, self.rate) && gap
            <= self.cfg.reset_us as u64) {
            return None;
        }
        let ghost t = self@;
        let mut pulses: Vec<Pulse> = Vec::new();
        std::mem::swap(&mut pulses, &mut self.pulses);
        if self.pending_mark >= self.cfg.min_mark_us {
            pulses.push(Pulse { mark: self.pending_mark, gap: self.cfg.reset_us });
        }
        assert(pulses@ == closed_pulses(t, self.cfg()));
        self.pending_mark = 0;
        self.gap_accum = 0;
        self.run = 0;
        if pulses.len() >= self.cfg.min_pulses {
            Some(Package { pulses, snr_db: Micro(0), start_sample: self.start, rate: self.rate })
        } else {
            if pulses.len() > 0 {
                self.stats.rejected_too_few_pulses =
                self.stats.rejected_too_few_pulses.saturating_add(1);
            }
            None
        }
    }

    /// Believes a package whose signal-to-noise ratio is high enough, and
    /// counts it as rejected otherwise.
    pub fn judge(&mut self, p: Package, snr_db: Micro) -> (r: Option<Package>)
        requires
            old(self).wf(),
        ensures
            final(self).wf(),
            final(self).cfg() == old(self).cfg(),
            final(self).rate_view() == old(self).rate_view(),
            if snr_db@ >= old(self).cfg().min_snr_db@ {
                &&& final(self)@ == (Ook { start: 0, ..old(self)@ })
                &&& r matches Some(q)
                &&& q.pulses@ == p.pulses@
                &&& q.start_sample == p.start_sample
                &&& q.rate == p.rate
                &&& q.snr_db == snr_db
                &&& final(self).low_snr() == old(self).low_snr()
            } else {
                &&& final(self)@ == old(self)@
                &&& r is None
                &&& final(self).low_snr() == (if old(self).low_snr() < u64::MAX {
                    old(self).low_snr() + 1
                } else {
                    old(self).low_snr()
                })
            },
    {
        if snr_db.0 >= self.cfg.min_snr_db.0 {
            self.start = 0;
            Some(
                Package {
                    pulses: p.pulses,
                    snr_db,
                    start_sample: p.start_sample,
                    rate: p.rate,
                },
            )
        } else {
            self.stats.rejected_low_snr = self.stats.rejected_low_snr.saturating_add(1);
            None
        }
    }
}

/// A detector together with the levels that it goes by.
pub struct Hearing {
    pub ook: Ook,
    pub levels: Lv,
}

/// Whether a sample is above the threshold.
pub open spec fn is_above(h: Hearing, f: Following, v: i64) -> bool {
    above(seeded(h.levels, v as int), f, v as int, h.ook.high)
}

/// One sample of the envelope on.
pub open spec fn fed_one(h: Hearing, f: Following, v: i64, cfg: PulseConfig, rate: int) -> Hearing {
    Hearing {
        ook: stepped(h.ook, is_above(h, f, v), cfg, rate),
        levels: heard(h.levels, f, v as int, h.ook.high),
    }
}

/// The package that one sample of the envelope completes.
pub open spec fn completed_by(
    h: Hearing,
    f: Following,
    v: i64,
    cfg: PulseConfig,
    rate: int,
) -> Option<(Seq<Pulse>, nat)> {
    completed(h.ook, is_above(h, f, v), cfg, rate)
}

/// A block of the envelope on.
pub open spec fn fed(
    h: Hearing,
    f: Following,
    env: Seq<i64>,
    cfg: PulseConfig,
    rate: int,
) -> Hearing
    decreases env.len(),
{
    if env.len() == 0 {
        h
    } else {
        fed_one(fed(h, f, env.drop_last(), cfg, rate), f, env.last(), cfg, rate)
    }
}

/// Whether none of the first `n` samples completes a package.
pub open spec fn quiet_until(
    h: Hearing,
    f: Following,
    env: Seq<i64>,
    cfg: PulseConfig,
    rate: int,
    n: int,
) -> bool {
    forall|i: int|
        0 <= i < n ==> #[trigger] completed_by(
            fed(h, f, env.take(i), cfg, rate),
            f,
            env[i],
            cfg,
            rate,
        ) is None
}

/// Whether there is room for each of the first `n` samples.
pub open spec fn roomy_until(
    h: Hearing,
    f: Following,
    env: Seq<i64>,
    cfg: PulseConfig,
    rate: int,
    n: int,
) -> bool {
    forall|i: int| 0 <= i < n ==> #[trigger] has_room_for(
        fed(h, f, env.take(i), cfg, rate),
        f,
        env[i],
        cfg,
        rate,
    )
}

/// Whether there is room for a sample of the envelope.
pub open spec fn has_room_for(
    h: Hearing,
    f: Following,
    v: i64,
    cfg: PulseConfig,
    rate: int,
) -> bool {
    room(h.ook, is_above(h, f, v), cfg, rate)
}

/// How far a block of the envelope was taken in.
#[derive(Debug)]
pub enum Fed {
    /// All of it.
    All,
    /// So many samples, the last of which completed a package.
    Package(usize, Package),
    /// So many samples, after which the counters are full.
    Full(usize),
}

impl OokDetector {
    /// Takes in a block of the envelope, up to the first package it completes.
    /// The caller says what ratio the levels then stand for, has the package
    /// judged, and goes on behind it.
    pub fn process(&mut self, levels: &mut Levels, env: &[i64]) -> (r: Fed)
        requires
            old(self).wf(),
            old(levels).wf(),
            forall|i: int| 0 <= i < env@.len() ==> 0 <= #[trigger] env@[i] <= FULL_SCALE,
        ensures
            final(self).wf(),
            final(levels).wf(),
            final(self).cfg() == old(self).cfg(),
            final(self).rate_view() == old(self).rate_view(),
            final(self).low_snr() == old(self).low_snr(),
            final(levels).following() == old(levels).following(),
            ({
                let (f, cfg, rate) = (
                    old(levels).following(),
                    old(self).cfg(),
                    old(self).rate_view(),
                );
                let before = Hearing { ook: old(self)@, levels: old(levels)@ };
                let now = Hearing { ook: final(self)@, levels: final(levels)@ };
                match r {
                    Fed::All => {
                        &&& now == fed(before, f, env@, cfg, rate)
                        &&& quiet_until(before, f, env@, cfg, rate, env@.len() as int)
                        &&& roomy_until(before, f, env@, cfg, rate, env@.len() as int)
                    },
                    Fed::Package(n, p) => {
                        &&& 1 <= n <= env@.len()
                        &&& now == fed(before, f, env@.take(n as int), cfg, rate)
                        &&& quiet_until(before, f, env@, cfg, rate, n - 1)
                        &&& roomy_until(before, f, env@, cfg, rate, n as int)
                        &&& completed_by(
                            fed(before, f, env@.take(n - 1), cfg, rate),
                            f,
                            env@[n - 1],
                            cfg,
                            rate,
                        ) == Some((p.pulses@, p.start_sample as nat))
                        &&& p.snr_db@ == 0
                        &&& p.rate@ == rate
                    },
                    Fed::Full(n) => {
                        &&& n < env@.len()
                        &&& now == fed(before, f, env@.take(n as int), cfg, rate)
                        &&& quiet_until(before, f, env@, cfg, rate, n as int)
                        &&& roomy_until(before, f, env@, cfg, rate, n as int)
                        &&& !has_room_for(now, f, env@[n as int], cfg, rate)
                    },
                }
            }),
    {
        let n: usize = env.len();
        let ghost before = Hearing { ook: self@, levels: levels@ };
        let ghost f = levels.following();
        let ghost cfg = self.cfg();
        let ghost rate = self.rate_view();
        let mut i: usize = 0;
        assert(env@.take(0) =~= Seq::empty());
        while i < n
            invariant
                n == env@.len(),
                i <= n,
                self.wf(),
                levels.wf(),
                self.cfg() == cfg,
                self.rate_view() == rate,
                self.low_snr() == old(self).low_snr(),
                levels.following() == f,
                cfg == old(self).cfg(),
                rate == old(self).rate_view(),
                f == old(levels).following(),
                before == (Hearing { ook: old(self)@, levels: old(levels)@ }),
                forall|k: int| 0 <= k < env@.len() ==> 0 <= #[trigger] env@[k] <= FULL_SCALE,
                (Hearing { ook: self@, levels: levels@ }) == fed(
                    before,
                    f,
                    env@.take(i as int),
                    cfg,
                    rate,
                ),
                quiet_until(before, f, env@, cfg, rate, i as int),
                roomy_until(before, f, env@, cfg, rate, i as int),
            decreases n - i,
        {
            proof {
                assert(env@.take(i + 1).drop_last() =~= env@.take(i as int));
                assert(env@.take(i + 1).last() == env@[i as int]);
            }
            let v: i64 = env[i];
            let high: bool = self.is_high();
            let now_above: bool = levels.would(v, high);
            if !self.has_room(now_above) {
                return Fed::Full(i);
            }
            let _ = levels.hear(v, high);
            let done: Option<Package> = self.step(now_above);
            i += 1;
            match done {
                Some(p) => {
                    return Fed::Package(i, p);
                },
                None => {},
            }
        }
        assert(env@.take(n as int) =~= env@);
        Fed::All
    }
}

/// The packages that a block of the envelope completes.
pub open spec fn completions(
    h: Hearing,
    f: Following,
    env: Seq<i64>,
    cfg: PulseConfig,
    rate: int,
) -> Seq<(Seq<Pulse>, nat)>
    decreases env.len(),
{
    if env.len() == 0 {
        Seq::empty()
    } else {
        let head = env.drop_last();
        let earlier = completions(h, f, head, cfg, rate);
        match completed_by(fed(h, f, head, cfg, rate), f, env.last(), cfg, rate) {
            Some(p) => earlier.push(p),
            None => earlier,
        }
    }
}

/// How the envelope is cut into blocks makes no difference, neither to the state
/// nor to the packages.
pub proof fn envelopes_can_be_cut(
    h: Hearing,
    f: Following,
    a: Seq<i64>,
    b: Seq<i64>,
    cfg: PulseConfig,
    rate: int,
)
    ensures
        fed(h, f, a + b, cfg, rate) == fed(fed(h, f, a, cfg, rate), f, b, cfg, rate),
        completions(h, f, a + b, cfg, rate) == completions(h, f, a, cfg, rate) + completions(
            fed(h, f, a, cfg, rate),
            f,
            b,
            cfg,
            rate,
        ),
    decreases b.len(),
{
    if b.len() == 0 {
        assert(a + b =~= a);
        assert(completions(h, f, a, cfg, rate) + Seq::empty() =~= completions(h, f, a, cfg, rate));
    } else {
        envelopes_can_be_cut(h, f, a, b.drop_last(), cfg, rate);
        assert((a + b).drop_last() =~= a + b.drop_last());
        assert(completions(h, f, a + b, cfg, rate) =~= completions(h, f, a, cfg, rate)
            + completions(fed(h, f, a, cfg, rate), f, b, cfg, rate));
    }
}

/// A package that is believed, with its ratio in decibels.
pub struct Found {
    pub pulses: Seq<Pulse>,
    pub start: nat,
    pub snr_db: int,
}

/// A detector after a package of that ratio was judged.
pub open spec fn judged(h: Hearing, snr_db: int, cfg: PulseConfig) -> Hearing {
    if snr_db >= cfg.min_snr_db@ {
        Hearing { ook: Ook { start: 0, ..h.ook }, ..h }
    } else {
        h
    }
}

/// One sample of the envelope on, where a package that it completes is judged.
/// `ratio` is what levels stand for, in millionths of a decibel.
pub open spec fn attended_one(
    h: Hearing,
    f: Following,
    v: i64,
    cfg: PulseConfig,
    rate: int,
    ratio: spec_fn(Lv) -> int,
) -> Hearing {
    let next = fed_one(h, f, v, cfg, rate);
    if completed_by(h, f, v, cfg, rate) is Some {
        judged(next, ratio(next.levels), cfg)
    } else {
        next
    }
}

/// The package that one sample of the envelope completes, if it is believed.
pub open spec fn believed_by(
    h: Hearing,
    f: Following,
    v: i64,
    cfg: PulseConfig,
    rate: int,
    ratio: spec_fn(Lv) -> int,
) -> Option<Found> {
    let snr_db = ratio(fed_one(h, f, v, cfg, rate).levels);
    match completed_by(h, f, v, cfg, rate) {
        Some((pulses, start)) => if snr_db >= cfg.min_snr_db@ {
            Some(Found { pulses, start, snr_db })
        } else {
            None
        },
        None => None,
    }
}

/// A block of the envelope on, where packages are judged as they are completed.
pub open spec fn attended(
    h: Hearing,
    f: Following,
    env: Seq<i64>,
    cfg: PulseConfig,
    rate: int,
    ratio: spec_fn(Lv) -> int,
) -> Hearing
    decreases env.len(),
{
    if env.len() == 0 {
        h
    } else {
        attended_one(
            attended(h, f, env.drop_last(), cfg, rate, ratio),
            f,
            env.last(),
            cfg,
            rate,
            ratio,
        )
    }
}

/// The packages of a block of the envelope that are believed.
pub open spec fn believed(
    h: Hearing,
    f: Following,
    env: Seq<i64>,
    cfg: PulseConfig,
    rate: int,
    ratio: spec_fn(Lv) -> int,
) -> Seq<Found>
    decreases env.len(),
{
    if env.len() == 0 {
        Seq::empty()
    } else {
        let head = env.drop_last();
        let earlier = believed(h, f, head, cfg, rate, ratio);
        match believed_by(
            attended(h, f, head, cfg, rate, ratio),
            f,
            env.last(),
            cfg,
            rate,
            ratio,
        ) {
            Some(p) => earlier.push(p),
            None => earlier,
        }
    }
}

/// How the envelope is cut into blocks does not change the packages that are
/// believed, nor any that come later.
pub proof fn cutting_the_envelope_changes_no_package(
    h: Hearing,
    f: Following,
    a: Seq<i64>,
    b: Seq<i64>,
    cfg: PulseConfig,
    rate: int,
    ratio: spec_fn(Lv) -> int,
)
    ensures
        attended(h, f, a + b, cfg, rate, ratio) == attended(
            attended(h, f, a, cfg, rate, ratio),
            f,
            b,
            cfg,
            rate,
            ratio,
        ),
        believed(h, f, a + b, cfg, rate, ratio) == believed(h, f, a, cfg, rate, ratio) + believed(
            attended(h, f, a, cfg, rate, ratio),
            f,
            b,
            cfg,
            rate,
            ratio,
        ),
    decreases b.len(),
{
    let mid = attended(h, f, a, cfg, rate, ratio);
    let first = believed(h, f, a, cfg, rate, ratio);
    if b.len() == 0 {
        assert(a + b =~= a);
        assert(first + Seq::empty() =~= first);
    } else {
        cutting_the_envelope_changes_no_package(h, f, a, b.drop_last(), cfg, rate, ratio);
        assert((a + b).drop_last() =~= a + b.drop_last());
        assert(believed(h, f, a + b, cfg, rate, ratio) =~= first + believed(
            mid,
            f,
            b,
            cfg,
            rate,
            ratio,
        ));
    }
}

/// Samples that complete no package are only taken in: as long as none does, the
/// detector is where processing alone leaves it, and nothing is believed.
pub proof fn quiet_samples_are_only_taken_in(
    h: Hearing,
    f: Following,
    env: Seq<i64>,
    cfg: PulseConfig,
    rate: int,
    ratio: spec_fn(Lv) -> int,
    n: int,
)
    requires
        0 <= n <= env.len(),
        quiet_until(h, f, env, cfg, rate, n),
    ensures
        attended(h, f, env.take(n), cfg, rate, ratio) == fed(h, f, env.take(n), cfg, rate),
        believed(h, f, env.take(n), cfg, rate, ratio) == Seq::<Found>::empty(),
    decreases n,
{
    if n > 0 {
        quiet_samples_are_only_taken_in(h, f, env, cfg, rate, ratio, n - 1);
        let head = env.take(n - 1);
        assert(env.take(n).drop_last() =~= head);
        assert(env.take(n).last() == env[n - 1]);
        assert(completed_by(fed(h, f, head, cfg, rate), f, env[n - 1], cfg, rate) is None);
    }
}

/// A sample that completes a package adds it to what is believed where its ratio
/// is high enough, and the detector is then where judging the package leaves it.
/// So processing an envelope up to each package and judging it there gives the
/// packages that are believed.
pub proof fn judging_gives_the_packages(
    h: Hearing,
    f: Following,
    env: Seq<i64>,
    cfg: PulseConfig,
    rate: int,
    ratio: spec_fn(Lv) -> int,
    n: int,
)
    requires
        1 <= n <= env.len(),
        quiet_until(h, f, env, cfg, rate, n - 1),
        completed_by(fed(h, f, env.take(n - 1), cfg, rate), f, env[n - 1], cfg, rate) is Some,
    ensures
        ({
            let (pulses, start) = completed_by(
                fed(h, f, env.take(n - 1), cfg, rate),
                f,
                env[n - 1],
                cfg,
                rate,
            )->0;
            let now = fed(h, f, env.take(n), cfg, rate);
            let snr_db = ratio(now.levels);
            &&& attended(h, f, env.take(n), cfg, rate, ratio) == judged(now, snr_db, cfg)
            &&& believed(h, f, env.take(n), cfg, rate, ratio) == if snr_db >= cfg.min_snr_db@ {
                seq![Found { pulses, start, snr_db }]
            } else {
                Seq::empty()
            }
        }),
{
    let head = env.take(n - 1);
    quiet_samples_are_only_taken_in(h, f, env, cfg, rate, ratio, n - 1);
    assert(env.take(n).drop_last() =~= head);
    assert(env.take(n).last() == env[n - 1]);
    let here = fed(h, f, head, cfg, rate);
    let (pulses, start) = completed_by(here, f, env[n - 1], cfg, rate)->0;
    let snr_db = ratio(fed_one(here, f, env[n - 1], cfg, rate).levels);
    let p = Found { pulses, start, snr_db };
    assert(Seq::<Found>::empty().push(p) =~= seq![p]);
}

/// One sample leaves the detector as it should be.
proof fn steps_stay_steady(s: Ook, above: bool, cfg: PulseConfig, rate: int)
    requires
        steady(s, cfg, rate),
        room(s, above, cfg, rate),
    ensures
        sound(taken(s, above, cfg, rate), cfg),
        taken(s, above, cfg, rate).high ==> taken(s, above, cfg, rate).gap <= cfg.reset_us,
        steady(stepped(s, above, cfg, rate), cfg, rate),
{
    let t = taken(s, above, cfg, rate);
    assert forall|i: int| 0 <= i < t.pulses.len() implies (#[trigger] t.pulses[i]).mark
        >= cfg.min_mark_us && t.pulses[i].gap <= cfg.reset_us by {
        if i < s.pulses.len() {
            assert(t.pulses[i] == s.pulses[i]);
        }
    }
    no_samples_last_no_time(rate);
}

proof fn no_samples_last_no_time(rate: int)
    ensures
        us_spec(0, rate) == 0,
{
    if rate > 0 {
        nearest_bounds(0, rate as nat);
    }
}

/// A gap longer than the reset ends the package: none lies inside one, whatever
/// crossings too short to be marks interrupt it.
pub proof fn no_gap_outlasts_the_reset(s: Ook, above: bool, cfg: PulseConfig, rate: int)
    requires
        steady(s, cfg, rate),
        room(s, above, cfg, rate),
    ensures
        completed(s, above, cfg, rate) matches Some((p, _)) ==> forall|i: int|
            0 <= i < p.len() ==> (#[trigger] p[i]).gap <= cfg.reset_us,
        steady(stepped(s, above, cfg, rate), cfg, rate),
{
    steps_stay_steady(s, above, cfg, rate);
}

/// A package has at least the pulses asked for, no mark in it is shorter than
/// the least credible one, and its final gap is the timeout that ended it.
pub proof fn packages_are_credible(s: Ook, above: bool, cfg: PulseConfig, rate: int)
    requires
        steady(s, cfg, rate),
    ensures
        completed(s, above, cfg, rate) matches Some((p, _)) ==> {
            &&& p.len() >= cfg.min_pulses
            &&& forall|i: int| 0 <= i < p.len() ==> (#[trigger] p[i]).mark >= cfg.min_mark_us
            &&& p.len() > 0 ==> p.last().gap == cfg.reset_us
        },
{
    let t = taken(s, above, cfg, rate);
    if t.pending >= cfg.min_mark_us {
        let p = closed_pulses(t, cfg);
        assert(p.last() == Pulse { mark: t.pending as u32, gap: cfg.reset_us });
    }
}

/// A threshold crossing too short to be a mark is folded into the gap that it
/// interrupts: the pulses and the mark that waits for its gap stay as they are.
pub proof fn short_marks_join_the_gap(s: Ook, cfg: PulseConfig, rate: int)
    requires
        s.high,
        us_spec(s.run, rate) < cfg.min_mark_us,
    ensures
        taken(s, false, cfg, rate).pulses == s.pulses,
        taken(s, false, cfg, rate).pending == s.pending,
        taken(s, false, cfg, rate).gap == s.gap + us_spec(s.run, rate),
{
}

/// The detector after a block of levels.
pub open spec fn after(s: Ook, block: Seq<bool>, cfg: PulseConfig, rate: int) -> Ook
    decreases block.len(),
{
    if block.len() == 0 {
        s
    } else {
        stepped(after(s, block.drop_last(), cfg, rate), block.last(), cfg, rate)
    }
}

/// The packages that a block of levels completes.
pub open spec fn packages(s: Ook, block: Seq<bool>, cfg: PulseConfig, rate: int) -> Seq<
    (Seq<Pulse>, nat),
>
    decreases block.len(),
{
    if block.len() == 0 {
        Seq::empty()
    } else {
        let earlier = packages(s, block.drop_last(), cfg, rate);
        match completed(after(s, block.drop_last(), cfg, rate), block.last(), cfg, rate) {
            Some(p) => earlier.push(p),
            None => earlier,
        }
    }
}

/// How the levels are cut into blocks does not change the packages.
pub proof fn blocks_do_not_split_pulses(
    s: Ook,
    a: Seq<bool>,
    b: Seq<bool>,
    cfg: PulseConfig,
    rate: int,
)
    ensures
        after(s, a + b, cfg, rate) == after(after(s, a, cfg, rate), b, cfg, rate),
        packages(s, a + b, cfg, rate) == packages(s, a, cfg, rate) + packages(
            after(s, a, cfg, rate),
            b,
            cfg,
            rate,
        ),
    decreases b.len(),
{
    if b.len() == 0 {
        assert(a + b =~= a);
        assert(packages(s, a, cfg, rate) + Seq::empty() =~= packages(s, a, cfg, rate));
    } else {
        blocks_do_not_split_pulses(s, a, b.drop_last(), cfg, rate);
        assert((a + b).drop_last() =~= a + b.drop_last());
        let t = after(s, a, cfg, rate);
        match completed(after(t, b.drop_last(), cfg, rate), b.last(), cfg, rate) {
            Some(p) => {
                assert((packages(s, a, cfg, rate) + packages(t, b.drop_last(), cfg, rate)).push(p)
                    =~= packages(s, a, cfg, rate) + packages(t, b.drop_last(), cfg, rate).push(p));
            },
            None => {},
        }
    }
}

} // verus!
