//! Tracking the noise and the signal level of an envelope.
//!
//! Levels are whole counts, of whatever size the caller gives a count. The
//! noise is followed while there is no signal, the signal while there is, and
//! the threshold lies between the two, with a hysteresis around it.

use vstd::prelude::*;
use crate::dsp::ook::PulseConfig;
use crate::fixed::{nearest_signed, Micro};
#[allow(unused_imports)]
use crate::fixed::{
    clamp_spec, nearest_at_most, nearest_signed_spec, nearest_spec, rounding_is_bounded,
    rounding_is_close,
};

verus! {

/// The greatest envelope sample.
pub const FULL_SCALE: i64 = 0x100_0000_0000;

/// The levels as mathematical values.
pub struct Lv {
    pub noise: int,
    pub signal: int,
    /// A sample has been heard.
    pub seeded: bool,
}

/// How levels are followed.
pub struct Following {
    /// Time constant in millionths of a sample, one sample at least.
    pub tau: nat,
    /// Hysteresis as a fraction of the gap between the levels, in millionths.
    pub hysteresis: int,
    /// Least ratio of signal to noise, in millionths.
    pub min_ratio: int,
}

/// The time constant in millionths of a sample: one sample at least, and at most
/// what can be held.
pub open spec fn tau_spec(tau_us: int, rate: int) -> nat {
    clamp_spec(
        nearest_signed_spec(tau_us * rate, 1_000_000_000_000),
        1_000_000,
        i64::MAX as int,
    ) as nat
}

/// Before the first sample the levels are set from it.
pub open spec fn seeded(l: Lv, v: int) -> Lv {
    if l.seeded {
        l
    } else {
        Lv { noise: v, signal: 4 * v, seeded: true }
    }
}

/// Whether a sample is above the threshold: halfway between the levels, lower
/// by the hysteresis while the state is high and higher while it is low.
pub open spec fn above(l: Lv, f: Following, v: int, high: bool) -> bool {
    let gap = if l.signal > l.noise {
        l.signal - l.noise
    } else {
        0
    };
    let mid = 1_000_000 * (l.noise + l.signal);
    let by = 2 * f.hysteresis * gap;
    2_000_000 * v > (if high {
        mid - by
    } else {
        mid + by
    })
}

/// A level after it followed a sample.
pub open spec fn followed(x: int, v: int, tau: nat) -> int {
    x + nearest_signed_spec((v - x) * 1_000_000, tau)
}

/// The least signal over a noise.
pub open spec fn least_signal(noise: int, f: Following) -> int {
    nearest_signed_spec(noise * f.min_ratio, 1_000_000)
}

/// The levels after a sample.
pub open spec fn heard(l: Lv, f: Following, v: int, high: bool) -> Lv {
    let s = seeded(l, v);
    if above(s, f, v, high) {
        let signal = followed(s.signal, v, f.tau);
        let least = least_signal(s.noise, f);
        Lv {
            signal: if signal < least {
                least
            } else {
                signal
            },
            ..s
        }
    } else {
        Lv { noise: followed(s.noise, v, f.tau), ..s }
    }
}

/// Follows the levels of an envelope.
pub struct Levels {
    noise: i64,
    signal: i128,
    seeded: bool,
    tau: u128,
    hysteresis: Micro,
    min_ratio: Micro,
}

impl View for Levels {
    type V = Lv;

    closed spec fn view(&self) -> Lv {
        Lv { noise: self.noise as int, signal: self.signal as int, seeded: self.seeded }
    }
}

proof fn following_stays_between(x: int, v: int, tau: nat)
    requires
        tau >= 1_000_000,
    ensures
        x <= v ==> x <= followed(x, v, tau) <= v,
        v <= x ==> v <= followed(x, v, tau) <= x,
{
    let d = v - x;
    let a = if d < 0 {
        -d
    } else {
        d
    };
    assert(a * 1_000_000 <= a * tau) by (nonlinear_arith)
        requires
            tau >= 1_000_000,
            a >= 0,
    ;
    nearest_at_most((a * 1_000_000) as nat, tau, a as nat);
}

proof fn least_signal_bounds(noise: int, f: Following)
    requires
        0 <= noise <= 0x100_0000_0000,
        0 <= f.min_ratio <= i64::MAX,
    ensures
        0 <= noise * f.min_ratio <= 0x100_0000_0000 * i64::MAX,
        0 <= least_signal(noise, f) <= 0x100_0000_0000 * 9_223_372_036_855,
{
    let p = noise * f.min_ratio;
    assert(0 <= p <= 0x100_0000_0000 * i64::MAX) by (nonlinear_arith)
        requires
            p == noise * f.min_ratio,
            0 <= noise <= 0x100_0000_0000,
            0 <= f.min_ratio <= i64::MAX,
    ;
    let q = (2 * p + 1_000_000) / 2_000_000;
    assert(least_signal(noise, f) == q);
    assert(q <= 0x100_0000_0000 * 9_223_372_036_855);
}

impl Levels {
    pub closed spec fn following(&self) -> Following {
        Following {
            tau: self.tau as nat,
            hysteresis: self.hysteresis@,
            min_ratio: self.min_ratio@,
        }
    }

    pub closed spec fn wf(&self) -> bool {
        &&& 1_000_000 <= self.tau <= 0x7fff_ffff_ffff_ffff
        &&& 0 <= self.min_ratio@
        &&& 0 <= self.noise <= 0x100_0000_0000
        &&& 0 <= self.signal <= 0x100_0000_0000 * 9_223_372_036_855
    }

    /// Levels to follow at a sample rate. `min_ratio` is the ratio that the
    /// least signal-to-noise ratio of the settings stands for, which is none
    /// below nothing.
    pub fn new(rate: Micro, cfg: PulseConfig, min_ratio: Micro) -> (r: Levels)
        ensures
            r.wf(),
            r@ == (Lv { noise: 0, signal: 0, seeded: false }),
            r.following() == (Following {
                tau: tau_spec(cfg.tau_us@, rate@),
                hysteresis: cfg.hysteresis@,
                min_ratio: if min_ratio@ < 0 {
                    0
                } else {
                    min_ratio@
                },
            }),
    {
        let (a, b) = (cfg.tau_us.0 as i128, rate.0 as i128);
        assert(-0x4000_0000_0000_0000_0000_0000_0000_0000 <= a * b
            <= 0x4000_0000_0000_0000_0000_0000_0000_0000) by (nonlinear_arith)
            requires
                -0x8000_0000_0000_0000 <= a <= 0x7fff_ffff_ffff_ffff,
                -0x8000_0000_0000_0000 <= b <= 0x7fff_ffff_ffff_ffff,
        ;
        let t: i128 = nearest_signed(a * b, 1_000_000_000_000);
        Levels {
            noise: 0,
            signal: 0,
            seeded: false,
            tau: if t < 1_000_000 {
                1_000_000
            } else if t > i64::MAX as i128 {
                i64::MAX as u128
            } else {
                t as u128
            },
            hysteresis: cfg.hysteresis,
            min_ratio: if min_ratio.0 < 0 {
                Micro(0)
            } else {
                min_ratio
            },
        }
    }

    /// Starts over with the next sample.
    pub fn reset(&mut self)
        requires
            old(self).wf(),
        ensures
            final(self).wf(),
            final(self).following() == old(self).following(),
            final(self)@ == (Lv { seeded: false, ..old(self)@ }),
    {
        self.seeded = false;
    }

    pub fn noise_level(&self) -> (r: i64)
        ensures
            r == self@.noise,
    {
        self.noise
    }

    pub fn signal_level(&self) -> (r: i128)
        ensures
            r == self@.signal,
    {
        self.signal
    }

    fn follow(x: i128, v: i64, tau: u128) -> (r: i128)
        requires
            0 <= x <= 0x100_0000_0000 * 9_223_372_036_855,
            0 <= v <= 0x100_0000_0000,
            1_000_000 <= tau <= 0x7fff_ffff_ffff_ffff,
        ensures
            r == followed(x as int, v as int, tau as nat),
            x <= v ==> x <= r <= v,
            v <= x ==> v <= r <= x,
    {
        proof {
            following_stays_between(x as int, v as int, tau as nat);
        }
        x + nearest_signed((v as i128 - x) * 1_000_000, tau)
    }

    /// Whether a sample of the envelope would be above the threshold.
    pub fn would(&self, v: i64, high: bool) -> (r: bool)
        requires
            self.wf(),
            0 <= v <= FULL_SCALE,
        ensures
            r == above(seeded(self@, v as int), self.following(), v as int, high),
    {
        let noise: i128 = if self.seeded {
            self.noise as i128
        } else {
            v as i128
        };
        let signal: i128 = if self.seeded {
            self.signal
        } else {
            4 * v as i128
        };
        let gap: i128 = if signal > noise {
            signal - noise
        } else {
            0
        };
        let over: i128 = 2_000_000 * v as i128 - 1_000_000 * (noise + signal);
        let h: i128 = if high {
            -(2 * self.hysteresis.0 as i128)
        } else {
            2 * self.hysteresis.0 as i128
        };
        let ghost by = 2 * self.hysteresis@ * gap;
        assert(h * gap == (if high {
            -by
        } else {
            by
        })) by (nonlinear_arith)
            requires
                by == 2 * self.hysteresis@ * gap,
                h == (if high {
                    -(2 * self.hysteresis@)
                } else {
                    2 * self.hysteresis@
                }),
        ;
        match h.checked_mul(gap) {
            Some(by) => over > by,
            // It is further from the middle than any sample.
            None => {
                assert((h > 0 ==> h * gap >= 0) && (h <= 0 ==> h * gap <= 0)) by (nonlinear_arith)
                    requires
                        gap >= 0,
                ;
                h < 0
            },
        }
    }

    /// Takes a sample of the envelope while the state is `high`, and says
    /// whether it is above the threshold.
    ///
    /// Each level is followed only while its state lasts, so that a long
    /// transmission cannot pull the noise up after itself. And the signal is
    /// held over the noise: a spike of noise would otherwise pull the signal
    /// down, the threshold with it, and let in more noise.
    pub fn hear(&mut self, v: i64, high: bool) -> (r: bool)
        requires
            old(self).wf(),
            0 <= v <= FULL_SCALE,
        ensures
            final(self).wf(),
            final(self).following() == old(self).following(),
            final(self)@ == heard(old(self)@, old(self).following(), v as int, high),
            r == above(seeded(old(self)@, v as int), old(self).following(), v as int, high),
    {
        let ghost f = self.following();
        let is_above: bool = self.would(v, high);
        if !self.seeded {
            self.noise = v;
            self.signal = 4 * v as i128;
            self.seeded = true;
        }
        if is_above {
            proof {
                least_signal_bounds(self.noise as int, f);
            }
            let signal: i128 = Self::follow(self.signal, v, self.tau);
            let least: i128 = nearest_signed(
                self.noise as i128 * self.min_ratio.0 as i128,
                1_000_000,
            );
            self.signal = if signal < least {
                least
            } else {
                signal
            };
        } else {
            self.noise = Self::follow(self.noise as i128, v, self.tau) as i64;
        }
        is_above
    }
}

/// A long transmission does not pull the noise up after itself: while samples
/// are above the threshold, the noise stays where it is.
pub proof fn a_transmission_leaves_the_noise_alone(l: Lv, f: Following, v: int, high: bool)
    requires
        l.seeded,
        above(l, f, v, high),
    ensures
        heard(l, f, v, high).noise == l.noise,
{
}

/// After a sample above the threshold the signal is at least as far over the
/// noise as the settings ask.
pub proof fn the_signal_stays_over_the_noise(l: Lv, f: Following, v: int, high: bool)
    requires
        l.seeded,
        above(l, f, v, high),
    ensures
        heard(l, f, v, high).signal >= least_signal(heard(l, f, v, high).noise, f),
{
}

/// A sample within the hysteresis of the middle changes nothing: what is high
/// stays high and what is low stays low.
pub proof fn hysteresis_keeps_the_state(l: Lv, f: Following, v: int, high: bool)
    requires
        l.signal >= l.noise,
        ({
            let by = 2 * f.hysteresis * (l.signal - l.noise);
            let mid = 1_000_000 * (l.noise + l.signal);
            mid - by < 2_000_000 * v <= mid + by
        }),
    ensures
        above(l, f, v, high) == high,
{
}

/// A level that follows a sample never passes it.
pub proof fn levels_do_not_overshoot(x: int, v: int, tau: nat)
    requires
        tau >= 1_000_000,
    ensures
        x <= v ==> x <= followed(x, v, tau) <= v,
        v <= x ==> v <= followed(x, v, tau) <= x,
{
    following_stays_between(x, v, tau);
}

/// The other way round, silence leaves the signal alone: a sample that is not
/// above the threshold moves the noise and nothing else.
pub proof fn silence_leaves_the_signal_alone(l: Lv, f: Following, v: int, high: bool)
    requires
        l.seeded,
        !above(l, f, v, high),
        f.tau >= 1,
    ensures
        heard(l, f, v, high).signal == l.signal,
        heard(l, f, v, high).seeded,
        ({
            let moved = heard(l, f, v, high).noise - l.noise;
            -(f.tau as int) <= 2 * (f.tau * moved) - 2_000_000 * (v - l.noise) <= f.tau
        }),
{
    rounding_is_close((v - l.noise) * 1_000_000, f.tau);
}

/// A sample above the threshold moves the signal by its share of the way, which
/// is a sample's share of the time constant, unless the noise holds it up.
pub proof fn the_signal_goes_its_share_of_the_way(l: Lv, f: Following, v: int, high: bool)
    requires
        l.seeded,
        above(l, f, v, high),
        f.tau >= 1,
    ensures
        ({
            let s = heard(l, f, v, high).signal;
            let moved = s - l.signal;
            let floor = l.noise * f.min_ratio;
            ||| -(f.tau as int) <= 2 * (f.tau * moved) - 2_000_000 * (v - l.signal) <= f.tau && 2
                * floor <= 2_000_000 * s + 1_000_000
            ||| -1_000_000 <= 2_000_000 * s - 2 * floor <= 1_000_000 && 2 * (f.tau * moved)
                - 2_000_000 * (v - l.signal) >= -(f.tau as int)
        }),
{
    let t = followed(l.signal, v, f.tau);
    let least = least_signal(l.noise, f);
    rounding_is_close((v - l.signal) * 1_000_000, f.tau);
    rounding_is_close(l.noise * f.min_ratio, 1_000_000);
    if t < least {
        assert(f.tau * (least - l.signal) >= f.tau * (t - l.signal)) by (nonlinear_arith)
            requires
                least >= t,
                f.tau >= 1,
        ;
    }
}

/// Outside the hysteresis the state does not matter: what lies over it is above
/// the threshold and what lies under it is not.
pub proof fn clear_samples_decide_by_themselves(l: Lv, f: Following, v: int, high: bool)
    requires
        l.signal >= l.noise,
        f.hysteresis >= 0,
    ensures
        ({
            let by = 2 * f.hysteresis * (l.signal - l.noise);
            let off = 2_000_000 * v - 1_000_000 * (l.noise + l.signal);
            &&& off > by ==> above(l, f, v, high)
            &&& off <= -by ==> !above(l, f, v, high)
        }),
{
    let by = 2 * f.hysteresis * (l.signal - l.noise);
    assert(by >= 0) by (nonlinear_arith)
        requires
            by == 2 * f.hysteresis * (l.signal - l.noise),
            f.hysteresis >= 0,
            l.signal >= l.noise,
    ;
}

/// Without hysteresis, or with levels that are the wrong way round, the threshold
/// lies halfway between the levels.
pub proof fn the_threshold_is_halfway(l: Lv, f: Following, v: int, high: bool)
    requires
        f.hysteresis == 0 || l.signal <= l.noise,
    ensures
        above(l, f, v, high) == (2 * v > l.noise + l.signal),
{
    assert(2 * f.hysteresis * 0 == 0) by (nonlinear_arith);
    assert(f.hysteresis == 0 ==> 2 * f.hysteresis * (l.signal - l.noise) == 0) by (nonlinear_arith);
}

/// The first sample is taken for noise, with the signal four times as high, so it
/// is not above the threshold itself.
pub proof fn the_first_sample_is_noise(l: Lv, f: Following, v: int)
    requires
        !l.seeded,
        v >= 0,
        f.hysteresis >= 0,
        f.tau >= 1,
    ensures
        heard(l, f, v, false).noise == v,
        heard(l, f, v, false).signal == 4 * v,
        heard(l, f, v, false).seeded,
        !above(seeded(l, v), f, v, false),
{
    let by = 2 * f.hysteresis * (3 * v);
    assert(by >= 0) by (nonlinear_arith)
        requires
            by == 2 * f.hysteresis * (3 * v),
            f.hysteresis >= 0,
            v >= 0,
    ;
    rounding_is_close(0, f.tau);
    rounding_is_bounded(0, f.tau);
}

/// The time constant in samples is the one asked for, to the nearest millionth,
/// where it is at least one sample and can be held.
pub proof fn time_constants_are_kept(tau_us: int, rate: int)
    ensures
        ({
            let (t, p) = (tau_spec(tau_us, rate) as int, tau_us * rate);
            &&& 1_000_000 <= t <= i64::MAX
            &&& 1_000_000 < t < i64::MAX ==> -1_000_000_000_000 <= 2 * (1_000_000_000_000 * t) - 2
                * p <= 1_000_000_000_000
            &&& t == 1_000_000 ==> 2 * p <= 2_000_001_000_000_000_000
            &&& t == i64::MAX ==> 2 * p >= (2 * i64::MAX - 1) * 1_000_000_000_000
        }),
{
    rounding_is_close(tau_us * rate, 1_000_000_000_000);
}

} // verus!
