//! What detectors and filter banks are told, and what they answer.

use vstd::prelude::*;
#[allow(unused_imports)]
use crate::dsp::channelizer::{branch_spec, channel_spec, offset_spec, signed_channel, Channelizer};
#[allow(unused_imports)]
use crate::dsp::level::{tau_spec, Following, Levels};
#[allow(unused_imports)]
use crate::dsp::ook::{
    believed_by, closed, completed, completed_by, fed_one, Hearing, Ook, OokDetector, PulseConfig,
    PulseStats,
};
#[allow(unused_imports)]
use crate::dsp::pulse::Package;
#[allow(unused_imports)]
use crate::dsp::rds::{bit_at, ends_symbol, listened, reached, Rds, SYMBOL};
#[allow(unused_imports)]
use crate::fixed::{rounding_is_close, Micro};

verus! {

/// Without being told otherwise a detector ends a package after four
/// milliseconds, takes marks from a tenth of one, asks for four pulses at six
/// decibels, and follows the level in half a millisecond.
pub proof fn detectors_have_usual_settings(c: PulseConfig)
    requires
        call_ensures(PulseConfig::default, (), c),
    ensures
        c.reset_us == 4 * 1000,
        10 * c.min_mark_us == 1000,
        c.min_pulses == 4,
        5 * c.hysteresis@ == 1_000_000,
        2 * c.tau_us@ == 1000 * 1_000_000,
        c.min_snr_db@ == 6 * 1_000_000,
{
}

/// Bursts that were thrown away for either reason are counted together.
pub proof fn rejections_add_up(s: PulseStats, r: u128)
    requires
        call_ensures(PulseStats::rejected_total, (s,), r),
    ensures
        r == s.rejected_low_snr + s.rejected_too_few_pulses,
{
}

/// A package is what was cut, at the rate of the detector.
pub proof fn packages_are_what_was_cut(d: &mut OokDetector, above: bool, r: Option<Package>)
    requires
        call_ensures(OokDetector::step, (d, above), r),
    ensures
        ({
            let found = completed(old(d)@, above, old(d).cfg(), old(d).rate_view());
            &&& r is Some <==> found is Some
            &&& r matches Some(p) ==> (found matches Some((pulses, start)) && p.pulses@ == pulses
                && p.start_sample == start && p.rate@ == old(d).rate_view())
        }),
{
}

/// A package is believed exactly when it is as far above the noise as was asked
/// for. It is then as it was, with that ratio; else it is counted.
pub proof fn only_clear_packages_are_believed(
    d: &mut OokDetector,
    p: Package,
    snr: Micro,
    r: Option<Package>,
)
    requires
        call_ensures(OokDetector::judge, (d, p, snr), r),
    ensures
        r is Some <==> snr@ >= old(d).cfg().min_snr_db@,
        r matches Some(q) ==> q.pulses@ == p.pulses@ && q.start_sample == p.start_sample && q.rate
            == p.rate && q.snr_db == snr && final(d).low_snr() == old(d).low_snr(),
        r is None && old(d).low_snr() < u64::MAX ==> final(d).low_snr() == old(d).low_snr() + 1,
        final(d)@.pulses == old(d)@.pulses,
        final(d)@.too_few == old(d)@.too_few,
        final(d)@.sample == old(d)@.sample,
{
}

/// In a stream too, a package is believed exactly when it is clear enough, and as
/// it was cut.
pub proof fn a_stream_gives_its_clear_packages(
    h: Hearing,
    f: Following,
    v: i64,
    cfg: PulseConfig,
    rate: int,
    ratio: spec_fn(crate::dsp::level::Lv) -> int,
)
    ensures
        ({
            let found = completed_by(h, f, v, cfg, rate);
            let snr = ratio(fed_one(h, f, v, cfg, rate).levels);
            let r = believed_by(h, f, v, cfg, rate, ratio);
            &&& r is Some <==> found is Some && snr >= cfg.min_snr_db@
            &&& r matches Some(p) ==> (found matches Some((pulses, start)) && p.pulses == pulses
                && p.start == start && p.snr_db == snr)
        }),
{
}

/// Counts that are read are handed over once.
pub proof fn counts_are_handed_over_once(d: &mut OokDetector, s: PulseStats)
    requires
        call_ensures(OokDetector::take_stats, (d,), s),
    ensures
        s.rejected_too_few_pulses == old(d)@.too_few,
        s.rejected_low_snr == old(d).low_snr(),
        final(d)@.too_few == 0,
        final(d).low_snr() == 0,
        final(d)@ == (Ook { too_few: 0, ..old(d)@ }),
{
}

/// A detector that is reset forgets the package it was cutting and keeps its
/// counts.
pub proof fn a_reset_keeps_the_counts(d: &mut OokDetector)
    requires
        call_ensures(OokDetector::reset, (d,), ()),
    ensures
        !final(d)@.high && final(d)@.run == 0 && final(d)@.pulses.len() == 0,
        final(d)@.pending == 0 && final(d)@.gap == 0,
        final(d)@.sample == old(d)@.sample,
        final(d)@.too_few == old(d)@.too_few,
        final(d).low_snr() == old(d).low_snr(),
        final(d).cfg() == old(d).cfg(),
{
}

/// Levels begin unset, at the hysteresis and time constant of the settings, with
/// no least ratio below nothing.
pub proof fn levels_follow_as_they_are_told(
    rate: Micro,
    cfg: PulseConfig,
    min_ratio: Micro,
    l: Levels,
)
    requires
        call_ensures(Levels::new, (rate, cfg, min_ratio), l),
    ensures
        !l@.seeded,
        l.following().hysteresis == cfg.hysteresis@,
        l.following().tau == tau_spec(cfg.tau_us@, rate@),
        min_ratio@ >= 0 ==> l.following().min_ratio == min_ratio@,
        min_ratio@ < 0 ==> l.following().min_ratio == 0,
{
}

/// A channel lies as many channel widths from the centre as it is numbered, the
/// upper half of the numbers below it, to within half a millionth of a hertz.
pub proof fn channels_lie_a_width_apart(m: nat, channels: nat, rate: int)
    requires
        m < channels,
    ensures
        ({
            let off = channels * offset_spec(m, channels, rate);
            let c = channels as int;
            &&& 2 * m < c - c % 2 ==> -c <= 2 * off - 2 * (m * rate) <= c
            &&& 2 * m >= c - c % 2 ==> -c <= 2 * off + 2 * ((c - m) * rate) <= c
        }),
{
    rounding_is_close(signed_channel(m, channels) * rate, channels);
    let c = channels as int;
    assert((m - c) * rate == -((c - m) * rate)) by (nonlinear_arith);
}

/// A channel is found for every offset, whose centre is no further from it than
/// half a channel width, counted round.
pub proof fn the_nearest_channel_is_found(offset: int, channels: nat, rate: int)
    requires
        channels >= 1,
        rate >= 1,
    ensures
        0 <= channel_spec(offset, channels, rate) < channels,
        exists|turns: int| #[trigger]
            lies_near(offset, channel_spec(offset, channels, rate) + turns * channels, channels, rate),
{
    let v = offset * channels;
    let q = crate::fixed::nearest_signed_spec(v, rate as nat);
    rounding_is_close(v, rate as nat);
    let c = channels as int;
    vstd::arithmetic::div_mod::lemma_fundamental_div_mod(q, c);
    let turns = q / c;
    assert(turns * c == c * turns) by (nonlinear_arith);
    assert(lies_near(offset, channel_spec(offset, channels, rate) + turns * channels, channels, rate));
}

/// Whether an offset is within half a channel width of so many of them.
pub open spec fn lies_near(offset: int, k: int, channels: nat, rate: int) -> bool {
    -rate <= 2 * (rate * k) - 2 * (offset * channels) <= rate
}

/// A filter bank begins with silence in its whole window, and again after a reset.
pub proof fn a_bank_begins_with_silence<T: Copy>(
    channels: usize,
    taps: usize,
    zero: T,
    b: Channelizer<T>,
    c: &mut Channelizer<T>,
)
    requires
        call_ensures(Channelizer::<T>::new, (channels, taps, zero), b),
        call_ensures(Channelizer::<T>::reset, (c,), ()),
    ensures
        b@.window.len() == channels * taps,
        forall|i: int| 0 <= i < b@.window.len() ==> #[trigger] b@.window[i] == zero,
        b@.fill == 0 && !b@.odd,
        b.width() == channels && b.depth() == taps,
        final(c)@.window.len() == old(c)@.window.len(),
        forall|i: int|
            0 <= i < final(c)@.window.len() ==> #[trigger] final(c)@.window[i] == old(c).silence(),
        final(c)@.fill == 0 && !final(c)@.odd,
{
}

/// A frame comes every half of the channels, and tells odd frames from even ones.
pub proof fn a_frame_comes_every_half_of_the_channels<T: Copy>(
    b: &mut Channelizer<T>,
    x: T,
    r: Option<bool>,
    n: usize,
)
    requires
        call_ensures(Channelizer::<T>::push, (b, x), r),
        call_ensures(Channelizer::<T>::advance, (&*old(b),), n),
    ensures
        r is Some <==> old(b)@.fill + 1 == n,
        n == old(b).width() / 2,
        r matches Some(odd) ==> odd == old(b)@.odd,
        final(b)@.window == old(b)@.window.drop_first().push(x),
{
}

/// Bandwidth and delay of a bank: a channel is as wide as the rate over their
/// number, and samples come out after half of the filter.
pub proof fn a_bank_delays_by_half_its_taps<T: Copy>(
    b: &Channelizer<T>,
    rate: Micro,
    width: Micro,
    delay: usize,
)
    requires
        b.wf(),
        b.width() >= 1,
        rate@ >= 0,
        call_ensures(Channelizer::<T>::channel_bandwidth, (b, rate), width),
        call_ensures(Channelizer::<T>::latency_samples, (b,), delay),
    ensures
        -(b.width() as int) <= 2 * (b.width() * width@) - 2 * rate@ <= b.width(),
        2 * delay <= b.width() * b.depth() < 2 * delay + 2,
{
    crate::fixed::nearest_bounds(rate@ as nat, b.width());
    let w = b.width() as int;
    assert((2 * w) * width@ == 2 * (w * width@)) by (nonlinear_arith);
}

/// Every sample of a window is weighed once: the one that came so many before the
/// latest, by the branch that is left when that number is divided by the
/// channels, and as many steps back as that goes.
pub proof fn every_sample_is_weighed_once<T>(window: Seq<T>, n: int, channels: nat, depth: nat)
    requires
        channels >= 1,
        window.len() == channels * depth,
        0 <= n < window.len(),
    ensures
        ({
            let (k, t) = (n % channels as int, n / channels as int);
            &&& 0 <= t < depth
            &&& branch_spec(window, k, channels, depth)[t] == window[window.len() - 1 - n]
            &&& branch_spec(window, k, channels, depth).len() == depth
        }),
{
    let c = channels as int;
    vstd::arithmetic::div_mod::lemma_fundamental_div_mod(n, c);
    let t = n / c;
    assert(t * c == c * t) by (nonlinear_arith);
    assert(0 <= t < depth) by (nonlinear_arith)
        requires
            n == c * t + n % c,
            0 <= n % c < c,
            0 <= n < c * depth,
    ;
}

/// A symbol that ends is high exactly when the mean of its first half is no lower
/// than that of its second, where a half without samples has a mean of nothing. A
/// symbol that differs from the one before it is a one.
pub proof fn the_step_is_the_symbol(s: Rds, v: int, pilot: u32, a: int, m: nat, b: int, n: nat)
    requires
        ends_symbol(s.clock, pilot),
        ({
            let second = 2 * (reached(s.clock, pilot) % SYMBOL as nat) >= SYMBOL;
            &&& second ==> a == s.first && m == s.clock.first && b == s.second + v && n
                == s.clock.second + 1
            &&& !second ==> a == s.first + v && m == s.clock.first + 1 && b == s.second && n
                == s.clock.second
        }),
    ensures
        m > 0 && n > 0 ==> listened(s, v, pilot).prev == Some(a * n >= b * m),
        m == 0 ==> listened(s, v, pilot).prev == Some(a * n >= b),
        n == 0 ==> listened(s, v, pilot).prev == Some(a >= b * m),
        s.prev is None ==> bit_at(s, v, pilot) is None,
        s.prev matches Some(p) ==> bit_at(s, v, pilot) == Some(
            if listened(s, v, pilot).prev == Some(p) {
                0u8
            } else {
                1u8
            },
        ),
        listened(s, v, pilot).first == 0 && listened(s, v, pilot).second == 0,
{
    assert(a * 1 == a && b * 1 == b);
}

/// A burst with some pulses and fewer than were asked for is counted, as far as the
/// count goes, and a silence without any is not.
pub proof fn short_bursts_are_counted(s: Ook, cfg: PulseConfig)
    ensures
        ({
            let n = s.pulses.len() + if s.pending >= cfg.min_mark_us {
                1int
            } else {
                0
            };
            let t = closed(s, cfg);
            &&& n == 0 || n >= cfg.min_pulses ==> t.too_few == s.too_few
            &&& 0 < n < cfg.min_pulses && s.too_few < u64::MAX ==> t.too_few == s.too_few + 1
            &&& 0 < n < cfg.min_pulses && s.too_few >= u64::MAX ==> t.too_few == s.too_few
            &&& t.pulses.len() == 0 && t.pending == 0 && t.gap == 0 && t.run == 0
            &&& t.sample == s.sample && t.high == s.high
        }),
{
}

} // verus!
