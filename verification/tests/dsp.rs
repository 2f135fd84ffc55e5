//! Pulses, framing, filter banks and the data subcarrier.

use super_radio::dsp::channelizer::negated;
use super_radio::dsp::dc::DEFAULT_CUTOFF_HZ;
use super_radio::dsp::level::{Levels, FULL_SCALE};
use super_radio::dsp::ook::{samples_to_us, us_to_samples, Fed};
use super_radio::dsp::pulse::histogram;
use super_radio::dsp::rds::{
    Differential, RdsDemod, SymbolClock, BAUD, CARRIER_HZ, CYCLE, SYMBOL,
};
use super_radio::dsp::spectrum::display_bin;
use super_radio::dsp::twolevel::{levels, pair_runs, runs};
use super_radio::dsp::{Channelizer, OokDetector, Package, Pulse, PulseConfig, Spectrum};
use super_radio::fixed::Micro;

const RATE: f64 = 250_000.0;

fn m(v: f64) -> Micro {
    Micro((v * 1e6).round() as i64)
}

/// Build an envelope from a mark/gap list in microseconds.
fn envelope(pulses: &[(u32, u32)], amp: f32, noise_amp: f32) -> Vec<f32> {
    let sp = |us: u32| (us as f64 * RATE / 1e6).round() as usize;
    let mut seed = 42u64;
    let mut rng = move || {
        seed = seed.wrapping_mul(6364136223846793005).wrapping_add(1442695040888963407);
        ((seed >> 33) as f32 / (1u64 << 31) as f32) * noise_amp
    };
    let mut v = Vec::new();
    v.extend((0..sp(20_000)).map(|_| rng()));
    for (mark, gap) in pulses {
        v.extend((0..sp(*mark)).map(|_| amp + rng()));
        v.extend((0..sp(*gap)).map(|_| rng()));
    }
    v.extend((0..sp(20_000)).map(|_| rng()));
    v
}

fn approx(a: u32, b: u32, tol: u32) -> bool {
    a.abs_diff(b) <= tol
}

struct Ook {
    det: OokDetector,
    levels: Levels,
}

impl Ook {
    fn new(cfg: PulseConfig) -> Ook {
        let ratio = 10f64.powf(cfg.min_snr_db.0 as f64 / 1e6 / 20.0);
        Ook { det: OokDetector::new(m(RATE), cfg), levels: Levels::new(m(RATE), cfg, m(ratio)) }
    }

    /// Feeds a block and judges what it completes by the levels of that moment.
    fn process(&mut self, env: &[f32], out: &mut Vec<Package>) {
        let counts: Vec<i64> = env.iter().map(|v| (*v as f64 * (1u64 << 30) as f64) as i64).collect();
        let mut at = 0;
        loop {
            match self.det.process(&mut self.levels, &counts[at..]) {
                Fed::All => return,
                Fed::Full(n) => panic!("no room after {n} samples"),
                Fed::Package(n, p) => {
                    at += n;
                    let (s, k) = (self.levels.signal_level(), self.levels.noise_level());
                    let snr = 20.0 * (s.max(1) as f64 / k.max(1) as f64).log10();
                    out.extend(self.det.judge(p, m(snr)));
                }
            }
        }
    }
}

#[test]
fn recovers_pwm_timings() {
    // A typical PWM remote: 500 us short, 1000 us long, 500 us gaps.
    let want = [
        (500u32, 500u32),
        (1000, 500),
        (500, 500),
        (1000, 500),
        (1000, 500),
        (500, 500),
    ];
    let env = envelope(&want, 1.0, 0.02);
    let mut d = Ook::new(PulseConfig::default());
    let mut out = Vec::new();
    d.process(&env, &mut out);

    assert_eq!(out.len(), 1, "expected one package, got {}", out.len());
    let p = &out[0];
    assert_eq!(p.pulses.len(), want.len(), "pulses: {:?}", p.pulses);
    for (got, exp) in p.pulses.iter().zip(&want) {
        assert!(approx(got.mark, exp.0, 30), "mark {} vs {}", got.mark, exp.0);
    }
    // Every gap but the last, which is the terminating timeout.
    for (got, exp) in p.pulses[..want.len() - 1].iter().zip(&want) {
        assert!(approx(got.gap, exp.1, 30), "gap {} vs {}", got.gap, exp.1);
    }
}

#[test]
fn histogram_separates_short_from_long() {
    let want = [(500u32, 500u32), (1000, 500), (500, 500), (1000, 500), (500, 500)];
    let env = envelope(&want, 1.0, 0.02);
    let mut d = Ook::new(PulseConfig::default());
    let mut out = Vec::new();
    d.process(&env, &mut out);

    let h = out[0].mark_histogram(100);
    assert_eq!(h.len(), 2, "expected two clusters, got {h:?}");
    assert!(approx(h[0].0, 500, 40) && h[0].1 == 3, "{h:?}");
    assert!(approx(h[1].0, 1000, 40) && h[1].1 == 2, "{h:?}");
}

#[test]
fn separates_two_bursts_by_the_reset_gap() {
    let sp = |us: u32| (us as f64 * RATE / 1e6).round() as usize;
    let burst = [(500u32, 500u32), (1000, 500), (500, 500), (1000, 500)];
    let mut env = envelope(&burst, 1.0, 0.02);
    env.extend((0..sp(10_000)).map(|_| 0.01));
    env.extend(envelope(&burst, 1.0, 0.02));

    let mut d = Ook::new(PulseConfig::default());
    let mut out = Vec::new();
    d.process(&env, &mut out);
    assert_eq!(out.len(), 2, "expected two packages, got {}", out.len());
}

#[test]
fn rejects_pure_noise() {
    let env: Vec<f32> = {
        let mut seed = 7u64;
        (0..250_000)
            .map(|_| {
                seed = seed.wrapping_mul(6364136223846793005).wrapping_add(1442695040888963407);
                (seed >> 33) as f32 / (1u64 << 31) as f32 * 0.05
            })
            .collect()
    };
    let mut d = Ook::new(PulseConfig::default());
    let mut out = Vec::new();
    d.process(&env, &mut out);
    assert!(out.is_empty(), "noise produced {} packages: {:?}", out.len(), out);
}

#[test]
fn hysteresis_prevents_shredding_a_weak_pulse() {
    // A long mark with amplitude wobbling around the threshold. Without
    // hysteresis this fragments into a great many pulses.
    let sp = |us: u32| (us as f64 * RATE / 1e6).round() as usize;
    let mut env: Vec<f32> = vec![0.01; sp(20_000)];
    for i in 0..sp(2_000) {
        env.push(if i % 3 == 0 { 0.45 } else { 0.55 });
    }
    env.extend(vec![0.01; sp(20_000)]);

    let mut d = Ook::new(PulseConfig::default());
    let mut out = Vec::new();
    d.process(&env, &mut out);
    let n = out.first().map(|p| p.pulses.len()).unwrap_or(0);
    assert!(n <= 2, "wobbling pulse shredded into {n} pulses");
}

#[test]
fn block_boundaries_do_not_split_pulses() {
    let want = [(500u32, 500u32), (1000, 500), (500, 500), (1000, 500), (500, 500)];
    let env = envelope(&want, 1.0, 0.02);

    let mut whole = Ook::new(PulseConfig::default());
    let mut a = Vec::new();
    whole.process(&env, &mut a);

    let mut split = Ook::new(PulseConfig::default());
    let mut b = Vec::new();
    for c in env.chunks(997) {
        split.process(c, &mut b);
    }
    assert!(!a.is_empty());
    assert_eq!(
        a.iter().map(|p| (&p.pulses, p.snr_db, p.start_sample)).collect::<Vec<_>>(),
        b.iter().map(|p| (&p.pulses, p.snr_db, p.start_sample)).collect::<Vec<_>>(),
        "block splitting changed the pulse train"
    );
}

#[test]
fn duration_excludes_the_trailing_timeout() {
    let want = [(500u32, 500u32), (1000, 500), (500, 500), (1000, 500)];
    let env = envelope(&want, 1.0, 0.02);
    let mut d = Ook::new(PulseConfig::default());
    let mut out = Vec::new();
    d.process(&env, &mut out);
    let dur = out[0].duration_us();
    let expect: u64 = want.iter().map(|(m, g)| *m as u64 + *g as u64).sum::<u64>() - 500;
    assert!(dur.abs_diff(expect) < 200, "duration {dur} vs expected {expect}");
}

/// Feeds runs of samples, high or low.
fn step_all(d: &mut OokDetector, runs: &[(bool, usize)]) -> Vec<Package> {
    let mut out = Vec::new();
    for (high, n) in runs {
        for _ in 0..*n {
            assert!(d.has_room(*high));
            out.extend(d.step(*high));
        }
    }
    out
}

#[test]
fn exact_timings_come_from_counting_samples() {
    let cfg = PulseConfig { min_pulses: 2, ..PulseConfig::default() };
    let mut d = OokDetector::new(m(RATE), cfg);
    // Four microseconds a sample.
    let p = step_all(&mut d, &[(false, 10), (true, 125), (false, 250), (true, 50), (false, 1001)]);
    assert_eq!(p.len(), 1);
    assert_eq!(
        p[0].pulses,
        vec![Pulse { mark: 500, gap: 1000 }, Pulse { mark: 200, gap: 4000 }]
    );
    assert_eq!((p[0].start_sample, p[0].rate), (10, m(RATE)));
}

#[test]
fn a_crossing_inside_a_gap_joins_it() {
    let cfg = PulseConfig { min_pulses: 2, ..PulseConfig::default() };
    let mut d = OokDetector::new(m(RATE), cfg);
    // A mark of 40 us is a threshold crossing, not a symbol.
    let p = step_all(
        &mut d,
        &[(true, 125), (false, 100), (true, 10), (false, 140), (true, 50), (false, 1001)],
    );
    assert_eq!(p.len(), 1);
    assert_eq!(
        p[0].pulses,
        vec![Pulse { mark: 500, gap: 1000 }, Pulse { mark: 200, gap: 4000 }]
    );
}

#[test]
fn discarded_bursts_are_counted() {
    let mut d = OokDetector::new(m(RATE), PulseConfig::default());
    assert!(step_all(&mut d, &[(true, 125), (false, 1001)]).is_empty());
    let mut burst = Vec::new();
    for _ in 0..4 {
        burst.push((true, 125));
        burst.push((false, 125));
    }
    burst.push((false, 1001));
    for p in step_all(&mut d, &burst) {
        assert!(d.judge(p, m(5.9)).is_none());
    }
    let s = d.take_stats();
    assert_eq!((s.rejected_too_few_pulses, s.rejected_low_snr), (1, 1));
    assert_eq!(s.rejected_total(), 2);
    assert_eq!(d.take_stats().rejected_total(), 0);
    for p in step_all(&mut d, &burst) {
        let q = d.judge(p, m(6.0));
        assert_eq!(q.map(|q| q.snr_db), Some(m(6.0)));
    }
}

#[test]
fn a_reset_drops_the_burst_in_progress() {
    let cfg = PulseConfig { min_pulses: 1, ..PulseConfig::default() };
    let mut d = OokDetector::new(m(RATE), cfg);
    step_all(&mut d, &[(true, 125), (false, 10)]);
    assert!(!d.is_high());
    d.reset();
    assert!(step_all(&mut d, &[(false, 1001)]).is_empty());
    assert_eq!(d.rate(), m(RATE));
    assert_eq!(d.config().min_pulses, 1);
}

#[test]
fn samples_and_microseconds() {
    assert_eq!(samples_to_us(1, m(250_000.0)), 4);
    assert_eq!(samples_to_us(3, m(2_000_000.0)), 2);
    assert_eq!(samples_to_us(u64::MAX, m(1.0)), u32::MAX);
    assert_eq!(us_to_samples(4_000, m(250_000.0)), 1000);
    assert_eq!(us_to_samples(5, m(250_000.0)), 1);
    assert_eq!(us_to_samples(5, m(0.0)), 0);
}

#[test]
fn a_transmission_does_not_pull_the_noise_up() {
    let mut l = Levels::new(m(RATE), PulseConfig::default(), m(2.0));
    for _ in 0..1000 {
        l.hear(1_000_000, false);
    }
    let quiet = l.noise_level();
    assert_eq!(quiet, 1_000_000);
    let mut high = false;
    for _ in 0..10_000 {
        high = l.hear(50_000_000, high);
    }
    assert!(high);
    assert_eq!(l.noise_level(), quiet);
    assert!(l.signal_level() > 49_999_000 && l.signal_level() <= 50_000_000);
}

#[test]
fn a_spike_of_noise_leaves_the_signal_over_it() {
    let mut l = Levels::new(m(RATE), PulseConfig::default(), m(2.0));
    // The first sample sets both levels.
    assert!(!l.hear(1_000_000, false));
    assert_eq!((l.noise_level(), l.signal_level()), (1_000_000, 4_000_000));
    let mut high = true;
    for _ in 0..5000 {
        high = l.hear(1_950_000, high);
    }
    assert!(high);
    assert_eq!((l.noise_level(), l.signal_level()), (1_000_000, 2_000_000));
    assert!(l.would(FULL_SCALE, false));
    l.reset();
    assert!(!l.hear(10, false));
    assert_eq!(l.signal_level(), 40);
}

#[test]
fn clusters_are_counted_in_order() {
    assert_eq!(histogram(&[1000, 500, 520, 980], 50), vec![(510, 2), (990, 2)]);
    assert!(histogram(&[], 50).is_empty());
    let p = Package {
        pulses: vec![
            Pulse { mark: 1, gap: 300 },
            Pulse { mark: 2, gap: 310 },
            Pulse { mark: 3, gap: 4000 },
        ],
        snr_db: Micro(0),
        start_sample: 0,
        rate: m(RATE),
    };
    assert_eq!(p.clone(), p);
    assert_eq!(Package::default(), Package::empty());
    assert_eq!(p.gap_histogram(20), vec![(305, 2)]);
    assert_eq!(p.duration_us(), 616);
    assert_eq!((p.len(), p.is_empty()), (3, false));
    assert_eq!(Package::empty().duration_us(), 0);
}

#[test]
fn two_levels_are_percentiles() {
    let mut v: Vec<Option<i64>> = (0..100).map(Some).collect();
    v.push(None);
    v.push(Some(1_000_000));
    // A hundred and one samples that say something.
    assert_eq!(levels(&v), Some((2, 98)));
    assert_eq!(levels(&[Some(1); 15]), None);
    assert_eq!(levels(&[Some(1); 16]), Some((1, 1)));
}

#[test]
fn a_dropout_makes_no_transition() {
    let s = [Some(0), Some(10), None, Some(10), Some(0), Some(0), None];
    let mut glitches = 0;
    assert_eq!(runs(&s, 4, 6, 1, &mut glitches), vec![(false, 1), (true, 3), (false, 3)]);
    assert_eq!(glitches, 0);
}

#[test]
fn glitches_are_merged_into_what_they_interrupt() {
    let s = [10, 10, 10, 0, 10, 10, 0, 0, 0].map(Some);
    let mut glitches = 5;
    assert_eq!(runs(&s, 4, 6, 2, &mut glitches), vec![(true, 6), (false, 3)]);
    assert_eq!(glitches, 6);
}

#[test]
fn runs_are_paired_high_level_first() {
    let p = pair_runs(&[(false, 9), (true, 125), (false, 250), (true, 50)], m(RATE), 4000);
    assert_eq!(p, vec![Pulse { mark: 500, gap: 1000 }, Pulse { mark: 200, gap: 4000 }]);
    assert!(pair_runs(&[(false, 9)], m(RATE), 4000).is_empty());
}

#[test]
fn the_notch_is_narrower_than_the_narrowest_channel() {
    // 1 kHz against 12.5 kHz narrowband voice, and against the 2.4 kHz
    // either side of the RDS subcarrier.
    assert!((DEFAULT_CUTOFF_HZ as f64) < 12_500.0 / 4.0);
}

type C = (f64, f64);

fn tone(n: usize, cycles_per_sample: f64, amp: f64) -> Vec<C> {
    (0..n)
        .map(|i| {
            let p = (cycles_per_sample * i as f64).rem_euclid(1.0) * std::f64::consts::TAU;
            (amp * p.cos(), amp * p.sin())
        })
        .collect()
}

/// A Kaiser-windowed low pass that cuts at half a channel.
fn prototype(channels: usize, taps: usize, atten_db: f64) -> Vec<f64> {
    let bessel = |x: f64| {
        let (mut sum, mut term) = (1.0, 1.0);
        for k in 1..60 {
            term *= (x / 2.0 / k as f64) * (x / 2.0 / k as f64);
            sum += term;
        }
        sum
    };
    let n = channels * taps;
    let beta = 0.1102 * (atten_db - 8.7);
    let fc = 1.0 / channels as f64;
    let mut h: Vec<f64> = (0..n)
        .map(|i| {
            let x = i as f64 - (n - 1) as f64 / 2.0;
            let t = std::f64::consts::PI * fc * x;
            let sinc = if t.abs() < 1e-12 { 1.0 } else { t.sin() / t };
            let r = 2.0 * i as f64 / (n - 1) as f64 - 1.0;
            sinc * bessel(beta * (1.0 - r * r).max(0.0).sqrt()) / bessel(beta)
        })
        .collect();
    let sum: f64 = h.iter().sum();
    for v in h.iter_mut() {
        *v *= channels as f64 / sum;
    }
    h
}

/// One frame of the bank, transformed the slow way.
fn bank_frame(ch: &Channelizer<C>, proto: &[f64], odd: bool) -> Vec<C> {
    let n = ch.channels();
    let branch: Vec<C> = (0..n)
        .map(|k| {
            (0..ch.taps_per_branch()).fold((0.0, 0.0), |a, t| {
                let tap = ch.tap(k, t);
                let x = ch.sample(tap);
                (a.0 + x.0 * proto[tap], a.1 + x.1 * proto[tap])
            })
        })
        .collect();
    (0..n)
        .map(|c| {
            let mut acc = (0.0, 0.0);
            for (k, b) in branch.iter().enumerate() {
                let p = std::f64::consts::TAU * ((k * c) % n) as f64 / n as f64;
                let (s, co) = p.sin_cos();
                acc.0 += b.0 * co - b.1 * s;
                acc.1 += b.0 * s + b.1 * co;
            }
            let sign = if negated(odd, c) { -1.0 } else { 1.0 };
            (acc.0 * sign / n as f64, acc.1 * sign / n as f64)
        })
        .collect()
}

fn bank(ch: &mut Channelizer<C>, proto: &[f64], sig: &[C]) -> Vec<Vec<C>> {
    let mut out = Vec::new();
    let mut at = 0;
    while at < sig.len() {
        let (n, due) = ch.process(&sig[at..]);
        at += n;
        if let Some(odd) = due {
            out.push(bank_frame(ch, proto, odd));
        }
    }
    out
}

/// Mean power per channel, skipping the filter's settling.
fn channel_powers(channels: usize, taps: usize, atten: f64, sig: &[C], skip: usize) -> Vec<f64> {
    let mut ch = Channelizer::new(channels, taps, (0.0, 0.0));
    let frames = bank(&mut ch, &prototype(channels, taps, atten), sig);
    let mut acc = vec![0.0; channels];
    for f in &frames[skip..] {
        for (a, s) in acc.iter_mut().zip(f) {
            *a += s.0 * s.0 + s.1 * s.1;
        }
    }
    let n = (frames.len() - skip) as f64;
    acc.into_iter().map(|v| v / n).collect()
}

fn loudest(p: &[f64]) -> usize {
    (0..p.len()).max_by(|&a, &b| p[a].total_cmp(&p[b])).unwrap_or(0)
}

#[test]
fn tone_lands_in_the_expected_channel() {
    let n = 16;
    // Channel 3 centre is 3/16 cycles per sample.
    let p = channel_powers(n, 12, 90.0, &tone(1 << 16, 3.0 / n as f64, 1.0), 64);
    let best = loudest(&p);
    assert_eq!(best, 3, "energy landed in channel {best}, powers {p:?}");
    // Unity amplitude in, unity amplitude out of its own channel.
    assert!((p[3].sqrt() - 1.0).abs() < 0.02, "gain was {}", p[3].sqrt());
}

#[test]
fn negative_frequencies_map_to_upper_bins() {
    let n = 16;
    let p = channel_powers(n, 12, 90.0, &tone(1 << 16, -5.0 / n as f64, 1.0), 64);
    assert_eq!(loudest(&p), n - 5);
    let ch = Channelizer::new(n, 12, 0u8);
    assert!(ch.channel_offset_hz(n - 5, m(16.0)).0 < 0);
}

#[test]
fn adjacent_channel_rejection_is_deep() {
    let p = channel_powers(32, 12, 100.0, &tone(1 << 17, 8.0 / 32.0, 1.0), 128);
    let leak_db = 10.0 * (p[10] / p[8]).log10();
    assert!(leak_db < -80.0, "channel 8 leaked {leak_db} dB into channel 10");
}

#[test]
fn edge_tone_is_recoverable_thanks_to_oversampling() {
    // A tone exactly on the boundary between channels 4 and 5. In a
    // critically sampled bank this aliases; here both neighbours should
    // still see roughly half the power and the sum should be preserved.
    let p = channel_powers(16, 12, 90.0, &tone(1 << 16, 4.5 / 16.0, 1.0), 64);
    assert!(p[4] > 0.1 && p[5] > 0.1, "edge tone vanished: {:?}", &p[3..7]);
}

#[test]
fn offset_and_channel_lookups_are_inverses() {
    let ch = Channelizer::new(64, 8, 0u8);
    let rate = m(20e6);
    for c in 0..64 {
        let off = ch.channel_offset_hz(c, rate);
        assert_eq!(ch.channel_for_offset(off, rate), c);
    }
}

#[test]
fn frame_count_matches_advance_rate() {
    let mut ch = Channelizer::new(8, 6, (0.0, 0.0));
    let mut frames = 0;
    let sig = tone(4000, 0.1, 1.0);
    let mut at = 0;
    while at < sig.len() {
        let (n, due) = ch.process(&sig[at..]);
        at += n;
        frames += due.is_some() as usize;
    }
    assert_eq!(frames, 4000 / 4);
}

#[test]
fn split_input_gives_identical_output() {
    let sig = tone(8192, 3.0 / 16.0, 1.0);
    let proto = prototype(16, 8, 80.0);

    let mut a = Channelizer::new(16, 8, (0.0, 0.0));
    let whole: Vec<C> = bank(&mut a, &proto, &sig).concat();

    let mut b = Channelizer::new(16, 8, (0.0, 0.0));
    let mut split: Vec<C> = Vec::new();
    for c in sig.chunks(101) {
        split.extend(bank(&mut b, &proto, c).concat());
    }
    assert_eq!(whole.len(), split.len());
    for (x, y) in whole.iter().zip(&split) {
        assert!((x.0 - y.0).hypot(x.1 - y.1) < 1e-6);
    }
}

#[test]
fn a_bank_knows_its_figures() {
    let mut ch = Channelizer::new(8, 6, 0i32);
    assert_eq!((ch.channels(), ch.advance(), ch.latency_samples()), (8, 4, 24));
    assert_eq!(ch.channel_rate(m(80.0)), m(20.0));
    assert_eq!(ch.channel_bandwidth(m(80.0)), m(10.0));
    assert_eq!(ch.channel_offset_hz(1, m(80.0)), m(10.0));
    assert_eq!(ch.channel_offset_hz(7, m(80.0)), m(-10.0));
    assert_eq!(ch.channel_offset_hz(4, m(80.0)), m(-40.0));
    assert_eq!(ch.channel_for_offset(m(-14.0), m(80.0)), 7);
    assert_eq!(ch.push(5), None);
    assert_eq!((ch.sample(0), ch.sample(1)), (5, 0));
    ch.reset();
    assert_eq!(ch.sample(0), 0);
    assert_eq!(ch.tap(3, 2), 19);
    let b = ch.branches();
    assert_eq!((b.len(), b[3].len()), (ch.channels(), ch.taps_per_branch()));
    assert_eq!(b[3][2], ch.sample(19));
    assert!(negated(true, 3) && !negated(true, 2) && !negated(false, 3));
}

/// The bin of the strongest line of a spectrum in display order.
fn peak_bin(frame: &[C]) -> usize {
    let n = frame.len();
    let power = |bin: usize| {
        let mut acc = (0.0, 0.0);
        for (i, x) in frame.iter().enumerate() {
            let p = -std::f64::consts::TAU * ((i * bin) % n) as f64 / n as f64;
            let (s, co) = p.sin_cos();
            acc.0 += x.0 * co - x.1 * s;
            acc.1 += x.0 * s + x.1 * co;
        }
        acc.0 * acc.0 + acc.1 * acc.1
    };
    let p: Vec<f64> = (0..n).map(|i| power(display_bin(i, n))).collect();
    loudest(&p)
}

#[test]
fn a_frame_can_span_several_input_blocks() {
    // The driver's block size and the FFT size are unrelated, so a large
    // FFT must accumulate rather than silently produce nothing.
    let mut s = Spectrum::new(4096);
    let sig = tone(8192, 400.0 / 4096.0, 1.0);
    let mut last = None;
    for chunk in sig.chunks(512) {
        last = s.process(chunk).pop().or(last);
    }
    let frame = match last {
        Some(f) => f,
        None => panic!("no frame from blocks smaller than the FFT"),
    };
    assert_eq!(peak_bin(&frame.samples), 2048 + 400);
}

#[test]
fn leftovers_do_not_accumulate_without_bound() {
    let mut s = Spectrum::new(1024);
    for _ in 0..500 {
        s.process(&tone(300, 10.0 / 1024.0, 1.0));
    }
    assert!(s.pending() < 1024 + 300, "carried {} samples", s.pending());
}

#[test]
fn dc_lands_in_the_middle() {
    let mut s = Spectrum::new(256);
    let frames = s.process(&vec![(1.0, 0.0); 2048]);
    let idx = peak_bin(&frames[0].samples);
    assert_eq!(idx, 128, "DC ended up in bin {idx}, not the centre");
}

#[test]
fn positive_frequencies_sit_above_the_centre() {
    let mut s = Spectrum::new(512);
    let frames = s.process(&tone(8192, 64.0 / 512.0, 1.0));
    let idx = peak_bin(&frames[0].samples);
    assert_eq!(idx, 256 + 64, "positive tone landed in bin {idx}");
}

#[test]
fn frames_overlap_by_half_and_the_first_counts_in_full() {
    let mut s = Spectrum::new(16);
    let x: Vec<i32> = (0..40).collect();
    let f = s.process(&x);
    assert_eq!(f.len(), 4);
    assert_eq!(f[1].samples[0], 8);
    assert_eq!(f.iter().map(|f| f.first).collect::<Vec<_>>(), [true, false, false, false]);
    assert_eq!((s.size(), s.pending()), (16, 8));
    assert!(!s.process(&[0; 8])[0].first);
    s.reset();
    assert_eq!(s.pending(), 0);
    assert!(s.process(&[0; 16])[0].first);
}

#[test]
fn the_bit_rate_matches_the_standard() {
    // 1187.5 baud is exactly the pilot divided by 16, which is what makes
    // the clock recoverable without a timing loop.
    assert!((BAUD as f64 / 1e6 * 16.0 - 19_000.0).abs() < 1e-9);
    assert!((CARRIER_HZ as f64 / 1e6 - 3.0 * 19_000.0).abs() < 1e-9);
}

const RDS_RATE: f64 = 228_000.0;

/// The baseband of bits: differential, then Manchester.
fn baseband(bits: &[u8]) -> Vec<i64> {
    let sps = RDS_RATE / (BAUD as f64 / 1e6);
    let n = (bits.len() as f64 * sps) as usize;
    let mut level = 0u8;
    let syms: Vec<u8> = bits
        .iter()
        .map(|b| {
            level ^= b;
            level
        })
        .collect();
    (0..n)
        .map(|i| {
            let pos = i as f64 / sps;
            let idx = pos as usize;
            let s = syms.get(idx).copied().unwrap_or(0);
            // High then low for a 1, inverted for a 0.
            if (pos - (idx as f64) < 0.5) == (s == 1) { 200_000 } else { -200_000 }
        })
        .collect()
}

/// The phase of a pilot of so many hertz at each of `n` samples, the first of
/// which it starts at.
fn pilot(n: usize, hz: u128) -> Vec<u32> {
    (0..n as u128).map(|i| ((i * hz) << 32).div_euclid(RDS_RATE as u128) as u32).collect()
}

#[test]
fn a_clean_subcarrier_decodes_back_to_its_bits() {
    let bits: Vec<u8> = (0..400).map(|i| ((i * 7 + i / 3) % 2) as u8).collect();
    let base = baseband(&bits);
    let mut d = RdsDemod::new();
    let mut out = Vec::new();
    d.process(&base, &pilot(base.len(), 19_000), &mut out);

    assert!(out.len() > 300, "only {} bits recovered", out.len());
    // Find the alignment and check that the run matches.
    let got = &out[40..];
    let best_score = (0..60usize)
        .map(|off| got.iter().zip(bits[off..].iter()).take(200).filter(|(a, b)| a == b).count())
        .max()
        .unwrap_or(0);
    assert!(best_score > 190, "only {best_score}/200 bits matched");
    assert!(d.level() > 300_000, "level was {}", d.level());
}

#[test]
fn silence_produces_no_confident_level() {
    let mut d = RdsDemod::new();
    let mut out = Vec::new();
    let n = 20_000;
    d.process(&vec![0; n], &pilot(n, 19_000), &mut out);
    assert!((d.level() as f64) < 1e-6, "reported level {} on silence", d.level());
}

#[test]
fn block_boundaries_do_not_lose_or_duplicate_bits() {
    let bits: Vec<u8> = (0..300).map(|i| (i % 3 == 0) as u8).collect();
    let base = baseband(&bits);
    let ph = pilot(base.len(), 19_000);
    let whole = {
        let mut d = RdsDemod::new();
        let mut o = Vec::new();
        d.process(&base, &ph, &mut o);
        o
    };
    let split = {
        let mut d = RdsDemod::new();
        let mut o = Vec::new();
        for (b, p) in base.chunks(1000).zip(ph.chunks(1000)) {
            d.process(b, p, &mut o);
        }
        o
    };
    assert!(whole.len() > 290);
    assert_eq!(whole.len(), split.len(), "block splitting changed the bit count");
    assert_eq!(whole, split, "block splitting changed the bits");
}

#[test]
fn either_polarity_of_the_baseband_carries_the_same_bits() {
    let bits: Vec<u8> = (0..100).map(|i| (i % 5 < 2) as u8).collect();
    let base = baseband(&bits);
    let flipped: Vec<i64> = base.iter().map(|v| -v).collect();
    let mut a = Vec::new();
    let mut b = Vec::new();
    let ph = pilot(base.len(), 19_000);
    RdsDemod::new().process(&base, &ph, &mut a);
    RdsDemod::new().process(&flipped, &ph, &mut b);
    assert_eq!(a, b);
}

#[test]
fn a_symbol_is_sixteen_cycles_of_the_pilot() {
    let mut c = SymbolClock::new();
    let mut ended = Vec::new();
    for i in 0..70u32 {
        assert!(c.has_room());
        // Half a cycle a sample.
        let t = c.tick((i + 1).wrapping_mul(1 << 31));
        if let Some(halves) = t.ended {
            ended.push((i, halves));
        }
    }
    assert_eq!(ended, vec![(31, (16, 16)), (63, (16, 16))]);
    assert_eq!(SYMBOL, 16 * CYCLE);
    c.reset();
    assert!(c.tick(1 << 31).ended.is_none());
}

#[test]
fn the_clock_follows_a_pilot_that_is_off() {
    // Sixteen seconds of a pilot that is two hertz high are two symbols more.
    for (hz, symbols) in [(19_000, 19_000), (19_002, 19_002), (18_998, 18_998)] {
        let n = 16 * RDS_RATE as usize;
        let mut ph = pilot(n + 1, hz);
        ph.remove(0);
        let mut d = RdsDemod::new();
        let mut bits = Vec::new();
        assert_eq!(d.process(&vec![0; n], &ph, &mut bits), n);
        assert_eq!(bits.len(), symbols - 1);
        assert!(bits.iter().all(|b| *b == 0));
    }
}

#[test]
fn crossings_do_not_keep_a_package_open() {
    // A microsecond a sample: two silences of eight with a crossing between them
    // are longer than the ten that end a package.
    let cfg =
        PulseConfig { reset_us: 10, min_mark_us: 2, min_pulses: 1, ..PulseConfig::default() };
    let mut d = OokDetector::new(m(1e6), cfg);
    let runs = [(true, 5), (false, 8), (true, 1), (false, 8), (true, 5), (false, 11)];
    let p = step_all(&mut d, &runs);
    assert_eq!(p.len(), 2);
    assert_eq!(p[0].pulses, vec![Pulse { mark: 5, gap: 10 }]);
    assert_eq!(p[1].pulses, vec![Pulse { mark: 5, gap: 10 }]);
    // A gap of ten is still one.
    let mut d = OokDetector::new(m(1e6), cfg);
    let runs = [(true, 5), (false, 5), (true, 1), (false, 4), (true, 5), (false, 11)];
    let p = step_all(&mut d, &runs);
    assert_eq!(p.len(), 1);
    assert_eq!(p[0].pulses, vec![Pulse { mark: 5, gap: 10 }, Pulse { mark: 5, gap: 10 }]);
}

#[test]
fn a_long_mark_needs_no_room_in_the_gap() {
    let cfg = PulseConfig { reset_us: u32::MAX, min_mark_us: 1, ..PulseConfig::default() };
    let mut d = OokDetector::new(m(0.000_5), cfg);
    // Two thousand seconds a sample.
    step_all(&mut d, &[(true, 1), (false, 1), (true, 2)]);
    assert!(d.has_room(false));
    step_all(&mut d, &[(false, 1)]);
}

#[test]
fn a_burst_too_long_to_count_is_dropped() {
    let cfg = PulseConfig {
        reset_us: u32::MAX,
        min_mark_us: u32::MAX,
        min_pulses: 1,
        ..PulseConfig::default()
    };
    let mut d = OokDetector::new(m(0.000_5), cfg);
    // Two thousand seconds a sample, and a crossing that the gap cannot hold.
    step_all(&mut d, &[(false, 2), (true, 1)]);
    assert!(!d.has_room(false));
    assert!(d.make_room());
    assert!(!d.is_high() && d.has_room(false) && d.has_room(true));
}

#[test]
fn levels_take_any_settings() {
    let cfg = PulseConfig { tau_us: m(-3.0), hysteresis: m(2.5), ..PulseConfig::default() };
    let mut l = Levels::new(m(RATE), cfg, m(1e12));
    // A time constant of one sample: the noise is where the sample is.
    assert!(!l.hear(100, false));
    assert!(!l.hear(40, false));
    assert_eq!(l.noise_level(), 40);
    // The ratio holds the signal that far over the noise, past any sample.
    assert!(l.hear(FULL_SCALE, false));
    assert_eq!(l.signal_level(), 40_000_000_000_000);
    assert!(Levels::new(m(0.0), cfg, m(-1.0)).would(FULL_SCALE, true));
    // A hysteresis beyond all levels: what is high stays so, what is low too.
    let cfg = PulseConfig { hysteresis: Micro(i64::MAX), ..cfg };
    let mut l = Levels::new(m(RATE), cfg, Micro(i64::MAX));
    assert!(l.hear(FULL_SCALE, true));
    assert_eq!(l.signal_level(), 10_141_204_801_825_835_210_874_114_i128);
    assert!(l.would(0, true) && !l.would(FULL_SCALE, false));
    let cfg = PulseConfig { hysteresis: Micro(i64::MIN), ..cfg };
    let mut l = Levels::new(m(RATE), cfg, Micro(i64::MAX));
    assert!(l.hear(FULL_SCALE, false));
    assert!(l.would(0, false) && !l.would(FULL_SCALE, true));
}

#[test]
fn offsets_have_the_sign_of_their_channel() {
    let ch = Channelizer::new(8, 4, 0u8);
    for k in 0..8 {
        let off = ch.channel_offset_hz(k, m(8_000.0));
        assert_eq!(off.0 < 0, k >= 4);
        assert!(off.0 >= m(-4_000.0).0 && off.0 < m(4_000.0).0);
        assert_eq!(ch.channel_for_offset(off, m(8_000.0)), k);
    }
}

#[test]
fn a_call_gives_a_frame_when_the_count_goes_up() {
    let count = |n: usize| if n < 16 { 0 } else { (n - 16) / 8 + 1 };
    let mut s = Spectrum::new(16);
    let mut total = 0;
    for len in [5, 5, 5, 5, 3, 40, 1, 7] {
        let new = s.process(&vec![0u8; len]).len();
        assert_eq!(new, count(total + len) - count(total));
        total += len;
    }
}

#[test]
fn bits_are_the_change_between_symbols() {
    let mut d = Differential::new();
    assert_eq!(d.push(true), None);
    assert_eq!(d.push(true), Some(0));
    assert_eq!(d.push(false), Some(1));
    d.reset();
    assert_eq!(d.decode(&[false, true, true, false]), [1, 0, 1]);
}
