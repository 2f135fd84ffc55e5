//! Numbers, text, sample formats and gain distribution.

use super_radio::common::{
    DeviceInfo, DriverKind, Error, GainMode, Hz, IqBuf, SampleFormat, Sps, TunerRange,
};
use super_radio::fixed::{half_even, nearest, nearest_signed, Micro};
use super_radio::gain::{distribute, quantise_lna, quantise_vga, AMP_DB};
use super_radio::sort::sort;
use super_radio::text::{before, push_micro, push_ratio, push_signed_ratio, same};

fn m(v: f64) -> Micro {
    Micro((v * 1e6).round() as i64)
}

/// Samples at a full scale of one.
fn scaled(f: SampleFormat, raw: &[u8]) -> Vec<(f64, f64)> {
    let mut out = Vec::new();
    f.convert(raw, &mut out);
    let one = |v: i64| match f.scale() {
        Some(s) => v as f64 / s as f64,
        None => f32::from_bits(v as u32) as f64,
    };
    out.into_iter().map(|(i, q)| (one(i), one(q))).collect()
}

#[test]
fn cu8_midpoint_is_dc_free() {
    // A constant 127/128 dither around the midpoint should average to ~0.
    let raw = [127u8, 128, 128, 127, 127, 128, 128, 127];
    let out = scaled(SampleFormat::Cu8, &raw);
    let sum = out.iter().fold((0.0, 0.0), |a, s| (a.0 + s.0, a.1 + s.1));
    assert!(sum.0.hypot(sum.1) < 1e-6, "residual DC: {sum:?}");
}

#[test]
fn cs16_roundtrip_scale() {
    let raw = i16::to_le_bytes(16384)
        .into_iter()
        .chain(i16::to_le_bytes(-32768))
        .collect::<Vec<u8>>();
    let out = scaled(SampleFormat::Cs16, &raw);
    assert_eq!(out.len(), 1);
    assert!((out[0].0 - 0.5).abs() < 1e-6);
    assert!((out[0].1 + 1.0).abs() < 1e-6);
}

#[test]
fn partial_sample_is_ignored() {
    let mut out = Vec::new();
    SampleFormat::Cs16.convert(&[1, 2, 3], &mut out);
    assert!(out.is_empty());
}

#[test]
fn every_format_is_taken_apart() {
    assert_eq!(scaled(SampleFormat::Cu8, &[0, 255]), vec![(-1.0, 1.0)]);
    assert_eq!(scaled(SampleFormat::Cs8, &[128, 64]), vec![(-1.0, 0.5)]);
    let raw: Vec<u8> =
        0.25f32.to_le_bytes().into_iter().chain((-3.5f32).to_le_bytes()).collect();
    assert_eq!(scaled(SampleFormat::Cf32, &raw), vec![(0.25, -3.5)]);
    let all = [SampleFormat::Cu8, SampleFormat::Cs8, SampleFormat::Cs16, SampleFormat::Cf32];
    assert_eq!(all.map(|f| f.bytes_per_sample()), [2, 2, 4, 8]);
    // Samples are added to what is there.
    let mut out = vec![(7, 7)];
    SampleFormat::Cs8.convert(&[1, 2, 3, 4, 5], &mut out);
    assert_eq!(out, vec![(7, 7), (1, 2), (3, 4)]);
}

#[test]
fn a_buffer_knows_its_span() {
    let b = IqBuf::new(vec![0u8; 250], Hz::mhz(100), Sps(1_000_001), 3);
    assert_eq!((b.len(), b.is_empty()), (250, false));
    assert_eq!(b.low_edge(), 99_499_999_500_000);
    assert_eq!(b.high_edge(), 100_500_000_500_000);
    assert_eq!(IqBuf::new(vec![0u8; 250], Hz::mhz(1), Sps(250_000), 0).duration(), 1_000_000);
}

#[test]
fn a_device_covers_what_its_ranges_hold() {
    let d = DeviceInfo {
        kind: DriverKind::RtlSdr,
        id: "0".into(),
        label: "dongle".into(),
        tuner: "E4000".into(),
        ranges: vec![
            TunerRange { range: 52_000_000..=1_100_000_000, label: "low" },
            TunerRange { range: 1_250_000_000..=2_200_000_000, label: "high" },
        ],
        rates: vec![Sps(1)],
        rate_range: 225_000..=2_400_000,
        gain_stages: vec![("tuner".into(), m(0.0), m(50.0))],
        native_format: SampleFormat::Cu8,
        usable_bandwidth_ratio: m(0.8),
    };
    assert!(d.covers(Hz(52_000_000)) && d.covers(Hz(1_100_000_000)));
    assert!(!d.covers(Hz(1_200_000_000)));
    assert!(d.covers(Hz(1_250_000_000)) && !d.covers(Hz(51_999_999)));
}

#[test]
fn drivers_and_errors_have_names() {
    let all = [
        DriverKind::RtlSdr,
        DriverKind::HackRf,
        DriverKind::File,
        DriverKind::Synthetic,
    ];
    assert_eq!(all.map(|d| d.as_str()), ["rtlsdr", "hackrf", "file", "synthetic"]);
    assert_eq!(Error::other("gone".to_string()).to_string(), "gone");
    assert_eq!(Hz::mhz(433).get(), 433_000_000);
    assert_ne!(GainMode::Auto, GainMode::Manual(m(0.0)));
}

#[test]
fn rounding_is_as_it_says() {
    assert_eq!(nearest(5, 2), 3);
    assert_eq!(nearest_signed(-5, 2), -3);
    assert_eq!(nearest_signed(-4, 3), -1);
    assert_eq!((half_even(5, 2), half_even(7, 2), half_even(8, 3)), (2, 4, 3));
    assert_eq!(m(-2.9).trunc(), -2);
    assert_eq!(Micro(i64::MIN).trunc(), -9_223_372_036_854);
    assert_eq!(Micro::whole(-3), m(-3.0));
    assert_eq!(m(9.0).clamp_to(m(1.0), m(2.0)), m(2.0));
}

#[test]
fn numbers_are_written_out() {
    let ratio = |n: u128, d: u128, p: u32| {
        let mut s = String::new();
        push_ratio(&mut s, n, d, p);
        s
    };
    assert_eq!(ratio(2_304_000, 1_000_000, 3), "2.304");
    assert_eq!(ratio(1, 8, 2), "0.12");
    assert_eq!(ratio(3, 8, 2), "0.38");
    assert_eq!(ratio(99_999, 100, 0), "1000");
    let mut s = "x".to_string();
    push_signed_ratio(&mut s, -1, 3, 4);
    push_micro(&mut s, -21_700_000);
    push_micro(&mut s, 19_000_000);
    assert_eq!(s, "x-0.3333-21.719");
    assert!(same("ab", "ab") && !same("ab", "abc"));
    assert!(before("ab", "b") && before("a", "ab") && !before("a", "a"));
}

#[test]
fn levels_are_put_in_order() {
    assert_eq!(sort(&vec![3, -1, 3, 0]), vec![-1, 0, 3, 3]);
    assert!(sort(&Vec::new()).is_empty());
}

fn achieved(db: f32) -> u32 {
    let (a, l, v) = distribute(m(db as f64));
    (if a { AMP_DB } else { 0 }) + l + v
}

#[test]
fn gains_land_on_the_hardware_steps() {
    for db in 0..=116 {
        let (_, l, v) = distribute(m(db as f64));
        assert_eq!(l % 8, 0, "LNA {l} is not a multiple of 8");
        assert_eq!(v % 2, 0, "VGA {v} is not a multiple of 2");
        assert!(l <= 40 && v <= 62);
    }
}

#[test]
fn gain_is_shared_rather_than_filling_one_stage() {
    // Both stages must contribute at a normal operating point, or the ADC
    // is starved even though the requested total looks right.
    for db in [30.0, 40.0, 60.0, 80.0] {
        let (_, lna, vga) = distribute(m(db));
        assert!(lna > 0, "LNA idle at {db} dB");
        assert!(vga > 0, "VGA idle at {db} dB, the converter would be starved");
    }
}

#[test]
fn quiet_stages_are_used_before_the_amp() {
    let (amp, lna, _) = distribute(m(30.0));
    assert!(!amp, "amp switched in for only 30 dB");
    assert!(lna > 0, "LNA should take gain before the VGA");
    assert!(distribute(m(110.0)).0, "amp should engage once the rest is exhausted");
}

#[test]
fn more_requested_never_means_less_delivered() {
    let mut prev = 0;
    for i in 0..=116 {
        let t = achieved(i as f32);
        // Steps are coarse, so allow a step of slack but never a real drop.
        assert!(t + 8 >= prev, "gain fell from {prev} to {t} at {i} dB");
        prev = t;
    }
}

#[test]
fn the_request_is_tracked_within_one_step() {
    for db in [0.0f32, 10.0, 24.0, 40.0, 60.0, 90.0, 102.0] {
        let got = achieved(db) as f32;
        assert!((got - db).abs() <= 8.0, "asked {db}, got {got}");
    }
}

#[test]
fn the_nearest_even_gain_is_delivered() {
    for i in 0..=1160 {
        let want = 2 * ((i + 10) / 20) as u32;
        assert_eq!(achieved(i as f32 / 10.0), want, "at {i} tenths of a dB");
    }
}

#[test]
fn out_of_range_requests_clamp() {
    assert_eq!(distribute(m(-50.0)), (false, 0, 0));
    let (amp, lna, vga) = distribute(m(1e6));
    assert!(amp && lna == 40 && vga == 62);
}

#[test]
fn steps_are_the_nearest_ones() {
    assert_eq!(quantise_lna(m(11.0)), 8);
    assert_eq!(quantise_lna(m(13.0)), 16);
    assert_eq!(quantise_lna(m(99.0)), 40);
    assert_eq!(quantise_vga(m(3.2)), 4);
    assert_eq!(quantise_vga(m(-3.2)), 0);
    assert_eq!(quantise_vga(m(99.0)), 62);
}
