//! Arguments, the receiver, measured runs and the report without a window.

use super_radio::common::{Error, GainMode, Hz, Sps};
use super_radio::fixed::Micro;
use super_radio::front::args::{soak_enabled, task, Task};
use super_radio::front::probe::{is_reported, reading, report_line, Reading};
use super_radio::front::radio::{
    cost, course, goes_on, Action, AudioPlan, Cmd, Delivery, Demod, Happening, Rebuild, Receiver,
};
use super_radio::front::soak::{
    report, shot_progress, soak_progress, split_words, times, Progress,
};
use super_radio::front::ui::Frame;

fn m(v: f64) -> Micro {
    Micro((v * 1e6).round() as i64)
}

fn args(a: &[&str]) -> Vec<String> {
    a.iter().map(|s| s.to_string()).collect()
}

#[test]
fn the_audio_rate_is_close_to_what_was_asked_for() {
    for mode in [Demod::Wfm, Demod::Nfm, Demod::Am] {
        let a = AudioPlan::new(m(2_304_000.0), mode, m(48_000.0));
        let r = a.audio_rate.0 as f64 / 1e6;
        assert!((r - 48_000.0).abs() < 12_000.0, "{} gave {r} Hz", mode.label());
    }
}

#[test]
fn plans_divide_the_rate_twice() {
    let w = AudioPlan::new(m(2_304_000.0), Demod::Wfm, m(48_000.0));
    assert_eq!((w.if_dec, w.au_dec, w.am), (8, 6, false));
    assert_eq!((w.if_rate, w.audio_rate), (m(288_000.0), m(48_000.0)));
    let n = AudioPlan::new(m(2_304_000.0), Demod::Am, m(48_000.0));
    assert_eq!((n.if_dec, n.au_dec, n.am), (48, 1, true));
    let slow = AudioPlan::new(m(8_000.0), Demod::Nfm, m(48_000.0));
    assert_eq!((slow.if_dec, slow.au_dec), (1, 1));
    assert_eq!(cost(281, 99, &w), "if 281 taps /8, audio 99 taps /6");
}

#[test]
fn modes_have_their_figures() {
    let all = [Demod::Wfm, Demod::Nfm, Demod::Am];
    assert_eq!(all.map(|d| d.label()), ["WFM", "NFM", "AM"]);
    assert_eq!(all.map(|d| d.bandwidth()), [180_000, 12_500, 10_000]);
    assert_eq!(all.map(|d| d.if_rate()), [288_000, 48_000, 48_000]);
    assert_eq!(all.map(|d| d.audio_bw()), [15_000, 4_000, 5_000]);
    assert_eq!(all.map(|d| d.deviation()), [75_000, 5_000, 0]);
}

#[test]
fn commands_ask_for_what_they_say() {
    let mut r = Receiver::new(Hz(95_800_000), Sps(2_304_000), 2048, 0);
    assert_eq!(r.command(Cmd::Center(Hz(1))), Action::Tune(Hz(1)));
    assert_eq!(r.command(Cmd::Rate(Sps(2))), Action::SetRate(Sps(2)));
    assert_eq!(r.command(Cmd::Gain(GainMode::Auto)), Action::SetGain(GainMode::Auto));
    assert_eq!(r.command(Cmd::Volume(m(0.1))), Action::Nothing);
    assert_eq!(r.volume(), m(0.1));
    assert_eq!(r.command(Cmd::Smoothing(m(0.001))), Action::Average(m(0.01)));
    assert_eq!(r.command(Cmd::Fft(512)), Action::NewSpectrum(512, m(0.01)));
    assert_eq!(r.command(Cmd::Stop), Action::Stop);
    assert_eq!(r.rebuild(), Rebuild::Keep);
}

#[test]
fn the_chain_is_rebuilt_once_for_what_it_depends_on() {
    let mut r = Receiver::new(Hz(95_800_000), Sps(2_304_000), 2048, 0);
    r.command(Cmd::Listen(Some(m(1000.0))));
    r.command(Cmd::Demod(Demod::Am));
    assert_eq!(r.rebuild(), Rebuild::Chain(m(1000.0), Sps(2_304_000), Demod::Am));
    assert_eq!(r.rebuild(), Rebuild::Keep);
    r.tuned(Hz(7));
    assert_eq!(r.rebuild(), Rebuild::Keep);
    r.rated(Sps(9));
    assert_eq!(r.rebuild(), Rebuild::Chain(m(1000.0), Sps(9), Demod::Am));
    r.command(Cmd::Listen(None));
    assert_eq!(r.rebuild(), Rebuild::Silence);
    assert_eq!((r.center(), r.rate(), r.smoothing()), (Hz(7), Sps(9), m(0.35)));
}

#[test]
fn frames_come_at_the_refresh_rate() {
    let mut r = Receiver::new(Hz(0), Sps(1), 2048, 1_000);
    assert!(!r.frame_due(999));
    assert!(r.frame_due(1_000));
    assert!(!r.frame_due(33_334_332));
    assert!(r.frame_due(33_334_333));
    r.command(Cmd::Refresh(m(1000.0)));
    assert!(r.frame_due(100_000_000));
    assert!(!r.frame_due(108_333_332));
    assert!(r.frame_due(108_333_333));
}

#[test]
fn only_a_display_that_is_gone_stops_the_radio() {
    assert!(goes_on(Delivery::Sent));
    assert!(goes_on(Delivery::Full));
    assert!(!goes_on(Delivery::Disconnected));
}

#[test]
fn only_a_device_that_fails_ends_a_run_with_an_error() {
    let e = || Error::other("gone".to_string());
    let taken = |h| {
        let c = course(h);
        (c.is_on(), c.message())
    };
    assert_eq!(taken(Happening::Device(e())), (false, Some("gone".to_string())));
    assert_eq!(taken(Happening::Audio(e())), (true, Some("no audio output: gone".to_string())));
    assert_eq!(taken(Happening::Read(e())), (false, None));
    assert_eq!(taken(Happening::Stop), (false, None));
    assert_eq!(taken(Happening::Frame(Delivery::Sent)), (true, None));
    assert_eq!(taken(Happening::Frame(Delivery::Full)), (true, None));
    assert_eq!(taken(Happening::Frame(Delivery::Disconnected)), (false, None));
}

#[test]
fn arguments_say_what_to_do() {
    assert!(matches!(
        task(&args(&["radio", "--probe", "--bench-audio"])),
        Task::BenchAudio
    ));
    assert!(matches!(
        task(&args(&["radio", "--listen", "--probe", "100.5"])),
        Task::Probe { mhz: Some(t), listen: true } if t == "100.5"
    ));
    assert!(matches!(
        task(&args(&["radio", "--probe"])),
        Task::Probe { mhz: None, listen: false }
    ));
    assert!(matches!(task(&args(&["radio"])), Task::Window { shot: None, soak: None }));
    assert!(matches!(
        task(&args(&["radio", "--shot"])),
        Task::Window { shot: Some(p), soak: None } if p == "/tmp/shot.png"
    ));
    assert!(matches!(
        task(&args(&["radio", "--shot", "a.png", "--soak"])),
        Task::Window { shot: Some(p), soak: Some(None) } if p == "a.png"
    ));
    assert!(matches!(
        task(&args(&["radio", "--soak", "30"])),
        Task::Window { shot: None, soak: Some(Some(s)) } if s == "30"
    ));
    assert!(soak_enabled(&args(&["radio", "--soak", "30"])));
    assert!(!soak_enabled(&args(&["radio", "--soaked"])));
}

#[test]
fn time_spent_is_found_behind_an_awkward_name() {
    let stat = "12 (a) b (c) S 1 2 3 4 5 6 7 8 9 10 111 222 13 14\n";
    assert_eq!(times(stat), Some(("111".to_string(), "222".to_string())));
    assert_eq!(times("12 (a) S 1 2 3"), None);
    assert_eq!(times("no bracket 1 2 3 4 5 6 7 8 9 10 11 12 13 14"), None);
    assert_eq!(split_words(" \ta  b\u{3000}c "), ["a", "b", "c"]);
    assert!(split_words("").is_empty());
}

#[test]
fn a_run_is_reported_in_words() {
    assert_eq!(
        report(m(12.0), m(3.0)),
        "ran 12.0s, used 3.00s CPU = 25% of one core"
    );
    assert_eq!(soak_progress(m(11.9), m(12.0), false), Progress::Waiting);
    assert_eq!(soak_progress(m(12.0), m(12.0), false), Progress::Now);
    assert_eq!(soak_progress(m(13.0), m(12.0), true), Progress::Over);
    assert_eq!(shot_progress(m(6.0), false), Progress::Waiting);
    assert_eq!(shot_progress(m(6.1), false), Progress::Now);
    assert_eq!(shot_progress(m(7.0), true), Progress::Over);
}

#[test]
fn a_reading_is_the_first_peak_and_the_median() {
    let f = Frame {
        db: vec![m(-80.0), m(-10.0), m(-70.0), m(-10.0), Micro(i64::MIN)],
        center: m(100e6),
        rate: m(1e6),
    };
    let r = reading(&f);
    assert_eq!(
        r,
        Some(Reading { peak: m(-10.0), hz: 99_700_000_000_000, median: m(-10.0) })
    );
    let none = Frame { db: vec![Micro(i64::MIN)], center: m(1.0), rate: m(1.0) };
    assert_eq!(reading(&none), None);
    assert!(is_reported(40) && !is_reported(41));
}

#[test]
fn a_reading_is_written_in_columns() {
    let r = Reading { peak: m(-10.25), hz: 99_700_000_000_000, median: m(-80.0) };
    let f = format!(
        "frame {:3}  peak {:6.1} dBFS at {:9.4} MHz  floor {:6.1}  peak-floor {:5.1} dB",
        20, -10.25f32, 99.7f64, -80.0f32, 69.75f32
    );
    assert_eq!(report_line(20, &r), f);
}
