//! The front panel: chain view, waterfall, wheel, plot and state.

use super_radio::common::{DriverKind, GainMode, Hz, Sps};
use super_radio::fixed::Micro;
use super_radio::front::chainview::{draw, height, kind_label, rate_label, ChainNode, Mark};
use super_radio::front::color::Rgb;
use super_radio::front::devices::Entry;
use super_radio::front::plot::{
    bin_hint, cog_area, cursor_label, drops_lamp, fmt_hz, grid_label, history_label, hz_at, layout,
    marker, ribbon, rise, rx_lamp, smoothing_label, spot, trace, x_of, Area, Edges, Pane, Span,
    Spot,
};
use super_radio::front::radio::{Cmd, Demod};
use super_radio::front::ui::{
    ffts, history_rows, refresh_rates, speeds, App, Frame, Settings,
};
use super_radio::front::waterfall::{colormap, Waterfall};
use super_radio::front::wheel::{Wheel, WheelUnit};
use super_radio::pipeline::port::{PortKind, StreamSpec};

fn m(v: f64) -> Micro {
    Micro((v * 1e6).round() as i64)
}

#[test]
fn a_stereo_stream_says_so_in_its_label() {
    let s = StreamSpec::iq(m(96_000.0), Hz::mhz(95))
        .with_kind(PortKind::Real)
        .with_rate(m(48_000.0))
        .with_channels(2);
    // The port rate is 96 kHz but each ear runs at 48 kHz. Showing the port
    // rate would read as an audio chain running twice as fast as it is.
    assert_eq!(rate_label(&s), "48.0 kS/s x2");
}

#[test]
fn rates_are_shown_in_a_unit_that_suits_them() {
    let at = |r: f64| rate_label(&StreamSpec::iq(m(r), Hz::mhz(95)));
    assert_eq!(at(2_304_000.0), "2.304 MS/s");
    assert_eq!(at(48_000.0), "48.0 kS/s");
    // A symbol rate is not helped by being rounded to 1.2 kS/s, which is
    // why the threshold is 10 kS/s rather than 1.
    assert_eq!(at(1187.5), "1188 S/s");
    assert_eq!(at(4_750.0), "4750 S/s");
}

#[test]
fn kinds_have_short_names() {
    assert_eq!(kind_label(PortKind::Iq), "iq");
    assert_eq!(kind_label(PortKind::Real), "real");
    assert_eq!(kind_label(PortKind::Bytes), "bytes");
    assert_eq!(kind_label(PortKind::Pulses), "pulses");
    assert_eq!(kind_label(PortKind::Soft), "soft");
}

#[test]
fn a_chain_is_drawn_from_the_top_down() {
    let input = StreamSpec::iq(m(2_304_000.0), Hz::mhz(95));
    let audio = input.with_kind(PortKind::Real).with_rate(m(48_000.0));
    let bits = input.with_kind(PortKind::Bytes).with_rate(m(1187.5));
    let nodes = vec![
        ChainNode { label: "Mixer".into(), kind: "mixer".into(), outputs: vec![input] },
        ChainNode { label: "WFM".into(), kind: "wfm".into(), outputs: vec![audio, bits] },
    ];
    let marks = draw(&input, &nodes, m(12.34));
    assert_eq!(
        marks,
        vec![
            Mark::Header("2 stages   12.3 ms through the chain".into()),
            Mark::Stage { y: 12, label: "Source".into(), kind: "device".into(), source: true },
            Mark::Edge { from: 58, to: 92, text: "iq  2.304 MS/s".into() },
            Mark::Stage { y: 92, label: "Mixer".into(), kind: "mixer".into(), source: false },
            Mark::Edge { from: 138, to: 172, text: "iq  2.304 MS/s".into() },
            Mark::Stage { y: 172, label: "WFM".into(), kind: "wfm".into(), source: false },
            Mark::Out { y: 228, text: "out  real  48.0 kS/s".into() },
            Mark::Branch { y: 172, label: "out 1".into(), carries: "bytes" },
        ]
    );
    assert_eq!(height(2), 240);
}

fn luma(c: Rgb) -> f32 {
    0.2126 * c.r as f32 + 0.7152 * c.g as f32 + 0.0722 * c.b as f32
}

#[test]
fn the_colormap_brightens_monotonically() {
    let mut prev = -1.0;
    for i in 0..=100 {
        let l = luma(colormap(m(i as f64 / 100.0)));
        assert!(l >= prev - 1.0, "luma dipped at t={}: {l} after {prev}", i as f32 / 100.0);
        prev = l;
    }
}

#[test]
fn the_colormap_clamps_out_of_range_input() {
    assert_eq!(colormap(m(-5.0)), colormap(m(0.0)));
    assert_eq!(colormap(m(5.0)), colormap(m(1.0)));
}

#[test]
fn the_colormap_has_its_stops() {
    assert_eq!(colormap(m(0.0)), Rgb { r: 7, g: 9, b: 13 });
    assert_eq!(colormap(m(1.0)), Rgb { r: 255, g: 246, b: 223 });
    assert_eq!(colormap(m(0.6)), Rgb { r: 19, g: 95, b: 123 });
}

#[test]
fn a_resize_does_not_panic_and_resets() {
    let mut w = Waterfall::new(8);
    w.push(&[m(-50.0); 16], m(-100.0), m(0.0));
    w.push(&[m(-50.0); 32], m(-100.0), m(0.0));
    assert_eq!(w.width(), 32);
    assert_eq!(w.filled(), 1);
}

#[test]
fn the_ring_wraps_without_growing() {
    let mut w = Waterfall::new(4);
    for _ in 0..100 {
        w.push(&[m(-30.0); 8], m(-100.0), m(0.0));
    }
    let pixels: usize = match w.image() {
        Some(img) => img.iter().map(|r| r.len()).sum(),
        None => 0,
    };
    assert_eq!(pixels, 8 * 4);
    assert_eq!(w.filled(), 4);
}

#[test]
fn a_strong_bin_is_brighter_than_a_weak_one() {
    let strong = colormap(m((-10.0 + 100.0) / 100.0));
    let weak = colormap(m((-90.0 + 100.0) / 100.0));
    assert!(luma(strong) > luma(weak));
}

#[test]
fn the_newest_row_is_at_the_top() {
    let mut w = Waterfall::new(3);
    assert!(w.image().is_none());
    w.push(&[m(-100.0)], m(-100.0), m(0.0));
    w.push(&[m(0.0)], m(-100.0), m(0.0));
    let img = match w.image() {
        Some(i) => i,
        None => Vec::new(),
    };
    let black = Rgb { r: 0, g: 0, b: 0 };
    assert_eq!(img, vec![vec![colormap(m(1.0))], vec![colormap(m(0.0))], vec![black]]);
    w.push(&[], m(-100.0), m(0.0));
    assert_eq!(w.filled(), 2);
}

#[test]
fn a_shifted_waterfall_keeps_what_is_still_in_view() {
    let mut w = Waterfall::new(1);
    w.push(&[m(-100.0), m(-50.0), m(0.0)], m(-100.0), m(0.0));
    w.shift(1);
    let black = Rgb { r: 0, g: 0, b: 0 };
    assert_eq!(w.image(), Some(vec![vec![colormap(m(0.5)), colormap(m(1.0)), black]]));
    w.shift(-1);
    assert_eq!(w.image(), Some(vec![vec![black, colormap(m(0.5)), colormap(m(1.0))]]));
}

#[test]
fn a_taller_waterfall_keeps_its_newest_rows() {
    let mut w = Waterfall::new(2);
    for v in [-100.0, -50.0, 0.0] {
        w.push(&[m(v)], m(-100.0), m(0.0));
    }
    w.set_height(3);
    assert_eq!(w.height(), 3);
    assert_eq!(w.filled(), 2);
    let black = Rgb { r: 0, g: 0, b: 0 };
    assert_eq!(
        w.image(),
        Some(vec![vec![colormap(m(1.0))], vec![colormap(m(0.5))], vec![black]])
    );
    w.set_height(1);
    assert_eq!(w.image(), Some(vec![vec![colormap(m(1.0))]]));
    w.clear();
    assert_eq!(w.image(), Some(vec![vec![black]]));
}

#[test]
fn one_notch_is_one_step() {
    let mut w = Wheel::default();
    assert_eq!(w.add(m(1.0)), 1);
    assert_eq!(w.add(m(-1.0)), -1);
}

#[test]
fn nothing_scrolled_is_nothing_stepped() {
    let mut w = Wheel::default();
    for _ in 0..100 {
        assert_eq!(w.add(m(0.0)), 0);
    }
}

#[test]
fn trackpad_fractions_accumulate_instead_of_vanishing() {
    let mut w = Wheel::default();
    let mut total = 0;
    for _ in 0..10 {
        total += w.add(m(0.25));
    }
    assert_eq!(total, 2, "2.5 notches of scroll should step twice");
}

#[test]
fn fast_scrolling_is_not_thrown_away() {
    let mut w = Wheel::default();
    assert_eq!(w.add(m(5.0)), 5);
}

#[test]
fn direction_changes_do_not_leave_a_stuck_remainder() {
    let mut w = Wheel::default();
    w.add(m(0.6));
    // Reversing should cancel the pending fraction rather than adding to it.
    assert_eq!(w.add(m(-0.6)), 0);
    assert_eq!(w.add(m(-1.0)), -1);
}

#[test]
fn scrolls_are_counted_in_their_own_units() {
    let mut w = Wheel::default();
    let n = w.notches(&[
        (WheelUnit::Line, m(1.0)),
        (WheelUnit::Point, m(75.0)),
        (WheelUnit::Page, m(0.25)),
    ]);
    assert_eq!(n, 4);
    assert_eq!(w.acc, m(0.5));
}

fn app() -> App {
    let mut a = App::default();
    a.center = m(100_000_000.0);
    a.rate = m(2_000_000.0);
    a
}

fn span(a: &App) -> Span {
    Span { center: a.center, rate: a.rate }
}

fn rect() -> Pane {
    Pane { left: m(0.0), width: m(1000.0) }
}

#[test]
fn frequency_mapping_round_trips() {
    let a = app();
    let r = rect();
    for hz in [99_000_000.0, 100_000_000.0, 100_750_000.0] {
        let x = x_of(span(&a), r, m(hz));
        let back = hz_at(span(&a), r, Micro(x as i64)).0 as f64 / 1e6;
        assert!((back - hz).abs() < 1.0, "{hz} came back as {back}");
    }
}

#[test]
fn the_edges_are_the_ends_of_the_span() {
    let a = app();
    let r = rect();
    assert!((hz_at(span(&a), r, m(0.0)).0 as f64 / 1e6 - 99_000_000.0).abs() < 1.0);
    assert!((hz_at(span(&a), r, m(1000.0)).0 as f64 / 1e6 - 101_000_000.0).abs() < 1.0);
}

#[test]
fn clicks_outside_the_pane_clamp_to_the_span() {
    let a = app();
    let r = rect();
    assert!((hz_at(span(&a), r, m(-500.0)).0 as f64 / 1e6 - 99_000_000.0).abs() < 1.0);
    assert!((hz_at(span(&a), r, m(5000.0)).0 as f64 / 1e6 - 101_000_000.0).abs() < 1.0);
}

#[test]
fn new_channels_take_the_mode_of_their_band() {
    let mut a = app();
    a.add_channel(m(95.8e6));
    a.add_channel(m(124.0e6));
    assert_eq!(a.channels[0].demod, Demod::Wfm);
    assert_eq!(a.channels[1].demod, Demod::Am);
}

#[test]
fn auto_scale_ignores_a_single_strong_carrier() {
    let mut a = app();
    a.floor = m(-90.0);
    a.ceil = m(-20.0);
    let mut db = vec![m(-95.0); 1024];
    db[500] = m(0.0);
    for _ in 0..200 {
        a.rescale(&db);
    }
    assert!(a.floor.0 < m(-95.0).0, "floor tracked the carrier: {:?}", a.floor);
    assert!(a.floor.0 > m(-110.0).0, "floor ran away: {:?}", a.floor);
}

#[test]
fn retuning_stays_inside_what_the_tuner_can_reach() {
    let mut a = app();
    a.retune(m(1.0));
    assert_eq!(a.center, m(24e6));
    a.retune(m(9e9));
    assert_eq!(a.center, m(1766e6));
}

#[test]
fn fmt_hz_scales_units() {
    assert_eq!(fmt_hz(m(95_800_000.0)), "95.8000 MHz");
    assert_eq!(fmt_hz(m(12_500.0)), "12.5 kHz");
    assert_eq!(fmt_hz(m(400.0)), "400 Hz");
}

#[test]
fn labels_say_what_the_settings_mean() {
    assert_eq!(fmt_hz(m(-12_500.0)), "-12.5 kHz");
    assert_eq!(bin_hint(m(2_304_000.0), 2048), "1.1 kHz per bin");
    assert_eq!(bin_hint(m(2_304_000.0), 16384), "141 Hz per bin");
    assert_eq!(cursor_label(m(95.8e6)), "95.8000 MHz   FM broadcast");
    assert_eq!(smoothing_label(m(0.35)), "65%");
    assert_eq!(smoothing_label(m(0.96)), "off");
    assert_eq!(history_label(512, m(20.0)), "26 s of history at 20 rows/s");
    assert_eq!(grid_label(m(-90.0), m(-20.0), 1), "-38");
    assert_eq!(grid_label(m(-90.0), m(-20.0), 2), "-55");
}

#[test]
fn the_trace_hides_no_carrier() {
    let mut db = vec![m(-90.0); 100];
    db[37] = m(-10.0);
    let t = trace(&db, 10);
    assert_eq!(t.len(), 10);
    assert_eq!(t[3], m(-10.0));
    assert!(t.iter().enumerate().all(|(i, v)| i == 3 || *v == m(-90.0)));
    // More columns than bins: every column still has one.
    let wide = trace(&[m(1.0), m(2.0)], 5);
    assert_eq!(wide, vec![m(1.0), m(1.0), m(1.0), m(2.0), m(2.0)]);
}

#[test]
fn levels_rise_with_their_strength() {
    assert_eq!(rise(m(-90.0), m(-90.0), m(-20.0), m(140.0)), 0);
    assert_eq!(rise(m(-55.0), m(-90.0), m(-20.0), m(140.0)), 70_000_000);
    assert_eq!(rise(m(0.0), m(-90.0), m(-20.0), m(140.0)), 140_000_000);
    assert_eq!(rise(m(-200.0), m(-90.0), m(-20.0), m(140.0)), 0);
    // A scale of less than a decibel is one of a decibel.
    assert_eq!(rise(m(0.5), m(0.0), m(0.0), m(100.0)), 50_000_000);
}

#[test]
fn the_ribbon_names_what_is_wide_enough() {
    let s = Span { center: m(108e6), rate: m(2e6) };
    let cells = ribbon(s, rect());
    assert_eq!(cells.len(), 2);
    assert_eq!((cells[0].x0, cells[0].x1), (0, 500_000_000));
    assert_eq!(cells[0].name, Some("FM broadcast"));
    assert_eq!((cells[1].x0, cells[1].x1), (500_000_000, 1_000_000_000));
    assert_eq!(cells[1].name, Some("VOR / ILS"));
    let narrow = ribbon(s, Pane { left: m(0.0), width: m(100.0) });
    assert!(narrow.iter().all(|c| c.name.is_none()));
    assert!(ribbon(s, Pane { left: m(0.0), width: m(1.0) }).is_empty());
}

#[test]
fn markers_show_what_the_demodulator_takes_in() {
    let s = Span { center: m(100e6), rate: m(2e6) };
    let wide = marker(s, rect(), m(100e6), Demod::Wfm);
    assert_eq!(wide.map(|k| k.x), Some(500_000_000));
    assert_eq!(
        wide.and_then(|k| k.band),
        Some(Edges { x0: 455_000_000, x1: 545_000_000 })
    );
    assert!(marker(s, rect(), m(102e6), Demod::Wfm).is_none());
    let thin = marker(s, Pane { left: m(0.0), width: m(10.0) }, m(100e6), Demod::Am);
    assert_eq!(thin.map(|k| k.band), Some(None));
}

#[test]
fn cogs_stand_in_the_corners_of_their_panes() {
    let full = Area { left: m(0.0), top: m(0.0), right: m(1000.0), bottom: m(416.0) };
    let l = layout(full);
    assert_eq!(l.plot.bottom, m(136.0));
    assert_eq!(l.ribbon.bottom, m(152.0));
    assert_eq!(l.fall.bottom, m(416.0));
    let cog = cog_area(&l.plot);
    assert_eq!(cog, Area { left: m(976.0), top: m(6.0), right: m(994.0), bottom: m(24.0) });
    assert!(cog.contains(m(980.0), m(10.0)));
    assert_eq!(spot(full, m(980.0), m(10.0)), Spot::SpectrumCog);
    assert_eq!(spot(full, m(980.0), m(160.0)), Spot::WaterfallCog);
    assert_eq!(spot(full, m(980.0), m(100.0)), Spot::At(m(980.0)));
}

#[test]
fn lamps_are_dark_when_all_is_well() {
    let d = drops_lamp(0);
    assert_eq!((d.label, d.lit, d.text.as_str()), ("drops", false, "0"));
    let d = drops_lamp(17);
    assert_eq!((d.label, d.lit, d.text.as_str()), ("drops", true, "17"));
    let r = rx_lamp(true);
    assert_eq!((r.label, r.lit, r.text.as_str()), ("rx", true, "on"));
    assert_eq!(rx_lamp(false).text, "off");
}

fn dongle() -> Entry {
    Entry { kind: DriverKind::RtlSdr, index: 0, label: "dongle".into() }
}

#[test]
fn there_is_nothing_to_start_without_a_radio() {
    let mut a = App::default();
    assert!(a.begin(Vec::new()).is_none());
    assert_eq!(
        a.err,
        Some("no radio found. plug one in, then press RESCAN.".to_string())
    );
    assert!(!a.connected);
    assert_eq!(a.device_name(), "none");
    a.retune(m(100e6));
    assert!(a.take_outbox().is_empty());
}

#[test]
fn the_first_radio_is_started() {
    let mut a = App::default();
    let s = a.begin(vec![dongle()]);
    let s = match s {
        Some(s) => s,
        None => panic!("nothing started"),
    };
    assert_eq!(s.entry, dongle());
    assert_eq!((s.center, s.rate, s.fft), (Hz(95_800_000), Sps(2_304_000), 2048));
    assert!(a.connected && a.err.is_none());
    assert_eq!(a.device_name(), "dongle");
    assert_eq!(a.span_name(), "2.304M");
}

#[test]
fn a_rate_that_is_not_on_offer_gives_way() {
    let mut a = App::default();
    let hackrf = Entry { kind: DriverKind::HackRf, index: 0, label: "one".into() };
    a.rate = m(250_000.0);
    let s = a.begin(vec![hackrf]);
    assert_eq!(s.map(|s| s.rate), Some(Sps(20_000_000)));
    assert_eq!(a.rate, m(20e6));
    assert_eq!(a.span_name(), "20M");
    a.rate = m(3e6);
    assert_eq!(a.span_name(), "custom");
}

#[test]
fn picking_the_radio_that_is_picked_does_nothing() {
    let mut a = App::default();
    a.begin(vec![dongle()]);
    assert!(a.select_device(dongle()).is_none());
    let other = Entry { kind: DriverKind::RtlSdr, index: 1, label: "other".into() };
    a.add_channel(m(95.8e6));
    assert!(a.select_device(other).is_some());
    assert_eq!(a.listening, None);
}

#[test]
fn a_rescan_connects_only_where_there_was_nothing() {
    let mut a = App::default();
    assert!(a.rescan(Vec::new()).is_none());
    assert!(a.rescan(vec![dongle()]).is_some());
    assert!(a.rescan(vec![dongle(), dongle()]).is_none());
    assert_eq!(a.devices.len(), 2);
}

#[test]
fn listening_says_mode_offset_and_volume() {
    let mut a = App::default();
    a.begin(vec![dongle()]);
    a.add_channel(m(95.9e6));
    assert_eq!(a.channels[0].label, "CH1");
    assert_eq!(
        a.take_outbox(),
        vec![
            Cmd::Demod(Demod::Wfm),
            Cmd::Listen(Some(m(100_000.0))),
            Cmd::Volume(m(0.5)),
        ]
    );
    a.listen(7);
    assert!(a.take_outbox().is_empty());
}

#[test]
fn a_retune_keeps_the_listener_on_its_frequency() {
    let mut a = App::default();
    a.begin(vec![dongle()]);
    a.add_channel(m(95.9e6));
    a.take_outbox();
    a.retune(m(96.0e6));
    assert_eq!(
        a.take_outbox(),
        vec![
            Cmd::Center(Hz(96_000_000)),
            Cmd::Demod(Demod::Wfm),
            Cmd::Listen(Some(m(-100_000.0))),
            Cmd::Volume(m(0.5)),
        ]
    );
    a.mute();
    assert_eq!(a.take_outbox(), vec![Cmd::Listen(None)]);
    a.retune(m(97.0e6));
    assert_eq!(a.take_outbox(), vec![Cmd::Center(Hz(97_000_000)), Cmd::Listen(None)]);
}

#[test]
fn removing_a_channel_keeps_the_one_that_is_heard() {
    let mut a = app();
    a.add_channel(m(95.8e6));
    a.add_channel(m(124.0e6));
    a.add_channel(m(145.0e6));
    assert_eq!(a.listening, Some(2));
    a.remove_channel(0);
    assert_eq!(a.listening, Some(1));
    assert_eq!(a.channels[1].label, "CH3");
    a.remove_channel(1);
    assert_eq!(a.listening, None);
    a.listen(0);
    a.add_channel(m(95.8e6));
    a.listen(0);
    a.remove_channel(1);
    assert_eq!(a.listening, Some(0));
}

#[test]
fn a_new_mode_is_listened_to() {
    let mut a = app();
    a.begin(vec![dongle()]);
    a.add_channel(m(95.8e6));
    a.add_channel(m(124.0e6));
    a.take_outbox();
    a.set_demod(0, Demod::Nfm);
    assert_eq!(a.channels[0].demod, Demod::Nfm);
    assert_eq!(a.listening, Some(0));
    assert_eq!(a.take_outbox()[0], Cmd::Demod(Demod::Nfm));
    a.set_label(0, "news".to_string());
    assert_eq!(a.channels[0].label, "news");
    assert_eq!(a.channels[0].demod, Demod::Nfm);
}

#[test]
fn a_click_listens_to_what_is_there_or_adds_a_channel() {
    let mut a = app();
    a.click(rect(), Spot::At(m(500.0)));
    assert_eq!(a.channels.len(), 1);
    assert_eq!(a.channels[0].freq, m(100e6));
    // Six pixels are twelve kilohertz here.
    a.click(rect(), Spot::At(m(505.0)));
    assert_eq!(a.channels.len(), 1);
    assert_eq!(a.listening, Some(0));
    a.click(rect(), Spot::At(m(507.0)));
    assert_eq!(a.channels.len(), 2);
    assert_eq!(a.listening, Some(1));
}

#[test]
fn a_cog_opens_its_settings_and_nothing_else() {
    let mut a = app();
    a.click(rect(), Spot::SpectrumCog);
    assert_eq!(a.open, Some(Settings::Spectrum));
    a.click(rect(), Spot::WaterfallCog);
    assert_eq!(a.open, Some(Settings::Waterfall));
    assert!(a.channels.is_empty());
    a.close_settings();
    assert_eq!(a.open, None);
}

#[test]
fn dragging_and_scrolling_move_the_centre() {
    let mut a = app();
    a.drag(rect(), m(10.0));
    assert_eq!(a.center, m(99_980_000.0));
    a.drag(rect(), m(0.0));
    assert_eq!(a.center, m(99_980_000.0));
    a.wheel(&[(WheelUnit::Line, m(1.0))]);
    assert_eq!(a.center, m(99_880_000.0));
    a.wheel(&[(WheelUnit::Line, m(-0.5))]);
    assert_eq!(a.center, m(99_880_000.0));
    a.wheel(&[(WheelUnit::Line, m(-0.5))]);
    assert_eq!(a.center, m(99_980_000.0));
}

#[test]
fn gain_is_taken_in_hand_at_thirty_decibels() {
    let mut a = app();
    a.begin(vec![dongle()]);
    a.set_gain(m(12.0));
    assert!(a.take_outbox().is_empty());
    a.gain_manual();
    a.gain_manual();
    a.set_gain(m(12.0));
    a.gain_auto();
    a.gain_auto();
    assert_eq!(
        a.take_outbox(),
        vec![
            Cmd::Gain(GainMode::Manual(m(30.0))),
            Cmd::Gain(GainMode::Manual(m(12.0))),
            Cmd::Gain(GainMode::Auto),
        ]
    );
}

#[test]
fn settings_are_said_once_they_change() {
    let mut a = App::default();
    a.begin(vec![dongle()]);
    a.set_fft(2048);
    a.set_refresh(m(30.005));
    assert!(a.take_outbox().is_empty());
    a.set_fft(4096);
    a.set_refresh(m(60.0));
    a.set_smoothing(m(0.5));
    a.set_volume(m(0.25));
    assert_eq!(
        a.take_outbox(),
        vec![
            Cmd::Fft(4096),
            Cmd::Refresh(m(60.0)),
            Cmd::Smoothing(m(0.5)),
            Cmd::Volume(m(0.25)),
        ]
    );
    a.set_history(1024);
    assert_eq!(a.fall.height(), 1024);
    a.set_scale(m(-100.0), m(-30.0));
    assert_eq!(a.floor, m(-90.0));
    a.set_auto_scale(false);
    a.set_scale(m(-100.0), m(-30.0));
    assert_eq!((a.floor, a.ceil), (m(-100.0), m(-30.0)));
    a.set_contrast(m(7.0));
    a.set_rows_per_sec(m(40.0));
    assert_eq!((a.top_offset, a.rows_per_sec), (m(7.0), m(40.0)));
}

#[test]
fn picking_a_span_starts_the_history_again() {
    let mut a = App::default();
    a.begin(vec![dongle()]);
    let current = a.spans.iter().position(|s| s.1 == 2_304_000).unwrap_or(99);
    assert!(a.is_current(current));
    a.pick_span(current);
    assert!(a.take_outbox().is_empty());
    a.pick_span(0);
    assert_eq!(a.rate, m(250_000.0));
    assert_eq!(a.take_outbox(), vec![Cmd::Rate(Sps(250_000)), Cmd::Listen(None)]);
}

fn frame(db: Vec<Micro>, center: f64) -> Frame {
    Frame { db, center: m(center), rate: m(2_000_000.0) }
}

#[test]
fn a_burst_between_rows_is_in_the_next_one() {
    let mut a = app();
    a.set_auto_scale(false);
    a.set_rows_per_sec(m(10.0));
    a.take_frame(frame(vec![m(-90.0); 4], 100e6), 1_000_000_000);
    assert_eq!(a.fall.filled(), 1);
    a.take_frame(frame(vec![m(-90.0), m(-20.0), m(-90.0), m(-90.0)], 100e6), 1_050_000_000);
    assert_eq!(a.fall.filled(), 1);
    a.take_frame(frame(vec![m(-90.0); 4], 100e6), 1_100_000_000);
    assert_eq!(a.fall.filled(), 2);
    let img = a.fall.image().unwrap_or_default();
    assert_eq!(img[0][1], colormap(m(1.0)));
    assert_eq!(img[0][0], colormap(m(0.0)));
    assert_eq!(a.db, vec![m(-90.0); 4]);
}

#[test]
fn the_history_slides_with_the_centre() {
    let mut a = app();
    a.fall_center = a.center;
    a.set_auto_scale(false);
    a.take_frame(frame(vec![m(-90.0), m(-20.0), m(-90.0), m(-90.0)], 100e6), 0);
    // Two megahertz in four bins: half a megahertz is one bin.
    a.take_frame(frame(vec![m(-90.0); 4], 100.5e6), 1);
    assert_eq!(a.fall_center, m(100.5e6));
    let img = a.fall.image().unwrap_or_default();
    assert_eq!(img[0][0], colormap(m(1.0)));
    // Less than half a bin does not move it.
    a.take_frame(frame(vec![m(-90.0); 4], 100.7e6), 2);
    assert_eq!(a.fall_center, m(100.5e6));
}

#[test]
fn auto_scale_moves_a_twentieth_of_the_way() {
    let mut a = app();
    a.rescale(&[m(-80.0); 100]);
    assert_eq!(a.floor, m(-89.8));
    assert_eq!(a.ceil, m(-22.3));
    // Levels that are no number do not count.
    let before = (a.floor, a.ceil);
    a.rescale(&[Micro(i64::MIN), Micro(i64::MAX)]);
    assert_eq!((a.floor, a.ceil), before);
}

#[test]
fn a_fault_is_shown_until_the_next_connection() {
    let mut a = app();
    a.fail("usb gone".to_string());
    assert_eq!(a.err, Some("usb gone".to_string()));
    a.begin(vec![dongle()]);
    assert_eq!(a.err, None);
}

#[test]
fn a_picture_is_taken_with_two_channels() {
    let mut a = App::default();
    a.pose();
    assert_eq!(a.channels.len(), 2);
    assert_eq!(a.channels[0].freq, m(95.8e6));
    assert_eq!(a.channels[1].freq, m(95.35e6));
    a.pose();
    assert_eq!(a.channels.len(), 2);
}

#[test]
fn the_choices_are_as_they_were() {
    assert_eq!(ffts(), [512, 1024, 2048, 4096, 8192, 16384]);
    assert_eq!(history_rows(), [256, 512, 1024, 2048]);
    assert_eq!(refresh_rates(), [10, 20, 30, 60]);
    assert_eq!(speeds(), [5, 10, 20, 40, 80]);
}
