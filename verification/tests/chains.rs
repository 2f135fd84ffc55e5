//! Protocols, stages, chains and the channel bank.

use super_radio::common::Hz;
use super_radio::decode::bits::BitBuffer;
use super_radio::decode::oregon::{model_of, nibble_sum, OregonV3, MSG_BYTES};
use super_radio::decode::protocol::{
    Coding, DecodeError, Protocol, Protocols, Report, Value,
};
use super_radio::dsp::{Package, Pulse, PulseConfig};
use super_radio::fixed::Micro;
use super_radio::nodes::bank::{active_channels, outcome, transpose};
use super_radio::nodes::{
    build_chain, ook_chain, registry, ChannelBank, DecimateNode, DeemphasisNode, EnvelopeNode,
    Factory, FmDemodNode, Gating, MixerNode, NodeSpec, ProtocolDecodeNode, PulseDetectNode,
    RealDecimateNode, Stage,
};
use super_radio::pipeline::node::{only_input, unknown, Node, Simple};
use super_radio::pipeline::param::ParamRange;
use super_radio::pipeline::{
    Event, NodeCtx, Param, ParamValue, PortKind, PortSpec, Registry, Settings, SettingsExt,
    StageDesc, StageFactory, StreamSpec, Tag, TagValue,
};

fn m(v: f64) -> Micro {
    Micro((v * 1e6).round() as i64)
}

/// Build a frame the way the sensor sends it: preamble, sync, then the
/// payload with its nibbles reversed.
fn frame(id: u16, channel: u8, device: u8, temp_c: f64, humidity: u8, low: bool) -> BitBuffer {
    let mut msg = [0u8; MSG_BYTES];
    msg[0] = (id >> 8) as u8;
    msg[1] = id as u8;
    msg[2] = (channel << 4) | (device & 0x0f);
    msg[3] = (device & 0xf0) | if low { 0x04 } else { 0 };

    let t = (temp_c.abs() * 10.0).round() as u32;
    msg[4] = (((t % 10) as u8) << 4) | ((t / 10 % 10) as u8);
    msg[5] = (((t / 100 % 10) as u8) << 4)
        | if temp_c < 0.0 { 0x08 } else { 0 }
        | (t / 1000) as u8;
    msg[6] = ((humidity % 10) << 4) | (humidity / 10);

    let sum = nibble_sum(&msg);
    msg[7] = (msg[7] & 0xf0) | (sum & 0x0f);
    msg[8] = sum & 0xf0;

    let mut out = BitBuffer::new();
    for _ in 0..24 {
        out.push(true);
    }
    // The sync nibble, completing the 0xff 0xfa pattern the decoder looks
    // for: the preamble above supplies the leading ones.
    for bit in [true, false, true, false] {
        out.push(bit);
    }
    for b in msg {
        let wire = b.rotate_left(4);
        for i in 0..8 {
            out.push(wire & (0x80 >> i) != 0);
        }
    }
    out
}

fn decoded(b: &BitBuffer) -> Report {
    match OregonV3.decode(b) {
        Ok(r) => r,
        Err(e) => panic!("refused: {e:?}"),
    }
}

#[test]
fn decodes_a_thgr810_frame() {
    let r = decoded(&frame(0xf824, 1, 0x3a, 21.7, 48, false));
    assert_eq!(r.model, "Oregon-THGR810");
    assert_eq!(r.get("channel"), Some(&Value::Int(1)));
    assert_eq!(r.get("id"), Some(&Value::Int(0x3a)));
    assert_eq!(r.get("temperature_c"), Some(&Value::Float(m(21.7))));
    assert_eq!(r.get("humidity_pct"), Some(&Value::Int(48)));
    assert_eq!(r.get("battery_ok"), Some(&Value::Bool(true)));
    assert_eq!(r.crc_valid, Some(true));
}

#[test]
fn the_other_manchester_polarity_decodes_the_same() {
    // Which half of the symbol carries the bit depends on where the
    // slicer started, and both happen in practice.
    let f = frame(0xf824, 1, 0x3a, 21.7, 48, false);
    let a = decoded(&f);
    let b = decoded(&f.inverted());
    assert_eq!(a.fields, b.fields);
}

#[test]
fn a_frost_reading_carries_its_sign_bit() {
    let r = decoded(&frame(0xf824, 2, 0x3a, -6.3, 91, true));
    assert_eq!(r.get("temperature_c"), Some(&Value::Float(m(-6.3))));
    assert_eq!(r.get("battery_ok"), Some(&Value::Bool(false)));
}

#[test]
fn a_temperature_only_sensor_reports_no_humidity() {
    let r = decoded(&frame(0xc844, 1, 0x11, 19.0, 0, false));
    assert_eq!(r.model, "Oregon-THN802");
    assert!(r.get("humidity_pct").is_none());
}

#[test]
fn an_unknown_sensor_id_is_not_claimed() {
    // The checksum is eight bits over fifteen nibbles, so the id table is
    // doing most of the work of not claiming other people's frames.
    assert_eq!(
        OregonV3.decode(&frame(0x1234, 1, 0x3a, 21.7, 48, false)),
        Err(DecodeError::NotThisProtocol)
    );
}

#[test]
fn a_corrupt_frame_fails_its_checksum() {
    let f = frame(0xf824, 1, 0x3a, 21.7, 48, false);
    let mut broken = BitBuffer::new();
    for i in 0..f.len() {
        let bit = f.get(i) == Some(true);
        broken.push(if i == 60 { !bit } else { bit });
    }
    assert_eq!(OregonV3.decode(&broken), Err(DecodeError::CrcFailed));
}

#[test]
fn a_frame_that_is_cut_off_is_told_from_another() {
    let f = frame(0xf824, 1, 0x3a, 21.7, 48, false);
    let cut = f.slice(0, 70);
    assert!(matches!(OregonV3.decode(&cut), Err(DecodeError::WrongLength { .. })));
    assert_eq!(OregonV3.decode(&BitBuffer::new()), Err(DecodeError::NotThisProtocol));
}

#[test]
fn readings_that_cannot_be_are_refused() {
    assert!(matches!(
        OregonV3.decode(&frame(0xf824, 1, 0x3a, 99.9, 48, false)),
        Err(DecodeError::Implausible(_))
    ));
}

#[test]
fn a_report_is_one_line() {
    let r = decoded(&frame(0xf824, 1, 0x3a, 21.7, 48, false)).to_string();
    assert!(r.starts_with("Oregon-THGR810 "), "{r}");
    assert!(r.contains(" temperature_c=21.7"), "{r}");
    assert!(r.ends_with(" [CRC ok]"), "{r}");
    let plain = Report::new("x").with_int("a", -1).with_float("b", m(2.0)).with_bool("c", true);
    assert_eq!(plain.to_string(), "x a=-1 b=2 c=true");
    assert_eq!(Report { crc_valid: Some(false), ..Report::new("x") }.to_string(), "x [CRC failed]");
}

#[test]
fn sensors_are_known_by_their_number() {
    assert_eq!(model_of(0xf824), Some("Oregon-THGR810"));
    assert_eq!(model_of(0x0000), None);
    assert_eq!(nibble_sum(&[0xff; MSG_BYTES]), ((15 * 15) & 0xff) as u8);
    assert_eq!(OregonV3.timing().coding, Coding::Manchester);
    assert!(!OregonV3.name().is_empty());
}

#[test]
fn bits_are_found_cut_and_packed() {
    let mut b = BitBuffer::new();
    assert!(b.is_empty());
    for i in 0..12 {
        b.push(i % 3 == 0);
    }
    assert_eq!((b.len(), b.get(0), b.get(11), b.get(12)), (12, Some(true), Some(false), None));
    // 1001 0010 0100
    assert_eq!(b.as_bytes(), [0x92, 0x40]);
    assert_eq!(b.find(&[0x48], 6), Some(2));
    assert_eq!(b.find(&[0xf0], 4), None);
    assert_eq!(b.slice(3, 4).as_bytes(), [0x90]);
    assert_eq!(b.inverted().inverted().as_bytes(), b.as_bytes());
}

#[test]
fn protocols_say_what_they_make_of_bits() {
    let all = Protocols::all();
    assert_eq!((all.len(), Protocols::none().len()), (1, 0));
    assert_eq!(all.timing(0), OregonV3.timing());
    let r = all.diagnose(&[frame(0xf824, 1, 0x3a, 21.7, 48, false)]);
    assert_eq!(r.len(), 1);
}

const IN: &str = "envelope";

fn iq() -> StreamSpec {
    StreamSpec::iq(m(250_000.0), Hz::mhz(433))
}

fn port(spec: StreamSpec) -> PortSpec {
    PortSpec { spec, latency: 0 }
}

fn failure(specs: &[NodeSpec]) -> String {
    match build_chain(iq(), specs, &registry()) {
        Ok(_) => panic!("built"),
        Err(e) => e.to_string(),
    }
}

/// The chain for a recording that is already at baseband.
fn chain_specs() -> Vec<NodeSpec> {
    vec![
        NodeSpec::new(IN),
        NodeSpec::new("pulse_detect").f("reset_us", m(10_000.0)).i("min_pulses", 20),
        NodeSpec::new("protocol_decode"),
    ]
}

#[test]
fn the_graph_negotiates_rates_and_kinds_correctly() {
    let spec = StreamSpec::iq(m(250_000.0), Hz(433_920_000));
    let g = match build_chain(spec, &chain_specs(), &registry()) {
        Ok(g) => g,
        Err(e) => panic!("{}", e.to_string()),
    };
    assert_eq!(g.order(), vec!["envelope", "pulse_detect", "protocol_decode"]);
    assert_eq!(g.output_spec().kind, PortKind::Bytes);
}

#[test]
fn a_misordered_chain_fails_at_build_with_an_actionable_message() {
    // Pulse detection before the envelope: the classic mistake.
    let err = failure(&[NodeSpec::new("pulse_detect"), NodeSpec::new("envelope")]);
    assert!(err.contains("pulse_detect"), "{err}");
    assert!(err.contains("envelope"), "error should say how to fix it: {err}");
}

#[test]
fn an_unknown_node_type_lists_what_is_available() {
    let err = failure(&[NodeSpec::new("magic_decoder")]);
    assert!(err.contains("magic_decoder"), "{err}");
    assert!(err.contains("pulse_detect"), "should list known types: {err}");
}

#[test]
fn the_registry_describes_every_node_for_a_ui() {
    let r = registry();
    let names: Vec<&str> = r.list().iter().map(|d| d.name).collect();
    for want in ["mixer", "decimate", "envelope", "fm_demod", "pulse_detect", "protocol_decode"] {
        assert!(names.contains(&want), "registry is missing {want}: {names:?}");
    }
    // Categories let a UI group the palette without hard-coding node names.
    assert!(r.by_category("decode").len() >= 2);
    assert!(r.by_category("filter").len() >= 3);
    for d in r.list() {
        assert!(!d.summary.is_empty(), "{} has no summary", d.name);
    }
}

#[test]
fn every_node_exposes_its_parameters() {
    let r = registry();
    let mut seen = 0;
    for desc in r.list() {
        // Some nodes reject an IQ input; only check the ones that accept it.
        let Ok(g) = build_chain(iq(), &[NodeSpec::new(desc.name)], &r) else { continue };
        seen += 1;
        for p in g.stages[0].params() {
            assert!(!p.name.is_empty(), "{} has an unnamed parameter", desc.name);
            assert!(
                !p.display_label().is_empty(),
                "{} parameter {} has no label",
                desc.name,
                p.name
            );
        }
    }
    assert!(seen >= 3);
}

/// A burst of `n` pulses of a millisecond each way.
fn burst(n: usize) -> Package {
    let mut pulses = vec![Pulse { mark: 1000, gap: 1000 }; n];
    if let Some(p) = pulses.last_mut() {
        p.gap = 10_000;
    }
    Package { pulses, snr_db: m(20.0), start_sample: 500_000, rate: m(250_000.0) }
}

fn warnings(c: NodeCtx) -> Vec<(String, String)> {
    let (events, _) = c.finish();
    events
        .into_iter()
        .filter_map(|e| match e {
            Event::Warning { stage, message } => Some((stage, message)),
            _ => None,
        })
        .collect()
}

#[test]
fn an_unrecognised_burst_is_reported_rather_than_silently_dropped() {
    // A burst that cannot match anything should still be said to have been
    // seen. Silence is the worst possible output for an unknown signal.
    let node = ProtocolDecodeNode::all();
    let mut c = NodeCtx::new(0, vec![port(iq())], Vec::new());
    let mut out = Vec::new();
    node.process(&[burst(30)], &[vec![BitBuffer::new()]], &mut out, &mut c);
    assert!(out.is_empty(), "should not have decoded");
    let w = warnings(c);
    assert!(!w.is_empty(), "an unknown burst must be reported");
    assert_eq!(w[0].0, "protocol_decode");
}

#[test]
fn a_frame_is_reported_with_its_place() {
    let node = ProtocolDecodeNode::all();
    assert_eq!(node.protocols().len(), 1);
    let mut c = NodeCtx::new(0, vec![port(iq())], Vec::new());
    let mut out = Vec::new();
    let f = frame(0xf824, 1, 0x3a, 21.7, 48, false);
    node.process(&[burst(90)], &[vec![f]], &mut out, &mut c);
    let (events, _) = c.finish();
    assert_eq!(events.len(), 1);
    match &events[0] {
        Event::Decoded(d) => {
            // Two seconds into the stream.
            assert_eq!((d.center, d.at, d.crc_ok), (Hz::mhz(433), 2_000_000, Some(true)));
            assert_eq!(d.payload, out);
            assert!(d.text.as_deref().unwrap_or("").contains("temperature_c=21.7"));
        }
        e => panic!("{e:?}"),
    }
}

#[test]
fn a_failed_check_is_told_from_a_wrong_protocol() {
    let f = frame(0xf824, 1, 0x3a, 21.7, 48, false);
    let mut broken = BitBuffer::new();
    for i in 0..f.len() {
        broken.push((f.get(i) == Some(true)) != (i == 60));
    }
    let mut node = ProtocolDecodeNode::all();
    let run = |node: &ProtocolDecodeNode| {
        let mut c = NodeCtx::new(0, vec![port(iq())], Vec::new());
        node.process(&[burst(90)], &[vec![broken.slice(0, broken.len())]], &mut Vec::new(), &mut c);
        warnings(c)
    };
    let loud = run(&node);
    assert!(!loud.is_empty());
    assert!(node.set_param("report_crc_failures", ParamValue::Bool(false)).is_ok());
    assert_ne!(run(&node), loud);
    assert_eq!(node.params().len(), 2);
    let e = node.set_param("volume", ParamValue::Bool(true));
    assert_eq!(
        e.err().map(|e| e.to_string()),
        Some("protocol_decode: unknown parameter \"volume\"".to_string())
    );
}

/// Counts samples of one level into the detector of a stage.
fn key(node: &mut PulseDetectNode, runs: &[(bool, usize)]) -> Vec<Package> {
    let mut out = Vec::new();
    for (high, n) in runs {
        for _ in 0..*n {
            if let Some(p) = node.det.step(*high) {
                out.extend(node.det.judge(p, m(20.0)));
            }
        }
    }
    out
}

#[test]
fn a_mistuned_detector_says_what_it_discarded_and_which_knob_to_turn() {
    // A reset gap below the spacing of the symbols fragments one packet into
    // dozens of short ones, all filtered out by min_pulses. Reporting zero
    // events would be indistinguishable from a dead antenna.
    let cfg = PulseConfig { reset_us: 600, min_pulses: 20, ..PulseConfig::default() };
    let mut node = PulseDetectNode::new(cfg);
    assert!(node.negotiate(&port(iq().with_kind(PortKind::Real))).is_ok());
    let packet: Vec<(bool, usize)> = (0..60).map(|i| (i % 2 == 0, 250)).collect();
    let packages = key(&mut node, &packet);
    assert!(packages.is_empty());
    let mut c = NodeCtx::new(0, vec![port(iq())], Vec::new());
    node.process(&packages, &mut c);
    let w = warnings(c);
    assert_eq!(w.len(), 1, "a mistuned detector must not fail silently");
    let (stage, msg) = &w[0];
    assert_eq!(stage, "pulse_detect");
    assert!(msg.contains("discarded"), "{msg}");
    assert!(msg.contains("min_pulses") || msg.contains("reset_us"), "must name a knob: {msg}");
}

#[test]
fn retuning_a_parameter_at_runtime_changes_behaviour() {
    let cfg = PulseConfig { reset_us: 600, min_pulses: 20, ..PulseConfig::default() };
    let mut node = PulseDetectNode::new(cfg);
    assert!(node.negotiate(&port(iq().with_kind(PortKind::Real))).is_ok());
    let mut packet: Vec<(bool, usize)> = (0..60).map(|i| (i % 2 == 0, 250)).collect();
    packet.push((false, 2600));
    assert!(
        key(&mut node, &packet).is_empty(),
        "too short a reset gap should have fragmented the packet"
    );
    // Now fix it in place.
    assert!(node.set_param("reset_us", ParamValue::Float(m(10_000.0))).is_ok());
    assert!(node.negotiate(&port(iq().with_kind(PortKind::Real))).is_ok());
    node.reset();
    let p = key(&mut node, &packet);
    assert_eq!(p.len(), 1, "restoring the reset gap should decode again");
    assert_eq!(p[0].len(), 30);
    let mut c = NodeCtx::new(0, vec![port(iq())], Vec::new());
    node.process(&p, &mut c);
    let (events, tags) = c.finish();
    assert!(events.is_empty());
    assert_eq!(tags.len(), 1);
    assert_eq!((tags[0].key, tags[0].value), ("burst", TagValue::Float(m(20.0))));
}

#[test]
fn parameters_are_brought_into_range() {
    let mut n = PulseDetectNode::default_ook();
    assert!(n.set_param("min_pulses", ParamValue::Int(-4)).is_ok());
    assert!(n.set_param("hysteresis", ParamValue::Float(m(2.0))).is_ok());
    assert!(n.set_param("min_mark_us", ParamValue::Float(m(33.9))).is_ok());
    assert!(n.set_param("min_snr_db", ParamValue::Float(m(9.0))).is_ok());
    assert_eq!(n.cfg.min_pulses, 1);
    assert_eq!(n.cfg.hysteresis, m(0.9));
    assert_eq!(n.cfg.min_mark_us, 33);
    assert_eq!(n.cfg.min_snr_db, m(9.0));
    assert_eq!(n.params().len(), 5);
    assert!(n.set_param("colour", ParamValue::Int(1)).is_err());
    let mut d = DecimateNode::new(0);
    assert_eq!(d.factor, 1);
    assert!(d.set_param("factor", ParamValue::Int(-3)).is_ok());
    assert_eq!(d.factor, 1);
    assert!(d.set_param("passband", ParamValue::Float(m(3.0))).is_ok());
    assert_eq!(d.passband, m(0.99));
}

#[test]
fn stages_agree_on_what_comes_out() {
    let i = port(iq());
    let real = port(iq().with_kind(PortKind::Real));
    let ok = |r: Result<StreamSpec, super_radio::common::Error>| match r {
        Ok(s) => s,
        Err(e) => panic!("{}", e.to_string()),
    };
    let no = |r: Result<StreamSpec, super_radio::common::Error>| match r {
        Ok(s) => panic!("{s:?}"),
        Err(e) => e.to_string(),
    };
    assert_eq!(ok(MixerNode::new(m(-2_000_000.9)).negotiate(&i)).center, Hz(435_000_000));
    assert_eq!(no(MixerNode::new(m(0.0)).negotiate(&real)), "mixer needs an IQ input");
    assert_eq!(ok(DecimateNode::new(5).negotiate(&i)).rate, m(50_000.0));
    assert_eq!(ok(EnvelopeNode.negotiate(&i)).kind, PortKind::Real);
    assert_eq!(ok(FmDemodNode::wide().negotiate(&i)).kind, PortKind::Real);
    assert_eq!(ok(DeemphasisNode::new(m(50.0)).negotiate(&real)).rate, m(250_000.0));
    assert_eq!(ok(RealDecimateNode::new(2).negotiate(&real)).rate, m(125_000.0));
    let mut p = PulseDetectNode::default_ook();
    assert_eq!(ok(p.negotiate(&real)).kind, PortKind::Pulses);
    assert!(no(p.negotiate(&i)).contains("envelope"));
    let pulses = port(iq().with_kind(PortKind::Pulses));
    assert_eq!(ok(ProtocolDecodeNode::all().negotiate(&pulses)).kind, PortKind::Bytes);
    assert!(no(ProtocolDecodeNode::all().negotiate(&i)).contains("pulse_detect"));
    assert_eq!(
        [FmDemodNode::wide().deviation_hz, FmDemodNode::narrow().deviation_hz],
        [m(75_000.0), m(5_000.0)]
    );
}

#[test]
fn a_parameter_of_a_running_graph_can_be_set() {
    let mut g = match build_chain(iq(), &ook_chain(m(10.0), 2, 8_000), &registry()) {
        Ok(g) => g,
        Err(e) => panic!("{}", e.to_string()),
    };
    assert_eq!(g.stages.len(), 5);
    assert_eq!(g.specs[1].rate, m(125_000.0));
    assert!(g.set_param(1, "factor", ParamValue::Int(10)).is_ok());
    assert!(g.negotiate().is_ok());
    assert_eq!(g.specs[1].rate, m(25_000.0));
    assert!(g.set_param(0, "factor", ParamValue::Int(10)).is_err());
    assert!(g.set_param(0, "shift_hz", ParamValue::Str("x".into())).is_err());
    g.reset();
    match &g.stages[3] {
        Stage::PulseDetect(n) => assert_eq!((n.cfg.reset_us, n.cfg.min_pulses), (8_000, 20)),
        _ => panic!("not a detector"),
    }
}

#[test]
fn a_registry_keeps_its_names_in_order() {
    let mut r = Registry::new();
    let d = |name| StageDesc { name, summary: "s", category: "filter" };
    r.register(d("b"), Factory::FmDemod);
    r.register(d("a"), Factory::Mixer);
    assert_eq!(r.list().iter().map(|d| d.name).collect::<Vec<_>>(), ["a", "b"]);
    assert!(r.contains("a") && !r.contains("c"));
    let s = Settings::new();
    assert_eq!(r.build("b", &s).map(|s| s.name()).ok(), Some("fm_demod"));
    assert_eq!(
        r.build("c\n", &s).err().map(|e| e.to_string()),
        Some("no stage registered as \"c\\n\"".to_string())
    );
}

#[test]
fn settings_fall_back() {
    let mut s = Settings::new();
    s.insert("gain", ParamValue::Int(3));
    s.insert("on", ParamValue::Bool(true));
    s.insert("name", ParamValue::Str("x".into()));
    s.insert("gain", ParamValue::Float(m(4.5)));
    assert_eq!(s.len(), 3);
    assert_eq!(s.f64_or("gain", m(0.0)), m(4.5));
    assert_eq!(s.i64_or("gain", 0), 4);
    assert_eq!(s.f64_or("on", m(7.0)), m(7.0));
    assert!(s.bool_or("on", false) && s.bool_or("off", true));
    assert_eq!((s.str_or("name", "y"), s.str_or("nom", "y")), ("x", "y"));
    assert!(s.get("nothing").is_none());
}

#[test]
fn parameters_describe_themselves() {
    let p = Param::float("f", m(1.0), m(0.0), m(2.0)).unit("Hz").log();
    assert_eq!((p.display_label(), p.unit, p.log), ("f", "Hz", true));
    assert_eq!(p.range, ParamRange::Float(m(0.0), m(2.0)));
    let q = Param::integer("n", 1, 0, 2).label("Number").affects_rate();
    assert_eq!((q.display_label(), q.affects_rate), ("Number", true));
    assert_eq!(Param::switch("s", true).value.copy(), ParamValue::Bool(true));
    assert_eq!(ParamValue::Str("t".into()).as_str(), Some("t"));
    assert_eq!(ParamValue::Int(2).as_f64(), Some(m(2.0)));
}

/// Passes what it is given on.
struct Through;

impl Simple<Vec<u8>> for Through {
    fn name(&self) -> &'static str {
        "through"
    }

    fn negotiate(
        &mut self,
        input: &PortSpec,
    ) -> Result<StreamSpec, super_radio::common::Error> {
        Ok(input.spec)
    }

    fn process(
        &mut self,
        input: &Vec<u8>,
        output: &mut Vec<u8>,
        ctx: &mut NodeCtx,
    ) -> Result<(), super_radio::common::Error> {
        output.extend(input);
        ctx.tag(Tag::new(ctx.sample_index, "seen", TagValue::Int(1)));
        Ok(())
    }
}

#[test]
fn a_simple_stage_is_a_stage() {
    let mut n = Through;
    let r = Node::<Vec<u8>>::negotiate(&mut n, &[port(iq())]);
    assert_eq!(r.ok(), Some(vec![iq()]));
    let none = Node::<Vec<u8>>::negotiate(&mut n, &[]);
    assert_eq!(none.err().map(|e| e.to_string()), Some("through: needs one input".to_string()));
    let mut c = NodeCtx::new(500_000, vec![port(iq())], Vec::new());
    assert_eq!(c.timestamp(), 2_000_000);
    let mut out = vec![Vec::new(), vec![9]];
    assert!(Node::process(&mut n, &[&vec![1, 2], &vec![3]], &mut out, &mut c).is_ok());
    assert_eq!(out, [vec![1, 2], vec![9]]);
    assert_eq!(c.finish().1, vec![Tag::new(500_000, "seen", TagValue::Int(1))]);
    let e = Node::<Vec<u8>>::set_param(&mut n, "a \"b\"", ParamValue::Int(1));
    assert_eq!(
        e.err().map(|e| e.to_string()),
        Some("through: unknown parameter \"a \\\"b\\\"\"".to_string())
    );
    assert_eq!(unknown("s", "p").to_string(), "s: unknown parameter \"p\"");
    assert!(only_input("s", &[]).is_err());
}

#[test]
fn a_call_has_a_time_at_every_rate() {
    let at = |rate: f64, n: u64| {
        let spec = iq().with_rate(m(rate));
        NodeCtx::new(n, vec![port(spec)], Vec::new()).timestamp()
    };
    assert_eq!(at(4.0, 3), 750_000);
    assert_eq!(at(-4.0, 3), -750_000);
    assert_eq!((at(0.0, 3), at(0.0, 0)), (i128::MAX, 0));
    assert_eq!(NodeCtx::new(3, Vec::new(), Vec::new()).timestamp(), 3_000_000);
}

/// Adds its two inputs up into one output and hands the second on.
struct Merge;

impl Node<Vec<u8>> for Merge {
    fn name(&self) -> &'static str {
        "merge"
    }

    fn num_inputs(&self) -> usize {
        2
    }

    fn num_outputs(&self) -> usize {
        2
    }

    fn negotiate(
        &mut self,
        inputs: &[PortSpec],
    ) -> Result<Vec<StreamSpec>, super_radio::common::Error> {
        Ok(inputs.iter().map(|p| p.spec).collect())
    }

    fn process(
        &mut self,
        inputs: &[&Vec<u8>],
        outputs: &mut [Vec<u8>],
        _ctx: &mut NodeCtx,
    ) -> Result<(), super_radio::common::Error> {
        outputs[0] = inputs[0].iter().zip(inputs[1]).map(|(a, b)| a + b).collect();
        outputs[1] = inputs[1].clone();
        Ok(())
    }
}

#[test]
fn a_node_can_have_several_ports() {
    let mut n = Merge;
    let mut c = NodeCtx::new(0, Vec::new(), Vec::new());
    let mut out = vec![Vec::new(), Vec::new()];
    assert!(n.process(&[&vec![1, 2], &vec![10, 20]], &mut out, &mut c).is_ok());
    assert_eq!(out, [vec![11, 22], vec![10, 20]]);
    assert_eq!((n.num_inputs(), n.num_outputs(), n.latency(1)), (2, 2, 0));
    assert_eq!(n.negotiate(&[port(iq()), port(iq())]).map(|v| v.len()).ok(), Some(2));
}

/// A stage of another kind, which says what it was built from.
struct Louder;

impl StageFactory for Louder {
    type Stage = i64;

    fn build_stage(&self, s: &Settings) -> Result<i64, super_radio::common::Error> {
        match s.i64_or("by", 1) {
            n if n > 0 => Ok(n),
            _ => Err(super_radio::common::Error::other("by must be positive".to_string())),
        }
    }
}

#[test]
fn stages_of_any_kind_can_be_registered() {
    let mut r: Registry<Louder> = Registry::default();
    r.register(StageDesc { name: "louder", summary: "s", category: "filter" }, Louder);
    let mut s = Settings::new();
    assert_eq!(r.build("louder", &s).ok(), Some(1));
    s.insert("by", ParamValue::Int(7));
    assert_eq!(r.build("louder", &s).ok(), Some(7));
    s.insert("by", ParamValue::Int(-7));
    assert_eq!(
        r.build("louder", &s).err().map(|e| e.to_string()),
        Some("by must be positive".to_string())
    );
    assert!(r.build("quieter", &s).is_err());
}

#[test]
fn descriptions_and_events_can_be_copied() {
    let spec = NodeSpec::new("mixer").f("shift_hz", m(5.0)).b("on", true);
    let copy = spec.clone();
    assert_eq!((copy.kind.as_str(), copy.settings.len()), ("mixer", 2));
    assert_eq!(copy.settings.f64_or("shift_hz", m(0.0)), m(5.0));
    assert_eq!((NodeSpec::default().kind.len(), NodeSpec::default().settings.len()), (0, 0));
    let b = small();
    let e = Event::Warning { stage: "s".into(), message: "w".into() };
    let x = b.collect(vec![(2, vec![e.clone()])]);
    assert_eq!(x[0].clone(), x[0]);
    assert_eq!(e.clone(), e);
}

#[test]
fn a_large_integer_is_not_cut_down() {
    let mut n = PulseDetectNode::default_ook();
    assert!(n.set_param("min_pulses", ParamValue::Int(10_000_000_000_000)).is_ok());
    assert_eq!(n.cfg.min_pulses, 10_000_000_000_000);
    assert!(n.set_param("reset_us", ParamValue::Float(m(8000.9))).is_ok());
    assert_eq!(n.cfg.reset_us, 8000);
}

#[test]
fn a_centre_beyond_the_greatest_wraps_round() {
    let spec = StreamSpec { center: Hz(u64::MAX), ..iq() };
    let r = MixerNode::new(m(-30e6)).negotiate(&port(spec));
    assert_eq!(r.map(|s| s.center).ok(), Some(Hz(29_999_999)));
    assert_eq!(DecimateNode::new(10).latency(101), 5);
}

#[test]
fn stages_keep_what_was_set_when_a_graph_negotiates() {
    let specs = ook_chain(m(0.0), 5, 8_000);
    let mut g = match build_chain(iq(), &specs, &registry()) {
        Ok(g) => g,
        Err(e) => panic!("{}", e.to_string()),
    };
    assert!(g.set_param(1, "passband", ParamValue::Float(m(0.7))).is_ok());
    assert!(g.set_param(3, "min_pulses", ParamValue::Int(9)).is_ok());
    assert!(g.negotiate().is_ok());
    match (&g.stages[1], &g.stages[3]) {
        (Stage::Decimate(d), Stage::PulseDetect(n)) => {
            assert_eq!((d.passband, n.cfg.min_pulses), (m(0.7), 9));
            assert_eq!(n.det.rate(), g.specs[2].rate);
        }
        _ => panic!("other stages"),
    }
}

#[test]
fn delays_are_counted_at_the_rate_of_each_port() {
    let specs = vec![
        NodeSpec::new("decimate").i("factor", 5),
        NodeSpec::new("decimate").i("factor", 2),
        NodeSpec::new("envelope"),
        NodeSpec::new("pulse_detect"),
    ];
    let g = match build_chain(iq(), &specs, &registry()) {
        Ok(g) => g,
        Err(e) => panic!("{}", e.to_string()),
    };
    let ports = g.ports(&[101, 41, 0, 0]);
    // Ten samples of the first rate are five of the next, whose filter adds ten.
    let told: Vec<u64> = ports.iter().map(|p| p.latency).collect();
    assert_eq!(told, vec![0, 10, 15, 15, 0]);
    assert_eq!(ports[0].spec, iq());
    assert_eq!(ports[2].spec.rate, m(25_000.0));
    assert_eq!(ports[4].spec, g.output_spec());
    assert_eq!(g.stages[0].latency(101), 10);
    // Half a sample counts as one, and the longest filters still fit.
    let most = g.ports(&[u64::MAX, u64::MAX, 0, 0]);
    assert_eq!(most[1].latency, u64::MAX / 10);
    assert_eq!(most[2].latency, 5_534_023_222_112_865_484);
}

#[test]
fn ids_outside_the_second_nibble_are_not_known() {
    assert_eq!(model_of(0xfa24), Some("Oregon-THGR810"));
    assert_eq!(model_of(0xf8b4), None);
}

#[test]
fn a_chain_that_no_channel_can_have_changes_none() {
    let mut b = small();
    assert!(b.set_all_chains(&chain_specs(), &registry()).is_ok());
    let bad = vec![NodeSpec::new("pulse_detect")];
    let err = b.set_all_chains(&bad, &registry()).err().map(|e| e.to_string());
    assert!(err.unwrap_or_default().contains("channel 0"));
    assert_eq!(b.active_chains(), 8);
    assert_eq!(b.graph(0).map(|g| g.stages.len()), b.graph(7).map(|g| g.stages.len()));
}

fn small() -> ChannelBank<u8> {
    ChannelBank::new(8, 8, m(250_000.0), Hz::mhz(433), 0u8)
}

#[test]
fn channel_centres_and_lookup_are_inverses() {
    let b = ChannelBank::new(64, 8, m(2_400_000.0), Hz::mhz(433), 0u8);
    for c in 0..64 {
        assert_eq!(b.channel_for(b.channel_center(c)), c);
    }
}

#[test]
fn channel_rate_is_twice_the_spacing() {
    let b = ChannelBank::new(16, 8, m(250_000.0), Hz::mhz(433), 0u8);
    assert_eq!(b.channel_bandwidth(), m(250_000.0 / 16.0));
    assert_eq!(b.channel_rate(), m(2.0 * 250_000.0 / 16.0));
}

#[test]
fn a_bad_chain_names_the_channel() {
    let mut b = small();
    let bad = vec![NodeSpec::new("pulse_detect")];
    let err = match b.set_chain(3, &bad, &registry()) {
        Ok(()) => panic!("accepted"),
        Err(e) => e.to_string(),
    };
    assert!(err.contains("channel 3"), "{err}");
}

#[test]
fn channels_out_of_range_are_rejected() {
    let mut b = small();
    assert!(b.set_chain(99, &[], &registry()).is_err());
}

#[test]
fn only_open_channels_run_when_gated() {
    let mut b = small();
    assert!(b.set_chain(2, &chain_specs(), &registry()).is_ok());
    assert!(b.set_chain(5, &chain_specs(), &registry()).is_ok());
    assert_eq!(b.active_chains(), 2);
    let open = [false, true, false, false, false, true, false, false];
    assert_eq!(b.plan(&open), [2, 5]);
    b.set_gating(Gating::OnDetection);
    assert_eq!(b.plan(&open), [5]);
    b.clear_chain(5);
    assert!(b.plan(&open).is_empty());
    assert!(b.graph(2).is_some() && b.graph(5).is_none() && b.graph(50).is_none());
    assert!(b.set_all_chains(&chain_specs(), &registry()).is_ok());
    assert_eq!(b.active_chains(), 8);
    b.reset();
    assert_eq!(b.active_chains(), 8);
}

#[test]
fn events_come_in_channel_order_whoever_finished_first() {
    let b = small();
    let e = |name| Event::Metric { name, value: m(1.0) };
    let x = b.collect(vec![(6, vec![e("a")]), (1, vec![e("b"), e("c")])]);
    let y = b.collect(vec![(1, vec![e("b"), e("c")]), (6, vec![e("a")])]);
    assert_eq!(x, y);
    assert_eq!(x.iter().map(|e| e.channel).collect::<Vec<_>>(), [1, 1, 6]);
    assert_eq!(x[0].event, e("b"));
    assert_eq!(x[2].center, b.channel_center(6));
    assert_eq!(b.channel_spec(6).center, b.channel_center(6));
}

#[test]
fn a_chain_that_fails_is_reported_with_its_channel() {
    assert!(outcome(3, Ok(Vec::new())).is_none());
    let e = || Event::Metric { name: "a", value: m(1.0) };
    assert_eq!(outcome(3, Ok(vec![e()])), Some((3, vec![e()])));
    let failed = outcome(3, Err(super_radio::common::Error::other("broken".to_string())));
    assert_eq!(
        failed,
        Some((
            3,
            vec![Event::Warning { stage: "channel 3".into(), message: "broken".into() }]
        ))
    );
    assert_eq!(active_channels(&[true, false, true]), [0, 2]);
}

#[test]
fn the_chain_of_a_channel_can_be_changed() {
    let mut b = small();
    assert!(b.set_chain(2, &chain_specs(), &registry()).is_ok());
    match b.graph_mut(2) {
        Some(g) => {
            assert!(g.set_param(1, "min_pulses", ParamValue::Int(7)).is_ok());
        }
        None => panic!("no chain"),
    }
    assert!(b.graph_mut(3).is_none() && b.graph_mut(99).is_none());
    match b.graph(2).map(|g| &g.stages[1]) {
        Some(Stage::PulseDetect(n)) => assert_eq!(n.cfg.min_pulses, 7),
        _ => panic!("not a detector"),
    }
}

#[test]
fn frames_are_turned_into_runs() {
    let frames: Vec<u32> = (0..70 * 3).collect();
    let lanes = transpose(&frames, 3, 70);
    assert_eq!(lanes.len(), 3);
    for (c, lane) in lanes.iter().enumerate() {
        assert_eq!(*lane, (0..70).map(|f| f * 3 + c as u32).collect::<Vec<_>>());
    }
}
