//! Any stage of a chain, and what it is built from.

use vstd::prelude::*;
use crate::common::Error;
use crate::dsp::ook::PulseConfig;
#[allow(unused_imports)]
use crate::dsp::ook::{fresh, Ook};
use crate::fixed::Micro;
#[allow(unused_imports)]
use crate::fixed::{clamp_spec, trunc_spec};
#[allow(unused_imports)]
use crate::decode::protocol::Family;
#[allow(unused_imports)]
use crate::nodes::decode_nodes::{
    config_set, protocol_decode_agreed, protocol_decode_params, pulse_detect_agreed,
    pulse_detect_params, truth_or_true, whole_within, Reporting,
};
use crate::nodes::decode_nodes::{ProtocolDecodeNode, PulseDetectNode};
#[allow(unused_imports)]
use crate::nodes::dsp_nodes::{
    agreed, decimate_agreed, decimate_params, decimate_set, deemphasis_agreed, deemphasis_params,
    deemphasis_set, envelope_agreed, factor_param, fm_demod_agreed, fm_demod_params, fm_demod_set,
    mixer_agreed, mixer_params, mixer_set, real_decimate_agreed, real_decimate_set, settled,
};
use crate::nodes::dsp_nodes::{
    DecimateNode, DeemphasisNode, EnvelopeNode, FmDemodNode, MixerNode, RealDecimateNode,
};
use crate::pipeline::node::PortSpec;
#[allow(unused_imports)]
use crate::pipeline::node::unknown_parameter;
use crate::pipeline::param::{Param, ParamValue};
#[allow(unused_imports)]
use crate::pipeline::param::{params_view, ParamView, ValueView};
#[allow(unused_imports)]
use crate::pipeline::port::PortKind;
use crate::pipeline::port::StreamSpec;
use crate::pipeline::settings::{Settings, SettingsExt};
#[allow(unused_imports)]
use crate::pipeline::settings::{integer_or, number_or};

verus! {

/// One stage of a chain.
pub enum Stage {
    Mixer(MixerNode),
    Decimate(DecimateNode),
    RealDecimate(RealDecimateNode),
    Envelope(EnvelopeNode),
    FmDemod(FmDemodNode),
    Deemphasis(DeemphasisNode),
    PulseDetect(PulseDetectNode),
    ProtocolDecode(ProtocolDecodeNode),
}

/// The kinds of stage there are.
#[derive(Clone, Copy, Debug, PartialEq, Eq, Structural)]
pub enum Factory {
    Mixer,
    Decimate,
    RealDecimate,
    Envelope,
    FmDemod,
    Deemphasis,
    PulseDetect,
    ProtocolDecode,
}

/// The kind of a stage.
pub open spec fn kind_of(s: Stage) -> Factory {
    match s {
        Stage::Mixer(_) => Factory::Mixer,
        Stage::Decimate(_) => Factory::Decimate,
        Stage::RealDecimate(_) => Factory::RealDecimate,
        Stage::Envelope(_) => Factory::Envelope,
        Stage::FmDemod(_) => Factory::FmDemod,
        Stage::Deemphasis(_) => Factory::Deemphasis,
        Stage::PulseDetect(_) => Factory::PulseDetect,
        Stage::ProtocolDecode(_) => Factory::ProtocolDecode,
    }
}

/// The name that a kind of stage goes by.
pub open spec fn kind_name(f: Factory) -> Seq<char> {
    match f {
        Factory::Mixer => "mixer"@,
        Factory::Decimate => "decimate"@,
        Factory::RealDecimate => "real_decimate"@,
        Factory::Envelope => "envelope"@,
        Factory::FmDemod => "fm_demod"@,
        Factory::Deemphasis => "deemphasis"@,
        Factory::PulseDetect => "pulse_detect"@,
        Factory::ProtocolDecode => "protocol_decode"@,
    }
}

/// What a stage makes of its input.
pub open spec fn stage_agreed(s: Stage, i: PortSpec) -> Result<StreamSpec, Seq<char>> {
    match s {
        Stage::Mixer(n) => mixer_agreed(n, i),
        Stage::Decimate(n) => decimate_agreed(n, i),
        Stage::RealDecimate(n) => real_decimate_agreed(n, i),
        Stage::Envelope(_) => envelope_agreed(i),
        Stage::FmDemod(_) => fm_demod_agreed(i),
        Stage::Deemphasis(_) => deemphasis_agreed(i),
        Stage::PulseDetect(_) => pulse_detect_agreed(i),
        Stage::ProtocolDecode(_) => protocol_decode_agreed(i),
    }
}

/// Delay that a stage with a filter of so many taps adds, in output samples.
/// Only a decimator counts its own.
pub open spec fn stage_latency(s: Stage, taps: nat) -> nat {
    match s {
        Stage::Decimate(n) => taps / (2 * n.factor as nat),
        _ => 0,
    }
}

/// The parameters of a stage.
pub open spec fn stage_params(s: Stage) -> Seq<ParamView> {
    match s {
        Stage::Mixer(n) => mixer_params(n),
        Stage::Decimate(n) => decimate_params(n),
        Stage::RealDecimate(n) => seq![factor_param(n.factor as int)],
        Stage::Envelope(_) => Seq::empty(),
        Stage::FmDemod(n) => fm_demod_params(n),
        Stage::Deemphasis(n) => deemphasis_params(n),
        Stage::PulseDetect(n) => pulse_detect_params(n.cfg),
        Stage::ProtocolDecode(n) => protocol_decode_params(n.reporting()),
    }
}

/// Whether `t` is `s` with a parameter set, and `r` what came of it.
pub open spec fn stage_set(
    s: Stage,
    name: Seq<char>,
    v: ValueView,
    t: Stage,
    r: Result<(), Seq<char>>,
) -> bool {
    match s {
        Stage::Mixer(n) => t matches Stage::Mixer(m) && (m, r) == mixer_set(n, name, v),
        Stage::Decimate(n) => t matches Stage::Decimate(m) && (m, r) == decimate_set(n, name, v),
        Stage::RealDecimate(n) => t matches Stage::RealDecimate(m) && (m, r)
            == real_decimate_set(n, name, v),
        Stage::Envelope(_) => t is Envelope && r == Err::<(), Seq<char>>(
            unknown_parameter("envelope"@, name),
        ),
        Stage::FmDemod(n) => t matches Stage::FmDemod(m) && (m, r) == fm_demod_set(n, name, v),
        Stage::Deemphasis(n) => t matches Stage::Deemphasis(m) && (m, r) == deemphasis_set(
            n,
            name,
            v,
        ),
        Stage::PulseDetect(n) => {
            &&& t matches Stage::PulseDetect(m)
            &&& match config_set(n.cfg, name, v) {
                Some(cfg) => {
                    &&& r == Ok::<(), Seq<char>>(())
                    &&& m.cfg == cfg
                    &&& m.is_fresh(n.det.rate_view())
                },
                None => {
                    &&& r == Err::<(), Seq<char>>(unknown_parameter("pulse_detect"@, name))
                    &&& m == n
                },
            }
        },
        Stage::ProtocolDecode(n) => {
            &&& t matches Stage::ProtocolDecode(m)
            &&& m.families() == n.families()
            &&& if name == "report_all"@ {
                &&& r == Ok::<(), Seq<char>>(())
                &&& m.reporting() == (Reporting { all: truth_or_true(v), ..n.reporting() })
            } else if name == "report_crc_failures"@ {
                &&& r == Ok::<(), Seq<char>>(())
                &&& m.reporting() == (Reporting {
                    crc_failures: truth_or_true(v),
                    ..n.reporting()
                })
            } else {
                &&& r == Err::<(), Seq<char>>(unknown_parameter("protocol_decode"@, name))
                &&& m == n
            }
        },
    }
}

/// The detector configuration that settings ask for.
pub open spec fn asked_config(m: Map<Seq<char>, ValueView>) -> PulseConfig {
    PulseConfig {
        reset_us: whole_within(number_or(m, "reset_us"@, 4_000_000_000), 0, u32::MAX as int) as u32,
        min_mark_us: whole_within(
            number_or(m, "min_mark_us"@, 100_000_000),
            0,
            u32::MAX as int,
        ) as u32,
        min_pulses: clamp_spec(integer_or(m, "min_pulses"@, 4), 1, usize::MAX as int) as usize,
        hysteresis: Micro(number_or(m, "hysteresis"@, 200_000) as i64),
        tau_us: Micro(number_or(m, "tau_us"@, 500_000_000) as i64),
        min_snr_db: Micro(number_or(m, "min_snr_db"@, 6_000_000) as i64),
    }
}

/// The decimation factor that settings ask for.
pub open spec fn asked(m: Map<Seq<char>, ValueView>) -> int {
    clamp_spec(integer_or(m, "factor"@, 1), 1, i64::MAX as int)
}

/// Whether a stage is what settings ask for.
pub open spec fn made(f: Factory, m: Map<Seq<char>, ValueView>, s: Stage) -> bool {
    &&& kind_of(s) == f
    &&& match s {
        Stage::Mixer(n) => n.shift_hz@ == number_or(m, "shift_hz"@, 0),
        Stage::Decimate(n) => n == (DecimateNode {
            factor: asked(m) as u64,
            passband: Micro(900_000),
            atten_db: Micro(80_000_000),
        }),
        Stage::RealDecimate(n) => n.factor == asked(m),
        Stage::Envelope(_) => true,
        Stage::FmDemod(n) => n.deviation_hz@ == number_or(m, "deviation_hz"@, 75_000_000_000),
        Stage::Deemphasis(n) => n.tau_us@ == number_or(m, "tau_us"@, 50_000_000),
        Stage::PulseDetect(n) => n.cfg == asked_config(m) && n.is_fresh(1_000_000),
        Stage::ProtocolDecode(n) => n.families() == seq![Family::OregonV3] && n.reporting() == (
        Reporting { all: true, crc_failures: true }),
    }
}

/// A whole number of at most `high`, cut from a setting.
fn whole_of(x: Micro, high: u32) -> (r: u32)
    ensures
        r == whole_within(x@, 0, high as int),
{
    let n: i64 = x.trunc();
    if n < 0 {
        0
    } else if n > high as i64 {
        high
    } else {
        n as u32
    }
}

fn factor_in(s: &Settings) -> (r: u64)
    requires
        s.wf(),
    ensures
        r == asked(s@),
        1 <= r <= i64::MAX,
{
    let n: i64 = s.i64_or("factor", 1);
    if n < 1 {
        1
    } else {
        n as u64
    }
}

impl Factory {
    /// Builds a stage of this kind from settings.
    pub fn build(self, s: &Settings) -> (r: Stage)
        requires
            s.wf(),
        ensures
            r.wf(),
            made(self, s@, r),
    {
        match self {
            Factory::Mixer => Stage::Mixer(MixerNode::new(s.f64_or("shift_hz", Micro(0)))),
            Factory::Decimate => Stage::Decimate(DecimateNode::new(factor_in(s))),
            Factory::RealDecimate => Stage::RealDecimate(RealDecimateNode::new(factor_in(s))),
            Factory::Envelope => Stage::Envelope(EnvelopeNode),
            Factory::FmDemod => Stage::FmDemod(
                FmDemodNode::new(s.f64_or("deviation_hz", Micro(75_000_000_000))),
            ),
            Factory::Deemphasis => Stage::Deemphasis(
                DeemphasisNode::new(s.f64_or("tau_us", Micro(50_000_000))),
            ),
            Factory::PulseDetect => {
                let d: PulseConfig = PulseConfig::default();
                let pulses: i64 = s.i64_or("min_pulses", d.min_pulses as i64);
                let cfg: PulseConfig = PulseConfig {
                    reset_us: whole_of(
                        s.f64_or("reset_us", Micro::whole(d.reset_us as i64)),
                        u32::MAX,
                    ),
                    min_mark_us: whole_of(
                        s.f64_or("min_mark_us", Micro::whole(d.min_mark_us as i64)),
                        u32::MAX,
                    ),
                    min_pulses: if pulses < 1 {
                        1
                    } else if pulses as u64 > usize::MAX as u64 {
                        usize::MAX
                    } else {
                        pulses as usize
                    },
                    hysteresis: s.f64_or("hysteresis", d.hysteresis),
                    tau_us: s.f64_or("tau_us", d.tau_us),
                    min_snr_db: s.f64_or("min_snr_db", d.min_snr_db),
                };
                Stage::PulseDetect(PulseDetectNode::new(cfg))
            },
            Factory::ProtocolDecode => Stage::ProtocolDecode(ProtocolDecodeNode::all()),
        }
    }
}

/// Whether a stage is another without its history. Only a pulse detector has
/// any; its counts go on.
pub open spec fn stage_emptied(before: Stage, after: Stage) -> bool {
    match before {
        Stage::PulseDetect(n) => {
            &&& after matches Stage::PulseDetect(m)
            &&& m.cfg == n.cfg
            &&& m.det@ == (Ook {
                sample: n.det@.sample,
                too_few: n.det@.too_few,
                ..fresh()
            })
            &&& m.det.low_snr() == n.det.low_snr()
            &&& m.det.rate_view() == n.det.rate_view()
        },
        _ => after == before,
    }
}

impl Stage {
    pub open spec fn wf(&self) -> bool {
        match *self {
            Stage::Decimate(n) => n.wf(),
            Stage::RealDecimate(n) => n.wf(),
            Stage::PulseDetect(n) => n.wf(),
            _ => true,
        }
    }

    pub fn name(&self) -> (r: &'static str)
        ensures
            r@ == kind_name(kind_of(*self)),
    {
        match self {
            Stage::Mixer(n) => n.name(),
            Stage::Decimate(n) => n.name(),
            Stage::RealDecimate(n) => n.name(),
            Stage::Envelope(n) => n.name(),
            Stage::FmDemod(n) => n.name(),
            Stage::Deemphasis(n) => n.name(),
            Stage::PulseDetect(n) => n.name(),
            Stage::ProtocolDecode(n) => n.name(),
        }
    }

    /// Delay that this stage adds, in output samples, with a filter of so many
    /// taps.
    pub fn latency(&self, taps: u64) -> (r: u64)
        requires
            self.wf(),
        ensures
            r == stage_latency(*self, taps as nat),
    {
        match self {
            Stage::Decimate(n) => n.latency(taps),
            _ => 0,
        }
    }

    /// Checks the input and says what comes out. Only a pulse detector changes:
    /// it starts again at its new rate.
    pub fn negotiate(&mut self, i: &PortSpec) -> (r: Result<StreamSpec, Error>)
        requires
            old(self).wf(),
        ensures
            final(self).wf(),
            agreed(r) == stage_agreed(*old(self), *i),
            match *old(self) {
                Stage::PulseDetect(n) => {
                    &&& *final(self) matches Stage::PulseDetect(m)
                    &&& m.cfg == n.cfg
                    &&& r is Ok ==> m.is_fresh(i.spec.rate@)
                    &&& r is Err ==> m == n
                },
                _ => *final(self) == *old(self),
            },
    {
        match self {
            Stage::Mixer(n) => n.negotiate(i),
            Stage::Decimate(n) => n.negotiate(i),
            Stage::RealDecimate(n) => n.negotiate(i),
            Stage::Envelope(n) => n.negotiate(i),
            Stage::FmDemod(n) => n.negotiate(i),
            Stage::Deemphasis(n) => n.negotiate(i),
            Stage::PulseDetect(n) => n.negotiate(i),
            Stage::ProtocolDecode(n) => n.negotiate(i),
        }
    }

    pub fn params(&self) -> (r: Vec<Param>)
        requires
            self.wf(),
        ensures
            params_view(r@) == stage_params(*self),
    {
        match self {
            Stage::Mixer(n) => n.params(),
            Stage::Decimate(n) => n.params(),
            Stage::RealDecimate(n) => n.params(),
            Stage::Envelope(n) => {
                let v: Vec<Param> = n.params();
                assert(params_view(v@) =~= Seq::empty());
                v
            },
            Stage::FmDemod(n) => n.params(),
            Stage::Deemphasis(n) => n.params(),
            Stage::PulseDetect(n) => n.params(),
            Stage::ProtocolDecode(n) => n.params(),
        }
    }

    pub fn set_param(&mut self, name: &str, v: ParamValue) -> (r: Result<(), Error>)
        requires
            old(self).wf(),
        ensures
            final(self).wf(),
            stage_set(*old(self), name@, v@, *final(self), settled(r)),
    {
        match self {
            Stage::Mixer(n) => n.set_param(name, v),
            Stage::Decimate(n) => n.set_param(name, v),
            Stage::RealDecimate(n) => n.set_param(name, v),
            Stage::Envelope(n) => n.set_param(name, v),
            Stage::FmDemod(n) => n.set_param(name, v),
            Stage::Deemphasis(n) => n.set_param(name, v),
            Stage::PulseDetect(n) => n.set_param(name, v),
            Stage::ProtocolDecode(n) => n.set_param(name, v),
        }
    }

    /// Drops all history.
    pub fn reset(&mut self)
        requires
            old(self).wf(),
        ensures
            final(self).wf(),
            stage_emptied(*old(self), *final(self)),
    {
        match self {
            Stage::PulseDetect(n) => n.reset(),
            _ => {},
        }
    }
}

} // verus!
