//! Signal processing stages: rate negotiation and parameters.

use vstd::prelude::*;
use crate::common::{Error, Hz};
use crate::fixed::{nearest_signed, Micro};
#[allow(unused_imports)]
use crate::fixed::{clamp_spec, nearest_bounds, nearest_signed_spec, trunc_spec};
use crate::pipeline::node::{unknown, PortSpec};
#[allow(unused_imports)]
use crate::pipeline::node::unknown_parameter;
use crate::pipeline::param::{Param, ParamValue};
#[allow(unused_imports)]
use crate::pipeline::param::{
    integer, number, params_view, plain, ParamRange, ParamView, ValueView,
};
use crate::pipeline::port::{PortKind, StreamSpec};
use crate::text::same;

verus! {

/// What a negotiation comes to: a stream, or why there is none.
pub open spec fn agreed(r: Result<StreamSpec, Error>) -> Result<StreamSpec, Seq<char>> {
    match r {
        Ok(s) => Ok(s),
        Err(e) => Err(e@),
    }
}

/// What setting a parameter comes to.
pub open spec fn settled(r: Result<(), Error>) -> Result<(), Seq<char>> {
    match r {
        Ok(u) => Ok(u),
        Err(e) => Err(e@),
    }
}

/// An error with that text.
fn error(s: &str) -> (r: Error)
    ensures
        r@ == s@,
{
    Error::other(s.to_owned())
}

/// Adds a parameter to a list.
pub fn push_param(v: &mut Vec<Param>, p: Param)
    ensures
        params_view(final(v)@) == params_view(old(v)@).push(p@),
{
    v.push(p);
    assert(params_view(v@) =~= params_view(old(v)@).push(p@));
}

/// One parameter in a list of its own.
fn only(p: Param) -> (r: Vec<Param>)
    ensures
        params_view(r@) == seq![p@],
{
    let mut v: Vec<Param> = Vec::new();
    v.push(p);
    assert(params_view(v@) =~= seq![p@]);
    v
}

/// Shifts a signal in frequency.
///
/// Used to bring an off-centre signal to baseband: a receiver tuned so that
/// the signal sits in the middle puts it on the spur there.
#[derive(Clone, Copy, Debug, PartialEq, Eq, Structural)]
pub struct MixerNode {
    pub shift_hz: Micro,
}

/// The frequency that stands in the middle after a shift. It is reckoned as a
/// signed number, as which a frequency beyond the greatest one wraps round.
pub open spec fn shifted_center(center: int, shift: int) -> int {
    let c = if center > i64::MAX {
        center - 0x1_0000_0000_0000_0000
    } else {
        center
    };
    clamp_spec(c - trunc_spec(shift), 0, i64::MAX as int)
}

/// What a mixer makes of its input.
pub open spec fn mixer_agreed(n: MixerNode, i: PortSpec) -> Result<StreamSpec, Seq<char>> {
    if i.spec.kind != PortKind::Iq {
        Err("mixer needs an IQ input"@)
    } else {
        Ok(
            StreamSpec {
                center: Hz(shifted_center(i.spec.center.0 as int, n.shift_hz@) as u64),
                ..i.spec
            },
        )
    }
}

/// The parameters of a mixer.
pub open spec fn mixer_params(n: MixerNode) -> Seq<ParamView> {
    seq![
        ParamView {
            unit: "Hz"@,
            label: "Frequency shift"@,
            ..plain(
                "shift_hz"@,
                ValueView::Float(n.shift_hz@),
                ParamRange::Float(Micro((-30_000_000_000_000) as i64), Micro(30_000_000_000_000)),
            )
        },
    ]
}

/// A mixer after a parameter was set, and what came of it.
pub open spec fn mixer_set(n: MixerNode, name: Seq<char>, v: ValueView) -> (
    MixerNode,
    Result<(), Seq<char>>,
) {
    if name == "shift_hz"@ {
        match number(v) {
            Some(x) => (MixerNode { shift_hz: Micro(x as i64) }, Ok(())),
            None => (n, Err("expected a number"@)),
        }
    } else {
        (n, Err(unknown_parameter("mixer"@, name)))
    }
}

impl MixerNode {
    pub fn new(shift_hz: Micro) -> (r: MixerNode)
        ensures
            r.shift_hz == shift_hz,
    {
        MixerNode { shift_hz }
    }

    pub fn name(&self) -> (r: &'static str)
        ensures
            r@ == "mixer"@,
    {
        "mixer"
    }

    /// The centre frequency moves with the shift, so anything downstream that
    /// reports where a signal came from stays correct.
    pub fn negotiate(&self, i: &PortSpec) -> (r: Result<StreamSpec, Error>)
        ensures
            agreed(r) == mixer_agreed(*self, *i),
    {
        if i.spec.kind != PortKind::Iq {
            return Err(error("mixer needs an IQ input"));
        }
        let center: u64 = i.spec.center.get();
        let signed: i128 = if center > i64::MAX as u64 {
            center as i128 - 0x1_0000_0000_0000_0000
        } else {
            center as i128
        };
        let m: i128 = signed - self.shift_hz.trunc() as i128;
        let moved: u64 = if m < 0 {
            0
        } else if m > i64::MAX as i128 {
            i64::MAX as u64
        } else {
            m as u64
        };
        Ok(StreamSpec { center: Hz(moved), ..i.spec })
    }

    pub fn params(&self) -> (r: Vec<Param>)
        ensures
            params_view(r@) == mixer_params(*self),
    {
        only(
            Param::float(
                "shift_hz",
                self.shift_hz,
                Micro(-30_000_000_000_000),
                Micro(30_000_000_000_000),
            ).unit("Hz").label("Frequency shift"),
        )
    }

    pub fn set_param(&mut self, name: &str, v: ParamValue) -> (r: Result<(), Error>)
        ensures
            (*final(self), settled(r)) == mixer_set(*old(self), name@, v@),
    {
        if same(name, "shift_hz") {
            match v.as_f64() {
                Some(x) => {
                    self.shift_hz = x;
                    Ok(())
                },
                None => Err(error("expected a number")),
            }
        } else {
            Err(unknown("mixer", name))
        }
    }
}

/// Lowpass and decimate a complex stream.
#[derive(Clone, Copy, Debug, PartialEq, Eq, Structural)]
pub struct DecimateNode {
    pub factor: u64,
    pub passband: Micro,
    pub atten_db: Micro,
}

/// A rate divided by a factor.
pub open spec fn divided(rate: int, factor: nat) -> int {
    nearest_signed_spec(rate, factor)
}

proof fn divided_is_small(rate: int, factor: nat)
    requires
        i64::MIN <= rate <= i64::MAX,
        factor >= 1,
    ensures
        i64::MIN <= divided(rate, factor) <= i64::MAX,
{
    let a = if rate < 0 {
        -rate
    } else {
        rate
    };
    nearest_bounds(a as nat, factor);
}

/// A rate divided by a factor.
fn divide(rate: Micro, factor: u64) -> (r: Micro)
    requires
        factor >= 1,
    ensures
        r@ == divided(rate@, factor as nat),
{
    proof {
        divided_is_small(rate@, factor as nat);
    }
    Micro(nearest_signed(rate.0 as i128, factor as u128) as i64)
}

/// The factor that a value asks for: at least one, and one where it is no
/// number.
pub open spec fn asked_factor(v: ValueView) -> int {
    let n = match integer(v) {
        Some(n) => n,
        None => 1,
    };
    if n < 1 {
        1
    } else {
        n
    }
}

fn factor_of(v: &ParamValue) -> (r: u64)
    ensures
        r == asked_factor(v@),
        1 <= r <= i64::MAX,
{
    match v.as_i64() {
        Some(n) => if n < 1 {
            1
        } else {
            n as u64
        },
        None => 1,
    }
}

/// The number that a value is, or a default, within bounds.
pub open spec fn bounded(v: ValueView, default: int, low: int, high: int) -> int {
    clamp_spec(
        match number(v) {
            Some(x) => x,
            None => default,
        },
        low,
        high,
    )
}

fn bounded_of(v: &ParamValue, default: Micro, low: Micro, high: Micro) -> (r: Micro)
    ensures
        r@ == bounded(v@, default@, low@, high@),
{
    let x: Micro = match v.as_f64() {
        Some(x) => x,
        None => default,
    };
    x.clamp_to(low, high)
}

/// What a decimator makes of its input.
pub open spec fn decimate_agreed(n: DecimateNode, i: PortSpec) -> Result<StreamSpec, Seq<char>> {
    if i.spec.kind != PortKind::Iq {
        Err("decimate needs an IQ input"@)
    } else {
        Ok(
            StreamSpec {
                rate: Micro(divided(i.spec.rate@, n.factor as nat) as i64),
                ..i.spec
            },
        )
    }
}

/// The parameter that a decimation factor is.
pub open spec fn factor_param(factor: int) -> ParamView {
    ParamView {
        label: "Decimation"@,
        affects_rate: true,
        ..plain("factor"@, ValueView::Int(factor), ParamRange::Int(1, 1024))
    }
}

/// The parameters of a decimator.
pub open spec fn decimate_params(n: DecimateNode) -> Seq<ParamView> {
    seq![
        factor_param(n.factor as int),
        ParamView {
            label: "Passband fraction"@,
            ..plain(
                "passband"@,
                ValueView::Float(n.passband@),
                ParamRange::Float(Micro(500_000), Micro(990_000)),
            )
        },
        ParamView {
            unit: "dB"@,
            label: "Stopband attenuation"@,
            ..plain(
                "atten_db"@,
                ValueView::Float(n.atten_db@),
                ParamRange::Float(Micro(30_000_000), Micro(120_000_000)),
            )
        },
    ]
}

/// A decimator after a parameter was set, and what came of it.
pub open spec fn decimate_set(n: DecimateNode, name: Seq<char>, v: ValueView) -> (
    DecimateNode,
    Result<(), Seq<char>>,
) {
    if name == "factor"@ {
        (DecimateNode { factor: asked_factor(v) as u64, ..n }, Ok(()))
    } else if name == "passband"@ {
        (
            DecimateNode { passband: Micro(bounded(v, 900_000, 100_000, 990_000) as i64), ..n },
            Ok(()),
        )
    } else if name == "atten_db"@ {
        (
            DecimateNode {
                atten_db: Micro(bounded(v, 80_000_000, 20_000_000, 150_000_000) as i64),
                ..n
            },
            Ok(()),
        )
    } else {
        (n, Err(unknown_parameter("decimate"@, name)))
    }
}

impl DecimateNode {
    pub open spec fn wf(&self) -> bool {
        1 <= self.factor <= i64::MAX
    }

    /// Delay in output samples of a filter of so many taps: a symmetric filter
    /// delays by half its length, measured at the output rate.
    pub fn latency(&self, taps: u64) -> (r: u64)
        requires
            self.wf(),
        ensures
            r == taps as nat / (2 * self.factor as nat),
    {
        let r: u64 = taps / 2 / self.factor;
        proof {
            vstd::arithmetic::div_mod::lemma_div_denominator(taps as int, 2, self.factor as int);
        }
        r
    }

    pub fn new(factor: u64) -> (r: DecimateNode)
        requires
            factor <= i64::MAX,
        ensures
            r.wf(),
            r == (DecimateNode {
                factor: if factor == 0 {
                    1
                } else {
                    factor
                },
                passband: Micro(900_000),
                atten_db: Micro(80_000_000),
            }),
    {
        DecimateNode {
            factor: if factor == 0 {
                1
            } else {
                factor
            },
            passband: Micro(900_000),
            atten_db: Micro(80_000_000),
        }
    }

    pub fn name(&self) -> (r: &'static str)
        ensures
            r@ == "decimate"@,
    {
        "decimate"
    }

    pub fn negotiate(&self, i: &PortSpec) -> (r: Result<StreamSpec, Error>)
        requires
            self.wf(),
        ensures
            agreed(r) == decimate_agreed(*self, *i),
    {
        if i.spec.kind != PortKind::Iq {
            return Err(error("decimate needs an IQ input"));
        }
        Ok(i.spec.with_rate(divide(i.spec.rate, self.factor)))
    }

    pub fn params(&self) -> (r: Vec<Param>)
        requires
            self.wf(),
        ensures
            params_view(r@) == decimate_params(*self),
    {
        let mut v: Vec<Param> = only(
            Param::integer("factor", self.factor as i64, 1, 1024).label(
                "Decimation",
            ).affects_rate(),
        );
        push_param(
            &mut v,
            Param::float("passband", self.passband, Micro(500_000), Micro(990_000)).label(
                "Passband fraction",
            ),
        );
        push_param(
            &mut v,
            Param::float("atten_db", self.atten_db, Micro(30_000_000), Micro(120_000_000)).unit(
                "dB",
            ).label("Stopband attenuation"),
        );
        assert(params_view(v@) =~= decimate_params(*self));
        v
    }

    pub fn set_param(&mut self, name: &str, v: ParamValue) -> (r: Result<(), Error>)
        requires
            old(self).wf(),
        ensures
            final(self).wf(),
            (*final(self), settled(r)) == decimate_set(*old(self), name@, v@),
    {
        if same(name, "factor") {
            self.factor = factor_of(&v);
            Ok(())
        } else if same(name, "passband") {
            self.passband = bounded_of(&v, Micro(900_000), Micro(100_000), Micro(990_000));
            Ok(())
        } else if same(name, "atten_db") {
            self.atten_db =
            bounded_of(&v, Micro(80_000_000), Micro(20_000_000), Micro(150_000_000));
            Ok(())
        } else {
            Err(unknown("decimate", name))
        }
    }
}

/// Complex magnitude: the envelope that a pulse detector needs.
#[derive(Clone, Copy, Debug, PartialEq, Eq, Structural)]
pub struct EnvelopeNode;

/// What an envelope makes of its input.
pub open spec fn envelope_agreed(i: PortSpec) -> Result<StreamSpec, Seq<char>> {
    if i.spec.kind != PortKind::Iq {
        Err("envelope needs an IQ input"@)
    } else {
        Ok(StreamSpec { kind: PortKind::Real, ..i.spec })
    }
}

impl EnvelopeNode {
    pub fn name(&self) -> (r: &'static str)
        ensures
            r@ == "envelope"@,
    {
        "envelope"
    }

    pub fn negotiate(&self, i: &PortSpec) -> (r: Result<StreamSpec, Error>)
        ensures
            agreed(r) == envelope_agreed(*i),
    {
        if i.spec.kind != PortKind::Iq {
            return Err(error("envelope needs an IQ input"));
        }
        Ok(i.spec.with_kind(PortKind::Real))
    }

    pub fn params(&self) -> (r: Vec<Param>)
        ensures
            r@ == Seq::<Param>::empty(),
    {
        Vec::new()
    }

    pub fn set_param(&mut self, name: &str, _v: ParamValue) -> (r: Result<(), Error>)
        ensures
            settled(r) == Err::<(), Seq<char>>(unknown_parameter("envelope"@, name@)),
    {
        Err(unknown("envelope", name))
    }
}

/// Frequency demodulator.
#[derive(Clone, Copy, Debug, PartialEq, Eq, Structural)]
pub struct FmDemodNode {
    pub deviation_hz: Micro,
}

/// What a frequency demodulator makes of its input.
pub open spec fn fm_demod_agreed(i: PortSpec) -> Result<StreamSpec, Seq<char>> {
    if i.spec.kind != PortKind::Iq {
        Err("fm_demod needs an IQ input"@)
    } else {
        Ok(StreamSpec { kind: PortKind::Real, ..i.spec })
    }
}

/// The parameters of a frequency demodulator.
pub open spec fn fm_demod_params(n: FmDemodNode) -> Seq<ParamView> {
    seq![
        ParamView {
            unit: "Hz"@,
            label: "Peak deviation"@,
            log: true,
            ..plain(
                "deviation_hz"@,
                ValueView::Float(n.deviation_hz@),
                ParamRange::Float(Micro(500_000_000), Micro(200_000_000_000)),
            )
        },
    ]
}

/// A frequency demodulator after a parameter was set, and what came of it.
pub open spec fn fm_demod_set(n: FmDemodNode, name: Seq<char>, v: ValueView) -> (
    FmDemodNode,
    Result<(), Seq<char>>,
) {
    if name == "deviation_hz"@ {
        (
            FmDemodNode {
                deviation_hz: Micro(
                    bounded(v, 75_000_000_000, 1_000_000, i64::MAX as int) as i64,
                ),
            },
            Ok(()),
        )
    } else {
        (n, Err(unknown_parameter("fm_demod"@, name)))
    }
}

impl FmDemodNode {
    pub fn new(deviation_hz: Micro) -> (r: FmDemodNode)
        ensures
            r.deviation_hz == deviation_hz,
    {
        FmDemodNode { deviation_hz }
    }

    /// Broadcast: 75 kHz peak deviation.
    pub fn wide() -> (r: FmDemodNode)
        ensures
            r.deviation_hz@ == 75_000_000_000,
    {
        FmDemodNode::new(Micro(75_000_000_000))
    }

    /// Narrowband voice and most keyed telemetry.
    pub fn narrow() -> (r: FmDemodNode)
        ensures
            r.deviation_hz@ == 5_000_000_000,
    {
        FmDemodNode::new(Micro(5_000_000_000))
    }

    pub fn name(&self) -> (r: &'static str)
        ensures
            r@ == "fm_demod"@,
    {
        "fm_demod"
    }

    pub fn negotiate(&self, i: &PortSpec) -> (r: Result<StreamSpec, Error>)
        ensures
            agreed(r) == fm_demod_agreed(*i),
    {
        if i.spec.kind != PortKind::Iq {
            return Err(error("fm_demod needs an IQ input"));
        }
        Ok(i.spec.with_kind(PortKind::Real))
    }

    pub fn params(&self) -> (r: Vec<Param>)
        ensures
            params_view(r@) == fm_demod_params(*self),
    {
        only(
            Param::float(
                "deviation_hz",
                self.deviation_hz,
                Micro(500_000_000),
                Micro(200_000_000_000),
            ).unit("Hz").label("Peak deviation").log(),
        )
    }

    pub fn set_param(&mut self, name: &str, v: ParamValue) -> (r: Result<(), Error>)
        ensures
            (*final(self), settled(r)) == fm_demod_set(*old(self), name@, v@),
    {
        if same(name, "deviation_hz") {
            self.deviation_hz =
            bounded_of(&v, Micro(75_000_000_000), Micro(1_000_000), Micro(i64::MAX));
            Ok(())
        } else {
            Err(unknown("fm_demod", name))
        }
    }
}

/// De-emphasis, undoing the transmitter's treble boost.
#[derive(Clone, Copy, Debug, PartialEq, Eq, Structural)]
pub struct DeemphasisNode {
    pub tau_us: Micro,
}

/// What a de-emphasis makes of its input.
pub open spec fn deemphasis_agreed(i: PortSpec) -> Result<StreamSpec, Seq<char>> {
    if i.spec.kind != PortKind::Real {
        Err("deemphasis needs a real input"@)
    } else {
        Ok(i.spec)
    }
}

/// The parameters of a de-emphasis.
pub open spec fn deemphasis_params(n: DeemphasisNode) -> Seq<ParamView> {
    seq![
        ParamView {
            unit: "us"@,
            label: "Time constant (50 EU, 75 Americas)"@,
            ..plain(
                "tau_us"@,
                ValueView::Float(n.tau_us@),
                ParamRange::Float(Micro(25_000_000), Micro(100_000_000)),
            )
        },
    ]
}

/// A de-emphasis after a parameter was set, and what came of it.
pub open spec fn deemphasis_set(n: DeemphasisNode, name: Seq<char>, v: ValueView) -> (
    DeemphasisNode,
    Result<(), Seq<char>>,
) {
    if name == "tau_us"@ {
        (
            DeemphasisNode {
                tau_us: Micro(bounded(v, 50_000_000, 1_000_000, 1_000_000_000) as i64),
            },
            Ok(()),
        )
    } else {
        (n, Err(unknown_parameter("deemphasis"@, name)))
    }
}

impl DeemphasisNode {
    pub fn new(tau_us: Micro) -> (r: DeemphasisNode)
        ensures
            r.tau_us == tau_us,
    {
        DeemphasisNode { tau_us }
    }

    pub fn name(&self) -> (r: &'static str)
        ensures
            r@ == "deemphasis"@,
    {
        "deemphasis"
    }

    pub fn negotiate(&self, i: &PortSpec) -> (r: Result<StreamSpec, Error>)
        ensures
            agreed(r) == deemphasis_agreed(*i),
    {
        if i.spec.kind != PortKind::Real {
            return Err(error("deemphasis needs a real input"));
        }
        Ok(i.spec)
    }

    pub fn params(&self) -> (r: Vec<Param>)
        ensures
            params_view(r@) == deemphasis_params(*self),
    {
        only(
            Param::float("tau_us", self.tau_us, Micro(25_000_000), Micro(100_000_000)).unit(
                "us",
            ).label("Time constant (50 EU, 75 Americas)"),
        )
    }

    pub fn set_param(&mut self, name: &str, v: ParamValue) -> (r: Result<(), Error>)
        ensures
            (*final(self), settled(r)) == deemphasis_set(*old(self), name@, v@),
    {
        if same(name, "tau_us") {
            self.tau_us =
            bounded_of(&v, Micro(50_000_000), Micro(1_000_000), Micro(1_000_000_000));
            Ok(())
        } else {
            Err(unknown("deemphasis", name))
        }
    }
}

/// Decimates a real stream, for audio after a demodulator.
#[derive(Clone, Copy, Debug, PartialEq, Eq, Structural)]
pub struct RealDecimateNode {
    pub factor: u64,
}

/// What a real decimator makes of its input.
pub open spec fn real_decimate_agreed(n: RealDecimateNode, i: PortSpec) -> Result<
    StreamSpec,
    Seq<char>,
> {
    if i.spec.kind != PortKind::Real {
        Err("real_decimate needs a real input"@)
    } else {
        Ok(
            StreamSpec {
                rate: Micro(divided(i.spec.rate@, n.factor as nat) as i64),
                ..i.spec
            },
        )
    }
}

/// A real decimator after a parameter was set, and what came of it.
pub open spec fn real_decimate_set(n: RealDecimateNode, name: Seq<char>, v: ValueView) -> (
    RealDecimateNode,
    Result<(), Seq<char>>,
) {
    if name == "factor"@ {
        (RealDecimateNode { factor: asked_factor(v) as u64 }, Ok(()))
    } else {
        (n, Err(unknown_parameter("real_decimate"@, name)))
    }
}

impl RealDecimateNode {
    pub open spec fn wf(&self) -> bool {
        1 <= self.factor <= i64::MAX
    }

    pub fn new(factor: u64) -> (r: RealDecimateNode)
        requires
            factor <= i64::MAX,
        ensures
            r.wf(),
            r.factor == (if factor == 0 {
                1
            } else {
                factor
            }),
    {
        RealDecimateNode {
            factor: if factor == 0 {
                1
            } else {
                factor
            },
        }
    }

    pub fn name(&self) -> (r: &'static str)
        ensures
            r@ == "real_decimate"@,
    {
        "real_decimate"
    }

    pub fn negotiate(&self, i: &PortSpec) -> (r: Result<StreamSpec, Error>)
        requires
            self.wf(),
        ensures
            agreed(r) == real_decimate_agreed(*self, *i),
    {
        if i.spec.kind != PortKind::Real {
            return Err(error("real_decimate needs a real input"));
        }
        Ok(i.spec.with_rate(divide(i.spec.rate, self.factor)))
    }

    pub fn params(&self) -> (r: Vec<Param>)
        requires
            self.wf(),
        ensures
            params_view(r@) == seq![factor_param(self.factor as int)],
    {
        only(
            Param::integer("factor", self.factor as i64, 1, 1024).label(
                "Decimation",
            ).affects_rate(),
        )
    }

    pub fn set_param(&mut self, name: &str, v: ParamValue) -> (r: Result<(), Error>)
        requires
            old(self).wf(),
        ensures
            final(self).wf(),
            (*final(self), settled(r)) == real_decimate_set(*old(self), name@, v@),
    {
        if same(name, "factor") {
            self.factor = factor_of(&v);
            Ok(())
        } else {
            Err(unknown("real_decimate", name))
        }
    }
}

} // verus!
