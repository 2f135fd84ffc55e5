//! What holds of every stage, whatever its kind.

use vstd::prelude::*;
#[allow(unused_imports)]
use crate::dsp::ook::PulseConfig;
use crate::fixed::Micro;
#[allow(unused_imports)]
use crate::fixed::{rounding_is_bounded, rounding_is_close, trunc_spec, truncating_goes_toward_zero};
#[allow(unused_imports)]
use crate::nodes::chain::{configured, is_ook_chain, known, stream_after, NodeSpec};
#[allow(unused_imports)]
use crate::nodes::dsp_nodes::divided;
#[allow(unused_imports)]
use crate::nodes::stage::{
    asked, asked_config, kind_name, kind_of, stage_agreed, stage_latency, stage_params, stage_set,
};
use crate::nodes::stage::{Factory, Stage};
#[allow(unused_imports)]
use crate::pipeline::node::{unknown_parameter, PortSpec};
#[allow(unused_imports)]
use crate::pipeline::param::{ParamRange, ParamView, ValueView};
use crate::pipeline::port::PortKind;
#[allow(unused_imports)]
use crate::pipeline::port::StreamSpec;
#[allow(unused_imports)]
use crate::pipeline::registry::{in_category, lookup, DescView};

verus! {

/// What flows into a kind of stage and out of it.
pub open spec fn kinds(f: Factory) -> (PortKind, PortKind) {
    match f {
        Factory::Mixer => (PortKind::Iq, PortKind::Iq),
        Factory::Decimate => (PortKind::Iq, PortKind::Iq),
        Factory::RealDecimate => (PortKind::Real, PortKind::Real),
        Factory::Envelope => (PortKind::Iq, PortKind::Real),
        Factory::FmDemod => (PortKind::Iq, PortKind::Real),
        Factory::Deemphasis => (PortKind::Real, PortKind::Real),
        Factory::PulseDetect => (PortKind::Real, PortKind::Pulses),
        Factory::ProtocolDecode => (PortKind::Pulses, PortKind::Bytes),
    }
}

/// A stage takes what its kind takes and nothing else, and gives what its kind
/// gives. Only a mixer moves the centre, only decimators change the rate of a
/// sampled stream, and packages have none.
pub proof fn stages_take_one_kind_and_give_one(s: Stage, i: PortSpec)
    ensures
        stage_agreed(s, i) is Ok <==> i.spec.kind == kinds(kind_of(s)).0,
        stage_agreed(s, i) matches Ok(o) ==> {
            &&& o.kind == kinds(kind_of(s)).1
            &&& o.bandwidth == i.spec.bandwidth
            &&& o.channels == i.spec.channels
            &&& !(s is Mixer) ==> o.center == i.spec.center
            &&& !(s is Decimate) && !(s is RealDecimate) && !(s is PulseDetect) ==> o.rate
                == i.spec.rate
            &&& s is PulseDetect ==> o.rate@ == 0
        },
{
}

/// A stage that refuses its input says which stage it is.
pub proof fn refusals_begin_with_the_stage(s: Stage, i: PortSpec)
    requires
        i.spec.kind != kinds(kind_of(s)).0,
    ensures
        stage_agreed(s, i) matches Err(e) && e.len() > kind_name(kind_of(s)).len() && e.take(
            kind_name(kind_of(s)).len() as int,
        ) == kind_name(kind_of(s)),
{
    reveal_strlit("mixer");
    reveal_strlit("decimate");
    reveal_strlit("real_decimate");
    reveal_strlit("envelope");
    reveal_strlit("fm_demod");
    reveal_strlit("deemphasis");
    reveal_strlit("pulse_detect");
    reveal_strlit("protocol_decode");
    reveal_strlit("mixer needs an IQ input");
    reveal_strlit("decimate needs an IQ input");
    reveal_strlit("real_decimate needs a real input");
    reveal_strlit("envelope needs an IQ input");
    reveal_strlit("fm_demod needs an IQ input");
    reveal_strlit("deemphasis needs a real input");
    reveal_strlit("pulse_detect needs a real envelope; put an `envelope` node before it");
    reveal_strlit("protocol_decode needs pulses; put a `pulse_detect` node before it");
    let name = kind_name(kind_of(s));
    let e = stage_agreed(s, i)->Err_0;
    assert(e.take(name.len() as int) =~= name);
}

/// Mixing moves the centre down by the shift, in whole hertz, as far as there are
/// frequencies.
pub proof fn mixing_moves_the_centre(s: Stage, i: PortSpec)
    requires
        s is Mixer,
        i.spec.kind == PortKind::Iq,
        i.spec.center.0 <= i64::MAX,
    ensures
        ({
            let shift = s->Mixer_0.shift_hz@;
            let o = stage_agreed(s, i)->Ok_0.center.0 as int;
            let moved = i.spec.center.0 - o;
            &&& 0 < o < i64::MAX && shift >= 0 ==> 0 <= shift - 1_000_000 * moved < 1_000_000
            &&& 0 < o < i64::MAX && shift <= 0 ==> -1_000_000 < shift - 1_000_000 * moved <= 0
            &&& o == 0 ==> 1_000_000 * i.spec.center.0 < shift + 1_000_000
            &&& o <= i64::MAX
        }),
{
    truncating_goes_toward_zero(s->Mixer_0.shift_hz@);
}

/// Decimating divides the rate by the factor, to the nearest millionth, and a
/// factor of one changes nothing.
pub proof fn decimating_divides_the_rate(s: Stage, i: PortSpec)
    requires
        s.wf(),
        s is Decimate || s is RealDecimate,
        i.spec.kind == kinds(kind_of(s)).0,
    ensures
        ({
            let factor = match s {
                Stage::Decimate(n) => n.factor as int,
                Stage::RealDecimate(n) => n.factor as int,
                _ => 1,
            };
            let out = stage_agreed(s, i)->Ok_0.rate@;
            &&& -factor <= 2 * (factor * out) - 2 * i.spec.rate@ <= factor
            &&& factor == 1 ==> out == i.spec.rate@
        }),
{
    let factor = match s {
        Stage::Decimate(n) => n.factor as nat,
        Stage::RealDecimate(n) => n.factor as nat,
        _ => 1,
    };
    rounding_is_close(i.spec.rate@, factor);
    rounding_is_bounded(i.spec.rate@, factor);
    let out = divided(i.spec.rate@, factor);
    assert(stage_agreed(s, i)->Ok_0.rate@ == out);
    assert(factor == 1 ==> factor * out == out) by (nonlinear_arith);
}

/// A longer filter delays more, and one that reduces the rate further delays less
/// in samples of what it gives: two output samples' worth of taps per factor.
pub proof fn filters_delay_by_half_their_length(s: Stage, taps: nat)
    requires
        s.wf(),
    ensures
        s matches Stage::Decimate(n) ==> 2 * (n.factor * stage_latency(s, taps)) <= taps < 2 * (
        n.factor * (stage_latency(s, taps) + 1)),
        !(s is Decimate) ==> stage_latency(s, taps) == 0,
{
    if let Stage::Decimate(n) = s {
        let (t, d) = (taps as int, 2 * n.factor as int);
        vstd::arithmetic::div_mod::lemma_fundamental_div_mod(t, d);
        let q = t / d;
        assert(d * q == 2 * (n.factor * q)) by (nonlinear_arith)
            requires
                d == 2 * n.factor,
        ;
        assert(2 * (n.factor * (q + 1)) == d * q + d) by (nonlinear_arith)
            requires
                d == 2 * n.factor,
        ;
    }
}

/// Whether a value is one that a control for the parameter gives.
pub open spec fn offered(p: ParamView, v: ValueView) -> bool {
    match p.range {
        ParamRange::Float(lo, hi) => v matches ValueView::Float(x) && lo@ <= x <= hi@,
        ParamRange::Int(lo, hi) => v matches ValueView::Int(n) && lo <= n <= hi,
        ParamRange::Any => v is Bool,
    }
}

/// Whether a value is whole, where it is a number.
pub open spec fn whole(v: ValueView) -> bool {
    v matches ValueView::Float(x) ==> x % 1_000_000 == 0
}

proof fn names_differ()
    ensures
        "reset_us"@ != "min_mark_us"@,
        "reset_us"@ != "min_pulses"@,
        "reset_us"@ != "min_snr_db"@,
        "reset_us"@ != "hysteresis"@,
        "min_mark_us"@ != "min_pulses"@,
        "min_mark_us"@ != "min_snr_db"@,
        "min_mark_us"@ != "hysteresis"@,
        "min_pulses"@ != "min_snr_db"@,
        "min_pulses"@ != "hysteresis"@,
        "min_snr_db"@ != "hysteresis"@,
        "tau_us"@ != "reset_us"@,
        "tau_us"@ != "min_mark_us"@,
        "tau_us"@ != "min_pulses"@,
        "tau_us"@ != "min_snr_db"@,
        "tau_us"@ != "hysteresis"@,
        "factor"@ != "passband"@,
        "factor"@ != "atten_db"@,
        "passband"@ != "atten_db"@,
        "report_all"@ != "report_crc_failures"@,
{
    reveal_strlit("reset_us");
    reveal_strlit("min_mark_us");
    reveal_strlit("min_pulses");
    reveal_strlit("min_snr_db");
    reveal_strlit("hysteresis");
    reveal_strlit("tau_us");
    reveal_strlit("factor");
    reveal_strlit("passband");
    reveal_strlit("atten_db");
    reveal_strlit("report_all");
    reveal_strlit("report_crc_failures");
    assert("reset_us"@.len() == 8 && "min_mark_us"@.len() == 11 && "min_pulses"@.len() == 10);
    assert("min_snr_db"@.len() == 10 && "hysteresis"@.len() == 10 && "tau_us"@.len() == 6);
    assert("min_pulses"@[4] != "min_snr_db"@[4]);
    assert("min_pulses"@[0] != "hysteresis"@[0]);
    assert("min_snr_db"@[0] != "hysteresis"@[0]);
    assert("factor"@.len() == 6 && "passband"@.len() == 8 && "atten_db"@.len() == 8);
    assert("passband"@[0] != "atten_db"@[0]);
    assert("report_all"@.len() == 10 && "report_crc_failures"@.len() == 19);
}

/// What is set is shown: where a control gives a parameter a value that it offers,
/// the parameter has that value afterwards and every other is as it was. The
/// timings of a pulse detector are whole microseconds.
pub proof fn what_is_set_is_shown(
    s: Stage,
    j: int,
    v: ValueView,
    t: Stage,
    r: Result<(), Seq<char>>,
)
    requires
        0 <= j < stage_params(s).len(),
        offered(stage_params(s)[j], v),
        s is PulseDetect ==> j == 3 || j == 4 || whole(v),
        stage_set(s, stage_params(s)[j].name, v, t, r),
    ensures
        r is Ok,
        kind_of(t) == kind_of(s),
        stage_params(t).len() == stage_params(s).len(),
        stage_params(t)[j] == (ParamView { value: v, ..stage_params(s)[j] }),
        forall|k: int|
            0 <= k < stage_params(s).len() && k != j ==> #[trigger] stage_params(t)[k]
                == stage_params(s)[k],
{
    names_differ();
}

/// A parameter that a stage does not show cannot be set, and the error says which
/// stage and which parameter.
pub proof fn what_is_not_shown_cannot_be_set(
    s: Stage,
    name: Seq<char>,
    v: ValueView,
    t: Stage,
    r: Result<(), Seq<char>>,
)
    requires
        forall|j: int| 0 <= j < stage_params(s).len() ==> (#[trigger] stage_params(s)[j]).name != name,
        stage_set(s, name, v, t, r),
    ensures
        r == Err::<(), Seq<char>>(unknown_parameter(kind_name(kind_of(s)), name)),
        stage_params(t) == stage_params(s),
        kind_of(t) == kind_of(s),
{
    let p = stage_params(s);
    if p.len() > 0 {
        assert(p[0].name != name);
    }
    if p.len() > 1 {
        assert(p[1].name != name);
    }
    if p.len() > 2 {
        assert(p[2].name != name);
    }
    if p.len() > 3 {
        assert(p[3].name != name);
    }
    if p.len() > 4 {
        assert(p[4].name != name);
    }
}

/// The settings of a pulse detector do not touch each other: each changes what it
/// names and nothing else, and without any the detector ends a package at four
/// milliseconds, believes marks from a tenth of one, asks for four pulses, and
/// for a signal at twice the noise.
pub proof fn settings_do_not_touch_each_other(m: Map<Seq<char>, ValueView>, x: int, n: int)
    requires
        i64::MIN <= x <= i64::MAX,
        0 <= n <= u32::MAX,
    ensures
        asked_config(m.insert("reset_us"@, ValueView::Float(n * 1_000_000))) == (PulseConfig {
            reset_us: n as u32,
            ..asked_config(m)
        }),
        asked_config(m.insert("min_mark_us"@, ValueView::Float(n * 1_000_000))) == (PulseConfig {
            min_mark_us: n as u32,
            ..asked_config(m)
        }),
        n >= 1 ==> asked_config(m.insert("min_pulses"@, ValueView::Int(n))) == (PulseConfig {
            min_pulses: n as usize,
            ..asked_config(m)
        }),
        asked_config(m.insert("hysteresis"@, ValueView::Float(x))) == (PulseConfig {
            hysteresis: Micro(x as i64),
            ..asked_config(m)
        }),
        asked_config(m.insert("tau_us"@, ValueView::Float(x))) == (PulseConfig {
            tau_us: Micro(x as i64),
            ..asked_config(m)
        }),
        asked_config(m.insert("min_snr_db"@, ValueView::Float(x))) == (PulseConfig {
            min_snr_db: Micro(x as i64),
            ..asked_config(m)
        }),
        ({
            let d = asked_config(Map::empty());
            &&& d.reset_us == 4 * 1000 && 10 * d.min_mark_us == 1000
            &&& d.min_pulses == 4 && d.min_snr_db@ == 6 * 1_000_000
            &&& 5 * d.hysteresis@ == 1_000_000 && 2 * d.tau_us@ == 1000 * 1_000_000
        }),
{
    names_differ();
}

/// The factor that is asked for is the factor that divides, one at least.
pub proof fn factors_are_taken_as_asked(m: Map<Seq<char>, ValueView>, n: int)
    requires
        i64::MIN <= n <= i64::MAX,
    ensures
        n >= 1 ==> asked(m.insert("factor"@, ValueView::Int(n))) == n,
        n < 1 ==> asked(m.insert("factor"@, ValueView::Int(n))) == 1,
        asked(Map::empty()) == 1,
{
}

proof fn every_name_is_known()
    ensures
        lookup(known(), "mixer"@) == Some(Factory::Mixer),
        lookup(known(), "decimate"@) == Some(Factory::Decimate),
        lookup(known(), "real_decimate"@) == Some(Factory::RealDecimate),
        lookup(known(), "envelope"@) == Some(Factory::Envelope),
        lookup(known(), "fm_demod"@) == Some(Factory::FmDemod),
        lookup(known(), "deemphasis"@) == Some(Factory::Deemphasis),
        lookup(known(), "pulse_detect"@) == Some(Factory::PulseDetect),
        lookup(known(), "protocol_decode"@) == Some(Factory::ProtocolDecode),
{
    reveal_strlit("decimate");
    reveal_strlit("deemphasis");
    reveal_strlit("envelope");
    reveal_strlit("fm_demod");
    reveal_strlit("mixer");
    reveal_strlit("protocol_decode");
    reveal_strlit("pulse_detect");
    reveal_strlit("real_decimate");
    reveal_with_fuel(lookup, 9);
    assert("decimate"@.len() == 8 && "deemphasis"@.len() == 10 && "envelope"@.len() == 8);
    assert("fm_demod"@.len() == 8 && "mixer"@.len() == 5 && "protocol_decode"@.len() == 15);
    assert("pulse_detect"@.len() == 12 && "real_decimate"@.len() == 13);
    assert("decimate"@[0] != "fm_demod"@[0]);
    assert("decimate"@[0] != "envelope"@[0]);
    assert("envelope"@[0] != "fm_demod"@[0]);
}

/// Every kind of stage is known by its own name, so a stage can be built again
/// from the name it gives itself.
pub proof fn kinds_are_known_by_their_names(f: Factory)
    ensures
        lookup(known(), kind_name(f)) == Some(f),
{
    every_name_is_known();
}

/// The category of a stage says what it does: a filter gives what it takes, a
/// demodulator turns a complex stream into a real one, and a decoder gives
/// something that is no sampled stream.
pub proof fn categories_say_what_stages_do(j: int)
    requires
        0 <= j < known().len(),
    ensures
        ({
            let (desc, f) = known()[j];
            let (takes, gives) = kinds(f);
            &&& desc.name == kind_name(f)
            &&& desc.category == "filter"@ <==> takes == gives
            &&& desc.category == "demod"@ <==> takes == PortKind::Iq && gives == PortKind::Real
            &&& desc.category == "decode"@ <==> gives == PortKind::Pulses || gives
                == PortKind::Bytes
        }),
        known().len() == 8,
{
    reveal_strlit("filter");
    reveal_strlit("demod");
    reveal_strlit("decode");
    assert("filter"@[0] != "demod"@[0] && "filter"@[0] != "decode"@[0]);
    assert("demod"@.len() != "decode"@.len());
    assert(j == 0 || j == 1 || j == 2 || j == 3 || j == 4 || j == 5 || j == 6 || j == 7);
}

/// The stages of a category are those that are in it, and no other.
pub proof fn categories_hold_their_stages<F>(e: Seq<(DescView, F)>, cat: Seq<char>, d: DescView)
    ensures
        in_category(e, cat).contains(d) <==> d.category == cat && exists|j: int|
            0 <= j < e.len() && (#[trigger] e[j]).0 == d,
    decreases e.len(),
{
    let all = in_category(e, cat);
    if e.len() > 0 {
        let head = e.drop_last();
        let earlier = in_category(head, cat);
        categories_hold_their_stages(head, cat, d);
        if exists|j: int| 0 <= j < head.len() && (#[trigger] head[j]).0 == d {
            let j = choose|j: int| 0 <= j < head.len() && (#[trigger] head[j]).0 == d;
            assert(e[j].0 == d);
        }
        if exists|j: int| 0 <= j < e.len() && (#[trigger] e[j]).0 == d {
            let j = choose|j: int| 0 <= j < e.len() && (#[trigger] e[j]).0 == d;
            if j < head.len() {
                assert(head[j].0 == d);
            }
        }
        if e.last().0.category == cat {
            assert(all[all.len() - 1] == e.last().0);
            if earlier.contains(d) {
                let k = choose|k: int| 0 <= k < earlier.len() && earlier[k] == d;
                assert(all[k] == d);
            }
            if all.contains(d) {
                let k = choose|k: int| 0 <= k < all.len() && all[k] == d;
                if k < earlier.len() {
                    assert(earlier[k] == d);
                } else {
                    assert(e[e.len() - 1].0 == d);
                }
            }
            if e.last().0 == d {
                assert(all[all.len() - 1] == d);
            }
        }
    }
}

/// The ready-made chain does what it is asked: it brings the shift to the middle,
/// divides the rate by the decimation, and its detector ends packages at the
/// reset and asks for twenty pulses.
pub proof fn the_ook_chain_does_as_asked(
    s: Seq<NodeSpec>,
    shift: int,
    decimate: int,
    reset_us: int,
    input: StreamSpec,
    det: Stage,
)
    requires
        is_ook_chain(s, shift, decimate, reset_us),
        input.kind == PortKind::Iq,
        input.center.0 <= i64::MAX,
        i64::MIN <= shift <= i64::MAX,
        1 <= decimate <= i64::MAX,
        0 <= reset_us <= u32::MAX,
        configured(Factory::PulseDetect, s[3].settings@, det),
    ensures
        stream_after(input, s, known(), 5) matches Ok(o) && {
            let c = input.center.0 - trunc_spec(shift);
            &&& o.kind == PortKind::Bytes
            &&& 0 <= c <= i64::MAX ==> o.center.0 == c
        },
        stream_after(input, s, known(), 2) matches Ok(o) && o.kind == PortKind::Iq && -decimate <= 2
            * (decimate * o.rate@) - 2 * input.rate@ <= decimate,
        stream_after(input, s, known(), 3) matches Ok(o) && o.kind == PortKind::Real,
        det matches Stage::PulseDetect(n) && n.cfg.reset_us == reset_us && n.cfg.min_pulses == 20
            && n.cfg == (PulseConfig {
            reset_us: reset_us as u32,
            min_pulses: 20,
            ..asked_config(Map::empty())
        }),
{
    every_name_is_known();
    names_differ();
    reveal_with_fuel(stream_after, 6);
    rounding_is_close(input.rate@, decimate as nat);
    rounding_is_bounded(input.rate@, decimate as nat);
    let none = Map::<Seq<char>, ValueView>::empty();
    settings_do_not_touch_each_other(none, 0, reset_us);
    settings_do_not_touch_each_other(
        none.insert("reset_us"@, ValueView::Float(reset_us * 1_000_000)),
        0,
        20,
    );
    factors_are_taken_as_asked(none, decimate);
}

} // verus!
