//! How chains are put together, and what their stages do when they are run.

use vstd::prelude::*;
#[allow(unused_imports)]
use crate::common::Error;
#[allow(unused_imports)]
use crate::decode::protocol::Family;
#[allow(unused_imports)]
use crate::dsp::pulse::{
    air_time, bursts_last_from_first_to_last_mark, histogram_spec, inner_gaps, marks, sum_all,
    Package,
};
#[allow(unused_imports)]
use crate::dsp::rds::{ends_symbol, reached, Differential, SymbolClock, Tick, SYMBOL};
#[allow(unused_imports)]
use crate::fixed::Micro;
#[allow(unused_imports)]
use crate::nodes::chain::{build_chain, delay_at, missing, stream_after, stream_at, Graph, NodeSpec};
#[allow(unused_imports)]
use crate::nodes::decode_nodes::{discarded_text, ProtocolDecodeNode, PulseDetectNode};
#[allow(unused_imports)]
use crate::nodes::dsp_nodes::{DecimateNode, FmDemodNode, RealDecimateNode};
#[allow(unused_imports)]
use crate::nodes::stage::{kind_name, kind_of, stage_agreed, stage_emptied, Stage};
#[allow(unused_imports)]
use crate::pipeline::event::EventView;
#[allow(unused_imports)]
use crate::pipeline::node::{NodeCtx, PortSpec};
#[allow(unused_imports)]
use crate::pipeline::param::ValueView;
#[allow(unused_imports)]
use crate::pipeline::port::{StreamSpec, TagValue};
#[allow(unused_imports)]
use crate::pipeline::registry::{lookup, Registry};

verus! {

/// A chain that is built has a stage for each that was asked for, of the kind that
/// goes by that name, and what comes out of one goes into the next.
pub proof fn a_chain_is_built_link_by_link(
    input: StreamSpec,
    specs: &[NodeSpec],
    reg: &Registry,
    r: Result<Graph, Error>,
    i: int,
)
    requires
        call_ensures(build_chain, (input, specs, reg), r),
        0 <= i < specs@.len(),
    ensures
        r matches Ok(g) ==> {
            let from = if i == 0 {
                input
            } else {
                g.specs@[i - 1]
            };
            &&& g.input == input
            &&& g.stages@.len() == specs@.len() && g.specs@.len() == specs@.len()
            &&& Some(kind_of(g.stages@[i])) == lookup(reg@, specs@[i].kind@)
            &&& stage_agreed(g.stages@[i], PortSpec { spec: from, latency: 0 }) == Ok::<
                StreamSpec,
                Seq<char>,
            >(g.specs@[i])
        },
        r is Ok <==> missing(specs@, reg@, 0) is None && stream_after(
            input,
            specs@,
            reg@,
            specs@.len(),
        ) is Ok,
{
    if let Ok(g) = r {
        crate::nodes::banks::no_name_is_missing(specs@, reg@, 0, i);
        assert(kind_of(g.stages@[i]) == lookup(reg@, specs@[i].kind@)->0);
    }
}

/// Ports are told the streams as they were agreed, from the source on, and the
/// delay up to each.
pub proof fn ports_are_told_their_streams(g: &Graph, taps: &[u64], r: Vec<PortSpec>, i: int)
    requires
        call_ensures(Graph::ports, (g, taps), r),
        0 <= i <= g.stages@.len(),
    ensures
        r@.len() == g.stages@.len() + 1,
        r@[0].spec == g.input && r@[0].latency == 0,
        i > 0 ==> r@[i].spec == g.specs@[i - 1],
        r@[i].latency == delay_at(*g, taps@, i),
{
    assert(r@[0].spec == stream_at(g.input, g.specs@, 0));
    assert(r@[i].spec == stream_at(g.input, g.specs@, i));
}

/// What leaves a chain leaves its last stage, and a chain of none passes its input
/// on.
pub proof fn what_leaves_a_chain(g: &Graph, r: StreamSpec, names: Vec<&'static str>)
    requires
        call_ensures(Graph::output_spec, (g,), r),
        call_ensures(Graph::order, (g,), names),
    ensures
        g.specs@.len() == 0 ==> r == g.input,
        g.specs@.len() > 0 ==> r == g.specs@.last(),
        names@.len() == g.stages@.len(),
        forall|i: int|
            0 <= i < names@.len() ==> (#[trigger] names@[i])@ == kind_name(kind_of(g.stages@[i])),
{
}

/// A stage that is reset keeps its settings, its place in the stream and its
/// counts, and forgets the package it was cutting.
pub proof fn stages_forget_what_they_were_cutting(before: Stage, after: Stage)
    requires
        stage_emptied(before, after),
    ensures
        kind_of(after) == kind_of(before),
        !(before is PulseDetect) ==> after == before,
        before matches Stage::PulseDetect(n) ==> (after matches Stage::PulseDetect(m) && m.cfg
            == n.cfg && m.det@.pulses.len() == 0 && m.det@.pending == 0 && !m.det@.high
            && m.det@.sample == n.det@.sample && m.det@.too_few == n.det@.too_few
            && m.det.low_snr() == n.det.low_snr()),
{
}

/// A pulse detector marks every package where it began, with its ratio, and says
/// once what it threw away, if anything.
pub proof fn every_package_is_marked(
    n: &mut PulseDetectNode,
    packages: &[Package],
    c: &mut NodeCtx,
    k: int,
)
    requires
        call_ensures(PulseDetectNode::process, (n, packages, c), ()),
        0 <= k < packages@.len(),
    ensures
        final(c).tagged().len() == old(c).tagged().len() + packages@.len(),
        ({
            let t = final(c).tagged()[old(c).tagged().len() + k];
            t.index == packages@[k].start_sample && t.key == "burst"@ && t.value == TagValue::Float(
                packages@[k].snr_db,
            )
        }),
        old(n).det@.too_few == 0 && old(n).det.low_snr() == 0 ==> final(c).emitted()
            == old(c).emitted(),
        old(n).det@.too_few > 0 || old(n).det.low_snr() > 0 ==> final(c).emitted().len()
            == old(c).emitted().len() + 1 && final(c).emitted().last() == (EventView::Warning {
            stage: "pulse_detect"@,
            message: discarded_text(old(n).det@.too_few, old(n).det.low_snr(), old(n).cfg),
        }),
        final(n).det@.too_few == 0 && final(n).det.low_snr() == 0,
{
}

/// A package lasts from its first mark to its last.
pub proof fn a_package_lasts_for_its_marks_and_gaps(p: &Package, r: u64)
    requires
        call_ensures(Package::duration_us, (p,), r),
    ensures
        p.pulses@.len() == 0 ==> r == 0,
        p.pulses@.len() > 0 ==> r == sum_all(marks(p.pulses@)) + sum_all(inner_gaps(p.pulses@)),
{
    if p.pulses@.len() > 0 {
        bursts_last_from_first_to_last_mark(p.pulses@);
    } else {
        assert(air_time(p.pulses@) == 0);
    }
}

/// The gap that ended a package is in no histogram.
pub proof fn histograms_are_of_marks_and_inner_gaps(
    p: &Package,
    tol: u32,
    m: Vec<(u32, usize)>,
    g: Vec<(u32, usize)>,
)
    requires
        call_ensures(Package::mark_histogram, (p, tol), m),
        call_ensures(Package::gap_histogram, (p, tol), g),
    ensures
        m@ == histogram_spec(marks(p.pulses@), tol as nat),
        g@ == histogram_spec(inner_gaps(p.pulses@), tol as nat),
{
}

/// A package begins empty, at nothing.
pub proof fn a_package_begins_empty(p: Package, q: Package)
    requires
        call_ensures(Package::default, (), p),
        call_ensures(Package::empty, (), q),
    ensures
        p.pulses@.len() == 0 && p.snr_db@ == 0 && p.start_sample == 0 && p.rate@ == 0,
        q.pulses@.len() == 0 && q.snr_db@ == 0 && q.start_sample == 0 && q.rate@ == 0,
{
}

/// A tick says which half its sample falls in and, where it ends a symbol, how
/// many samples each half had, that one included.
pub proof fn a_tick_counts_its_own_sample(c: &mut SymbolClock, pilot: u32, r: Tick)
    requires
        call_ensures(SymbolClock::tick, (c, pilot), r),
    ensures
        r.second_half <==> 2 * (reached(old(c)@, pilot) % SYMBOL as nat) >= SYMBOL,
        r.ended is Some <==> ends_symbol(old(c)@, pilot),
        r.ended matches Some((a, b)) ==> a + b == old(c)@.first + old(c)@.second + 1 && (if r.second_half {
            a == old(c)@.first
        } else {
            b == old(c)@.second
        }),
{
}

/// A symbol that differs from the one before it is a one, and the first is no bit.
pub proof fn differing_symbols_are_ones(d: &mut Differential, symbol: bool, r: Option<u8>)
    requires
        call_ensures(Differential::push, (d, symbol), r),
    ensures
        old(d)@ is None ==> r is None,
        old(d)@ == Some(symbol) ==> r == Some(0u8),
        old(d)@ == Some(!symbol) ==> r == Some(1u8),
        final(d)@ == Some(symbol),
{
}

/// Broadcasting deviates by 75 kHz, narrow FM by five. A factor of zero is one.
pub proof fn stages_are_made_ready(
    wide: FmDemodNode,
    narrow: FmDemodNode,
    factor: u64,
    d: DecimateNode,
    r: RealDecimateNode,
    p: ProtocolDecodeNode,
    o: PulseDetectNode,
)
    requires
        call_ensures(FmDemodNode::wide, (), wide),
        call_ensures(FmDemodNode::narrow, (), narrow),
        call_ensures(DecimateNode::new, (factor,), d),
        call_ensures(RealDecimateNode::new, (factor,), r),
        call_ensures(ProtocolDecodeNode::all, (), p),
        call_ensures(PulseDetectNode::default_ook, (), o),
    ensures
        wide.deviation_hz@ == 75 * 1000 * 1_000_000,
        narrow.deviation_hz@ == 5 * 1000 * 1_000_000,
        factor > 0 ==> d.factor == factor && r.factor == factor,
        factor == 0 ==> d.factor == 1 && r.factor == 1,
        10 * d.passband@ == 9 * 1_000_000 && d.atten_db@ == 80 * 1_000_000,
        p.families() == seq![Family::OregonV3] && p.reporting().all && p.reporting().crc_failures,
        o.cfg.reset_us == 4000 && 10 * o.cfg.min_mark_us == 1000 && o.cfg.min_pulses == 4,
        5 * o.cfg.hysteresis@ == 1_000_000 && 2 * o.cfg.tau_us@ == 1000 * 1_000_000,
        o.cfg.min_snr_db@ == 6 * 1_000_000,
{
}

/// A description has the name and the settings that it was given.
pub proof fn descriptions_keep_their_settings(
    kind: &str,
    s: NodeSpec,
    k: &str,
    x: Micro,
    n: i64,
    b: bool,
    t: NodeSpec,
    u: NodeSpec,
    w: NodeSpec,
)
    requires
        call_ensures(NodeSpec::new, (kind,), s),
        call_ensures(NodeSpec::f, (s, k, x), t),
        call_ensures(NodeSpec::i, (s, k, n), u),
        call_ensures(NodeSpec::b, (s, k, b), w),
    ensures
        s.kind@ == kind@ && t.kind@ == kind@ && u.kind@ == kind@ && w.kind@ == kind@,
        t.settings@[k@] == ValueView::Float(x@),
        u.settings@[k@] == ValueView::Int(n as int),
        w.settings@[k@] == ValueView::Bool(b),
        !s.settings@.contains_key(k@),
        t.settings@.contains_key(k@),
{
}

} // verus!
