//! Chains described as data, and the graphs built from them.

use vstd::prelude::*;
use crate::common::Error;
use crate::fixed::{nearest, Micro};
#[allow(unused_imports)]
use crate::fixed::{nearest_bounds, nearest_is, nearest_spec};
#[allow(unused_imports)]
use crate::nodes::decode_nodes::{
    protocol_decode_agreed, pulse_detect_agreed,
};
#[allow(unused_imports)]
use crate::nodes::dsp_nodes::{
    agreed, decimate_agreed, deemphasis_agreed, envelope_agreed, fm_demod_agreed, mixer_agreed,
    real_decimate_agreed, settled, DecimateNode, MixerNode, RealDecimateNode,
};
#[allow(unused_imports)]
use crate::nodes::stage::{
    asked, asked_config, kind_name, kind_of, made, stage_agreed, stage_emptied, stage_latency,
    stage_set,
};
use crate::nodes::stage::{Factory, Stage};
use crate::pipeline::node::PortSpec;
use crate::pipeline::param::ParamValue;
#[allow(unused_imports)]
use crate::pipeline::param::ValueView;
#[allow(unused_imports)]
use crate::pipeline::port::PortKind;
use crate::pipeline::port::StreamSpec;
#[allow(unused_imports)]
use crate::pipeline::registry::{
    ascending, lookup, placed, registering_adds_one_name, text_order, DescView,
};
use crate::pipeline::registry::{Registry, StageDesc};
use crate::pipeline::settings::Settings;
#[allow(unused_imports)]
use crate::pipeline::settings::{integer_or, number_or};
use crate::text::{push_nat, quoted};
#[allow(unused_imports)]
use crate::text::{debug_text, digits, text_before};

verus! {

/// Everything that is known of the stages of this build, by name.
pub open spec fn known() -> Seq<(DescView, Factory)> {
    seq![
        (
            DescView {
                name: "decimate"@,
                summary: "Lowpass and reduce the sample rate of an IQ stream"@,
                category: "filter"@,
            },
            Factory::Decimate,
        ),
        (
            DescView {
                name: "deemphasis"@,
                summary: "Undo broadcast FM pre-emphasis (50 us in Europe, 75 in the Americas)"@,
                category: "filter"@,
            },
            Factory::Deemphasis,
        ),
        (
            DescView {
                name: "envelope"@,
                summary: "Complex magnitude; the input an OOK pulse detector needs"@,
                category: "demod"@,
            },
            Factory::Envelope,
        ),
        (
            DescView {
                name: "fm_demod"@,
                summary: "Quadrature frequency discriminator, for FM and FSK"@,
                category: "demod"@,
            },
            Factory::FmDemod,
        ),
        (
            DescView {
                name: "mixer"@,
                summary: "Shift the signal in frequency, to bring an off-centre carrier to baseband and away from the DC spur"@,
                category: "filter"@,
            },
            Factory::Mixer,
        ),
        (
            DescView {
                name: "protocol_decode"@,
                summary: "Try every known protocol against each burst"@,
                category: "decode"@,
            },
            Factory::ProtocolDecode,
        ),
        (
            DescView {
                name: "pulse_detect"@,
                summary: "Envelope to mark/gap timings; the boundary between DSP and protocol parsing"@,
                category: "decode"@,
            },
            Factory::PulseDetect,
        ),
        (
            DescView {
                name: "real_decimate"@,
                summary: "Reduce the sample rate of a real stream, for audio"@,
                category: "filter"@,
            },
            Factory::RealDecimate,
        ),
    ]
}

/// The names of the stages in order.
proof fn names_ascend()
    ensures
        text_before("decimate"@, "deemphasis"@),
        text_before("deemphasis"@, "envelope"@),
        text_before("envelope"@, "fm_demod"@),
        text_before("fm_demod"@, "mixer"@),
        text_before("mixer"@, "protocol_decode"@),
        text_before("protocol_decode"@, "pulse_detect"@),
        text_before("pulse_detect"@, "real_decimate"@),
{
    reveal_strlit("decimate");
    reveal_strlit("deemphasis");
    reveal_strlit("envelope");
    reveal_strlit("fm_demod");
    reveal_strlit("mixer");
    reveal_strlit("protocol_decode");
    reveal_strlit("pulse_detect");
    reveal_strlit("real_decimate");
    reveal_with_fuel(text_before, 4);
}

/// A name after all others goes to the end, and is new.
proof fn placed_last(e: Seq<(DescView, Factory)>, x: (DescView, Factory))
    requires
        ascending(e),
        e.len() > 0 ==> text_before(e.last().0.name, x.0.name),
    ensures
        lookup(e, x.0.name) is None,
        placed(e, x) == e.push(x),
        ascending(e.push(x)),
{
    not_among_earlier(e, x.0.name);
    registering_adds_one_name(e, x, x.0.name);
}

proof fn not_among_earlier(e: Seq<(DescView, Factory)>, name: Seq<char>)
    requires
        ascending(e),
        e.len() > 0 ==> text_before(e.last().0.name, name),
    ensures
        lookup(e, name) is None,
    decreases e.len(),
{
    if e.len() > 0 {
        text_order(e.last().0.name, name, name);
        let head = e.drop_last();
        assert forall|i: int, j: int| 0 <= i < j < head.len() implies text_before(
            (#[trigger] head[i]).0.name,
            (#[trigger] head[j]).0.name,
        ) by {
            assert(text_before(e[i].0.name, e[j].0.name));
        }
        if head.len() > 0 {
            assert(text_before(e[e.len() - 2].0.name, e[e.len() - 1].0.name));
            text_order(head.last().0.name, e.last().0.name, name);
        }
        not_among_earlier(head, name);
    }
}

/// Adds a kind of stage whose name comes after all others.
fn add_last(r: &mut Registry, desc: StageDesc, f: Factory)
    requires
        old(r).wf(),
        old(r)@.len() > 0 ==> text_before(old(r)@.last().0.name, desc@.name),
    ensures
        final(r).wf(),
        final(r)@ == old(r)@.push((desc@, f)),
{
    proof {
        placed_last(r@, (desc@, f));
    }
    r.register(desc, f);
}

/// Every stage of this build.
pub fn registry() -> (r: Registry)
    ensures
        r.wf(),
        r@ == known(),
{
    proof {
        names_ascend();
    }
    let mut r: Registry = Registry::new();
    add_last(
        &mut r,
        StageDesc {
            name: "decimate",
            summary: "Lowpass and reduce the sample rate of an IQ stream",
            category: "filter",
        },
        Factory::Decimate,
    );
    add_last(
        &mut r,
        StageDesc {
            name: "deemphasis",
            summary: "Undo broadcast FM pre-emphasis (50 us in Europe, 75 in the Americas)",
            category: "filter",
        },
        Factory::Deemphasis,
    );
    add_last(
        &mut r,
        StageDesc {
            name: "envelope",
            summary: "Complex magnitude; the input an OOK pulse detector needs",
            category: "demod",
        },
        Factory::Envelope,
    );
    add_last(
        &mut r,
        StageDesc {
            name: "fm_demod",
            summary: "Quadrature frequency discriminator, for FM and FSK",
            category: "demod",
        },
        Factory::FmDemod,
    );
    add_last(
        &mut r,
        StageDesc {
            name: "mixer",
            summary: "Shift the signal in frequency, to bring an off-centre carrier to baseband and away from the DC spur",
            category: "filter",
        },
        Factory::Mixer,
    );
    add_last(
        &mut r,
        StageDesc {
            name: "protocol_decode",
            summary: "Try every known protocol against each burst",
            category: "decode",
        },
        Factory::ProtocolDecode,
    );
    add_last(
        &mut r,
        StageDesc {
            name: "pulse_detect",
            summary: "Envelope to mark/gap timings; the boundary between DSP and protocol parsing",
            category: "decode",
        },
        Factory::PulseDetect,
    );
    add_last(
        &mut r,
        StageDesc {
            name: "real_decimate",
            summary: "Reduce the sample rate of a real stream, for audio",
            category: "filter",
        },
        Factory::RealDecimate,
    );
    assert(r@ =~= known());
    r
}

/// One stage in a chain description.
#[derive(Debug)]
pub struct NodeSpec {
    pub kind: String,
    pub settings: Settings,
}

impl NodeSpec {
    pub open spec fn wf(&self) -> bool {
        self.settings.wf()
    }

    pub fn new(kind: &str) -> (r: NodeSpec)
        ensures
            r.wf(),
            r.kind@ == kind@,
            r.settings@ == Map::<Seq<char>, ValueView>::empty(),
    {
        NodeSpec { kind: kind.to_owned(), settings: Settings::new() }
    }

    /// The same stage with one setting more.
    pub fn set(self, k: &str, v: ParamValue) -> (r: NodeSpec)
        requires
            self.wf(),
        ensures
            r.wf(),
            r.kind@ == self.kind@,
            r.settings@ == self.settings@.insert(k@, v@),
    {
        let mut r: NodeSpec = self;
        r.settings.insert(k, v);
        r
    }

    pub fn f(self, k: &str, v: Micro) -> (r: NodeSpec)
        requires
            self.wf(),
        ensures
            r.wf(),
            r.kind@ == self.kind@,
            r.settings@ == self.settings@.insert(k@, ValueView::Float(v@)),
    {
        self.set(k, ParamValue::Float(v))
    }

    pub fn i(self, k: &str, v: i64) -> (r: NodeSpec)
        requires
            self.wf(),
        ensures
            r.wf(),
            r.kind@ == self.kind@,
            r.settings@ == self.settings@.insert(k@, ValueView::Int(v as int)),
    {
        self.set(k, ParamValue::Int(v))
    }

    pub fn b(self, k: &str, v: bool) -> (r: NodeSpec)
        requires
            self.wf(),
        ensures
            r.wf(),
            r.kind@ == self.kind@,
            r.settings@ == self.settings@.insert(k@, ValueView::Bool(v)),
    {
        self.set(k, ParamValue::Bool(v))
    }
}

impl Clone for NodeSpec {
    fn clone(&self) -> (r: NodeSpec)
        ensures
            r.kind@ == self.kind@,
            r.settings@ == self.settings@,
            self.wf() ==> r.wf(),
    {
        NodeSpec { kind: self.kind.as_str().to_owned(), settings: self.settings.clone() }
    }
}

impl Default for NodeSpec {
    fn default() -> (r: NodeSpec)
        ensures
            r.wf(),
            r.kind@ == Seq::<char>::empty(),
            r.settings@ == Map::<Seq<char>, ValueView>::empty(),
    {
        proof {
            reveal_strlit("");
        }
        assert(""@ =~= Seq::<char>::empty());
        NodeSpec::new("")
    }
}

/// The stream that enters stage `i`.
pub open spec fn stream_at(input: StreamSpec, specs: Seq<StreamSpec>, i: int) -> StreamSpec {
    if i == 0 {
        input
    } else {
        specs[i - 1]
    }
}

/// What a stage is told of the stream that enters it while the chain is agreed
/// on, before the filters that delay it are designed.
pub open spec fn port(s: StreamSpec) -> PortSpec {
    PortSpec { spec: s, latency: 0 }
}

/// A linear graph: the stream that enters it, its stages, and what comes out of
/// each.
pub struct Graph {
    pub input: StreamSpec,
    pub stages: Vec<Stage>,
    pub specs: Vec<StreamSpec>,
}

/// Whether a stage has the configuration that settings ask for. What it has
/// seen since does not matter.
pub open spec fn configured(f: Factory, m: Map<Seq<char>, ValueView>, s: Stage) -> bool {
    match s {
        Stage::PulseDetect(n) => f == Factory::PulseDetect && n.cfg == asked_config(m),
        _ => made(f, m, s),
    }
}

/// Whether a pulse detector starts at the rate of the stream that enters it.
pub open spec fn started(s: Stage, input: StreamSpec) -> bool {
    s matches Stage::PulseDetect(n) ==> n.is_fresh(input.rate@)
}

/// Whether a stage is another after it agreed to an input: only a pulse detector
/// changes, which keeps its configuration and starts at the rate of its input.
pub open spec fn renegotiated(before: Stage, after: Stage, input: StreamSpec) -> bool {
    match before {
        Stage::PulseDetect(n) => {
            &&& after matches Stage::PulseDetect(m)
            &&& m.cfg == n.cfg
            &&& m.is_fresh(input.rate@)
        },
        _ => after == before,
    }
}

/// `n` samples of one rate counted in samples of another, to the nearest one. A
/// port without a rate has none to count in.
pub open spec fn recounted(n: nat, from: int, to: int) -> nat {
    if from > 0 && to > 0 {
        nearest_spec(n * (to as nat), from as nat)
    } else {
        0
    }
}

/// `n` samples of one rate counted in samples of another.
fn recount(n: u64, from: Micro, to: Micro) -> (r: u128)
    ensures
        r == recounted(n as nat, from@, to@),
        r <= u64::MAX * i64::MAX,
{
    if from.0 <= 0 || to.0 <= 0 {
        return 0;
    }
    assert(0 <= n * to.0 <= u64::MAX * i64::MAX) by (nonlinear_arith)
        requires
            0 <= n <= u64::MAX,
            0 <= to.0 <= i64::MAX,
    ;
    let num: u128 = n as u128 * to.0 as u128;
    proof {
        nearest_bounds(num as nat, from.0 as nat);
    }
    nearest(num, from.0 as u128)
}

/// Delay from the source to the input of stage `i`, in samples at the rate there,
/// where the filter of each stage has so many taps. It stays at the greatest
/// count that a port can be told.
pub open spec fn delay_at(g: Graph, taps: Seq<u64>, i: int) -> nat
    decreases i,
{
    if i <= 0 {
        0
    } else {
        let d = recounted(
            delay_at(g, taps, i - 1),
            stream_at(g.input, g.specs@, i - 1).rate@,
            stream_at(g.input, g.specs@, i).rate@,
        ) + stage_latency(g.stages@[i - 1], taps[i - 1] as nat);
        if d > u64::MAX {
            u64::MAX as nat
        } else {
            d
        }
    }
}

/// A delay does not change what a stage makes of its input.
pub proof fn a_delay_changes_nothing_agreed(s: Stage, i: StreamSpec, delay: u64)
    ensures
        stage_agreed(s, PortSpec { spec: i, latency: delay }) == stage_agreed(s, port(i)),
{
}

/// A stage that keeps the rate adds its own delay to the one before it.
pub proof fn delays_add_up_at_one_rate(g: Graph, taps: Seq<u64>, i: int)
    requires
        0 <= i,
        stream_at(g.input, g.specs@, i).rate@ > 0,
        stream_at(g.input, g.specs@, i + 1).rate == stream_at(g.input, g.specs@, i).rate,
        delay_at(g, taps, i) + stage_latency(g.stages@[i], taps[i] as nat) <= u64::MAX,
    ensures
        delay_at(g, taps, i + 1) == delay_at(g, taps, i) + stage_latency(
            g.stages@[i],
            taps[i] as nat,
        ),
{
    let (n, rate) = (delay_at(g, taps, i), stream_at(g.input, g.specs@, i).rate@ as nat);
    assert((2 * rate) * n == 2 * (n * rate)) by (nonlinear_arith);
    nearest_is(n * rate, rate, n);
}

/// Whether a graph is another without the history of its stages.
pub open spec fn graph_emptied(before: Graph, after: Graph) -> bool {
    &&& after.input == before.input
    &&& after.specs == before.specs
    &&& after.stages@.len() == before.stages@.len()
    &&& forall|i: int|
        0 <= i < after.stages@.len() ==> stage_emptied(before.stages@[i], #[trigger] after.stages@[i])
}

impl Graph {
    pub open spec fn wf(&self) -> bool {
        &&& self.specs@.len() == self.stages@.len()
        &&& forall|i: int| 0 <= i < self.stages@.len() ==> (#[trigger] self.stages@[i]).wf()
    }

    /// Whether what comes out of each stage is what it makes of what enters it.
    pub open spec fn negotiated(&self) -> bool {
        forall|i: int|
            0 <= i < self.stages@.len() ==> stage_agreed(
                #[trigger] self.stages@[i],
                port(stream_at(self.input, self.specs@, i)),
            ) == Ok::<StreamSpec, Seq<char>>(self.specs@[i])
    }

    /// What leaves the last stage.
    pub open spec fn output(&self) -> StreamSpec {
        stream_at(self.input, self.specs@, self.specs@.len() as int)
    }

    /// What leaves the last stage.
    pub fn output_spec(&self) -> (r: StreamSpec)
        ensures
            r == self.output(),
    {
        let n: usize = self.specs.len();
        if n == 0 {
            self.input
        } else {
            self.specs[n - 1]
        }
    }

    /// What each stage is told of its input, where the filter of each has so many
    /// taps, and last what leaves the graph.
    pub fn ports(&self, taps: &[u64]) -> (r: Vec<PortSpec>)
        requires
            self.wf(),
            taps@.len() == self.stages@.len(),
        ensures
            r@.len() == self.stages@.len() + 1,
            forall|i: int|
                0 <= i < r@.len() ==> {
                    &&& (#[trigger] r@[i]).spec == stream_at(self.input, self.specs@, i)
                    &&& r@[i].latency == delay_at(*self, taps@, i)
                },
    {
        let mut at: PortSpec = PortSpec { spec: self.input, latency: 0 };
        let mut v: Vec<PortSpec> = Vec::new();
        v.push(at);
        let mut i: usize = 0;
        while i < self.stages.len()
            invariant
                self.wf(),
                taps@.len() == self.stages@.len(),
                i <= self.stages@.len(),
                v@.len() == i + 1,
                at == v@[i as int],
                forall|k: int|
                    0 <= k <= i ==> {
                        &&& (#[trigger] v@[k]).spec == stream_at(self.input, self.specs@, k)
                        &&& v@[k].latency == delay_at(*self, taps@, k)
                    },
            decreases self.stages@.len() - i,
        {
            let out: StreamSpec = self.specs[i];
            let own: u64 = self.stages[i].latency(taps[i]);
            let d: u128 = recount(at.latency, at.spec.rate, out.rate) + own as u128;
            let latency: u64 = if d > u64::MAX as u128 {
                u64::MAX
            } else {
                d as u64
            };
            at = PortSpec { spec: out, latency };
            v.push(at);
            i += 1;
        }
        v
    }

    /// The names of the stages, in order.
    pub fn order(&self) -> (r: Vec<&'static str>)
        ensures
            r@.len() == self.stages@.len(),
            forall|i: int|
                0 <= i < r@.len() ==> (#[trigger] r@[i])@ == kind_name(kind_of(self.stages@[i])),
    {
        let mut v: Vec<&'static str> = Vec::new();
        let mut i: usize = 0;
        while i < self.stages.len()
            invariant
                i <= self.stages@.len(),
                v@.len() == i,
                forall|k: int|
                    0 <= k < i ==> (#[trigger] v@[k])@ == kind_name(kind_of(self.stages@[k])),
            decreases self.stages@.len() - i,
        {
            v.push(self.stages[i].name());
            i += 1;
        }
        v
    }

    /// Negotiates again from the input on, as after a parameter was set. Where
    /// a stage refuses its input, that stage is given with its reason.
    pub fn negotiate(&mut self) -> (r: Result<(), (usize, Error)>)
        requires
            old(self).wf(),
        ensures
            final(self).wf(),
            final(self).input == old(self).input,
            final(self).stages@.len() == old(self).stages@.len(),
            match r {
                Ok(_) => {
                    &&& final(self).negotiated()
                    &&& forall|i: int|
                        0 <= i < final(self).stages@.len() ==> renegotiated(
                            old(self).stages@[i],
                            #[trigger] final(self).stages@[i],
                            stream_at(final(self).input, final(self).specs@, i),
                        )
                },
                Err((k, e)) => {
                    &&& k < old(self).stages@.len()
                    &&& forall|i: int|
                        0 <= i < k ==> renegotiated(
                            old(self).stages@[i],
                            #[trigger] final(self).stages@[i],
                            stream_at(old(self).input, final(self).specs@, i),
                        )
                    &&& forall|i: int|
                        k <= i < old(self).stages@.len() ==> #[trigger] final(self).stages@[i]
                            == old(self).stages@[i]
                    &&& forall|i: int|
                        k <= i < old(self).stages@.len() ==> #[trigger] final(self).specs@[i]
                            == old(self).specs@[i]
                    &&& forall|i: int|
                        0 <= i < k ==> stage_agreed(
                            #[trigger] old(self).stages@[i],
                            port(stream_at(old(self).input, final(self).specs@, i)),
                        ) == Ok::<StreamSpec, Seq<char>>(final(self).specs@[i])
                    &&& stage_agreed(
                        old(self).stages@[k as int],
                        port(stream_at(old(self).input, final(self).specs@, k as int)),
                    ) == Err::<StreamSpec, Seq<char>>(e@)
                },
            },
    {
        let n: usize = self.stages.len();
        let ghost before = self.stages@;
        let mut spec: StreamSpec = self.input;
        let mut i: usize = 0;
        while i < n
            invariant
                i <= n,
                n == self.stages@.len(),
                n == before.len(),
                before == old(self).stages@,
                self.specs@.len() == n,
                self.input == old(self).input,
                spec == stream_at(self.input, self.specs@, i as int),
                forall|k: int| 0 <= k < n ==> (#[trigger] self.stages@[k]).wf(),
                forall|k: int| i <= k < n ==> #[trigger] self.stages@[k] == before[k],
                forall|k: int| i <= k < n ==> #[trigger] self.specs@[k] == old(self).specs@[k],
                forall|k: int|
                    0 <= k < i ==> stage_agreed(
                        #[trigger] before[k],
                        port(stream_at(self.input, self.specs@, k)),
                    ) == Ok::<StreamSpec, Seq<char>>(self.specs@[k]),
                forall|k: int|
                    0 <= k < i ==> stage_agreed(
                        #[trigger] self.stages@[k],
                        port(stream_at(self.input, self.specs@, k)),
                    ) == Ok::<StreamSpec, Seq<char>>(self.specs@[k]),
                forall|k: int|
                    0 <= k < i ==> renegotiated(
                        before[k],
                        #[trigger] self.stages@[k],
                        stream_at(self.input, self.specs@, k),
                    ),
            decreases n - i,
        {
            let ghost stages = self.stages@;
            let ghost specs = self.specs@;
            let input: PortSpec = PortSpec { spec, latency: 0 };
            let outcome: Result<StreamSpec, Error> = self.stages[i].negotiate(&input);
            assert(stages[i as int] == before[i as int]);
            assert forall|k: int| 0 <= k < n && k != i implies self.stages@[k] == stages[k] by {}
            match outcome {
                Ok(s) => {
                    self.specs.set(i, s);
                    assert forall|k: int| 0 <= k <= i implies stream_at(
                        self.input,
                        self.specs@,
                        k,
                    ) == stream_at(self.input, specs, k) by {}
                    spec = s;
                },
                Err(e) => {
                    return Err((i, e));
                },
            }
            i += 1;
        }
        Ok(())
    }

    /// Sets a parameter of stage `i`.
    pub fn set_param(&mut self, i: usize, name: &str, v: ParamValue) -> (r: Result<(), Error>)
        requires
            old(self).wf(),
            i < old(self).stages@.len(),
        ensures
            final(self).wf(),
            final(self).input == old(self).input,
            final(self).specs == old(self).specs,
            stage_set(
                old(self).stages@[i as int],
                name@,
                v@,
                final(self).stages@[i as int],
                settled(r),
            ),
            final(self).stages@ == old(self).stages@.update(
                i as int,
                final(self).stages@[i as int],
            ),
    {
        let ghost before = self.stages@;
        let r: Result<(), Error> = self.stages[i].set_param(name, v);
        assert(self.stages@ =~= before.update(i as int, self.stages@[i as int]));
        r
    }

    /// Drops the history of every stage.
    pub fn reset(&mut self)
        requires
            old(self).wf(),
        ensures
            final(self).wf(),
            graph_emptied(*old(self), *final(self)),
    {
        let n: usize = self.stages.len();
        let mut i: usize = 0;
        while i < n
            invariant
                i <= n,
                n == self.stages@.len(),
                n == old(self).stages@.len(),
                self.specs@.len() == n,
                self.input == old(self).input,
                self.specs == old(self).specs,
                forall|k: int| 0 <= k < n ==> (#[trigger] self.stages@[k]).wf(),
                forall|k: int| i <= k < n ==> #[trigger] self.stages@[k] == old(self).stages@[k],
                forall|k: int|
                    0 <= k < i ==> stage_emptied(old(self).stages@[k], #[trigger] self.stages@[k]),
            decreases n - i,
        {
            self.stages[i].reset();
            i += 1;
        }
    }
}

/// What a stage built from settings makes of its input.
pub open spec fn made_agreed(f: Factory, m: Map<Seq<char>, ValueView>, i: PortSpec) -> Result<
    StreamSpec,
    Seq<char>,
> {
    match f {
        Factory::Mixer => mixer_agreed(
            MixerNode { shift_hz: Micro(number_or(m, "shift_hz"@, 0) as i64) },
            i,
        ),
        Factory::Decimate => decimate_agreed(
            DecimateNode {
                factor: asked(m) as u64,
                passband: Micro(900_000),
                atten_db: Micro(80_000_000),
            },
            i,
        ),
        Factory::RealDecimate => real_decimate_agreed(
            RealDecimateNode { factor: asked(m) as u64 },
            i,
        ),
        Factory::Envelope => envelope_agreed(i),
        Factory::FmDemod => fm_demod_agreed(i),
        Factory::Deemphasis => deemphasis_agreed(i),
        Factory::PulseDetect => pulse_detect_agreed(i),
        Factory::ProtocolDecode => protocol_decode_agreed(i),
    }
}

proof fn configured_agrees(f: Factory, m: Map<Seq<char>, ValueView>, s: Stage, i: PortSpec)
    requires
        configured(f, m, s),
    ensures
        kind_of(s) == f,
        stage_agreed(s, i) == made_agreed(f, m, i),
{
}

/// The names of entries with a comma between.
pub open spec fn names_text(e: Seq<(DescView, Factory)>) -> Seq<char>
    decreases e.len(),
{
    if e.len() == 0 {
        Seq::empty()
    } else if e.len() == 1 {
        e[0].0.name
    } else {
        names_text(e.drop_last()) + ", "@ + e.last().0.name
    }
}

/// The error of a stage that there is none of.
pub open spec fn unknown_stage_text(
    i: nat,
    kind: Seq<char>,
    known: Seq<(DescView, Factory)>,
) -> Seq<char> {
    "chain node "@ + digits(i) + ": no node type named "@ + debug_text(kind) + ". Known types: "@
        + names_text(known)
}

/// The error of a stage that refuses its input.
pub open spec fn stage_error_text(i: nat, kind: Seq<char>, e: Seq<char>) -> Seq<char> {
    "chain node "@ + digits(i) + " ("@ + kind + "): "@ + e
}

/// The error of the first stage from `i` on that there is none of.
pub open spec fn missing(specs: Seq<NodeSpec>, known: Seq<(DescView, Factory)>, i: nat) -> Option<
    Seq<char>,
>
    decreases specs.len() - i,
{
    if i >= specs.len() {
        None
    } else if lookup(known, specs[i as int].kind@) is None {
        Some(unknown_stage_text(i, specs[i as int].kind@, known))
    } else {
        missing(specs, known, i + 1)
    }
}

/// The stream that leaves the first `n` stages, or why there is none.
pub open spec fn stream_after(
    input: StreamSpec,
    specs: Seq<NodeSpec>,
    known: Seq<(DescView, Factory)>,
    n: nat,
) -> Result<StreamSpec, Seq<char>>
    decreases n,
{
    if n == 0 {
        Ok(input)
    } else {
        match stream_after(input, specs, known, (n - 1) as nat) {
            Err(e) => Err(e),
            Ok(s) => match made_agreed(
                lookup(known, specs[n - 1].kind@)->0,
                specs[n - 1].settings@,
                port(s),
            ) {
                Ok(t) => Ok(t),
                Err(e) => Err(stage_error_text((n - 1) as nat, specs[n - 1].kind@, e)),
            },
        }
    }
}

/// The error of a stage that there is none of.
fn unknown_stage(i: usize, kind: &str, reg: &Registry) -> (r: Error)
    ensures
        r@ == unknown_stage_text(i as nat, kind@, reg@),
{
    let mut s: String = "chain node ".to_owned();
    push_nat(&mut s, i as u128);
    s.append(": no node type named ");
    s.append(quoted(kind).as_str());
    s.append(". Known types: ");
    push_names(&mut s, reg);
    assert(s@ =~= unknown_stage_text(i as nat, kind@, reg@));
    Error::other(s)
}

/// Appends the names of a registry with a comma between.
fn push_names(s: &mut String, reg: &Registry)
    ensures
        final(s)@ == old(s)@ + names_text(reg@),
{
    let names: Vec<StageDesc> = reg.list();
    let n: usize = names.len();
    let ghost e = reg@;
    proof {
        assert(crate::pipeline::registry::descs_view(names@).len() == n);
        assert forall|k: int| 0 <= k < n implies #[trigger] names@[k].name@ == e[k].0.name by {
            assert(crate::pipeline::registry::descs_view(names@)[k]
                == crate::pipeline::registry::descs_of(e)[k]);
        }
        assert(s@ =~= old(s)@ + names_text(e.take(0)));
    }
    let mut i: usize = 0;
    while i < n
        invariant
            i <= n,
            n == names@.len(),
            n == e.len(),
            forall|k: int| 0 <= k < n ==> #[trigger] names@[k].name@ == e[k].0.name,
            s@ == old(s)@ + names_text(e.take(i as int)),
        decreases n - i,
    {
        proof {
            assert(e.take(i + 1).drop_last() =~= e.take(i as int));
            assert(e.take(i + 1).last() == e[i as int]);
            assert(e.take(i + 1)[0] == e[0]);
        }
        if i > 0 {
            s.append(", ");
        }
        s.append(names[i].name);
        i += 1;
        assert(s@ =~= old(s)@ + names_text(e.take(i as int)));
    }
    assert(e.take(n as int) =~= e);
}

/// Builds a linear graph from a chain description.
///
/// Errors name the offending stage and its position: in a chain assembled from
/// a configuration file, a type mismatch without a position is useless.
pub fn build_chain(input: StreamSpec, specs: &[NodeSpec], reg: &Registry) -> (r: Result<
    Graph,
    Error,
>)
    requires
        forall|i: int| 0 <= i < specs@.len() ==> (#[trigger] specs@[i]).wf(),
    ensures
        match missing(specs@, reg@, 0) {
            Some(text) => r matches Err(e) && e@ == text,
            None => match stream_after(input, specs@, reg@, specs@.len()) {
                Err(text) => r matches Err(e) && e@ == text,
                Ok(out) => {
                    &&& r matches Ok(g)
                    &&& g.wf()
                    &&& g.negotiated()
                    &&& g.input == input
                    &&& g.output() == out
                    &&& g.stages@.len() == specs@.len()
                    &&& forall|i: int|
                        0 <= i < g.stages@.len() ==> configured(
                            lookup(reg@, specs@[i].kind@)->0,
                            specs@[i].settings@,
                            #[trigger] g.stages@[i],
                        ) && started(g.stages@[i], stream_at(g.input, g.specs@, i))
                },
            },
        },
{
    let n: usize = specs.len();
    let ghost known = reg@;
    let mut stages: Vec<Stage> = Vec::new();
    let mut outs: Vec<StreamSpec> = Vec::new();
    let mut i: usize = 0;
    while i < n
        invariant
            n == specs@.len(),
            i <= n,
            known == reg@,
            forall|k: int| 0 <= k < specs@.len() ==> (#[trigger] specs@[k]).wf(),
            stages@.len() == i,
            outs@.len() == i,
            missing(specs@, known, 0) == missing(specs@, known, i as nat),
            forall|k: int| 0 <= k < i ==> (#[trigger] stages@[k]).wf(),
            forall|k: int|
                0 <= k < i ==> configured(
                    lookup(known, specs@[k].kind@)->0,
                    specs@[k].settings@,
                    #[trigger] stages@[k],
                ),
        decreases n - i,
    {
        let s: &NodeSpec = &specs[i];
        assert(specs@[i as int].wf());
        match reg.build(s.kind.as_str(), &s.settings) {
            Ok(stage) => {
                stages.push(stage);
                outs.push(input);
            },
            Err(_) => {
                return Err(unknown_stage(i, s.kind.as_str(), reg));
            },
        }
        i += 1;
    }
    let mut g: Graph = Graph { input, stages, specs: outs };
    let ghost before = g.stages@;
    let outcome: Result<(), (usize, Error)> = g.negotiate();
    proof {
        assert forall|k: int| 0 <= k < n implies configured(
            lookup(known, specs@[k].kind@)->0,
            specs@[k].settings@,
            #[trigger] g.stages@[k],
        ) by {
            assert(configured(
                lookup(known, specs@[k].kind@)->0,
                specs@[k].settings@,
                before[k],
            ));
        }
        let good: int = match outcome {
            Ok(_) => n as int,
            Err((k, _)) => k as int,
        };
        assert forall|k: int| 0 <= k < good implies stage_agreed(
            #[trigger] before[k],
            port(stream_at(input, g.specs@, k)),
        ) == Ok::<StreamSpec, Seq<char>>(g.specs@[k]) by {
            if outcome is Ok {
                configured_agrees(
                    lookup(known, specs@[k].kind@)->0,
                    specs@[k].settings@,
                    before[k],
                    port(stream_at(input, g.specs@, k)),
                );
                configured_agrees(
                    lookup(known, specs@[k].kind@)->0,
                    specs@[k].settings@,
                    g.stages@[k],
                    port(stream_at(input, g.specs@, k)),
                );
            }
        }
        streams_follow(input, specs@, known, before, g.specs@, good as nat);
    }
    match outcome {
        Ok(_) => Ok(g),
        Err((k, e)) => {
            let mut s: String = "chain node ".to_owned();
            push_nat(&mut s, k as u128);
            s.append(" (");
            s.append(specs[k].kind.as_str());
            s.append("): ");
            s.append(e.to_string().as_str());
            proof {
                assert(s@ =~= stage_error_text(k as nat, specs@[k as int].kind@, e@));
                configured_agrees(
                    lookup(known, specs@[k as int].kind@)->0,
                    specs@[k as int].settings@,
                    before[k as int],
                    port(stream_at(input, g.specs@, k as int)),
                );
                errors_stay(input, specs@, known, (k + 1) as nat, n as nat);
            }
            Err(Error::other(s))
        },
    }
}

/// Streams that each stage makes of the one before are the streams of the chain.
proof fn streams_follow(
    input: StreamSpec,
    specs: Seq<NodeSpec>,
    known: Seq<(DescView, Factory)>,
    stages: Seq<Stage>,
    outs: Seq<StreamSpec>,
    n: nat,
)
    requires
        n <= specs.len(),
        stages.len() == specs.len(),
        outs.len() == specs.len(),
        forall|k: int|
            0 <= k < specs.len() ==> configured(
                lookup(known, specs[k].kind@)->0,
                specs[k].settings@,
                #[trigger] stages[k],
            ),
        forall|k: int|
            0 <= k < n ==> stage_agreed(#[trigger] stages[k], port(stream_at(input, outs, k)))
                == Ok::<StreamSpec, Seq<char>>(outs[k]),
    ensures
        stream_after(input, specs, known, n) == Ok::<StreamSpec, Seq<char>>(
            stream_at(input, outs, n as int),
        ),
    decreases n,
{
    if n > 0 {
        streams_follow(input, specs, known, stages, outs, (n - 1) as nat);
        configured_agrees(
            lookup(known, specs[n - 1].kind@)->0,
            specs[n - 1].settings@,
            stages[n - 1],
            port(stream_at(input, outs, n - 1)),
        );
    }
}

/// An error on the way is the error of the whole chain.
proof fn errors_stay(
    input: StreamSpec,
    specs: Seq<NodeSpec>,
    known: Seq<(DescView, Factory)>,
    k: nat,
    n: nat,
)
    requires
        k <= n,
        stream_after(input, specs, known, k) is Err,
    ensures
        stream_after(input, specs, known, n) == stream_after(input, specs, known, k),
    decreases n - k,
{
    if k < n {
        errors_stay(input, specs, known, k, (n - 1) as nat);
    }
}

/// A ready-made chain for on-off keyed telemetry: shift, decimate, envelope,
/// detect, decode.
pub fn ook_chain(shift_hz: Micro, decimate: usize, reset_us: u32) -> (r: Vec<NodeSpec>)
    requires
        decimate <= i64::MAX,
    ensures
        forall|i: int| 0 <= i < r@.len() ==> (#[trigger] r@[i]).wf(),
        is_ook_chain(r@, shift_hz@, decimate as int, reset_us as int),
{
    let mut v: Vec<NodeSpec> = Vec::new();
    v.push(NodeSpec::new("mixer").f("shift_hz", shift_hz));
    v.push(NodeSpec::new("decimate").i("factor", decimate as i64));
    v.push(NodeSpec::new("envelope"));
    v.push(
        NodeSpec::new("pulse_detect").f("reset_us", Micro::whole(reset_us as i64)).i(
            "min_pulses",
            20,
        ),
    );
    v.push(NodeSpec::new("protocol_decode"));
    v
}

/// Whether a description is that of the ready-made chain.
pub open spec fn is_ook_chain(
    s: Seq<NodeSpec>,
    shift: int,
    decimate: int,
    reset_us: int,
) -> bool {
    let none = Map::<Seq<char>, ValueView>::empty();
    &&& s.len() == 5
    &&& s[0].kind@ == "mixer"@
    &&& s[0].settings@ == none.insert("shift_hz"@, ValueView::Float(shift))
    &&& s[1].kind@ == "decimate"@
    &&& s[1].settings@ == none.insert("factor"@, ValueView::Int(decimate))
    &&& s[2].kind@ == "envelope"@
    &&& s[2].settings@ == none
    &&& s[3].kind@ == "pulse_detect"@
    &&& s[3].settings@ == none.insert(
        "reset_us"@,
        ValueView::Float(reset_us * 1_000_000),
    ).insert("min_pulses"@, ValueView::Int(20))
    &&& s[4].kind@ == "protocol_decode"@
    &&& s[4].settings@ == none
}

proof fn lookups()
    ensures
        lookup(known(), "mixer"@) == Some(Factory::Mixer),
        lookup(known(), "decimate"@) == Some(Factory::Decimate),
        lookup(known(), "envelope"@) == Some(Factory::Envelope),
        lookup(known(), "pulse_detect"@) == Some(Factory::PulseDetect),
        lookup(known(), "protocol_decode"@) == Some(Factory::ProtocolDecode),
{
    reveal_strlit("decimate");
    reveal_strlit("deemphasis");
    reveal_strlit("envelope");
    reveal_strlit("fm_demod");
    reveal_strlit("mixer");
    reveal_strlit("protocol_decode");
    reveal_strlit("pulse_detect");
    reveal_strlit("real_decimate");
    reveal_with_fuel(lookup, 9);
    assert("mixer"@.len() != "real_decimate"@.len());
    assert("mixer"@.len() != "pulse_detect"@.len());
    assert("mixer"@.len() != "protocol_decode"@.len());
    assert("decimate"@.len() != "real_decimate"@.len());
    assert("decimate"@.len() != "pulse_detect"@.len());
    assert("decimate"@.len() != "protocol_decode"@.len());
    assert("decimate"@.len() != "mixer"@.len());
    assert("decimate"@[0] != "fm_demod"@[0]);
    assert("decimate"@[0] != "envelope"@[0]);
    assert("decimate"@.len() != "deemphasis"@.len());
    assert("envelope"@.len() != "real_decimate"@.len());
    assert("envelope"@.len() != "pulse_detect"@.len());
    assert("envelope"@.len() != "protocol_decode"@.len());
    assert("envelope"@.len() != "mixer"@.len());
    assert("envelope"@[0] != "fm_demod"@[0]);
    assert("pulse_detect"@.len() != "real_decimate"@.len());
    assert("protocol_decode"@.len() != "real_decimate"@.len());
    assert("protocol_decode"@.len() != "pulse_detect"@.len());
}

/// The ready-made chain builds on every complex stream and gives bytes.
pub proof fn the_ook_chain_builds(
    s: Seq<NodeSpec>,
    shift: int,
    decimate: int,
    reset_us: int,
    input: StreamSpec,
)
    requires
        is_ook_chain(s, shift, decimate, reset_us),
        input.kind == PortKind::Iq,
    ensures
        missing(s, known(), 0) is None,
        stream_after(input, s, known(), 5) matches Ok(out) && out.kind == PortKind::Bytes,
{
    lookups();
    reveal_with_fuel(missing, 6);
    reveal_with_fuel(stream_after, 6);
}

/// A stage that refuses its input is an error of the whole chain, which names
/// its position and its kind, whatever follows it.
pub proof fn refusals_name_the_stage(
    input: StreamSpec,
    specs: Seq<NodeSpec>,
    known: Seq<(DescView, Factory)>,
    k: nat,
    s: StreamSpec,
    e: Seq<char>,
)
    requires
        k < specs.len(),
        stream_after(input, specs, known, k) == Ok::<StreamSpec, Seq<char>>(s),
        made_agreed(lookup(known, specs[k as int].kind@)->0, specs[k as int].settings@, port(s))
            == Err::<StreamSpec, Seq<char>>(e),
    ensures
        stream_after(input, specs, known, specs.len()) == Err::<StreamSpec, Seq<char>>(
            stage_error_text(k, specs[k as int].kind@, e),
        ),
{
    errors_stay(input, specs, known, (k + 1) as nat, specs.len());
}

} // verus!
