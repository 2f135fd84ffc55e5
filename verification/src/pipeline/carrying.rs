//! What streams, settings and calls carry from one stage to the next.

use vstd::prelude::*;
#[allow(unused_imports)]
use crate::common::{driver_text, reaches, DriverKind, Error, Hz, TunerRange};
#[allow(unused_imports)]
use crate::fixed::{times_are_right, Micro};
#[allow(unused_imports)]
use crate::pipeline::event::Event;
#[allow(unused_imports)]
use crate::pipeline::node::{one_output, only_input, Node, NodeCtx, PortSpec, Simple};
#[allow(unused_imports)]
use crate::pipeline::param::{Param, ParamRange, ValueView};
#[allow(unused_imports)]
use crate::pipeline::port::{PortKind, StreamSpec, Tag};
#[allow(unused_imports)]
use crate::pipeline::registry::{lookup, placed, DescView};

verus! {

/// A complex stream is one channel as wide as its rate.
pub proof fn a_stream_is_as_wide_as_its_rate(rate: Micro, center: Hz, s: StreamSpec)
    requires
        call_ensures(StreamSpec::iq, (rate, center), s),
    ensures
        s.kind is Iq,
        s.rate == rate,
        s.bandwidth == rate,
        s.center == center,
        s.channels == 1,
{
}

/// A stream of another kind or rate is otherwise the same.
pub proof fn a_stream_changes_one_thing(
    s: StreamSpec,
    kind: PortKind,
    rate: Micro,
    t: StreamSpec,
    u: StreamSpec,
)
    requires
        call_ensures(StreamSpec::with_kind, (s, kind), t),
        call_ensures(StreamSpec::with_rate, (s, rate), u),
    ensures
        t.kind == kind && t.rate == s.rate,
        u.rate == rate && u.kind == s.kind,
        t.center == s.center && t.bandwidth == s.bandwidth && t.channels == s.channels,
        u.center == s.center && u.bandwidth == s.bandwidth && u.channels == s.channels,
{
}

/// Each of several channels keeps the rate that the one had.
pub proof fn channels_keep_their_rate(s: StreamSpec, channels: usize, t: StreamSpec)
    requires
        call_ensures(StreamSpec::with_channels, (s, channels), t),
        channels >= 1,
    ensures
        t.channels == channels,
        t.rate@ == channels * s.rate@,
        t.kind == s.kind && t.center == s.center && t.bandwidth == s.bandwidth,
{
    assert(channels * s.rate@ == s.rate@ * channels) by (nonlinear_arith);
}

/// A call is timed by the samples before it at the rate of its first input, and
/// in seconds where it has none.
pub proof fn calls_are_timed_by_their_samples(c: &NodeCtx, r: i128)
    requires
        call_ensures(NodeCtx::timestamp, (c,), r),
    ensures
        c.inputs@.len() == 0 ==> r == 1_000_000 * c.sample_index,
        c.inputs@.len() > 0 && c.inputs@[0].spec.rate@ > 0 ==> ({
            let rate = c.inputs@[0].spec.rate@;
            -rate <= 2 * (rate * r) - 2 * 1_000_000 * 1_000_000 * c.sample_index <= rate
        }),
{
    if c.inputs@.len() == 0 {
        times_are_right(c.sample_index as nat, 1_000_000);
    } else {
        times_are_right(c.sample_index as nat, c.inputs@[0].spec.rate@);
    }
}

/// What a call gives off comes out of it in order, and nothing else.
pub proof fn calls_give_off_what_they_are_given(c: &mut NodeCtx, e: Event)
    requires
        call_ensures(NodeCtx::emit, (c, e), ()),
    ensures
        final(c).emitted() == old(c).emitted().push(e@),
        final(c).tagged() == old(c).tagged(),
        final(c).sample_index == old(c).sample_index,
{
}

/// What a call marks comes out of it in order, and nothing else.
pub proof fn calls_mark_what_they_are_given(c: &mut NodeCtx, t: Tag)
    requires
        call_ensures(NodeCtx::tag, (c, t), ()),
    ensures
        final(c).tagged() == old(c).tagged().push(t@),
        final(c).emitted() == old(c).emitted(),
        final(c).sample_index == old(c).sample_index,
{
}

/// A stage with one input takes the first, and says which stage has none.
pub proof fn the_first_input_is_taken(
    stage: &str,
    inputs: &[PortSpec],
    r: Result<PortSpec, Error>,
)
    requires
        call_ensures(only_input, (stage, inputs), r),
    ensures
        r is Ok <==> inputs@.len() > 0,
        r matches Ok(p) ==> p == inputs@[0],
        r matches Err(e) ==> e@ == stage@ + ": needs one input"@,
{
}

/// A parameter is called by its label, and by its name where it has none.
pub proof fn parameters_are_called_by_their_label(p: &Param, r: &'static str)
    requires
        call_ensures(Param::display_label, (p,), r),
    ensures
        p@.label.len() > 0 ==> r@ == p@.label,
        p@.label.len() == 0 ==> r@ == p@.name,
{
}

/// A parameter has the name, the value and the ends that it was made with.
pub proof fn parameters_are_made_as_asked(
    name: &'static str,
    x: Micro,
    lo: Micro,
    hi: Micro,
    n: i64,
    a: i64,
    z: i64,
    b: bool,
    p: Param,
    q: Param,
    s: Param,
)
    requires
        call_ensures(Param::float, (name, x, lo, hi), p),
        call_ensures(Param::integer, (name, n, a, z), q),
        call_ensures(Param::switch, (name, b), s),
    ensures
        p@.name == name@ && p@.value == ValueView::Float(x@) && p@.range == ParamRange::Float(
            lo,
            hi,
        ),
        q@.name == name@ && q@.value == ValueView::Int(n as int) && q@.range == ParamRange::Int(
            a,
            z,
        ),
        s@.name == name@ && s@.value == ValueView::Bool(b) && s@.range == ParamRange::Any,
        p@.unit.len() == 0 && !p@.log && !p@.affects_rate,
{
}

/// A tuner reaches a frequency from its lowest to its highest, both included.
pub proof fn ends_of_a_range_are_reached(t: TunerRange, f: Hz)
    requires
        !t.range@.exhausted,
    ensures
        reaches(t, f) <==> t.range@.start <= f.0 && f.0 <= t.range@.end,
{
}

/// A frequency in megahertz is so many millions of hertz.
pub proof fn megahertz_are_millions(n: u64, r: Hz)
    requires
        call_ensures(Hz::mhz, (n,), r),
    ensures
        r.0 == n * 1000 * 1000,
{
}

/// Each driver has a name of its own.
pub proof fn drivers_are_told_apart(k: DriverKind)
    ensures
        k is RtlSdr <==> driver_text(k) == "rtlsdr"@,
        k is HackRf <==> driver_text(k) == "hackrf"@,
        k is File <==> driver_text(k) == "file"@,
        k is Synthetic <==> driver_text(k) == "synthetic"@,
{
    reveal_strlit("rtlsdr");
    reveal_strlit("hackrf");
    reveal_strlit("file");
    reveal_strlit("synthetic");
    assert("rtlsdr"@.len() == 6 && "hackrf"@.len() == 6);
    assert("file"@.len() == 4 && "synthetic"@.len() == 9);
    assert("rtlsdr"@[0] == 'r' && "hackrf"@[0] == 'h');
}

/// A kind of stage that is looked up is one of the entries of that name, and an
/// entry of that name is enough for one to be found.
pub proof fn what_is_looked_up_is_there<F>(e: Seq<(DescView, F)>, name: Seq<char>)
    ensures
        lookup(e, name) is Some <==> exists|i: int| 0 <= i < e.len() && (#[trigger] e[i]).0.name == name,
        lookup(e, name) matches Some(f) ==> exists|i: int|
            0 <= i < e.len() && (#[trigger] e[i]).0.name == name && e[i].1 == f,
    decreases e.len(),
{
    if e.len() > 0 {
        let r = e.drop_last();
        what_is_looked_up_is_there(r, name);
        if e.last().0.name == name {
            assert(e[e.len() - 1].0.name == name);
        } else {
            if lookup(e, name) is Some {
                let f = lookup(e, name)->0;
                let i = choose|i: int|
                    0 <= i < r.len() && (#[trigger] r[i]).0.name == name && r[i].1 == f;
                assert(e[i] == r[i]);
            }
            if exists|i: int| 0 <= i < e.len() && (#[trigger] e[i]).0.name == name {
                let i = choose|i: int| 0 <= i < e.len() && (#[trigger] e[i]).0.name == name;
                assert(r[i].0.name == name);
            }
        }
    }
}

/// Registering a kind of stage keeps every other as it was described.
pub proof fn registering_keeps_the_others<F>(e: Seq<(DescView, F)>, x: (DescView, F))
    ensures
        placed(e, x).len() == e.len() + 1,
        placed(e, x).contains(x),
        forall|y: (DescView, F)| e.contains(y) ==> #[trigger] placed(e, x).contains(y),
    decreases e.len(),
{
    let d = placed(e, x);
    if d == e.push(x) {
        assert(d[e.len() as int] == x);
        assert forall|y: (DescView, F)| e.contains(y) implies #[trigger] d.contains(y) by {
            let i = choose|i: int| 0 <= i < e.len() && e[i] == y;
            assert(d[i] == y);
        }
    } else {
        let r = e.drop_last();
        registering_keeps_the_others(r, x);
        let f = placed(r, x);
        let i = choose|i: int| 0 <= i < f.len() && f[i] == x;
        assert(d[i] == x);
        assert forall|y: (DescView, F)| e.contains(y) implies #[trigger] d.contains(y) by {
            let i = choose|i: int| 0 <= i < e.len() && e[i] == y;
            if i < r.len() {
                assert(r[i] == y);
                assert(f.contains(y));
                let k = choose|k: int| 0 <= k < f.len() && f[k] == y;
                assert(d[k] == y);
            } else {
                assert(d[f.len() as int] == y);
            }
        }
    }
}

/// A stage as a node declares one output for its first input, or fails as the
/// stage does. Without an input it is left as it was and fails.
pub proof fn a_stage_declares_one_output<P, T: Simple<P>>(
    t: &T,
    inputs: Seq<PortSpec>,
    after: &T,
    r: Result<Vec<StreamSpec>, Error>,
)
    requires
        <T as Node<P>>::declares(t, inputs, after, r),
    ensures
        inputs.len() == 0 ==> r is Err && *after == *t,
        r matches Ok(v) ==> v@.len() == 1 && inputs.len() > 0 && <T as Simple<P>>::makes(
            t,
            inputs[0],
            after,
            Ok(v@[0]),
        ),
        r matches Err(e) ==> inputs.len() > 0 ==> <T as Simple<P>>::makes(
            t,
            inputs[0],
            after,
            Err(e),
        ),
{
    if inputs.len() > 0 {
        let s = choose|s: Result<StreamSpec, Error>| #[trigger]
            <T as Simple<P>>::makes(t, inputs[0], after, s) && one_output(s, r);
        assert(<T as Simple<P>>::makes(t, inputs[0], after, s) && one_output(s, r));
    }
}

/// A stage as a node turns its first input into its first output and leaves every
/// other output alone.
pub proof fn a_stage_fills_its_first_output<P, T: Simple<P>>(
    t: &T,
    inputs: Seq<&P>,
    outputs: Seq<P>,
    ctx: NodeCtx,
    after: &T,
    outputs_after: Seq<P>,
    ctx_after: NodeCtx,
    r: Result<(), Error>,
)
    requires
        outputs.len() > 0,
        <T as Node<P>>::handles(t, inputs, outputs, ctx, after, outputs_after, ctx_after, r),
    ensures
        outputs_after.len() == outputs.len(),
        forall|k: int| 1 <= k < outputs.len() ==> #[trigger] outputs_after[k] == outputs[k],
        <T as Simple<P>>::turns(
            t,
            *inputs[0],
            outputs[0],
            ctx,
            after,
            outputs_after[0],
            ctx_after,
            r,
        ),
{
}

} // verus!
