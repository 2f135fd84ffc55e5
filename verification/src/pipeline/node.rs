//! Stages of the graph: what they are told and what they report to.

use vstd::prelude::*;
use crate::common::Error;
use crate::fixed::{time_of, Micro};
#[allow(unused_imports)]
use crate::fixed::time_spec;
use crate::pipeline::event::Event;
#[allow(unused_imports)]
use crate::pipeline::event::{events_view, EventView};
use crate::pipeline::param::{Param, ParamValue};
use crate::pipeline::port::{StreamSpec, Tag};
#[allow(unused_imports)]
use crate::pipeline::port::TagView;
use crate::text::quoted;
#[allow(unused_imports)]
use crate::text::debug_text;

verus! {

/// What a stage is told about one of its input ports.
#[derive(Clone, Copy, Debug, PartialEq, Eq, Structural)]
pub struct PortSpec {
    pub spec: StreamSpec,
    /// Delay from the source to this port, in samples at this port's rate.
    pub latency: u64,
}

/// The views of a list of tags.
pub open spec fn tags_view(t: Seq<Tag>) -> Seq<TagView> {
    Seq::new(t.len(), |i: int| t[i]@)
}

/// Context of one call.
pub struct NodeCtx {
    /// Index of the first input sample in this call, from stream start.
    pub sample_index: u64,
    pub inputs: Vec<PortSpec>,
    /// Tags within this call's input window, sorted by index.
    pub in_tags: Vec<Tag>,
    pub events: Vec<Event>,
    pub out_tags: Vec<Tag>,
}

impl NodeCtx {
    /// What has been reported.
    pub open spec fn emitted(&self) -> Seq<EventView> {
        events_view(self.events@)
    }

    /// What has been marked.
    pub open spec fn tagged(&self) -> Seq<TagView> {
        tags_view(self.out_tags@)
    }

    pub fn new(sample_index: u64, inputs: Vec<PortSpec>, in_tags: Vec<Tag>) -> (r: NodeCtx)
        ensures
            r.sample_index == sample_index,
            r.inputs == inputs,
            r.in_tags == in_tags,
            r.emitted() == Seq::<EventView>::empty(),
            r.tagged() == Seq::<TagView>::empty(),
    {
        let r = NodeCtx {
            sample_index,
            inputs,
            in_tags,
            events: Vec::new(),
            out_tags: Vec::new(),
        };
        assert(r.emitted() =~= Seq::empty());
        assert(r.tagged() =~= Seq::empty());
        r
    }

    /// Whether all but the reports and marks is as it was.
    pub open spec fn same_call(&self, other: &NodeCtx) -> bool {
        &&& self.sample_index == other.sample_index
        &&& self.inputs == other.inputs
        &&& self.in_tags == other.in_tags
    }

    /// Reports something that is not a sample.
    pub fn emit(&mut self, e: Event)
        ensures
            final(self).same_call(&*old(self)),
            final(self).emitted() == old(self).emitted().push(e@),
            final(self).tagged() == old(self).tagged(),
    {
        self.events.push(e);
        assert(self.emitted() =~= old(self).emitted().push(e@));
    }

    /// Attaches metadata to an output sample.
    pub fn tag(&mut self, t: Tag)
        ensures
            final(self).same_call(&*old(self)),
            final(self).emitted() == old(self).emitted(),
            final(self).tagged() == old(self).tagged().push(t@),
    {
        self.out_tags.push(t);
        assert(self.tagged() =~= old(self).tagged().push(t@));
    }

    /// Millionths of a second from the start of the stream to this call, at the
    /// rate of the first input. Without an input a sample lasts a second.
    pub fn timestamp(&self) -> (r: i128)
        ensures
            r == time_spec(
                self.sample_index as nat,
                if self.inputs@.len() == 0 {
                    1_000_000
                } else {
                    self.inputs@[0].spec.rate@
                },
            ),
    {
        let rate: Micro = if self.inputs.len() == 0 {
            Micro(1_000_000)
        } else {
            self.inputs[0].spec.rate
        };
        time_of(self.sample_index, rate)
    }

    /// Takes the reports and marks out.
    pub fn finish(self) -> (r: (Vec<Event>, Vec<Tag>))
        ensures
            events_view(r.0@) == self.emitted(),
            tags_view(r.1@) == self.tagged(),
    {
        (self.events, self.out_tags)
    }
}

/// The error of a parameter that a stage does not have.
pub open spec fn unknown_parameter(stage: Seq<char>, name: Seq<char>) -> Seq<char> {
    stage + ": unknown parameter "@ + debug_text(name)
}

/// The error of a parameter that a stage does not have.
pub fn unknown(stage: &str, name: &str) -> (r: Error)
    ensures
        r@ == unknown_parameter(stage@, name@),
{
    let mut s: String = stage.to_owned();
    s.append(": unknown parameter ");
    s.append(quoted(name).as_str());
    assert(s@ =~= unknown_parameter(stage@, name@));
    Error::other(s)
}

/// The input of a stage that takes one, which is an error to leave out.
pub fn only_input(stage: &str, inputs: &[PortSpec]) -> (r: Result<PortSpec, Error>)
    ensures
        match r {
            Ok(input) => inputs@.len() > 0 && input == inputs@[0],
            Err(e) => inputs@.len() == 0 && e@ == stage@ + ": needs one input"@,
        },
{
    if inputs.len() == 0 {
        let mut s: String = stage.to_owned();
        s.append(": needs one input");
        return Err(Error::other(s));
    }
    Ok(inputs[0])
}

/// A stage with one input and one output that computes on payloads of type `P`.
pub trait Simple<P> {
    fn name(&self) -> &'static str;

    /// What a stage may make of that input, and what it may be afterwards:
    /// anything, unless it says so here.
    open spec fn makes(&self, input: PortSpec, after: &Self, r: Result<StreamSpec, Error>) -> bool {
        true
    }

    fn negotiate(&mut self, input: &PortSpec) -> (r: Result<StreamSpec, Error>)
        ensures
            old(self).makes(*input, &*final(self), r),
    ;

    fn latency(&self) -> (r: u64)
        default_ensures
            r == 0,
    {
        0
    }

    /// What may come of a call: what the stage, the output and the context are
    /// afterwards, and the result. Anything, unless a stage says so here.
    open spec fn turns(
        &self,
        input: P,
        output: P,
        ctx: NodeCtx,
        after: &Self,
        output_after: P,
        ctx_after: NodeCtx,
        r: Result<(), Error>,
    ) -> bool {
        true
    }

    fn process(&mut self, input: &P, output: &mut P, ctx: &mut NodeCtx) -> (r: Result<(), Error>)
        ensures
            old(self).turns(
                *input,
                *old(output),
                *old(ctx),
                &*final(self),
                *final(output),
                *final(ctx),
                r,
            ),
    ;

    fn reset(&mut self)
        default_ensures
            &*final(self) == &*old(self),
    {
    }

    fn params(&self) -> (r: Vec<Param>)
        default_ensures
            r@ == Seq::<Param>::empty(),
    {
        Vec::new()
    }

    /// Unless a stage has parameters, none is known and nothing changes.
    fn set_param(&mut self, name: &str, _value: ParamValue) -> (r: Result<(), Error>)
        default_ensures
            &*final(self) == &*old(self),
            exists|n: &'static str| #[trigger]
                call_ensures(Self::name, (&*old(self),), n) && (r matches Err(e) && e@
                    == unknown_parameter(n@, name@)),
    {
        Err(unknown(self.name(), name))
    }
}

/// A block in the graph that computes on payloads of type `P`.
pub trait Node<P> {
    fn name(&self) -> &'static str;

    fn num_inputs(&self) -> (r: usize)
        default_ensures
            r == 1,
    {
        1
    }

    fn num_outputs(&self) -> (r: usize)
        default_ensures
            r == 1,
    {
        1
    }

    /// What a node may declare for those inputs, and what it may be afterwards:
    /// anything, unless it says so here.
    open spec fn declares(
        &self,
        inputs: Seq<PortSpec>,
        after: &Self,
        r: Result<Vec<StreamSpec>, Error>,
    ) -> bool {
        true
    }

    /// Validates inputs and declares one spec per output port. It is run again
    /// whenever a rate upstream changes.
    fn negotiate(&mut self, inputs: &[PortSpec]) -> (r: Result<Vec<StreamSpec>, Error>)
        ensures
            old(self).declares(inputs@, &*final(self), r),
    ;

    /// Delay this node adds on `port`, in output samples.
    fn latency(&self, _port: usize) -> (r: u64)
        default_ensures
            r == 0,
    {
        0
    }

    /// Whether a node can be called with so many inputs and outputs: always,
    /// unless it says so here.
    open spec fn takes(&self, inputs: nat, outputs: nat) -> bool {
        true
    }

    /// What may come of a call: what the node, the outputs and the context are
    /// afterwards, and the result. Anything, unless a node says so here.
    open spec fn handles(
        &self,
        inputs: Seq<&P>,
        outputs: Seq<P>,
        ctx: NodeCtx,
        after: &Self,
        outputs_after: Seq<P>,
        ctx_after: NodeCtx,
        r: Result<(), Error>,
    ) -> bool {
        true
    }

    /// Transforms the inputs into the outputs, one of each per port.
    fn process(&mut self, inputs: &[&P], outputs: &mut [P], ctx: &mut NodeCtx) -> (r: Result<
        (),
        Error,
    >)
        requires
            old(self).takes(inputs@.len(), old(outputs)@.len()),
        ensures
            final(outputs)@.len() == old(outputs)@.len(),
            old(self).handles(
                inputs@,
                old(outputs)@,
                *old(ctx),
                &*final(self),
                final(outputs)@,
                *final(ctx),
                r,
            ),
    ;

    /// Drops all history.
    fn reset(&mut self)
        default_ensures
            &*final(self) == &*old(self),
    {
    }

    fn params(&self) -> (r: Vec<Param>)
        default_ensures
            r@ == Seq::<Param>::empty(),
    {
        Vec::new()
    }

    /// Unless a node has parameters, none is known and nothing changes.
    fn set_param(&mut self, name: &str, _value: ParamValue) -> (r: Result<(), Error>)
        default_ensures
            &*final(self) == &*old(self),
            exists|n: &'static str| #[trigger]
                call_ensures(Self::name, (&*old(self),), n) && (r matches Err(e) && e@
                    == unknown_parameter(n@, name@)),
    {
        Err(unknown(self.name(), name))
    }
}

/// What a node makes of what its stage made of the only input.
pub open spec fn one_output(
    s: Result<StreamSpec, Error>,
    r: Result<Vec<StreamSpec>, Error>,
) -> bool {
    match s {
        Ok(spec) => r matches Ok(v) && v@ == seq![spec],
        Err(e) => r matches Err(x) && x == e,
    }
}

/// A stage with one input and one output is a node: each call is one of the
/// stage, with the same arguments, and has its results. Where a call changes the
/// node, `m` is what the stage was called through.
impl<P, T: Simple<P>> Node<P> for T {
    fn name(&self) -> (r: &'static str)
        ensures
            call_ensures(<T as Simple<P>>::name, (self,), r),
    {
        Simple::name(self)
    }

    /// What the stage makes of the first input. Without one there is nothing to
    /// ask it.
    open spec fn declares(
        &self,
        inputs: Seq<PortSpec>,
        after: &Self,
        r: Result<Vec<StreamSpec>, Error>,
    ) -> bool {
        if inputs.len() == 0 {
            &&& *after == *self
            &&& exists|n: &'static str| #[trigger]
                call_ensures(<T as Simple<P>>::name, (self,), n) && (r matches Err(e) && e@ == n@
                    + ": needs one input"@)
        } else {
            exists|s: Result<StreamSpec, Error>| #[trigger]
                Simple::makes(self, inputs[0], after, s) && one_output(s, r)
        }
    }

    fn negotiate(&mut self, inputs: &[PortSpec]) -> (r: Result<Vec<StreamSpec>, Error>) {
        match only_input(Simple::name(self), inputs) {
            Ok(input) => match Simple::negotiate(self, &input) {
                Ok(spec) => {
                    let mut out: Vec<StreamSpec> = Vec::new();
                    out.push(spec);
                    Ok(out)
                },
                Err(e) => Err(e),
            },
            Err(e) => Err(e),
        }
    }

    fn latency(&self, _port: usize) -> u64 {
        Simple::latency(self)
    }

    /// There is an input and an output to hand to the stage.
    open spec fn takes(&self, inputs: nat, outputs: nat) -> bool {
        inputs > 0 && outputs > 0
    }

    /// What comes of the stage's own call on the first input and output. Other
    /// outputs stay as they are.
    open spec fn handles(
        &self,
        inputs: Seq<&P>,
        outputs: Seq<P>,
        ctx: NodeCtx,
        after: &Self,
        outputs_after: Seq<P>,
        ctx_after: NodeCtx,
        r: Result<(), Error>,
    ) -> bool {
        &&& outputs_after == outputs.update(0, outputs_after[0])
        &&& Simple::turns(
            self,
            *inputs[0],
            outputs[0],
            ctx,
            after,
            outputs_after[0],
            ctx_after,
            r,
        )
    }

    fn process(&mut self, inputs: &[&P], outputs: &mut [P], ctx: &mut NodeCtx) -> (r: Result<
        (),
        Error,
    >) {
        Simple::process(self, inputs[0], &mut outputs[0], ctx)
    }

    fn reset(&mut self)
        ensures
            exists|m: &mut T| #[trigger]
                call_ensures(<T as Simple<P>>::reset, (m,), ()) && *m == *old(self)
                    && *final(m) == *final(self),
    {
        Simple::reset(self)
    }

    fn params(&self) -> (r: Vec<Param>)
        ensures
            call_ensures(<T as Simple<P>>::params, (self,), r),
    {
        Simple::params(self)
    }

    fn set_param(&mut self, name: &str, value: ParamValue) -> (r: Result<(), Error>)
        ensures
            exists|m: &mut T| #[trigger]
                call_ensures(<T as Simple<P>>::set_param, (m, name, value), r) && *m == *old(self)
                    && *final(m) == *final(self),
    {
        Simple::set_param(self, name, value)
    }
}

} // verus!
