//! Wideband channel bank: one filter bank feeding many independent chains.
//!
//! The filter bank gives one frame at a time, a sample per channel; chains need
//! a run of samples per channel. This module holds the layout of the channels,
//! the chain of each, the transposition between the two orders, and which
//! chains run. Filtering, and running the chains, is the caller's part.

use vstd::prelude::*;
use crate::common::{Error, Hz};
use crate::dsp::channelizer::Channelizer;
#[allow(unused_imports)]
use crate::dsp::channelizer::{
    channel_spec, offset_spec, offsets_lie_within_half_the_rate, signed_channel, Framing,
};
use crate::fixed::Micro;
#[allow(unused_imports)]
use crate::fixed::{
    nearest_at_most, nearest_bounds, nearest_signed_is, nearest_signed_spec, nearest_spec,
    rounding_is_close,
};
use crate::nodes::chain::{build_chain, Graph, NodeSpec};
#[allow(unused_imports)]
use crate::nodes::chain::{configured, graph_emptied, missing, started, stream_after, stream_at};
#[allow(unused_imports)]
use crate::nodes::stage::Stage;
use crate::pipeline::event::Event;
#[allow(unused_imports)]
use crate::pipeline::event::{events_view, EventView};
#[allow(unused_imports)]
use crate::pipeline::port::PortKind;
use crate::pipeline::port::StreamSpec;
use crate::pipeline::registry::Registry;
#[allow(unused_imports)]
use crate::pipeline::registry::{lookup, DescView};
#[allow(unused_imports)]
use crate::nodes::stage::Factory;
use crate::text::push_nat;
#[allow(unused_imports)]
use crate::text::digits;

verus! {

/// An event, with where it came from.
#[derive(Debug, PartialEq, Eq)]
pub struct ChannelEvent {
    pub channel: usize,
    /// Centre frequency of that channel.
    pub center: Hz,
    pub event: Event,
}

impl Clone for ChannelEvent {
    fn clone(&self) -> (r: ChannelEvent)
        ensures
            r.channel == self.channel,
            r.center == self.center,
            r.event@ == self.event@,
    {
        ChannelEvent { channel: self.channel, center: self.center, event: self.event.clone() }
    }
}

/// How idle channels are handled.
#[derive(Clone, Copy, Debug, PartialEq, Eq, Structural)]
pub enum Gating {
    /// Run every channel that has a chain, every block.
    Always,
    /// Run a channel's chain only while a burst is detected there. A gated
    /// chain sees a discontinuous stream, which pulse detection does not mind.
    OnDetection,
}

/// Channels of a tile and frames of a block in the transposition.
pub const TILE: usize = 32;

pub const FBLOCK: usize = 64;

/// Frequencies up to here are handled.
pub const MAX_HZ: u64 = 4_000_000_000_000;

/// Whether the place of a chain holds the same chain without its history.
pub open spec fn slot_emptied(before: Option<Graph>, after: Option<Graph>) -> bool {
    match (before, after) {
        (Some(g), Some(h)) => graph_emptied(g, h),
        (None, None) => true,
        _ => false,
    }
}

/// A bank of channels.
pub struct ChannelBank<T> {
    pub ch: Channelizer<T>,
    pub input_rate: Micro,
    pub center: Hz,
    pub graphs: Vec<Option<Graph>>,
    pub gating: Gating,
}

/// Centre frequency of channel `m`, cut to whole hertz.
pub open spec fn center_spec(center: int, m: nat, channels: nat, rate: int) -> int {
    let f = center * 1_000_000 + offset_spec(m, channels, rate);
    if f < 0 {
        0
    } else {
        f / 1_000_000
    }
}

/// The channel nearest a frequency.
pub open spec fn channel_at(f: int, center: int, channels: nat, rate: int) -> int {
    channel_spec((f - center) * 1_000_000, channels, rate)
}

/// Samples of one channel in a run of frames.
pub open spec fn lane<T>(frames: Seq<T>, channels: int, count: nat, c: int) -> Seq<T> {
    Seq::new(count, |f: int| frames[f * channels + c])
}

/// What a channel's chain is told of its stream.
pub open spec fn channel_stream(center: int, m: nat, channels: nat, rate: int) -> StreamSpec {
    StreamSpec {
        kind: PortKind::Iq,
        rate: Micro(nearest_spec((rate * 2) as nat, channels) as i64),
        center: Hz(center_spec(center, m, channels, rate) as u64),
        bandwidth: Micro(nearest_spec(rate as nat, channels) as i64),
        channels: 1,
    }
}

/// The error of a channel that the bank does not have.
pub open spec fn out_of_range_text(ch: nat, channels: nat) -> Seq<char> {
    "channel "@ + digits(ch) + " out of range, bank has "@ + digits(channels)
}

/// The error of a chain that a channel cannot have.
pub open spec fn channel_error_text(ch: nat, e: Seq<char>) -> Seq<char> {
    "channel "@ + digits(ch) + ": "@ + e
}

/// Whether a description builds on a stream, and the error where it does not.
pub open spec fn chain_error(
    input: StreamSpec,
    specs: Seq<NodeSpec>,
    known: Seq<(DescView, Factory)>,
) -> Option<Seq<char>> {
    match missing(specs, known, 0) {
        Some(e) => Some(e),
        None => match stream_after(input, specs, known, specs.len()) {
            Ok(_) => None,
            Err(e) => Some(e),
        },
    }
}

/// Whether a graph is what a description asks for on a stream.
pub open spec fn built(
    g: Graph,
    input: StreamSpec,
    specs: Seq<NodeSpec>,
    known: Seq<(DescView, Factory)>,
) -> bool {
    &&& g.wf()
    &&& g.negotiated()
    &&& g.input == input
    &&& g.stages@.len() == specs.len()
    &&& forall|i: int|
        0 <= i < g.stages@.len() ==> configured(
            lookup(known, specs[i].kind@)->0,
            specs[i].settings@,
            #[trigger] g.stages@[i],
        ) && started(g.stages@[i], stream_at(g.input, g.specs@, i))
}

/// How many of the first `n` channels have a chain.
pub open spec fn with_chain(graphs: Seq<Option<Graph>>, n: nat) -> nat
    decreases n,
{
    if n == 0 {
        0
    } else {
        with_chain(graphs, (n - 1) as nat) + if graphs[n - 1] is Some {
            1nat
        } else {
            0
        }
    }
}

/// Whether channel `c` runs.
pub open spec fn runs_now(
    graphs: Seq<Option<Graph>>,
    gating: Gating,
    open: Seq<bool>,
    c: int,
) -> bool {
    graphs[c] is Some && (gating == Gating::Always || open[c])
}

/// The first `n` channels that run, in order.
pub open spec fn planned(
    graphs: Seq<Option<Graph>>,
    gating: Gating,
    open: Seq<bool>,
    n: nat,
) -> Seq<int>
    decreases n,
{
    if n == 0 {
        Seq::empty()
    } else if runs_now(graphs, gating, open, n - 1) {
        planned(graphs, gating, open, (n - 1) as nat).push(n - 1)
    } else {
        planned(graphs, gating, open, (n - 1) as nat)
    }
}

/// The events of one channel among results, in the order they came.
pub open spec fn of_channel(results: Seq<(int, Seq<EventView>)>, c: int) -> Seq<EventView>
    decreases results.len(),
{
    if results.len() == 0 {
        Seq::empty()
    } else if results.last().0 == c {
        of_channel(results.drop_last(), c) + results.last().1
    } else {
        of_channel(results.drop_last(), c)
    }
}

/// Events tagged with their channel.
pub open spec fn tagged(events: Seq<EventView>, c: int, center: int) -> Seq<
    (int, int, EventView),
> {
    Seq::new(events.len(), |i: int| (c, center, events[i]))
}

/// The events of the first `n` channels, in channel order.
pub open spec fn flattened(
    results: Seq<(int, Seq<EventView>)>,
    n: nat,
    center: int,
    channels: nat,
    rate: int,
) -> Seq<(int, int, EventView)>
    decreases n,
{
    if n == 0 {
        Seq::empty()
    } else {
        flattened(results, (n - 1) as nat, center, channels, rate) + tagged(
            of_channel(results, n - 1),
            n - 1,
            center_spec(center, (n - 1) as nat, channels, rate),
        )
    }
}

/// Results as mathematical values.
pub open spec fn results_view(r: Seq<(usize, Vec<Event>)>) -> Seq<(int, Seq<EventView>)> {
    Seq::new(r.len(), |i: int| (r[i].0 as int, events_view(r[i].1@)))
}

/// Channel events as mathematical values.
pub open spec fn channel_events_view(e: Seq<ChannelEvent>) -> Seq<(int, int, EventView)> {
    Seq::new(e.len(), |i: int| (e[i].channel as int, e[i].center.0 as int, e[i].event@))
}

proof fn center_is_small(center: int, m: nat, channels: nat, rate: int)
    requires
        0 <= center <= MAX_HZ,
        m < channels,
        channels >= 2,
        channels % 2 == 0,
        0 <= rate <= 2 * MAX_HZ * 1_000_000 <= i64::MAX,
    ensures
        0 <= center_spec(center, m, channels, rate) <= 2 * MAX_HZ,
        -4_000_000_000_000_000_001 <= offset_spec(m, channels, rate)
            <= 4_000_000_000_000_000_001,
{
    offsets_lie_within_half_the_rate(m, channels, rate);
}

impl<T: Copy> ChannelBank<T> {
    /// What is wrong with a description as the chain of channel `c`, if anything.
    pub open spec fn error_on(
        &self,
        c: int,
        specs: Seq<NodeSpec>,
        reg: Seq<(DescView, Factory)>,
    ) -> Option<Seq<char>> {
        chain_error(
            channel_stream(self.center.0 as int, c as nat, self.ch.width(), self.input_rate@),
            specs,
            reg,
        )
    }

    /// Whether a description can be the chain of channel `c`.
    pub open spec fn can_have(
        &self,
        c: int,
        specs: Seq<NodeSpec>,
        reg: Seq<(DescView, Factory)>,
    ) -> bool {
        self.error_on(c, specs, reg) is None
    }

    /// Whether a chain is what a description asks for on channel `c`.
    pub open spec fn has_got(
        &self,
        c: int,
        specs: Seq<NodeSpec>,
        reg: Seq<(DescView, Factory)>,
        chain: Option<Graph>,
    ) -> bool {
        chain matches Some(g) && built(
            g,
            channel_stream(self.center.0 as int, c as nat, self.ch.width(), self.input_rate@),
            specs,
            reg,
        )
    }

    /// Whether giving every channel a chain stops at channel `c`: it is the first
    /// that cannot have it, those before it have got theirs, and from it on every
    /// channel keeps what it had.
    pub open spec fn stops_at(
        &self,
        c: int,
        specs: Seq<NodeSpec>,
        reg: Seq<(DescView, Factory)>,
        e: Seq<char>,
        now: ChannelBank<T>,
    ) -> bool {
        &&& 0 <= c < self.ch.width()
        &&& self.error_on(c, specs, reg) matches Some(text) && e == channel_error_text(
            c as nat,
            text,
        )
        &&& forall|k: int| 0 <= k < c ==> #[trigger] self.can_have(k, specs, reg)
        &&& forall|k: int|
            0 <= k < c ==> self.has_got(k, specs, reg, #[trigger] now.graphs@[k])
        &&& forall|k: int|
            c <= k < self.graphs@.len() ==> #[trigger] now.graphs@[k] == self.graphs@[k]
    }

    pub open spec fn wf(&self) -> bool {
        &&& self.ch.wf()
        &&& self.graphs@.len() == self.ch.width()
        &&& 0 < self.input_rate@ <= 8_000_000_000_000_000_000
        &&& self.center.0 <= MAX_HZ
        &&& forall|c: int|
            0 <= c < self.graphs@.len() ==> ((#[trigger] self.graphs@[c]) matches Some(g)
                ==> g.wf())
    }

    /// Whether all but the chains is as it was.
    pub open spec fn same_layout(&self, other: &Self) -> bool {
        &&& self.ch == other.ch
        &&& self.input_rate == other.input_rate
        &&& self.center == other.center
        &&& self.gating == other.gating
        &&& self.graphs@.len() == other.graphs@.len()
    }

    /// A bank of `channels`, which must be even, none of which has a chain.
    pub fn new(
        channels: usize,
        taps_per_branch: usize,
        input_rate: Micro,
        center: Hz,
        zero: T,
    ) -> (r: ChannelBank<T>)
        requires
            channels >= 2,
            channels % 2 == 0,
            taps_per_branch >= 2,
            2 * (channels * taps_per_branch) <= usize::MAX,
            0 < input_rate@ <= 8_000_000_000_000_000_000,
            center.0 <= MAX_HZ,
        ensures
            r.wf(),
            r.ch.width() == channels,
            r.ch.depth() == taps_per_branch,
            r.input_rate == input_rate,
            r.center == center,
            r.gating == Gating::Always,
            forall|c: int| 0 <= c < channels ==> #[trigger] r.graphs@[c] is None,
    {
        let ch: Channelizer<T> = Channelizer::new(channels, taps_per_branch, zero);
        let mut graphs: Vec<Option<Graph>> = Vec::new();
        let mut i: usize = 0;
        while i < channels
            invariant
                i <= channels,
                graphs@.len() == i,
                forall|c: int| 0 <= c < i ==> #[trigger] graphs@[c] is None,
            decreases channels - i,
        {
            graphs.push(None);
            i += 1;
        }
        ChannelBank { ch, input_rate, center, graphs, gating: Gating::Always }
    }

    pub fn channels(&self) -> (r: usize)
        ensures
            r == self.ch.width(),
    {
        self.ch.channels()
    }

    /// Output sample rate of each channel.
    pub fn channel_rate(&self) -> (r: Micro)
        requires
            self.wf(),
        ensures
            r@ == nearest_spec((self.input_rate@ * 2) as nat, self.ch.width()),
    {
        self.ch.channel_rate(self.input_rate)
    }

    /// Spectral width each channel occupies.
    pub fn channel_bandwidth(&self) -> (r: Micro)
        requires
            self.wf(),
        ensures
            r@ == nearest_spec(self.input_rate@ as nat, self.ch.width()),
    {
        self.ch.channel_bandwidth(self.input_rate)
    }

    /// Centre frequency of a channel.
    pub fn channel_center(&self, ch: usize) -> (r: Hz)
        requires
            self.wf(),
            ch < self.ch.width(),
        ensures
            r.0 == center_spec(
                self.center.0 as int,
                ch as nat,
                self.ch.width(),
                self.input_rate@,
            ),
    {
        proof {
            self.ch.shape();
            center_is_small(self.center.0 as int, ch as nat, self.ch.width(), self.input_rate@);
        }
        let off: Micro = self.ch.channel_offset_hz(ch, self.input_rate);
        let f: i128 = self.center.0 as i128 * 1_000_000 + off.0 as i128;
        if f < 0 {
            Hz(0)
        } else {
            Hz((f / 1_000_000) as u64)
        }
    }

    /// The channel nearest a frequency.
    pub fn channel_for(&self, f: Hz) -> (r: usize)
        requires
            self.wf(),
            f.0 <= 2 * MAX_HZ,
        ensures
            r == channel_at(
                f.0 as int,
                self.center.0 as int,
                self.ch.width(),
                self.input_rate@,
            ),
    {
        let off: i64 = (f.0 as i64 - self.center.0 as i64) * 1_000_000;
        self.ch.channel_for_offset(Micro(off), self.input_rate)
    }

    pub fn set_gating(&mut self, g: Gating)
        requires
            old(self).wf(),
        ensures
            final(self).wf(),
            final(self).gating == g,
            final(self).ch == old(self).ch,
            final(self).input_rate == old(self).input_rate,
            final(self).center == old(self).center,
            final(self).graphs == old(self).graphs,
    {
        self.gating = g;
    }

    /// What a channel's chain is told of its stream. Only the middle half of
    /// an oversampled channel is occupied.
    pub fn channel_spec(&self, ch: usize) -> (r: StreamSpec)
        requires
            self.wf(),
            ch < self.ch.width(),
        ensures
            r == channel_stream(
                self.center.0 as int,
                ch as nat,
                self.ch.width(),
                self.input_rate@,
            ),
    {
        let rate: Micro = self.channel_rate();
        let s: StreamSpec = StreamSpec::iq(rate, self.channel_center(ch));
        StreamSpec { bandwidth: self.channel_bandwidth(), ..s }
    }

    /// Gives one channel a chain.
    pub fn set_chain(&mut self, ch: usize, specs: &[NodeSpec], reg: &Registry) -> (r: Result<
        (),
        Error,
    >)
        requires
            old(self).wf(),
            forall|i: int| 0 <= i < specs@.len() ==> (#[trigger] specs@[i]).wf(),
        ensures
            final(self).wf(),
            final(self).same_layout(&*old(self)),
            if ch >= old(self).ch.width() {
                &&& r matches Err(e)
                &&& e@ == out_of_range_text(ch as nat, old(self).ch.width())
                &&& final(self).graphs@ == old(self).graphs@
            } else {
                let stream = channel_stream(
                    old(self).center.0 as int,
                    ch as nat,
                    old(self).ch.width(),
                    old(self).input_rate@,
                );
                match chain_error(stream, specs@, reg@) {
                    Some(text) => {
                        &&& r matches Err(e)
                        &&& e@ == channel_error_text(ch as nat, text)
                        &&& final(self).graphs@ == old(self).graphs@
                    },
                    None => {
                        &&& r is Ok
                        &&& final(self).graphs@[ch as int] matches Some(g)
                        &&& built(g, stream, specs@, reg@)
                        &&& final(self).graphs@ == old(self).graphs@.update(ch as int, Some(g))
                    },
                }
            },
    {
        let n: usize = self.ch.channels();
        if ch >= n {
            let mut s: String = "channel ".to_owned();
            push_nat(&mut s, ch as u128);
            s.append(" out of range, bank has ");
            push_nat(&mut s, n as u128);
            assert(s@ =~= out_of_range_text(ch as nat, n as nat));
            return Err(Error::other(s));
        }
        let ghost before = self.graphs@;
        match build_chain(self.channel_spec(ch), specs, reg) {
            Ok(g) => {
                self.graphs.set(ch, Some(g));
                assert(self.graphs@[ch as int] == Some(g));
                assert forall|c: int| 0 <= c < self.graphs@.len() implies ((
                #[trigger] self.graphs@[c]) matches Some(g) ==> g.wf()) by {
                    if c != ch {
                        assert(self.graphs@[c] == before[c]);
                    }
                }
                Ok(())
            },
            Err(e) => {
                let mut s: String = "channel ".to_owned();
                push_nat(&mut s, ch as u128);
                s.append(": ");
                s.append(e.to_string().as_str());
                assert(s@ =~= channel_error_text(ch as nat, e@));
                Err(Error::other(s))
            },
        }
    }

    /// Gives every channel a chain of its own from the same description, and
    /// stops at the first that cannot have it.
    pub fn set_all_chains(&mut self, specs: &[NodeSpec], reg: &Registry) -> (r: Result<(), Error>)
        requires
            old(self).wf(),
            forall|i: int| 0 <= i < specs@.len() ==> (#[trigger] specs@[i]).wf(),
        ensures
            final(self).wf(),
            final(self).same_layout(&*old(self)),
            match r {
                Ok(_) => {
                    &&& forall|c: int|
                        0 <= c < old(self).ch.width() ==> #[trigger] old(self).can_have(
                            c,
                            specs@,
                            reg@,
                        )
                    &&& forall|c: int|
                        0 <= c < old(self).ch.width() ==> old(self).has_got(
                            c,
                            specs@,
                            reg@,
                            #[trigger] final(self).graphs@[c],
                        )
                },
                Err(e) => exists|c: int| #[trigger]
                    old(self).stops_at(c, specs@, reg@, e@, *final(self)),
            },
    {
        let n: usize = self.ch.channels();
        let mut ch: usize = 0;
        while ch < n
            invariant
                n == old(self).ch.width(),
                ch <= n,
                self.wf(),
                self.same_layout(&*old(self)),
                forall|i: int| 0 <= i < specs@.len() ==> (#[trigger] specs@[i]).wf(),
                forall|c: int|
                    0 <= c < ch ==> #[trigger] old(self).can_have(c, specs@, reg@),
                forall|c: int|
                    0 <= c < ch ==> old(self).has_got(
                        c,
                        specs@,
                        reg@,
                        #[trigger] self.graphs@[c],
                    ),
                forall|c: int| ch <= c < n ==> #[trigger] self.graphs@[c] == old(self).graphs@[c],
            decreases n - ch,
        {
            let ghost before = self.graphs@;
            let ghost stream = channel_stream(
                self.center.0 as int,
                ch as nat,
                self.ch.width(),
                self.input_rate@,
            );
            assert(old(self).error_on(ch as int, specs@, reg@) == chain_error(
                stream,
                specs@,
                reg@,
            ));
            match self.set_chain(ch, specs, reg) {
                Ok(_) => {
                    assert(old(self).can_have(ch as int, specs@, reg@));
                    assert(old(self).has_got(ch as int, specs@, reg@, self.graphs@[ch as int]));
                },
                Err(e) => {
                    assert(old(self).error_on(ch as int, specs@, reg@) is Some);
                    assert(self.graphs@ == before);
                    assert(old(self).stops_at(ch as int, specs@, reg@, e@, *self));
                    return Err(e);
                },
            }
            assert forall|c: int| 0 <= c < ch implies #[trigger] self.graphs@[c] == before[c] by {}
            ch += 1;
        }
        Ok(())
    }

    /// Takes a channel's chain away.
    pub fn clear_chain(&mut self, ch: usize)
        requires
            old(self).wf(),
        ensures
            final(self).wf(),
            final(self).same_layout(&*old(self)),
            final(self).graphs@ == (if ch < old(self).ch.width() {
                old(self).graphs@.update(ch as int, None)
            } else {
                old(self).graphs@
            }),
    {
        if ch < self.ch.channels() {
            let ghost before = self.graphs@;
            self.graphs.set(ch, None);
            assert forall|c: int| 0 <= c < self.graphs@.len() implies ((
            #[trigger] self.graphs@[c]) matches Some(g) ==> g.wf()) by {
                if c != ch {
                    assert(self.graphs@[c] == before[c]);
                }
            }
        }
    }

    /// How many channels have a chain.
    pub fn active_chains(&self) -> (r: usize)
        ensures
            r == with_chain(self.graphs@, self.graphs@.len()),
    {
        let n: usize = self.graphs.len();
        let mut count: usize = 0;
        let mut i: usize = 0;
        while i < n
            invariant
                n == self.graphs@.len(),
                i <= n,
                count <= i,
                count == with_chain(self.graphs@, i as nat),
            decreases n - i,
        {
            if self.graphs[i].is_some() {
                count += 1;
            }
            i += 1;
        }
        count
    }

    /// The chain of a channel.
    pub fn graph(&self, ch: usize) -> (r: Option<&Graph>)
        requires
            self.wf(),
        ensures
            match r {
                Some(g) => ch < self.ch.width() && self.graphs@[ch as int] == Some(*g),
                None => ch >= self.ch.width() || self.graphs@[ch as int] is None,
            },
    {
        if ch < self.graphs.len() {
            self.graphs[ch].as_ref()
        } else {
            None
        }
    }

    /// The chain of a channel, to be changed. What the caller makes of it is what
    /// the channel has from then on.
    pub fn graph_mut(&mut self, ch: usize) -> (r: Option<&mut Graph>)
        requires
            old(self).wf(),
        ensures
            final(self).same_layout(&*old(self)),
            match r {
                Some(g) => {
                    &&& ch < old(self).graphs@.len()
                    &&& old(self).graphs@[ch as int] == Some(*g)
                    &&& final(self).graphs@ == old(self).graphs@.update(
                        ch as int,
                        Some(*final(g)),
                    )
                },
                None => {
                    &&& ch >= old(self).graphs@.len() || old(self).graphs@[ch as int] is None
                    &&& final(self).graphs@ == old(self).graphs@
                },
            },
    {
        if ch < self.graphs.len() {
            match &mut self.graphs[ch] {
                Some(g) => Some(g),
                None => None,
            }
        } else {
            None
        }
    }

    /// The channels whose chains run on this block, given where a burst is in
    /// progress.
    pub fn plan(&self, open: &[bool]) -> (r: Vec<usize>)
        requires
            open@.len() == self.graphs@.len(),
        ensures
            r@.len() == planned(self.graphs@, self.gating, open@, self.graphs@.len()).len(),
            forall|i: int|
                0 <= i < r@.len() ==> #[trigger] r@[i] == planned(
                    self.graphs@,
                    self.gating,
                    open@,
                    self.graphs@.len(),
                )[i],
    {
        let mut v: Vec<usize> = Vec::new();
        let n: usize = self.graphs.len();
        let mut c: usize = 0;
        while c < n
            invariant
                n == self.graphs@.len(),
                open@.len() == n,
                c <= n,
                v@.len() == planned(self.graphs@, self.gating, open@, c as nat).len(),
                forall|i: int|
                    0 <= i < v@.len() ==> #[trigger] v@[i] == planned(
                        self.graphs@,
                        self.gating,
                        open@,
                        c as nat,
                    )[i],
            decreases n - c,
        {
            if self.graphs[c].is_some() && (self.gating == Gating::Always || open[c]) {
                v.push(c);
            }
            c += 1;
        }
        v
    }

    /// Puts the events of chains in channel order, so that they do not depend
    /// on which chain finished first.
    pub fn collect(&self, results: Vec<(usize, Vec<Event>)>) -> (r: Vec<ChannelEvent>)
        requires
            self.wf(),
        ensures
            channel_events_view(r@) == flattened(
                results_view(results@),
                self.ch.width(),
                self.center.0 as int,
                self.ch.width(),
                self.input_rate@,
            ),
    {
        let n: usize = self.ch.channels();
        let ghost all = results_view(results@);
        let mut rest: Vec<(usize, Vec<Event>)> = results;
        let mut out: Vec<ChannelEvent> = Vec::new();
        let mut c: usize = 0;
        assert(channel_events_view(out@) =~= Seq::empty());
        while c < n
            invariant
                self.wf(),
                n == self.ch.width(),
                c <= n,
                rest@.len() == all.len(),
                forall|i: int|
                    0 <= i < all.len() ==> (#[trigger] rest@[i]).0 == all[i].0 && (all[i].0 >= c
                        ==> events_view(rest@[i].1@) == all[i].1),
                channel_events_view(out@) == flattened(
                    all,
                    c as nat,
                    self.center.0 as int,
                    self.ch.width(),
                    self.input_rate@,
                ),
            decreases n - c,
        {
            let center: Hz = self.channel_center(c);
            let ghost begun = channel_events_view(out@);
            let m: usize = rest.len();
            let mut i: usize = 0;
            assert(channel_events_view(out@) =~= begun + tagged(
                of_channel(all.take(0), c as int),
                c as int,
                center.0 as int,
            ));
            while i < m
                invariant
                    m == rest@.len(),
                    rest@.len() == all.len(),
                    i <= m,
                    forall|k: int|
                        0 <= k < all.len() ==> (#[trigger] rest@[k]).0 == all[k].0 && (all[k].0
                            > c || (k >= i && all[k].0 >= c) ==> events_view(rest@[k].1@)
                            == all[k].1),
                    channel_events_view(out@) == begun + tagged(
                        of_channel(all.take(i as int), c as int),
                        c as int,
                        center.0 as int,
                    ),
                decreases m - i,
            {
                proof {
                    assert(all.take(i + 1).drop_last() =~= all.take(i as int));
                    assert(all.take(i + 1).last() == all[i as int]);
                    assert(rest@[i as int].0 == all[i as int].0);
                }
                if rest[i].0 == c {
                    let mut events: Vec<Event> = Vec::new();
                    let ghost older = rest@;
                    let at: usize = rest[i].0;
                    std::mem::swap(&mut events, &mut rest[i].1);
                    proof {
                        assert(events_view(events@) == all[i as int].1);
                        assert forall|k: int| 0 <= k < all.len() implies (#[trigger] rest@[k]).0
                            == all[k].0 && (all[k].0 > c || (k >= i + 1 && all[k].0 >= c)
                            ==> events_view(rest@[k].1@) == all[k].1) by {
                            assert(older[k].0 == all[k].0);
                            if k != i {
                                assert(rest@[k] == older[k]);
                            }
                        }
                    }
                    let ghost had = channel_events_view(out@);
                    push_events(&mut out, events, c, center);
                    assert(channel_events_view(out@) =~= begun + tagged(
                        of_channel(all.take(i + 1), c as int),
                        c as int,
                        center.0 as int,
                    ));
                }
                i += 1;
            }
            assert(all.take(m as int) =~= all);
            c += 1;
        }
        out
    }

    /// Drops what every chain and the framing has seen.
    pub fn reset(&mut self)
        requires
            old(self).wf(),
        ensures
            final(self).wf(),
            final(self).graphs@.len() == old(self).graphs@.len(),
            final(self).ch.unchanged_shape(&old(self).ch),
            final(self).ch@ == (Framing {
                window: Seq::new(old(self).ch@.window.len(), |i: int| old(self).ch.silence()),
                fill: 0,
                odd: false,
            }),
            final(self).input_rate == old(self).input_rate,
            final(self).center == old(self).center,
            final(self).gating == old(self).gating,
            forall|c: int|
                0 <= c < old(self).graphs@.len() ==> slot_emptied(
                    old(self).graphs@[c],
                    #[trigger] final(self).graphs@[c],
                ),
    {
        self.ch.reset();
        let ghost empty = self.ch@;
        let n: usize = self.graphs.len();
        let mut c: usize = 0;
        while c < n
            invariant
                n == self.graphs@.len(),
                n == old(self).graphs@.len(),
                c <= n,
                self.ch.wf(),
                self.ch.unchanged_shape(&old(self).ch),
                self.ch@ == empty,
                self.input_rate == old(self).input_rate,
                self.center == old(self).center,
                self.gating == old(self).gating,
                self.graphs@.len() == old(self).ch.width(),
                forall|k: int|
                    0 <= k < n ==> ((#[trigger] self.graphs@[k]) matches Some(g) ==> g.wf()),
                forall|k: int|
                    c <= k < n ==> #[trigger] self.graphs@[k] == old(self).graphs@[k],
                forall|k: int|
                    0 <= k < c ==> slot_emptied(old(self).graphs@[k], #[trigger] self.graphs@[k]),
            decreases n - c,
        {
            let mut slot: Option<Graph> = None;
            let ghost before = self.graphs@;
            std::mem::swap(&mut slot, &mut self.graphs[c]);
            assert(slot == before[c as int]);
            match slot {
                Some(g) => {
                    let mut h: Graph = g;
                    h.reset();
                    self.graphs.set(c, Some(h));
                },
                None => {},
            }
            assert forall|k: int| 0 <= k < n implies ((#[trigger] self.graphs@[k]) matches Some(g)
                ==> g.wf()) by {
                if k != c {
                    assert(self.graphs@[k] == before[k]);
                }
            }
            assert forall|k: int| 0 <= k < c + 1 implies slot_emptied(
                old(self).graphs@[k],
                #[trigger] self.graphs@[k],
            ) by {
                if k != c {
                    assert(self.graphs@[k] == before[k]);
                } else {
                    assert(before[k] == old(self).graphs@[k]);
                }
            }
            c += 1;
        }
    }
}

/// The channels that are open, among the first `n`.
pub open spec fn open_among(open: Seq<bool>, n: nat) -> Seq<int>
    decreases n,
{
    if n == 0 {
        Seq::empty()
    } else if open[n - 1] {
        open_among(open, (n - 1) as nat).push(n - 1)
    } else {
        open_among(open, (n - 1) as nat)
    }
}

/// Channels with a burst in progress, given where there is one.
pub fn active_channels(open: &[bool]) -> (r: Vec<usize>)
    ensures
        r@.map_values(|c: usize| c as int) == open_among(open@, open@.len()),
{
    let mut v: Vec<usize> = Vec::new();
    let n: usize = open.len();
    let mut c: usize = 0;
    let ghost f = |c: usize| c as int;
    assert(v@.map_values(f) =~= open_among(open@, 0));
    while c < n
        invariant
            n == open@.len(),
            c <= n,
            f == (|c: usize| c as int),
            v@.map_values(f) == open_among(open@, c as nat),
        decreases n - c,
    {
        if open[c] {
            let ghost had = v@;
            v.push(c);
            assert(v@.map_values(f) =~= had.map_values(f).push(c as int));
        }
        c += 1;
    }
    v
}

/// What a chain that ran comes to: its events, or that it failed. None where
/// there is nothing to say.
pub open spec fn outcome_spec(c: nat, r: Result<Seq<EventView>, Seq<char>>) -> Option<
    Seq<EventView>,
> {
    match r {
        Ok(ev) => if ev.len() == 0 {
            None
        } else {
            Some(ev)
        },
        Err(e) => Some(
            seq![EventView::Warning { stage: "channel "@ + digits(c), message: e }],
        ),
    }
}

/// What the chain of a channel comes to. One that fails is reported and does not
/// stop the others.
pub fn outcome(c: usize, r: Result<Vec<Event>, Error>) -> (o: Option<(usize, Vec<Event>)>)
    ensures
        match o {
            Some((k, ev)) => k == c && outcome_spec(
                c as nat,
                match r {
                    Ok(v) => Ok(events_view(v@)),
                    Err(e) => Err(e@),
                },
            ) == Some(events_view(ev@)),
            None => outcome_spec(
                c as nat,
                match r {
                    Ok(v) => Ok(events_view(v@)),
                    Err(e) => Err(e@),
                },
            ) is None,
        },
{
    match r {
        Ok(ev) => if ev.len() == 0 {
            None
        } else {
            Some((c, ev))
        },
        Err(e) => {
            let mut stage: String = "channel ".to_owned();
            push_nat(&mut stage, c as u128);
            let mut v: Vec<Event> = Vec::new();
            let w = Event::Warning { stage, message: e.to_string() };
            v.push(w);
            assert(events_view(v@) =~= seq![w@]);
            Some((c, v))
        },
    }
}

/// Appends events with their channel.
fn push_events(out: &mut Vec<ChannelEvent>, events: Vec<Event>, c: usize, center: Hz)
    ensures
        channel_events_view(final(out)@) == channel_events_view(old(out)@) + tagged(
            events_view(events@),
            c as int,
            center.0 as int,
        ),
{
    let ghost all = events_view(events@);
    let mut rest: Vec<Event> = events;
    let n: usize = rest.len();
    let mut i: usize = 0;
    assert(channel_events_view(out@) =~= channel_events_view(old(out)@) + tagged(
        all.take(0),
        c as int,
        center.0 as int,
    ));
    while i < n
        invariant
            i <= n,
            n == all.len(),
            rest@.len() == n - i,
            forall|k: int| 0 <= k < rest@.len() ==> (#[trigger] rest@[k])@ == all[i + k],
            channel_events_view(out@) == channel_events_view(old(out)@) + tagged(
                all.take(i as int),
                c as int,
                center.0 as int,
            ),
        decreases n - i,
    {
        let ghost before = rest@;
        let ghost had = channel_events_view(out@);
        assert(before[0]@ == all[i as int]);
        let event: Event = rest.remove(0);
        out.push(ChannelEvent { channel: c, center, event });
        proof {
            assert forall|k: int| 0 <= k < rest@.len() implies (#[trigger] rest@[k])@ == all[i + 1
                + k] by {
                assert(rest@[k] == before[k + 1]);
            }
            assert(channel_events_view(out@) =~= had.push(
                (c as int, center.0 as int, all[i as int]),
            ));
            assert(all.take(i + 1) =~= all.take(i as int).push(all[i as int]));
            assert(channel_events_view(out@) =~= channel_events_view(old(out)@) + tagged(
                all.take(i + 1),
                c as int,
                center.0 as int,
            ));
        }
        i += 1;
    }
    assert(all.take(n as int) =~= all);
}

/// Transposes frames of `n` samples into a run per channel.
///
/// Frames are read a block at a time while a tile of channels is written, so
/// that both sides stay in cache.
pub fn transpose<T: Copy>(frames: &[T], n: usize, count: usize) -> (r: Vec<Vec<T>>)
    requires
        n * count == frames@.len(),
        n + TILE <= usize::MAX,
        count + FBLOCK <= usize::MAX,
    ensures
        r@.len() == n,
        forall|c: int| 0 <= c < n ==> (#[trigger] r@[c])@ == lane(frames@, n as int, count as nat, c),
{
    let mut lanes: Vec<Vec<T>> = Vec::new();
    let mut c0: usize = 0;
    while c0 < n
        invariant
            n * count == frames@.len(),
            n + TILE <= usize::MAX,
            count + FBLOCK <= usize::MAX,
            c0 <= n,
            lanes@.len() == c0,
            forall|c: int|
                0 <= c < c0 ==> (#[trigger] lanes@[c])@ == lane(
                    frames@,
                    n as int,
                    count as nat,
                    c,
                ),
        decreases n - c0,
    {
        let ce: usize = if c0 + TILE < n {
            c0 + TILE
        } else {
            n
        };
        let tile: Vec<Vec<T>> = transpose_tile(frames, n, count, c0, ce);
        let ghost before = lanes@;
        append_lanes(&mut lanes, tile);
        assert forall|c: int| 0 <= c < ce implies (#[trigger] lanes@[c])@ == lane(
            frames@,
            n as int,
            count as nat,
            c,
        ) by {
            if c < c0 {
                assert(lanes@[c] == before[c]);
            } else {
                assert(lanes@[c] == tile@[c - c0]);
            }
        }
        c0 = ce;
    }
    lanes
}

/// The runs of channels `c0` up to `ce`.
fn transpose_tile<T: Copy>(
    frames: &[T],
    n: usize,
    count: usize,
    c0: usize,
    ce: usize,
) -> (group: Vec<Vec<T>>)
    requires
        n * count == frames@.len(),
        count + FBLOCK <= usize::MAX,
        c0 < ce <= n,
    ensures
        group@.len() == ce - c0,
        forall|j: int|
            0 <= j < ce - c0 ==> (#[trigger] group@[j])@ == lane(
                frames@,
                n as int,
                count as nat,
                c0 + j,
            ),
{
    let mut group: Vec<Vec<T>> = Vec::new();
    let mut k: usize = c0;
    while k < ce
        invariant
            c0 <= k <= ce,
            group@.len() == k - c0,
            forall|j: int| 0 <= j < k - c0 ==> (#[trigger] group@[j])@ == Seq::<T>::empty(),
        decreases ce - k,
    {
        group.push(Vec::new());
        k += 1;
    }
    let width: usize = ce - c0;
    proof {
        assert forall|j: int| 0 <= j < width implies (#[trigger] group@[j])@ == lane(
            frames@,
            n as int,
            0,
            c0 + j,
        ) by {
            assert(group@[j]@ =~= lane(frames@, n as int, 0, c0 + j));
        }
    }
    let mut f0: usize = 0;
    while f0 < count
        invariant
            n * count == frames@.len(),
            count + FBLOCK <= usize::MAX,
            c0 < ce <= n,
            width == ce - c0,
            f0 <= count,
            group@.len() == width,
            forall|j: int|
                0 <= j < width ==> (#[trigger] group@[j])@ == lane(
                    frames@,
                    n as int,
                    f0 as nat,
                    c0 + j,
                ),
        decreases count - f0,
    {
        let fe: usize = if f0 + FBLOCK < count {
            f0 + FBLOCK
        } else {
            count
        };
        let mut f: usize = f0;
        while f < fe
            invariant
                n * count == frames@.len(),
                c0 < ce <= n,
                width == ce - c0,
                f0 <= f <= fe <= count,
                group@.len() == width,
                forall|j: int|
                    0 <= j < width ==> (#[trigger] group@[j])@ == lane(
                        frames@,
                        n as int,
                        f as nat,
                        c0 + j,
                    ),
            decreases fe - f,
        {
            let len: usize = frames.len();
            assert(f * n + n <= len) by (nonlinear_arith)
                requires
                    f + 1 <= count,
                    n * count == len,
                    n >= 0,
            ;
            let row: usize = f * n;
            let mut j: usize = 0;
            while j < width
                invariant
                    c0 < ce <= n,
                    width == ce - c0,
                    row == f * n,
                    row + n <= frames@.len(),
                    frames@.len() <= usize::MAX,
                    group@.len() == width,
                    j <= width,
                    forall|i: int|
                        0 <= i < width ==> (#[trigger] group@[i])@ == lane(
                            frames@,
                            n as int,
                            if i < j {
                                (f + 1) as nat
                            } else {
                                f as nat
                            },
                            c0 + i,
                        ),
                decreases width - j,
            {
                let ghost before = group@;
                assert(before[j as int]@ == lane(frames@, n as int, f as nat, c0 + j));
                let x: T = frames[row + (c0 + j)];
                group[j].push(x);
                proof {
                    assert(group@[j as int]@ == before[j as int]@.push(x));
                    assert(group@[j as int]@ =~= lane(
                        frames@,
                        n as int,
                        (f + 1) as nat,
                        c0 + j,
                    ));
                    assert forall|i: int| 0 <= i < width implies (#[trigger] group@[i])@ == lane(
                        frames@,
                        n as int,
                        if i < j + 1 {
                            (f + 1) as nat
                        } else {
                            f as nat
                        },
                        c0 + i,
                    ) by {
                        if i != j {
                            assert(group@[i] == before[i]);
                        }
                    }
                }
                j += 1;
            }
            f += 1;
        }
        f0 = fe;
    }
    group
}

/// Appends lanes.
fn append_lanes<T>(lanes: &mut Vec<Vec<T>>, tile: Vec<Vec<T>>)
    ensures
        final(lanes)@ == old(lanes)@ + tile@,
{
    let mut more: Vec<Vec<T>> = tile;
    lanes.append(&mut more);
}

/// Looking up the channel at a channel's own centre gives that channel back,
/// where the channels lie more than about two hertz apart and the whole span
/// lies above zero.
pub proof fn centres_and_lookup_are_inverse(center: int, m: nat, channels: nat, rate: int)
    requires
        m < channels,
        channels >= 2,
        channels % 2 == 0,
        rate > 2_000_001 * channels,
        2 * center * 1_000_000 >= rate + 1,
    ensures
        channel_at(center_spec(center, m, channels, rate), center, channels, rate) == m,
{
    let c = channels as int;
    let signed = signed_channel(m, channels);
    let off = offset_spec(m, channels, rate);
    let num = signed * rate;
    // The offset in steps is within half a step of the channel.
    rounding_is_close(num, channels);
    assert(off * c == c * off) by (nonlinear_arith);
    // The span lies above zero, so nothing is cut off.
    offsets_lie_within_half_the_rate(m, channels, rate);
    let f = center * 1_000_000 + off;
    assert(f >= 0);
    let hz = f / 1_000_000;
    let e = f % 1_000_000;
    let back = (hz - center) * 1_000_000;
    assert(back == off - e);
    // Cutting to whole hertz moves it by less than half a channel.
    let v = back * c;
    assert(v == off * c - e * c) by (nonlinear_arith)
        requires
            back == off - e,
            v == back * c,
    ;
    assert(0 <= e * c <= 1_000_000 * c) by (nonlinear_arith)
        requires
            0 <= e <= 1_000_000,
            c >= 0,
    ;
    let d = v - num;
    assert(-rate < 2 * d < rate);
    assert(signed * rate == rate * signed) by (nonlinear_arith);
    nearest_signed_is(v, rate as nat, signed);
    if signed < 0 {
        vstd::arithmetic::div_mod::lemma_fundamental_div_mod_converse(signed, c, -1, m as int);
    } else {
        vstd::arithmetic::div_mod::lemma_fundamental_div_mod_converse(signed, c, 0, m as int);
    }
}

/// The order in which chains finish does not matter: any two lists of results in
/// which each channel has the same events, in the same order, are collected to
/// the same.
pub proof fn finishing_order_does_not_matter(
    x: Seq<(int, Seq<EventView>)>,
    y: Seq<(int, Seq<EventView>)>,
    n: nat,
    center: int,
    channels: nat,
    rate: int,
)
    requires
        forall|c: int| 0 <= c < n ==> #[trigger] of_channel(x, c) == of_channel(y, c),
    ensures
        flattened(x, n, center, channels, rate) == flattened(y, n, center, channels, rate),
    decreases n,
{
    if n > 0 {
        finishing_order_does_not_matter(x, y, (n - 1) as nat, center, channels, rate);
        assert(of_channel(x, n - 1) == of_channel(y, n - 1));
    }
}

/// Each channel gives one result, so every order in which they can come leaves
/// each channel the same events: those of its own result.
pub proof fn one_result_is_all_of_its_channel(x: Seq<(int, Seq<EventView>)>, k: int)
    requires
        0 <= k < x.len(),
        forall|i: int| 0 <= i < x.len() && i != k ==> (#[trigger] x[i]).0 != x[k].0,
    ensures
        of_channel(x, x[k].0) == x[k].1,
    decreases x.len(),
{
    let (head, c) = (x.drop_last(), x[k].0);
    if k == x.len() - 1 {
        others_give_nothing(head, c);
        assert(Seq::<EventView>::empty() + x[k].1 =~= x[k].1);
    } else {
        assert(head[k] == x[k]);
        assert(x[x.len() - 1].0 != c);
        one_result_is_all_of_its_channel(head, k);
    }
}

proof fn others_give_nothing(x: Seq<(int, Seq<EventView>)>, c: int)
    requires
        forall|i: int| 0 <= i < x.len() ==> (#[trigger] x[i]).0 != c,
    ensures
        of_channel(x, c) == Seq::<EventView>::empty(),
    decreases x.len(),
{
    if x.len() > 0 {
        assert(x[x.len() - 1].0 != c);
        others_give_nothing(x.drop_last(), c);
    }
}

/// Channels run that have a chain and, where bursts gate them, a burst in
/// progress; all of them do, once, and in order.
pub proof fn the_plan_is_what_is_due(
    graphs: Seq<Option<Graph>>,
    gating: Gating,
    open: Seq<bool>,
    n: nat,
    c: int,
)
    requires
        n <= graphs.len(),
        n <= open.len(),
    ensures
        planned(graphs, gating, open, n).contains(c) <==> 0 <= c < n && graphs[c] is Some && (gating
            == Gating::Always || open[c]),
        forall|i: int, j: int|
            0 <= i < j < planned(graphs, gating, open, n).len() ==> planned(
                graphs,
                gating,
                open,
                n,
            )[i] < planned(graphs, gating, open, n)[j],
        forall|i: int|
            0 <= i < planned(graphs, gating, open, n).len() ==> 0 <= #[trigger] planned(
                graphs,
                gating,
                open,
                n,
            )[i] < n,
        gating == Gating::Always ==> planned(graphs, gating, open, n).len() == with_chain(
            graphs,
            n,
        ),
    decreases n,
{
    if n > 0 {
        let m = (n - 1) as nat;
        the_plan_is_what_is_due(graphs, gating, open, m, c);
        let (earlier, all) = (planned(graphs, gating, open, m), planned(graphs, gating, open, n));
        if runs_now(graphs, gating, open, n - 1) {
            assert(all[all.len() - 1] == n - 1);
            if earlier.contains(c) {
                let k = choose|k: int| 0 <= k < earlier.len() && earlier[k] == c;
                assert(all[k] == c);
            }
            if all.contains(c) {
                let k = choose|k: int| 0 <= k < all.len() && all[k] == c;
                if k < earlier.len() {
                    assert(earlier[k] == c);
                }
            }
            if c == n - 1 {
                assert(all[all.len() - 1] == c);
            }
            assert forall|i: int, j: int| 0 <= i < j < all.len() implies all[i] < all[j] by {
                assert(all[i] == earlier[i]);
                if j < earlier.len() {
                    assert(all[j] == earlier[j]);
                }
            }
        }
    }
}

/// The channels with a burst in progress are those that are open, in order.
pub proof fn open_channels_are_listed(open: Seq<bool>, n: nat, c: int)
    requires
        n <= open.len(),
    ensures
        open_among(open, n).contains(c) <==> 0 <= c < n && open[c],
        forall|i: int, j: int|
            0 <= i < j < open_among(open, n).len() ==> open_among(open, n)[i] < open_among(
                open,
                n,
            )[j],
        forall|i: int|
            0 <= i < open_among(open, n).len() ==> 0 <= #[trigger] open_among(open, n)[i] < n,
    decreases n,
{
    if n > 0 {
        let m = (n - 1) as nat;
        open_channels_are_listed(open, m, c);
        let (earlier, all) = (open_among(open, m), open_among(open, n));
        if open[n - 1] {
            assert(all[all.len() - 1] == n - 1);
            if earlier.contains(c) {
                let k = choose|k: int| 0 <= k < earlier.len() && earlier[k] == c;
                assert(all[k] == c);
            }
            if all.contains(c) {
                let k = choose|k: int| 0 <= k < all.len() && all[k] == c;
                if k < earlier.len() {
                    assert(earlier[k] == c);
                }
            }
            if c == n - 1 {
                assert(all[all.len() - 1] == c);
            }
            assert forall|i: int, j: int| 0 <= i < j < all.len() implies all[i] < all[j] by {
                assert(all[i] == earlier[i]);
                if j < earlier.len() {
                    assert(all[j] == earlier[j]);
                }
            }
        }
    }
}

/// Every sample of the frames goes to one channel, and stands there where its
/// frame stands among the frames.
pub proof fn every_sample_has_one_lane<T>(frames: Seq<T>, channels: int, count: nat, k: int)
    requires
        channels > 0,
        0 <= k < count * channels,
    ensures
        0 <= k % channels < channels,
        0 <= k / channels < count,
        lane(frames, channels, count, k % channels)[k / channels] == frames[k],
        lane(frames, channels, count, k % channels).len() == count,
{
    vstd::arithmetic::div_mod::lemma_fundamental_div_mod(k, channels);
    let q = k / channels;
    assert(0 <= q < count) by (nonlinear_arith)
        requires
            k == channels * q + k % channels,
            0 <= k % channels < channels,
            0 <= k < count * channels,
            channels > 0,
    ;
    assert(channels * q == q * channels) by (nonlinear_arith);
}

/// Events come in the order of their channels, each with its channel and the
/// frequency of that channel, and none is lost: of every channel there are as
/// many as it gave.
pub proof fn events_come_in_channel_order(
    results: Seq<(int, Seq<EventView>)>,
    n: nat,
    center: int,
    channels: nat,
    rate: int,
)
    ensures
        ({
            let f = flattened(results, n, center, channels, rate);
            &&& forall|i: int, j: int| 0 <= i <= j < f.len() ==> f[i].0 <= f[j].0
            &&& forall|i: int|
                0 <= i < f.len() ==> 0 <= (#[trigger] f[i]).0 < n && f[i].1 == center_spec(
                    center,
                    f[i].0 as nat,
                    channels,
                    rate,
                )
            &&& f.len() == given_in(results, n)
        }),
    decreases n,
{
    if n > 0 {
        let m = (n - 1) as nat;
        events_come_in_channel_order(results, m, center, channels, rate);
        let (earlier, all) = (
            flattened(results, m, center, channels, rate),
            flattened(results, n, center, channels, rate),
        );
        assert forall|i: int| 0 <= i < all.len() implies 0 <= (#[trigger] all[i]).0 < n && all[i].1
            == center_spec(center, all[i].0 as nat, channels, rate) by {
            if i < earlier.len() {
                assert(all[i] == earlier[i]);
            }
        }
        assert forall|i: int, j: int| 0 <= i <= j < all.len() implies all[i].0 <= all[j].0 by {
            if j < earlier.len() {
                assert(all[i] == earlier[i] && all[j] == earlier[j]);
            } else {
                assert(all[j].0 == n - 1);
                assert(0 <= all[i].0 < n);
            }
        }
    }
}

/// How many events the first `n` channels gave.
pub open spec fn given_in(results: Seq<(int, Seq<EventView>)>, n: nat) -> nat
    decreases n,
{
    if n == 0 {
        0
    } else {
        given_in(results, (n - 1) as nat) + of_channel(results, n - 1).len()
    }
}

/// A chain is told the truth of its channel: a complex stream, as wide as the
/// band divided by the channels, sampled twice as fast as that, and centred where
/// the channel is, to within a hertz.
pub proof fn chains_are_told_of_their_channel(center: int, m: nat, channels: nat, rate: int)
    requires
        0 <= center <= MAX_HZ,
        m < channels,
        2 <= channels <= usize::MAX,
        channels % 2 == 0,
        0 < rate <= 8_000_000_000_000_000_000,
    ensures
        ({
            let s = channel_stream(center, m, channels, rate);
            let c = channels as int;
            let off = offset_spec(m, channels, rate);
            &&& s.kind == PortKind::Iq
            &&& s.channels == 1
            &&& -c <= 2 * (c * s.bandwidth@) - 2 * rate <= c
            &&& -c <= 2 * (c * s.rate@) - 4 * rate <= c
            &&& 0 <= center * 1_000_000 + off ==> 0 <= center * 1_000_000 + off - 1_000_000
                * s.center.0 < 1_000_000
        }),
{
    let c = channels as int;
    center_is_small(center, m, channels, rate);
    nearest_bounds(rate as nat, channels);
    nearest_bounds((rate * 2) as nat, channels);
    assert(rate * 2 <= rate * c) by (nonlinear_arith)
        requires
            rate > 0,
            c >= 2,
    ;
    nearest_at_most((rate * 2) as nat, channels, rate as nat);
    let (x, y) = (
        nearest_spec(rate as nat, channels) as int,
        nearest_spec((rate * 2) as nat, channels) as int,
    );
    assert((2 * c) * x == 2 * (c * x) && (2 * c) * y == 2 * (c * y)) by (nonlinear_arith);
}

/// A chain that fails is heard of, and one that has nothing to say is not.
pub proof fn failures_are_heard_of(c: nat, r: Result<Seq<EventView>, Seq<char>>)
    ensures
        outcome_spec(c, r) is None <==> r == Ok::<Seq<EventView>, Seq<char>>(Seq::empty()),
        r matches Ok(ev) ==> ev.len() > 0 ==> outcome_spec(c, r) == Some(ev),
        r matches Err(e) ==> (outcome_spec(c, r) matches Some(ev) && ev.len() == 1 && (
        ev[0] matches EventView::Warning { stage, message } && message == e && stage.len()
            == "channel "@.len() + digits(c).len() && stage.skip("channel "@.len() as int) == digits(
            c,
        ))),
{
    if let Ok(ev) = r {
        if ev.len() == 0 {
            assert(ev =~= Seq::empty());
        }
    } else {
        assert(("channel "@ + digits(c)).skip("channel "@.len() as int) =~= digits(c));
    }
}

} // verus!
