//! What holds of every channel of a bank.

use vstd::prelude::*;
#[allow(unused_imports)]
use crate::dsp::channelizer::offset_spec;
#[allow(unused_imports)]
use crate::nodes::bank::{
    center_spec, chain_error, channel_error_text, flattened, of_channel, out_of_range_text,
    runs_now, tagged, with_chain, ChannelBank, Gating,
};
#[allow(unused_imports)]
use crate::nodes::chain::{missing, stream_after, unknown_stage_text, Graph, NodeSpec};
#[allow(unused_imports)]
use crate::nodes::stage::Factory;
#[allow(unused_imports)]
use crate::pipeline::event::EventView;
#[allow(unused_imports)]
use crate::pipeline::port::StreamSpec;
#[allow(unused_imports)]
use crate::pipeline::registry::{lookup, DescView};
#[allow(unused_imports)]
use crate::text::{decimal, digits, digits_read_back, value};

verus! {

/// The centre of a channel is the whole hertz at or below it, and zero where the
/// channel would lie below zero.
pub proof fn centres_are_whole_hertz(center: int, m: nat, channels: nat, rate: int)
    ensures
        ({
            let f = center * 1_000_000 + offset_spec(m, channels, rate);
            let c = center_spec(center, m, channels, rate);
            &&& f >= 0 ==> 1_000_000 * c <= f < 1_000_000 * (c + 1)
            &&& f < 0 ==> c == 0
        }),
{
}

/// A chain is one more where there was none, and one less where it is taken away.
pub proof fn chains_are_counted(graphs: Seq<Option<Graph>>, n: nat, c: int, g: Graph)
    requires
        n <= graphs.len(),
        0 <= c < graphs.len(),
    ensures
        with_chain(graphs, n) <= n,
        c < n && graphs[c] is None ==> with_chain(graphs.update(c, Some(g)), n) == with_chain(
            graphs,
            n,
        ) + 1,
        c < n && graphs[c] is Some ==> with_chain(graphs.update(c, None), n) == with_chain(graphs, n)
            - 1,
        c >= n ==> with_chain(graphs.update(c, Some(g)), n) == with_chain(graphs, n)
            && with_chain(graphs.update(c, None), n) == with_chain(graphs, n),
        (forall|k: int| 0 <= k < n ==> (#[trigger] graphs[k]) is None) ==> with_chain(graphs, n) == 0,
    decreases n,
{
    if n > 0 {
        chains_are_counted(graphs, (n - 1) as nat, c, g);
    }
}

/// Without gating a channel that has a chain runs; with it, only while it is open.
pub proof fn gating_holds_back_what_is_closed(
    graphs: Seq<Option<Graph>>,
    gating: Gating,
    open: Seq<bool>,
    c: int,
)
    ensures
        graphs[c] is None ==> !runs_now(graphs, gating, open, c),
        graphs[c] is Some && gating is Always ==> runs_now(graphs, gating, open, c),
        graphs[c] is Some && !(gating is Always) ==> runs_now(graphs, gating, open, c) == open[c],
{
}

/// The first stage of a name that there is none of is the one that is reported.
pub proof fn the_first_unknown_stage_is_reported(
    specs: Seq<NodeSpec>,
    known: Seq<(DescView, Factory)>,
    i: nat,
    k: nat,
)
    requires
        i <= k <= specs.len(),
        forall|j: int| i <= j < k ==> lookup(known, (#[trigger] specs[j]).kind@) is Some,
        k < specs.len() ==> lookup(known, specs[k as int].kind@) is None,
    ensures
        missing(specs, known, i) == if k < specs.len() {
            Some(unknown_stage_text(k, specs[k as int].kind@, known))
        } else {
            None
        },
    decreases k - i,
{
    if i < k {
        assert(lookup(known, specs[i as int].kind@) is Some);
        the_first_unknown_stage_is_reported(specs, known, i + 1, k);
    }
}

/// A description that names a stage there is none of is refused for that before
/// anything is built; one whose stages all agree is not refused.
pub proof fn unknown_stages_go_before_refusals(
    input: StreamSpec,
    specs: Seq<NodeSpec>,
    known: Seq<(DescView, Factory)>,
)
    ensures
        missing(specs, known, 0) is Some ==> chain_error(input, specs, known) == missing(
            specs,
            known,
            0,
        ),
        missing(specs, known, 0) is None ==> (chain_error(input, specs, known) is None
            <==> stream_after(input, specs, known, specs.len()) is Ok),
        missing(specs, known, 0) is None ==> (stream_after(
            input,
            specs,
            known,
            specs.len(),
        ) matches Err(e) ==> chain_error(input, specs, known) == Some(e)),
{
}

/// Whether a text begins with the number of a channel.
pub open spec fn names_channel(t: Seq<char>, c: int, rest: Seq<char>) -> bool {
    exists|a: Seq<char>| t == "channel "@ + a + rest && decimal(a) && #[trigger] value(a) == c
}

/// Whether a text ends with the size of a bank.
pub open spec fn says_size(t: Seq<char>, channels: int) -> bool {
    exists|b: Seq<char>|
        t == " out of range, bank has "@ + b && decimal(b) && #[trigger] value(b) == channels
}

/// An error of a bank names the channel, and what is wrong with its chain or how
/// many channels there are.
pub proof fn errors_of_a_bank_name_the_channel(c: nat, channels: nat, e: Seq<char>)
    ensures
        names_channel(channel_error_text(c, e), c as int, ": "@ + e),
        exists|rest: Seq<char>| #[trigger]
            names_channel(out_of_range_text(c, channels), c as int, rest) && says_size(
                rest,
                channels as int,
            ),
{
    digits_read_back(c);
    digits_read_back(channels);
    let (a, b) = (digits(c), digits(channels));
    assert(value(a) == c && value(b) == channels);
    assert(channel_error_text(c, e) =~= "channel "@ + a + (": "@ + e));
    let rest = " out of range, bank has "@ + b;
    assert(out_of_range_text(c, channels) =~= "channel "@ + a + rest);
    assert(names_channel(out_of_range_text(c, channels), c as int, rest));
    assert(says_size(rest, channels as int));
}

/// Gating and taking a chain away change nothing else.
pub proof fn a_bank_changes_one_thing<T: Copy>(
    a: &mut ChannelBank<T>,
    g: Gating,
    b: &mut ChannelBank<T>,
    ch: usize,
)
    requires
        call_ensures(ChannelBank::<T>::set_gating, (a, g), ()),
        call_ensures(ChannelBank::<T>::clear_chain, (b, ch), ()),
    ensures
        final(a).gating == g,
        final(a).graphs == old(a).graphs && final(a).center == old(a).center && final(a).input_rate
            == old(a).input_rate,
        final(b).gating == old(b).gating,
        ch < old(b).ch.width() && ch < old(b).graphs@.len() ==> final(b).graphs@[ch as int] is None,
        forall|k: int|
            0 <= k < old(b).graphs@.len() && k != ch ==> #[trigger] final(b).graphs@[k]
                == old(b).graphs@[k],
{
}

/// What is heard on one channel among events of several, in the order they came.
pub open spec fn heard_on(f: Seq<(int, int, EventView)>, c: int) -> Seq<EventView>
    decreases f.len(),
{
    if f.len() == 0 {
        Seq::empty()
    } else if f[f.len() - 1].0 == c {
        heard_on(f.drop_last(), c).push(f[f.len() - 1].2)
    } else {
        heard_on(f.drop_last(), c)
    }
}

proof fn what_is_heard_adds_up(f: Seq<(int, int, EventView)>, g: Seq<(int, int, EventView)>, c: int)
    ensures
        heard_on(f + g, c) == heard_on(f, c) + heard_on(g, c),
    decreases g.len(),
{
    if g.len() == 0 {
        assert(f + g =~= f);
        assert(heard_on(f, c) + heard_on(g, c) =~= heard_on(f, c));
    } else {
        let r = g.drop_last();
        what_is_heard_adds_up(f, r, c);
        assert((f + g).drop_last() =~= f + r);
        assert((f + g)[(f + g).len() - 1] == g[g.len() - 1]);
        assert(heard_on(f + g, c) =~= heard_on(f, c) + heard_on(g, c));
    }
}

proof fn what_is_tagged_is_heard(events: Seq<EventView>, tag: int, center: int, c: int)
    ensures
        heard_on(tagged(events, tag, center), c) == if tag == c {
            events
        } else {
            Seq::empty()
        },
    decreases events.len(),
{
    let f = tagged(events, tag, center);
    if events.len() > 0 {
        what_is_tagged_is_heard(events.drop_last(), tag, center, c);
        assert(f.drop_last() =~= tagged(events.drop_last(), tag, center));
        if tag == c {
            assert(heard_on(f, c) =~= events);
        }
    } else {
        assert(heard_on(f, c) =~= events);
    }
}

proof fn other_channels_are_not_heard(
    results: Seq<(int, Seq<EventView>)>,
    n: nat,
    center: int,
    channels: nat,
    rate: int,
    c: int,
)
    requires
        c >= n,
    ensures
        heard_on(flattened(results, n, center, channels, rate), c) == Seq::<EventView>::empty(),
    decreases n,
{
    if n > 0 {
        let m = (n - 1) as nat;
        other_channels_are_not_heard(results, m, center, channels, rate, c);
        let at = center_spec(center, m, channels, rate);
        what_is_tagged_is_heard(of_channel(results, n - 1), n - 1, at, c);
        what_is_heard_adds_up(
            flattened(results, m, center, channels, rate),
            tagged(of_channel(results, n - 1), n - 1, at),
            c,
        );
        assert(Seq::<EventView>::empty() + Seq::<EventView>::empty() =~= Seq::empty());
    }
}

/// What comes of a channel comes out on that channel, all of it and in its order.
pub proof fn every_channel_is_heard(
    results: Seq<(int, Seq<EventView>)>,
    n: nat,
    center: int,
    channels: nat,
    rate: int,
    c: int,
)
    requires
        0 <= c < n,
    ensures
        heard_on(flattened(results, n, center, channels, rate), c) == of_channel(results, c),
    decreases n,
{
    let m = (n - 1) as nat;
    let at = center_spec(center, m, channels, rate);
    let earlier = flattened(results, m, center, channels, rate);
    what_is_tagged_is_heard(of_channel(results, n - 1), n - 1, at, c);
    what_is_heard_adds_up(earlier, tagged(of_channel(results, n - 1), n - 1, at), c);
    if c < m {
        every_channel_is_heard(results, m, center, channels, rate, c);
        assert(of_channel(results, c) + Seq::<EventView>::empty() =~= of_channel(results, c));
    } else {
        other_channels_are_not_heard(results, m, center, channels, rate, c);
        assert(Seq::<EventView>::empty() + of_channel(results, c) =~= of_channel(results, c));
    }
}

/// A result adds its events to its channel, behind those that came before, and
/// to no other.
pub proof fn results_add_to_their_channel(
    results: Seq<(int, Seq<EventView>)>,
    c: int,
    events: Seq<EventView>,
    other: int,
)
    ensures
        of_channel(Seq::empty(), c).len() == 0,
        of_channel(results.push((c, events)), c) == of_channel(results, c) + events,
        other != c ==> of_channel(results.push((c, events)), other) == of_channel(results, other),
{
    assert(results.push((c, events)).drop_last() =~= results);
}

/// Where nothing is reported missing, every stage from there on is known.
pub proof fn no_name_is_missing(
    specs: Seq<NodeSpec>,
    known: Seq<(DescView, Factory)>,
    i: nat,
    k: int,
)
    requires
        missing(specs, known, i) is None,
        i <= k < specs.len(),
    ensures
        lookup(known, specs[k].kind@) is Some,
    decreases k - i,
{
    if i < k {
        no_name_is_missing(specs, known, i + 1, k);
    }
}

} // verus!
