//! What gestures on the front panel come to.

use vstd::prelude::*;
#[allow(unused_imports)]
use crate::fixed::{nearest_signed_is, rounding_is_close, Micro};
#[allow(unused_imports)]
use crate::front::bands::{aeronautical, citizens, the_mode_follows_from_the_service, wide};
#[allow(unused_imports)]
use crate::front::plot::{hz_spec, Pane, Span, Spot};
#[allow(unused_imports)]
use crate::front::radio::{Cmd, Demod};
#[allow(unused_imports)]
use crate::front::ui::{
    added, clicked, dragged_to, fft_sizes, histories, in_reach, is_near, listened, muted, near_from,
    relistened, remoded, removed, retuned, scrubbed_to, ChannelView, Panel, Settings,
};
#[allow(unused_imports)]
use crate::text::{digits, digits_read_back, value};

verus! {

/// Whether the first so many things said are the same.
pub open spec fn says_more(before: Seq<Cmd>, after: Seq<Cmd>) -> bool {
    &&& before.len() <= after.len()
    &&& forall|k: int| 0 <= k < before.len() ==> #[trigger] after[k] == before[k]
}

/// Listening to a channel tells the radio the mode of the channel, then how far
/// from the centre it is, then how loud it is to be, and changes nothing else.
pub proof fn listening_tunes_to_the_channel(p: Panel, i: int)
    requires
        p.wf(),
        p.connected,
        0 <= i < p.channels.len(),
        p.channels.len() <= usize::MAX,
    ensures
        ({
            let q = listened(p, i);
            let n = p.outbox.len() as int;
            &&& q.listening == Some(i as usize)
            &&& q.outbox.len() == n + 3
            &&& says_more(p.outbox, q.outbox)
            &&& q.outbox[n] == Cmd::Demod(p.channels[i].demod)
            &&& (q.outbox[n + 1] matches Cmd::Listen(Some(o)) && p.center@ + o@
                == p.channels[i].freq@)
            &&& q.outbox[n + 2] == Cmd::Volume(p.volume)
            &&& q == Panel { listening: q.listening, outbox: q.outbox, ..p }
        }),
{
    assert(in_reach(p.channels[i].freq));
}

/// Falling silent tells the radio to play nothing, and changes nothing else.
pub proof fn silence_is_asked_for(p: Panel)
    requires
        p.connected,
    ensures
        ({
            let q = muted(p);
            let n = p.outbox.len() as int;
            &&& q.listening is None
            &&& q.outbox.len() == n + 1
            &&& says_more(p.outbox, q.outbox)
            &&& q.outbox[n] == Cmd::Listen(None)
            &&& q == Panel { listening: None, outbox: q.outbox, ..p }
        }),
{
}

/// Tuning goes to the frequency that is asked for where the tuner reaches it,
/// else to the end it lies beyond, and the radio is told the whole hertz before
/// anything else.
pub proof fn tuning_goes_where_it_is_sent(p: Panel, hz: int)
    requires
        p.wf(),
        p.connected,
    ensures
        ({
            let q = retuned(p, hz);
            let n = p.outbox.len() as int;
            &&& 24_000_000_000_000 <= hz <= 1_766_000_000_000_000 ==> q.center@ == hz
            &&& hz < 24_000_000_000_000 ==> q.center@ == 24_000_000_000_000
            &&& hz > 1_766_000_000_000_000 ==> q.center@ == 1_766_000_000_000_000
            &&& q.outbox.len() > n
            &&& says_more(p.outbox, q.outbox)
            &&& (q.outbox[n] matches Cmd::Center(c) && 0 <= q.center@ - c.0 * 1_000_000 < 1_000_000)
            &&& q.channels == p.channels
            &&& q.rate == p.rate
            &&& q.fall == p.fall
            &&& q.fall_center == p.fall_center
            &&& (p.listening is None ==> q.outbox == p.outbox.push(q.outbox[n]).push(
                Cmd::Listen(None),
            ))
        }),
{
}

/// A channel that is added lies where it was asked for, has the mode of the
/// service there and a number of its own, and is listened to at once.
pub proof fn channels_are_added_as_asked(p: Panel, freq: int)
    requires
        p.wf(),
        in_reach(Micro(freq as i64)),
        -900_000_000_000_000_000 <= freq <= 900_000_000_000_000_000,
        p.next_id < u32::MAX,
        p.channels.len() < usize::MAX,
    ensures
        ({
            let q = added(p, freq);
            let n = p.channels.len() as int;
            let m = p.outbox.len() as int;
            let ch = q.channels[n];
            &&& q.channels.len() == n + 1
            &&& forall|k: int| 0 <= k < n ==> #[trigger] q.channels[k] == p.channels[k]
            &&& ch.freq@ == freq
            &&& ch.demod == if aeronautical(freq) || citizens(freq) {
                Demod::Am
            } else if wide(freq) {
                Demod::Wfm
            } else {
                Demod::Nfm
            }
            &&& ch.label.len() >= 3
            &&& ch.label[0] == 'C'
            &&& ch.label[1] == 'H'
            &&& value(ch.label.skip(2)) == p.next_id
            &&& q.next_id == p.next_id + 1
            &&& q.listening == Some(n as usize)
            &&& q.center == p.center
            &&& q.rate == p.rate
            &&& p.connected ==> (q.outbox.len() == m + 3 && q.outbox[m] == Cmd::Demod(
                ch.demod,
            ))
            &&& p.connected ==> (q.outbox[m + 1] matches Cmd::Listen(Some(o))
                && p.center@ + o@ == freq)
        }),
{
    the_mode_follows_from_the_service(freq);
    digits_read_back(p.next_id as nat);
    reveal_strlit("CH");
    let q = added(p, freq);
    let label = "CH"@ + digits(p.next_id as nat);
    assert(label.skip(2) =~= digits(p.next_id as nat));
    assert(q.channels[p.channels.len() as int].label == label);
}

/// No two channels that are added have the same name.
pub proof fn names_of_channels_differ(p: Panel, freq: int, r: Panel, other: int)
    requires
        p.next_id != r.next_id,
    ensures
        added(p, freq).channels.last().label != added(r, other).channels.last().label,
{
    let (a, b) = (digits(p.next_id as nat), digits(r.next_id as nat));
    digits_read_back(p.next_id as nat);
    digits_read_back(r.next_id as nat);
    assert(("CH"@ + a).skip("CH"@.len() as int) =~= a);
    assert(("CH"@ + b).skip("CH"@.len() as int) =~= b);
    assert(added(p, freq).channels.last().label == "CH"@ + a);
    assert(added(r, other).channels.last().label == "CH"@ + b);
}

/// Dragging moves the span with the pointer, to within half a millionth of a
/// hertz: over the whole width, by the whole rate.
pub proof fn the_span_follows_the_pointer(p: Panel, pane: Pane, dx: int)
    requires
        pane.width@ >= 1,
    ensures
        ({
            let went = p.center@ - dragged_to(p, pane, dx);
            -pane.width@ <= 2 * (pane.width@ * went) - 2 * (dx * p.rate@) <= pane.width@
        }),
        dx == pane.width@ ==> dragged_to(p, pane, dx) == p.center@ - p.rate@,
        dx == 0 ==> dragged_to(p, pane, dx) == p.center@,
        dragged_to(p, pane, -dx) - p.center@ == p.center@ - dragged_to(p, pane, dx),
{
    let (w, r) = (pane.width@, p.rate@);
    rounding_is_close(dx * r, w as nat);
    if dx == w {
        nearest_signed_is(dx * r, w as nat, r);
    }
    if dx == 0 {
        assert(dx * r == 0) by (nonlinear_arith)
            requires
                dx == 0,
        ;
    }
    assert(w * 0 == 0);
    nearest_signed_is(0, w as nat, 0);
    assert((-dx) * r == -(dx * r)) by (nonlinear_arith);
}

/// A notch of the wheel moves a twentieth of the span, to within half a
/// millionth of a hertz, and twenty of them the whole of it.
pub proof fn twenty_notches_are_a_span(p: Panel, n: int)
    ensures
        -10 <= 20 * (p.center@ - scrubbed_to(p, n)) - n * p.rate@ <= 10,
        scrubbed_to(p, 20) == p.center@ - p.rate@,
        scrubbed_to(p, 0) == p.center@,
        scrubbed_to(p, -20) == p.center@ + p.rate@,
{
    rounding_is_close(n * p.rate@, 20);
    nearest_signed_is(20 * p.rate@, 20, p.rate@);
    nearest_signed_is(0, 20, 0);
    nearest_signed_is(-20 * p.rate@, 20, -p.rate@);
}

proof fn near_is_first(c: Seq<ChannelView>, hz: int, rate: int, width: int, i: int)
    requires
        0 <= i <= c.len(),
    ensures
        match near_from(c, hz, rate, width, i) {
            Some(k) => i <= k < c.len() && is_near(c[k].freq, hz, rate, width) && forall|j: int|
                i <= j < k ==> !is_near((#[trigger] c[j]).freq, hz, rate, width),
            None => forall|j: int|
                i <= j < c.len() ==> !is_near((#[trigger] c[j]).freq, hz, rate, width),
        },
    decreases c.len() - i,
{
    if i < c.len() {
        near_is_first(c, hz, rate, width, i + 1);
    }
}

/// Whether the place of a click is less than six pixels from a channel, where
/// `width` is in millionths of a pixel.
pub open spec fn within_six_pixels(freq: int, hz: int, rate: int, width: int) -> bool {
    let off = if freq < hz {
        hz - freq
    } else {
        freq - hz
    };
    off * width < rate * 6 * 1_000_000
}

/// A click near a channel listens to the first channel that it is near, and adds
/// none. A click elsewhere adds a channel there.
pub proof fn clicks_listen_or_add(p: Panel, pane: Pane, x: Micro)
    requires
        p.wf(),
        p.connected,
        p.channels.len() < usize::MAX,
        p.next_id < u32::MAX,
        pane.width@ >= 1,
        ({
            let hz = hz_spec(Span { center: p.center, rate: p.rate }, pane, x@);
            -900_000_000_000_000_000 <= hz <= 900_000_000_000_000_000
        }),
    ensures
        ({
            let hz = hz_spec(Span { center: p.center, rate: p.rate }, pane, x@);
            let q = clicked(p, pane, Spot::At(x));
            let n = p.channels.len();
            if exists|k: int|
                0 <= k < n && within_six_pixels(
                    (#[trigger] p.channels[k]).freq@,
                    hz,
                    p.rate@,
                    pane.width@,
                ) {
                &&& q.channels == p.channels
                &&& q.next_id == p.next_id
                &&& (q.listening matches Some(i) && i < n && within_six_pixels(
                    p.channels[i as int].freq@,
                    hz,
                    p.rate@,
                    pane.width@,
                ) && forall|k: int|
                    0 <= k < i ==> !within_six_pixels(
                        (#[trigger] p.channels[k]).freq@,
                        hz,
                        p.rate@,
                        pane.width@,
                    ))
            } else {
                &&& q.channels.len() == n + 1
                &&& q.channels[n as int].freq@ == hz
                &&& q.listening == Some(n as usize)
            }
        }),
{
    let hz = hz_spec(Span { center: p.center, rate: p.rate }, pane, x@);
    let (r, w) = (p.rate@, pane.width@);
    near_is_first(p.channels, hz, r, w, 0);
    assert forall|k: int| 0 <= k < p.channels.len() implies is_near(
        (#[trigger] p.channels[k]).freq,
        hz,
        r,
        w,
    ) == within_six_pixels(p.channels[k].freq@, hz, r, w) by {
        let f = p.channels[k].freq@;
        assert((hz - f) * w == -((f - hz) * w)) by (nonlinear_arith);
        assert(f >= hz ==> (f - hz) * w >= 0) by (nonlinear_arith)
            requires
                w >= 1,
        ;
        assert(f < hz ==> (f - hz) * w <= 0) by (nonlinear_arith)
            requires
                w >= 1,
        ;
    }
}

/// A click on a cog opens the settings of its pane and does nothing else.
pub proof fn each_cog_opens_its_own(p: Panel, pane: Pane)
    ensures
        clicked(p, pane, Spot::SpectrumCog).open == Some(Settings::Spectrum),
        clicked(p, pane, Spot::WaterfallCog).open == Some(Settings::Waterfall),
        clicked(p, pane, Spot::SpectrumCog) == (Panel { open: Some(Settings::Spectrum), ..p }),
        clicked(p, pane, Spot::WaterfallCog) == (Panel { open: Some(Settings::Waterfall), ..p }),
{
}

/// A channel that is removed is gone, the others stay in their order, and the
/// radio falls silent when it was the one that was heard.
pub proof fn only_the_channel_that_is_removed_goes(p: Panel, i: int)
    requires
        p.wf(),
        p.connected,
        0 <= i < p.channels.len() <= usize::MAX,
        p.listening matches Some(l) ==> l < p.channels.len(),
    ensures
        ({
            let q = removed(p, i);
            let n = p.outbox.len() as int;
            &&& q.channels.len() == p.channels.len() - 1
            &&& forall|k: int| 0 <= k < i ==> #[trigger] q.channels[k] == p.channels[k]
            &&& forall|k: int|
                i <= k < q.channels.len() ==> #[trigger] q.channels[k] == p.channels[k + 1]
            &&& says_more(p.outbox, q.outbox)
            &&& (p.listening == Some(i as usize) ==> q.listening is None && q.outbox
                == p.outbox.push(Cmd::Listen(None)))
            &&& (p.listening matches Some(l) ==> l < i ==> q.listening == Some(l))
            &&& (p.listening matches Some(l) ==> l > i ==> q.listening == Some((l - 1) as usize))
            &&& (p.listening is None ==> q.listening is None)
            &&& q.center == p.center
            &&& q.next_id == p.next_id
        }),
{
}

/// Another mode for a channel is told to the radio at once. Its frequency and
/// name stay, and so do the other channels.
pub proof fn another_mode_is_heard_at_once(p: Panel, i: int, d: Demod)
    requires
        p.wf(),
        p.connected,
        0 <= i < p.channels.len() <= usize::MAX,
    ensures
        ({
            let q = remoded(p, i, d);
            let n = p.outbox.len() as int;
            &&& q.channels.len() == p.channels.len()
            &&& q.channels[i].demod == d
            &&& q.channels[i].freq == p.channels[i].freq
            &&& q.channels[i].label == p.channels[i].label
            &&& forall|k: int|
                0 <= k < p.channels.len() && k != i ==> #[trigger] q.channels[k] == p.channels[k]
            &&& q.listening == Some(i as usize)
            &&& q.outbox.len() == n + 3
            &&& says_more(p.outbox, q.outbox)
            &&& q.outbox[n] == Cmd::Demod(d)
            &&& (q.outbox[n + 1] matches Cmd::Listen(Some(o)) && p.center@ + o@
                == p.channels[i].freq@)
        }),
{
    assert(in_reach(p.channels[i].freq));
}

/// The bin counts and the history lengths on offer double from one to the next,
/// from 512 bins to 16384 and from 256 rows to 2048.
pub proof fn sizes_on_offer_double()
    ensures
        fft_sizes().len() == 6,
        fft_sizes()[0] == 512,
        fft_sizes().last() == 16_384,
        forall|i: int| 0 < i < fft_sizes().len() ==> #[trigger] fft_sizes()[i] == 2 * fft_sizes()[i
            - 1],
        histories().len() == 4,
        histories()[0] == 256,
        histories().last() == 2048,
        forall|i: int| 0 < i < histories().len() ==> #[trigger] histories()[i] == 2 * histories()[i
            - 1],
{
}

/// After a change of centre or rate the listener hears its channel again, and
/// falls silent where it has none.
pub proof fn the_listener_follows_or_falls_silent(p: Panel)
    requires
        p.connected,
    ensures
        p.listening matches Some(i) ==> i < p.channels.len() ==> relistened(p) == listened(
            p,
            i as int,
        ),
        (p.listening matches Some(i) ==> i >= p.channels.len()) ==> relistened(p).listening is None
            && relistened(p).outbox == p.outbox.push(Cmd::Listen(None)),
{
}

} // verus!
