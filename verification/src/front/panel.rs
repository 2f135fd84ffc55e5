//! What each control of the front panel does.

use vstd::prelude::*;
#[allow(unused_imports)]
use crate::common::GainMode;
#[allow(unused_imports)]
use crate::fixed::Micro;
#[allow(unused_imports)]
use crate::front::devices::{entries_view, Entry};
#[allow(unused_imports)]
use crate::front::plot::Pane;
#[allow(unused_imports)]
use crate::front::radio::Cmd;
#[allow(unused_imports)]
use crate::front::ui::{dragged_to, refresh_rates, retuned, scrubbed_to, speeds, App, Panel, Start};
#[allow(unused_imports)]
use crate::front::wheel::{scrolled, Wheel, WheelUnit};

verus! {

/// Whether one command more was said, if there is a radio to hear it.
pub open spec fn said(before: Panel, after: Panel, c: Cmd) -> bool {
    if before.connected {
        after.outbox == before.outbox.push(c)
    } else {
        after.outbox == before.outbox
    }
}

/// The panel starts without a radio, at 95.8 MHz and 2.304 million samples a
/// second, with automatic gain and scale, nothing heard and nothing said.
pub proof fn the_panel_starts_at_rest(a: App)
    requires
        call_ensures(App::default, (), a),
    ensures
        ({
            let p = a@;
            let million: int = 1_000_000;
            &&& !p.connected && p.err is None && p.device is None && p.devices.len() == 0
            &&& p.spans.len() == 0
            &&& 10 * p.center@ == 958 * million * million
            &&& p.fall_center == p.center
            &&& p.rate@ == 2304 * 1000 * million
            &&& p.gain is Auto && p.auto_scale
            &&& p.floor@ == -90 * million && p.ceil@ == -20 * million && p.top_offset@ == 5 * million
            &&& p.rows_per_sec@ == 20 * million && p.refresh@ == 30 * million
            &&& p.fft_size == 2048 && p.fft == p.fft_size
            &&& p.fall_rows == 512 && p.fall.rows.len() == 512 && p.fall.filled == 0
            &&& p.smoothing@ == 350_000 && 2 * p.volume@ == million
            &&& p.channels.len() == 0 && p.listening is None && p.next_id == 1
            &&& p.outbox.len() == 0 && p.pending.len() == 0 && p.db.len() == 0
            &&& p.fall_last is None && p.open is None && p.scrub.acc@ == 0
        }),
{
}

/// The first radio that there is is picked at the start.
pub proof fn the_first_radio_is_picked(a: &mut App, devices: Vec<Entry>, r: Option<Start>)
    requires
        call_ensures(App::begin, (a, devices), r),
    ensures
        devices@.len() > 0 ==> final(a)@.device == Some(devices@[0]@) && final(a)@.connected,
        devices@.len() == 0 ==> final(a)@.device is None && !final(a)@.connected && r is None,
        final(a)@.devices == entries_view(devices@),
        devices@.len() > 0 ==> (r matches Some(s) && s.entry@ == devices@[0]@),
        final(a)@.center == old(a)@.center,
        final(a)@.outbox == old(a)@.outbox,
{
}

/// Looking for radios again keeps the one that runs, and picks the first only
/// where there was none.
pub proof fn looking_again_keeps_the_radio(a: &mut App, devices: Vec<Entry>, r: Option<Start>)
    requires
        call_ensures(App::rescan, (a, devices), r),
    ensures
        final(a)@.devices == entries_view(devices@),
        old(a)@.device is Some ==> r is None && final(a)@ == (Panel {
            devices: entries_view(devices@),
            ..old(a)@
        }),
        old(a)@.device is None && devices@.len() > 0 ==> final(a)@.device == Some(devices@[0]@)
            && final(a)@.connected,
        old(a)@.device is None && devices@.len() == 0 ==> !final(a)@.connected && r is None,
{
}

/// Another radio is started and nothing of the old one is heard. The one that
/// runs is left alone.
pub proof fn another_radio_is_started(a: &mut App, e: Entry, r: Option<Start>)
    requires
        call_ensures(App::select_device, (a, e), r),
    ensures
        old(a)@.device == Some(e@) ==> r is None && final(a)@ == old(a)@,
        old(a)@.device != Some(e@) ==> (r matches Some(s) && s.entry@ == e@) && final(a)@.device
            == Some(e@) && final(a)@.listening is None && final(a)@.connected
            && final(a)@.fall.filled == 0,
        final(a)@.channels == old(a)@.channels,
        final(a)@.center == old(a)@.center,
{
}

/// A radio is shown by its label.
pub proof fn a_radio_is_shown_by_its_label(a: &App, r: String)
    requires
        call_ensures(App::device_name, (a,), r),
    ensures
        a@.device matches Some(e) ==> r@ == e.label,
        a@.device is None ==> r@ == "none"@,
{
}

/// Automatic gain is asked for once. Going over to manual starts at thirty
/// decibels, and leaves a gain that is set alone.
pub proof fn gain_changes_hands(a: &mut App, b: &mut App)
    requires
        call_ensures(App::gain_auto, (a,), ()),
        call_ensures(App::gain_manual, (b,), ()),
    ensures
        final(a)@.gain is Auto,
        old(a)@.gain is Auto ==> final(a)@ == old(a)@,
        !(old(a)@.gain is Auto) ==> said(old(a)@, final(a)@, Cmd::Gain(GainMode::Auto)),
        !(old(b)@.gain is Auto) ==> final(b)@ == old(b)@,
        old(b)@.gain is Auto ==> (final(b)@.gain matches GainMode::Manual(g) && g@ == 30 * 1_000_000
            && said(old(b)@, final(b)@, Cmd::Gain(GainMode::Manual(g)))),
        final(a)@ == (Panel { gain: final(a)@.gain, outbox: final(a)@.outbox, ..old(a)@ }),
        final(b)@ == (Panel { gain: final(b)@.gain, outbox: final(b)@.outbox, ..old(b)@ }),
{
}

/// A gain is set only by hand, and told to the radio.
pub proof fn a_gain_is_set_by_hand(a: &mut App, g: Micro)
    requires
        call_ensures(App::set_gain, (a, g), ()),
    ensures
        old(a)@.gain is Auto ==> final(a)@ == old(a)@,
        !(old(a)@.gain is Auto) ==> final(a)@.gain == GainMode::Manual(g) && said(
            old(a)@,
            final(a)@,
            Cmd::Gain(GainMode::Manual(g)),
        ),
        final(a)@ == (Panel { gain: final(a)@.gain, outbox: final(a)@.outbox, ..old(a)@ }),
{
}

/// The volume and the averaging are set as asked and told to the radio.
pub proof fn volume_and_averaging_are_told(a: &mut App, v: Micro, b: &mut App, s: Micro)
    requires
        call_ensures(App::set_volume, (a, v), ()),
        call_ensures(App::set_smoothing, (b, s), ()),
    ensures
        final(a)@ == (Panel { volume: v, outbox: final(a)@.outbox, ..old(a)@ }),
        said(old(a)@, final(a)@, Cmd::Volume(v)),
        final(b)@ == (Panel { smoothing: s, outbox: final(b)@.outbox, ..old(b)@ }),
        said(old(b)@, final(b)@, Cmd::Smoothing(s)),
{
}

/// Another number of bins is told to the radio and begins a new history; the same
/// one changes nothing.
pub proof fn another_resolution_begins_anew(a: &mut App, n: usize)
    requires
        call_ensures(App::set_fft, (a, n), ()),
    ensures
        final(a)@.fft_size == n,
        n == old(a)@.fft_size ==> final(a)@ == old(a)@,
        n != old(a)@.fft_size ==> said(old(a)@, final(a)@, Cmd::Fft(n)) && final(a)@.fall.filled
            == 0 && final(a)@.pending.len() == 0 && final(a)@.fall_center == old(a)@.center,
        final(a)@.center == old(a)@.center,
        final(a)@.channels == old(a)@.channels,
{
}

/// Another number of frames a second is told to the radio. One that differs by no
/// more than a hundredth is the same.
pub proof fn another_refresh_is_told(a: &mut App, v: Micro)
    requires
        call_ensures(App::set_refresh, (a, v), ()),
    ensures
        v == old(a)@.refresh ==> final(a)@ == old(a)@,
        100 * (v@ - old(a)@.refresh@) > 1_000_000 || 100 * (old(a)@.refresh@ - v@) > 1_000_000
            ==> final(a)@.refresh == v && said(old(a)@, final(a)@, Cmd::Refresh(v)),
        100 * (v@ - old(a)@.refresh@) <= 1_000_000 && 100 * (old(a)@.refresh@ - v@) <= 1_000_000
            ==> final(a)@ == old(a)@,
        final(a)@ == (Panel { refresh: final(a)@.refresh, outbox: final(a)@.outbox, ..old(a)@ }),
{
}

/// The length of the history is set as asked, and the radio does not hear of it.
pub proof fn the_history_is_as_long_as_asked(a: &mut App, n: usize)
    requires
        call_ensures(App::set_history, (a, n), ()),
        old(a).wf(),
    ensures
        final(a)@.fall_rows == n,
        final(a)@.fall.rows.len() == n,
        final(a)@.outbox == old(a)@.outbox,
        forall|y: int|
            0 <= y < n && y < old(a)@.fall.rows.len() ==> #[trigger] final(a)@.fall.rows[y]
                == old(a)@.fall.rows[y],
{
}

/// The scale is set only by hand.
pub proof fn the_scale_is_set_by_hand(a: &mut App, floor: Micro, ceil: Micro)
    requires
        call_ensures(App::set_scale, (a, floor, ceil), ()),
    ensures
        old(a)@.auto_scale ==> final(a)@ == old(a)@,
        !old(a)@.auto_scale ==> final(a)@.floor == floor && final(a)@.ceil == ceil,
        final(a)@ == (Panel { floor: final(a)@.floor, ceil: final(a)@.ceil, ..old(a)@ }),
{
}

/// What waits to be said is handed over once, all of it and in order.
pub proof fn what_waits_is_handed_over_once(a: &mut App, r: Vec<Cmd>)
    requires
        call_ensures(App::take_outbox, (a,), r),
    ensures
        r@ == old(a)@.outbox,
        final(a)@.outbox.len() == 0,
        final(a)@ == (Panel { outbox: final(a)@.outbox, ..old(a)@ }),
{
}

/// A channel gets the name that is typed, and nothing else changes.
pub proof fn a_channel_gets_its_name(a: &mut App, i: usize, label: String)
    requires
        call_ensures(App::set_label, (a, i, label), ()),
        i < old(a)@.channels.len(),
    ensures
        final(a)@.channels.len() == old(a)@.channels.len(),
        final(a)@.channels[i as int].label == label@,
        final(a)@.channels[i as int].freq == old(a)@.channels[i as int].freq,
        final(a)@.channels[i as int].demod == old(a)@.channels[i as int].demod,
        forall|k: int|
            0 <= k < old(a)@.channels.len() && k != i ==> #[trigger] final(a)@.channels[k]
                == old(a)@.channels[k],
        final(a)@ == (Panel { channels: final(a)@.channels, ..old(a)@ }),
{
}

/// Dragging tunes to where it leads, and a drag of nothing says nothing.
pub proof fn dragging_tunes(a: &mut App, pane: Pane, dx: Micro)
    requires
        call_ensures(App::drag, (a, pane, dx), ()),
    ensures
        dx@ == 0 ==> final(a)@ == old(a)@,
        dx@ != 0 ==> final(a)@ == retuned(old(a)@, dragged_to(old(a)@, pane, dx@)),
{
}

/// Whole notches of the wheel tune, what is left of one is kept, and while there
/// is no whole one nothing is said.
pub proof fn the_wheel_tunes_by_whole_notches(a: &mut App, events: &[(WheelUnit, Micro)], n: int)
    requires
        call_ensures(App::wheel, (a, events), ()),
        i32::MIN <= n <= i32::MAX,
        ({
            let left = old(a)@.scrub.acc@ + scrolled(events@) - n * 1_000_000;
            n > 0 && 0 <= left < 1_000_000 || n < 0 && -1_000_000 < left <= 0 || n == 0
                && -1_000_000 < left < 1_000_000
        }),
    ensures
        ({
            let left = old(a)@.scrub.acc@ + scrolled(events@) - n * 1_000_000;
            let p = Panel { scrub: Wheel { acc: Micro(left as i64) }, ..old(a)@ };
            &&& final(a)@.scrub.acc@ == left
            &&& n == 0 ==> final(a)@ == p
            &&& n != 0 ==> final(a)@ == retuned(p, scrubbed_to(p, n))
        }),
{
}

/// What is offered goes up: frames a second from ten to sixty, rows from five to
/// eighty, doubling.
pub proof fn speeds_on_offer_double(r: Vec<u32>, s: Vec<u32>)
    requires
        call_ensures(refresh_rates, (), r),
        call_ensures(speeds, (), s),
    ensures
        r@.len() == 4 && r@[0] == 10 && r@[1] == 20 && r@[2] == 30 && r@[3] == 60,
        s@.len() == 5 && s@[0] == 5,
        forall|i: int| 0 < i < s@.len() ==> #[trigger] s@[i] == 2 * s@[i - 1],
{
}

} // verus!
