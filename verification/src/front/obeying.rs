//! How the radio takes what it is told.

use vstd::prelude::*;
#[allow(unused_imports)]
use crate::common::{Hz, Sps};
#[allow(unused_imports)]
use crate::fixed::nearest_bounds;
#[allow(unused_imports)]
use crate::front::radio::{
    asked_for, cost_text, course, demod_text, goes_on, period, told, Action, AudioPlan, Cmd, Course,
    Delivery, Demod, Happening, Rebuild, Receiver, Rx,
};
#[allow(unused_imports)]
use crate::text::{digits_read_back, value};

verus! {

/// A command sets what it names to what it says and leaves the rest. What the
/// device itself has to do is left to it.
pub proof fn commands_set_what_they_name(s: Rx, c: Cmd)
    ensures
        ({
            let t = told(s, c);
            &&& c matches Cmd::Listen(o) ==> t.listen == o
            &&& !(c is Listen) ==> t.listen == s.listen
            &&& c matches Cmd::Demod(d) ==> t.mode == d
            &&& !(c is Demod) ==> t.mode == s.mode
            &&& c matches Cmd::Volume(v) ==> t.volume == v
            &&& !(c is Volume) ==> t.volume == s.volume
            &&& c matches Cmd::Fft(n) ==> t.bins == n
            &&& !(c is Fft) ==> t.bins == s.bins
            &&& c matches Cmd::Refresh(r) ==> 1_000_000 <= r@ <= 120_000_000 ==> t.refresh == r
            &&& c matches Cmd::Refresh(r) ==> r@ < 1_000_000 ==> t.refresh@ == 1_000_000
            &&& c matches Cmd::Refresh(r) ==> r@ > 120_000_000 ==> t.refresh@ == 120_000_000
            &&& !(c is Refresh) ==> t.refresh == s.refresh
            &&& c matches Cmd::Smoothing(v) ==> 10_000 <= v@ <= 1_000_000 ==> t.smoothing == v
            &&& c matches Cmd::Smoothing(v) ==> v@ < 10_000 ==> t.smoothing@ == 10_000
            &&& c matches Cmd::Smoothing(v) ==> v@ > 1_000_000 ==> t.smoothing@ == 1_000_000
            &&& !(c is Smoothing) ==> t.smoothing == s.smoothing
            &&& c is Listen || c is Demod ==> t.stale
            &&& !(c is Listen) && !(c is Demod) ==> t.stale == s.stale
            &&& t.rate == s.rate
            &&& t.center == s.center
            &&& t.next == s.next
        }),
{
}

/// The device is asked for what a command names, with the number it says, and for
/// nothing where the command is not for it. A new spectrum keeps the averaging
/// that is set; a new averaging is the one that is set from then on.
pub proof fn the_device_is_asked_for_what_was_said(s: Rx, c: Cmd)
    ensures
        asked_for(s, c) == Action::Stop <==> c is Stop,
        c matches Cmd::Center(f) ==> asked_for(s, c) == Action::Tune(f),
        c matches Cmd::Rate(r) ==> asked_for(s, c) == Action::SetRate(r),
        c matches Cmd::Gain(g) ==> asked_for(s, c) == Action::SetGain(g),
        c matches Cmd::Fft(n) ==> asked_for(s, c) == Action::NewSpectrum(n, told(s, c).smoothing),
        c is Smoothing ==> asked_for(s, c) == Action::Average(told(s, c).smoothing),
        asked_for(s, c) == Action::Nothing <==> c is Listen || c is Demod || c is Volume
            || c is Refresh,
{
}

/// The period of so many frames a second is a second divided by them, to within
/// half a nanosecond.
pub proof fn a_period_is_a_second_over_the_frames(refresh: int)
    requires
        refresh >= 1,
    ensures
        -refresh <= 2 * (refresh * period(refresh)) - 2 * (1_000_000_000 * 1_000_000) <= refresh,
{
    let q = period(refresh) as int;
    nearest_bounds(1_000_000_000_000_000, refresh as nat);
    assert((2 * refresh) * q == 2 * (refresh * q)) by (nonlinear_arith);
}

/// A receiver begins silent, ready for broadcasts, at half volume, with thirty
/// frames a second, and shows its first frame at once.
pub proof fn a_receiver_begins_silent(center: Hz, rate: Sps, bins: usize, now: u64, r: Receiver)
    requires
        call_ensures(Receiver::new, (center, rate, bins, now), r),
    ensures
        r@.listen is None,
        r@.mode is Wfm,
        2 * r@.volume@ == 1_000_000,
        r@.refresh@ == 30 * 1_000_000,
        r@.smoothing@ == 350_000,
        r@.bins == bins,
        r@.rate == rate,
        r@.center == center,
        r@.next <= now,
{
}

/// Where the device says it is tuned is kept, and nothing else changes.
pub proof fn a_new_centre_is_kept(r: &mut Receiver, center: Hz)
    requires
        call_ensures(Receiver::tuned, (r, center), ()),
    ensures
        final(r)@.center == center,
        final(r)@ == (Rx { center: center, ..old(r)@ }),
{
}

/// A rate that the device reports is kept, the audio chain no longer fits, and
/// nothing else changes.
pub proof fn a_new_rate_breaks_the_chain(r: &mut Receiver, rate: Sps)
    requires
        call_ensures(Receiver::rated, (r, rate), ()),
    ensures
        final(r)@.rate == rate,
        final(r)@.stale,
        final(r)@ == (Rx { rate: rate, stale: true, ..old(r)@ }),
{
}

/// A chain that fits is kept. One that does not is built again for the offset,
/// the rate and the mode that are set, or taken away where nothing is to be
/// heard. After that it fits.
pub proof fn chains_are_rebuilt_for_what_is_set(r: &mut Receiver, b: Rebuild)
    requires
        call_ensures(Receiver::rebuild, (r,), b),
    ensures
        b is Keep <==> !old(r)@.stale,
        b is Silence <==> old(r)@.stale && old(r)@.listen is None,
        b matches Rebuild::Chain(off, rate, mode) ==> old(r)@.listen == Some(off) && rate
            == old(r)@.rate && mode == old(r)@.mode,
        final(r)@ == (Rx { stale: false, ..old(r)@ }),
{
}

/// A frame is due once its time has come. The next is due a period later.
pub proof fn frames_are_due_in_their_time(r: &mut Receiver, now: u64, due: bool)
    requires
        call_ensures(Receiver::frame_due, (r, now), due),
    ensures
        due <==> old(r)@.next <= now,
        due ==> final(r)@.next == now + period(old(r)@.refresh@),
        !due ==> final(r)@ == old(r)@,
        final(r)@ == (Rx { next: final(r)@.next, ..old(r)@ }),
{
}

/// A display that has frames enough is not waited for; only one that is gone
/// ends the run.
pub proof fn only_a_display_that_is_gone_ends_the_run(d: Delivery, r: bool)
    requires
        call_ensures(goes_on, (d,), r),
    ensures
        r <==> d is Sent || d is Full,
{
}

/// A device that fails ends the run and is shown; the end of the samples, a stop
/// and a display that is gone end it without a word; without sound it goes on,
/// and says why.
pub proof fn a_run_takes_what_happens(h: Happening, r: Course)
    requires
        call_ensures(course, (h,), r),
    ensures
        r.on() <==> h is Audio || (h matches Happening::Frame(d) && !(d is Disconnected)),
        r.shown() is Some <==> h is Device || h is Audio,
        h matches Happening::Device(e) ==> r.shown() == Some(e@),
        h matches Happening::Audio(e) ==> r.shown() == Some("no audio output: "@ + e@),
{
}

/// Each mode has a name of its own.
pub proof fn modes_are_told_apart(d: Demod)
    ensures
        d is Wfm <==> demod_text(d) == "WFM"@,
        d is Nfm <==> demod_text(d) == "NFM"@,
        d is Am <==> demod_text(d) == "AM"@,
{
    reveal_strlit("WFM");
    reveal_strlit("NFM");
    reveal_strlit("AM");
    assert("WFM"@[0] == 'W' && "NFM"@[0] == 'N' && "AM"@[0] == 'A');
}

/// Whether a text says how long two filters are and what they divide by.
pub open spec fn says_filters(t: Seq<char>, n: int, by: int, m: int, too: int) -> bool {
    exists|a: Seq<char>, b: Seq<char>, c: Seq<char>, d: Seq<char>|
        t == "if "@ + a + " taps /"@ + b + ", audio "@ + c + " taps /"@ + d && #[trigger] value(a)
            == n && #[trigger] value(b) == by && #[trigger] value(c) == m && #[trigger] value(d)
            == too
}

/// What a chain costs is read back from what is said of it.
pub proof fn filters_are_read_back(if_taps: nat, au_taps: nat, p: AudioPlan)
    ensures
        says_filters(
            cost_text(if_taps, au_taps, p),
            if_taps as int,
            p.if_dec as int,
            au_taps as int,
            p.au_dec as int,
        ),
{
    let (a, b) = (crate::text::digits(if_taps), crate::text::digits(p.if_dec as nat));
    let (c, d) = (crate::text::digits(au_taps), crate::text::digits(p.au_dec as nat));
    digits_read_back(if_taps);
    digits_read_back(p.if_dec as nat);
    digits_read_back(au_taps);
    digits_read_back(p.au_dec as nat);
    assert(value(a) == if_taps && value(b) == p.if_dec && value(c) == au_taps && value(d)
        == p.au_dec);
}

} // verus!
