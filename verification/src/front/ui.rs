//! The front panel: what it shows, and what it tells the radio.
//!
//! Drawing and input are the caller's part. Every gesture is a call here, and
//! what the radio is to be told waits in the outbox.

use vstd::prelude::*;
use crate::common::{GainMode, Hz, Sps};
use crate::fixed::{nearest_signed, Micro};
#[allow(unused_imports)]
use crate::fixed::{clamp_spec, nearest_signed_spec, rounding_is_bounded, rounding_is_close};
use crate::front::bands::demod_at;
#[allow(unused_imports)]
use crate::front::bands::demod_spec;
use crate::front::devices::{device_rates, spans_for, Entry};
#[allow(unused_imports)]
use crate::front::devices::{
    entries_view, every_driver_offers_a_rate, label_text, labelled, offered, rates_of,
    spans_respect_the_device, EntryView,
};
use crate::front::plot::{hz_at, Pane, Span, Spot};
#[allow(unused_imports)]
use crate::front::plot::{hz_spec, larger, places_are_in_the_span};
use crate::front::radio::{Cmd, Demod};
use crate::front::waterfall::Waterfall;
#[allow(unused_imports)]
use crate::front::waterfall::{black_row, dark, pushed, slid, Fall};
use crate::front::wheel::{Wheel, WheelUnit};
#[allow(unused_imports)]
use crate::front::wheel::{scrolled, whole_notches};
use crate::sort::sort;
#[allow(unused_imports)]
use crate::sort::{in_order, order_is_unique, ordered, orders};
use crate::text::push_nat;
#[allow(unused_imports)]
use crate::text::digits;

verus! {

/// Which settings are open. Each pane has its own, because those of the
/// spectrum and of the waterfall are unrelated.
#[derive(Clone, Copy, Debug, PartialEq, Eq, Structural)]
pub enum Settings {
    Spectrum,
    Waterfall,
}

/// A frequency that can be listened to.
#[derive(Debug)]
pub struct Channel {
    pub freq: Micro,
    pub demod: Demod,
    pub label: String,
}

/// A channel as mathematical values.
pub struct ChannelView {
    pub freq: Micro,
    pub demod: Demod,
    pub label: Seq<char>,
}

impl View for Channel {
    type V = ChannelView;

    open spec fn view(&self) -> ChannelView {
        ChannelView { freq: self.freq, demod: self.demod, label: self.label@ }
    }
}

/// The views of channels.
pub open spec fn channels_view(c: Seq<Channel>) -> Seq<ChannelView> {
    Seq::new(c.len(), |i: int| c[i]@)
}

/// One spectrum of the radio.
#[derive(Debug)]
pub struct Frame {
    /// Levels from the low end of the span to the high end. The two extreme
    /// numbers stand for levels that are no number.
    pub db: Vec<Micro>,
    pub center: Micro,
    pub rate: Micro,
}

/// Whether a level is a number.
pub open spec fn finite(v: Micro) -> bool {
    v.0 != i64::MIN && v.0 != i64::MAX
}

/// Whether a frame can be shown.
pub open spec fn showable(f: Frame) -> bool {
    &&& 0 <= f.center@ <= 400_000_000_000_000_000
    &&& 0 < f.rate@ <= 400_000_000_000_000_000
    &&& f.db@.len() <= 0xffff_ffff
    &&& forall|i: int|
        0 <= i < f.db@.len() && finite(#[trigger] f.db@[i]) ==> -1_000_000_000_000_000 <= f.db@[i]@
            <= 1_000_000_000_000_000
}

/// A radio that is to be started.
#[derive(Debug)]
pub struct Start {
    pub entry: Entry,
    pub center: Hz,
    pub rate: Sps,
    pub fft: usize,
}

/// The front panel as mathematical values.
pub struct Panel {
    /// There is a radio.
    pub connected: bool,
    pub err: Option<Seq<char>>,
    pub center: Micro,
    pub rate: Micro,
    pub gain: GainMode,
    /// The spectrum that is shown.
    pub db: Seq<Micro>,
    pub fall: Fall,
    pub floor: Micro,
    pub ceil: Micro,
    pub auto_scale: bool,
    /// The centre that the history corresponds to.
    pub fall_center: Micro,
    /// The strongest levels since the last row.
    pub pending: Seq<Micro>,
    /// When the last row was drawn.
    pub fall_last: Option<u64>,
    pub rows_per_sec: Micro,
    pub refresh: Micro,
    pub fft_size: usize,
    pub scrub: Wheel,
    pub open: Option<Settings>,
    pub smoothing: Micro,
    /// How far below the ceiling the hottest colour sits.
    pub top_offset: Micro,
    pub fall_rows: usize,
    pub channels: Seq<ChannelView>,
    /// The channel that is heard.
    pub listening: Option<usize>,
    pub volume: Micro,
    pub next_id: u32,
    pub fft: usize,
    pub devices: Seq<EntryView>,
    pub device: Option<EntryView>,
    /// Sample rates on offer.
    pub spans: Seq<u64>,
    /// What the radio is to be told.
    pub outbox: Seq<Cmd>,
}

/// The front panel.
pub struct App {
    pub connected: bool,
    pub err: Option<String>,
    pub center: Micro,
    pub rate: Micro,
    pub gain: GainMode,
    pub db: Vec<Micro>,
    pub fall: Waterfall,
    pub floor: Micro,
    pub ceil: Micro,
    pub auto_scale: bool,
    /// Centre the waterfall history corresponds to, so that a retune can slide
    /// it instead of throwing it away.
    pub fall_center: Micro,
    pub pending: Vec<Micro>,
    pub fall_last: Option<u64>,
    pub rows_per_sec: Micro,
    pub refresh: Micro,
    pub fft_size: usize,
    pub scrub: Wheel,
    pub open: Option<Settings>,
    pub smoothing: Micro,
    pub top_offset: Micro,
    pub fall_rows: usize,
    pub channels: Vec<Channel>,
    pub listening: Option<usize>,
    pub volume: Micro,
    pub next_id: u32,
    pub fft: usize,
    pub devices: Vec<Entry>,
    pub device: Option<Entry>,
    pub spans: Vec<(String, u64)>,
    pub outbox: Vec<Cmd>,
}

/// The rates of spans.
pub open spec fn span_rates(s: Seq<(String, u64)>) -> Seq<u64> {
    Seq::new(s.len(), |i: int| s[i].1)
}

impl View for App {
    type V = Panel;

    open spec fn view(&self) -> Panel {
        Panel {
            connected: self.connected,
            err: match self.err {
                Some(e) => Some(e@),
                None => None,
            },
            center: self.center,
            rate: self.rate,
            gain: self.gain,
            db: self.db@,
            fall: self.fall@,
            floor: self.floor,
            ceil: self.ceil,
            auto_scale: self.auto_scale,
            fall_center: self.fall_center,
            pending: self.pending@,
            fall_last: self.fall_last,
            rows_per_sec: self.rows_per_sec,
            refresh: self.refresh,
            fft_size: self.fft_size,
            scrub: self.scrub,
            open: self.open,
            smoothing: self.smoothing,
            top_offset: self.top_offset,
            fall_rows: self.fall_rows,
            channels: channels_view(self.channels@),
            listening: self.listening,
            volume: self.volume,
            next_id: self.next_id,
            fft: self.fft,
            devices: entries_view(self.devices@),
            device: match self.device {
                Some(e) => Some(e@),
                None => None,
            },
            spans: span_rates(self.spans@),
            outbox: self.outbox@,
        }
    }
}

/// Whether a channel lies where channels can.
pub open spec fn in_reach(freq: Micro) -> bool {
    -900_000_000_000_000_000 <= freq@ <= 900_000_000_000_000_000
}

impl Panel {
    /// The numbers are ones that can be reckoned with, and the settings agree
    /// with what they set.
    pub open spec fn wf(self) -> bool {
        &&& 0 <= self.center@ <= 400_000_000_000_000_000
        &&& 0 < self.rate@ <= 400_000_000_000_000_000
        &&& in_reach(self.fall_center)
        &&& -2_000_000_000_000_000 <= self.floor@ <= 2_000_000_000_000_000
        &&& -2_000_000_000_000_000 <= self.ceil@ <= 2_000_000_000_000_000
        &&& -2_000_000_000_000_000 <= self.top_offset@ <= 2_000_000_000_000_000
        &&& self.rows_per_sec@ > 0
        &&& self.scrub.wf()
        &&& self.fall.rows.len() == self.fall_rows
        &&& forall|i: int| 0 <= i < self.channels.len() ==> in_reach((#[trigger] self.channels[i]).freq)
        &&& forall|i: int|
            0 <= i < self.spans.len() ==> 0 < #[trigger] self.spans[i] <= 400_000_000_000
    }
}

/// A panel after a command was sent: only a radio that is there is told.
pub open spec fn sent(p: Panel, c: Cmd) -> Panel {
    if p.connected {
        Panel { outbox: p.outbox.push(c), ..p }
    } else {
        p
    }
}

/// A panel after a channel was picked to listen to.
pub open spec fn listened(p: Panel, i: int) -> Panel {
    if 0 <= i < p.channels.len() {
        let ch = p.channels[i];
        let q = Panel { listening: Some(i as usize), ..p };
        let offset = Micro((ch.freq@ - p.center@) as i64);
        sent(sent(sent(q, Cmd::Demod(ch.demod)), Cmd::Listen(Some(offset))), Cmd::Volume(p.volume))
    } else {
        p
    }
}

/// A panel after nothing is listened to any more.
pub open spec fn muted(p: Panel) -> Panel {
    sent(Panel { listening: None, ..p }, Cmd::Listen(None))
}

/// A panel after the listener followed a change of centre or rate.
pub open spec fn relistened(p: Panel) -> Panel {
    match p.listening {
        Some(i) => if i < p.channels.len() {
            listened(p, i as int)
        } else {
            muted(p)
        },
        None => muted(p),
    }
}

/// A panel after tuning: never outside what the tuner can reach.
pub open spec fn retuned(p: Panel, hz: int) -> Panel {
    let c = clamp_spec(hz, 24_000_000_000_000, 1_766_000_000_000_000);
    relistened(
        sent(Panel { center: Micro(c as i64), ..p }, Cmd::Center(Hz((c / 1_000_000) as u64))),
    )
}

/// A waterfall that was blacked out.
pub open spec fn cleared(f: Fall) -> Fall {
    Fall { width: f.width, rows: dark(f.width, f.rows.len()), filled: 0 }
}

/// A waterfall that was moved sideways.
pub open spec fn moved(f: Fall, d: int) -> Fall {
    Fall { rows: Seq::new(f.rows.len(), |y: int| slid(f.rows[y], d)), ..f }
}

/// A waterfall with another number of rows.
pub open spec fn resized(f: Fall, height: nat) -> Fall {
    Fall {
        width: f.width,
        filled: if f.filled < height {
            f.filled
        } else {
            height
        },
        rows: Seq::new(
            height,
            |y: int|
                if y < f.rows.len() {
                    f.rows[y]
                } else {
                    black_row(f.width)
                },
        ),
    }
}

/// A panel after its history was thrown away.
pub open spec fn restarted(p: Panel) -> Panel {
    Panel { fall: cleared(p.fall), fall_center: p.center, pending: Seq::empty(), ..p }
}

/// A panel with one more channel, which is listened to.
pub open spec fn added(p: Panel, freq: int) -> Panel {
    let ch = ChannelView {
        freq: Micro(freq as i64),
        demod: demod_spec(freq),
        label: "CH"@ + digits(p.next_id as nat),
    };
    listened(
        Panel { next_id: (p.next_id + 1) as u32, channels: p.channels.push(ch), ..p },
        p.channels.len() as int,
    )
}

impl Default for App {
    fn default() -> (r: App)
        ensures
            r.wf(),
            r@ == (Panel {
                connected: false,
                err: None,
                center: Micro(95_800_000_000_000),
                rate: Micro(2_304_000_000_000),
                gain: GainMode::Auto,
                db: Seq::empty(),
                fall: Fall { width: 0, rows: dark(0, 512), filled: 0 },
                floor: Micro((-90_000_000) as i64),
                ceil: Micro((-20_000_000) as i64),
                auto_scale: true,
                fall_center: Micro(95_800_000_000_000),
                pending: Seq::empty(),
                fall_last: None,
                rows_per_sec: Micro(20_000_000),
                refresh: Micro(30_000_000),
                fft_size: 2048,
                scrub: Wheel { acc: Micro(0) },
                open: None,
                smoothing: Micro(350_000),
                top_offset: Micro(5_000_000),
                fall_rows: 512,
                channels: Seq::empty(),
                listening: None,
                volume: Micro(500_000),
                next_id: 1,
                fft: 2048,
                devices: Seq::empty(),
                device: None,
                spans: Seq::empty(),
                outbox: Seq::empty(),
            }),
    {
        let r = App {
            connected: false,
            err: None,
            center: Micro(95_800_000_000_000),
            rate: Micro(2_304_000_000_000),
            gain: GainMode::Auto,
            db: Vec::new(),
            fall: Waterfall::new(512),
            floor: Micro(-90_000_000),
            ceil: Micro(-20_000_000),
            auto_scale: true,
            fall_center: Micro(95_800_000_000_000),
            pending: Vec::new(),
            fall_last: None,
            rows_per_sec: Micro(20_000_000),
            refresh: Micro(30_000_000),
            fft_size: 2048,
            scrub: Wheel::default(),
            open: None,
            smoothing: Micro(350_000),
            top_offset: Micro(5_000_000),
            fall_rows: 512,
            channels: Vec::new(),
            listening: None,
            volume: Micro(500_000),
            next_id: 1,
            fft: 2048,
            devices: Vec::new(),
            device: None,
            spans: Vec::new(),
            outbox: Vec::new(),
        };
        assert(r@.channels =~= Seq::empty());
        assert(r@.devices =~= Seq::empty());
        assert(r@.spans =~= Seq::empty());
        r
    }
}

impl App {
    /// The numbers are ones that can be reckoned with, and the spans carry
    /// their labels.
    pub open spec fn wf(&self) -> bool {
        &&& self@.wf()
        &&& self.fall.wf()
        &&& 1 <= self.fall_rows
        &&& labelled(self.spans@, self@.spans)
    }

    /// Tells the radio something, if there is one.
    fn send(&mut self, c: Cmd)
        requires
            old(self).wf(),
        ensures
            final(self).wf(),
            final(self)@ == sent(old(self)@, c),
    {
        if self.connected {
            self.outbox.push(c);
        }
    }

    /// Listens to a channel. Nothing happens if there is none of that number.
    pub fn listen(&mut self, i: usize)
        requires
            old(self).wf(),
        ensures
            final(self).wf(),
            final(self)@ == listened(old(self)@, i as int),
    {
        if i >= self.channels.len() {
            return;
        }
        assert(in_reach(self@.channels[i as int].freq));
        let freq: Micro = self.channels[i].freq;
        let demod: Demod = self.channels[i].demod;
        self.listening = Some(i);
        self.send(Cmd::Demod(demod));
        let offset: i64 = freq.0 - self.center.0;
        self.send(Cmd::Listen(Some(Micro(offset))));
        let volume: Micro = self.volume;
        self.send(Cmd::Volume(volume));
    }

    /// Listens to nothing.
    pub fn mute(&mut self)
        requires
            old(self).wf(),
        ensures
            final(self).wf(),
            final(self)@ == muted(old(self)@),
    {
        self.listening = None;
        self.send(Cmd::Listen(None));
    }

    /// Keeps the listener on its channel after the centre or the rate changed.
    pub fn retune_listener(&mut self)
        requires
            old(self).wf(),
        ensures
            final(self).wf(),
            final(self)@ == relistened(old(self)@),
    {
        match self.listening {
            Some(i) => if i < self.channels.len() {
                self.listen(i);
            } else {
                self.mute();
            },
            None => {
                self.mute();
            },
        }
    }

    /// Tunes the radio, within what the tuner can reach.
    pub fn retune(&mut self, hz: Micro)
        requires
            old(self).wf(),
        ensures
            final(self).wf(),
            final(self)@ == retuned(old(self)@, hz@),
    {
        self.center = hz.clamp_to(Micro(24_000_000_000_000), Micro(1_766_000_000_000_000));
        let c: u64 = (self.center.0 / 1_000_000) as u64;
        self.send(Cmd::Center(Hz(c)));
        self.retune_listener();
    }

    /// Throws the history away: the span or the bin count changed, so that old
    /// rows no longer line up.
    pub fn reset_waterfall(&mut self)
        requires
            old(self).wf(),
        ensures
            final(self).wf(),
            final(self)@ == restarted(old(self)@),
    {
        self.fall.clear();
        self.fall_center = self.center;
        self.pending = Vec::new();
    }

    /// Adds a channel, in the mode of its band, and listens to it.
    pub fn add_channel(&mut self, freq: Micro)
        requires
            old(self).wf(),
            in_reach(freq),
            old(self).next_id < u32::MAX,
            old(self).channels@.len() < usize::MAX,
        ensures
            final(self).wf(),
            final(self)@ == added(old(self)@, freq@),
    {
        let mut label: String = "CH".to_owned();
        push_nat(&mut label, self.next_id as u128);
        self.next_id = self.next_id + 1;
        let ghost before = self@;
        let ch = Channel { freq, demod: demod_at(freq), label };
        self.channels.push(ch);
        proof {
            assert(self@.channels =~= before.channels.push(ch@));
            assert(self@ == (Panel { channels: before.channels.push(ch@), ..before }));
        }
        let i: usize = self.channels.len() - 1;
        self.listen(i);
    }
}

/// The levels that are numbers.
pub open spec fn numbers(db: Seq<Micro>) -> Seq<i64>
    decreases db.len(),
{
    if db.len() == 0 {
        Seq::empty()
    } else if finite(db.last()) {
        numbers(db.drop_last()).push(db.last().0)
    } else {
        numbers(db.drop_last())
    }
}

/// A number a twentieth of the way nearer to another.
pub open spec fn nearer(v: int, to: int) -> int {
    v + nearest_signed_spec(to - v, 20)
}

/// A panel after its scale followed a spectrum: percentiles, not extremes, or
/// one strong carrier would flatten everything else in the span.
pub open spec fn rescaled(p: Panel, db: Seq<Micro>) -> Panel {
    let v = ordered(numbers(db));
    if v.len() == 0 {
        p
    } else {
        let last = v.len() - 1;
        let lo = v[last * 10 / 100] - 6_000_000;
        let hi = v[last * 999 / 1000] + 3_000_000;
        Panel {
            floor: Micro(nearer(p.floor@, lo) as i64),
            ceil: Micro(nearer(p.ceil@, larger(hi, lo + 20_000_000)) as i64),
            ..p
        }
    }
}

/// Bins that the history is off the centre.
pub open spec fn drift(p: Panel, bins: nat) -> int {
    nearest_signed_spec((p.center@ - p.fall_center@) * bins, p.rate@ as nat)
}

/// A panel after its history slid to the centre.
pub open spec fn slid_to_center(p: Panel, bins: nat) -> Panel {
    let d = drift(p, bins);
    if bins == 0 || d == 0 {
        p
    } else {
        Panel {
            fall: moved(p.fall, clamp_spec(d, i32::MIN as int, i32::MAX as int)),
            fall_center: Micro((p.fall_center@ + nearest_signed_spec(d * p.rate@, bins)) as i64),
            ..p
        }
    }
}

/// The stronger of each two levels, the new ones alone where the bins changed.
pub open spec fn held(pending: Seq<Micro>, db: Seq<Micro>) -> Seq<Micro> {
    if pending.len() != db.len() {
        db
    } else {
        Seq::new(
            db.len(),
            |i: int|
                if db[i]@ > pending[i]@ {
                    db[i]
                } else {
                    pending[i]
                },
        )
    }
}

/// Whether a row is due.
pub open spec fn row_due(p: Panel, now: u64) -> bool {
    match p.fall_last {
        None => true,
        Some(t) => (now - t) * p.rows_per_sec@ >= 1_000_000_000_000_000,
    }
}

/// A panel after a row was drawn.
pub open spec fn row_drawn(p: Panel, now: u64) -> Panel {
    Panel {
        fall: pushed(p.fall, p.pending, p.floor@, p.ceil@ - p.top_offset@),
        pending: Seq::new(p.pending.len(), |i: int| Micro(i64::MIN)),
        fall_last: Some(now),
        ..p
    }
}

/// A panel after it took a frame.
pub open spec fn shown(p: Panel, f: Frame, now: u64) -> Panel {
    let tuned = Panel { center: f.center, rate: f.rate, ..p };
    let scaled = if p.auto_scale {
        rescaled(tuned, f.db@)
    } else {
        tuned
    };
    let level = slid_to_center(scaled, f.db@.len());
    let waiting = Panel { pending: held(level.pending, f.db@), ..level };
    let drawn = if row_due(waiting, now) {
        row_drawn(waiting, now)
    } else {
        waiting
    };
    Panel { db: f.db@, ..drawn }
}

proof fn numbers_are_levels(db: Seq<Micro>)
    requires
        forall|i: int|
            0 <= i < db.len() && finite(#[trigger] db[i]) ==> -1_000_000_000_000_000 <= db[i]@
                <= 1_000_000_000_000_000,
    ensures
        numbers(db).len() <= db.len(),
        forall|i: int|
            0 <= i < numbers(db).len() ==> -1_000_000_000_000_000 <= #[trigger] numbers(db)[i]
                <= 1_000_000_000_000_000,
    decreases db.len(),
{
    if db.len() > 0 {
        let rest = db.drop_last();
        assert forall|i: int| 0 <= i < rest.len() && finite(#[trigger] rest[i]) implies
            -1_000_000_000_000_000 <= rest[i]@ <= 1_000_000_000_000_000 by {
            assert(finite(db[i]));
        }
        numbers_are_levels(rest);
        assert(finite(db[db.len() - 1]) ==> -1_000_000_000_000_000 <= db[db.len() - 1]@
            <= 1_000_000_000_000_000);
        assert forall|i: int| 0 <= i < numbers(db).len() implies -1_000_000_000_000_000
            <= #[trigger] numbers(db)[i] <= 1_000_000_000_000_000 by {
            if i < numbers(rest).len() {
                assert(numbers(db)[i] == numbers(rest)[i]);
            }
        }
    }
}

/// A number of a sorted list is one of those that were sorted.
proof fn sorted_numbers_are_the_same(v: Seq<i64>, s: Seq<i64>, i: int)
    requires
        orders(v, s),
        0 <= i < s.len(),
    ensures
        v.contains(s[i]),
{
    broadcast use vstd::multiset::group_multiset_axioms;

    s.to_multiset_ensures();
    v.to_multiset_ensures();
    assert(s.contains(s[i]));
    assert(s.to_multiset().count(s[i]) > 0);
    assert(v.to_multiset().count(s[i]) > 0);
}

/// A step toward a number stays between where it started and that number.
proof fn steps_do_not_overshoot(v: int, to: int)
    ensures
        v <= to ==> v <= nearer(v, to) <= to,
        to <= v ==> to <= nearer(v, to) <= v,
{
    rounding_is_close(to - v, 20);
}

/// Takes a twentieth of a step.
fn step_to(v: Micro, to: i64) -> (r: Micro)
    requires
        -2_000_000_000_000_000 <= v@ <= 2_000_000_000_000_000,
        -2_000_000_000_000_000 <= to <= 2_000_000_000_000_000,
    ensures
        r@ == nearer(v@, to as int),
        -2_000_000_000_000_000 <= r@ <= 2_000_000_000_000_000,
{
    proof {
        steps_do_not_overshoot(v@, to as int);
    }
    let d: i128 = nearest_signed(to as i128 - v.0 as i128, 20);
    Micro((v.0 as i128 + d) as i64)
}

/// After it slid, the history is off the centre by no more than half a bin and
/// half a millionth of a hertz.
pub proof fn the_history_follows_the_centre(p: Panel, bins: nat)
    requires
        p.wf(),
        1 <= bins,
    ensures
        ({
            let off = p.center@ - slid_to_center(p, bins).fall_center@;
            -(p.rate@ + bins) <= 2 * (off * bins) <= p.rate@ + bins
        }),
{
    let d = drift(p, bins);
    let r = p.rate@;
    let n = bins as int;
    let gap = p.center@ - p.fall_center@;
    rounding_is_close(gap * n, r as nat);
    if d == 0 {
        assert(r * d == 0) by (nonlinear_arith)
            requires
                d == 0,
        ;
    } else {
        let s = nearest_signed_spec(d * r, bins);
        rounding_is_close(d * r, bins);
        assert(r * d == d * r) by (nonlinear_arith);
        assert((gap - s) * n == gap * n - n * s) by (nonlinear_arith);
        let off = gap - s;
        assert(-600_000_000_000_000_000 <= off <= 600_000_000_000_000_000) by (nonlinear_arith)
            requires
                -(r + n) <= 2 * (off * n) <= r + n,
                n >= 1,
                0 < r <= 400_000_000_000_000_000,
        ;
    }
}

impl App {
    /// Something went wrong with the radio.
    pub fn fail(&mut self, e: String)
        requires
            old(self).wf(),
        ensures
            final(self).wf(),
            final(self)@ == (Panel { err: Some(e@), ..old(self)@ }),
    {
        self.err = Some(e);
    }

    /// Lets the scale follow a spectrum.
    pub fn rescale(&mut self, db: &[Micro])
        requires
            old(self).wf(),
            db@.len() <= 0xffff_ffff,
            forall|i: int|
                0 <= i < db@.len() && finite(#[trigger] db@[i]) ==> -1_000_000_000_000_000
                    <= db@[i]@ <= 1_000_000_000_000_000,
        ensures
            final(self).wf(),
            final(self)@ == rescaled(old(self)@, db@),
    {
        let n: usize = db.len();
        let mut v: Vec<i64> = Vec::new();
        let mut i: usize = 0;
        assert(db@.take(0) =~= Seq::empty());
        while i < n
            invariant
                n == db@.len(),
                i <= n,
                v@ == numbers(db@.take(i as int)),
            decreases n - i,
        {
            proof {
                assert(db@.take(i + 1).drop_last() =~= db@.take(i as int));
                assert(db@.take(i + 1).last() == db@[i as int]);
            }
            let x: i64 = db[i].0;
            if x != i64::MIN && x != i64::MAX {
                v.push(x);
            }
            i += 1;
        }
        proof {
            assert(db@.take(n as int) =~= db@);
            numbers_are_levels(db@);
        }
        let s: Vec<i64> = sort(&v);
        let count: usize = s.len();
        proof {
            broadcast use vstd::multiset::group_multiset_axioms;

            s@.to_multiset_ensures();
            v@.to_multiset_ensures();
            assert(count == v@.len());
        }
        if count == 0 {
            return;
        }
        let last: u64 = count as u64 - 1;
        let a: usize = (last * 10 / 100) as usize;
        let b: usize = (last * 999 / 1000) as usize;
        proof {
            sorted_numbers_are_the_same(v@, s@, a as int);
            sorted_numbers_are_the_same(v@, s@, b as int);
        }
        let lo: i64 = s[a] - 6_000_000;
        let hi: i64 = s[b] + 3_000_000;
        let top: i64 = if hi < lo + 20_000_000 {
            lo + 20_000_000
        } else {
            hi
        };
        self.floor = step_to(self.floor, lo);
        self.ceil = step_to(self.ceil, top);
    }

    /// Slides the history to match a new centre.
    pub fn slide_waterfall(&mut self, bins: usize)
        requires
            old(self).wf(),
            bins <= 0xffff_ffff,
        ensures
            final(self).wf(),
            final(self)@ == slid_to_center(old(self)@, bins as nat),
    {
        if bins == 0 {
            return;
        }
        let n: i128 = bins as i128;
        let gap: i128 = self.center.0 as i128 - self.fall_center.0 as i128;
        let rate: i128 = self.rate.0 as i128;
        assert(-1_300_000_000_000_000_000 * 0xffff_ffff <= gap * n <= 1_300_000_000_000_000_000
            * 0xffff_ffff) by (nonlinear_arith)
            requires
                -1_300_000_000_000_000_000 <= gap <= 1_300_000_000_000_000_000,
                0 <= n <= 0xffff_ffff,
        ;
        let d: i128 = nearest_signed(gap * n, rate as u128);
        if d == 0 {
            return;
        }
        proof {
            the_history_follows_the_centre(self@, bins as nat);
            rounding_is_close(gap * n, rate as nat);
            assert(rate * d == d * rate) by (nonlinear_arith);
            let s = nearest_signed_spec(d * rate, bins as nat);
            rounding_is_close(d * rate, bins as nat);
            assert((gap - s) * n == gap * n - n * s) by (nonlinear_arith);
            let off = gap - s;
            assert(-600_000_000_000_000_000 <= off <= 600_000_000_000_000_000)
                by (nonlinear_arith)
                requires
                    -(rate + n) <= 2 * (off * n) <= rate + n,
                    n >= 1,
                    0 < rate <= 400_000_000_000_000_000,
            ;
            // A slide of nearly a bin cannot leave the reach of channels.
            assert(off * n == n * off) by (nonlinear_arith);
            assert(-200_000_000_000_000_001 <= off <= 200_000_000_000_000_001)
                by (nonlinear_arith)
                requires
                    -(rate + n) <= 2 * (off * n) <= rate + n,
                    n >= 1,
                    0 < rate <= 400_000_000_000_000_000,
            ;
        }
        let limited: i32 = if d > i32::MAX as i128 {
            i32::MAX
        } else if d < i32::MIN as i128 {
            i32::MIN
        } else {
            d as i32
        };
        let ghost before = self.fall@;
        self.fall.shift(limited);
        assert(self.fall@ == moved(before, limited as int));
        let by: i128 = nearest_signed(d * rate, n as u128);
        self.fall_center = Micro((self.fall_center.0 as i128 + by) as i64);
    }

    /// Keeps the stronger of each two levels.
    fn hold(&mut self, db: &[Micro])
        requires
            old(self).wf(),
        ensures
            final(self).wf(),
            final(self)@ == (Panel { pending: held(old(self)@.pending, db@), ..old(self)@ }),
    {
        let n: usize = db.len();
        let fresh: bool = self.pending.len() != n;
        let mut v: Vec<Micro> = Vec::new();
        let mut i: usize = 0;
        while i < n
            invariant
                n == db@.len(),
                i <= n,
                fresh == (self.pending@.len() != n),
                v@.len() == i,
                forall|k: int| 0 <= k < i ==> v@[k] == held(self.pending@, db@)[k],
            decreases n - i,
        {
            let x: Micro = db[i];
            if fresh || x.0 > self.pending[i].0 {
                v.push(x);
            } else {
                v.push(self.pending[i]);
            }
            i += 1;
        }
        assert(v@ =~= held(self.pending@, db@));
        self.pending = v;
    }

    /// Draws a row and starts the next.
    fn draw_row(&mut self, now: u64)
        requires
            old(self).wf(),
        ensures
            final(self).wf(),
            final(self)@ == row_drawn(old(self)@, now),
    {
        // The waterfall tops out below the ceiling of the trace: the plot wants
        // headroom, the colours want the opposite.
        let top: Micro = Micro(self.ceil.0 - self.top_offset.0);
        let floor: Micro = self.floor;
        self.fall.push(self.pending.as_slice(), floor, top);
        let n: usize = self.pending.len();
        let mut v: Vec<Micro> = Vec::new();
        let mut i: usize = 0;
        while i < n
            invariant
                i <= n,
                v@.len() == i,
                forall|k: int| 0 <= k < i ==> v@[k] == Micro(i64::MIN),
            decreases n - i,
        {
            v.push(Micro(i64::MIN));
            i += 1;
        }
        assert(v@ =~= Seq::new(n as nat, |i: int| Micro(i64::MIN)));
        self.pending = v;
        self.fall_last = Some(now);
    }

    /// Takes the newest frame of the radio at `now`, in nanoseconds.
    ///
    /// Peaks are held between rows, or a short burst that lands between them is
    /// never drawn.
    pub fn take_frame(&mut self, f: Frame, now: u64)
        requires
            old(self).wf(),
            showable(f),
        ensures
            final(self).wf(),
            final(self)@ == shown(old(self)@, f, now),
    {
        self.center = f.center;
        self.rate = f.rate;
        if self.auto_scale {
            self.rescale(f.db.as_slice());
        }
        self.slide_waterfall(f.db.len());
        self.hold(f.db.as_slice());
        let due: bool = match self.fall_last {
            None => true,
            Some(t) => {
                let rows: i128 = self.rows_per_sec.0 as i128;
                let since: i128 = now as i128 - t as i128;
                assert(-0xffff_ffff_ffff_ffff * 0x7fff_ffff_ffff_ffff <= since * rows
                    <= 0xffff_ffff_ffff_ffff * 0x7fff_ffff_ffff_ffff) by (nonlinear_arith)
                    requires
                        -0xffff_ffff_ffff_ffff <= since <= 0xffff_ffff_ffff_ffff,
                        0 <= rows <= 0x7fff_ffff_ffff_ffff,
                ;
                since * rows >= 1_000_000_000_000_000
            },
        };
        if due {
            self.draw_row(now);
        }
        self.db = f.db;
    }
}

/// The stronger of two levels is kept, whichever came first: a burst between
/// two rows is in the next one.
pub proof fn bursts_are_held(pending: Seq<Micro>, db: Seq<Micro>, i: int)
    requires
        0 <= i < db.len(),
    ensures
        held(pending, db).len() == db.len(),
        held(pending, db)[i]@ >= db[i]@,
        pending.len() == db.len() ==> held(pending, db)[i]@ >= pending[i]@,
{
}

proof fn plain_levels(db: Seq<Micro>)
    requires
        forall|i: int| 0 <= i < db.len() ==> finite(#[trigger] db[i]),
    ensures
        numbers(db) == Seq::new(db.len(), |i: int| db[i].0),
    decreases db.len(),
{
    if db.len() > 0 {
        let rest = db.drop_last();
        assert forall|i: int| 0 <= i < rest.len() implies finite(#[trigger] rest[i]) by {
            assert(finite(db[i]));
        }
        plain_levels(rest);
        assert(finite(db[db.len() - 1]));
    }
    assert(numbers(db) =~= Seq::new(db.len(), |i: int| db[i].0));
}

/// One carrier over a level floor does not flatten the rest: however strong it
/// is, the scale moves as it would without it.
pub proof fn a_single_carrier_does_not_flatten_the_scale(
    p: Panel,
    db: Seq<Micro>,
    base: int,
    k: int,
)
    requires
        p.wf(),
        db.len() >= 2,
        0 <= k < db.len(),
        -1_000_000_000_000_000 <= base <= 1_000_000_000_000_000,
        base <= db[k]@ < i64::MAX,
        forall|i: int| 0 <= i < db.len() && i != k ==> (#[trigger] db[i])@ == base,
    ensures
        rescaled(p, db).floor@ == nearer(p.floor@, base - 6_000_000),
        rescaled(p, db).ceil@ == nearer(p.ceil@, base + 14_000_000),
{
    let n = db.len() as int;
    let b = base as i64;
    let c = db[k].0;
    assert forall|i: int| 0 <= i < db.len() implies finite(#[trigger] db[i]) by {}
    plain_levels(db);
    let v = numbers(db);
    let s = Seq::new(db.len(), |i: int|
        if i == n - 1 {
            c
        } else {
            b
        });
    broadcast use {vstd::multiset::group_multiset_axioms, vstd::seq_lib::group_to_multiset_ensures};

    if k != n - 1 {
        let t = s.update(k, c);
        vstd::seq_lib::to_multiset_update(s, k, c);
        vstd::seq_lib::to_multiset_update(t, n - 1, b);
        assert(t.update(n - 1, b) =~= v);
        assert(v.to_multiset() =~= s.to_multiset());
    } else {
        assert(v =~= s);
    }
    assert(in_order(s));
    order_is_unique(v, s);
    let last = n - 1;
    assert(last * 10 / 100 < last);
    assert(last * 999 / 1000 < last);
    assert(s[last * 10 / 100] == b);
    assert(s[last * 999 / 1000] == b);
    steps_do_not_overshoot(p.floor@, base - 6_000_000);
    steps_do_not_overshoot(p.ceil@, base + 14_000_000);
}

/// A scale that follows the same spectrum again and again never passes where
/// that belongs, and stops no more than ten millionths short of it.
pub proof fn the_scale_does_not_overshoot(v: int, to: int)
    ensures
        v <= to ==> v <= nearer(v, to) <= to,
        to <= v ==> to <= nearer(v, to) <= v,
        (to - v > 10 || v - to > 10) ==> nearer(v, to) != v,
{
    steps_do_not_overshoot(v, to);
    rounding_is_close(to - v, 20);
}

/// What is said when there is no radio.
pub open spec fn no_radio() -> Seq<char> {
    "no radio found. plug one in, then press RESCAN."@
}

/// Whether a span is the rate that is set.
pub open spec fn is_rate(rate: Micro, span: u64) -> bool {
    -1_000_000 < span * 1_000_000 - rate@ < 1_000_000
}

/// The rate to start at: the one that is set if it is on offer, else the
/// greatest that is.
pub open spec fn start_rate(rate: Micro, spans: Seq<u64>) -> Micro {
    if spans.len() == 0 || exists|i: int|
        0 <= i < spans.len() && is_rate(rate, #[trigger] spans[i]) {
        rate
    } else {
        Micro((spans.last() * 1_000_000) as i64)
    }
}

/// The rates of a radio that are on offer.
pub open spec fn spans_of(e: EntryView) -> Seq<u64> {
    offered(rates_of(e.kind).0 as int, rates_of(e.kind).1 as int, 11)
}

/// A panel after it connected to the radio that is picked.
pub open spec fn reconnected(p: Panel) -> Panel {
    match p.device {
        None => Panel { connected: false, err: Some(no_radio()), ..p },
        Some(e) => restarted(
            Panel {
                connected: true,
                err: None,
                spans: spans_of(e),
                rate: start_rate(p.rate, spans_of(e)),
                ..p
            },
        ),
    }
}

/// Whether that is what is to be started.
pub open spec fn starts(r: Option<Start>, p: Panel) -> bool {
    match (r, p.device) {
        (Some(s), Some(e)) => {
            &&& s.entry@ == e
            &&& s.center.0 == p.center@ / 1_000_000
            &&& s.rate.0 == p.rate@ / 1_000_000
            &&& s.fft == p.fft
        },
        (None, None) => true,
        _ => false,
    }
}

/// A panel after a span was picked.
pub open spec fn span_picked(p: Panel, i: int) -> Panel {
    if is_rate(p.rate, p.spans[i]) {
        p
    } else {
        let r = p.spans[i];
        relistened(
            restarted(
                sent(Panel { rate: Micro((r * 1_000_000) as i64), ..p }, Cmd::Rate(Sps(r))),
            ),
        )
    }
}

/// The first span from `i` that is the rate.
pub open spec fn span_at(rate: Micro, spans: Seq<u64>, i: int) -> Option<int>
    decreases spans.len() - i,
{
    if i < 0 || i >= spans.len() {
        None
    } else if is_rate(rate, spans[i]) {
        Some(i)
    } else {
        span_at(rate, spans, i + 1)
    }
}

/// What the rate is called.
pub open spec fn span_text(p: Panel) -> Seq<char> {
    match span_at(p.rate, p.spans, 0) {
        Some(i) => label_text(p.spans[i] as nat),
        None => "custom"@,
    }
}

/// A panel without one of its channels. The listener stays on its channel.
pub open spec fn removed(p: Panel, i: int) -> Panel {
    let listening = match p.listening {
        Some(l) => if l == i {
            None
        } else if l > i {
            Some((l - 1) as usize)
        } else {
            Some(l)
        },
        None => None,
    };
    relistened(Panel { channels: p.channels.remove(i), listening, ..p })
}

/// A panel with another mode for one of its channels, which is listened to.
pub open spec fn remoded(p: Panel, i: int, d: Demod) -> Panel {
    let ch = ChannelView { demod: d, ..p.channels[i] };
    listened(Panel { channels: p.channels.update(i, ch), ..p }, i)
}

impl App {
    /// Connects to the radio that is picked: the caller lets go of the one
    /// before, so that it is free again, and starts this.
    pub fn connect(&mut self) -> (r: Option<Start>)
        requires
            old(self).wf(),
        ensures
            final(self).wf(),
            final(self)@ == reconnected(old(self)@),
            starts(r, final(self)@),
    {
        self.connected = false;
        self.err = None;
        let entry: Entry = match &self.device {
            Some(e) => e.clone(),
            None => {
                self.err = Some(
                    "no radio found. plug one in, then press RESCAN.".to_owned(),
                );
                return None;
            },
        };
        let (lo, hi) = device_rates(&entry);
        self.spans = spans_for(lo, hi);
        let ghost rates = spans_of(entry@);
        proof {
            assert(self@.spans =~= rates);
            spans_respect_the_device(lo.0 as int, hi.0 as int, 11);
        }
        let n: usize = self.spans.len();
        let mut found: bool = false;
        let mut i: usize = 0;
        while i < n
            invariant
                i <= n,
                n == self.spans@.len(),
                n == rates.len(),
                self@.spans == rates,
                self.rate == old(self).rate,
                0 < self.rate@ <= 400_000_000_000_000_000,
                forall|k: int| 0 <= k < n ==> 0 < #[trigger] rates[k] <= 20_000_000,
                found == exists|k: int| 0 <= k < i && is_rate(self.rate, #[trigger] rates[k]),
            decreases n - i,
        {
            let r: u64 = self.spans[i].1;
            assert(r == rates[i as int]);
            let d: i64 = r as i64 * 1_000_000 - self.rate.0;
            if -1_000_000 < d && d < 1_000_000 {
                found = true;
            }
            i += 1;
        }
        if !found && n > 0 {
            let r: u64 = self.spans[n - 1].1;
            assert(r == rates[n - 1]);
            self.rate = Micro(r as i64 * 1_000_000);
        }
        self.connected = true;
        let center: u64 = (self.center.0 / 1_000_000) as u64;
        let rate: u64 = (self.rate.0 / 1_000_000) as u64;
        let fft: usize = self.fft;
        self.reset_waterfall();
        Some(Start { entry, center: Hz(center), rate: Sps(rate), fft })
    }

    /// Takes up the radios that were found and connects to the first.
    pub fn begin(&mut self, devices: Vec<Entry>) -> (r: Option<Start>)
        requires
            old(self).wf(),
        ensures
            final(self).wf(),
            final(self)@ == reconnected(
                Panel {
                    devices: entries_view(devices@),
                    device: if devices@.len() > 0 {
                        Some(devices@[0]@)
                    } else {
                        None
                    },
                    ..old(self)@
                },
            ),
            starts(r, final(self)@),
    {
        self.device = if devices.len() > 0 {
            Some(devices[0].clone())
        } else {
            None
        };
        self.devices = devices;
        self.connect()
    }

    /// Takes up the radios that were found. Where none was picked yet, the
    /// first is, and connected to.
    pub fn rescan(&mut self, devices: Vec<Entry>) -> (r: Option<Start>)
        requires
            old(self).wf(),
        ensures
            final(self).wf(),
            old(self)@.device is Some ==> {
                &&& final(self)@ == (Panel { devices: entries_view(devices@), ..old(self)@ })
                &&& r is None
            },
            old(self)@.device is None ==> {
                &&& final(self)@ == reconnected(
                    Panel {
                        devices: entries_view(devices@),
                        device: if devices@.len() > 0 {
                            Some(devices@[0]@)
                        } else {
                            None
                        },
                        ..old(self)@
                    },
                )
                &&& starts(r, final(self)@)
            },
    {
        if self.device.is_some() {
            self.devices = devices;
            None
        } else {
            self.begin(devices)
        }
    }

    /// Picks a radio. Nothing happens if it is the one already picked.
    pub fn select_device(&mut self, e: Entry) -> (r: Option<Start>)
        requires
            old(self).wf(),
        ensures
            final(self).wf(),
            old(self)@.device == Some(e@) ==> final(self)@ == old(self)@ && r is None,
            old(self)@.device != Some(e@) ==> {
                &&& final(self)@ == reconnected(
                    Panel { device: Some(e@), listening: None, ..old(self)@ },
                )
                &&& starts(r, final(self)@)
            },
    {
        let already: bool = match &self.device {
            Some(d) => d.is(&e),
            None => false,
        };
        if already {
            return None;
        }
        self.device = Some(e);
        self.listening = None;
        self.connect()
    }

    /// What the radio is called.
    pub fn device_name(&self) -> (r: String)
        ensures
            r@ == (match self@.device {
                Some(e) => e.label,
                None => "none"@,
            }),
    {
        match &self.device {
            Some(d) => d.label.as_str().to_owned(),
            None => "none".to_owned(),
        }
    }

    /// Whether a span is the rate that is set.
    pub fn is_current(&self, i: usize) -> (r: bool)
        requires
            self.wf(),
            i < self.spans@.len(),
        ensures
            r == is_rate(self.rate, self@.spans[i as int]),
    {
        let r: u64 = self.spans[i].1;
        assert(r == self@.spans[i as int]);
        let d: i64 = r as i64 * 1_000_000 - self.rate.0;
        -1_000_000 < d && d < 1_000_000
    }

    /// What the rate is called.
    pub fn span_name(&self) -> (r: String)
        requires
            self.wf(),
        ensures
            r@ == span_text(self@),
    {
        let n: usize = self.spans.len();
        let mut i: usize = 0;
        while i < n
            invariant
                self.wf(),
                n == self.spans@.len(),
                i <= n,
                span_at(self.rate, self@.spans, 0) == span_at(self.rate, self@.spans, i as int),
            decreases n - i,
        {
            if self.is_current(i) {
                assert(self.spans@[i as int].0@ == label_text(self@.spans[i as int] as nat));
                return self.spans[i].0.as_str().to_owned();
            }
            i += 1;
        }
        "custom".to_owned()
    }

    /// Picks a sample rate. Nothing happens if it is the one already set.
    pub fn pick_span(&mut self, i: usize)
        requires
            old(self).wf(),
            i < old(self).spans@.len(),
        ensures
            final(self).wf(),
            final(self)@ == span_picked(old(self)@, i as int),
    {
        if self.is_current(i) {
            return;
        }
        let r: u64 = self.spans[i].1;
        assert(r == self@.spans[i as int]);
        self.rate = Micro(r as i64 * 1_000_000);
        self.send(Cmd::Rate(Sps(r)));
        self.reset_waterfall();
        self.retune_listener();
    }

    /// Leaves the gain to the radio.
    pub fn gain_auto(&mut self)
        requires
            old(self).wf(),
        ensures
            final(self).wf(),
            final(self)@ == (if old(self)@.gain == GainMode::Auto {
                old(self)@
            } else {
                sent(
                    Panel { gain: GainMode::Auto, ..old(self)@ },
                    Cmd::Gain(GainMode::Auto),
                )
            }),
    {
        if let GainMode::Manual(_) = self.gain {
            self.gain = GainMode::Auto;
            self.send(Cmd::Gain(GainMode::Auto));
        }
    }

    /// Takes the gain in hand, at thirty decibels to begin with.
    pub fn gain_manual(&mut self)
        requires
            old(self).wf(),
        ensures
            final(self).wf(),
            final(self)@ == (if old(self)@.gain == GainMode::Auto {
                sent(
                    Panel { gain: GainMode::Manual(Micro(30_000_000)), ..old(self)@ },
                    Cmd::Gain(GainMode::Manual(Micro(30_000_000))),
                )
            } else {
                old(self)@
            }),
    {
        if let GainMode::Auto = self.gain {
            self.gain = GainMode::Manual(Micro(30_000_000));
            self.send(Cmd::Gain(GainMode::Manual(Micro(30_000_000))));
        }
    }

    /// Sets the gain that is in hand. Nothing happens while the radio sets it.
    pub fn set_gain(&mut self, g: Micro)
        requires
            old(self).wf(),
        ensures
            final(self).wf(),
            final(self)@ == (if old(self)@.gain == GainMode::Auto {
                old(self)@
            } else {
                sent(
                    Panel { gain: GainMode::Manual(g), ..old(self)@ },
                    Cmd::Gain(GainMode::Manual(g)),
                )
            }),
    {
        if let GainMode::Manual(_) = self.gain {
            self.gain = GainMode::Manual(g);
            self.send(Cmd::Gain(GainMode::Manual(g)));
        }
    }

    pub fn set_volume(&mut self, v: Micro)
        requires
            old(self).wf(),
        ensures
            final(self).wf(),
            final(self)@ == sent(Panel { volume: v, ..old(self)@ }, Cmd::Volume(v)),
    {
        self.volume = v;
        self.send(Cmd::Volume(v));
    }

    /// Takes a channel away.
    pub fn remove_channel(&mut self, i: usize)
        requires
            old(self).wf(),
            i < old(self).channels@.len(),
        ensures
            final(self).wf(),
            final(self)@ == removed(old(self)@, i as int),
    {
        let ghost before = self@;
        let _ = self.channels.remove(i);
        self.listening = match self.listening {
            Some(l) => if l == i {
                None
            } else if l > i {
                Some(l - 1)
            } else {
                Some(l)
            },
            None => None,
        };
        proof {
            assert(self@.channels =~= before.channels.remove(i as int));
            assert forall|k: int| 0 <= k < self@.channels.len() implies in_reach(
                (#[trigger] self@.channels[k]).freq,
            ) by {
                assert(in_reach(before.channels[k].freq));
                assert(in_reach(before.channels[k + 1].freq));
            }
        }
        self.retune_listener();
    }

    /// Sets the mode of a channel and listens to it.
    pub fn set_demod(&mut self, i: usize, d: Demod)
        requires
            old(self).wf(),
            i < old(self).channels@.len(),
        ensures
            final(self).wf(),
            final(self)@ == remoded(old(self)@, i as int, d),
    {
        let ghost before = self@;
        let ghost had = self.channels@[i as int];
        assert(in_reach(before.channels[i as int].freq));
        let freq: Micro = self.channels[i].freq;
        let label: String = self.channels[i].label.as_str().to_owned();
        self.channels.set(i, Channel { freq, demod: d, label });
        proof {
            let ch = ChannelView { demod: d, ..before.channels[i as int] };
            assert(self@.channels =~= before.channels.update(i as int, ch));
            assert forall|k: int| 0 <= k < self@.channels.len() implies in_reach(
                (#[trigger] self@.channels[k]).freq,
            ) by {
                assert(in_reach(before.channels[k].freq));
            }
        }
        self.listen(i);
    }

    /// Names a channel.
    pub fn set_label(&mut self, i: usize, label: String)
        requires
            old(self).wf(),
            i < old(self).channels@.len(),
        ensures
            final(self).wf(),
            final(self)@ == (Panel {
                channels: old(self)@.channels.update(
                    i as int,
                    (ChannelView { label: label@, ..old(self)@.channels[i as int] }),
                ),
                ..old(self)@
            }),
    {
        let ghost before = self@;
        assert(in_reach(before.channels[i as int].freq));
        let freq: Micro = self.channels[i].freq;
        let demod: Demod = self.channels[i].demod;
        self.channels.set(i, Channel { freq, demod, label });
        proof {
            let ch = ChannelView { label: label@, ..before.channels[i as int] };
            assert(self@.channels =~= before.channels.update(i as int, ch));
            assert forall|k: int| 0 <= k < self@.channels.len() implies in_reach(
                (#[trigger] self@.channels[k]).freq,
            ) by {
                assert(in_reach(before.channels[k].freq));
            }
        }
    }
}

/// Whether a place is within six pixels of a channel.
pub open spec fn is_near(freq: Micro, hz: int, rate: int, width: int) -> bool {
    let d = freq@ - hz;
    -(6_000_000 * rate) < d * width < 6_000_000 * rate
}

/// The first channel from `i` that is near a frequency.
pub open spec fn near_from(c: Seq<ChannelView>, hz: int, rate: int, width: int, i: int) -> Option<
    int,
>
    decreases c.len() - i,
{
    if i < 0 || i >= c.len() {
        None
    } else if is_near(c[i].freq, hz, rate, width) {
        Some(i)
    } else {
        near_from(c, hz, rate, width, i + 1)
    }
}

/// A panel after a click. The cogs come first, or opening settings would also
/// drop a channel.
pub open spec fn clicked(p: Panel, pane: Pane, spot: Spot) -> Panel {
    match spot {
        Spot::SpectrumCog => Panel { open: Some(Settings::Spectrum), ..p },
        Spot::WaterfallCog => Panel { open: Some(Settings::Waterfall), ..p },
        Spot::At(x) => {
            let hz = hz_spec(Span { center: p.center, rate: p.rate }, pane, x@);
            match near_from(p.channels, hz, p.rate@, pane.width@, 0) {
                Some(i) => listened(p, i),
                None => added(p, hz),
            }
        },
    }
}

/// Where dragging sideways leads.
pub open spec fn dragged_to(p: Panel, pane: Pane, dx: int) -> int {
    p.center@ - nearest_signed_spec(dx * p.rate@, pane.width@ as nat)
}

/// Where turning the wheel leads: a twentieth of the span per notch, so that
/// the gesture means the same at every width.
pub open spec fn scrubbed_to(p: Panel, n: int) -> int {
    p.center@ - nearest_signed_spec(n * p.rate@, 20)
}

/// The bin counts on offer.
pub open spec fn fft_sizes() -> Seq<usize> {
    seq![512, 1024, 2048, 4096, 8192, 16384]
}

/// The history lengths on offer.
pub open spec fn histories() -> Seq<usize> {
    seq![256, 512, 1024, 2048]
}

impl App {
    fn near(&self, hz: Micro, width: Micro) -> (r: Option<usize>)
        requires
            self.wf(),
            -1_000_000_000_000_000_000 <= hz@ <= 1_000_000_000_000_000_000,
            0 < width@ <= 1_000_000_000_000_000_000,
        ensures
            match r {
                Some(i) => i < self@.channels.len() && near_from(
                    self@.channels,
                    hz@,
                    self.rate@,
                    width@,
                    0,
                ) == Some(i as int),
                None => near_from(self@.channels, hz@, self.rate@, width@, 0) is None,
            },
    {
        let n: usize = self.channels.len();
        let reach: i128 = 6_000_000 * self.rate.0 as i128;
        let w: i128 = width.0 as i128;
        let mut i: usize = 0;
        while i < n
            invariant
                self.wf(),
                n == self.channels@.len(),
                i <= n,
                -1_000_000_000_000_000_000 <= hz@ <= 1_000_000_000_000_000_000,
                w == width@,
                0 < w <= 1_000_000_000_000_000_000,
                reach == 6_000_000 * self.rate@,
                near_from(self@.channels, hz@, self.rate@, w as int, 0) == near_from(
                    self@.channels,
                    hz@,
                    self.rate@,
                    w as int,
                    i as int,
                ),
            decreases n - i,
        {
            assert(in_reach(self@.channels[i as int].freq));
            let d: i128 = self.channels[i].freq.0 as i128 - hz.0 as i128;
            assert(-2_000_000_000_000_000_000 * 1_000_000_000_000_000_000 <= d * w
                <= 2_000_000_000_000_000_000 * 1_000_000_000_000_000_000) by (nonlinear_arith)
                requires
                    -2_000_000_000_000_000_000 <= d <= 2_000_000_000_000_000_000,
                    0 < w <= 1_000_000_000_000_000_000,
            ;
            if -reach < d * w && d * w < reach {
                return Some(i);
            }
            i += 1;
        }
        None
    }

    /// A click on the panes: opens settings, listens to the channel there, or
    /// adds one.
    pub fn click(&mut self, pane: Pane, spot: Spot)
        requires
            old(self).wf(),
            pane.wf(),
            spot matches Spot::At(x) ==> -1_000_000_000_000_000_000 <= x@
                <= 1_000_000_000_000_000_000,
            old(self).next_id < u32::MAX,
            old(self).channels@.len() < usize::MAX,
        ensures
            final(self).wf(),
            final(self)@ == clicked(old(self)@, pane, spot),
    {
        match spot {
            Spot::SpectrumCog => {
                self.open = Some(Settings::Spectrum);
            },
            Spot::WaterfallCog => {
                self.open = Some(Settings::Waterfall);
            },
            Spot::At(x) => {
                let span: Span = Span { center: self.center, rate: self.rate };
                let hz: Micro = hz_at(span, pane, x);
                proof {
                    places_are_in_the_span(span, pane, x@);
                }
                match self.near(hz, pane.width) {
                    Some(i) => self.listen(i),
                    None => self.add_channel(hz),
                }
            },
        }
    }

    /// A sideways drag over the panes.
    pub fn drag(&mut self, pane: Pane, dx: Micro)
        requires
            old(self).wf(),
            pane.wf(),
            -1_000_000_000_000_000_000 <= dx@ <= 1_000_000_000_000_000_000,
        ensures
            final(self).wf(),
            final(self)@ == (if dx@ == 0 {
                old(self)@
            } else {
                retuned(old(self)@, dragged_to(old(self)@, pane, dx@))
            }),
    {
        if dx.0 == 0 {
            return;
        }
        let rate: i128 = self.rate.0 as i128;
        let d: i128 = dx.0 as i128;
        let w: i128 = pane.width.0 as i128;
        assert(-1_000_000_000_000_000_000 * 400_000_000_000_000_000 <= d * rate
            <= 1_000_000_000_000_000_000 * 400_000_000_000_000_000) by (nonlinear_arith)
            requires
                -1_000_000_000_000_000_000 <= d <= 1_000_000_000_000_000_000,
                0 < rate <= 400_000_000_000_000_000,
        ;
        proof {
            rounding_is_bounded(d * rate, w as nat);
        }
        let by: i128 = nearest_signed(d * rate, w as u128);
        self.retune_wide(self.center.0 as i128 - by);
    }

    /// Tunes to a frequency that may not fit a [`Micro`].
    fn retune_wide(&mut self, hz: i128)
        requires
            old(self).wf(),
        ensures
            final(self).wf(),
            final(self)@ == retuned(old(self)@, hz as int),
    {
        let c: i64 = if hz < 24_000_000_000_000 {
            24_000_000_000_000
        } else if hz > 1_766_000_000_000_000 {
            1_766_000_000_000_000
        } else {
            hz as i64
        };
        self.retune(Micro(c));
    }

    /// The wheel over the panes moves the centre.
    pub fn wheel(&mut self, events: &[(WheelUnit, Micro)])
        requires
            old(self).wf(),
            events@.len() <= u32::MAX,
        ensures
            final(self).wf(),
            ({
                let total = old(self).scrub.acc@ + scrolled(events@);
                let n = clamp_spec(whole_notches(total), i32::MIN as int, i32::MAX as int);
                let acc = Micro((total - whole_notches(total) * 1_000_000) as i64);
                let p = Panel { scrub: Wheel { acc }, ..old(self)@ };
                final(self)@ == (if n == 0 {
                    p
                } else {
                    retuned(p, scrubbed_to(p, n))
                })
            }),
    {
        let n: i32 = self.scrub.notches(events);
        if n == 0 {
            return;
        }
        let rate: i128 = self.rate.0 as i128;
        let k: i128 = n as i128;
        assert(-0x8000_0000 * 400_000_000_000_000_000 <= k * rate <= 0x8000_0000
            * 400_000_000_000_000_000) by (nonlinear_arith)
            requires
                -0x8000_0000 <= k <= 0x8000_0000,
                0 < rate <= 400_000_000_000_000_000,
        ;
        proof {
            rounding_is_bounded(k * rate, 20);
        }
        let by: i128 = nearest_signed(k * rate, 20);
        self.retune_wide(self.center.0 as i128 - by);
    }

    pub fn close_settings(&mut self)
        requires
            old(self).wf(),
        ensures
            final(self).wf(),
            final(self)@ == (Panel { open: None, ..old(self)@ }),
    {
        self.open = None;
    }

    /// Sets the bin count of the spectrum.
    pub fn set_fft(&mut self, n: usize)
        requires
            old(self).wf(),
        ensures
            final(self).wf(),
            final(self)@ == (if n == old(self)@.fft_size {
                old(self)@
            } else {
                restarted(sent(Panel { fft_size: n, ..old(self)@ }, Cmd::Fft(n)))
            }),
    {
        if n != self.fft_size {
            self.fft_size = n;
            self.send(Cmd::Fft(n));
            self.reset_waterfall();
        }
    }

    /// Sets the frames per second of the spectrum. A change of a hundredth or
    /// less is none.
    pub fn set_refresh(&mut self, v: Micro)
        requires
            old(self).wf(),
        ensures
            final(self).wf(),
            final(self)@ == (if -10_000 <= v@ - old(self)@.refresh@ <= 10_000 {
                old(self)@
            } else {
                sent(Panel { refresh: v, ..old(self)@ }, Cmd::Refresh(v))
            }),
    {
        let d: i128 = v.0 as i128 - self.refresh.0 as i128;
        if d > 10_000 || d < -10_000 {
            self.refresh = v;
            self.send(Cmd::Refresh(v));
        }
    }

    /// Sets the averaging of the spectrum.
    pub fn set_smoothing(&mut self, v: Micro)
        requires
            old(self).wf(),
        ensures
            final(self).wf(),
            final(self)@ == sent(Panel { smoothing: v, ..old(self)@ }, Cmd::Smoothing(v)),
    {
        self.smoothing = v;
        self.send(Cmd::Smoothing(v));
    }

    /// Sets how many rows a second the waterfall scrolls.
    pub fn set_rows_per_sec(&mut self, v: Micro)
        requires
            old(self).wf(),
            v@ > 0,
        ensures
            final(self).wf(),
            final(self)@ == (Panel { rows_per_sec: v, ..old(self)@ }),
    {
        self.rows_per_sec = v;
    }

    /// Sets how many rows of history are kept.
    pub fn set_history(&mut self, n: usize)
        requires
            old(self).wf(),
            1 <= n <= usize::MAX / 2,
        ensures
            final(self).wf(),
            final(self)@ == (if n == old(self)@.fall_rows {
                old(self)@
            } else {
                Panel { fall_rows: n, fall: resized(old(self)@.fall, n as nat), ..old(self)@ }
            }),
    {
        if n != self.fall_rows {
            self.fall_rows = n;
            let ghost before = self.fall@;
            self.fall.set_height(n);
            assert(self.fall@ == resized(before, n as nat));
        }
    }

    /// Sets how far below the ceiling the hottest colour sits.
    pub fn set_contrast(&mut self, v: Micro)
        requires
            old(self).wf(),
            -2_000_000_000_000_000 <= v@ <= 2_000_000_000_000_000,
        ensures
            final(self).wf(),
            final(self)@ == (Panel { top_offset: v, ..old(self)@ }),
    {
        self.top_offset = v;
    }

    /// Sets whether the scale follows the spectrum.
    pub fn set_auto_scale(&mut self, on: bool)
        requires
            old(self).wf(),
        ensures
            final(self).wf(),
            final(self)@ == (Panel { auto_scale: on, ..old(self)@ }),
    {
        self.auto_scale = on;
    }

    /// Sets the scale. Nothing happens while it follows the spectrum.
    pub fn set_scale(&mut self, floor: Micro, ceil: Micro)
        requires
            old(self).wf(),
            -2_000_000_000_000_000 <= floor@ <= 2_000_000_000_000_000,
            -2_000_000_000_000_000 <= ceil@ <= 2_000_000_000_000_000,
        ensures
            final(self).wf(),
            final(self)@ == (if old(self)@.auto_scale {
                old(self)@
            } else {
                Panel { floor, ceil, ..old(self)@ }
            }),
    {
        if !self.auto_scale {
            self.floor = floor;
            self.ceil = ceil;
        }
    }

    /// Hands over what the radio is to be told, in the order it was said.
    pub fn take_outbox(&mut self) -> (r: Vec<Cmd>)
        requires
            old(self).wf(),
        ensures
            final(self).wf(),
            r@ == old(self)@.outbox,
            final(self)@ == (Panel { outbox: Seq::empty(), ..old(self)@ }),
    {
        let mut out: Vec<Cmd> = Vec::new();
        std::mem::swap(&mut out, &mut self.outbox);
        out
    }

    /// What is done once, before a picture of the panel is taken: two channels,
    /// if there is none.
    pub fn pose(&mut self)
        requires
            old(self).wf(),
            old(self).next_id < 0xffff_fff0,
        ensures
            final(self).wf(),
            final(self)@ == (if old(self)@.channels.len() == 0 {
                added(added(old(self)@, 95_800_000_000_000), 95_350_000_000_000)
            } else {
                old(self)@
            }),
    {
        if self.channels.len() == 0 {
            self.add_channel(Micro(95_800_000_000_000));
            self.add_channel(Micro(95_350_000_000_000));
        }
    }
}

/// The bin counts on offer.
pub fn ffts() -> (r: Vec<usize>)
    ensures
        r@ == fft_sizes(),
{
    let mut v: Vec<usize> = Vec::new();
    v.push(512);
    v.push(1024);
    v.push(2048);
    v.push(4096);
    v.push(8192);
    v.push(16384);
    assert(v@ =~= fft_sizes());
    v
}

/// The history lengths on offer.
pub fn history_rows() -> (r: Vec<usize>)
    ensures
        r@ == histories(),
{
    let mut v: Vec<usize> = Vec::new();
    v.push(256);
    v.push(512);
    v.push(1024);
    v.push(2048);
    assert(v@ =~= histories());
    v
}

/// The frames per second on offer.
pub fn refresh_rates() -> (r: Vec<u32>)
    ensures
        r@ == seq![10u32, 20, 30, 60],
{
    let mut v: Vec<u32> = Vec::new();
    v.push(10);
    v.push(20);
    v.push(30);
    v.push(60);
    assert(v@ =~= seq![10u32, 20, 30, 60]);
    v
}

/// The rows per second on offer.
pub fn speeds() -> (r: Vec<u32>)
    ensures
        r@ == seq![5u32, 10, 20, 40, 80],
{
    let mut v: Vec<u32> = Vec::new();
    v.push(5);
    v.push(10);
    v.push(20);
    v.push(40);
    v.push(80);
    assert(v@ =~= seq![5u32, 10, 20, 40, 80]);
    v
}

/// Tuning always ends inside what the tuner can reach, and tells the radio
/// where if there is one.
pub proof fn tuning_stays_in_reach(p: Panel, hz: int)
    ensures
        24_000_000_000_000 <= retuned(p, hz).center@ <= 1_766_000_000_000_000,
        24_000_000_000_000 <= hz <= 1_766_000_000_000_000 ==> retuned(p, hz).center@ == hz,
        p.connected ==> {
            let out = retuned(p, hz).outbox;
            &&& out.len() > p.outbox.len()
            &&& out[p.outbox.len() as int] == Cmd::Center(
                Hz((retuned(p, hz).center@ / 1_000_000) as u64),
            )
        },
{
}

/// A listener stays on its frequency when the radio is tuned elsewhere: the new
/// offset and the new centre add up to it.
pub proof fn the_listener_keeps_its_frequency(p: Panel, hz: int)
    requires
        p.wf(),
        p.connected,
        p.listening is Some,
        p.listening->0 < p.channels.len(),
    ensures
        ({
            let q = retuned(p, hz);
            let out = q.outbox;
            let freq = p.channels[p.listening->0 as int].freq;
            &&& q.listening == p.listening
            &&& out.len() == p.outbox.len() + 4
            &&& out[out.len() - 2] == Cmd::Listen(Some(Micro((freq@ - q.center@) as i64)))
            &&& (freq@ - q.center@) as i64 == freq@ - q.center@
        }),
{
    let i = p.listening->0 as int;
    assert(in_reach(p.channels[i].freq));
}

/// Taking a channel away leaves the listener on the one it is on, unless that
/// is the one taken away.
pub proof fn removal_keeps_the_listener(p: Panel, i: int)
    requires
        p.wf(),
        0 <= i < p.channels.len(),
        p.listening is Some,
        p.listening->0 < p.channels.len(),
    ensures
        p.listening->0 == i ==> removed(p, i).listening is None,
        p.listening->0 != i ==> {
            let q = removed(p, i);
            &&& q.listening is Some
            &&& q.listening->0 < q.channels.len()
            &&& q.channels[q.listening->0 as int] == p.channels[p.listening->0 as int]
        },
{
}

/// A click on a cog opens settings and touches no channel.
pub proof fn cogs_come_first(p: Panel, pane: Pane)
    ensures
        clicked(p, pane, Spot::SpectrumCog) == (Panel { open: Some(Settings::Spectrum), ..p }),
        clicked(p, pane, Spot::WaterfallCog) == (Panel { open: Some(Settings::Waterfall), ..p }),
{
}

/// A radio is started at a rate that it offers.
pub proof fn the_start_rate_is_on_offer(p: Panel)
    requires
        p.wf(),
        p.device is Some,
    ensures
        exists|i: int|
            0 <= i < reconnected(p).spans.len() && is_rate(
                reconnected(p).rate,
                #[trigger] reconnected(p).spans[i],
            ),
{
    let e = p.device->0;
    let spans = spans_of(e);
    every_driver_offers_a_rate(e.kind);
    spans_respect_the_device(rates_of(e.kind).0 as int, rates_of(e.kind).1 as int, 11);
    let q = reconnected(p);
    assert(q.spans == spans);
    assert(q.rate == start_rate(p.rate, spans));
    if exists|i: int| 0 <= i < spans.len() && is_rate(p.rate, #[trigger] spans[i]) {
        let i = choose|i: int| 0 <= i < spans.len() && is_rate(p.rate, #[trigger] spans[i]);
        assert(is_rate(q.rate, q.spans[i]));
    } else {
        assert(is_rate(q.rate, q.spans[spans.len() - 1]));
    }
}

/// Without a radio nothing is said to one.
pub proof fn nothing_is_said_to_no_one(p: Panel, hz: int, freq: int, i: int)
    requires
        !p.connected,
    ensures
        retuned(p, hz).outbox == p.outbox,
        added(p, freq).outbox == p.outbox,
        listened(p, i).outbox == p.outbox,
        removed(p, i).outbox == p.outbox,
{
}

} // verus!
