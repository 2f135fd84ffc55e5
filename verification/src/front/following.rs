//! What the front panel makes of the spectra it gets, and of the radio it has.

use vstd::prelude::*;
#[allow(unused_imports)]
use crate::common::Sps;
#[allow(unused_imports)]
use crate::fixed::{rounding_is_close, Micro};
#[allow(unused_imports)]
use crate::front::color::Rgb;
#[allow(unused_imports)]
use crate::front::devices::{label_text, rates_of};
#[allow(unused_imports)]
use crate::front::gestures::says_more;
#[allow(unused_imports)]
use crate::front::radio::Cmd;
#[allow(unused_imports)]
use crate::front::saying::the_usual_rates_are_offered;
#[allow(unused_imports)]
use crate::front::ui::{
    drift, held, is_rate, moved, nearer, numbers, reconnected, rescaled, resized, restarted,
    row_due, row_drawn, shown, slid_to_center, span_at, span_picked, span_text, spans_of, starts,
    Frame, Panel, Start,
};
#[allow(unused_imports)]
use crate::front::waterfall::{level_color, Fall};
#[allow(unused_imports)]
use crate::sort::{order_is_unique, orders};

verus! {

/// Of the levels that come in, those that are numbers are kept, in their order.
pub proof fn levels_that_are_no_number_are_left_out(db: Seq<Micro>, v: Micro)
    ensures
        numbers(Seq::empty()).len() == 0,
        i64::MIN < v.0 < i64::MAX ==> numbers(db.push(v)) == numbers(db).push(v.0),
        v.0 == i64::MIN || v.0 == i64::MAX ==> numbers(db.push(v)) == numbers(db),
{
    assert(db.push(v).drop_last() =~= db);
}

/// A step goes a twentieth of the way, to within half a millionth.
pub proof fn a_step_is_a_twentieth_of_the_way(v: int, to: int)
    ensures
        -10 <= 20 * (nearer(v, to) - v) - (to - v) <= 10,
{
    rounding_is_close(to - v, 20);
}

/// The floor goes a twentieth of the way to six decibels under the level that a
/// tenth of the bins lie below, and the ceiling to three above the level that
/// all but a thousandth do, but never to less than twenty above the floor's.
pub proof fn the_scale_follows_the_percentiles(p: Panel, db: Seq<Micro>, s: Seq<i64>)
    requires
        p.wf(),
        orders(numbers(db), s),
        s.len() > 0,
        forall|i: int|
            0 <= i < s.len() ==> -1_000_000_000_000_000 <= #[trigger] s[i]
                <= 1_000_000_000_000_000,
    ensures
        exists|i: int, j: int|
            #![trigger s[i], s[j]]
            {
                let q = rescaled(p, db);
                let (lo, hi) = (s[i] - 6_000_000, s[j] + 3_000_000);
                let top = if hi < lo + 20_000_000 {
                    lo + 20_000_000
                } else {
                    hi
                };
                &&& 0 <= i < s.len()
                &&& 10 * i <= s.len() - 1 < 10 * i + 10
                &&& 0 <= j < s.len()
                &&& 1000 * j <= 999 * (s.len() - 1) < 1000 * j + 1000
                &&& -10 <= 20 * (q.floor@ - p.floor@) - (lo - p.floor@) <= 10
                &&& -10 <= 20 * (q.ceil@ - p.ceil@) - (top - p.ceil@) <= 10
                &&& q == Panel { floor: q.floor, ceil: q.ceil, ..p }
            },
{
    order_is_unique(numbers(db), s);
    let last = s.len() - 1;
    let (i, j) = (last * 10 / 100, last * 999 / 1000);
    let (lo, hi) = (s[i] - 6_000_000, s[j] + 3_000_000);
    let top = if hi < lo + 20_000_000 {
        lo + 20_000_000
    } else {
        hi
    };
    a_step_is_a_twentieth_of_the_way(p.floor@, lo);
    a_step_is_a_twentieth_of_the_way(p.ceil@, top);
    let q = rescaled(p, db);
    assert(10 * i <= last < 10 * i + 10);
    assert(1000 * j <= 999 * last < 1000 * j + 1000);
    assert(q == Panel { floor: q.floor, ceil: q.ceil, ..p });
}

/// The bins that the history is off are right to within half a bin, and count
/// upward when the centre went up.
pub proof fn the_drift_is_in_bins(p: Panel, bins: nat)
    requires
        p.rate@ > 0,
    ensures
        -p.rate@ <= 2 * (p.rate@ * drift(p, bins)) - 2 * ((p.center@ - p.fall_center@) * bins)
            <= p.rate@,
{
    rounding_is_close((p.center@ - p.fall_center@) * bins, p.rate@ as nat);
}

/// What the history shows moves down as many bins as the centre went up. What
/// leaves the span is gone, and what comes into it is black.
pub proof fn the_history_moves_against_the_centre(f: Fall, d: int, y: int, x: int)
    requires
        0 <= y < f.rows.len(),
        0 <= x < f.rows[y].len(),
    ensures
        moved(f, d).rows.len() == f.rows.len(),
        moved(f, d).width == f.width,
        moved(f, d).filled == f.filled,
        moved(f, d).rows[y].len() == f.rows[y].len(),
        0 <= x - d < f.rows[y].len() ==> moved(f, d).rows[y][x - d] == f.rows[y][x],
        !(0 <= x + d < f.rows[y].len()) ==> moved(f, d).rows[y][x] == (Rgb { r: 0, g: 0, b: 0 }),
{
}

/// A level that waits is one that came in: nothing is made up.
pub proof fn what_waits_came_in(pending: Seq<Micro>, db: Seq<Micro>, i: int)
    requires
        0 <= i < db.len(),
    ensures
        held(pending, db)[i] == db[i] || (pending.len() == db.len() && held(pending, db)[i]
            == pending[i]),
        pending.len() != db.len() ==> held(pending, db)[i] == db[i],
{
}

/// With so many rows a second, a row is due once a second divided by that many
/// has passed since the one before, not sooner.
pub proof fn rows_come_at_their_rate(p: Panel, rows: int, before: u64, now: u64)
    requires
        p.rows_per_sec@ == rows * 1_000_000,
        p.fall_last == Some(before),
    ensures
        row_due(p, now) <==> (now - before) * rows >= 1_000_000_000,
{
    assert((now - before) * (rows * 1_000_000) == ((now - before) * rows) * 1_000_000)
        by (nonlinear_arith);
}

/// The first row is due at once.
pub proof fn the_first_row_is_due(p: Panel, now: u64)
    requires
        p.fall_last is None,
    ensures
        row_due(p, now),
{
}

/// A row that is drawn is the newest, in the colours of the levels that waited
/// between the floor and the ceiling less the offset. Nothing waits after it,
/// and the next is counted from it.
pub proof fn a_row_shows_what_waited(p: Panel, now: u64)
    requires
        p.fall.rows.len() >= 1,
        p.pending.len() == p.fall.width,
        p.pending.len() > 0,
    ensures
        ({
            let q = row_drawn(p, now);
            &&& q.fall.rows.len() == p.fall.rows.len()
            &&& q.fall.rows[0].len() == p.pending.len()
            &&& forall|x: int|
                0 <= x < p.pending.len() ==> #[trigger] q.fall.rows[0][x] == level_color(
                    p.pending[x]@,
                    p.floor@,
                    p.ceil@ - p.top_offset@,
                )
            &&& forall|y: int|
                1 <= y < q.fall.rows.len() ==> #[trigger] q.fall.rows[y] == p.fall.rows[y - 1]
            &&& q.pending.len() == p.pending.len()
            &&& forall|x: int| 0 <= x < q.pending.len() ==> (#[trigger] q.pending[x]).0 == i64::MIN
            &&& q.fall_last == Some(now)
            &&& q.floor == p.floor
            &&& q.ceil == p.ceil
            &&& q.center == p.center
        }),
{
}

/// A frame sets the centre, the rate and the spectrum that is shown. It draws a
/// row exactly when one is due, moves the scale only where that is automatic,
/// and says nothing to the radio.
pub proof fn a_frame_is_shown(p: Panel, f: Frame, now: u64)
    ensures
        ({
            let q = shown(p, f, now);
            let due = match p.fall_last {
                None => true,
                Some(t) => (now - t) * p.rows_per_sec@ >= 1_000_000_000_000_000,
            };
            &&& q.center == f.center
            &&& q.rate == f.rate
            &&& q.db == f.db@
            &&& q.fall_last == if due {
                Some(now)
            } else {
                p.fall_last
            }
            &&& !p.auto_scale ==> q.floor == p.floor && q.ceil == p.ceil
            &&& q.outbox == p.outbox
            &&& q.channels == p.channels
            &&& q.listening == p.listening
            &&& q.volume == p.volume
            &&& q.gain == p.gain
            &&& q.spans == p.spans
            &&& q.device == p.device
            &&& q.connected == p.connected
            &&& q.err == p.err
            &&& q.pending.len() == f.db@.len()
            &&& !due ==> forall|i: int|
                0 <= i < f.db@.len() ==> (#[trigger] q.pending[i])@ >= f.db@[i]@
            &&& !due && p.pending.len() != f.db@.len() ==> q.pending == f.db@
        }),
{
}

/// A waterfall of another height keeps its newest rows in their order. Rows it
/// never had are black.
pub proof fn another_height_keeps_the_newest(f: Fall, height: nat, y: int, x: int)
    requires
        0 <= y < height,
        0 <= x < f.width,
    ensures
        resized(f, height).rows.len() == height,
        resized(f, height).width == f.width,
        y < f.rows.len() ==> resized(f, height).rows[y] == f.rows[y],
        y >= f.rows.len() ==> resized(f, height).rows[y].len() == f.width && resized(
            f,
            height,
        ).rows[y][x] == (Rgb { r: 0, g: 0, b: 0 }),
        resized(f, height).filled <= height,
        resized(f, height).filled <= f.filled,
        resized(f, height).filled == f.filled || resized(f, height).filled == height,
{
}

/// A history that is thrown away is black all over, belongs to the centre, and
/// has nothing waiting.
pub proof fn a_new_start_is_black(p: Panel, y: int, x: int)
    requires
        0 <= y < p.fall.rows.len(),
        0 <= x < p.fall.width,
    ensures
        ({
            let q = restarted(p);
            &&& q.fall.rows.len() == p.fall.rows.len()
            &&& q.fall.width == p.fall.width
            &&& q.fall.filled == 0
            &&& q.fall.rows[y].len() == p.fall.width
            &&& q.fall.rows[y][x] == (Rgb { r: 0, g: 0, b: 0 })
            &&& q.fall_center == p.center
            &&& q.pending.len() == 0
            &&& q.outbox == p.outbox
            &&& q.channels == p.channels
            &&& q.center == p.center
            &&& q.rate == p.rate
        }),
{
}

/// Another span is told to the radio as a sample rate. The history, which was of
/// the old one, goes. The span that is set already changes nothing.
pub proof fn a_span_is_asked_for_as_a_rate(p: Panel, i: int)
    requires
        p.wf(),
        p.connected,
        0 <= i < p.spans.len(),
        p.channels.len() <= usize::MAX,
    ensures
        ({
            let q = span_picked(p, i);
            let n = p.outbox.len() as int;
            let off = p.spans[i] * 1_000_000 - p.rate@;
            if -1_000_000 < off < 1_000_000 {
                q == p
            } else {
                &&& q.rate@ == p.spans[i] * 1_000_000
                &&& q.outbox.len() > n
                &&& says_more(p.outbox, q.outbox)
                &&& q.outbox[n] == Cmd::Rate(Sps(p.spans[i]))
                &&& q.fall.filled == 0
                &&& q.fall.rows.len() == p.fall.rows.len()
                &&& q.pending.len() == 0
                &&& q.fall_center == p.center
                &&& q.center == p.center
                &&& q.channels == p.channels
                &&& q.spans == p.spans
            }
        }),
{
}

/// With no radio picked the panel says so and is connected to none. With one it
/// is connected, has nothing to complain of, offers the spans of that radio and
/// begins a new history.
pub proof fn connecting_takes_the_radio_that_is_picked(p: Panel)
    ensures
        p.device is None ==> !reconnected(p).connected && reconnected(p).err == Some(
            "no radio found. plug one in, then press RESCAN."@,
        ) && reconnected(p).rate == p.rate && reconnected(p).fall == p.fall,
        p.device matches Some(e) ==> reconnected(p).connected && reconnected(p).err is None
            && reconnected(p).spans == spans_of(e) && reconnected(p).fall.filled == 0 && reconnected(
            p,
        ).pending.len() == 0,
        reconnected(p).device == p.device,
        reconnected(p).center == p.center,
        reconnected(p).outbox == p.outbox,
        reconnected(p).channels == p.channels,
{
}

/// A radio is started at the centre and the rate of the panel, in whole hertz.
pub proof fn a_radio_starts_where_the_panel_is(r: Option<Start>, p: Panel)
    requires
        starts(r, p),
    ensures
        r is Some <==> p.device is Some,
        r matches Some(s) ==> 0 <= p.center@ - s.center.0 * 1_000_000 < 1_000_000,
        r matches Some(s) ==> 0 <= p.rate@ - s.rate.0 * 1_000_000 < 1_000_000,
        r matches Some(s) ==> s.fft == p.fft,
        r matches Some(s) ==> Some(s.entry@) == p.device,
{
}

proof fn span_at_is_first(rate: Micro, spans: Seq<u64>, i: int)
    requires
        0 <= i <= spans.len(),
    ensures
        match span_at(rate, spans, i) {
            Some(k) => i <= k < spans.len() && is_rate(rate, spans[k]),
            None => forall|j: int| i <= j < spans.len() ==> !is_rate(rate, #[trigger] spans[j]),
        },
    decreases spans.len() - i,
{
    if i < spans.len() {
        span_at_is_first(rate, spans, i + 1);
    }
}

/// A rate is called by the span that it is, to within a hertz, and custom where
/// it is none of them.
pub proof fn rates_are_called_by_their_span(p: Panel, k: int)
    requires
        0 <= k < p.spans.len(),
    ensures
        p.rate@ == p.spans[k] * 1_000_000 ==> exists|j: int|
            0 <= j < p.spans.len() && -1_000_000 < #[trigger] p.spans[j] * 1_000_000 - p.rate@
                < 1_000_000 && span_text(p) == label_text(p.spans[j] as nat),
        (forall|j: int|
            0 <= j < p.spans.len() ==> !(-1_000_000 < #[trigger] p.spans[j] * 1_000_000 - p.rate@
                < 1_000_000)) ==> span_text(p) == "custom"@,
{
    span_at_is_first(p.rate, p.spans, 0);
    assert(is_rate(p.rate, p.spans[k]) <==> -1_000_000 < p.spans[k] * 1_000_000 - p.rate@
        < 1_000_000);
}

/// A rate that the radio offers is kept; for any other, the radio starts at the
/// greatest that it offers.
pub proof fn a_rate_is_kept_where_it_can_be(p: Panel, k: int)
    requires
        p.device is Some,
        0 <= k < reconnected(p).spans.len(),
    ensures
        ({
            let q = reconnected(p);
            let off = q.spans[k] * 1_000_000 - p.rate@;
            &&& -1_000_000 < off < 1_000_000 ==> q.rate == p.rate
            &&& (forall|i: int|
                0 <= i < q.spans.len() ==> !(-1_000_000 < #[trigger] q.spans[i] * 1_000_000 - p.rate@
                    < 1_000_000)) ==> q.rate@ >= q.spans[k] * 1_000_000 && exists|i: int|
                0 <= i < q.spans.len() && q.rate@ == #[trigger] q.spans[i] * 1_000_000
        }),
{
    let e = p.device->0;
    let q = reconnected(p);
    let spans = spans_of(e);
    assert(q.spans == spans);
    let (lo, hi) = (rates_of(e.kind).0 as int, rates_of(e.kind).1 as int);
    the_usual_rates_are_offered(lo, hi, spans.last());
    assert(spans.contains(spans[spans.len() - 1]));
    assert(spans[k] <= spans.last()) by {
        if k < spans.len() - 1 {
            assert(spans[k] < spans[spans.len() - 1]);
        }
    }
    if -1_000_000 < spans[k] * 1_000_000 - p.rate@ < 1_000_000 {
        assert(is_rate(p.rate, spans[k]));
    }
    if forall|i: int|
        0 <= i < q.spans.len() ==> !(-1_000_000 < #[trigger] q.spans[i] * 1_000_000 - p.rate@
            < 1_000_000) {
        assert forall|i: int| 0 <= i < spans.len() implies !is_rate(p.rate, #[trigger] spans[i]) by {
            assert(!(-1_000_000 < q.spans[i] * 1_000_000 - p.rate@ < 1_000_000));
        }
        assert(q.rate@ == q.spans[spans.len() - 1] * 1_000_000);
    }
}

/// A row that a frame draws holds the frame itself: at each bin the stronger of
/// its level and the one that waited, in the scale that is then in force. Below it
/// is the history, moved to the new centre.
pub proof fn a_row_holds_the_frame_that_draws_it(p: Panel, f: Frame, now: u64, x: int)
    requires
        p.fall_last is None,
        p.fall.rows.len() >= 1,
        0 <= x < f.db@.len(),
    ensures
        ({
            let q = shown(p, f, now);
            let level = if p.pending.len() == f.db@.len() && p.pending[x]@ > f.db@[x]@ {
                p.pending[x]@
            } else {
                f.db@[x]@
            };
            let there = slid_to_center(Panel { center: f.center, rate: f.rate, ..p }, f.db@.len());
            &&& q.fall.width == f.db@.len()
            &&& q.fall.rows.len() == p.fall.rows.len()
            &&& q.fall.rows[0][x] == level_color(level, q.floor@, q.ceil@ - p.top_offset@)
            &&& p.fall.width == f.db@.len() ==> forall|y: int|
                1 <= y < q.fall.rows.len() ==> #[trigger] q.fall.rows[y] == there.fall.rows[y - 1]
            &&& q.fall_center == there.fall_center
        }),
{
}

/// A frame moves the scale as its own levels ask where that is automatic.
pub proof fn a_frame_moves_the_scale(p: Panel, f: Frame, now: u64)
    requires
        p.auto_scale,
    ensures
        shown(p, f, now).floor == rescaled(p, f.db@).floor,
        shown(p, f, now).ceil == rescaled(p, f.db@).ceil,
{
}

/// Until a row is due the history stays, but for moving to the new centre.
pub proof fn a_frame_between_rows_draws_nothing(p: Panel, f: Frame, now: u64)
    requires
        !row_due(p, now),
    ensures
        shown(p, f, now).fall == slid_to_center(
            Panel { center: f.center, rate: f.rate, ..p },
            f.db@.len(),
        ).fall,
        shown(p, f, now).pending == held(p.pending, f.db@),
{
}

} // verus!
