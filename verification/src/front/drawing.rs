//! What is drawn stands for what was measured: places, heights, colours and the
//! numbers that are written beside them.

use vstd::prelude::*;
#[allow(unused_imports)]
use crate::fixed::{clamp_spec, nearest_signed_is, rounding_is_close, Micro};
#[allow(unused_imports)]
use crate::front::bands::{name_spec, overlapping, table, BandView};
#[allow(unused_imports)]
use crate::front::color::Rgb;
#[allow(unused_imports)]
use crate::front::plot::{
    bin_text, cell_of, cells_of, cog_spec, cursor_text, drops_lamp, end_bin, first_bin, grid_text,
    history_text, hz_spec, hz_text, layout_spec, marker_spec, plot_height, rise_spec, rx_lamp,
    smoothing_text, spot_spec, x_spec, Area, Lamp, Pane, Span, Spot,
};
#[allow(unused_imports)]
use crate::front::radio::{bandwidth_spec, Demod};
#[allow(unused_imports)]
use crate::front::waterfall::{between, color_spec, level_color, pushed, stretch, Fall};
#[allow(unused_imports)]
use crate::front::wheel::{notches_of, scrolled, WheelUnit};
#[allow(unused_imports)]
use crate::text::{
    decimal, digits_read_back, ratio_text, ratios_read_back, signed_ratio_text, ten, value,
};

verus! {

/// The turns of the ramp: how far along each is, and its red, green and blue, all
/// in thousandths.
pub open spec fn turns() -> Seq<(int, int, int, int)> {
    seq![
        (0, 31, 39, 51),
        (350, 47, 125, 161),
        (600, 78, 376, 486),
        (780, 180, 612, 745),
        (900, 941, 627, 188),
        (1000, 1000, 965, 878),
    ]
}

/// Whether a component of 255 is what lies `x` of `d` between two components in
/// thousandths, cut to a whole number.
pub open spec fn lies_between(c: u8, a: int, b: int, x: int, d: int) -> bool {
    (1000 * d) * c <= 255 * (a * (d - x) + b * x) < (1000 * d) * (c + 1)
}

proof fn component_lies_between(a: int, b: int, x: int, d: int)
    requires
        0 <= a <= 1000,
        0 <= b <= 1000,
        0 <= x <= d,
        0 < d,
    ensures
        lies_between(between(a, b, x, d) as u8, a, b, x, d),
{
    let n = 255 * (a * d + (b - a) * x);
    let m = 1000 * d;
    assert(a * (d - x) + b * x == a * d + (b - a) * x) by (nonlinear_arith);
    assert(0 <= a * (d - x) + b * x <= 1000 * d) by (nonlinear_arith)
        requires
            0 <= a <= 1000,
            0 <= b <= 1000,
            0 <= x <= d,
    ;
    vstd::arithmetic::div_mod::lemma_fundamental_div_mod(n, m);
    let q = n / m;
    assert(m * (q + 1) == m * q + m) by (nonlinear_arith);
    assert(0 <= q <= 255) by (nonlinear_arith)
        requires
            n == m * q + n % m,
            0 <= n % m < m,
            0 <= n <= 255 * m,
            m > 0,
    ;
}

/// The ramp goes straight from the colour of one turn to that of the next.
pub proof fn the_ramp_is_straight_between_its_turns(num: int, den: int, i: int)
    requires
        0 < den,
        0 <= i < 5,
        i == 0 ==> 0 <= num,
        i > 0 ==> turns()[i].0 * den < 1000 * num,
        1000 * num <= turns()[i + 1].0 * den,
    ensures
        ({
            let (a, b) = (turns()[i], turns()[i + 1]);
            let c = color_spec(num, den);
            let x = 1000 * num - a.0 * den;
            let d = b.0 * den - a.0 * den;
            &&& lies_between(c.r, a.1, b.1, x, d)
            &&& lies_between(c.g, a.2, b.2, x, d)
            &&& lies_between(c.b, a.3, b.3, x, d)
        }),
{
    let (a, b) = (turns()[i], turns()[i + 1]);
    let x = 1000 * num - a.0 * den;
    let d = b.0 * den - a.0 * den;
    let (from, to) = if i == 0 {
        (0int, 350int)
    } else if i == 1 {
        (350, 600)
    } else if i == 2 {
        (600, 780)
    } else if i == 3 {
        (780, 900)
    } else {
        (900, 1000)
    };
    assert(a.0 == from && b.0 == to);
    assert(from * den == a.0 * den && to * den == b.0 * den);
    assert((to - from) * den == to * den - from * den) by (nonlinear_arith);
    assert(stretch(num, den) == i);
    assert(d > 0) by (nonlinear_arith)
        requires
            d == (to - from) * den,
            to > from,
            den > 0,
    ;
    component_lies_between(a.1, b.1, x, d);
    component_lies_between(a.2, b.2, x, d);
    component_lies_between(a.3, b.3, x, d);
}

/// What is no stronger than the floor has the colour at the start of the ramp,
/// what is no weaker than the ceiling that at its end. Only the distances count,
/// and a range under a decibel counts as one.
pub proof fn the_range_sets_the_ends_of_the_ramp(v: int, floor: int, ceil: int, by: int)
    ensures
        v <= floor ==> level_color(v, floor, ceil) == (Rgb { r: 7, g: 9, b: 13 }),
        v >= ceil && ceil - floor >= 1_000_000 ==> level_color(v, floor, ceil) == (Rgb {
            r: 255,
            g: 246,
            b: 223,
        }),
        floor < v < ceil && ceil - floor >= 1_000_000 ==> level_color(v, floor, ceil)
            == color_spec(v - floor, ceil - floor),
        level_color(v + by, floor + by, ceil + by) == level_color(v, floor, ceil),
        ceil - floor < 1_000_000 ==> level_color(v, floor, ceil) == level_color(
            v,
            floor,
            floor + 1_000_000,
        ),
{
    let span = if ceil - floor < 1_000_000 {
        1_000_000
    } else {
        ceil - floor
    };
    the_ramp_is_straight_between_its_turns(0, span, 0);
    the_ramp_is_straight_between_its_turns(span, span, 4);
    let (s, e) = (color_spec(0, span), color_spec(span, span));
    let (d, u) = (350 * span, 100 * span);
    assert(turns()[0].0 * span == 0 && turns()[1].0 * span == d);
    assert(turns()[4].0 * span == 900 * span && turns()[5].0 * span == 1000 * span);
    the_start_of_a_stretch(s.r, 31, 47, d, 7);
    the_start_of_a_stretch(s.g, 39, 125, d, 9);
    the_start_of_a_stretch(s.b, 51, 161, d, 13);
    the_end_of_a_stretch(e.r, 941, 1000, u, 255);
    the_end_of_a_stretch(e.g, 627, 965, u, 246);
    the_end_of_a_stretch(e.b, 188, 878, u, 223);
}

proof fn the_start_of_a_stretch(c: u8, a: int, b: int, d: int, want: int)
    requires
        d > 0,
        lies_between(c, a, b, 0, d),
        1000 * want <= 255 * a < 1000 * (want + 1),
    ensures
        c == want,
{
    assert(a * (d - 0) + b * 0 == a * d) by (nonlinear_arith);
    assert(c == want) by (nonlinear_arith)
        requires
            d > 0,
            (1000 * d) * c <= 255 * (a * d) < (1000 * d) * (c + 1),
            1000 * want <= 255 * a < 1000 * (want + 1),
    ;
}

proof fn the_end_of_a_stretch(c: u8, a: int, b: int, d: int, want: int)
    requires
        d > 0,
        lies_between(c, a, b, d, d),
        1000 * want <= 255 * b < 1000 * (want + 1),
    ensures
        c == want,
{
    assert(a * (d - d) + b * d == b * d) by (nonlinear_arith);
    assert(c == want) by (nonlinear_arith)
        requires
            d > 0,
            (1000 * d) * c <= 255 * (b * d) < (1000 * d) * (c + 1),
            1000 * want <= 255 * b < 1000 * (want + 1),
    ;
}

/// A spectrum of another width begins a new history of that width, with itself as
/// its only row. One without bins changes nothing.
pub proof fn another_width_begins_anew(f: Fall, db: Seq<Micro>, floor: int, ceil: int, x: int)
    requires
        f.rows.len() >= 1,
        db.len() > 0,
        db.len() != f.width,
        0 <= x < db.len(),
    ensures
        ({
            let g = pushed(f, db, floor, ceil);
            &&& g.width == db.len()
            &&& g.filled == 1
            &&& g.rows.len() == f.rows.len()
            &&& g.rows[0][x] == level_color(db[x]@, floor, ceil)
            &&& forall|y: int|
                1 <= y < g.rows.len() ==> #[trigger] g.rows[y].len() == db.len() && g.rows[y][x]
                    == (Rgb { r: 0, g: 0, b: 0 })
        }),
        pushed(f, Seq::empty(), floor, ceil) == f,
{
}

/// Rows are counted until the waterfall is full.
pub proof fn rows_are_counted(f: Fall, db: Seq<Micro>, floor: int, ceil: int)
    requires
        f.rows.len() >= 1,
        db.len() == f.width,
        db.len() > 0,
    ensures
        f.filled < f.rows.len() ==> pushed(f, db, floor, ceil).filled == f.filled + 1,
        f.filled >= f.rows.len() ==> pushed(f, db, floor, ceil).filled == f.rows.len(),
{
}

/// A line is a notch, fifty points are one to within half a millionth, and a page
/// is eight. Scrolls add up.
pub proof fn scrolls_are_counted_in_notches(
    delta: int,
    a: Seq<(WheelUnit, Micro)>,
    b: Seq<(WheelUnit, Micro)>,
    e: (WheelUnit, Micro),
)
    ensures
        notches_of(WheelUnit::Line, delta) == delta,
        -25 <= 50 * notches_of(WheelUnit::Point, delta) - delta <= 25,
        notches_of(WheelUnit::Page, delta) == 8 * delta,
        scrolled(Seq::empty()) == 0,
        scrolled(a.push(e)) == scrolled(a) + notches_of(e.0, e.1@),
        scrolled(a + b) == scrolled(a) + scrolled(b),
    decreases b.len(),
{
    rounding_is_close(delta, 50);
    assert(a.push(e).drop_last() =~= a);
    if b.len() == 0 {
        assert(a + b =~= a);
    } else {
        assert((a + b).drop_last() =~= a + b.drop_last());
        assert((a + b).last() == b.last());
        scrolls_are_counted_in_notches(delta, a, b.drop_last(), e);
    }
}

/// Inside a pane, frequency goes with the place from the low end of the span at
/// the left to the high end at the right, to within half a millionth of a hertz.
pub proof fn frequency_goes_with_the_place(s: Span, p: Pane, x: int)
    requires
        s.wf(),
        p.wf(),
        p.left@ <= x <= p.left@ + p.width@,
    ensures
        ({
            let w = p.width@;
            let low = 2 * s.center@ - s.rate@;
            -w <= w * (2 * hz_spec(s, p, x) - low) - 2 * ((x - p.left@) * s.rate@) <= w
        }),
{
    let (w, r) = (p.width@, s.rate@);
    let low = 2 * s.center@ - r;
    let t = x - p.left@;
    let q = hz_spec(s, p, x);
    rounding_is_close(low * w + 2 * t * r, (2 * w) as nat);
    assert(2 * t * r == 2 * (t * r)) by (nonlinear_arith);
    assert(2 * ((2 * w) * q) == 2 * (w * (2 * q))) by (nonlinear_arith);
    assert(w * (2 * q - low) == w * (2 * q) - low * w) by (nonlinear_arith);
}

/// The place goes with the frequency, on and on beyond the edges, to within half
/// a millionth of a pixel.
pub proof fn the_place_goes_with_frequency(s: Span, p: Pane, hz: int)
    requires
        s.wf(),
        p.wf(),
    ensures
        ({
            let r = s.rate@;
            let low = 2 * s.center@ - r;
            -r <= 2 * (r * (x_spec(s, p, hz) - p.left@)) - (2 * hz - low) * p.width@ <= r
        }),
{
    let r = s.rate@;
    let a = 2 * hz - 2 * s.center@ + r;
    let q = x_spec(s, p, hz) - p.left@;
    rounding_is_close(a * p.width@, (2 * r) as nat);
    assert((2 * r) * q == 2 * (r * q)) by (nonlinear_arith);
}

/// A column begins at its share of the bins and reaches at least one. Columns
/// stand side by side wherever there are no fewer bins than columns.
pub proof fn columns_share_the_bins(c: int, n: int, cols: int)
    requires
        0 <= c < cols,
        1 <= n,
    ensures
        cols * first_bin(c, n, cols) <= c * n < cols * first_bin(c, n, cols) + cols,
        first_bin(c, n, cols) < end_bin(c, n, cols) <= n,
        n >= cols && c + 1 < cols ==> end_bin(c, n, cols) == first_bin(c + 1, n, cols),
        n >= cols && c + 1 == cols ==> end_bin(c, n, cols) == n,
        n < cols ==> end_bin(c, n, cols) == first_bin(c, n, cols) + 1,
{
    let (a, b) = (c * n / cols, (c + 1) * n / cols);
    vstd::arithmetic::div_mod::lemma_fundamental_div_mod(c * n, cols);
    vstd::arithmetic::div_mod::lemma_fundamental_div_mod((c + 1) * n, cols);
    assert((c + 1) * n == c * n + n) by (nonlinear_arith);
    assert(0 <= c * n) by (nonlinear_arith)
        requires
            0 <= c,
            1 <= n,
    ;
    assert((c + 1) * n <= cols * n) by (nonlinear_arith)
        requires
            c + 1 <= cols,
            1 <= n,
    ;
    let (ra, rb) = ((c * n) % cols, ((c + 1) * n) % cols);
    assert(0 <= a && b <= n) by (nonlinear_arith)
        requires
            0 <= c * n == cols * a + ra,
            (c + 1) * n == cols * b + rb,
            (c + 1) * n <= cols * n,
            0 <= ra < cols,
            0 <= rb < cols,
    ;
    assert(a < n) by (nonlinear_arith)
        requires
            cols * a + ra == c * n,
            c * n + n <= cols * n,
            0 <= ra < cols,
            1 <= n,
    ;
    assert(n >= cols ==> b >= a + 1) by (nonlinear_arith)
        requires
            cols * b + rb == cols * a + ra + n,
            0 <= ra < cols,
            0 <= rb < cols,
    ;
    assert(n < cols ==> b <= a + 1) by (nonlinear_arith)
        requires
            cols * b + rb == cols * a + ra + n,
            0 <= ra < cols,
            0 <= rb < cols,
    ;
    if c + 1 == cols {
        assert(b >= n) by (nonlinear_arith)
            requires
                cols * b + rb == cols * n,
                0 <= rb < cols,
        ;
    }
}

/// A band is drawn between the places of its ends, as far as they are in the
/// pane, in its own colour. Its name is written where there are more than sixty
/// pixels for it, and nothing is drawn where there is less than one.
pub proof fn bands_are_drawn_where_they_are(s: Span, p: Pane, b: BandView)
    requires
        s.wf(),
        p.wf(),
    ensures
        cell_of(s, p, b) matches Some(c) ==> {
            &&& p.left@ <= c.x0
            &&& c.x0 + 1_000_000 <= c.x1
            &&& c.x1 <= p.left@ + p.width@
            &&& c.color == b.color
            &&& c.name == if c.x1 - c.x0 > 60_000_000 {
                Some(b.name)
            } else {
                None
            }
        },
        ({
            let (lo, hi) = (b.lo * 1_000_000, b.hi * 1_000_000);
            let (x0, x1) = (x_spec(s, p, lo), x_spec(s, p, hi));
            s.center@ - s.rate@ / 2 <= lo && hi <= s.center@ + s.rate@ / 2 && p.left@ <= x0
                && x0 + 1_000_000 <= x1 && x1 <= p.left@ + p.width@ ==> (cell_of(s, p, b) matches Some(
                c,
            ) && c.x0 == x0 && c.x1 == x1)
        }),
{
}

/// The ribbon shows the bands in their order, without those that are too narrow.
pub proof fn the_ribbon_shows_every_band(s: Span, p: Pane, bands: Seq<BandView>, b: BandView)
    ensures
        cells_of(s, p, Seq::empty()).len() == 0,
        cells_of(s, p, bands.push(b)) == match cell_of(s, p, b) {
            Some(c) => cells_of(s, p, bands).push(c),
            None => cells_of(s, p, bands),
        },
{
    assert(bands.push(b).drop_last() =~= bands);
}

/// A channel inside the span is marked at its place, with edges half the
/// bandwidth of its mode to either side where they are a pixel apart. One outside
/// is not marked.
pub proof fn channels_are_marked_where_they_are(s: Span, p: Pane, freq: int, mode: Demod)
    requires
        s.wf(),
        p.wf(),
        within_pane_reach(x_spec(s, p, freq)),
        within_pane_reach(x_spec(s, p, freq - bandwidth_spec(mode) * 500_000)),
        within_pane_reach(x_spec(s, p, freq + bandwidth_spec(mode) * 500_000)),
    ensures
        marker_spec(s, p, freq, mode) is Some <==> s.center@ - s.rate@ / 2 <= freq <= s.center@
            + s.rate@ / 2,
        marker_spec(s, p, freq, mode) matches Some(m) ==> {
            let half = bandwidth_spec(mode) * 500_000;
            let (x0, x1) = (x_spec(s, p, freq - half), x_spec(s, p, freq + half));
            &&& m.x == x_spec(s, p, freq)
            &&& m.band is Some <==> x1 - x0 >= 1_000_000
            &&& (m.band matches Some(e) ==> e.x0 == x0 && e.x1 == x1)
        },
{
}

/// Whether a place is one that can be drawn at.
pub open spec fn within_pane_reach(x: int) -> bool {
    i128::MIN <= x <= i128::MAX
}

/// Of the height without the ribbon, the spectrum gets thirty-four in a hundred,
/// to within half a millionth of a pixel.
pub proof fn the_spectrum_gets_its_share(height: int)
    ensures
        -50 <= 100 * plot_height(height) - 34 * (height - 16_000_000) <= 50,
{
    rounding_is_close((height - 16_000_000) * 34, 100);
}

/// A cog is eighteen pixels square and stands six from the top and the right of
/// its pane.
pub proof fn cogs_stand_in_the_corner(pane: Area)
    requires
        -3_000_000_000_000_000_000 <= pane.right@ <= 3_000_000_000_000_000_000,
        -3_000_000_000_000_000_000 <= pane.top@ <= 3_000_000_000_000_000_000,
    ensures
        ({
            let c = cog_spec(pane);
            &&& c.right@ - c.left@ == 18_000_000
            &&& c.bottom@ - c.top@ == 18_000_000
            &&& pane.right@ - c.right@ == 6_000_000
            &&& c.top@ - pane.top@ == 6_000_000
        }),
{
}

/// Whether a point is on the cog of a pane with that top and right edge.
pub open spec fn on_cog(top: int, right: int, x: int, y: int) -> bool {
    6_000_000 <= right - x <= 24_000_000 && 6_000_000 <= y - top <= 24_000_000
}

/// A point on the cog of the spectrum opens that, one on the cog of the waterfall
/// the other, and every other point stands for its place across.
pub proof fn points_are_told_apart(full: Area, x: Micro, y: Micro)
    requires
        full.wf(),
    ensures
        ({
            let l = layout_spec(full);
            spot_spec(full, x, y) == if on_cog(full.top@, full.right@, x@, y@) {
                Spot::SpectrumCog
            } else if on_cog(l.fall.top@, full.right@, x@, y@) {
                Spot::WaterfallCog
            } else {
                Spot::At(x)
            }
        }),
{
    rounding_is_close((full.bottom@ - full.top@ - 16_000_000) * 34, 100);
}

/// A level is drawn as high over the floor as it is, in parts of the range: none
/// at the floor and below, all of the height at the ceiling and above. A range
/// under a decibel counts as one.
pub proof fn height_goes_with_the_level(v: int, floor: int, ceil: int, height: int)
    requires
        0 <= height,
    ensures
        v <= floor ==> rise_spec(v, floor, ceil, height) == 0,
        ceil - floor >= 1_000_000 && v >= ceil ==> rise_spec(v, floor, ceil, height) == height,
        ceil - floor >= 1_000_000 && floor <= v <= ceil ==> -(ceil - floor) <= 2 * ((ceil - floor)
            * rise_spec(v, floor, ceil, height)) - 2 * ((v - floor) * height) <= ceil - floor,
        ceil - floor < 1_000_000 ==> rise_spec(v, floor, ceil, height) == rise_spec(
            v,
            floor,
            floor + 1_000_000,
            height,
        ),
{
    let span = if ceil - floor < 1_000_000 {
        1_000_000
    } else {
        ceil - floor
    };
    let t = clamp_spec(v - floor, 0, span);
    rounding_is_close(t * height, span as nat);
    if v <= floor {
        assert(t == 0);
        assert(t * height == 0 && span * 0 == 0) by (nonlinear_arith)
            requires
                t == 0,
        ;
        nearest_signed_is(0, span as nat, 0);
    }
    if ceil - floor >= 1_000_000 && v >= ceil {
        assert(t == span);
        nearest_signed_is(t * height, span as nat, height);
    }
}

/// Whether a text is `num / den` to `p` places, where `scale` is ten to the `p`:
/// its digits make up a number of that many places that is off by half of the
/// last one at most.
pub open spec fn reads(t: Seq<char>, num: int, den: int, p: int, scale: int) -> bool {
    let k = t.len() - p - 1;
    let r = if p == 0 {
        value(t) as int
    } else {
        value(t.take(k)) * scale + value(t.skip(k + 1))
    };
    &&& p == 0 ==> decimal(t)
    &&& p > 0 ==> k >= 1 && t[k] == '.' && decimal(t.take(k)) && decimal(t.skip(k + 1))
    &&& -den <= 2 * (r * den) - 2 * (num * scale) <= den
}

pub(crate) proof fn ratios_read(num: int, den: int, p: nat)
    requires
        num >= 0,
        den >= 1,
        p <= 4,
    ensures
        p == 0 ==> reads(signed_ratio_text(num, den as nat, p), num, den, 0, 1),
        p == 1 ==> reads(signed_ratio_text(num, den as nat, p), num, den, 1, 10),
        p == 2 ==> reads(signed_ratio_text(num, den as nat, p), num, den, 2, 100),
        p == 3 ==> reads(signed_ratio_text(num, den as nat, p), num, den, 3, 1000),
        p == 4 ==> reads(signed_ratio_text(num, den as nat, p), num, den, 4, 10_000),
{
    reveal_with_fuel(ten, 5);
    ratios_read_back(num as nat, den as nat, p);
}

/// Whether a text is such a number with a unit behind it.
pub open spec fn written(
    t: Seq<char>,
    unit: Seq<char>,
    num: int,
    den: int,
    p: int,
    scale: int,
) -> bool {
    exists|s: Seq<char>| t == s + unit && #[trigger] reads(s, num, den, p, scale)
}

/// Frequencies are written in megahertz to four places from one megahertz up, in
/// kilohertz to one place from one kilohertz up, else in whole hertz.
pub proof fn frequencies_are_read_back(hz: int)
    requires
        hz >= 0,
    ensures
        ({
            let t = hz_text(hz);
            let million: int = 1_000_000;
            if hz >= million * million {
                written(t, " MHz"@, hz, million * million, 4, 10_000)
            } else if hz >= 1000 * million {
                written(t, " kHz"@, hz, 1000 * million, 1, 10)
            } else {
                written(t, " Hz"@, hz, million, 0, 1)
            }
        }),
        hz > 0 ==> hz_text(-hz) == seq!['-'] + hz_text(hz),
{
    let million: int = 1_000_000;
    assert(million * million == 1_000_000_000_000);
    ratios_read(hz, 1_000_000_000_000, 4);
    ratios_read(hz, 1_000_000_000, 1);
    ratios_read(hz, 1_000_000, 0);
    if hz > 0 {
        assert(hz_text(-hz) =~= seq!['-'] + hz_text(hz));
    }
}

/// The width of a bin is the rate over the bins, in kilohertz to one place from
/// one kilohertz up, else in whole hertz.
pub proof fn bins_are_read_back(rate: int, bins: nat)
    requires
        rate >= 0,
        bins >= 1,
    ensures
        ({
            let hertz: int = 1_000_000 * bins as int;
            if rate >= 1000 * hertz {
                written(bin_text(rate, bins), " kHz per bin"@, rate, 1000 * hertz, 1, 10)
            } else {
                written(bin_text(rate, bins), " Hz per bin"@, rate, hertz, 0, 1)
            }
        }),
{
    let hertz: int = 1_000_000 * bins as int;
    ratios_read(rate, 1000 * hertz, 1);
    ratios_read(rate, hertz, 0);
    assert((1000 * hertz) as nat == 1_000_000_000 * bins);
    assert(hertz as nat == 1_000_000 * bins);
}

/// At the crosshair stand the frequency, three blanks and what it is used for.
pub proof fn the_crosshair_names_the_service(hz: int)
    ensures
        cursor_text(hz) == hz_text(hz) + "   "@ + name_spec(hz),
{
}

/// Averaging is written as the part of the old spectrum that stays, in whole
/// percent, and as off where that is under five.
pub proof fn averaging_is_read_back(v: int)
    ensures
        1_000_000 - v < 50_000 ==> smoothing_text(v) == "off"@,
        v <= 950_000 ==> written(smoothing_text(v), "%"@, 100 * (1_000_000 - v), 1_000_000, 0, 1),
{
    if v <= 950_000 {
        ratios_read(100 * (1_000_000 - v), 1_000_000, 0);
    }
}

/// Whether a text says how many seconds a history reaches back, and at how many
/// rows a second.
pub open spec fn says_history(t: Seq<char>, rows: int, per_sec: int) -> bool {
    exists|a: Seq<char>, b: Seq<char>|
        t == a + " s of history at "@ + b + " rows/s"@ && #[trigger] reads(a, rows, per_sec, 0, 1)
            && #[trigger] reads(b, per_sec, 1_000_000, 0, 1)
}

/// The history reaches back as many seconds as its rows take at their rate.
pub proof fn the_history_is_read_back(rows: nat, per_sec: nat)
    requires
        per_sec >= 1,
    ensures
        says_history(history_text(rows, per_sec), 1_000_000 * rows as int, per_sec as int),
{
    ratios_read(1_000_000 * rows as int, per_sec as int, 0);
    ratios_read(per_sec as int, 1_000_000, 0);
    let (a, b) = (ratio_text(rows * 1_000_000, per_sec, 0), ratio_text(per_sec, 1_000_000, 0));
    assert(reads(a, 1_000_000 * rows as int, per_sec as int, 0, 1));
    assert(reads(b, per_sec as int, 1_000_000, 0, 1));
}

/// The five lines of the grid go from the ceiling to the floor in equal steps, and
/// are written in whole decibels.
pub proof fn the_grid_goes_from_ceiling_to_floor(floor: int, ceil: int, i: int)
    requires
        0 <= i <= 4,
    ensures
        ({
            let level = (4 - i) * ceil + i * floor;
            let t = grid_text(floor, ceil, i);
            &&& level >= 0 ==> reads(t, level, 4_000_000, 0, 1)
            &&& level < 0 ==> t.len() >= 1 && t[0] == '-' && reads(t.skip(1), -level, 4_000_000, 0, 1)
        }),
{
    let level = (4 - i) * ceil + i * floor;
    assert(4 * ceil - (ceil - floor) * i == level) by (nonlinear_arith)
        requires
            level == (4 - i) * ceil + i * floor,
    ;
    let t = grid_text(floor, ceil, i);
    if level >= 0 {
        ratios_read(level, 4_000_000, 0);
    } else {
        ratios_read(-level, 4_000_000, 0);
        assert(t.skip(1) =~= ratio_text((-level) as nat, 4_000_000, 0));
    }
}

/// The lamp for lost blocks lights when there are any and says how many; the one
/// for the radio lights while it runs.
pub proof fn lamps_say_what_is_so(dropped: u64, d: Lamp, running: bool, r: Lamp)
    requires
        call_ensures(drops_lamp, (dropped,), d),
        call_ensures(rx_lamp, (running,), r),
    ensures
        d.lit <==> dropped != 0,
        decimal(d.text@),
        value(d.text@) == dropped,
        d.label@ == "drops"@,
        r.lit <==> running,
        running ==> r.text@ == "on"@,
        !running ==> r.text@ == "off"@,
        r.label@ == "rx"@,
{
    digits_read_back(dropped as nat);
}

/// The bands of a span come in the order of the table.
pub proof fn bands_come_in_the_order_of_the_table(lo: int, hi: int, n: nat)
    requires
        n < table().len(),
    ensures
        overlapping(lo, hi, 0).len() == 0,
        table()[n as int].lo * 1_000_000 < hi && table()[n as int].hi * 1_000_000 > lo
            ==> overlapping(lo, hi, n + 1) == overlapping(lo, hi, n).push(table()[n as int]),
        !(table()[n as int].lo * 1_000_000 < hi && table()[n as int].hi * 1_000_000 > lo)
            ==> overlapping(lo, hi, n + 1) == overlapping(lo, hi, n),
{
}

} // verus!
