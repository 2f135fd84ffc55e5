//! Where things stand in the panes, and what is written there.
//!
//! Frequencies, levels and pixels are all in millionths.

use vstd::prelude::*;
use crate::fixed::{nearest_signed, Micro};
#[allow(unused_imports)]
use crate::fixed::{clamp_spec, nearest_signed_spec, nearest_spec, rounding_is_close};
use crate::front::bands::{in_span, name_at, Band};
#[allow(unused_imports)]
use crate::front::bands::{bands_view, name_spec, overlapping, table, BandView};
use crate::front::color::Rgb;
use crate::front::radio::Demod;
#[allow(unused_imports)]
use crate::front::radio::bandwidth_spec;
use crate::text::{push_nat, push_ratio, push_signed_ratio};
#[allow(unused_imports)]
use crate::text::{digits, ratio_text, signed_ratio_text};

verus! {

/// Whether a number, in millionths, is one that is handled.
pub open spec fn within_limit(v: int) -> bool {
    -1_000_000_000_000_000_000 <= v <= 1_000_000_000_000_000_000
}

/// The span that is shown: its middle and its width.
#[derive(Clone, Copy, Debug, PartialEq, Eq, Structural)]
pub struct Span {
    pub center: Micro,
    pub rate: Micro,
}

/// The part of a pane that a span is shown in.
#[derive(Clone, Copy, Debug, PartialEq, Eq, Structural)]
pub struct Pane {
    pub left: Micro,
    pub width: Micro,
}

impl Span {
    pub open spec fn wf(&self) -> bool {
        &&& within_limit(self.center@)
        &&& 0 < self.rate@ <= 1_000_000_000_000_000_000
    }
}

impl Pane {
    pub open spec fn wf(&self) -> bool {
        &&& within_limit(self.left@)
        &&& 0 < self.width@ <= 1_000_000_000_000_000_000
    }
}

/// The frequency at a place of a pane. Places outside it count as its edges.
pub open spec fn hz_spec(s: Span, p: Pane, x: int) -> int {
    let t = clamp_spec(x - p.left@, 0, p.width@);
    nearest_signed_spec(
        (2 * s.center@ - s.rate@) * p.width@ + 2 * t * s.rate@,
        (2 * p.width@) as nat,
    )
}

/// The place of a frequency in a pane.
pub open spec fn x_spec(s: Span, p: Pane, hz: int) -> int {
    p.left@ + nearest_signed_spec(
        (2 * hz - 2 * s.center@ + s.rate@) * p.width@,
        (2 * s.rate@) as nat,
    )
}

/// Bounds of a product.
proof fn product_bound(a: int, b: int, m: int, n: int)
    requires
        -m <= a <= m,
        0 <= b <= n,
        0 <= m,
    ensures
        -(m * n) <= a * b <= m * n,
{
    assert(-(m * n) <= a * b <= m * n) by (nonlinear_arith)
        requires
            -m <= a <= m,
            0 <= b <= n,
            0 <= m,
    ;
}

proof fn hz_is_inside(s: Span, p: Pane, x: int)
    requires
        s.wf(),
        p.wf(),
    ensures
        s.center@ * 2 - s.rate@ - 1 <= 2 * hz_spec(s, p, x) <= s.center@ * 2 + s.rate@ + 1,
{
    let t = clamp_spec(x - p.left@, 0, p.width@);
    let w = p.width@;
    let v = (2 * s.center@ - s.rate@) * w + 2 * t * s.rate@;
    let q = hz_spec(s, p, x);
    rounding_is_close(v, (2 * w) as nat);
    let (c, r) = (s.center@, s.rate@);
    assert(0 <= t * r <= w * r) by (nonlinear_arith)
        requires
            0 <= t <= w,
            0 <= r,
    ;
    assert(2 * t * r == 2 * (t * r)) by (nonlinear_arith);
    assert(w * r == r * w) by (nonlinear_arith);
    assert((2 * c - r) * w == 2 * (c * w) - r * w) by (nonlinear_arith);
    assert((2 * w) * q == 2 * (w * q)) by (nonlinear_arith);
    assert(w * (2 * c - r - 1) == 2 * (c * w) - r * w - w) by (nonlinear_arith);
    assert(w * (2 * c + r + 1) == 2 * (c * w) + r * w + w) by (nonlinear_arith);
    assert(w * (2 * q) == 2 * (w * q)) by (nonlinear_arith);
    assert(2 * c - r - 1 <= 2 * q) by (nonlinear_arith)
        requires
            w * (2 * c - r - 1) <= w * (2 * q),
            w >= 1,
    ;
    assert(2 * q <= 2 * c + r + 1) by (nonlinear_arith)
        requires
            w * (2 * q) <= w * (2 * c + r + 1),
            w >= 1,
    ;
}

/// The frequency at a place of a pane.
pub fn hz_at(s: Span, p: Pane, x: Micro) -> (r: Micro)
    requires
        s.wf(),
        p.wf(),
        within_limit(x@),
    ensures
        r@ == hz_spec(s, p, x@),
{
    let d: i64 = x.0 - p.left.0;
    let t: i128 = if d < 0 {
        0
    } else if d > p.width.0 {
        p.width.0 as i128
    } else {
        d as i128
    };
    let w: i128 = p.width.0 as i128;
    let rate: i128 = s.rate.0 as i128;
    let twice: i128 = 2 * s.center.0 as i128 - rate;
    proof {
        product_bound(
            twice as int,
            w as int,
            3_000_000_000_000_000_000,
            1_000_000_000_000_000_000,
        );
        product_bound(t as int, rate as int, 1_000_000_000_000_000_000, 1_000_000_000_000_000_000);
        assert(2 * t * rate == 2 * (t * rate)) by (nonlinear_arith);
        product_bound(
            2 * t,
            rate as int,
            2_000_000_000_000_000_000,
            1_000_000_000_000_000_000,
        );
        hz_is_inside(s, p, x@);
    }
    let v: i128 = twice * w + 2 * t * rate;
    Micro(nearest_signed(v, (2 * w) as u128) as i64)
}

/// The place of a frequency in a pane, which may lie outside it.
pub fn x_of(s: Span, p: Pane, hz: Micro) -> (r: i128)
    requires
        s.wf(),
        p.wf(),
        within_limit(hz@),
    ensures
        r == x_spec(s, p, hz@),
{
    let w: i128 = p.width.0 as i128;
    let rate: i128 = s.rate.0 as i128;
    let a: i128 = 2 * hz.0 as i128 - 2 * s.center.0 as i128 + rate;
    proof {
        product_bound(
            a as int,
            w as int,
            5_000_000_000_000_000_000,
            1_000_000_000_000_000_000,
        );
        let v = a * w;
        let den = 2 * rate;
        rounding_is_close(v, den as nat);
        let q = nearest_signed_spec(v, den as nat);
        assert(-10_000_000_000_000_000_000_000_000_000_000_000_000 <= q
            <= 10_000_000_000_000_000_000_000_000_000_000_000_000) by (nonlinear_arith)
            requires
                -den <= 2 * (den * q) - 2 * v <= den,
                den >= 1,
                -5_000_000_000_000_000_000_000_000_000_000_000_000 <= v
                    <= 5_000_000_000_000_000_000_000_000_000_000_000_000,
        ;
    }
    p.left.0 as i128 + nearest_signed(a * w, (2 * rate) as u128)
}

/// Every place of a pane is a frequency of the span, to the millionth.
pub proof fn places_are_in_the_span(s: Span, p: Pane, x: int)
    requires
        s.wf(),
        p.wf(),
    ensures
        2 * s.center@ - s.rate@ - 1 <= 2 * hz_spec(s, p, x) <= 2 * s.center@ + s.rate@ + 1,
{
    hz_is_inside(s, p, x);
}

/// The edges of a pane, and everything beyond them, are the ends of the span.
pub proof fn edges_are_the_ends_of_the_span(s: Span, p: Pane, x: int)
    requires
        s.wf(),
        p.wf(),
    ensures
        x <= p.left@ ==> -1 <= 2 * hz_spec(s, p, x) - (2 * s.center@ - s.rate@) <= 1,
        x >= p.left@ + p.width@ ==> -1 <= 2 * hz_spec(s, p, x) - (2 * s.center@ + s.rate@) <= 1,
{
    let t = clamp_spec(x - p.left@, 0, p.width@);
    let w = p.width@;
    let (c, r) = (s.center@, s.rate@);
    let v = (2 * c - r) * w + 2 * t * r;
    let q = hz_spec(s, p, x);
    rounding_is_close(v, (2 * w) as nat);
    assert((2 * w) * q == w * (2 * q)) by (nonlinear_arith);
    if x <= p.left@ {
        assert(t == 0);
        assert(2 * t * r == 0) by (nonlinear_arith)
            requires
                t == 0,
        ;
        let e = 2 * q - (2 * c - r);
        assert(w * e == w * (2 * q) - (2 * c - r) * w) by (nonlinear_arith)
            requires
                e == 2 * q - (2 * c - r),
        ;
        assert(-1 <= e <= 1) by (nonlinear_arith)
            requires
                -w <= w * e <= w,
                w >= 1,
        ;
    }
    if x >= p.left@ + w {
        assert(t == w);
        assert(v == (2 * c + r) * w) by (nonlinear_arith)
            requires
                t == w,
                v == (2 * c - r) * w + 2 * t * r,
        ;
        let e = 2 * q - (2 * c + r);
        assert(w * e == w * (2 * q) - (2 * c + r) * w) by (nonlinear_arith)
            requires
                e == 2 * q - (2 * c + r),
        ;
        assert(-1 <= e <= 1) by (nonlinear_arith)
            requires
                -w <= w * e <= w,
                w >= 1,
        ;
    }
}

/// A frequency of the span that is looked up at its own place comes back to
/// within what a millionth of a pixel is, and a millionth of a hertz.
pub proof fn frequency_mapping_round_trips(s: Span, p: Pane, hz: int)
    requires
        s.wf(),
        p.wf(),
        2 * s.center@ - s.rate@ <= 2 * hz <= 2 * s.center@ + s.rate@,
    ensures
        ({
            let back = hz_spec(s, p, x_spec(s, p, hz));
            &&& -(s.rate@ + p.width@) <= 2 * (p.width@ * (back - hz)) <= s.rate@ + p.width@
        }),
{
    let (c, r, w) = (s.center@, s.rate@, p.width@);
    let a = 2 * hz - 2 * c + r;
    let t = nearest_signed_spec(a * w, (2 * r) as nat);
    rounding_is_close(a * w, (2 * r) as nat);
    assert((2 * r) * t == 2 * (r * t)) by (nonlinear_arith);
    // The place is inside the pane.
    assert(0 <= a * w <= 2 * (r * w)) by (nonlinear_arith)
        requires
            0 <= a <= 2 * r,
            w >= 0,
    ;
    assert(t >= 0) by (nonlinear_arith)
        requires
            -(2 * r) <= 4 * (r * t) - 2 * (a * w),
            a * w >= 0,
            t < 0 ==> nearest_signed_spec(a * w, (2 * r) as nat) == t,
            r >= 1,
            a * w >= 0 ==> t >= 0,
    ;
    assert(t <= w) by {
        if t > w {
            assert(r * t >= r * w + r) by (nonlinear_arith)
                requires
                    t >= w + 1,
                    r >= 1,
            ;
        }
    }
    let v = (2 * c - r) * w + 2 * t * r;
    let back = nearest_signed_spec(v, (2 * w) as nat);
    rounding_is_close(v, (2 * w) as nat);
    assert((2 * w) * back == 2 * (w * back)) by (nonlinear_arith);
    assert(2 * t * r == 2 * (r * t)) by (nonlinear_arith);
    // Where the frequency lies exactly.
    assert(a * w == 2 * (w * hz) - (2 * c - r) * w) by (nonlinear_arith)
        requires
            a == 2 * hz - 2 * c + r,
    ;
    assert(w * (back - hz) == w * back - w * hz) by (nonlinear_arith);
}

/// A frequency in the unit that suits it.
pub open spec fn hz_text(hz: int) -> Seq<char> {
    let a = if hz < 0 {
        -hz
    } else {
        hz
    };
    if a >= 1_000_000_000_000 {
        signed_ratio_text(hz, 1_000_000_000_000, 4) + " MHz"@
    } else if a >= 1_000_000_000 {
        signed_ratio_text(hz, 1_000_000_000, 1) + " kHz"@
    } else {
        signed_ratio_text(hz, 1_000_000, 0) + " Hz"@
    }
}

/// A frequency in the unit that suits it.
pub fn fmt_hz(hz: Micro) -> (r: String)
    ensures
        r@ == hz_text(hz@),
{
    let v: i128 = hz.0 as i128;
    let a: i128 = if v < 0 {
        -v
    } else {
        v
    };
    let mut s: String = String::new();
    if a >= 1_000_000_000_000 {
        push_signed_ratio(&mut s, v, 1_000_000_000_000, 4);
        s.append(" MHz");
    } else if a >= 1_000_000_000 {
        push_signed_ratio(&mut s, v, 1_000_000_000, 1);
        s.append(" kHz");
    } else {
        push_signed_ratio(&mut s, v, 1_000_000, 0);
        s.append(" Hz");
    }
    assert(s@ =~= hz_text(hz@));
    s
}

/// Resolution bandwidth, which is what the bin count buys.
pub open spec fn bin_text(rate: int, bins: nat) -> Seq<char> {
    if rate >= 1_000_000_000 * bins {
        signed_ratio_text(rate, 1_000_000_000 * bins, 1) + " kHz per bin"@
    } else {
        signed_ratio_text(rate, 1_000_000 * bins, 0) + " Hz per bin"@
    }
}

/// Resolution bandwidth, which is what the bin count buys.
pub fn bin_hint(rate: Micro, bins: usize) -> (r: String)
    requires
        1 <= bins <= 1_000_000_000,
    ensures
        r@ == bin_text(rate@, bins as nat),
{
    let v: i128 = rate.0 as i128;
    let n: i128 = bins as i128;
    let mut s: String = String::new();
    if v >= 1_000_000_000 * n {
        push_signed_ratio(&mut s, v, (1_000_000_000 * n) as u128, 1);
        s.append(" kHz per bin");
    } else {
        push_signed_ratio(&mut s, v, (1_000_000 * n) as u128, 0);
        s.append(" Hz per bin");
    }
    assert(s@ =~= bin_text(rate@, bins as nat));
    s
}

/// What is written at the crosshair.
pub open spec fn cursor_text(hz: int) -> Seq<char> {
    hz_text(hz) + "   "@ + name_spec(hz)
}

/// What is written at the crosshair: the frequency and what it is used for.
pub fn cursor_label(hz: Micro) -> (r: String)
    ensures
        r@ == cursor_text(hz@),
{
    let mut s: String = fmt_hz(hz);
    s.append("   ");
    s.append(name_at(hz));
    assert(s@ =~= cursor_text(hz@));
    s
}

/// How strongly the spectrum is averaged.
pub open spec fn smoothing_text(v: int) -> Seq<char> {
    if v > 950_000 {
        "off"@
    } else {
        signed_ratio_text((1_000_000 - v) * 100, 1_000_000, 0) + "%"@
    }
}

/// How strongly the spectrum is averaged.
pub fn smoothing_label(v: Micro) -> (r: String)
    ensures
        r@ == smoothing_text(v@),
{
    if v.0 > 950_000 {
        return "off".to_owned();
    }
    let mut s: String = String::new();
    push_signed_ratio(&mut s, (1_000_000 - v.0 as i128) * 100, 1_000_000, 0);
    s.append("%");
    assert(s@ =~= smoothing_text(v@));
    s
}

/// How long the history reaches back.
pub open spec fn history_text(rows: nat, per_sec: nat) -> Seq<char> {
    ratio_text(rows * 1_000_000, per_sec, 0) + " s of history at "@ + ratio_text(
        per_sec,
        1_000_000,
        0,
    ) + " rows/s"@
}

/// How long the history reaches back.
pub fn history_label(rows: usize, per_sec: Micro) -> (r: String)
    requires
        per_sec@ > 0,
        rows <= 1_000_000_000,
    ensures
        r@ == history_text(rows as nat, per_sec@ as nat),
{
    let mut s: String = String::new();
    push_ratio(&mut s, rows as u128 * 1_000_000, per_sec.0 as u128, 0);
    s.append(" s of history at ");
    push_ratio(&mut s, per_sec.0 as u128, 1_000_000, 0);
    s.append(" rows/s");
    assert(s@ =~= history_text(rows as nat, per_sec@ as nat));
    s
}

/// The level at line `i` of four between the ceiling and the floor.
pub open spec fn grid_text(floor: int, ceil: int, i: int) -> Seq<char> {
    signed_ratio_text(4 * ceil - (ceil - floor) * i, 4_000_000, 0)
}

/// The level at line `i` of four between the ceiling and the floor.
pub fn grid_label(floor: Micro, ceil: Micro, i: u8) -> (r: String)
    requires
        i <= 4,
    ensures
        r@ == grid_text(floor@, ceil@, i as int),
{
    let (f, c) = (floor.0 as i128, ceil.0 as i128);
    let k: i128 = i as i128;
    assert(-4 * 0x1_ffff_ffff_ffff_ffff <= (c - f) * k <= 4 * 0x1_ffff_ffff_ffff_ffff)
        by (nonlinear_arith)
        requires
            -0x1_ffff_ffff_ffff_ffff <= c - f <= 0x1_ffff_ffff_ffff_ffff,
            0 <= k <= 4,
    ;
    let mut s: String = String::new();
    push_signed_ratio(&mut s, 4 * c - (c - f) * k, 4_000_000, 0);
    assert(s@ =~= grid_text(floor@, ceil@, i as int));
    s
}

/// The first bin of column `c`.
pub open spec fn first_bin(c: int, n: int, cols: int) -> int {
    c * n / cols
}

/// The bin after the last of column `c`: every column has one at least.
pub open spec fn end_bin(c: int, n: int, cols: int) -> int {
    let a = first_bin(c, n, cols);
    let b = (c + 1) * n / cols;
    let wide = if b < a + 1 {
        a + 1
    } else {
        b
    };
    if wide > n {
        n
    } else {
        wide
    }
}

/// The strongest of levels from `a` up to `b`.
pub open spec fn strongest(db: Seq<Micro>, a: int, b: int) -> int
    decreases b - a,
{
    if b <= a {
        i64::MIN as int
    } else {
        let rest = strongest(db, a, b - 1);
        if db[b - 1]@ > rest {
            db[b - 1]@
        } else {
            rest
        }
    }
}

proof fn columns_are_inside(c: int, n: int, cols: int)
    requires
        0 <= c < cols,
        1 <= n,
    ensures
        0 <= first_bin(c, n, cols) < n,
        first_bin(c, n, cols) < end_bin(c, n, cols) <= n,
        (c + 1) * n / cols <= n,
        first_bin(c, n, cols) <= (c + 1) * n / cols,
{
    vstd::arithmetic::div_mod::lemma_fundamental_div_mod(c * n, cols);
    vstd::arithmetic::div_mod::lemma_fundamental_div_mod((c + 1) * n, cols);
    let (a, b) = (c * n / cols, (c + 1) * n / cols);
    assert(0 <= c * n) by (nonlinear_arith)
        requires
            0 <= c,
            1 <= n,
    ;
    assert((c + 1) * n <= cols * n) by (nonlinear_arith)
        requires
            c + 1 <= cols,
            1 <= n,
    ;
    assert((c + 1) * n == c * n + n) by (nonlinear_arith);
    assert(a >= 0) by (nonlinear_arith)
        requires
            c * n < cols * a + cols,
            0 <= c * n,
            cols >= 1,
    ;
    assert(a < n) by (nonlinear_arith)
        requires
            cols * a <= c * n,
            c * n + n <= cols * n,
            n >= 1,
            cols >= 1,
    ;
    assert(b <= n) by (nonlinear_arith)
        requires
            cols * b <= (c + 1) * n,
            (c + 1) * n <= cols * n,
            cols >= 1,
    ;
    assert(a <= b) by (nonlinear_arith)
        requires
            cols * a <= c * n,
            c * n + n < cols * b + cols,
            n >= 1,
            cols >= 1,
    ;
}

/// The level of every column of the trace: the strongest of its bins, since
/// averaging hides the narrow carriers that matter.
pub fn trace(db: &[Micro], cols: usize) -> (r: Vec<Micro>)
    requires
        db@.len() >= 1,
        db@.len() <= 0xffff_ffff,
        cols <= 0xffff_ffff,
    ensures
        r@.len() == cols,
        forall|c: int|
            0 <= c < cols ==> (#[trigger] r@[c])@ == strongest(
                db@,
                first_bin(c, db@.len() as int, cols as int),
                end_bin(c, db@.len() as int, cols as int),
            ),
{
    let n: usize = db.len();
    let mut v: Vec<Micro> = Vec::new();
    let mut c: usize = 0;
    while c < cols
        invariant
            n == db@.len(),
            1 <= n <= 0xffff_ffff,
            c <= cols <= 0xffff_ffff,
            v@.len() == c,
            forall|k: int|
                0 <= k < c ==> (#[trigger] v@[k])@ == strongest(
                    db@,
                    first_bin(k, n as int, cols as int),
                    end_bin(k, n as int, cols as int),
                ),
        decreases cols - c,
    {
        proof {
            columns_are_inside(c as int, n as int, cols as int);
            assert(0 <= c * n <= 0xffff_ffff * 0xffff_ffff) by (nonlinear_arith)
                requires
                    0 <= c <= 0xffff_ffff,
                    0 <= n <= 0xffff_ffff,
            ;
            assert(0 <= (c + 1) * n <= 0xffff_ffff * 0xffff_ffff) by (nonlinear_arith)
                requires
                    0 <= c + 1 <= 0xffff_ffff,
                    0 <= n <= 0xffff_ffff,
            ;
        }
        let a: usize = (c as u64 * n as u64 / cols as u64) as usize;
        let b0: usize = ((c as u64 + 1) * n as u64 / cols as u64) as usize;
        let b: usize = if b0 < a + 1 {
            a + 1
        } else {
            b0
        };
        let mut top: i64 = i64::MIN;
        let mut i: usize = a;
        while i < b
            invariant
                a <= i <= b <= db@.len(),
                top == strongest(db@, a as int, i as int),
            decreases b - i,
        {
            if db[i].0 > top {
                top = db[i].0;
            }
            i += 1;
        }
        v.push(Micro(top));
        c += 1;
    }
    v
}

/// No carrier is hidden: every bin belongs to some column.
pub proof fn every_bin_is_in_a_column(i: int, n: int, cols: int)
    requires
        0 <= i < n,
        1 <= cols,
    ensures
        exists|c: int|
            0 <= c < cols && #[trigger] first_bin(c, n, cols) <= i && i < end_bin(c, n, cols),
{
    in_some_column(i, n, cols, cols - 1);
}

/// The last column that starts at or before a bin holds it.
proof fn in_some_column(i: int, n: int, cols: int, c: int)
    requires
        0 <= i < n,
        0 <= c < cols,
        c < cols - 1 ==> i < first_bin(c + 1, n, cols),
    ensures
        exists|k: int|
            0 <= k < cols && #[trigger] first_bin(k, n, cols) <= i && i < end_bin(k, n, cols),
    decreases c,
{
    columns_are_inside(c, n, cols);
    if first_bin(c, n, cols) <= i {
        if c == cols - 1 {
            assert((c + 1) * n / cols == n) by {
                vstd::arithmetic::div_mod::lemma_fundamental_div_mod_converse(
                    cols * n,
                    cols,
                    n,
                    0,
                );
            }
        }
        assert(i < end_bin(c, n, cols));
    } else {
        if c == 0 {
            assert(first_bin(0, n, cols) == 0) by {
                assert(0 * n == 0);
                vstd::arithmetic::div_mod::lemma_fundamental_div_mod_converse(0, cols, 0, 0);
            }
        }
        in_some_column(i, n, cols, c - 1);
    }
}

/// The level of a column is that of one of its bins, and none of them is
/// stronger.
pub proof fn the_strongest_is_one_of_them(db: Seq<Micro>, a: int, b: int)
    requires
        0 <= a < b <= db.len(),
    ensures
        exists|i: int| a <= i < b && (#[trigger] db[i])@ == strongest(db, a, b),
        forall|i: int| a <= i < b ==> (#[trigger] db[i])@ <= strongest(db, a, b),
    decreases b - a,
{
    if a < b - 1 {
        the_strongest_is_one_of_them(db, a, b - 1);
        if db[b - 1]@ > strongest(db, a, b - 1) {
            assert(db[b - 1]@ == strongest(db, a, b));
        } else {
            let i = choose|i: int|
                a <= i < b - 1 && (#[trigger] db[i])@ == strongest(db, a, b - 1);
            assert(db[i]@ == strongest(db, a, b));
        }
    } else {
        assert(strongest(db, a, a) == i64::MIN);
        assert(db[b - 1]@ == strongest(db, a, b) || db[b - 1]@ == i64::MIN);
        assert(db[b - 1]@ == strongest(db, a, b));
    }
}

/// One cell of the ribbon under the spectrum.
#[derive(Clone, Copy, Debug, PartialEq, Eq)]
pub struct Cell {
    pub x0: i128,
    pub x1: i128,
    pub color: Rgb,
    /// What is written in it, if it is wide enough.
    pub name: Option<&'static str>,
}

/// A cell as mathematical values.
pub struct CellView {
    pub x0: int,
    pub x1: int,
    pub color: Rgb,
    pub name: Option<Seq<char>>,
}

impl View for Cell {
    type V = CellView;

    open spec fn view(&self) -> CellView {
        CellView {
            x0: self.x0 as int,
            x1: self.x1 as int,
            color: self.color,
            name: match self.name {
                Some(n) => Some(n@),
                None => None,
            },
        }
    }
}

/// The greater of two numbers.
pub open spec fn larger(a: int, b: int) -> int {
    if a < b {
        b
    } else {
        a
    }
}

/// The lesser of two numbers.
pub open spec fn lesser(a: int, b: int) -> int {
    if b < a {
        b
    } else {
        a
    }
}

/// The lowest frequency of a span, cut to a millionth.
pub open spec fn low_end(s: Span) -> int {
    s.center@ - (s.rate@ / 2)
}

/// The highest frequency of a span.
pub open spec fn high_end(s: Span) -> int {
    s.center@ + (s.rate@ / 2)
}

/// Where a band is drawn, none if it is less than a pixel wide.
pub open spec fn cell_of(s: Span, p: Pane, b: BandView) -> Option<CellView> {
    let x0 = larger(x_spec(s, p, larger(b.lo * 1_000_000, low_end(s))), p.left@);
    let x1 = lesser(x_spec(s, p, lesser(b.hi * 1_000_000, high_end(s))), p.left@ + p.width@);
    if x1 - x0 < 1_000_000 {
        None
    } else {
        Some(
            CellView {
                x0,
                x1,
                color: b.color,
                name: if x1 - x0 > 60_000_000 {
                    Some(b.name)
                } else {
                    None
                },
            },
        )
    }
}

/// The cells of bands.
pub open spec fn cells_of(s: Span, p: Pane, b: Seq<BandView>) -> Seq<CellView>
    decreases b.len(),
{
    if b.len() == 0 {
        Seq::empty()
    } else {
        match cell_of(s, p, b.last()) {
            Some(c) => cells_of(s, p, b.drop_last()).push(c),
            None => cells_of(s, p, b.drop_last()),
        }
    }
}

/// The views of cells.
pub open spec fn cells_view(c: Seq<Cell>) -> Seq<CellView> {
    Seq::new(c.len(), |i: int| c[i]@)
}

proof fn bands_are_low(lo: int, hi: int, n: nat)
    requires
        n <= table().len(),
    ensures
        forall|i: int|
            0 <= i < overlapping(lo, hi, n).len() ==> {
                &&& 0 <= (#[trigger] overlapping(lo, hi, n)[i]).lo <= 2_000_000_000
                &&& 0 <= overlapping(lo, hi, n)[i].hi <= 2_000_000_000
            },
    decreases n,
{
    if n > 0 {
        bands_are_low(lo, hi, (n - 1) as nat);
        let before = overlapping(lo, hi, (n - 1) as nat);
        let o = overlapping(lo, hi, n);
        assert forall|i: int| 0 <= i < o.len() implies {
            &&& 0 <= (#[trigger] o[i]).lo <= 2_000_000_000
            &&& 0 <= o[i].hi <= 2_000_000_000
        } by {
            if i < before.len() {
                assert(o[i] == before[i]);
            }
        }
    }
}

/// The ribbon of allocations under a span.
pub fn ribbon(s: Span, p: Pane) -> (r: Vec<Cell>)
    requires
        s.wf(),
        p.wf(),
        within_limit(low_end(s)),
        within_limit(high_end(s)),
    ensures
        cells_view(r@) == cells_of(s, p, overlapping(low_end(s), high_end(s), table().len())),
{
    let half: i64 = s.rate.0 / 2;
    let lo: i64 = s.center.0 - half;
    let hi: i64 = s.center.0 + half;
    let shown: Vec<Band> = in_span(Micro(lo), Micro(hi));
    let ghost all = bands_view(shown@);
    proof {
        bands_are_low(lo as int, hi as int, table().len());
    }
    let n: usize = shown.len();
    let left: i128 = p.left.0 as i128;
    let right: i128 = p.left.0 as i128 + p.width.0 as i128;
    let mut v: Vec<Cell> = Vec::new();
    let mut i: usize = 0;
    assert(cells_view(v@) =~= cells_of(s, p, all.take(0)));
    while i < n
        invariant
            n == shown@.len(),
            i <= n,
            s.wf(),
            p.wf(),
            lo == low_end(s),
            hi == high_end(s),
            within_limit(low_end(s)),
            within_limit(high_end(s)),
            left == p.left@,
            right == p.left@ + p.width@,
            all == bands_view(shown@),
            all == overlapping(lo as int, hi as int, table().len()),
            forall|k: int|
                0 <= k < all.len() ==> {
                    &&& 0 <= (#[trigger] all[k]).lo <= 2_000_000_000
                    &&& 0 <= all[k].hi <= 2_000_000_000
                },
            cells_view(v@) == cells_of(s, p, all.take(i as int)),
        decreases n - i,
    {
        let b: Band = shown[i];
        proof {
            assert(all[i as int] == b@);
            assert(all.take(i + 1).drop_last() =~= all.take(i as int));
            assert(all.take(i + 1).last() == all[i as int]);
        }
        let from: i64 = b.lo as i64 * 1_000_000;
        let to: i64 = b.hi as i64 * 1_000_000;
        let start: i128 = x_of(
            s,
            p,
            Micro(
                if from < lo {
                    lo
                } else {
                    from
                },
            ),
        );
        let end: i128 = x_of(
            s,
            p,
            Micro(
                if hi < to {
                    hi
                } else {
                    to
                },
            ),
        );
        let x0: i128 = if start < left {
            left
        } else {
            start
        };
        let x1: i128 = if right < end {
            right
        } else {
            end
        };
        proof {
            x_is_small(s, p, larger(b.lo * 1_000_000, lo as int));
            x_is_small(s, p, lesser(b.hi * 1_000_000, hi as int));
        }
        if x1 - x0 >= 1_000_000 {
            let ghost had = cells_view(v@);
            v.push(
                Cell {
                    x0,
                    x1,
                    color: b.color,
                    name: if x1 - x0 > 60_000_000 {
                        Some(b.name)
                    } else {
                        None
                    },
                },
            );
            assert(cells_view(v@) =~= had.push(v@[v@.len() - 1]@));
        }
        i += 1;
        assert(cells_view(v@) =~= cells_of(s, p, all.take(i as int)));
    }
    assert(all.take(n as int) =~= all);
    v
}

proof fn x_is_small(s: Span, p: Pane, hz: int)
    requires
        s.wf(),
        p.wf(),
        within_limit(hz),
    ensures
        -11_000_000_000_000_000_000_000_000_000_000_000_000 <= x_spec(s, p, hz)
            <= 11_000_000_000_000_000_000_000_000_000_000_000_000,
{
    let w = p.width@;
    let a = 2 * hz - 2 * s.center@ + s.rate@;
    product_bound(a, w, 5_000_000_000_000_000_000, 1_000_000_000_000_000_000);
    let v = a * w;
    let den = 2 * s.rate@;
    rounding_is_close(v, den as nat);
    let q = nearest_signed_spec(v, den as nat);
    assert(-10_000_000_000_000_000_000_000_000_000_000_000_000 <= q
        <= 10_000_000_000_000_000_000_000_000_000_000_000_000) by (nonlinear_arith)
        requires
            -den <= 2 * (den * q) - 2 * v <= den,
            den >= 1,
            -5_000_000_000_000_000_000_000_000_000_000_000_000 <= v
                <= 5_000_000_000_000_000_000_000_000_000_000_000_000,
    ;
}

/// Where a channel is marked: its line and the edges of what its demodulator
/// takes in.
#[derive(Clone, Copy, Debug, PartialEq, Eq, Structural)]
pub struct Marker {
    pub x: i128,
    /// Edges of the band, where it is a pixel wide.
    pub band: Option<Edges>,
}

/// The two edges of a band.
#[derive(Clone, Copy, Debug, PartialEq, Eq, Structural)]
pub struct Edges {
    pub x0: i128,
    pub x1: i128,
}

/// Where a channel is marked, none if it lies outside the span.
pub open spec fn marker_spec(s: Span, p: Pane, freq: int, demod: Demod) -> Option<Marker> {
    if freq < low_end(s) || freq > high_end(s) {
        None
    } else {
        let half = bandwidth_spec(demod) * 500_000;
        let x0 = x_spec(s, p, freq - half);
        let x1 = x_spec(s, p, freq + half);
        Some(
            Marker {
                x: x_spec(s, p, freq) as i128,
                band: if x1 - x0 >= 1_000_000 {
                    Some(Edges { x0: x0 as i128, x1: x1 as i128 })
                } else {
                    None
                },
            },
        )
    }
}

/// Where a channel is marked.
///
/// What the demodulator takes in is shown, not just where it is centred: a
/// narrow and a wide channel at the same spot are different slices of spectrum.
pub fn marker(s: Span, p: Pane, freq: Micro, demod: Demod) -> (r: Option<Marker>)
    requires
        s.wf(),
        p.wf(),
        -900_000_000_000_000_000 <= freq@ <= 900_000_000_000_000_000,
    ensures
        r == marker_spec(s, p, freq@, demod),
{
    let half_span: i64 = s.rate.0 / 2;
    if freq.0 < s.center.0 - half_span || freq.0 > s.center.0 + half_span {
        return None;
    }
    let half: i64 = demod.bandwidth() as i64 * 500_000;
    let x0: i128 = x_of(s, p, Micro(freq.0 - half));
    let x1: i128 = x_of(s, p, Micro(freq.0 + half));
    proof {
        x_is_small(s, p, freq@ - half);
        x_is_small(s, p, freq@ + half);
        x_is_small(s, p, freq@);
    }
    let band: Option<Edges> = if x1 - x0 >= 1_000_000 {
        Some(Edges { x0, x1 })
    } else {
        None
    };
    Some(Marker { x: x_of(s, p, freq), band })
}

/// A rectangle on the screen.
#[derive(Clone, Copy, Debug, PartialEq, Eq, Structural)]
pub struct Area {
    pub left: Micro,
    pub top: Micro,
    pub right: Micro,
    pub bottom: Micro,
}

impl Area {
    pub open spec fn wf(&self) -> bool {
        &&& within_limit(self.left@)
        &&& within_limit(self.top@)
        &&& within_limit(self.right@)
        &&& within_limit(self.bottom@)
    }

    /// Whether a point lies inside or on the edge.
    pub open spec fn holds(&self, x: int, y: int) -> bool {
        self.left@ <= x <= self.right@ && self.top@ <= y <= self.bottom@
    }

    /// Whether a point lies inside or on the edge.
    pub fn contains(&self, x: Micro, y: Micro) -> (r: bool)
        ensures
            r == self.holds(x@, y@),
    {
        self.left.0 <= x.0 && x.0 <= self.right.0 && self.top.0 <= y.0 && y.0 <= self.bottom.0
    }
}

/// The three parts of the display, from the top down.
#[derive(Clone, Copy, Debug, PartialEq, Eq, Structural)]
pub struct Layout {
    pub plot: Area,
    pub ribbon: Area,
    pub fall: Area,
}

/// The height of the spectrum: a third, more or less, of what the ribbon leaves.
pub open spec fn plot_height(height: int) -> int {
    nearest_signed_spec((height - 16_000_000) * 34, 100)
}

/// How the display is shared out.
pub open spec fn layout_spec(full: Area) -> Layout {
    let y = full.top@ + plot_height(full.bottom@ - full.top@);
    Layout {
        plot: Area { bottom: Micro(y as i64), ..full },
        ribbon: Area {
            top: Micro(y as i64),
            bottom: Micro((y + 16_000_000) as i64),
            ..full
        },
        fall: Area { top: Micro((y + 16_000_000) as i64), ..full },
    }
}

/// How the display is shared out: spectrum, allocations, history.
pub fn layout(full: Area) -> (r: Layout)
    requires
        full.wf(),
    ensures
        r == layout_spec(full),
{
    let h: i128 = full.bottom.0 as i128 - full.top.0 as i128;
    proof {
        rounding_is_close((h - 16_000_000) * 34, 100);
    }
    let y: i64 = (full.top.0 as i128 + nearest_signed((h - 16_000_000) * 34, 100)) as i64;
    Layout {
        plot: Area { left: full.left, top: full.top, right: full.right, bottom: Micro(y) },
        ribbon: Area {
            left: full.left,
            top: Micro(y),
            right: full.right,
            bottom: Micro(y + 16_000_000),
        },
        fall: Area {
            left: full.left,
            top: Micro(y + 16_000_000),
            right: full.right,
            bottom: full.bottom,
        },
    }
}

/// The three parts of the display cover it from top to bottom without a gap.
pub proof fn the_panes_share_the_display(full: Area)
    requires
        full.wf(),
        full.bottom@ - full.top@ >= 16_000_000,
    ensures
        ({
            let l = layout_spec(full);
            &&& l.plot.top == full.top
            &&& l.plot.top@ <= l.plot.bottom@
            &&& l.ribbon.top == l.plot.bottom
            &&& l.ribbon.bottom@ - l.ribbon.top@ == 16_000_000
            &&& l.fall.top == l.ribbon.bottom
            &&& l.fall.top@ <= l.fall.bottom@
            &&& l.fall.bottom == full.bottom
        }),
{
    rounding_is_close((full.bottom@ - full.top@ - 16_000_000) * 34, 100);
}

/// Where the way into the settings of a pane is drawn: in its upper right corner.
pub open spec fn cog_spec(pane: Area) -> Area {
    Area {
        left: Micro((pane.right@ - 24_000_000) as i64),
        top: Micro((pane.top@ + 6_000_000) as i64),
        right: Micro((pane.right@ - 6_000_000) as i64),
        bottom: Micro((pane.top@ + 24_000_000) as i64),
    }
}

/// Where the way into the settings of a pane is drawn.
pub fn cog_area(pane: &Area) -> (r: Area)
    requires
        -3_000_000_000_000_000_000 <= pane.right@ <= 3_000_000_000_000_000_000,
        -3_000_000_000_000_000_000 <= pane.top@ <= 3_000_000_000_000_000_000,
    ensures
        r == cog_spec(*pane),
{
    Area {
        left: Micro(pane.right.0 - 24_000_000),
        top: Micro(pane.top.0 + 6_000_000),
        right: Micro(pane.right.0 - 6_000_000),
        bottom: Micro(pane.top.0 + 24_000_000),
    }
}

/// What a click landed on.
#[derive(Clone, Copy, Debug, PartialEq, Eq, Structural)]
pub enum Spot {
    SpectrumCog,
    WaterfallCog,
    /// The panes themselves, at that place.
    At(Micro),
}

/// What stands at a point of the display.
pub open spec fn spot_spec(full: Area, x: Micro, y: Micro) -> Spot {
    let l = layout_spec(full);
    if cog_spec(l.plot).holds(x@, y@) {
        Spot::SpectrumCog
    } else if cog_spec(l.fall).holds(x@, y@) {
        Spot::WaterfallCog
    } else {
        Spot::At(x)
    }
}

/// What stands at a point of the display. The cogs stand inside the panes, so
/// they come first.
pub fn spot(full: Area, x: Micro, y: Micro) -> (r: Spot)
    requires
        full.wf(),
    ensures
        r == spot_spec(full, x, y),
{
    proof {
        rounding_is_close((full.bottom@ - full.top@ - 16_000_000) * 34, 100);
    }
    let l: Layout = layout(full);
    if cog_area(&l.plot).contains(x, y) {
        Spot::SpectrumCog
    } else if cog_area(&l.fall).contains(x, y) {
        Spot::WaterfallCog
    } else {
        Spot::At(x)
    }
}

/// How high over the floor a level is drawn in a plot of that height. The scale
/// is at least a decibel.
pub open spec fn rise_spec(v: int, floor: int, ceil: int, height: int) -> int {
    let span = larger(ceil - floor, 1_000_000);
    nearest_signed_spec(clamp_spec(v - floor, 0, span) * height, span as nat)
}

/// How high over the floor a level is drawn.
pub fn rise(v: Micro, floor: Micro, ceil: Micro, height: Micro) -> (r: i128)
    requires
        within_limit(floor@),
        within_limit(ceil@),
        0 <= height@ <= 1_000_000_000_000_000_000,
    ensures
        r == rise_spec(v@, floor@, ceil@, height@),
        0 <= r <= height@,
{
    let wide: i128 = ceil.0 as i128 - floor.0 as i128;
    let span: i128 = if wide < 1_000_000 {
        1_000_000
    } else {
        wide
    };
    let over: i128 = v.0 as i128 - floor.0 as i128;
    let t: i128 = if over < 0 {
        0
    } else if over > span {
        span
    } else {
        over
    };
    let h: i128 = height.0 as i128;
    assert(0 <= t * h <= span * h) by (nonlinear_arith)
        requires
            0 <= t <= span,
            0 <= h,
    ;
    assert(0 <= span * h <= 2_000_000_000_000_000_000 * 1_000_000_000_000_000_000)
        by (nonlinear_arith)
        requires
            0 <= span <= 2_000_000_000_000_000_000,
            0 <= h <= 1_000_000_000_000_000_000,
    ;
    proof {
        let q = nearest_signed_spec(t * h, span as nat);
        rounding_is_close(t * h, span as nat);
        assert(q <= h) by (nonlinear_arith)
            requires
                2 * (span * q) - 2 * (t * h) <= span,
                t * h <= span * h,
                span >= 1_000_000,
        ;
    }
    nearest_signed(t * h, span as u128)
}

/// A stronger level is never drawn lower.
pub proof fn stronger_is_not_lower(a: int, b: int, floor: int, ceil: int, height: int)
    requires
        a <= b,
        0 <= height,
    ensures
        rise_spec(a, floor, ceil, height) <= rise_spec(b, floor, ceil, height),
{
    let span = larger(ceil - floor, 1_000_000);
    let s = clamp_spec(a - floor, 0, span);
    let t = clamp_spec(b - floor, 0, span);
    assert(0 <= s * height <= t * height) by (nonlinear_arith)
        requires
            0 <= s <= t,
            0 <= height,
    ;
    vstd::arithmetic::div_mod::lemma_div_is_ordered(
        2 * (s * height) + span,
        2 * (t * height) + span,
        2 * span,
    );
}

/// A lamp of the panel.
#[derive(Debug)]
pub struct Lamp {
    pub label: &'static str,
    pub lit: bool,
    pub text: String,
}

/// The lamp that counts lost blocks. Dark is good.
pub fn drops_lamp(dropped: u64) -> (r: Lamp)
    ensures
        r.label@ == "drops"@,
        r.lit == (dropped > 0),
        r.text@ == digits(dropped as nat),
{
    let mut s: String = String::new();
    push_nat(&mut s, dropped as u128);
    assert(s@ =~= digits(dropped as nat));
    Lamp { label: "drops", lit: dropped > 0, text: s }
}

/// The lamp that says whether the radio runs.
pub fn rx_lamp(running: bool) -> (r: Lamp)
    ensures
        r.label@ == "rx"@,
        r.lit == running,
        r.text@ == (if running {
            "on"@
        } else {
            "off"@
        }),
{
    Lamp {
        label: "rx",
        lit: running,
        text: if running {
            "on".to_owned()
        } else {
            "off".to_owned()
        },
    }
}

} // verus!
