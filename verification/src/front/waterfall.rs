//! Scrolling waterfall.
//!
//! Rows are written into a ring, so that adding one costs the same whatever the
//! depth of the history. Levels are in millionths of a decibel.

use vstd::prelude::*;
use crate::fixed::Micro;
#[allow(unused_imports)]
use crate::fixed::clamp_spec;
#[allow(unused_imports)]
use crate::front::color::black;
use crate::front::color::Rgb;

verus! {

/// A waterfall: as many rows as it is high, the newest first.
#[verifier::ext_equal]
pub struct Fall {
    pub width: nat,
    pub rows: Seq<Seq<Rgb>>,
    /// Rows that have been drawn.
    pub filled: nat,
}

/// Where the colour ramp turns, in thousandths of its length.
pub open spec fn stop_at(i: int) -> int {
    if i == 0 {
        0
    } else if i == 1 {
        350
    } else if i == 2 {
        600
    } else if i == 3 {
        780
    } else if i == 4 {
        900
    } else {
        1000
    }
}

/// The colour at a turn, red, green and blue in thousandths of full.
pub open spec fn stop_color(i: int) -> (int, int, int) {
    if i == 0 {
        (31, 39, 51)
    } else if i == 1 {
        (47, 125, 161)
    } else if i == 2 {
        (78, 376, 486)
    } else if i == 3 {
        (180, 612, 745)
    } else if i == 4 {
        (941, 627, 188)
    } else {
        (1000, 965, 878)
    }
}

/// The stretch of the ramp that holds `num / den`.
pub open spec fn stretch(num: int, den: int) -> int {
    if num * 1000 <= 350 * den {
        0
    } else if num * 1000 <= 600 * den {
        1
    } else if num * 1000 <= 780 * den {
        2
    } else if num * 1000 <= 900 * den {
        3
    } else {
        4
    }
}

/// A component between `a` and `b` thousandths, `x / d` of the way, out of 255.
pub open spec fn between(a: int, b: int, x: int, d: int) -> int {
    255 * (a * d + (b - a) * x) / (1000 * d)
}

/// The colour at `num / den` of the ramp.
pub open spec fn color_spec(num: int, den: int) -> Rgb {
    let i = stretch(num, den);
    let x = num * 1000 - stop_at(i) * den;
    let d = (stop_at(i + 1) - stop_at(i)) * den;
    let (a, b) = (stop_color(i), stop_color(i + 1));
    Rgb {
        r: between(a.0, b.0, x, d) as u8,
        g: between(a.1, b.1, x, d) as u8,
        b: between(a.2, b.2, x, d) as u8,
    }
}

/// The colour of a level in a display range, which is at least a decibel wide.
pub open spec fn level_color(v: int, floor: int, ceil: int) -> Rgb {
    let span = if ceil - floor < 1_000_000 {
        1_000_000
    } else {
        ceil - floor
    };
    color_spec(clamp_spec(v - floor, 0, span), span)
}

/// The colours of a row of levels.
pub open spec fn row_colors(db: Seq<Micro>, floor: int, ceil: int) -> Seq<Rgb> {
    Seq::new(db.len(), |i: int| level_color(db[i]@, floor, ceil))
}

/// A black row.
pub open spec fn black_row(width: nat) -> Seq<Rgb> {
    Seq::new(width, |i: int| black())
}

/// Nothing but black rows.
pub open spec fn dark(width: nat, height: nat) -> Seq<Seq<Rgb>> {
    Seq::new(height, |y: int| black_row(width))
}

/// A row moved so that what was `d` places to the right stands here.
pub open spec fn slid(row: Seq<Rgb>, d: int) -> Seq<Rgb> {
    Seq::new(
        row.len(),
        |x: int|
            if 0 <= x + d < row.len() {
                row[x + d]
            } else {
                black()
            },
    )
}

/// A waterfall with one row more.
pub open spec fn pushed(f: Fall, db: Seq<Micro>, floor: int, ceil: int) -> Fall {
    if db.len() == 0 {
        f
    } else {
        let rows = if db.len() == f.width {
            f.rows
        } else {
            dark(db.len(), f.rows.len())
        };
        let had = if db.len() == f.width {
            f.filled
        } else {
            0
        };
        Fall {
            width: db.len(),
            rows: seq![row_colors(db, floor, ceil)] + rows.drop_last(),
            filled: if had < f.rows.len() {
                had + 1
            } else {
                f.rows.len()
            },
        }
    }
}

fn component(a: i128, b: i128, x: i128, d: i128) -> (r: u8)
    requires
        0 <= a <= 1000,
        0 <= b <= 1000,
        0 <= x <= d,
        1 <= d <= 0xffff_ffff_ffff_ffff_ffff,
    ensures
        r == between(a as int, b as int, x as int, d as int),
        0 <= between(a as int, b as int, x as int, d as int) <= 255,
{
    proof {
        between_is_inside(a as int, b as int, x as int, d as int);
        assert(0 <= a * d <= 1000 * 0xffff_ffff_ffff_ffff_ffff) by (nonlinear_arith)
            requires
                0 <= a <= 1000,
                1 <= d <= 0xffff_ffff_ffff_ffff_ffff,
        ;
        assert(-1000 * 0xffff_ffff_ffff_ffff_ffff <= (b - a) * x
            <= 1000 * 0xffff_ffff_ffff_ffff_ffff) by (nonlinear_arith)
            requires
                -1000 <= b - a <= 1000,
                0 <= x <= 0xffff_ffff_ffff_ffff_ffff,
        ;
    }
    let v: i128 = 255 * (a * d + (b - a) * x) / (1000 * d);
    v as u8
}

proof fn between_is_inside(a: int, b: int, x: int, d: int)
    requires
        0 <= a <= 1000,
        0 <= b <= 1000,
        0 <= x <= d,
        1 <= d,
    ensures
        0 <= a * d + (b - a) * x <= 1000 * d,
        0 <= between(a, b, x, d) <= 255,
{
    let n = a * d + (b - a) * x;
    assert(n == a * (d - x) + b * x) by (nonlinear_arith)
        requires
            n == a * d + (b - a) * x,
    ;
    assert(0 <= a * (d - x) <= 1000 * (d - x)) by (nonlinear_arith)
        requires
            0 <= a <= 1000,
            d - x >= 0,
    ;
    assert(0 <= b * x <= 1000 * x) by (nonlinear_arith)
        requires
            0 <= b <= 1000,
            x >= 0,
    ;
    vstd::arithmetic::div_mod::lemma_fundamental_div_mod(255 * n, 1000 * d);
    let q = 255 * n / (1000 * d);
    assert(q <= 255) by (nonlinear_arith)
        requires
            (1000 * d) * q <= 255 * n,
            n <= 1000 * d,
            d >= 1,
    ;
    assert(q >= 0) by (nonlinear_arith)
        requires
            255 * n < (1000 * d) * q + 1000 * d,
            n >= 0,
            d >= 1,
    ;
}

/// The colour at `num / den` of the ramp.
fn color_at(num: i128, den: i128) -> (r: Rgb)
    requires
        0 <= num <= den,
        1 <= den <= 0xffff_ffff_ffff_ffff,
    ensures
        r == color_spec(num as int, den as int),
{
    let t: i128 = num * 1000;
    if t <= 350 * den {
        let d: i128 = 350 * den;
        Rgb {
            r: component(31, 47, t, d),
            g: component(39, 125, t, d),
            b: component(51, 161, t, d),
        }
    } else if t <= 600 * den {
        let x: i128 = t - 350 * den;
        let d: i128 = 250 * den;
        Rgb {
            r: component(47, 78, x, d),
            g: component(125, 376, x, d),
            b: component(161, 486, x, d),
        }
    } else if t <= 780 * den {
        let x: i128 = t - 600 * den;
        let d: i128 = 180 * den;
        Rgb {
            r: component(78, 180, x, d),
            g: component(376, 612, x, d),
            b: component(486, 745, x, d),
        }
    } else if t <= 900 * den {
        let x: i128 = t - 780 * den;
        let d: i128 = 120 * den;
        Rgb {
            r: component(180, 941, x, d),
            g: component(612, 627, x, d),
            b: component(745, 188, x, d),
        }
    } else {
        let x: i128 = t - 900 * den;
        let d: i128 = 100 * den;
        Rgb {
            r: component(941, 1000, x, d),
            g: component(627, 965, x, d),
            b: component(188, 878, x, d),
        }
    }
}

/// Cold cyan for noise, hot amber for signal, white at the top.
///
/// Most bins in any span are noise, so the ramp stays dark well past the
/// middle. Brightness rises throughout, so features stay readable in greyscale.
pub fn colormap(t: Micro) -> (r: Rgb)
    ensures
        r == color_spec(clamp_spec(t@, 0, 1_000_000), 1_000_000),
{
    let c: Micro = t.clamp_to(Micro(0), Micro(1_000_000));
    color_at(c.0 as i128, 1_000_000)
}

/// The colour of a level in a display range.
fn level(v: Micro, floor: Micro, ceil: Micro) -> (r: Rgb)
    ensures
        r == level_color(v@, floor@, ceil@),
{
    let wide: i128 = ceil.0 as i128 - floor.0 as i128;
    let span: i128 = if wide < 1_000_000 {
        1_000_000
    } else {
        wide
    };
    let up: i128 = v.0 as i128 - floor.0 as i128;
    let num: i128 = if up < 0 {
        0
    } else if up > span {
        span
    } else {
        up
    };
    color_at(num, span)
}

/// Which slot of the ring holds row `y`, counted from the newest.
pub open spec fn slot(cursor: int, height: int, y: int) -> int {
    let s = cursor + height - 1 - y;
    if s >= height {
        s - height
    } else {
        s
    }
}

/// Scrolling waterfall.
pub struct Waterfall {
    width: usize,
    height: usize,
    /// Ring of rows, the newest before `cursor`.
    ring: Vec<Vec<Rgb>>,
    cursor: usize,
    filled: usize,
}

impl View for Waterfall {
    type V = Fall;

    closed spec fn view(&self) -> Fall {
        Fall {
            width: self.width as nat,
            rows: Seq::new(
                self.height as nat,
                |y: int| self.ring@[slot(self.cursor as int, self.height as int, y)]@,
            ),
            filled: self.filled as nat,
        }
    }
}

/// A black row.
fn blank(width: usize) -> (r: Vec<Rgb>)
    ensures
        r@ == black_row(width as nat),
{
    let mut v: Vec<Rgb> = Vec::new();
    let mut i: usize = 0;
    while i < width
        invariant
            i <= width,
            v@ == black_row(i as nat),
        decreases width - i,
    {
        v.push(Rgb { r: 0, g: 0, b: 0 });
        i += 1;
        assert(v@ =~= black_row(i as nat));
    }
    v
}

/// Nothing but black rows.
fn blank_ring(width: usize, height: usize) -> (r: Vec<Vec<Rgb>>)
    ensures
        r@.len() == height,
        forall|s: int| 0 <= s < height ==> (#[trigger] r@[s])@ == black_row(width as nat),
{
    let mut v: Vec<Vec<Rgb>> = Vec::new();
    let mut i: usize = 0;
    while i < height
        invariant
            i <= height,
            v@.len() == i,
            forall|s: int| 0 <= s < i ==> (#[trigger] v@[s])@ == black_row(width as nat),
        decreases height - i,
    {
        v.push(blank(width));
        i += 1;
    }
    v
}

/// A copy of a row.
fn copy_row(row: &Vec<Rgb>) -> (r: Vec<Rgb>)
    ensures
        r@ == row@,
{
    let mut v: Vec<Rgb> = Vec::new();
    let n: usize = row.len();
    let mut i: usize = 0;
    while i < n
        invariant
            n == row@.len(),
            i <= n,
            v@ == row@.take(i as int),
        decreases n - i,
    {
        v.push(row[i]);
        i += 1;
        assert(v@ =~= row@.take(i as int));
    }
    assert(row@.take(n as int) =~= row@);
    v
}

impl Waterfall {
    pub closed spec fn wf(&self) -> bool {
        &&& self.height >= 1
        &&& self.ring@.len() == self.height
        &&& self.cursor < self.height
        &&& self.filled <= self.height
        &&& self.height <= usize::MAX / 2
        &&& forall|s: int| 0 <= s < self.height ==> (#[trigger] self.ring@[s])@.len() == self.width
    }

    /// A waterfall of so many rows and no width yet.
    pub fn new(height: usize) -> (r: Waterfall)
        requires
            1 <= height <= usize::MAX / 2,
        ensures
            r.wf(),
            r@ == (Fall { width: 0, rows: dark(0, height as nat), filled: 0 }),
    {
        let r = Waterfall {
            width: 0,
            height,
            ring: blank_ring(0, height),
            cursor: 0,
            filled: 0,
        };
        assert(r@.rows =~= dark(0, height as nat));
        r
    }

    /// Rows of history.
    pub fn height(&self) -> (r: usize)
        requires
            self.wf(),
        ensures
            r == self@.rows.len(),
    {
        self.height
    }

    pub fn width(&self) -> (r: usize)
        ensures
            r == self@.width,
    {
        self.width
    }

    /// Rows that have been drawn.
    pub fn filled(&self) -> (r: usize)
        ensures
            r == self@.filled,
    {
        self.filled
    }

    /// Blacks everything out.
    pub fn clear(&mut self)
        requires
            old(self).wf(),
        ensures
            final(self).wf(),
            final(self)@ == (Fall {
                width: old(self)@.width,
                rows: dark(old(self)@.width, old(self)@.rows.len()),
                filled: 0,
            }),
    {
        self.ring = blank_ring(self.width, self.height);
        self.cursor = 0;
        self.filled = 0;
        assert(self@.rows =~= dark(old(self)@.width, old(self)@.rows.len()));
    }

    /// Adds one row, mapping levels through the display range. A row of another
    /// width starts the waterfall again.
    pub fn push(&mut self, db: &[Micro], floor: Micro, ceil: Micro)
        requires
            old(self).wf(),
        ensures
            final(self).wf(),
            final(self)@ == pushed(old(self)@, db@, floor@, ceil@),
    {
        let n: usize = db.len();
        if n == 0 {
            return;
        }
        if n != self.width {
            self.width = n;
            self.ring = blank_ring(n, self.height);
            self.cursor = 0;
            self.filled = 0;
            assert(self@.rows =~= dark(n as nat, self.height as nat));
        }
        let ghost before = *self;
        let mut row: Vec<Rgb> = Vec::new();
        let mut i: usize = 0;
        while i < n
            invariant
                n == db@.len(),
                i <= n,
                row@ == row_colors(db@, floor@, ceil@).take(i as int),
            decreases n - i,
        {
            row.push(level(db[i], floor, ceil));
            i += 1;
            assert(row@ =~= row_colors(db@, floor@, ceil@).take(i as int));
        }
        assert(row@ =~= row_colors(db@, floor@, ceil@));
        let at: usize = self.cursor;
        self.ring.set(at, row);
        self.cursor = if at + 1 == self.height {
            0
        } else {
            at + 1
        };
        if self.filled < self.height {
            self.filled = self.filled + 1;
        }
        proof {
            let h = self.height as int;
            let rows = seq![row_colors(db@, floor@, ceil@)] + before@.rows.drop_last();
            assert forall|y: int| 0 <= y < h implies self@.rows[y] == rows[y] by {
                if y > 0 {
                    assert(slot(self.cursor as int, h, y) == slot(at as int, h, y - 1));
                    assert(slot(at as int, h, y - 1) != at);
                }
            }
            assert(self@.rows =~= rows);
        }
    }

    /// The rows with the newest at the top, so that time runs downward. None
    /// before the first.
    pub fn image(&self) -> (r: Option<Vec<Vec<Rgb>>>)
        requires
            self.wf(),
        ensures
            match r {
                Some(img) => {
                    &&& self@.width > 0
                    &&& img@.len() == self@.rows.len()
                    &&& forall|y: int|
                        0 <= y < img@.len() ==> (#[trigger] img@[y])@ == self@.rows[y]
                },
                None => self@.width == 0,
            },
    {
        if self.width == 0 {
            return None;
        }
        let mut img: Vec<Vec<Rgb>> = Vec::new();
        let mut y: usize = 0;
        while y < self.height
            invariant
                self.wf(),
                y <= self.height,
                img@.len() == y,
                forall|k: int| 0 <= k < y ==> (#[trigger] img@[k])@ == self@.rows[k],
            decreases self.height - y,
        {
            // Walk backwards from the newest row.
            let s: usize = self.cursor + (self.height - 1 - y);
            let src: usize = if s >= self.height {
                s - self.height
            } else {
                s
            };
            img.push(copy_row(&self.ring[src]));
            y += 1;
        }
        Some(img)
    }

    /// Moves every row by `d` bins, so that what was to the right stands here.
    pub fn shift(&mut self, d: i32)
        requires
            old(self).wf(),
        ensures
            final(self).wf(),
            final(self)@.width == old(self)@.width,
            final(self)@.filled == old(self)@.filled,
            final(self)@.rows == Seq::new(
                old(self)@.rows.len(),
                |y: int| slid(old(self)@.rows[y], d as int),
            ),
    {
        let mut s: usize = 0;
        let h: usize = self.height;
        let ghost before = self.ring@;
        while s < h
            invariant
                s <= h,
                h == self.height,
                self.wf(),
                self.width == old(self).width,
                self.height == old(self).height,
                self.cursor == old(self).cursor,
                self.filled == old(self).filled,
                before == old(self).ring@,
                before.len() == h,
                forall|k: int| 0 <= k < h ==> (#[trigger] before[k])@.len() == self.width,
                forall|k: int| 0 <= k < s ==> (#[trigger] self.ring@[k])@ == slid(before[k]@, d as int),
                forall|k: int| s <= k < h ==> #[trigger] self.ring@[k] == before[k],
            decreases h - s,
        {
            let row: Vec<Rgb> = slide(&self.ring[s], d);
            assert(before[s as int]@.len() == self.width);
            self.ring.set(s, row);
            s += 1;
        }
        proof {
            let rows = Seq::new(
                old(self)@.rows.len(),
                |y: int| slid(old(self)@.rows[y], d as int),
            );
            assert(self@.rows =~= rows);
        }
    }

    /// Keeps so many rows of history, the newest ones.
    pub fn set_height(&mut self, height: usize)
        requires
            old(self).wf(),
            1 <= height <= usize::MAX / 2,
        ensures
            final(self).wf(),
            final(self)@.width == old(self)@.width,
            final(self)@.filled == (if old(self)@.filled < height {
                old(self)@.filled
            } else {
                height as nat
            }),
            final(self)@.rows == Seq::new(
                height as nat,
                |y: int|
                    if y < old(self)@.rows.len() {
                        old(self)@.rows[y]
                    } else {
                        black_row(old(self)@.width)
                    },
            ),
    {
        let mut ring: Vec<Vec<Rgb>> = Vec::new();
        let mut k: usize = 0;
        // Slot k holds row height - 1 - k, so that the newest is the last.
        while k < height
            invariant
                self.wf(),
                *self == *old(self),
                k <= height,
                height <= usize::MAX / 2,
                ring@.len() == k,
                forall|j: int|
                    0 <= j < k ==> (#[trigger] ring@[j])@ == (if height - 1 - j
                        < old(self)@.rows.len() {
                        old(self)@.rows[height - 1 - j]
                    } else {
                        black_row(old(self)@.width)
                    }),
                forall|j: int| 0 <= j < k ==> (#[trigger] ring@[j])@.len() == self.width,
            decreases height - k,
        {
            let y: usize = height - 1 - k;
            if y < self.height {
                let s: usize = self.cursor + (self.height - 1 - y);
                let src: usize = if s >= self.height {
                    s - self.height
                } else {
                    s
                };
                let row: Vec<Rgb> = copy_row(&self.ring[src]);
                assert(self.ring@[src as int]@.len() == self.width);
                assert(row@ == old(self)@.rows[y as int]);
                ring.push(row);
            } else {
                ring.push(blank(self.width));
            }
            k += 1;
        }
        self.ring = ring;
        self.height = height;
        self.cursor = 0;
        if self.filled > height {
            self.filled = height;
        }
        assert(self@.rows =~= Seq::new(
            height as nat,
            |y: int|
                if y < old(self)@.rows.len() {
                    old(self)@.rows[y]
                } else {
                    black_row(old(self)@.width)
                },
        ));
    }
}

/// A row moved so that what was `d` places to the right stands here.
fn slide(row: &Vec<Rgb>, d: i32) -> (r: Vec<Rgb>)
    ensures
        r@ == slid(row@, d as int),
{
    let n: usize = row.len();
    let mut v: Vec<Rgb> = Vec::new();
    let mut x: usize = 0;
    while x < n
        invariant
            n == row@.len(),
            x <= n,
            v@ == slid(row@, d as int).take(x as int),
        decreases n - x,
    {
        let from: i128 = x as i128 + d as i128;
        if 0 <= from && from < n as i128 {
            v.push(row[from as usize]);
        } else {
            v.push(Rgb { r: 0, g: 0, b: 0 });
        }
        x += 1;
        assert(v@ =~= slid(row@, d as int).take(x as int));
    }
    assert(v@ =~= slid(row@, d as int));
    v
}

/// Brightness of a colour, in ten thousandths.
pub open spec fn luma(c: Rgb) -> int {
    2126 * c.r + 7152 * c.g + 722 * c.b
}

/// Brightness between two turns before it is cut to whole components, times a
/// thousand times the length of the stretch.
spec fn exact_luma(i: int, x: int, d: int) -> int {
    let (a, b) = (stop_color(i), stop_color(i + 1));
    255 * (2126 * (a.0 * d + (b.0 - a.0) * x) + 7152 * (a.1 * d + (b.1 - a.1) * x) + 722 * (a.2 * d
        + (b.2 - a.2) * x))
}

/// Cutting components loses less than one of them.
proof fn cut_is_small(n: int, m: int)
    requires
        n >= 0,
        m >= 1,
    ensures
        n - m < m * (n / m) <= n,
{
    vstd::arithmetic::div_mod::lemma_fundamental_div_mod(n, m);
}

/// The brightness at a level lies within one step below the exact one.
proof fn luma_is_close(t: int, i: int, x: int, d: int)
    requires
        0 <= t <= 1_000_000,
        i == stretch(t, 1_000_000),
        x == t * 1000 - stop_at(i) * 1_000_000,
        d == (stop_at(i + 1) - stop_at(i)) * 1_000_000,
    ensures
        0 <= i <= 4,
        0 <= x <= d,
        exact_luma(i, x, d) - 10_000 * (1000 * d) <= 1000 * d * luma(color_spec(t, 1_000_000))
            <= exact_luma(i, x, d),
{
    let (a, b) = (stop_color(i), stop_color(i + 1));
    between_is_inside(a.0, b.0, x, d);
    between_is_inside(a.1, b.1, x, d);
    between_is_inside(a.2, b.2, x, d);
    let m = 1000 * d;
    let (r, g, u) = (between(a.0, b.0, x, d), between(a.1, b.1, x, d), between(a.2, b.2, x, d));
    cut_is_small(255 * (a.0 * d + (b.0 - a.0) * x), m);
    cut_is_small(255 * (a.1 * d + (b.1 - a.1) * x), m);
    cut_is_small(255 * (a.2 * d + (b.2 - a.2) * x), m);
    let l = luma(color_spec(t, 1_000_000));
    assert(l == 2126 * r + 7152 * g + 722 * u);
    assert(m * l == 2126 * (m * r) + 7152 * (m * g) + 722 * (m * u)) by (nonlinear_arith)
        requires
            l == 2126 * r + 7152 * g + 722 * u,
    ;
}

/// Brightness at a turn of the ramp.
spec fn turn(k: int) -> int {
    255 * (2126 * stop_color(k).0 + 7152 * stop_color(k).1 + 722 * stop_color(k).2)
}

/// The exact brightness rises along each stretch, from one turn to the next.
proof fn exact_luma_rises(i: int, x: int, y: int, d: int)
    requires
        0 <= i <= 4,
        0 <= x <= y <= d,
    ensures
        exact_luma(i, x, d) <= exact_luma(i, y, d),
        turn(i) * d <= exact_luma(i, x, d),
        exact_luma(i, y, d) <= turn(i + 1) * d,
{
    let (p, q) = (turn(i), turn(i + 1));
    exact_luma_is_linear(i, x, d);
    exact_luma_is_linear(i, y, d);
    assert(p <= q);
    assert(0 <= (q - p) * x <= (q - p) * y <= (q - p) * d) by (nonlinear_arith)
        requires
            p <= q,
            0 <= x <= y <= d,
    ;
    assert((q - p) * d == q * d - p * d) by (nonlinear_arith);
}

/// Between two turns the exact brightness is linear.
proof fn exact_luma_is_linear(i: int, x: int, d: int)
    ensures
        exact_luma(i, x, d) == turn(i) * d + (turn(i + 1) - turn(i)) * x,
{
    let (a, b) = (stop_color(i), stop_color(i + 1));
    let (a0, a1, a2) = (a.0, a.1, a.2);
    let (b0, b1, b2) = (b.0, b.1, b.2);
    assert(255 * (2126 * (a0 * d + (b0 - a0) * x) + 7152 * (a1 * d + (b1 - a1) * x) + 722 * (a2 * d
        + (b2 - a2) * x)) == (255 * (2126 * a0 + 7152 * a1 + 722 * a2)) * d + (255 * (2126 * b0
        + 7152 * b1 + 722 * b2) - 255 * (2126 * a0 + 7152 * a1 + 722 * a2)) * x)
        by (nonlinear_arith);
}

/// Turns further along are brighter.
proof fn turns_brighten(i: int, j: int)
    requires
        0 <= i <= j <= 5,
    ensures
        turn(i) <= turn(j),
    decreases j - i,
{
    if i < j {
        turns_brighten(i + 1, j);
        exact_luma_rises(i, 0, 1, 1);
    }
}

/// Brightness rises along the ramp: a stronger level is never darker than a
/// weaker one by more than one step of brightness.
pub proof fn the_colormap_brightens(s: int, t: int)
    requires
        0 <= s <= t <= 1_000_000,
    ensures
        luma(color_spec(t, 1_000_000)) >= luma(color_spec(s, 1_000_000)) - 10_000,
{
    let i = stretch(s, 1_000_000);
    let j = stretch(t, 1_000_000);
    let x = s * 1000 - stop_at(i) * 1_000_000;
    let d = (stop_at(i + 1) - stop_at(i)) * 1_000_000;
    let y = t * 1000 - stop_at(j) * 1_000_000;
    let e = (stop_at(j + 1) - stop_at(j)) * 1_000_000;
    luma_is_close(s, i, x, d);
    luma_is_close(t, j, y, e);
    brightness_order(
        i,
        j,
        x,
        y,
        d,
        e,
        luma(color_spec(s, 1_000_000)),
        luma(color_spec(t, 1_000_000)),
    );
}

/// Brightnesses within a step below the exact ones are in their order but for a
/// step.
proof fn brightness_order(i: int, j: int, x: int, y: int, d: int, e: int, p: int, q: int)
    requires
        0 <= i <= j <= 4,
        0 <= x <= d,
        0 <= y <= e,
        d >= 1,
        e >= 1,
        i == j ==> x <= y && d == e,
        1000 * d * p <= exact_luma(i, x, d),
        exact_luma(j, y, e) - 10_000 * (1000 * e) <= 1000 * e * q,
    ensures
        q >= p - 10_000,
{
    if i == j {
        exact_luma_rises(i, x, y, d);
        assert(q >= p - 10_000) by (nonlinear_arith)
            requires
                1000 * d * q >= 1000 * d * p - 10_000 * (1000 * d),
                d >= 1,
        ;
    } else {
        exact_luma_rises(i, x, x, d);
        exact_luma_rises(j, y, y, e);
        turns_brighten(i + 1, j);
        let (a, b) = (turn(i + 1), turn(j));
        assert(1000 * p <= a) by (nonlinear_arith)
            requires
                1000 * d * p <= a * d,
                d >= 1,
        ;
        assert(1000 * q >= b - 10_000 * 1000) by (nonlinear_arith)
            requires
                b * e - 10_000 * (1000 * e) <= 1000 * e * q,
                e >= 1,
        ;
    }
}

/// Adding a row moves the others down by one and drops the oldest, and never
/// makes the waterfall higher.
pub proof fn the_ring_wraps_without_growing(f: Fall, db: Seq<Micro>, floor: int, ceil: int)
    requires
        f.rows.len() >= 1,
        db.len() == f.width,
        db.len() > 0,
    ensures
        ({
            let g = pushed(f, db, floor, ceil);
            &&& g.rows.len() == f.rows.len()
            &&& g.rows[0] == row_colors(db, floor, ceil)
            &&& forall|y: int| 1 <= y < g.rows.len() ==> #[trigger] g.rows[y] == f.rows[y - 1]
            &&& g.filled <= g.rows.len()
        }),
{
}

} // verus!
