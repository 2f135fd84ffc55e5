//! What a run without a window reports.

use vstd::prelude::*;
use crate::fixed::{nearest_signed, Micro};
#[allow(unused_imports)]
use crate::fixed::nearest_signed_spec;
use crate::front::ui::Frame;
#[allow(unused_imports)]
use crate::front::ui::{finite, numbers, showable};
use crate::sort::sort;
#[allow(unused_imports)]
use crate::sort::{ordered, orders};
use crate::text::{push_nat, push_signed_ratio};
#[allow(unused_imports)]
use crate::text::{digits, signed_ratio_text};

verus! {

/// What is read off one spectrum.
#[derive(Clone, Copy, Debug, PartialEq, Eq, Structural)]
pub struct Reading {
    pub peak: Micro,
    /// Frequency of the bin of the peak.
    pub hz: i128,
    pub median: Micro,
}

/// The first of the strongest of the first `n` levels, the first of all where
/// none is stronger than the least number.
pub open spec fn peak_at(db: Seq<Micro>, n: int) -> int
    decreases n,
{
    if n <= 0 {
        0
    } else {
        let i = peak_at(db, n - 1);
        if db[n - 1]@ > peak_of(db, n - 1) {
            n - 1
        } else {
            i
        }
    }
}

/// The strongest of the first `n` levels.
pub open spec fn peak_of(db: Seq<Micro>, n: int) -> int
    decreases n,
{
    if n <= 0 {
        i64::MIN as int
    } else if db[n - 1]@ > peak_of(db, n - 1) {
        db[n - 1]@
    } else {
        peak_of(db, n - 1)
    }
}

/// What is read off a spectrum, if any of its levels is a number.
pub open spec fn read(f: Frame) -> Option<Reading> {
    let n = f.db@.len() as int;
    let v = ordered(numbers(f.db@));
    if v.len() == 0 {
        None
    } else {
        Some(
            Reading {
                peak: Micro(peak_of(f.db@, n) as i64),
                hz: nearest_signed_spec(
                    (2 * f.center@ - f.rate@) * n + 2 * peak_at(f.db@, n) * f.rate@,
                    (2 * n) as nat,
                ) as i128,
                median: Micro(v[v.len() as int / 2]),
            },
        )
    }
}

/// Reads the peak and the median off a spectrum. None if no level of it is a
/// number, where there is no median.
pub fn reading(f: &Frame) -> (r: Option<Reading>)
    requires
        showable(*f),
    ensures
        r == read(*f),
{
    let n: usize = f.db.len();
    let mut v: Vec<i64> = Vec::new();
    let mut peak: i64 = i64::MIN;
    let mut at: usize = 0;
    let mut i: usize = 0;
    assert(f.db@.take(0) =~= Seq::empty());
    while i < n
        invariant
            n == f.db@.len(),
            i <= n,
            at <= i,
            v@ == numbers(f.db@.take(i as int)),
            peak == peak_of(f.db@, i as int),
            at == peak_at(f.db@, i as int),
        decreases n - i,
    {
        proof {
            assert(f.db@.take(i + 1).drop_last() =~= f.db@.take(i as int));
            assert(f.db@.take(i + 1).last() == f.db@[i as int]);
        }
        let x: i64 = f.db[i].0;
        if x != i64::MIN && x != i64::MAX {
            v.push(x);
        }
        if x > peak {
            peak = x;
            at = i;
        }
        i += 1;
    }
    assert(f.db@.take(n as int) =~= f.db@);
    let s: Vec<i64> = sort(&v);
    if s.len() == 0 {
        return None;
    }
    assert(n > 0) by {
        broadcast use vstd::multiset::group_multiset_axioms;

        if n == 0 {
            assert(v@ =~= Seq::empty());
            s@.to_multiset_ensures();
            v@.to_multiset_ensures();
        }
    }
    let m: i128 = n as i128;
    let rate: i128 = f.rate.0 as i128;
    let k: i128 = at as i128;
    let twice: i128 = 2 * f.center.0 as i128 - rate;
    assert(-800_000_000_000_000_000 * 0xffff_ffff <= twice * m <= 800_000_000_000_000_000
        * 0xffff_ffff) by (nonlinear_arith)
        requires
            -800_000_000_000_000_000 <= twice <= 800_000_000_000_000_000,
            0 <= m <= 0xffff_ffff,
    ;
    assert(0 <= 2 * k * rate <= 2 * 0xffff_ffff * 400_000_000_000_000_000) by (nonlinear_arith)
        requires
            0 <= k <= 0xffff_ffff,
            0 <= rate <= 400_000_000_000_000_000,
    ;
    let hz: i128 = nearest_signed(twice * m + 2 * k * rate, (2 * m) as u128);
    Some(Reading { peak: Micro(peak), hz, median: Micro(s[s.len() / 2]) })
}

/// Text with spaces before it, so that it is `width` long at least.
pub open spec fn right(t: Seq<char>, width: nat) -> Seq<char> {
    if t.len() >= width {
        t
    } else {
        Seq::new((width - t.len()) as nat, |i: int| ' ') + t
    }
}

/// Appends text, flush right in `width` columns.
fn push_right(s: &mut String, t: &str, width: usize)
    ensures
        final(s)@ == old(s)@ + right(t@, width as nat),
{
    let n: usize = t.unicode_len();
    let short: usize = if n < width {
        width - n
    } else {
        0
    };
    let mut i: usize = 0;
    proof {
        reveal_strlit(" ");
    }
    assert(s@ =~= old(s)@ + Seq::new(0, |i: int| ' '));
    while i < short
        invariant
            i <= short,
            " "@ == seq![' '],
            s@ == old(s)@ + Seq::new(i as nat, |i: int| ' '),
        decreases short - i,
    {
        s.append(" ");
        i += 1;
        assert(s@ =~= old(s)@ + Seq::new(i as nat, |i: int| ' '));
    }
    s.append(t);
    assert(s@ =~= old(s)@ + right(t@, width as nat));
}

/// Appends a decibel figure with one place, flush right.
fn push_db(s: &mut String, v: i128, width: usize)
    requires
        -0x1_ffff_ffff_ffff_ffff <= v <= 0x1_ffff_ffff_ffff_ffff,
    ensures
        final(s)@ == old(s)@ + right(signed_ratio_text(v as int, 1_000_000, 1), width as nat),
{
    let mut t: String = String::new();
    push_signed_ratio(&mut t, v, 1_000_000, 1);
    assert(t@ =~= signed_ratio_text(v as int, 1_000_000, 1));
    push_right(s, t.as_str(), width);
}

/// One line of the report.
pub open spec fn line_text(n: nat, r: Reading) -> Seq<char> {
    "frame "@ + right(digits(n), 3) + "  peak "@ + right(
        signed_ratio_text(r.peak@, 1_000_000, 1),
        6,
    ) + " dBFS at "@ + right(signed_ratio_text(r.hz as int, 1_000_000_000_000, 4), 9)
        + " MHz  floor "@ + right(signed_ratio_text(r.median@, 1_000_000, 1), 6) + "  peak-floor "@
        + right(signed_ratio_text(r.peak@ - r.median@, 1_000_000, 1), 5) + " dB"@
}

/// One line of the report: what was read off frame `n`.
pub fn report_line(n: u64, r: &Reading) -> (s: String)
    requires
        -1_000_000_000_000_000_000_000 <= r.hz <= 1_000_000_000_000_000_000_000,
    ensures
        s@ == line_text(n as nat, *r),
{
    let mut s: String = "frame ".to_owned();
    let mut t: String = String::new();
    push_nat(&mut t, n as u128);
    assert(t@ =~= digits(n as nat));
    push_right(&mut s, t.as_str(), 3);
    s.append("  peak ");
    push_db(&mut s, r.peak.0 as i128, 6);
    s.append(" dBFS at ");
    let mut m: String = String::new();
    push_signed_ratio(&mut m, r.hz, 1_000_000_000_000, 4);
    assert(m@ =~= signed_ratio_text(r.hz as int, 1_000_000_000_000, 4));
    push_right(&mut s, m.as_str(), 9);
    s.append(" MHz  floor ");
    push_db(&mut s, r.median.0 as i128, 6);
    s.append("  peak-floor ");
    push_db(&mut s, r.peak.0 as i128 - r.median.0 as i128, 5);
    s.append(" dB");
    assert(s@ =~= line_text(n as nat, *r));
    s
}

/// Whether a frame is reported: every twentieth is.
pub fn is_reported(n: u64) -> (r: bool)
    ensures
        r == (n % 20 == 0),
{
    n % 20 == 0
}

proof fn peak_bounds(db: Seq<Micro>, n: int)
    requires
        0 <= n <= db.len(),
    ensures
        forall|i: int| 0 <= i < n ==> (#[trigger] db[i])@ <= peak_of(db, n),
        0 <= peak_at(db, n) <= n,
        peak_of(db, n) > i64::MIN ==> peak_at(db, n) < n && db[peak_at(db, n)]@ == peak_of(db, n),
        forall|i: int| 0 <= i < peak_at(db, n) ==> (#[trigger] db[i])@ < peak_of(db, n),
    decreases n,
{
    if n > 0 {
        peak_bounds(db, n - 1);
    }
}

/// No level is stronger than the peak, none before it is as strong, and it is
/// the level of its bin.
pub proof fn the_peak_is_the_first_strongest(db: Seq<Micro>, i: int)
    requires
        0 <= i < db.len(),
    ensures
        db[i]@ <= peak_of(db, db.len() as int),
        i < peak_at(db, db.len() as int) ==> db[i]@ < peak_of(db, db.len() as int),
        peak_at(db, db.len() as int) < db.len() ==> db[peak_at(db, db.len() as int)]@ == peak_of(
            db,
            db.len() as int,
        ),
{
    let n = db.len() as int;
    peak_bounds(db, n);
    if peak_of(db, n) == i64::MIN {
        let k = peak_at(db, n);
        if k < n {
            assert(db[k]@ <= peak_of(db, n));
        }
    }
}

} // verus!
