//! Discrete mouse-wheel notches.
//!
//! A stepped control wants whole notches. Partial ones from a trackpad are
//! kept until they make a whole one, instead of being rounded away.

use vstd::prelude::*;
use crate::fixed::{nearest_signed, Micro};
#[allow(unused_imports)]
use crate::fixed::{clamp_spec, nearest_signed_spec, trunc_spec};

verus! {

/// Points of scroll that one notch is where points are reported.
pub const POINTS_PER_NOTCH: i64 = 50;

/// What a scroll is counted in.
#[derive(Clone, Copy, Debug, PartialEq, Eq, Structural)]
pub enum WheelUnit {
    Line,
    Point,
    Page,
}

/// A scroll in notches.
pub open spec fn notches_of(unit: WheelUnit, delta: int) -> int {
    match unit {
        WheelUnit::Line => delta,
        WheelUnit::Point => nearest_signed_spec(delta, 50),
        WheelUnit::Page => delta * 8,
    }
}

/// Scrolls added up in notches.
pub open spec fn scrolled(events: Seq<(WheelUnit, Micro)>) -> int
    decreases events.len(),
{
    if events.len() == 0 {
        0
    } else {
        scrolled(events.drop_last()) + notches_of(events.last().0, events.last().1@)
    }
}

/// Accumulated scroll.
#[derive(Clone, Copy, Debug, PartialEq, Eq, Structural)]
pub struct Wheel {
    pub acc: Micro,
}

/// Whole notches in so many millionths of one.
pub open spec fn whole_notches(total: int) -> int {
    trunc_spec(total)
}

impl Default for Wheel {
    fn default() -> (r: Wheel)
        ensures
            r.wf(),
            r.acc@ == 0,
    {
        Wheel { acc: Micro(0) }
    }
}

impl Wheel {
    /// Less than a notch is kept.
    pub open spec fn wf(&self) -> bool {
        -1_000_000 < self.acc@ < 1_000_000
    }

    fn step(&mut self, raw: i128) -> (r: i32)
        requires
            old(self).wf(),
            -0x1000_0000_0000_0000_0000_0000_0000 <= raw <= 0x1000_0000_0000_0000_0000_0000_0000,
        ensures
            final(self).wf(),
            r == clamp_spec(
                whole_notches(old(self).acc@ + raw),
                i32::MIN as int,
                i32::MAX as int,
            ),
            final(self).acc@ == old(self).acc@ + raw - whole_notches(old(self).acc@ + raw)
                * 1_000_000,
    {
        let total: i128 = self.acc.0 as i128 + raw;
        let whole: i128 = if total >= 0 {
            total / 1_000_000
        } else {
            -((-total) / 1_000_000)
        };
        self.acc = Micro((total - whole * 1_000_000) as i64);
        if whole > i32::MAX as i128 {
            i32::MAX
        } else if whole < i32::MIN as i128 {
            i32::MIN
        } else {
            whole as i32
        }
    }

    /// Adds a scroll and gives the whole notches it completes.
    pub fn add(&mut self, raw: Micro) -> (r: i32)
        requires
            old(self).wf(),
        ensures
            final(self).wf(),
            r == clamp_spec(
                whole_notches(old(self).acc@ + raw@),
                i32::MIN as int,
                i32::MAX as int,
            ),
            final(self).acc@ == old(self).acc@ + raw@ - whole_notches(old(self).acc@ + raw@)
                * 1_000_000,
    {
        self.step(raw.0 as i128)
    }

    /// Whole notches of the scrolls since the last call. Positive is up.
    pub fn notches(&mut self, events: &[(WheelUnit, Micro)]) -> (r: i32)
        requires
            old(self).wf(),
            events@.len() <= u32::MAX,
        ensures
            final(self).wf(),
            r == clamp_spec(
                whole_notches(old(self).acc@ + scrolled(events@)),
                i32::MIN as int,
                i32::MAX as int,
            ),
            final(self).acc@ == old(self).acc@ + scrolled(events@) - whole_notches(
                old(self).acc@ + scrolled(events@),
            ) * 1_000_000,
    {
        let n: usize = events.len();
        let mut sum: i128 = 0;
        let mut i: usize = 0;
        while i < n
            invariant
                n == events@.len(),
                n <= u32::MAX,
                i <= n,
                sum == scrolled(events@.take(i as int)),
                -0x4_0000_0000_0000_0000 * i <= sum <= 0x4_0000_0000_0000_0000 * i,
            decreases n - i,
        {
            let (unit, delta) = events[i];
            proof {
                assert(events@.take(i + 1).drop_last() =~= events@.take(i as int));
                assert(events@.take(i + 1).last() == events@[i as int]);
                points_are_fewer(delta@);
            }
            let d: i128 = match unit {
                WheelUnit::Line => delta.0 as i128,
                WheelUnit::Point => nearest_signed(delta.0 as i128, POINTS_PER_NOTCH as u128),
                WheelUnit::Page => delta.0 as i128 * 8,
            };
            assert(-0x4_0000_0000_0000_0000 * (i + 1) <= sum + d <= 0x4_0000_0000_0000_0000 * (i
                + 1));
            sum = sum + d;
            i += 1;
        }
        assert(events@.take(n as int) =~= events@);
        self.step(sum)
    }
}

proof fn points_are_fewer(delta: int)
    requires
        i64::MIN <= delta <= i64::MAX,
    ensures
        i64::MIN <= nearest_signed_spec(delta, 50) <= i64::MAX,
{
    let a = if delta < 0 {
        -delta
    } else {
        delta
    };
    assert(nearest_signed_spec(a, 50) == (2 * a + 50) / 100);
}

/// No scroll is lost: the notches given and the part kept add up to what was
/// scrolled, less than a notch is kept, and it points the way of the rest.
pub proof fn scrolling_is_conserved(acc: int, raw: int)
    ensures
        ({
            let total = acc + raw;
            let kept = total - whole_notches(total) * 1_000_000;
            &&& whole_notches(total) * 1_000_000 + kept == acc + raw
            &&& -1_000_000 < kept < 1_000_000
            &&& total >= 0 ==> kept >= 0 && whole_notches(total) >= 0
            &&& total <= 0 ==> kept <= 0 && whole_notches(total) <= 0
        }),
{
}

/// A turn of the wheel that completes no notch is undone by turning it back.
pub proof fn turning_back_undoes_a_turn(acc: int, raw: int)
    requires
        -1_000_000 < acc < 1_000_000,
        whole_notches(acc + raw) == 0,
    ensures
        whole_notches((acc + raw) + (-raw)) == 0,
        (acc + raw) + (-raw) == acc,
{
}

} // verus!
