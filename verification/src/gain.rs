//! Splitting one gain figure across three stages.
//!
//! The front end has an amplifier that is on or off, a low-noise amplifier and
//! a baseband amplifier. Decibels are in millionths where a request is meant,
//! and whole where a stage is set.

use vstd::prelude::*;
use crate::fixed::{nearest, Micro};
#[allow(unused_imports)]
use crate::fixed::{clamp_spec, nearest_bounds, nearest_spec};

verus! {

/// Front-end amp contribution when switched in, in dB.
pub const AMP_DB: u32 = 14;

/// Total gain available across all three stages, in dB.
pub const MAX_DB: u32 = 116;

/// The low-noise amplifier setting nearest `num / den` dB: up to 40 dB in steps
/// of 8.
pub open spec fn lna_spec(num: int, den: int) -> int {
    8 * (nearest_spec(clamp_spec(num, 0, 40 * den) as nat, (8 * den) as nat) as int)
}

/// The baseband amplifier setting nearest `num / den` dB: up to 62 dB in steps
/// of 2.
pub open spec fn vga_spec(num: int, den: int) -> int {
    2 * (nearest_spec(clamp_spec(num, 0, 62 * den) as nat, (2 * den) as nat) as int)
}

/// What is left for the last two stages of a request, in millionths of a dB.
pub open spec fn left_spec(total: int) -> int {
    let t = clamp_spec(total, 0, 116_000_000);
    if t > 102_000_000 {
        t - 14_000_000
    } else {
        t
    }
}

/// How a request is shared out: whether the amp is on, and the gain of the
/// other two stages.
pub open spec fn distribute_spec(total: int) -> (bool, int, int) {
    let amp = clamp_spec(total, 0, 116_000_000) > 102_000_000;
    let left = left_spec(total);
    let lna = lna_spec(left * 55, 100_000_000);
    if left - lna * 1_000_000 > 62_000_000 {
        (amp, lna_spec(left - 62_000_000, 1_000_000), 62)
    } else {
        (amp, lna, vga_spec(left - lna * 1_000_000, 1_000_000))
    }
}

/// The gain that a request delivers, in dB.
pub open spec fn achieved(total: int) -> int {
    let (amp, lna, vga) = distribute_spec(total);
    lna + vga + if amp {
        14int
    } else {
        0
    }
}

/// Nearest setting in steps of `step`, at most `most`, to `num / den` dB.
fn quantise(num: i128, den: i128, step: i128, most: i128) -> (r: u32)
    requires
        1 <= den <= 100_000_000,
        1 <= step <= 8,
        0 <= most <= 62,
        -0xffff_ffff_ffff_ffff_ffff <= num <= 0xffff_ffff_ffff_ffff_ffff,
    ensures
        r == step * nearest_spec(clamp_spec(num as int, 0, most * den) as nat, (step * den) as nat),
{
    proof {
        assert(0 <= most * den <= 62 * 100_000_000) by (nonlinear_arith)
            requires
                0 <= most <= 62,
                1 <= den <= 100_000_000,
        ;
        assert(1 <= step * den <= 8 * 100_000_000) by (nonlinear_arith)
            requires
                1 <= step <= 8,
                1 <= den <= 100_000_000,
        ;
    }
    let top: i128 = most * den;
    let v: i128 = if num < 0 {
        0
    } else if num > top {
        top
    } else {
        num
    };
    let d: i128 = step * den;
    let q: u128 = nearest(v as u128, d as u128);
    proof {
        let (n, m) = (v as int, d as int);
        nearest_bounds(n as nat, m as nat);
        assert(den * (2 * (step * q)) <= den * (2 * most + step)) by (nonlinear_arith)
            requires
                (2 * m) * q <= 2 * n + m,
                m == step * den,
                n <= most * den,
        ;
        assert(2 * (step * q) <= 2 * most + step) by (nonlinear_arith)
            requires
                den * (2 * (step * q)) <= den * (2 * most + step),
                den >= 1,
        ;
        assert(q * step == step * q) by (nonlinear_arith);
    }
    (q * step as u128) as u32
}

/// Low-noise amplifier gain is 0 to 40 dB in 8 dB steps.
pub fn quantise_lna(db: Micro) -> (r: u32)
    ensures
        r == lna_spec(db@, 1_000_000),
{
    quantise(db.0 as i128, 1_000_000, 8, 40)
}

/// Baseband gain is 0 to 62 dB in 2 dB steps.
pub fn quantise_vga(db: Micro) -> (r: u32)
    ensures
        r == vga_spec(db@, 1_000_000),
{
    quantise(db.0 as i128, 1_000_000, 2, 62)
}

proof fn stages_in_range(num: int, den: int)
    requires
        1 <= den,
    ensures
        0 <= lna_spec(num, den) <= 40,
        0 <= vga_spec(num, den) <= 62,
        lna_spec(num, den) % 8 == 0,
        vga_spec(num, den) % 2 == 0,
        lna_spec(num, den) >= 8 ==> 2 * num >= (2 * lna_spec(num, den) - 8) * den,
        lna_spec(num, den) < 40 ==> 2 * num < (2 * lna_spec(num, den) + 8) * den,
        vga_spec(num, den) >= 2 ==> 2 * num >= (2 * vga_spec(num, den) - 2) * den,
        vga_spec(num, den) < 62 ==> 2 * num < (2 * vga_spec(num, den) + 2) * den,
{
    step_facts(num, den, 8, 5);
    step_facts(num, den, 2, 31);
    let l = nearest_spec(clamp_spec(num, 0, 40 * den) as nat, (8 * den) as nat) as int;
    let v = nearest_spec(clamp_spec(num, 0, 62 * den) as nat, (2 * den) as nat) as int;
    assert((2 * (8 * l) - 8) * den == 8 * ((2 * l - 1) * den)) by (nonlinear_arith);
    assert((2 * (8 * l) + 8) * den == 8 * ((2 * l + 1) * den)) by (nonlinear_arith);
    assert((2 * (2 * v) - 2) * den == 2 * ((2 * v - 1) * den)) by (nonlinear_arith);
    assert((2 * (2 * v) + 2) * den == 2 * ((2 * v + 1) * den)) by (nonlinear_arith);
}

/// Rounding to one of `top` steps of `step` is off by half a step at most.
proof fn step_facts(num: int, den: int, step: int, top: int)
    requires
        1 <= den,
        1 <= step,
        1 <= top,
    ensures
        ({
            let q = nearest_spec(
                clamp_spec(num, 0, (top * step) * den) as nat,
                (step * den) as nat,
            ) as int;
            &&& 0 <= q <= top
            &&& q >= 1 ==> 2 * num >= step * ((2 * q - 1) * den)
            &&& q < top ==> 2 * num < step * ((2 * q + 1) * den)
        }),
{
    let most = (top * step) * den;
    assert(most >= 0) by (nonlinear_arith)
        requires
            most == (top * step) * den,
            top >= 1,
            step >= 1,
            den >= 1,
    ;
    let n = clamp_spec(num, 0, most);
    let m = step * den;
    assert(m >= 1) by (nonlinear_arith)
        requires
            m == step * den,
            step >= 1,
            den >= 1,
    ;
    let q = nearest_spec(n as nat, m as nat) as int;
    nearest_bounds(n as nat, m as nat);
    let r = 2 * n + m - (2 * m) * q;
    assert(2 * n + m == (2 * m) * q + r);
    assert(most == top * m) by (nonlinear_arith)
        requires
            most == (top * step) * den,
            m == step * den,
    ;
    assert(q <= top) by (nonlinear_arith)
        requires
            2 * n + m == (2 * m) * q + r,
            n <= top * m,
            m >= 1,
            r >= 0,
    ;
    assert(step * ((2 * q - 1) * den) == (2 * q - 1) * m) by (nonlinear_arith)
        requires
            m == step * den,
    ;
    assert(step * ((2 * q + 1) * den) == (2 * q + 1) * m) by (nonlinear_arith)
        requires
            m == step * den,
    ;
    assert((2 * q - 1) * m == (2 * m) * q - m) by (nonlinear_arith);
    assert((2 * q + 1) * m == (2 * m) * q + m) by (nonlinear_arith);
    if q >= 1 && num < 0 {
        assert(false) by (nonlinear_arith)
            requires
                m == (2 * m) * q + r,
                q >= 1,
                r >= 0,
                m >= 1,
        ;
    }
    if q < top && num > most {
        assert(false) by (nonlinear_arith)
            requires
                2 * (top * m) + m == (2 * m) * q + r,
                q < top,
                r < 2 * m,
                m >= 1,
        ;
    }
}

/// Distributes a requested total across the three stages.
///
/// Gain is shared rather than filling one stage first: the low-noise amplifier
/// sets the noise figure, the baseband amplifier drives the converter, and a
/// converter left starved delivers far less than the same total shared. The
/// front-end amp stays off until the other two are exhausted.
pub fn distribute(total_db: Micro) -> (r: (bool, u32, u32))
    ensures
        (r.0, r.1 as int, r.2 as int) == distribute_spec(total_db@),
{
    let t: i64 = total_db.clamp_to(Micro(0), Micro(116_000_000)).0;
    let amp: bool = t > 102_000_000;
    let left: i64 = if amp {
        t - 14_000_000
    } else {
        t
    };
    let lna: u32 = quantise(left as i128 * 55, 100_000_000, 8, 40);
    proof {
        stages_in_range(left * 55, 100_000_000);
    }
    let rest: i64 = left - lna as i64 * 1_000_000;
    // Past the baseband ceiling the remainder has nowhere else to go.
    if rest > 62_000_000 {
        (amp, quantise_lna(Micro(left - 62_000_000)), 62)
    } else {
        (amp, lna, quantise_vga(Micro(rest)))
    }
}

/// Every request lands on settings that the hardware has.
pub proof fn gains_land_on_the_steps(total: int)
    ensures
        distribute_spec(total).1 % 8 == 0,
        distribute_spec(total).2 % 2 == 0,
        0 <= distribute_spec(total).1 <= 40,
        0 <= distribute_spec(total).2 <= 62,
{
    let left = left_spec(total);
    let lna = lna_spec(left * 55, 100_000_000);
    stages_in_range(left * 55, 100_000_000);
    stages_in_range(left - 62_000_000, 1_000_000);
    stages_in_range(left - lna * 1_000_000, 1_000_000);
}

/// What is delivered is the even number of decibels nearest the request, as far
/// as there is gain.
pub proof fn the_nearest_even_gain_is_delivered(total: int)
    ensures
        achieved(total) == 2 * ((clamp_spec(total, 0, 116_000_000) + 1_000_000) / 2_000_000),
{
    let left = left_spec(total);
    let lna = lna_spec(left * 55, 100_000_000);
    let rest = left - lna * 1_000_000;
    stages_in_range(left * 55, 100_000_000);
    // The first stage takes its share, so the second is never asked too much.
    assert(rest <= 62_000_000);
    stages_in_range(rest, 1_000_000);
    let k = lna / 2;
    assert(lna == 2 * k);
    if rest >= 0 {
        assert((2 * rest + 2_000_000) / 4_000_000 + k == (left + 1_000_000) / 2_000_000);
    }
}

/// A request between nothing and the most there is is met within half of the
/// finest step.
pub proof fn requests_are_tracked(total: int)
    requires
        0 <= total <= 116_000_000,
    ensures
        -1_000_000 <= achieved(total) * 1_000_000 - total <= 1_000_000,
{
    the_nearest_even_gain_is_delivered(total);
}

/// A request outside that range is met as its nearer end is.
pub proof fn requests_out_of_range_clamp(total: int)
    ensures
        total <= 0 ==> distribute_spec(total) == (false, 0int, 0int),
        total >= 116_000_000 ==> distribute_spec(total) == (true, 40int, 62int),
{
    let left = left_spec(total);
    let lna = lna_spec(left * 55, 100_000_000);
    stages_in_range(left * 55, 100_000_000);
    stages_in_range(left - lna * 1_000_000, 1_000_000);
}

/// Asking for more never delivers less.
pub proof fn more_requested_is_not_less_delivered(a: int, b: int)
    requires
        a <= b,
    ensures
        achieved(b) >= achieved(a),
{
    the_nearest_even_gain_is_delivered(a);
    the_nearest_even_gain_is_delivered(b);
}

/// The amp is on only for requests that the other two stages cannot meet.
pub proof fn quiet_stages_come_before_the_amp(total: int)
    ensures
        distribute_spec(total).0 == (total > 102_000_000),
{
}

/// From 30 dB up both of the other stages contribute.
pub proof fn gain_is_shared(total: int)
    requires
        total >= 30_000_000,
    ensures
        distribute_spec(total).1 > 0,
        distribute_spec(total).2 > 0,
{
    let left = left_spec(total);
    let lna = lna_spec(left * 55, 100_000_000);
    stages_in_range(left * 55, 100_000_000);
    stages_in_range(left - 62_000_000, 1_000_000);
    stages_in_range(left - lna * 1_000_000, 1_000_000);
}

} // verus!
