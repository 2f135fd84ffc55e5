//! Exact decimal numbers for rates, frequencies and settings.
//!
//! Everything the receiver decides on is held as a whole number of millionths,
//! so that a comparison, a clamp or a rounding means the same on every machine.

use vstd::prelude::*;

verus! {

/// A signed decimal number with six places.
#[derive(Clone, Copy, Debug, PartialEq, Eq, Structural)]
pub struct Micro(pub i64);

/// `num / den` rounded to the nearest integer, a tie going up.
pub open spec fn nearest_spec(num: nat, den: nat) -> nat {
    ((2 * num + den) / (2 * den)) as nat
}

/// `v / den` rounded to the nearest integer, a tie going away from zero.
pub open spec fn nearest_signed_spec(v: int, den: nat) -> int {
    if v < 0 {
        -(nearest_spec((-v) as nat, den) as int)
    } else {
        nearest_spec(v as nat, den) as int
    }
}

/// `num / den` rounded to the nearest integer, a tie going to the even one.
pub open spec fn half_even_spec(num: nat, den: nat) -> nat {
    let q = num / den;
    let r = num % den;
    if 2 * r > den || (2 * r == den && q % 2 == 1) {
        q + 1
    } else {
        q
    }
}

/// The value of `v` with what follows the decimal point cut off.
pub open spec fn trunc_spec(v: int) -> int {
    if v >= 0 {
        v / 1_000_000
    } else {
        -((-v) / 1_000_000)
    }
}

/// `v` moved to the nearer end of `lo..=hi` where it lies outside.
pub open spec fn clamp_spec(v: int, lo: int, hi: int) -> int {
    if v < lo {
        lo
    } else if v > hi {
        hi
    } else {
        v
    }
}

/// Millionths of a second that `n` samples last at `rate`, to the nearest one. A
/// negative rate runs backwards, and at a rate of nothing any sample lasts for
/// ever, which the greatest number stands for.
pub open spec fn time_spec(n: nat, rate: int) -> int {
    if rate > 0 {
        nearest_spec(n * 1_000_000_000_000, rate as nat) as int
    } else if rate < 0 {
        -(nearest_spec(n * 1_000_000_000_000, (-rate) as nat) as int)
    } else if n > 0 {
        i128::MAX as int
    } else {
        0
    }
}

/// A rounded quotient lies within half of the exact one, is no more than what is
/// divided, and grows with it.
pub proof fn nearest_bounds(num: nat, den: nat)
    requires
        den >= 1,
    ensures
        (2 * den) * nearest_spec(num, den) <= 2 * num + den < (2 * den) * nearest_spec(num, den) + 2
            * den,
        2 * num + den < (2 * den) * (nearest_spec(num, den) + 1),
        nearest_spec(num, den) <= num,
{
    let (n, d) = (num as int, den as int);
    let q = (2 * n + d) / (2 * d);
    vstd::arithmetic::div_mod::lemma_fundamental_div_mod(2 * n + d, 2 * d);
    assert(0 <= q <= n) by (nonlinear_arith)
        requires
            (2 * d) * q <= 2 * n + d,
            2 * n + d < (2 * d) * q + 2 * d,
            d >= 1,
            n >= 0,
    ;
    assert((2 * d) * (q + 1) == (2 * d) * q + 2 * d) by (nonlinear_arith);
}

/// A signed number rounded to the nearest lies within half a step.
pub proof fn rounding_is_close(v: int, den: nat)
    requires
        den >= 1,
    ensures
        -(den as int) <= 2 * (den * nearest_signed_spec(v, den)) - 2 * v <= den,
{
    let a = (if v < 0 {
        -v
    } else {
        v
    }) as nat;
    nearest_bounds(a, den);
    let (d, q) = (den as int, nearest_spec(a, den) as int);
    assert((2 * d) * q == 2 * (d * q)) by (nonlinear_arith);
    assert(d * (-q) == -(d * q)) by (nonlinear_arith);
}

/// A signed number rounded lies between nothing and what is divided.
pub proof fn rounding_is_bounded(v: int, den: nat)
    requires
        den >= 1,
    ensures
        v >= 0 ==> 0 <= nearest_signed_spec(v, den) <= v,
        v <= 0 ==> v <= nearest_signed_spec(v, den) <= 0,
{
    nearest_bounds(
        (if v < 0 {
            -v
        } else {
            v
        }) as nat,
        den,
    );
}

/// A quotient that is at most a whole number rounds to at most it.
pub proof fn nearest_at_most(num: nat, den: nat, most: nat)
    requires
        den >= 1,
        num <= most * den,
    ensures
        nearest_spec(num, den) <= most,
{
    nearest_bounds(num, den);
    let (n, d, m, q) = (num as int, den as int, most as int, nearest_spec(num, den) as int);
    assert(q <= m) by (nonlinear_arith)
        requires
            (2 * d) * q <= 2 * n + d,
            n <= m * d,
            d >= 1,
    ;
}

/// The whole number that a quotient is nearest to.
pub proof fn nearest_is(num: nat, den: nat, q: nat)
    requires
        den >= 1,
        (2 * den) * q <= 2 * num + den < (2 * den) * q + 2 * den,
    ensures
        nearest_spec(num, den) == q,
{
    nearest_bounds(num, den);
    let (n, d, a, b) = (num as int, den as int, q as int, nearest_spec(num, den) as int);
    assert(a == b) by (nonlinear_arith)
        requires
            (2 * d) * a <= 2 * n + d < (2 * d) * a + 2 * d,
            (2 * d) * b <= 2 * n + d < (2 * d) * b + 2 * d,
            d >= 1,
    ;
}

/// The whole number that a signed quotient is less than half a step from.
pub proof fn nearest_signed_is(v: int, den: nat, q: int)
    requires
        -(den as int) < 2 * v - 2 * (den * q) < den,
    ensures
        nearest_signed_spec(v, den) == q,
{
    let d = den as int;
    assert((2 * d) * q == 2 * (d * q) && (2 * d) * (-q) == -(2 * (d * q))) by (nonlinear_arith);
    if v < 0 {
        assert(q <= 0) by (nonlinear_arith)
            requires
                2 * v - 2 * (d * q) > -d,
                v < 0,
                d >= 1,
        ;
        nearest_is((-v) as nat, den, (-q) as nat);
    } else {
        assert(q >= 0) by (nonlinear_arith)
            requires
                2 * v - 2 * (d * q) < d,
                v >= 0,
                d >= 1,
        ;
        nearest_is(v as nat, den, q as nat);
    }
}

/// Millionths of a second that `n` samples last at `rate`.
pub fn time_of(n: u64, rate: Micro) -> (r: i128)
    ensures
        r == time_spec(n as nat, rate@),
{
    let signed: i128 = rate.0 as i128;
    let den: u128 = if signed < 0 {
        (-signed) as u128
    } else {
        signed as u128
    };
    if den == 0 {
        return if n > 0 {
            i128::MAX
        } else {
            0
        };
    }
    let num: u128 = n as u128 * 1_000_000_000_000;
    proof {
        nearest_bounds(num as nat, den as nat);
    }
    let t: i128 = nearest(num, den) as i128;
    if rate.0 < 0 {
        -t
    } else {
        t
    }
}

/// Divides, rounding to nearest with ties up.
pub fn nearest(num: u128, den: u128) -> (r: u128)
    requires
        den > 0,
        2 * num + den <= u128::MAX,
        2 * den <= u128::MAX,
    ensures
        r == nearest_spec(num as nat, den as nat),
{
    (2 * num + den) / (2 * den)
}

/// Divides a signed number, rounding to nearest with ties away from zero.
pub fn nearest_signed(v: i128, den: u128) -> (r: i128)
    requires
        0 < den <= u64::MAX,
        -0x7fff_ffff_ffff_ffff_8000_0000_0000_0000 <= v
            <= 0x7fff_ffff_ffff_ffff_8000_0000_0000_0000,
    ensures
        r == nearest_signed_spec(v as int, den as nat),
{
    let a: u128 = if v < 0 {
        (-v) as u128
    } else {
        v as u128
    };
    let q: u128 = nearest(a, den);
    proof {
        nearest_bounds(a as nat, den as nat);
    }
    if v < 0 {
        -(q as i128)
    } else {
        q as i128
    }
}

/// Divides, rounding to nearest with ties to even.
pub fn half_even(num: u128, den: u128) -> (r: u128)
    requires
        den > 0,
        2 * den <= u128::MAX,
        num < u128::MAX,
    ensures
        r == half_even_spec(num as nat, den as nat),
{
    let q: u128 = num / den;
    let r: u128 = num % den;
    assert(q <= num) by (nonlinear_arith)
        requires
            q == num / den,
            den > 0,
            num >= 0,
    ;
    if 2 * r > den || (2 * r == den && q % 2 == 1) {
        q + 1
    } else {
        q
    }
}

impl Micro {
    /// The number in millionths.
    pub open spec fn view(self) -> int {
        self.0 as int
    }

    /// A whole number.
    pub fn whole(n: i64) -> (r: Micro)
        requires
            -9_000_000_000_000 <= n <= 9_000_000_000_000,
        ensures
            r@ == n * 1_000_000,
    {
        Micro(n * 1_000_000)
    }

    /// The whole part, cut toward zero.
    pub fn trunc(self) -> (r: i64)
        ensures
            r == trunc_spec(self@),
    {
        if self.0 >= 0 {
            self.0 / 1_000_000
        } else if self.0 == i64::MIN {
            -9_223_372_036_854
        } else {
            -((-self.0) / 1_000_000)
        }
    }

    /// The number moved into `lo..=hi`.
    pub fn clamp_to(self, lo: Micro, hi: Micro) -> (r: Micro)
        ensures
            r@ == clamp_spec(self@, lo@, hi@),
    {
        if self.0 < lo.0 {
            lo
        } else if self.0 > hi.0 {
            hi
        } else {
            self
        }
    }
}

/// Clamping leaves alone what fits and moves the rest to the nearer end.
pub proof fn clamping_keeps_what_fits(v: int, lo: int, hi: int)
    requires
        lo <= hi,
    ensures
        lo <= clamp_spec(v, lo, hi) <= hi,
        lo <= v <= hi ==> clamp_spec(v, lo, hi) == v,
        v <= lo ==> clamp_spec(v, lo, hi) == lo,
        v >= hi ==> clamp_spec(v, lo, hi) == hi,
{
}

/// The whole part of a number is what is left of it without its fraction, and has
/// its sign.
pub proof fn truncating_goes_toward_zero(v: int)
    ensures
        v >= 0 ==> 0 <= v - 1_000_000 * trunc_spec(v) < 1_000_000,
        v <= 0 ==> -1_000_000 < v - 1_000_000 * trunc_spec(v) <= 0,
        trunc_spec(-v) == -trunc_spec(v),
        v >= 0 ==> trunc_spec(v) >= 0,
{
}

/// Rounding to the nearest is off by half a step at most, and in the middle goes
/// to the even one.
pub proof fn halves_go_to_the_even(num: nat, den: nat)
    requires
        den >= 1,
    ensures
        ({
            let q = half_even_spec(num, den) as int;
            let off = 2 * (q * den) - 2 * num;
            &&& -(den as int) <= off <= den
            &&& off == den || off == -(den as int) ==> q % 2 == 0
        }),
{
    let (n, d) = (num as int, den as int);
    let q = n / d;
    vstd::arithmetic::div_mod::lemma_fundamental_div_mod(n, d);
    assert(d * q == q * d && (q + 1) * d == q * d + d) by (nonlinear_arith);
}

/// A time is off by half a millionth of a second at most, and runs backwards
/// where the rate does.
pub proof fn times_are_right(n: nat, rate: int)
    ensures
        rate > 0 ==> -rate <= 2 * (rate * time_spec(n, rate)) - 2_000_000_000_000 * n <= rate,
        time_spec(n, -rate) == -time_spec(n, rate) || rate == 0,
        time_spec(0, rate) == 0,
        rate == 0 && n > 0 ==> time_spec(n, rate) == i128::MAX,
{
    if rate != 0 {
        let size = if rate < 0 {
            -rate
        } else {
            rate
        };
        let a = n * 1_000_000_000_000;
        nearest_bounds(a, size as nat);
        nearest_bounds(0, size as nat);
        let q = nearest_spec(a, size as nat) as int;
        assert((2 * size) * q == 2 * (size * q)) by (nonlinear_arith);
        assert(nearest_spec(0, size as nat) <= 0);
    }
}

} // verus!
