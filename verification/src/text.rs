//! Decimal text, written digit by digit.

use vstd::prelude::*;
use crate::fixed::{half_even, half_even_spec};
#[allow(unused_imports)]
use crate::fixed::halves_go_to_the_even;

verus! {

/// The character of a decimal digit.
pub open spec fn digit(d: nat) -> char {
    ((48 + d) as u32) as char
}

/// Decimal digits of `n`, most significant first, with no leading zero.
pub open spec fn digits(n: nat) -> Seq<char>
    decreases n,
{
    if n < 10 {
        seq![digit(n)]
    } else {
        digits(n / 10).push(digit(n % 10))
    }
}

/// The last `p` decimal digits of `n`.
pub open spec fn padded(n: nat, p: nat) -> Seq<char>
    decreases p,
{
    if p == 0 {
        Seq::empty()
    } else {
        padded(n / 10, (p - 1) as nat).push(digit(n % 10))
    }
}

/// Ten to the power `p`.
pub open spec fn ten(p: nat) -> nat
    decreases p,
{
    if p == 0 {
        1
    } else {
        10 * ten((p - 1) as nat)
    }
}

/// `num / den` with `p` digits after the point, ties to even.
pub open spec fn ratio_text(num: nat, den: nat, p: nat) -> Seq<char> {
    let r = half_even_spec(num * ten(p), den);
    if p == 0 {
        digits(r)
    } else {
        digits(r / ten(p)).push('.') + padded(r, p)
    }
}

/// `v / den` with a minus sign where `v` is negative.
pub open spec fn signed_ratio_text(v: int, den: nat, p: nat) -> Seq<char> {
    if v < 0 {
        seq!['-'] + ratio_text((-v) as nat, den, p)
    } else {
        ratio_text(v as nat, den, p)
    }
}

/// Whether two strings hold the same characters.
pub fn same(a: &str, b: &str) -> (r: bool)
    ensures
        r == (a@ == b@),
{
    a.to_owned() == b.to_owned()
}

/// A string as source code would show it: in double quotes, with characters
/// that are not plain escaped.
pub uninterp spec fn debug_text(s: Seq<char>) -> Seq<char>;

/// The debug form that std gives a string, which depends on the string alone.
/// Which characters it escapes, and how, is left unsaid.
#[verifier::external_body]
pub(crate) fn quoted(s: &str) -> (r: String)
    ensures
        r@ == debug_text(s@),
{
    format!("{s:?}")
}

/// Whether `a` comes before `b` in the order of their characters.
pub open spec fn text_before(a: Seq<char>, b: Seq<char>) -> bool
    decreases a.len(),
{
    if b.len() == 0 {
        false
    } else if a.len() == 0 {
        true
    } else if a[0] != b[0] {
        (a[0] as int) < (b[0] as int)
    } else {
        text_before(a.drop_first(), b.drop_first())
    }
}

/// Whether `a` comes before `b` in the order of their characters.
pub fn before(a: &str, b: &str) -> (r: bool)
    ensures
        r == text_before(a@, b@),
{
    let n: usize = a.unicode_len();
    let m: usize = b.unicode_len();
    let mut i: usize = 0;
    proof {
        assert(a@.skip(0) =~= a@);
        assert(b@.skip(0) =~= b@);
    }
    while i < n && i < m
        invariant
            n == a@.len(),
            m == b@.len(),
            i <= n,
            i <= m,
            text_before(a@, b@) == text_before(a@.skip(i as int), b@.skip(i as int)),
        decreases n - i,
    {
        let x: char = a.get_char(i);
        let y: char = b.get_char(i);
        if x != y {
            return (x as u32) < (y as u32);
        }
        proof {
            assert(a@.skip(i as int).drop_first() =~= a@.skip(i + 1));
            assert(b@.skip(i as int).drop_first() =~= b@.skip(i + 1));
        }
        i += 1;
    }
    i < m
}

/// Appends one digit.
pub fn push_digit(s: &mut String, d: u8)
    requires
        d < 10,
    ensures
        final(s)@ == old(s)@.push(digit(d as nat)),
{
    proof {
        reveal_strlit("0");
        reveal_strlit("1");
        reveal_strlit("2");
        reveal_strlit("3");
        reveal_strlit("4");
        reveal_strlit("5");
        reveal_strlit("6");
        reveal_strlit("7");
        reveal_strlit("8");
        reveal_strlit("9");
    }
    let t: &str = match d {
        0 => "0",
        1 => "1",
        2 => "2",
        3 => "3",
        4 => "4",
        5 => "5",
        6 => "6",
        7 => "7",
        8 => "8",
        _ => "9",
    };
    s.append(t);
    assert(s@ =~= old(s)@.push(digit(d as nat)));
}

/// Appends `n` in decimal.
pub fn push_nat(s: &mut String, n: u128)
    ensures
        final(s)@ == old(s)@ + digits(n as nat),
    decreases n,
{
    if n >= 10 {
        push_nat(s, n / 10);
    }
    push_digit(s, (n % 10) as u8);
    assert(s@ =~= old(s)@ + digits(n as nat));
}

/// Appends the last `p` digits of `n`.
pub fn push_padded(s: &mut String, n: u128, p: u32)
    ensures
        final(s)@ == old(s)@ + padded(n as nat, p as nat),
    decreases p,
{
    if p > 0 {
        push_padded(s, n / 10, p - 1);
        push_digit(s, (n % 10) as u8);
    }
    assert(s@ =~= old(s)@ + padded(n as nat, p as nat));
}

proof fn ten_values()
    ensures
        ten(0) == 1,
        ten(1) == 10,
        ten(2) == 100,
        ten(3) == 1000,
        ten(4) == 10_000,
        ten(5) == 100_000,
        ten(6) == 1_000_000,
{
    reveal_with_fuel(ten, 8);
}

/// Ten to the power `p`.
pub fn pow_ten(p: u32) -> (r: u128)
    requires
        p <= 6,
    ensures
        r == ten(p as nat),
        1 <= r <= 1_000_000,
{
    proof {
        ten_values();
    }
    match p {
        0 => 1,
        1 => 10,
        2 => 100,
        3 => 1000,
        4 => 10_000,
        5 => 100_000,
        _ => 1_000_000,
    }
}

/// Appends `num / den` with `p` digits after the point.
pub fn push_ratio(s: &mut String, num: u128, den: u128, p: u32)
    requires
        p <= 6,
        0 < den <= 0xffff_ffff_ffff_ffff_ffff,
        num <= 0xffff_ffff_ffff_ffff_ffff,
    ensures
        final(s)@ == old(s)@ + ratio_text(num as nat, den as nat, p as nat),
{
    let scale: u128 = pow_ten(p);
    assert(num * scale <= 0xffff_ffff_ffff_ffff_ffff * 1_000_000) by (nonlinear_arith)
        requires
            0 <= num <= 0xffff_ffff_ffff_ffff_ffff,
            0 <= scale <= 1_000_000,
    ;
    let r: u128 = half_even(num * scale, den);
    if p == 0 {
        push_nat(s, r);
    } else {
        push_nat(s, r / scale);
        proof {
            reveal_strlit(".");
        }
        s.append(".");
        push_padded(s, r, p);
    }
    assert(s@ =~= old(s)@ + ratio_text(num as nat, den as nat, p as nat));
}

/// Appends `v / den` with `p` digits after the point and its sign.
pub fn push_signed_ratio(s: &mut String, v: i128, den: u128, p: u32)
    requires
        p <= 6,
        0 < den <= 0xffff_ffff_ffff_ffff_ffff,
        -0xffff_ffff_ffff_ffff_ffff <= v <= 0xffff_ffff_ffff_ffff_ffff,
    ensures
        final(s)@ == old(s)@ + signed_ratio_text(v as int, den as nat, p as nat),
{
    if v < 0 {
        proof {
            reveal_strlit("-");
        }
        s.append("-");
        push_ratio(s, (-v) as u128, den, p);
    } else {
        push_ratio(s, v as u128, den, p);
    }
    assert(s@ =~= old(s)@ + signed_ratio_text(v as int, den as nat, p as nat));
}

/// The digits of `frac / 10^p` after the point, without trailing zeros.
pub open spec fn trimmed(frac: nat, p: nat) -> Seq<char>
    decreases p,
{
    if p > 0 && frac % 10 == 0 {
        trimmed(frac / 10, (p - 1) as nat)
    } else {
        padded(frac, p)
    }
}

/// A count of millionths as the shortest decimal that means the same.
pub open spec fn micro_text(v: int) -> Seq<char> {
    let m = if v < 0 {
        (-v) as nat
    } else {
        v as nat
    };
    let sign = if v < 0 {
        seq!['-']
    } else {
        Seq::<char>::empty()
    };
    if m % 1_000_000 == 0 {
        sign + digits(m / 1_000_000)
    } else {
        (sign + digits(m / 1_000_000)).push('.') + trimmed(m % 1_000_000, 6)
    }
}

fn push_trimmed(s: &mut String, frac: u128, p: u32)
    ensures
        final(s)@ == old(s)@ + trimmed(frac as nat, p as nat),
    decreases p,
{
    if p > 0 && frac % 10 == 0 {
        push_trimmed(s, frac / 10, p - 1);
    } else {
        push_padded(s, frac, p);
    }
}

/// Appends a count of millionths as the shortest decimal that means the same.
pub fn push_micro(s: &mut String, v: i64)
    ensures
        final(s)@ == old(s)@ + micro_text(v as int),
{
    let w: i128 = v as i128;
    let m: u128 = if w < 0 {
        (-w) as u128
    } else {
        w as u128
    };
    if w < 0 {
        proof {
            reveal_strlit("-");
        }
        s.append("-");
    }
    push_nat(s, m / 1_000_000);
    if m % 1_000_000 != 0 {
        proof {
            reveal_strlit(".");
        }
        s.append(".");
        push_trimmed(s, m % 1_000_000, 6);
    }
    assert(s@ =~= old(s)@ + micro_text(v as int));
}

/// Decimal digits of a signed integer.
pub open spec fn int_text(v: int) -> Seq<char> {
    if v < 0 {
        seq!['-'] + digits((-v) as nat)
    } else {
        digits(v as nat)
    }
}

/// Appends a signed integer in decimal.
pub fn push_int(s: &mut String, v: i64)
    ensures
        final(s)@ == old(s)@ + int_text(v as int),
{
    let w: i128 = v as i128;
    if w < 0 {
        proof {
            reveal_strlit("-");
        }
        s.append("-");
        push_nat(s, (-w) as u128);
    } else {
        push_nat(s, w as u128);
    }
    assert(s@ =~= old(s)@ + int_text(v as int));
}

/// The number that decimal digits are.
pub open spec fn value(s: Seq<char>) -> nat
    decreases s.len(),
{
    if s.len() == 0 {
        0
    } else {
        (10 * value(s.drop_last()) + (s.last() as int - 48)) as nat
    }
}

/// Whether all characters are decimal digits.
pub open spec fn decimal(s: Seq<char>) -> bool {
    forall|i: int| 0 <= i < s.len() ==> '0' <= #[trigger] s[i] && s[i] <= '9'
}

proof fn digit_facts(d: nat)
    requires
        d < 10,
    ensures
        digit(d) as int == 48 + d,
        '0' <= digit(d) && digit(d) <= '9',
{
}

/// Digits read as the number that they were written for, and do not begin with a
/// zero unless they are one.
pub proof fn digits_read_back(n: nat)
    ensures
        value(digits(n)) == n,
        decimal(digits(n)),
        digits(n).len() >= 1,
        digits(n).len() > 1 ==> digits(n)[0] != '0',
        digits(n).len() == 1 <==> n < 10,
    decreases n,
{
    let s = digits(n);
    if n < 10 {
        digit_facts(n);
        assert(s.drop_last() =~= Seq::empty());
        assert(value(s.drop_last()) == 0);
    } else {
        let head = digits(n / 10);
        digits_read_back(n / 10);
        digit_facts(n % 10);
        assert(s.drop_last() =~= head);
        assert(10 * (n / 10) + n % 10 == n);
        assert forall|i: int| 0 <= i < s.len() implies '0' <= #[trigger] s[i] && s[i] <= '9' by {
            if i < head.len() {
                assert(s[i] == head[i]);
            }
        }
        if head.len() == 1 {
            assert(n / 10 < 10);
            digit_facts(n / 10);
            assert(head =~= seq![digit(n / 10)]);
        }
        assert(s[0] == head[0]);
    }
}

proof fn ten_is_positive(p: nat)
    ensures
        ten(p) >= 1,
    decreases p,
{
    if p > 0 {
        ten_is_positive((p - 1) as nat);
    }
}

/// Padded digits are as many as are asked for, and read as what the number leaves
/// behind that many places.
pub proof fn padding_reads_back(n: nat, p: nat)
    ensures
        padded(n, p).len() == p,
        value(padded(n, p)) == n % ten(p),
        decimal(padded(n, p)),
    decreases p,
{
    let s = padded(n, p);
    if p > 0 {
        let head = padded(n / 10, (p - 1) as nat);
        padding_reads_back(n / 10, (p - 1) as nat);
        digit_facts(n % 10);
        assert(s.drop_last() =~= head);
        let t = ten((p - 1) as nat);
        ten_is_positive((p - 1) as nat);
        vstd::arithmetic::div_mod::lemma_breakdown(n as int, 10, t as int);
        assert forall|i: int| 0 <= i < s.len() implies '0' <= #[trigger] s[i] && s[i] <= '9' by {
            if i < head.len() {
                assert(s[i] == head[i]);
            }
        }
    } else {
        assert(n % 1 == 0);
    }
}

/// A quotient in decimal is off by half of its last place at most: its digits
/// before and behind the point make up a number of that many places, and a tie
/// goes to the even one.
pub proof fn ratios_read_back(num: nat, den: nat, p: nat)
    requires
        den >= 1,
    ensures
        ({
            let t = ratio_text(num, den, p);
            let k = t.len() - p - 1;
            let r = if p == 0 {
                value(t)
            } else {
                value(t.take(k)) * ten(p) + value(t.skip(k + 1))
            };
            let off = 2 * (r * den) - 2 * (num * ten(p));
            &&& p == 0 ==> decimal(t)
            &&& p > 0 ==> t[k] == '.' && decimal(t.take(k)) && decimal(t.skip(k + 1)) && k >= 1
            &&& -(den as int) <= off <= den
            &&& off == den || off == -(den as int) ==> r % 2 == 0
        }),
{
    let t = ratio_text(num, den, p);
    let r = half_even_spec(num * ten(p), den);
    halves_go_to_the_even(num * ten(p), den);
    if p == 0 {
        digits_read_back(r);
    } else {
        let (whole, part) = (digits(r / ten(p)), padded(r, p));
        ten_is_positive(p);
        digits_read_back(r / ten(p));
        padding_reads_back(r, p);
        let k = t.len() - p - 1;
        assert(t.take(k) =~= whole);
        assert(t.skip(k + 1) =~= part);
        vstd::arithmetic::div_mod::lemma_fundamental_div_mod(r as int, ten(p) as int);
        assert(ten(p) * (r / ten(p)) == (r / ten(p)) * ten(p)) by (nonlinear_arith);
    }
}

/// A negative number is written as its opposite behind a minus sign.
pub proof fn signs_stand_in_front(v: int, den: nat, p: nat)
    requires
        v < 0,
    ensures
        signed_ratio_text(v, den, p) == seq!['-'] + signed_ratio_text(-v, den, p),
        int_text(v) == seq!['-'] + int_text(-v),
        micro_text(v) == seq!['-'] + micro_text(-v),
{
    let m = (-v) as nat;
    let minus = seq!['-'];
    let none = Seq::<char>::empty();
    if m % 1_000_000 == 0 {
        assert(micro_text(v) =~= minus + micro_text(-v));
    } else {
        assert(micro_text(v) =~= minus + micro_text(-v));
    }
}

proof fn trimming_reads_back(frac: nat, p: nat)
    requires
        frac < ten(p),
        frac > 0,
    ensures
        ({
            let s = trimmed(frac, p);
            &&& 1 <= s.len() <= p
            &&& decimal(s)
            &&& s.last() != '0'
            &&& value(s) * ten((p - s.len()) as nat) == frac
        }),
    decreases p,
{
    assert(p > 0);
    if frac % 10 == 0 {
        let q = (p - 1) as nat;
        trimming_reads_back(frac / 10, q);
        let s = trimmed(frac / 10, q);
        let t = ten((q - s.len()) as nat);
        assert(ten((p - s.len()) as nat) == 10 * t);
        assert(value(s) * (10 * t) == 10 * (value(s) * t)) by (nonlinear_arith);
    } else {
        padding_reads_back(frac, p);
        vstd::arithmetic::div_mod::lemma_small_mod(frac, ten(p));
        digit_facts(frac % 10);
        let s = padded(frac, p);
        assert(s.last() == digit(frac % 10));
        assert(value(s) * ten(0) == value(s)) by (nonlinear_arith)
            requires
                ten(0) == 1,
        ;
    }
}

/// Whether the point at `k` parts a decimal of at most six places that reads as
/// `v` millionths and does not end in a zero.
pub open spec fn point_at(t: Seq<char>, k: int, v: nat) -> bool {
    &&& 1 <= k < t.len() - 1
    &&& t[k] == '.'
    &&& decimal(t.take(k)) && decimal(t.skip(k + 1))
    &&& t.last() != '0'
    &&& t.len() - k - 1 <= 6
    &&& 1_000_000 * value(t.take(k)) + value(t.skip(k + 1)) * ten(
        (6 - (t.len() - k - 1)) as nat,
    ) == v
}

/// Millionths read back exactly, and are written as short as that allows: without
/// a point where they are whole, and without a zero at the end where they are
/// not.
pub proof fn millionths_read_back(v: nat)
    ensures
        v % 1_000_000 == 0 ==> decimal(micro_text(v as int)) && 1_000_000 * value(
            micro_text(v as int),
        ) == v,
        v % 1_000_000 != 0 ==> exists|k: int| #[trigger] point_at(micro_text(v as int), k, v),
{
    let t = micro_text(v as int);
    let whole = digits(v / 1_000_000);
    digits_read_back(v / 1_000_000);
    if v % 1_000_000 == 0 {
        assert(t =~= whole);
    } else {
        let frac = v % 1_000_000;
        let part = trimmed(frac, 6);
        ten_values();
        trimming_reads_back(frac, 6);
        let k = whole.len() as int;
        assert(t.take(k) =~= whole);
        assert(t.skip(k + 1) =~= part);
        assert(t.last() == part.last());
        assert(point_at(t, k, v));
    }
}

/// The order of texts is that of a dictionary: of two that differ, the one with
/// the smaller character at the first place where they do comes first, and one
/// that the other goes on from.
pub proof fn texts_are_in_dictionary_order(a: Seq<char>, b: Seq<char>, k: int)
    requires
        0 <= k <= a.len(),
        k <= b.len(),
        a.take(k) == b.take(k),
        k < a.len() && k < b.len() ==> a[k] != b[k],
    ensures
        k < a.len() && k < b.len() ==> text_before(a, b) == ((a[k] as int) < (b[k] as int)),
        k == a.len() ==> text_before(a, b) == (b.len() > k),
        k == b.len() ==> !text_before(a, b),
    decreases k,
{
    if k > 0 {
        assert(a[0] == a.take(k)[0]);
        assert(b[0] == b.take(k)[0]);
        let (x, y) = (a.drop_first(), b.drop_first());
        assert(x.take(k - 1) =~= a.take(k).drop_first());
        assert(y.take(k - 1) =~= b.take(k).drop_first());
        texts_are_in_dictionary_order(x, y, k - 1);
    }
}

} // verus!
