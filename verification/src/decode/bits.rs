//! A growable run of bits.

use vstd::prelude::*;

verus! {

/// One if the bit is set, zero if it is clear or past the end.
pub open spec fn weight(b: Seq<bool>, i: int) -> int {
    if 0 <= i < b.len() && b[i] {
        1
    } else {
        0
    }
}

/// Byte `k` of the bits, most significant bit first, padded with zeros.
pub open spec fn byte_at(b: Seq<bool>, k: int) -> u8 {
    (128 * weight(b, 8 * k) + 64 * weight(b, 8 * k + 1) + 32 * weight(b, 8 * k + 2) + 16 * weight(
        b,
        8 * k + 3,
    ) + 8 * weight(b, 8 * k + 4) + 4 * weight(b, 8 * k + 5) + 2 * weight(b, 8 * k + 6) + weight(
        b,
        8 * k + 7,
    )) as u8
}

/// Every byte of the bits, the last one padded with zeros.
pub open spec fn bytes_of(b: Seq<bool>) -> Seq<u8> {
    Seq::new(((b.len() + 7) / 8) as nat, |k: int| byte_at(b, k))
}

/// Every bit flipped.
pub open spec fn flipped(b: Seq<bool>) -> Seq<bool> {
    Seq::new(b.len(), |i: int| !b[i])
}

/// Bit `i` of a byte pattern, most significant bit of the first byte first.
pub open spec fn pattern_bit(p: Seq<u8>, i: int) -> bool {
    p[i / 8] as int / power(7 - i % 8) % 2 == 1
}

/// Two to the power `n`, for `n` up to seven.
pub open spec fn power(n: int) -> int {
    if n <= 0 {
        1
    } else if n == 1 {
        2
    } else if n == 2 {
        4
    } else if n == 3 {
        8
    } else if n == 4 {
        16
    } else if n == 5 {
        32
    } else if n == 6 {
        64
    } else {
        128
    }
}

/// Whether the first `n` bits of `p` stand at position `at` of `b`.
pub open spec fn occurs_at(b: Seq<bool>, p: Seq<u8>, n: int, at: int) -> bool {
    &&& 0 <= at
    &&& at + n <= b.len()
    &&& forall|i: int| 0 <= i < n ==> b[at + i] == #[trigger] pattern_bit(p, i)
}

/// Whether `at` is the first place at which the pattern stands.
pub open spec fn first_at(b: Seq<bool>, p: Seq<u8>, n: int, at: int) -> bool {
    &&& occurs_at(b, p, n, at)
    &&& forall|k: int| 0 <= k < at ==> !#[trigger] occurs_at(b, p, n, k)
}

/// Whether the pattern stands nowhere.
pub open spec fn absent(b: Seq<bool>, p: Seq<u8>, n: int) -> bool {
    forall|k: int| !#[trigger] occurs_at(b, p, n, k)
}

/// Where the pattern first stands.
pub open spec fn find_spec(b: Seq<bool>, p: Seq<u8>, n: int) -> Option<int> {
    if absent(b, p, n) {
        None
    } else {
        Some(choose|at: int| first_at(b, p, n, at))
    }
}

/// There is only one first place.
pub proof fn first_is_unique(b: Seq<bool>, p: Seq<u8>, n: int, at: int)
    requires
        first_at(b, p, n, at),
    ensures
        find_spec(b, p, n) == Some(at),
{
    let w = choose|w: int| first_at(b, p, n, w);
    assert(first_at(b, p, n, w));
    if w < at {
        assert(!occurs_at(b, p, n, w));
    } else if at < w {
        assert(!occurs_at(b, p, n, at));
    }
}

/// A byte worth `2^(7-i)` units per bit, one bit at a time.
fn bit_of_byte(b: u8, i: usize) -> (r: bool)
    requires
        i < 8,
    ensures
        r == (b as int / power(7 - i as int) % 2 == 1),
{
    let d: u8 = match i {
        0 => 128,
        1 => 64,
        2 => 32,
        3 => 16,
        4 => 8,
        5 => 4,
        6 => 2,
        _ => 1,
    };
    b / d % 2 == 1
}

/// Received bits in order of arrival.
#[derive(Debug)]
pub struct BitBuffer {
    bits: Vec<bool>,
}

impl View for BitBuffer {
    type V = Seq<bool>;

    closed spec fn view(&self) -> Seq<bool> {
        self.bits@
    }
}

impl BitBuffer {
    pub fn new() -> (r: BitBuffer)
        ensures
            r@ == Seq::<bool>::empty(),
    {
        BitBuffer { bits: Vec::new() }
    }

    pub fn push(&mut self, bit: bool)
        ensures
            final(self)@ == old(self)@.push(bit),
    {
        self.bits.push(bit);
    }

    pub fn len(&self) -> (r: usize)
        ensures
            r == self@.len(),
    {
        self.bits.len()
    }

    pub fn is_empty(&self) -> (r: bool)
        ensures
            r == (self@.len() == 0),
    {
        self.bits.len() == 0
    }

    /// Bit `i`, or nothing past the end.
    pub fn get(&self, i: usize) -> (r: Option<bool>)
        ensures
            r == (if i < self@.len() {
                Some(self@[i as int])
            } else {
                None
            }),
    {
        if i < self.bits.len() {
            Some(self.bits[i])
        } else {
            None
        }
    }

    /// Whether the first `n` bits of `pattern` stand at `at`.
    fn matches_at(&self, pattern: &[u8], n: usize, at: usize) -> (r: bool)
        requires
            n <= 8 * pattern@.len(),
            at + n <= self@.len(),
        ensures
            r == occurs_at(self@, pattern@, n as int, at as int),
    {
        let len: usize = self.bits.len();
        let mut i: usize = 0;
        while i < n
            invariant
                i <= n,
                n <= 8 * pattern@.len(),
                len == self@.len(),
                at + n <= len,
                forall|k: int|
                    0 <= k < i ==> self@[at + k] == #[trigger] pattern_bit(pattern@, k),
            decreases n - i,
        {
            let want: bool = bit_of_byte(pattern[i / 8], i % 8);
            assert(want == pattern_bit(pattern@, i as int));
            if self.bits[at + i] != want {
                return false;
            }
            i += 1;
        }
        true
    }

    /// Position of the first occurrence of the first `n` bits of `pattern`.
    pub fn find(&self, pattern: &[u8], n: usize) -> (r: Option<usize>)
        requires
            n <= 8 * pattern@.len(),
        ensures
            match r {
                Some(at) => find_spec(self@, pattern@, n as int) == Some(at as int) && first_at(
                    self@,
                    pattern@,
                    n as int,
                    at as int,
                ),
                None => find_spec(self@, pattern@, n as int) == None::<int>,
            },
    {
        if n > self.bits.len() {
            return None;
        }
        let last: usize = self.bits.len() - n;
        let mut at: usize = 0;
        while at <= last
            invariant
                last == self@.len() - n,
                at <= last + 1,
                n <= 8 * pattern@.len(),
                forall|k: int| 0 <= k < at ==> !#[trigger] occurs_at(self@, pattern@, n as int, k),
            decreases last + 1 - at,
        {
            if self.matches_at(pattern, n, at) {
                proof {
                    first_is_unique(self@, pattern@, n as int, at as int);
                }
                return Some(at);
            }
            if at == last {
                assert forall|k: int| !#[trigger] occurs_at(self@, pattern@, n as int, k) by {}
                return None;
            }
            at += 1;
        }
        None
    }

    /// `n` bits from `start` on.
    pub fn slice(&self, start: usize, n: usize) -> (r: BitBuffer)
        requires
            start + n <= self@.len(),
        ensures
            r@ == self@.subrange(start as int, start + n),
    {
        let len: usize = self.bits.len();
        let mut out: Vec<bool> = Vec::new();
        let mut i: usize = 0;
        while i < n
            invariant
                i <= n,
                len == self@.len(),
                start + n <= len,
                out@ == self@.subrange(start as int, start + i),
            decreases n - i,
        {
            out.push(self.bits[start + i]);
            i += 1;
            assert(out@ =~= self@.subrange(start as int, start + i));
        }
        BitBuffer { bits: out }
    }

    /// The same bits in the other polarity.
    pub fn inverted(&self) -> (r: BitBuffer)
        ensures
            r@ == flipped(self@),
    {
        let mut out: Vec<bool> = Vec::new();
        let mut i: usize = 0;
        while i < self.bits.len()
            invariant
                i <= self@.len(),
                out@.len() == i,
                forall|k: int| 0 <= k < i ==> out@[k] == !self@[k],
            decreases self@.len() - i,
        {
            out.push(!self.bits[i]);
            i += 1;
        }
        assert(out@ =~= flipped(self@));
        BitBuffer { bits: out }
    }

    /// Weight of the bit `off` places after `start`.
    fn unit(&self, start: usize, off: usize) -> (r: u8)
        requires
            start <= self@.len(),
        ensures
            r == weight(self@, start + off),
            r <= 1,
    {
        if off < self.bits.len() - start && self.bits[start + off] {
            1
        } else {
            0
        }
    }

    /// The bits packed into bytes, most significant bit first.
    pub fn as_bytes(&self) -> (r: Vec<u8>)
        ensures
            r@ == bytes_of(self@),
    {
        let len: usize = self.bits.len();
        let mut out: Vec<u8> = Vec::new();
        let mut s: usize = 0;
        while s < len
            invariant
                s <= len,
                len == self@.len(),
                s % 8 == 0 || s == len,
                out@.len() == (s + 7) / 8,
                forall|j: int| 0 <= j < out@.len() ==> out@[j] == byte_at(self@, j),
            decreases len - s,
        {
            let b: u8 = 128 * self.unit(s, 0) + 64 * self.unit(s, 1) + 32 * self.unit(s, 2) + 16
                * self.unit(s, 3) + 8 * self.unit(s, 4) + 4 * self.unit(s, 5) + 2 * self.unit(s, 6)
                + self.unit(s, 7);
            assert(s == 8 * out@.len());
            out.push(b);
            if len - s >= 8 {
                s += 8;
            } else {
                s = len;
            }
        }
        assert(out@ =~= bytes_of(self@));
        out
    }
}

/// Flipping twice gives the bits back.
pub proof fn flipping_twice_is_nothing(b: Seq<bool>)
    ensures
        flipped(flipped(b)) == b,
{
    assert(flipped(flipped(b)) =~= b);
}

/// Bits as a number, the first one worth most.
pub open spec fn number(b: Seq<bool>) -> nat
    decreases b.len(),
{
    if b.len() == 0 {
        0
    } else {
        2 * number(b.drop_last()) + if b.last() {
            1nat
        } else {
            0
        }
    }
}

/// Each byte is its eight bits as a number. Bits that are missing from the last
/// byte are zeros at its end.
pub proof fn bytes_are_numbers(b: Seq<bool>, k: int)
    requires
        0 <= k < bytes_of(b).len(),
    ensures
        8 * bytes_of(b).len() - 7 <= b.len() <= 8 * bytes_of(b).len(),
        8 * k + 8 <= b.len() ==> bytes_of(b)[k] == number(b.subrange(8 * k, 8 * k + 8)),
        b.len() < 8 * k + 8 ==> bytes_of(b)[k] == number(
            b.subrange(8 * k, b.len() as int) + Seq::new((8 * k + 8 - b.len()) as nat, |i: int| false),
        ),
{
    let e = if 8 * k + 8 <= b.len() {
        b.subrange(8 * k, 8 * k + 8)
    } else {
        b.subrange(8 * k, b.len() as int) + Seq::new((8 * k + 8 - b.len()) as nat, |i: int| false)
    };
    assert(e.len() == 8);
    number_of_eight(e);
    assert forall|i: int| 0 <= i < 8 implies #[trigger] weight(b, 8 * k + i) == (if e[i] {
        1int
    } else {
        0
    }) by {}
    assert(weight(b, 8 * k + 0) == weight(b, 8 * k));
}

proof fn number_of_eight(e: Seq<bool>)
    requires
        e.len() == 8,
    ensures
        number(e) == 128 * weight(e, 0) + 64 * weight(e, 1) + 32 * weight(e, 2) + 16 * weight(e, 3)
            + 8 * weight(e, 4) + 4 * weight(e, 5) + 2 * weight(e, 6) + weight(e, 7),
        number(e) < 256,
{
    reveal_with_fuel(number, 9);
}

/// The first `n` bits of a pattern of bytes.
pub open spec fn pattern_bits(p: Seq<u8>, n: nat) -> Seq<bool> {
    Seq::new(n, |i: int| pattern_bit(p, i))
}

proof fn eight_bits(x: int)
    requires
        0 <= x < 256,
    ensures
        128 * (x / 128 % 2) + 64 * (x / 64 % 2) + 32 * (x / 32 % 2) + 16 * (x / 16 % 2) + 8 * (x / 8
            % 2) + 4 * (x / 4 % 2) + 2 * (x / 2 % 2) + x % 2 == x,
{
    let (a, b, c) = (x / 2, x / 4, x / 8);
    let (d, e, f, g) = (x / 16, x / 32, x / 64, x / 128);
    assert(x == 2 * a + x % 2);
    assert(a == 2 * b + a % 2);
    assert(b == 2 * c + b % 2);
    assert(c == 2 * d + c % 2);
    assert(d == 2 * e + d % 2);
    assert(e == 2 * f + e % 2);
    assert(f == 2 * g + f % 2);
    assert(g == g % 2);
}

proof fn pattern_weight(p: Seq<u8>, k: int, i: int)
    requires
        0 <= k < p.len(),
        0 <= i < 8,
    ensures
        weight(pattern_bits(p, (8 * p.len()) as nat), 8 * k + i) == p[k] as int / power(7 - i) % 2,
{
    let b = pattern_bits(p, (8 * p.len()) as nat);
    assert((8 * k + i) / 8 == k && (8 * k + i) % 8 == i);
    assert(b[8 * k + i] == pattern_bit(p, 8 * k + i));
}

/// The bits of a pattern are the bits of its bytes: packing them gives the bytes
/// back.
pub proof fn patterns_are_their_bytes(p: Seq<u8>)
    ensures
        bytes_of(pattern_bits(p, (8 * p.len()) as nat)) == p,
{
    let b = pattern_bits(p, (8 * p.len()) as nat);
    assert forall|k: int| 0 <= k < p.len() implies #[trigger] byte_at(b, k) == p[k] by {
        pattern_weight(p, k, 0);
        pattern_weight(p, k, 1);
        pattern_weight(p, k, 2);
        pattern_weight(p, k, 3);
        pattern_weight(p, k, 4);
        pattern_weight(p, k, 5);
        pattern_weight(p, k, 6);
        pattern_weight(p, k, 7);
        eight_bits(p[k] as int);
    }
    assert(bytes_of(b) =~= p);
}

/// Where a pattern is found it stands, and nowhere before. Where it is not found
/// it does not stand at all.
pub proof fn what_is_found_stands_there(b: Seq<bool>, p: Seq<u8>, n: nat, at: int)
    requires
        0 <= at,
        at + n <= b.len(),
    ensures
        find_spec(b, p, n as int) == Some(at) ==> b.subrange(at, at + n) == pattern_bits(p, n),
        b.subrange(at, at + n) == pattern_bits(p, n) ==> (find_spec(b, p, n as int) matches Some(
            first,
        ) && 0 <= first <= at),
{
    let here = b.subrange(at, at + n);
    if find_spec(b, p, n as int) == Some(at) {
        let k = choose|k: int| #[trigger] occurs_at(b, p, n as int, k);
        somewhere_is_first(b, p, n as int, k);
        let w = choose|w: int| first_at(b, p, n as int, w);
        assert(occurs_at(b, p, n as int, at));
        assert(here =~= pattern_bits(p, n));
    }
    if here == pattern_bits(p, n) {
        assert forall|i: int| 0 <= i < n implies b[at + i] == #[trigger] pattern_bit(p, i) by {
            assert(here[i] == pattern_bits(p, n)[i]);
        }
        assert(occurs_at(b, p, n as int, at));
        somewhere_is_first(b, p, n as int, at);
        let w = choose|w: int| first_at(b, p, n as int, w);
        first_is_unique(b, p, n as int, w);
    }
}

/// There is a first place wherever there is one at all.
proof fn somewhere_is_first(b: Seq<bool>, p: Seq<u8>, n: int, at: int)
    requires
        occurs_at(b, p, n, at),
    ensures
        exists|w: int| first_at(b, p, n, w),
    decreases at,
{
    if exists|k: int| 0 <= k < at && #[trigger] occurs_at(b, p, n, k) {
        let k = choose|k: int| 0 <= k < at && #[trigger] occurs_at(b, p, n, k);
        somewhere_is_first(b, p, n, k);
    } else {
        assert(first_at(b, p, n, at));
    }
}

/// Flipping turns over every bit, so what is sent in either polarity is sent.
pub proof fn flipping_turns_every_bit(b: Seq<bool>, i: int)
    requires
        0 <= i < b.len(),
    ensures
        flipped(b).len() == b.len(),
        flipped(b)[i] != b[i],
{
}

} // verus!
