//! Framing of a polyphase filter bank.
//!
//! With `M` channels the bank advances `M/2` input samples per output frame,
//! so each channel comes out at twice the rate its width needs and a signal
//! that straddles a boundary is still received. This module decides when a
//! frame is due, which samples it is made of, which tap weighs each of them,
//! and which channel is which frequency. Weighing and transforming the samples
//! is the caller's part, so `T` is whatever it computes with.
//!
//! Channels come out in transform order: indices below `M/2` are the offsets
//! from zero up, and the others are the negative half.

use vstd::prelude::*;
use crate::fixed::{nearest, nearest_signed, Micro};
#[allow(unused_imports)]
use crate::fixed::{
    nearest_at_most, nearest_bounds, nearest_signed_is, nearest_signed_spec, nearest_spec,
    rounding_is_close,
};

verus! {

/// State of the framing.
#[verifier::ext_equal]
pub struct Framing<T> {
    /// The latest samples, oldest first, as many as the prototype has taps.
    pub window: Seq<T>,
    /// Samples taken in toward the next frame.
    pub fill: nat,
    /// Whether the next frame is an odd one, counting from zero.
    pub odd: bool,
}

/// One sample taken in.
pub open spec fn pushed<T>(s: Framing<T>, x: T, advance: nat) -> Framing<T> {
    Framing {
        window: s.window.drop_first().push(x),
        fill: if s.fill + 1 == advance {
            0
        } else {
            s.fill + 1
        },
        odd: if s.fill + 1 == advance {
            !s.odd
        } else {
            s.odd
        },
    }
}

/// A block of samples taken in.
pub open spec fn fed<T>(s: Framing<T>, block: Seq<T>, advance: nat) -> Framing<T>
    decreases block.len(),
{
    if block.len() == 0 {
        s
    } else {
        pushed(fed(s, block.drop_last(), advance), block.last(), advance)
    }
}

/// The frames that a block of samples completes: the samples of each and
/// whether it is an odd one.
pub open spec fn frames<T>(s: Framing<T>, block: Seq<T>, advance: nat) -> Seq<(Seq<T>, bool)>
    decreases block.len(),
{
    if block.len() == 0 {
        Seq::empty()
    } else {
        let before = fed(s, block.drop_last(), advance);
        let earlier = frames(s, block.drop_last(), advance);
        if before.fill + 1 == advance {
            earlier.push((before.window.drop_first().push(block.last()), before.odd))
        } else {
            earlier
        }
    }
}

/// The index of channel `m` counted from the middle of the band.
pub open spec fn signed_channel(m: nat, channels: nat) -> int {
    if m < channels / 2 {
        m as int
    } else {
        m - channels
    }
}

/// Offset of channel `m` from the tuned centre, in millionths of a hertz.
pub open spec fn offset_spec(m: nat, channels: nat, rate: int) -> int {
    nearest_signed_spec(signed_channel(m, channels) * rate, channels)
}

/// The channel whose centre is nearest an offset.
pub open spec fn channel_spec(offset: int, channels: nat, rate: int) -> int {
    nearest_signed_spec(offset * channels, rate as nat) % (channels as int)
}

/// Polyphase filter bank framing.
pub struct Channelizer<T> {
    channels: usize,
    taps_per_branch: usize,
    zero: T,
    /// Doubled history buffer. The latest samples in time order live at
    /// `hist[pos .. pos + len]`.
    hist: Vec<T>,
    pos: usize,
    fill: usize,
    odd_frame: bool,
}

impl<T> View for Channelizer<T> {
    type V = Framing<T>;

    closed spec fn view(&self) -> Framing<T> {
        Framing {
            window: self.hist@.subrange(self.pos as int, self.pos + self.taps()),
            fill: self.fill as nat,
            odd: self.odd_frame,
        }
    }
}

impl<T: Copy> Channelizer<T> {
    pub closed spec fn width(&self) -> nat {
        self.channels as nat
    }

    pub closed spec fn depth(&self) -> nat {
        self.taps_per_branch as nat
    }

    /// What stands for the samples before the first.
    pub closed spec fn silence(&self) -> T {
        self.zero
    }

    pub closed spec fn wf(&self) -> bool {
        &&& self.channels >= 2
        &&& self.channels % 2 == 0
        &&& self.taps_per_branch >= 2
        &&& self.hist@.len() == 2 * self.taps()
        &&& self.pos + self.taps() <= self.hist@.len()
        &&& self.fill < self.channels / 2
    }

    pub open spec fn unchanged_shape(&self, other: &Self) -> bool {
        &&& self.width() == other.width()
        &&& self.depth() == other.depth()
        &&& self.silence() == other.silence()
    }
}

impl<T> Channelizer<T> {
    /// Taps of the prototype.
    pub closed spec fn taps(&self) -> int {
        self.channels * self.taps_per_branch
    }
}

impl<T: Copy> Channelizer<T> {
    /// What holds of every bank.
    pub proof fn shape(&self)
        requires
            self.wf(),
        ensures
            self.width() >= 2,
            self.width() % 2 == 0,
            self.depth() >= 2,
            self.taps() == self.width() * self.depth(),
            self.taps() >= 4,
            self@.window.len() == self.taps(),
            self@.fill < self.width() / 2,
    {
        assert(self.channels * self.taps_per_branch >= 4) by (nonlinear_arith)
            requires
                self.channels >= 2,
                self.taps_per_branch >= 2,
        ;
    }

    /// A bank of `channels`, which must be even, with `taps_per_branch` taps
    /// in each branch of its prototype.
    pub fn new(channels: usize, taps_per_branch: usize, zero: T) -> (r: Channelizer<T>)
        requires
            channels >= 2,
            channels % 2 == 0,
            taps_per_branch >= 2,
            2 * (channels * taps_per_branch) <= usize::MAX,
        ensures
            r.wf(),
            r.width() == channels,
            r.depth() == taps_per_branch,
            r.silence() == zero,
            r@ == (Framing {
                window: Seq::new((channels * taps_per_branch) as nat, |i: int| zero),
                fill: 0,
                odd: false,
            }),
    {
        assert(channels * taps_per_branch >= 4) by (nonlinear_arith)
            requires
                channels >= 2,
                taps_per_branch >= 2,
        ;
        let len: usize = channels * taps_per_branch;
        let hist: Vec<T> = silent(zero, 2 * len);
        let r = Channelizer {
            channels,
            taps_per_branch,
            zero,
            hist,
            pos: 0,
            fill: 0,
            odd_frame: false,
        };
        assert(r@.window =~= Seq::new(len as nat, |i: int| zero));
        r
    }

    pub fn channels(&self) -> (r: usize)
        ensures
            r == self.width(),
    {
        self.channels
    }

    /// Taps in each branch.
    pub fn taps_per_branch(&self) -> (r: usize)
        ensures
            r == self.depth(),
    {
        self.taps_per_branch
    }

    /// Input samples consumed per output frame.
    pub fn advance(&self) -> (r: usize)
        ensures
            r == self.width() / 2,
    {
        self.channels / 2
    }

    /// Output sample rate of every channel, given the input rate.
    pub fn channel_rate(&self, input_rate: Micro) -> (r: Micro)
        requires
            self.wf(),
            input_rate@ >= 0,
        ensures
            r@ == nearest_spec((input_rate@ * 2) as nat, self.width()),
    {
        let n: u128 = nearest(input_rate.0 as u128 * 2, self.channels as u128);
        proof {
            rates_are_small((input_rate@ * 2) as nat, self.width(), input_rate@ as nat);
        }
        Micro(n as i64)
    }

    /// Spectral width occupied by one channel.
    pub fn channel_bandwidth(&self, input_rate: Micro) -> (r: Micro)
        requires
            self.wf(),
            input_rate@ >= 0,
        ensures
            r@ == nearest_spec(input_rate@ as nat, self.width()),
    {
        let n: u128 = nearest(input_rate.0 as u128, self.channels as u128);
        proof {
            rates_are_small(input_rate@ as nat, self.width(), input_rate@ as nat);
        }
        Micro(n as i64)
    }

    /// Offset of channel `m` from the tuned centre.
    pub fn channel_offset_hz(&self, m: usize, input_rate: Micro) -> (r: Micro)
        requires
            self.wf(),
            m < self.width(),
            input_rate@ >= 0,
        ensures
            r@ == offset_spec(m as nat, self.width(), input_rate@),
    {
        let half: usize = self.channels / 2;
        let signed: i128 = if m < half {
            m as i128
        } else {
            m as i128 - self.channels as i128
        };
        proof {
            offsets_lie_within_half_the_rate(m as nat, self.width(), input_rate@);
            assert(-0xffff_ffff_ffff_ffff * 0x7fff_ffff_ffff_ffff <= signed * input_rate@
                <= 0xffff_ffff_ffff_ffff * 0x7fff_ffff_ffff_ffff) by (nonlinear_arith)
                requires
                    -0xffff_ffff_ffff_ffff <= signed <= 0xffff_ffff_ffff_ffff,
                    0 <= input_rate@ <= 0x7fff_ffff_ffff_ffff,
            ;
        }
        let n: i128 = nearest_signed(signed * input_rate.0 as i128, self.channels as u128);
        Micro(n as i64)
    }

    /// The channel whose centre is nearest a given offset, wrapping round the
    /// band.
    pub fn channel_for_offset(&self, offset_hz: Micro, input_rate: Micro) -> (r: usize)
        requires
            self.wf(),
            input_rate@ > 0,
        ensures
            r == channel_spec(offset_hz@, self.width(), input_rate@),
    {
        proof {
            assert(-0x8000_0000_0000_0000 * 0xffff_ffff_ffff_ffff <= offset_hz@ * self.channels
                <= 0x8000_0000_0000_0000 * 0xffff_ffff_ffff_ffff) by (nonlinear_arith)
                requires
                    -0x8000_0000_0000_0000 <= offset_hz@ <= 0x7fff_ffff_ffff_ffff,
                    0 <= self.channels <= 0xffff_ffff_ffff_ffff,
            ;
        }
        let m: i128 = nearest_signed(
            offset_hz.0 as i128 * self.channels as i128,
            input_rate.0 as u128,
        );
        let c: i128 = self.channels as i128;
        let t: i128 = if m >= 0 {
            m % c
        } else {
            let back: i128 = (-(m + 1)) % c;
            c - 1 - back
        };
        proof {
            if m < 0 {
                wraps_below_zero(m as int, c as int);
            }
        }
        t as usize
    }

    /// Delay through the prototype filter, in input samples.
    pub fn latency_samples(&self) -> (r: usize)
        requires
            self.wf(),
        ensures
            r == self.width() * self.depth() / 2,
    {
        self.hist.len() / 4
    }

    /// Forgets everything heard.
    pub fn reset(&mut self)
        requires
            old(self).wf(),
        ensures
            final(self).wf(),
            final(self).unchanged_shape(&*old(self)),
            final(self)@ == (Framing {
                window: Seq::new(old(self)@.window.len(), |i: int| old(self).silence()),
                fill: 0,
                odd: false,
            }),
    {
        proof {
            self.shape();
        }
        let len: usize = self.hist.len();
        self.hist = silent(self.zero, len);
        self.pos = 0;
        self.fill = 0;
        self.odd_frame = false;
        assert(self@.window =~= Seq::new(old(self)@.window.len(), |i: int| old(self).silence()));
    }

    /// Takes in one sample and says whether it completes a frame, and then
    /// whether that frame is an odd one.
    pub fn push(&mut self, x: T) -> (r: Option<bool>)
        requires
            old(self).wf(),
        ensures
            final(self).wf(),
            final(self).unchanged_shape(&*old(self)),
            final(self)@ == pushed(old(self)@, x, old(self).width() / 2),
            r == (if old(self)@.fill + 1 == old(self).width() / 2 {
                Some(old(self)@.odd)
            } else {
                None::<bool>
            }),
    {
        proof {
            self.shape();
        }
        let size: usize = self.hist.len();
        let len: usize = size / 2;
        let ghost window = self@.window;
        if self.pos + len == size {
            self.to_front(len);
        }
        assert(self@.window =~= window);
        let ghost before = self.hist@;
        let at: usize = self.pos + len;
        self.hist.set(at, x);
        self.pos = self.pos + 1;
        self.fill = self.fill + 1;
        let due: bool = self.fill == self.channels / 2;
        let odd: bool = self.odd_frame;
        if due {
            self.fill = 0;
            self.odd_frame = !odd;
        }
        assert(self@.window =~= window.drop_first().push(x)) by {
            assert forall|i: int| 0 <= i < len implies self@.window[i]
                == window.drop_first().push(x)[i] by {
                if i < len - 1 {
                    assert(before[self.pos + i] == window[i + 1]);
                }
            }
        }
        if due {
            Some(odd)
        } else {
            None
        }
    }

    /// Moves the window to the front of the buffer.
    fn to_front(&mut self, len: usize)
        requires
            old(self).wf(),
            len == old(self).taps(),
            old(self).pos + len == old(self).hist@.len(),
        ensures
            final(self).wf(),
            final(self).unchanged_shape(&*old(self)),
            final(self).taps() == old(self).taps(),
            final(self)@ == old(self)@,
            final(self).pos == 0,
    {
        let ghost before = self.hist@;
        let pos: usize = self.pos;
        let size: usize = self.hist.len();
        let mut i: usize = 0;
        while i < len
            invariant
                size == 2 * len,
                i <= len,
                pos == len,
                self.hist@.len() == 2 * len,
                before.len() == 2 * len,
                self.channels == old(self).channels,
                self.taps_per_branch == old(self).taps_per_branch,
                self.zero == old(self).zero,
                self.pos == old(self).pos,
                self.fill == old(self).fill,
                self.odd_frame == old(self).odd_frame,
                forall|k: int| 0 <= k < i ==> #[trigger] self.hist@[k] == before[pos + k],
                forall|k: int| len <= k < 2 * len ==> #[trigger] self.hist@[k] == before[k],
            decreases len - i,
        {
            let x: T = self.hist[pos + i];
            self.hist.set(i, x);
            i += 1;
        }
        self.pos = 0;
        assert(self@.window =~= old(self)@.window);
    }

    /// Takes in samples as far as the next frame. Returns how many were taken
    /// and, where they complete a frame, whether it is an odd one.
    pub fn process(&mut self, input: &[T]) -> (r: (usize, Option<bool>))
        requires
            old(self).wf(),
        ensures
            final(self).wf(),
            final(self).unchanged_shape(&*old(self)),
            r.0 == (if old(self)@.fill + input@.len() >= old(self).width() / 2 {
                old(self).width() / 2 - old(self)@.fill
            } else {
                input@.len() as int
            }),
            final(self)@ == fed(old(self)@, input@.take(r.0 as int), old(self).width() / 2),
            frames(old(self)@, input@.take(r.0 as int), old(self).width() / 2) == match r.1 {
                Some(odd) => seq![(final(self)@.window, odd)],
                None => Seq::empty(),
            },
    {
        let n: usize = input.len();
        let ghost advance = self.width() / 2;
        let mut i: usize = 0;
        while i < n
            invariant
                n == input@.len(),
                i <= n,
                self.wf(),
                self.unchanged_shape(&*old(self)),
                advance == old(self).width() / 2,
                self@ == fed(old(self)@, input@.take(i as int), advance),
                frames(old(self)@, input@.take(i as int), advance) == Seq::<(Seq<T>, bool)>::empty(),
                self@.fill == old(self)@.fill + i,
                self@.fill < advance,
            decreases n - i,
        {
            assert(input@.take(i + 1).drop_last() =~= input@.take(i as int));
            let due: Option<bool> = self.push(input[i]);
            i += 1;
            if due.is_some() {
                assert(frames(old(self)@, input@.take(i as int), advance) =~= seq![
                    (self@.window, due->0),
                ]);
                return (i, due);
            }
        }
        (i, None)
    }

    /// The sample that tap `n` of the prototype weighs: the latest for the
    /// first tap, and back in time from there.
    pub fn sample(&self, n: usize) -> (r: T)
        requires
            self.wf(),
            n < self.taps(),
        ensures
            r == self@.window[self@.window.len() - 1 - n],
    {
        proof {
            self.shape();
        }
        let len: usize = self.hist.len() / 2;
        self.hist[self.pos + (len - 1 - n)]
    }

    /// The tap that stands at step `t` of branch `k`.
    pub fn tap(&self, k: usize, t: usize) -> (r: usize)
        requires
            self.wf(),
            k < self.width(),
            t < self.depth(),
        ensures
            r == k + t * self.width(),
            r < self.taps(),
    {
        proof {
            tap_is_inside(k as int, t as int, self.channels as int, self.taps_per_branch as int);
        }
        let size: usize = self.hist.len();
        assert(size == 2 * self.taps());
        k + t * self.channels
    }
}

/// The samples that branch `k` of a frame weighs, step by step: those that lie
/// `k` and whole frames of channels back from the latest.
pub open spec fn branch_spec<T>(window: Seq<T>, k: int, channels: nat, depth: nat) -> Seq<T> {
    Seq::new(depth, |t: int| window[window.len() - 1 - (k + t * channels)])
}

impl<T: Copy> Channelizer<T> {
    /// The samples of the latest frame by branch. Weighing and adding up each
    /// branch gives one value per channel to transform.
    pub fn branches(&self) -> (r: Vec<Vec<T>>)
        requires
            self.wf(),
        ensures
            r@.len() == self.width(),
            forall|k: int|
                0 <= k < r@.len() ==> (#[trigger] r@[k])@ == branch_spec(
                    self@.window,
                    k,
                    self.width(),
                    self.depth(),
                ),
    {
        let mut v: Vec<Vec<T>> = Vec::new();
        let mut k: usize = 0;
        while k < self.channels
            invariant
                self.wf(),
                k <= self.channels,
                v@.len() == k,
                forall|i: int|
                    0 <= i < k ==> (#[trigger] v@[i])@ == branch_spec(
                        self@.window,
                        i,
                        self.width(),
                        self.depth(),
                    ),
            decreases self.channels - k,
        {
            let mut b: Vec<T> = Vec::new();
            let mut t: usize = 0;
            while t < self.taps_per_branch
                invariant
                    self.wf(),
                    k < self.channels,
                    t <= self.taps_per_branch,
                    b@.len() == t,
                    forall|i: int|
                        0 <= i < t ==> #[trigger] b@[i] == self@.window[self@.window.len() - 1 - (k
                            + i * self.width())],
                decreases self.taps_per_branch - t,
            {
                b.push(self.sample(self.tap(k, t)));
                t += 1;
            }
            assert(b@ =~= branch_spec(self@.window, k as int, self.width(), self.depth()));
            v.push(b);
            k += 1;
        }
        v
    }
}

/// Whether the phase of channel `m` is turned by half a cycle in a frame.
pub fn negated(odd_frame: bool, m: usize) -> (r: bool)
    ensures
        r == (odd_frame && m % 2 == 1),
{
    odd_frame && m % 2 == 1
}

/// `n` samples of silence.
fn silent<T: Copy>(zero: T, n: usize) -> (r: Vec<T>)
    ensures
        r@ == Seq::new(n as nat, |i: int| zero),
{
    let mut v: Vec<T> = Vec::new();
    let mut i: usize = 0;
    while i < n
        invariant
            i <= n,
            v@ == Seq::new(i as nat, |k: int| zero),
        decreases n - i,
    {
        v.push(zero);
        i += 1;
        assert(v@ =~= Seq::new(i as nat, |k: int| zero));
    }
    v
}

proof fn tap_is_inside(k: int, t: int, m: int, depth: int)
    requires
        0 <= k < m,
        0 <= t < depth,
    ensures
        0 <= t * m,
        k + t * m < m * depth,
{
    assert(0 <= t * m && t * m + m <= m * depth) by (nonlinear_arith)
        requires
            0 <= t < depth,
            0 <= m,
    ;
}

proof fn wraps_below_zero(m: int, c: int)
    requires
        m < 0,
        c > 0,
    ensures
        m % c == c - 1 - (-(m + 1)) % c,
        0 <= m % c < c,
{
    let b = -(m + 1);
    assert(m == -b - 1);
    let q = b / c;
    let r = b % c;
    assert(b == c * q + r) by {
        vstd::arithmetic::div_mod::lemma_fundamental_div_mod(b, c);
    }
    assert(m == (-q - 1) * c + (c - 1 - r)) by (nonlinear_arith)
        requires
            m == -b - 1,
            b == c * q + r,
    ;
    vstd::arithmetic::div_mod::lemma_fundamental_div_mod_converse(m, c, -q - 1, c - 1 - r);
}

proof fn rates_are_small(num: nat, den: nat, bound: nat)
    requires
        den >= 2,
        num <= 2 * bound,
    ensures
        nearest_spec(num, den) <= bound,
{
    assert(num <= bound * den) by (nonlinear_arith)
        requires
            num <= 2 * bound,
            den >= 2,
    ;
    nearest_at_most(num, den, bound);
}

/// An offset lies within half the rate, to the nearest millionth of a hertz.
pub proof fn offsets_lie_within_half_the_rate(m: nat, channels: nat, rate: int)
    requires
        m < channels,
        channels >= 2,
        channels % 2 == 0,
        rate >= 0,
    ensures
        -rate - 1 <= 2 * offset_spec(m, channels, rate) <= rate + 1,
        rate % 2 == 0 ==> -rate <= 2 * offset_spec(m, channels, rate) <= rate,
{
    let (signed, c) = (signed_channel(m, channels), channels as int);
    let off = offset_spec(m, channels, rate);
    rounding_is_close(signed * rate, channels);
    assert(-(c * rate) <= 2 * (signed * rate) <= c * rate) by (nonlinear_arith)
        requires
            -c <= 2 * signed <= c,
            rate >= 0,
    ;
    assert(-rate - 1 <= 2 * off <= rate + 1) by (nonlinear_arith)
        requires
            -c <= 2 * (c * off) - 2 * (signed * rate) <= c,
            -(c * rate) <= 2 * (signed * rate) <= c * rate,
            c >= 2,
    ;
}

/// Looking up the channel at a channel's own offset gives that channel back,
/// as long as channels lie at least a millionth of a hertz apart. The offset is
/// then less than half the rate and negative exactly for the upper half of the
/// channels, and any offset at all is that of some channel.
pub proof fn offset_and_channel_lookups_are_inverse(m: nat, channels: nat, rate: int)
    requires
        m < channels,
        channels >= 2,
        channels % 2 == 0,
        rate >= channels,
    ensures
        channel_spec(offset_spec(m, channels, rate), channels, rate) == m,
        -rate - 1 <= 2 * offset_spec(m, channels, rate) < rate,
        rate % 2 == 0 ==> -rate <= 2 * offset_spec(m, channels, rate),
        offset_spec(m, channels, rate) < 0 <==> m >= channels / 2,
        forall|o: int| 0 <= #[trigger] channel_spec(o, channels, rate) < channels,
{
    offsets_lie_within_half_the_rate(m, channels, rate);
    offsets_have_the_sign_of_their_channel(m, channels, rate);
    let (signed, c) = (signed_channel(m, channels), channels as int);
    let off = offset_spec(m, channels, rate);
    rounding_is_close(signed * rate, channels);
    assert(signed * rate == rate * signed) by (nonlinear_arith);
    assert(off * c == c * off) by (nonlinear_arith);
    if rate == c {
        nearest_signed_is(signed * rate, channels, signed);
    }
    nearest_signed_is(off * c, rate as nat, signed);
    vstd::arithmetic::div_mod::lemma_fundamental_div_mod_converse(
        signed,
        c,
        if signed < 0 {
            -1
        } else {
            0
        },
        m as int,
    );
}

proof fn offsets_have_the_sign_of_their_channel(m: nat, channels: nat, rate: int)
    requires
        m < channels,
        channels >= 2,
        channels % 2 == 0,
        rate >= channels,
    ensures
        2 * offset_spec(m, channels, rate) < rate,
        offset_spec(m, channels, rate) < 0 <==> m >= channels / 2,
{
    let (signed, c) = (signed_channel(m, channels), channels as int);
    let off = offset_spec(m, channels, rate);
    rounding_is_close(signed * rate, channels);
    assert(2 * off < rate && (signed < 0 ==> off < 0) && (signed >= 0 ==> off >= 0))
        by (nonlinear_arith)
        requires
            -c <= 2 * (c * off) - 2 * (signed * rate) <= c,
            2 * signed <= c - 2,
            rate >= c,
            c >= 2,
    ;
}

/// Every tap of the prototype belongs to one step of one branch.
pub proof fn branches_share_out_the_taps(n: nat, channels: nat, depth: nat)
    requires
        channels > 0,
        n < channels * depth,
    ensures
        n % channels < channels,
        n / channels < depth,
        n == n % channels + (n / channels) * channels,
        forall|k: nat, t: nat|
            k < channels && #[trigger] (k + t * channels) == n ==> k == n % channels && t == n
                / channels,
{
    let c = channels as int;
    vstd::arithmetic::div_mod::lemma_fundamental_div_mod(n as int, c);
    assert(c * (n as int / c) == (n as int / c) * c) by (nonlinear_arith);
    assert(n as int / c < depth) by (nonlinear_arith)
        requires
            n < c * depth,
            c > 0,
            n as int == c * (n as int / c) + n as int % c,
            0 <= n as int % c,
    ;
    assert forall|k: nat, t: nat|
        k < channels && #[trigger] (k + t * channels) == n implies k == n % channels && t == n
        / channels by {
        assert(n == c * t + k) by (nonlinear_arith)
            requires
                n == k + t * c,
        ;
        vstd::arithmetic::div_mod::lemma_fundamental_div_mod_converse(
            n as int,
            c,
            t as int,
            k as int,
        );
    }
}

/// Advancing by half the channels turns the phase of channel `m` by half a
/// cycle in the odd frames where `m` is odd, and leaves it alone otherwise: the
/// correction is a change of sign.
pub proof fn phase_correction_is_a_sign(m: nat, frame: nat, channels: nat)
    requires
        channels >= 2,
        channels % 2 == 0,
    ensures
        (m * (frame * (channels / 2))) as nat % channels == (if m % 2 == 1 && frame % 2 == 1 {
            channels / 2
        } else {
            0
        }),
{
    let h = (channels / 2) as int;
    let c = channels as int;
    assert(c == 2 * h);
    let turns = m * (frame * (channels / 2));
    let mf = m * frame;
    assert(turns == mf * h) by (nonlinear_arith)
        requires
            turns == m * (frame * h),
            mf == m * frame,
    ;
    assert(m % 2 == 1 && frame % 2 == 1 ==> mf % 2 == 1) by {
        vstd::arithmetic::div_mod::lemma_mul_mod_noop(m as int, frame as int, 2);
    }
    assert(!(m % 2 == 1 && frame % 2 == 1) ==> mf % 2 == 0) by {
        vstd::arithmetic::div_mod::lemma_mul_mod_noop(m as int, frame as int, 2);
    }
    if mf % 2 == 1 {
        let q = mf / 2;
        assert(turns == c * q + h) by (nonlinear_arith)
            requires
                turns == mf * h,
                mf == 2 * q + 1,
                c == 2 * h,
        ;
        vstd::arithmetic::div_mod::lemma_fundamental_div_mod_converse(turns as int, c, q as int, h);
    } else {
        let q = mf / 2;
        assert(turns == c * q + 0) by (nonlinear_arith)
            requires
                turns == mf * h,
                mf == 2 * q,
                c == 2 * h,
        ;
        vstd::arithmetic::div_mod::lemma_fundamental_div_mod_converse(turns as int, c, q as int, 0);
    }
}

/// A block of samples completes one frame per advance, counting what was taken
/// in before it, and the frames alternate between even and odd.
pub proof fn frame_count_matches_the_advance<T>(s: Framing<T>, block: Seq<T>, advance: nat)
    requires
        s.fill < advance,
    ensures
        frames(s, block, advance).len() == (s.fill + block.len()) / advance,
        fed(s, block, advance).fill == (s.fill + block.len()) % advance,
        fed(s, block, advance).odd == (s.odd != (frames(s, block, advance).len() % 2 == 1)),
        forall|i: int|
            0 <= i < frames(s, block, advance).len() ==> #[trigger] frames(s, block, advance)[i].1
                == (s.odd != (i % 2 == 1)),
    decreases block.len(),
{
    let n = (s.fill + block.len()) as int;
    let a = advance as int;
    if block.len() == 0 {
        vstd::arithmetic::div_mod::lemma_fundamental_div_mod_converse(n, a, 0, n);
    } else {
        frame_count_matches_the_advance(s, block.drop_last(), advance);
        let before = fed(s, block.drop_last(), advance);
        let q = (n - 1) / a;
        vstd::arithmetic::div_mod::lemma_fundamental_div_mod(n - 1, a);
        if before.fill + 1 == advance {
            assert(n == a * (q + 1) + 0) by (nonlinear_arith)
                requires
                    n - 1 == a * q + (a - 1),
            ;
            vstd::arithmetic::div_mod::lemma_fundamental_div_mod_converse(n, a, q + 1, 0);
        } else {
            assert(before.fill == (n - 1) % a);
            assert(n == q * a + (before.fill + 1)) by (nonlinear_arith)
                requires
                    n - 1 == a * q + before.fill,
            ;
            vstd::arithmetic::div_mod::lemma_fundamental_div_mod_converse(
                n,
                a,
                q,
                (before.fill + 1) as int,
            );
        }
    }
}

/// Every frame has the samples of all branches, whatever was taken in.
pub proof fn frames_fill_every_branch<T>(s: Framing<T>, block: Seq<T>, advance: nat)
    requires
        s.window.len() > 0,
    ensures
        fed(s, block, advance).window.len() == s.window.len(),
        forall|i: int|
            0 <= i < frames(s, block, advance).len() ==> (#[trigger] frames(
                s,
                block,
                advance,
            )[i]).0.len() == s.window.len(),
    decreases block.len(),
{
    if block.len() > 0 {
        frames_fill_every_branch(s, block.drop_last(), advance);
        let earlier = frames(s, block.drop_last(), advance);
        let all = frames(s, block, advance);
        assert forall|i: int| 0 <= i < all.len() implies (#[trigger] all[i]).0.len()
            == s.window.len() by {
            if i < earlier.len() {
                assert(all[i] == earlier[i]);
            }
        }
    }
}

/// How the input is cut into blocks does not change the frames.
pub proof fn split_input_gives_the_same_frames<T>(
    s: Framing<T>,
    a: Seq<T>,
    b: Seq<T>,
    advance: nat,
)
    ensures
        fed(s, a + b, advance) == fed(fed(s, a, advance), b, advance),
        frames(s, a + b, advance) == frames(s, a, advance) + frames(fed(s, a, advance), b, advance),
    decreases b.len(),
{
    if b.len() == 0 {
        assert(a + b =~= a);
        assert(frames(s, a, advance) + Seq::empty() =~= frames(s, a, advance));
    } else {
        split_input_gives_the_same_frames(s, a, b.drop_last(), advance);
        assert((a + b).drop_last() =~= a + b.drop_last());
        assert(frames(s, a + b, advance) =~= frames(s, a, advance) + frames(
            fed(s, a, advance),
            b,
            advance,
        ));
    }
}

/// The window holds the latest samples in the order they came, and the sample
/// that waits longest leaves it first.
pub proof fn the_window_is_the_latest_samples<T>(s: Framing<T>, block: Seq<T>, advance: nat)
    requires
        s.window.len() > 0,
    ensures
        fed(s, block, advance).window == (s.window + block).skip(block.len() as int),
    decreases block.len(),
{
    let all = s.window + block;
    if block.len() == 0 {
        assert(all.skip(0) =~= s.window);
    } else {
        let head = block.drop_last();
        the_window_is_the_latest_samples(s, head, advance);
        let before = (s.window + head).skip(head.len() as int);
        assert(before.drop_first().push(block.last()) =~= all.skip(block.len() as int));
    }
}

/// Each frame is the window at the sample that completed it: the frames come an
/// advance apart and overlap in everything else.
pub proof fn frames_come_an_advance_apart<T>(s: Framing<T>, block: Seq<T>, advance: nat, i: int)
    requires
        s.window.len() > 0,
        s.fill < advance,
        0 <= i < frames(s, block, advance).len(),
    ensures
        ({
            let at = (i + 1) * advance - s.fill;
            &&& 0 < at <= block.len()
            &&& frames(s, block, advance)[i].0 == (s.window + block).subrange(
                at,
                at + s.window.len(),
            )
        }),
    decreases block.len(),
{
    let head = block.drop_last();
    let earlier = frames(s, head, advance);
    frame_count_matches_the_advance(s, block, advance);
    frame_count_matches_the_advance(s, head, advance);
    let all = s.window + block;
    if i < earlier.len() {
        frames_come_an_advance_apart(s, head, advance, i);
        let at = (i + 1) * advance - s.fill;
        assert(frames(s, block, advance)[i] == earlier[i]);
        assert((s.window + head).subrange(at, at + s.window.len()) =~= all.subrange(
            at,
            at + s.window.len(),
        ));
    } else {
        let before = fed(s, head, advance);
        the_window_is_the_latest_samples(s, head, advance);
        let at = block.len() as int;
        let (n, a) = ((s.fill + head.len()) as int, advance as int);
        vstd::arithmetic::div_mod::lemma_fundamental_div_mod(n, a);
        assert((i + 1) * a == a * (n / a) + a) by (nonlinear_arith)
            requires
                i == n / a,
        ;
        assert(before.window.drop_first().push(block.last()) =~= all.subrange(
            at,
            at + s.window.len(),
        ));
    }
}

/// Channels are sampled twice as fast as they are wide, and together they are as
/// wide as the input.
pub proof fn channels_are_sampled_twice_as_fast<T: Copy>(
    ch: &Channelizer<T>,
    input_rate: Micro,
    rate: Micro,
    width: Micro,
    advance: usize,
)
    requires
        ch.wf(),
        input_rate@ >= 0,
        call_ensures(Channelizer::<T>::channel_rate, (ch, input_rate), rate),
        call_ensures(Channelizer::<T>::channel_bandwidth, (ch, input_rate), width),
        call_ensures(Channelizer::<T>::advance, (ch,), advance),
    ensures
        ({
            let n = ch.width() as int;
            &&& -n <= 2 * (n * width@) - 2 * input_rate@ <= n
            &&& -n <= 2 * (n * rate@) - 4 * input_rate@ <= n
            &&& 2 * advance == n
        }),
{
    let n = ch.width();
    ch.shape();
    nearest_bounds(input_rate@ as nat, n);
    nearest_bounds((2 * input_rate@) as nat, n);
    let (x, y) = (width@, rate@);
    assert((2 * n) * x == 2 * (n * x) && (2 * n) * y == 2 * (n * y)) by (nonlinear_arith);
}

} // verus!
