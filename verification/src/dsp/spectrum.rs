//! Framing of an overlapped power spectrum.
//!
//! Samples are cut into frames that overlap by half, whatever the size of the
//! blocks they arrive in, and the transform's bins are put into display order:
//! negative frequencies first, zero in the middle. Windowing, transforming and
//! averaging the frames is the caller's part, so `T` is whatever it computes
//! with.

use vstd::prelude::*;

verus! {

/// Whether `n` is a power of two.
pub open spec fn power_of_two(n: nat) -> bool
    decreases n,
{
    n == 1 || (n > 1 && n % 2 == 0 && power_of_two(n / 2))
}

/// One frame to be transformed.
pub struct Frame<T> {
    pub samples: Vec<T>,
    /// Whether nothing was averaged before it, so that it counts in full.
    pub first: bool,
}

/// How many frames `n` samples give.
pub open spec fn frame_count(n: nat, size: nat) -> nat {
    if n < size {
        0
    } else {
        ((n - size) / (size / 2) as int + 1) as nat
    }
}

/// The frames that a run of samples gives, each half a frame after the last.
pub open spec fn frames_of<T>(all: Seq<T>, size: nat) -> Seq<Seq<T>> {
    Seq::new(
        frame_count(all.len(), size),
        |j: int| all.subrange(j * (size / 2), j * (size / 2) + size),
    )
}

/// What is left of a run of samples for the frames that follow.
pub open spec fn carried<T>(all: Seq<T>, size: nat) -> Seq<T> {
    all.skip((frame_count(all.len(), size) * (size / 2)) as int)
}

/// The transform bin that is shown at position `i`.
pub open spec fn bin_spec(i: int, size: int) -> int {
    (i + size / 2) % size
}

/// Samples of each frame.
pub open spec fn frames_view<T>(frames: Seq<Frame<T>>) -> Seq<Seq<T>> {
    Seq::new(frames.len(), |j: int| frames[j].samples@)
}

proof fn frame_is_inside(n: nat, size: nat, j: int)
    requires
        size >= 2,
        0 <= j < frame_count(n, size),
    ensures
        0 <= j * (size / 2),
        j * (size / 2) + size <= n,
{
    let hop = (size / 2) as int;
    let q = (n - size) / hop;
    vstd::arithmetic::div_mod::lemma_fundamental_div_mod(n - size, hop);
    assert(0 <= j * hop <= hop * q) by (nonlinear_arith)
        requires
            0 <= j <= q,
            hop >= 0,
    ;
}

proof fn frames_fill_up(n: nat, size: nat, j: nat)
    requires
        size >= 2,
        size % 2 == 0,
    ensures
        j * (size / 2) + size <= n ==> j < frame_count(n, size),
        j * (size / 2) + size > n ==> j >= frame_count(n, size),
{
    let hop = (size / 2) as int;
    let q = (n - size) / hop;
    let ji = j as int;
    vstd::arithmetic::div_mod::lemma_fundamental_div_mod(n - size, hop);
    if j * (size / 2) + size <= n {
        assert(ji <= q) by (nonlinear_arith)
            requires
                ji * hop <= hop * q + (n - size) % hop,
                (n - size) % hop < hop,
                hop > 0,
        ;
    } else if n >= size {
        assert(ji > q) by (nonlinear_arith)
            requires
                ji * hop > hop * q + (n - size) % hop,
                (n - size) % hop >= 0,
                hop > 0,
        ;
    }
}

/// Cuts a stream of samples into overlapping frames.
pub struct Spectrum<T> {
    size: usize,
    /// Samples carried between calls, so a frame can span input blocks.
    pending: Vec<T>,
    primed: bool,
}

impl<T> View for Spectrum<T> {
    type V = Seq<T>;

    /// The samples carried over.
    closed spec fn view(&self) -> Seq<T> {
        self.pending@
    }
}

impl<T: Copy> Spectrum<T> {
    /// Bins of the transform, and samples of a frame.
    pub closed spec fn bins(&self) -> nat {
        self.size as nat
    }

    /// Whether a frame has been given since the start or the last reset.
    pub closed spec fn has_averaged(&self) -> bool {
        self.primed
    }

    pub open spec fn wf(&self) -> bool {
        &&& power_of_two(self.bins())
        &&& self.bins() >= 16
        &&& self@.len() < self.bins()
    }

    pub fn new(size: usize) -> (r: Spectrum<T>)
        requires
            power_of_two(size as nat),
            size >= 16,
        ensures
            r.wf(),
            r.bins() == size,
            r@ == Seq::<T>::empty(),
            !r.has_averaged(),
    {
        Spectrum { size, pending: Vec::new(), primed: false }
    }

    pub fn size(&self) -> (r: usize)
        ensures
            r == self.bins(),
    {
        self.size
    }

    /// Samples carried over.
    pub fn pending(&self) -> (r: usize)
        ensures
            r == self@.len(),
    {
        self.pending.len()
    }

    /// Takes in samples and gives every frame that they complete.
    ///
    /// Leftovers are carried to the next call, so frames may be larger than the
    /// blocks the radio delivers.
    pub fn process(&mut self, iq: &[T]) -> (r: Vec<Frame<T>>)
        requires
            old(self).wf(),
        ensures
            final(self).wf(),
            final(self).bins() == old(self).bins(),
            frames_view(r@) == frames_of(old(self)@ + iq@, old(self).bins()),
            final(self)@ == carried(old(self)@ + iq@, old(self).bins()),
            final(self).has_averaged() == (old(self).has_averaged() || r@.len() > 0),
            forall|j: int|
                0 <= j < r@.len() ==> (#[trigger] r@[j]).first == (j == 0
                    && !old(self).has_averaged()),
    {
        let size: usize = self.size;
        let hop: usize = size / 2;
        let ghost all = old(self)@ + iq@;
        let mut samples: Vec<T> = Vec::new();
        std::mem::swap(&mut samples, &mut self.pending);
        append(&mut samples, iq);
        assert(samples@ =~= all);
        let n: usize = samples.len();
        let mut out: Vec<Frame<T>> = Vec::new();
        let mut pos: usize = 0;
        proof {
            assert(0 * (size / 2) == 0);
        }
        while size <= n - pos
            invariant
                n == samples@.len(),
                samples@ == all,
                size >= 16,
                size % 2 == 0,
                hop == size / 2,
                pos <= n,
                pos == out@.len() * (size / 2),
                out@.len() <= frame_count(n as nat, size as nat),
                self.size == size,
                self.primed == (old(self).has_averaged() || out@.len() > 0),
                forall|j: int|
                    0 <= j < out@.len() ==> (#[trigger] out@[j]).samples@ == all.subrange(
                        j * (size / 2),
                        j * (size / 2) + size,
                    ),
                forall|j: int|
                    0 <= j < out@.len() ==> (#[trigger] out@[j]).first == (j == 0
                        && !old(self).has_averaged()),
            decreases n - pos,
        {
            let mut frame: Vec<T> = Vec::new();
            copy_range(&mut frame, &samples, pos, pos + size);
            let first: bool = !self.primed;
            proof {
                frames_fill_up(n as nat, size as nat, out@.len());
                let k = out@.len() as int;
                assert((k + 1) * (size / 2) == k * (size / 2) + size / 2) by (nonlinear_arith);
            }
            out.push(Frame { samples: frame, first });
            self.primed = true;
            pos += hop;
        }
        proof {
            frames_fill_up(n as nat, size as nat, out@.len());
            leftovers_are_less_than_a_frame(all, size as nat);
        }
        let mut rest: Vec<T> = Vec::new();
        copy_range(&mut rest, &samples, pos, n);
        self.pending = rest;
        assert(self@ =~= carried(all, size as nat));
        assert(frames_view(out@) =~= frames_of(all, size as nat));
        out
    }

    /// Drops what was carried over and averaged.
    pub fn reset(&mut self)
        requires
            old(self).wf(),
        ensures
            final(self).wf(),
            final(self).bins() == old(self).bins(),
            final(self)@ == Seq::<T>::empty(),
            !final(self).has_averaged(),
    {
        self.primed = false;
        self.pending = Vec::new();
    }
}

/// The transform bin that is shown at position `i`, so that zero lands in the
/// middle.
pub fn display_bin(i: usize, size: usize) -> (r: usize)
    requires
        i < size,
    ensures
        r == bin_spec(i as int, size as int),
        r < size,
{
    let upper: usize = size - size / 2;
    if i < upper {
        proof {
            vstd::arithmetic::div_mod::lemma_small_mod((i + size / 2) as nat, size as nat);
        }
        i + size / 2
    } else {
        proof {
            vstd::arithmetic::div_mod::lemma_fundamental_div_mod_converse(
                i + size / 2,
                size as int,
                1,
                i - upper,
            );
        }
        i - upper
    }
}

/// Appends a slice.
fn append<T: Copy>(v: &mut Vec<T>, s: &[T])
    ensures
        final(v)@ == old(v)@ + s@,
{
    let n: usize = s.len();
    let mut i: usize = 0;
    while i < n
        invariant
            n == s@.len(),
            i <= n,
            v@ == old(v)@ + s@.take(i as int),
        decreases n - i,
    {
        v.push(s[i]);
        i += 1;
        assert(v@ =~= old(v)@ + s@.take(i as int));
    }
    assert(s@.take(n as int) =~= s@);
}

/// Appends the samples from `from` up to `to`.
fn copy_range<T: Copy>(v: &mut Vec<T>, s: &Vec<T>, from: usize, to: usize)
    requires
        from <= to <= s@.len(),
    ensures
        final(v)@ == old(v)@ + s@.subrange(from as int, to as int),
{
    let mut i: usize = from;
    assert(v@ =~= old(v)@ + s@.subrange(from as int, from as int));
    while i < to
        invariant
            from <= i <= to <= s@.len(),
            v@ == old(v)@ + s@.subrange(from as int, i as int),
        decreases to - i,
    {
        v.push(s[i]);
        i += 1;
        assert(v@ =~= old(v)@ + s@.subrange(from as int, i as int));
    }
}

/// What is carried over is less than a frame, so it cannot accumulate.
pub proof fn leftovers_are_less_than_a_frame<T>(all: Seq<T>, size: nat)
    requires
        size >= 2,
        size % 2 == 0,
    ensures
        frame_count(all.len(), size) * (size / 2) <= all.len(),
        carried(all, size).len() < size,
{
    let n = all.len();
    let hop = (size / 2) as int;
    if n >= size {
        let q = (n - size) / hop;
        vstd::arithmetic::div_mod::lemma_fundamental_div_mod(n - size, hop);
        assert((q + 1) * hop == hop * q + hop) by (nonlinear_arith);
        assert(q >= 0) by (nonlinear_arith)
            requires
                hop * q + (n - size) % hop >= 0,
                (n - size) % hop < hop,
                hop > 0,
        ;
    } else {
        assert(0 * hop == 0);
    }
}

/// Half a frame is left behind by every frame, so the count of frames is that
/// of half frames, less one.
proof fn count_by_halves(n: nat, size: nat)
    requires
        size >= 2,
        size % 2 == 0,
    ensures
        n >= size ==> frame_count(n, size) == n as int / (size / 2) as int - 1,
        n < size ==> n as int / (size / 2) as int <= 1,
{
    let hop = (size / 2) as int;
    let q = n as int / hop;
    vstd::arithmetic::div_mod::lemma_fundamental_div_mod(n as int, hop);
    if n >= size {
        assert(n - size == hop * (q - 2) + n as int % hop) by (nonlinear_arith)
            requires
                n as int == hop * q + n as int % hop,
                size == 2 * hop,
        ;
        vstd::arithmetic::div_mod::lemma_fundamental_div_mod_converse(
            n - size,
            hop,
            q - 2,
            n as int % hop,
        );
    } else {
        assert(q <= 1) by (nonlinear_arith)
            requires
                hop * q <= n as int,
                n < 2 * hop,
                hop > 0,
        ;
    }
}

/// How the samples are cut into blocks changes neither the frames nor what is
/// carried over.
pub proof fn a_frame_can_span_blocks<T>(all: Seq<T>, more: Seq<T>, size: nat)
    requires
        size >= 2,
        size % 2 == 0,
    ensures
        frames_of(all + more, size) == frames_of(all, size) + frames_of(
            carried(all, size) + more,
            size,
        ),
        carried(all + more, size) == carried(carried(all, size) + more, size),
{
    let hop = (size / 2) as int;
    let whole = all + more;
    let rest = carried(all, size) + more;
    let k1 = frame_count(all.len(), size);
    let k2 = frame_count(rest.len(), size);
    let k = frame_count(whole.len(), size);
    leftovers_are_less_than_a_frame(all, size);
    leftovers_are_less_than_a_frame(rest, size);
    assert(rest.len() == whole.len() - k1 * hop);
    count_by_halves(all.len(), size);
    count_by_halves(rest.len(), size);
    count_by_halves(whole.len(), size);
    let q = whole.len() as int / hop;
    vstd::arithmetic::div_mod::lemma_fundamental_div_mod(whole.len() as int, hop);
    assert(rest.len() as int == hop * (q - k1) + whole.len() as int % hop) by (nonlinear_arith)
        requires
            rest.len() as int == whole.len() - k1 * hop,
            whole.len() as int == hop * q + whole.len() as int % hop,
    ;
    vstd::arithmetic::div_mod::lemma_fundamental_div_mod_converse(
        rest.len() as int,
        hop,
        q - k1,
        whole.len() as int % hop,
    );
    if k1 > 0 {
        vstd::arithmetic::div_mod::lemma_fundamental_div_mod(all.len() as int, hop);
        // A frame leaves half of itself behind.
        assert(rest.len() >= hop) by (nonlinear_arith)
            requires
                rest.len() >= all.len() - k1 * hop,
                all.len() as int == hop * (k1 + 1) + all.len() as int % hop,
                all.len() as int % hop >= 0,
        ;
        assert(q - k1 >= 1) by (nonlinear_arith)
            requires
                rest.len() as int == hop * (q - k1) + whole.len() as int % hop,
                whole.len() as int % hop < hop,
                rest.len() >= hop,
                hop > 0,
        ;
        assert(rest.len() < size ==> k2 == 0);
    } else {
        assert(rest =~= whole) by {
            assert(0 * hop == 0);
            assert(all.skip(0) =~= all);
        }
    }
    assert(k == k1 + k2);
    assert(k * hop == k1 * hop + k2 * hop) by (nonlinear_arith)
        requires
            k == k1 + k2,
    ;
    assert forall|j: int| 0 <= j < k implies #[trigger] frames_of(whole, size)[j] == (frames_of(
        all,
        size,
    ) + frames_of(rest, size))[j] by {
        frame_is_inside(whole.len(), size, j);
        if j < k1 {
            frame_is_inside(all.len(), size, j);
            assert(whole.subrange(j * hop, j * hop + size) =~= all.subrange(
                j * hop,
                j * hop + size,
            ));
        } else {
            let i = j - k1;
            frame_is_inside(rest.len(), size, i);
            assert(j * hop == i * hop + k1 * hop) by (nonlinear_arith)
                requires
                    j == i + k1,
            ;
            assert(whole.subrange(j * hop, j * hop + size) =~= rest.subrange(
                i * hop,
                i * hop + size,
            ));
        }
    }
    assert(frames_of(whole, size) =~= frames_of(all, size) + frames_of(rest, size));
    assert(carried(whole, size) =~= carried(rest, size));
}

/// Blocks of samples one after the other.
pub open spec fn joined<T>(blocks: Seq<Seq<T>>) -> Seq<T>
    decreases blocks.len(),
{
    if blocks.len() == 0 {
        Seq::empty()
    } else {
        joined(blocks.drop_last()) + blocks.last()
    }
}

/// What is carried over after blocks were taken in one by one.
pub open spec fn held<T>(blocks: Seq<Seq<T>>, size: nat) -> Seq<T>
    decreases blocks.len(),
{
    if blocks.len() == 0 {
        Seq::empty()
    } else {
        carried(held(blocks.drop_last(), size) + blocks.last(), size)
    }
}

/// The frames that blocks give when they are taken in one by one.
pub open spec fn given<T>(blocks: Seq<Seq<T>>, size: nat) -> Seq<Seq<T>>
    decreases blocks.len(),
{
    if blocks.len() == 0 {
        Seq::empty()
    } else {
        given(blocks.drop_last(), size) + frames_of(
            held(blocks.drop_last(), size) + blocks.last(),
            size,
        )
    }
}

/// From the start on, the frames and what is carried over depend on the samples
/// alone and not on the blocks that they came in.
pub proof fn only_the_samples_matter<T>(blocks: Seq<Seq<T>>, size: nat)
    requires
        size >= 2,
        size % 2 == 0,
    ensures
        given(blocks, size) == frames_of(joined(blocks), size),
        held(blocks, size) == carried(joined(blocks), size),
        held(blocks, size).len() < size,
    decreases blocks.len(),
{
    leftovers_are_less_than_a_frame(joined(blocks), size);
    if blocks.len() == 0 {
        assert(0 * (size / 2) == 0);
        assert(given(blocks, size) =~= frames_of(joined(blocks), size));
        assert(held(blocks, size) =~= carried(joined(blocks), size));
    } else {
        only_the_samples_matter(blocks.drop_last(), size);
        a_frame_can_span_blocks(joined(blocks.drop_last()), blocks.last(), size);
    }
}

/// A block completes a frame exactly when the count of half-overlapped frames
/// since the start goes up with it, also where every block is shorter than a
/// frame.
pub proof fn a_block_completes_a_frame_when_the_count_goes_up<T>(
    blocks: Seq<Seq<T>>,
    more: Seq<T>,
    size: nat,
)
    requires
        size >= 2,
        size % 2 == 0,
    ensures
        ({
            let n = joined(blocks).len();
            let new = frames_of(held(blocks, size) + more, size);
            &&& frame_count(n + more.len(), size) == frame_count(n, size) + new.len()
            &&& (new.len() > 0) == (frame_count(n + more.len(), size) > frame_count(n, size))
        }),
{
    only_the_samples_matter(blocks, size);
    a_frame_can_span_blocks(joined(blocks), more, size);
    assert((frames_of(joined(blocks), size) + frames_of(held(blocks, size) + more, size)).len()
        == frames_of(joined(blocks) + more, size).len());
}

/// What a call of `process` gives after any blocks, whatever their lengths: it
/// completes a frame exactly when the count of half-overlapped frames goes up,
/// all frames so far are those of the samples alone, and less than a frame is
/// carried over.
pub proof fn blocks_leave_no_trace<T>(blocks: Seq<Seq<T>>, more: Seq<T>, size: nat)
    requires
        size >= 2,
        size % 2 == 0,
    ensures
        ({
            let new = frames_of(held(blocks, size) + more, size);
            let n = joined(blocks).len();
            &&& (new.len() > 0) == (frame_count(n + more.len(), size) > frame_count(n, size))
            &&& given(blocks, size) + new == frames_of(joined(blocks) + more, size)
            &&& carried(held(blocks, size) + more, size) == carried(joined(blocks) + more, size)
            &&& carried(held(blocks, size) + more, size).len() < size
        }),
{
    only_the_samples_matter(blocks, size);
    a_frame_can_span_blocks(joined(blocks), more, size);
    a_block_completes_a_frame_when_the_count_goes_up(blocks, more, size);
    leftovers_are_less_than_a_frame(joined(blocks) + more, size);
}

/// Zero frequency is shown in the middle, the positive frequencies above it and
/// the negative ones below, and every bin is shown once.
pub proof fn zero_is_shown_in_the_middle(size: int)
    requires
        size >= 2,
        size % 2 == 0,
    ensures
        bin_spec(size / 2, size) == 0,
        forall|k: int|
            0 <= k < size / 2 ==> #[trigger] bin_spec(size / 2 + k, size) == k && bin_spec(k, size)
                == size / 2 + k,
        forall|i: int| 0 <= i < size ==> #[trigger] bin_spec(bin_spec(i, size), size) == i,
{
    let half = size / 2;
    assert forall|k: int| 0 <= k < half implies #[trigger] bin_spec(half + k, size) == k
        && bin_spec(k, size) == half + k by {
        vstd::arithmetic::div_mod::lemma_fundamental_div_mod_converse(half + k + half, size, 1, k);
        vstd::arithmetic::div_mod::lemma_fundamental_div_mod_converse(k + half, size, 0, k + half);
    }
    assert(bin_spec(half + 0, size) == 0);
    assert forall|i: int| 0 <= i < size implies #[trigger] bin_spec(bin_spec(i, size), size)
        == i by {
        if i < half {
            assert(bin_spec(half + i, size) == i);
        } else {
            assert(bin_spec(half + (i - half), size) == i - half);
            assert(bin_spec(i - half, size) == i);
        }
    }
}

} // verus!
