//! Bit timing and differential decoding of the radio data system.
//!
//! The subcarrier sits at the third harmonic of the 19 kHz pilot, and the data
//! clock is the pilot divided by sixteen. The data is differential Manchester:
//! each bit is one symbol with a transition in its middle, and the value is the
//! change from one symbol to the next. Mixing and filtering the subcarrier is
//! the caller's part; its samples come here as whole counts.

use vstd::prelude::*;
use crate::fixed::nearest_signed;
#[allow(unused_imports)]
use crate::fixed::{nearest_at_most, nearest_signed_spec, rounding_is_bounded, rounding_is_close};

verus! {

/// Carrier, in millionths of a hertz.
pub const CARRIER_HZ: i64 = 57_000_000_000;

/// Bits per second, in millionths.
pub const BAUD: i64 = 1_187_500_000;

/// Counts in one cycle of the pilot.
pub const CYCLE: u64 = 0x1_0000_0000;

/// Counts in one symbol: sixteen cycles of the pilot.
pub const SYMBOL: u64 = 0x10_0000_0000;

/// The symbol clock: how far the pilot has come since the symbol began, in counts
/// of its phase, and how many samples each half of the symbol has.
pub struct Clock {
    pub phase: nat,
    pub first: nat,
    pub second: nat,
}

/// Whether the phase is in the second half of a symbol.
pub open spec fn in_second_half(phase: nat) -> bool {
    2 * (phase % SYMBOL as nat) >= SYMBOL
}

/// How far the pilot comes to reach a phase, always less than a cycle.
pub open spec fn advance(c: Clock, pilot: u32) -> nat {
    ((pilot - c.phase) % CYCLE as int) as nat
}

/// Where the pilot is once it has reached a phase.
pub open spec fn reached(c: Clock, pilot: u32) -> nat {
    c.phase + advance(c, pilot)
}

/// One sample on: the phase advances with the pilot, the sample counts for the
/// half it falls in, and a symbol ends when the phase wraps.
pub open spec fn ticked(c: Clock, pilot: u32) -> Clock {
    let phase = reached(c, pilot);
    let second = in_second_half(phase);
    if phase >= SYMBOL {
        Clock { phase: (phase - SYMBOL) as nat, first: 0, second: 0 }
    } else {
        Clock {
            phase,
            first: c.first + if second {
                0nat
            } else {
                1
            },
            second: c.second + if second {
                1nat
            } else {
                0
            },
        }
    }
}

/// Whether one sample ends a symbol.
pub open spec fn ends_symbol(c: Clock, pilot: u32) -> bool {
    reached(c, pilot) >= SYMBOL
}

/// What one sample is to the symbol it belongs to.
#[derive(Clone, Copy, Debug, PartialEq, Eq)]
pub struct Tick {
    /// It falls in the second half.
    pub second_half: bool,
    /// Samples in the first and second half, where it ends the symbol.
    pub ended: Option<(u32, u32)>,
}

/// Tells the halves of symbols apart, sample by sample.
pub struct SymbolClock {
    phase: u64,
    first_n: u32,
    second_n: u32,
}

impl View for SymbolClock {
    type V = Clock;

    closed spec fn view(&self) -> Clock {
        Clock { phase: self.phase as nat, first: self.first_n as nat, second: self.second_n as nat }
    }
}

/// Whether the clock can count one more sample.
pub open spec fn clock_has_room(c: Clock) -> bool {
    c.first < u32::MAX && c.second < u32::MAX
}

impl SymbolClock {
    pub open spec fn wf(&self) -> bool {
        self@.phase < SYMBOL
    }

    pub fn new() -> (r: SymbolClock)
        ensures
            r.wf(),
            r@ == (Clock { phase: 0, first: 0, second: 0 }),
    {
        SymbolClock { phase: 0, first_n: 0, second_n: 0 }
    }

    pub fn reset(&mut self)
        ensures
            final(self).wf(),
            final(self)@ == (Clock { phase: 0, first: 0, second: 0 }),
    {
        self.phase = 0;
        self.first_n = 0;
        self.second_n = 0;
    }

    /// Whether one more sample can be counted.
    pub fn has_room(&self) -> (r: bool)
        ensures
            r == clock_has_room(self@),
    {
        self.first_n < u32::MAX && self.second_n < u32::MAX
    }

    /// Takes the next sample, at which the pilot has that phase.
    pub fn tick(&mut self, pilot: u32) -> (r: Tick)
        requires
            old(self).wf(),
            clock_has_room(old(self)@),
        ensures
            final(self).wf(),
            final(self)@ == ticked(old(self)@, pilot),
            r.second_half == in_second_half(reached(old(self)@, pilot)),
            match r.ended {
                Some((first, second)) => {
                    &&& ends_symbol(old(self)@, pilot)
                    &&& first == old(self)@.first + if r.second_half {
                        0int
                    } else {
                        1
                    }
                    &&& second == old(self)@.second + if r.second_half {
                        1int
                    } else {
                        0
                    }
                },
                None => !ends_symbol(old(self)@, pilot),
            },
    {
        let by: u64 = (pilot as u64 + CYCLE - self.phase % CYCLE) % CYCLE;
        assert(by == advance(self@, pilot));
        self.phase = self.phase + by;
        let second_half: bool = 2 * (self.phase % SYMBOL) >= SYMBOL;
        if second_half {
            self.second_n = self.second_n + 1;
        } else {
            self.first_n = self.first_n + 1;
        }
        if self.phase >= SYMBOL {
            let ended = Some((self.first_n, self.second_n));
            self.phase = self.phase - SYMBOL;
            self.first_n = 0;
            self.second_n = 0;
            Tick { second_half, ended }
        } else {
            Tick { second_half, ended: None }
        }
    }
}

/// The clock after samples at which the pilot had those phases.
pub open spec fn run_for(c: Clock, pilot: Seq<u32>) -> Clock
    decreases pilot.len(),
{
    if pilot.len() == 0 {
        c
    } else {
        ticked(run_for(c, pilot.drop_last()), pilot.last())
    }
}

/// How far the pilot comes over those samples, in counts.
pub open spec fn travelled(c: Clock, pilot: Seq<u32>) -> nat
    decreases pilot.len(),
{
    if pilot.len() == 0 {
        0
    } else {
        travelled(c, pilot.drop_last()) + advance(run_for(c, pilot.drop_last()), pilot.last())
    }
}

/// Symbols that end within those samples.
pub open spec fn symbols(c: Clock, pilot: Seq<u32>) -> nat
    decreases pilot.len(),
{
    if pilot.len() == 0 {
        0
    } else {
        symbols(c, pilot.drop_last()) + if ends_symbol(
            run_for(c, pilot.drop_last()),
            pilot.last(),
        ) {
            1nat
        } else {
            0
        }
    }
}

/// The symbol clock is the pilot divided by sixteen, whatever the frequency of
/// the pilot: the symbols in a block are the sixteenth part of the cycles that
/// the pilot has come since the symbol before it began, and what is left over is
/// the phase. The clock keeps step with the pilot.
pub proof fn symbols_come_with_the_pilot(c: Clock, pilot: Seq<u32>)
    requires
        c.phase < SYMBOL,
    ensures
        run_for(c, pilot).phase < SYMBOL,
        symbols(c, pilot) == (c.phase + travelled(c, pilot)) as int / SYMBOL as int,
        run_for(c, pilot).phase == (c.phase + travelled(c, pilot)) as int % SYMBOL as int,
        pilot.len() > 0 ==> run_for(c, pilot).phase % CYCLE as nat == pilot.last(),
        SYMBOL == 16 * CYCLE,
    decreases pilot.len(),
{
    if pilot.len() > 0 {
        symbols_come_with_the_pilot(c, pilot.drop_last());
    }
}

/// The bits of a run of symbols that follows `prev`: the change from each
/// symbol to the next.
pub open spec fn bits_of(prev: Option<bool>, symbols: Seq<bool>) -> Seq<u8>
    decreases symbols.len(),
{
    if symbols.len() == 0 {
        Seq::empty()
    } else {
        let earlier = bits_of(prev, symbols.drop_last());
        match last_symbol(prev, symbols.drop_last()) {
            Some(p) => earlier.push(
                if p != symbols.last() {
                    1u8
                } else {
                    0u8
                },
            ),
            None => earlier,
        }
    }
}

/// The symbol that a run of symbols ends on.
pub open spec fn last_symbol(prev: Option<bool>, symbols: Seq<bool>) -> Option<bool> {
    if symbols.len() == 0 {
        prev
    } else {
        Some(symbols.last())
    }
}

/// The symbols that carry `bits` after the symbol `level`.
pub open spec fn encoded(level: bool, bits: Seq<u8>) -> Seq<bool>
    decreases bits.len(),
{
    if bits.len() == 0 {
        Seq::empty()
    } else {
        let earlier = encoded(level, bits.drop_last());
        let at = if earlier.len() == 0 {
            level
        } else {
            earlier.last()
        };
        earlier.push(at != (bits.last() == 1))
    }
}

/// Turns symbols into bits.
pub struct Differential {
    prev: Option<bool>,
}

impl View for Differential {
    type V = Option<bool>;

    /// The symbol before.
    closed spec fn view(&self) -> Option<bool> {
        self.prev
    }
}

impl Differential {
    pub fn new() -> (r: Differential)
        ensures
            r@ is None,
    {
        Differential { prev: None }
    }

    pub fn reset(&mut self)
        ensures
            final(self)@ is None,
    {
        self.prev = None;
    }

    /// Takes one symbol and gives the bit it carries. The first carries none.
    pub fn push(&mut self, symbol: bool) -> (r: Option<u8>)
        ensures
            final(self)@ == Some(symbol),
            r == match old(self)@ {
                Some(p) => Some(
                    if p != symbol {
                        1u8
                    } else {
                        0u8
                    },
                ),
                None => None::<u8>,
            },
    {
        let bit: Option<u8> = match self.prev {
            Some(p) => Some(
                if p != symbol {
                    1u8
                } else {
                    0u8
                },
            ),
            None => None,
        };
        self.prev = Some(symbol);
        bit
    }

    /// Takes a block of symbols and gives the bits they carry.
    pub fn decode(&mut self, symbols: &[bool]) -> (r: Vec<u8>)
        ensures
            r@ == bits_of(old(self)@, symbols@),
            final(self)@ == last_symbol(old(self)@, symbols@),
    {
        let mut out: Vec<u8> = Vec::new();
        let n: usize = symbols.len();
        let mut i: usize = 0;
        while i < n
            invariant
                n == symbols@.len(),
                i <= n,
                out@ == bits_of(old(self)@, symbols@.take(i as int)),
                self@ == last_symbol(old(self)@, symbols@.take(i as int)),
            decreases n - i,
        {
            assert(symbols@.take(i + 1).drop_last() =~= symbols@.take(i as int));
            match self.push(symbols[i]) {
                Some(b) => {
                    out.push(b);
                },
                None => {},
            }
            i += 1;
        }
        assert(symbols@.take(n as int) =~= symbols@);
        out
    }
}

/// The greatest baseband sample.
pub const RDS_FULL_SCALE: i64 = 0x1000_0000_0000_0000;

/// State of the demodulator.
pub struct Rds {
    pub clock: Clock,
    /// Sums of the samples of the two halves of the symbol.
    pub first: int,
    pub second: int,
    /// The symbol before.
    pub prev: Option<bool>,
    /// Running size of the step in the middle of a symbol.
    pub level: int,
}

/// A demodulator that has heard nothing.
pub open spec fn rds_fresh() -> Rds {
    Rds {
        clock: Clock { phase: 0, first: 0, second: 0 },
        first: 0,
        second: 0,
        prev: None,
        level: 0,
    }
}

/// The number by which a sum is divided to get its mean: a half without samples
/// has a mean of nothing.
pub open spec fn divisor(n: nat) -> nat {
    if n == 0 {
        1
    } else {
        n
    }
}

/// Whether one sample falls in the second half of its symbol.
pub open spec fn late(s: Rds, pilot: u32) -> bool {
    in_second_half(reached(s.clock, pilot))
}

/// The sums once a sample is added to its half.
pub open spec fn summed(s: Rds, v: int, pilot: u32) -> (int, int) {
    if late(s, pilot) {
        (s.first, s.second + v)
    } else {
        (s.first + v, s.second)
    }
}

/// The number of samples in each half once a sample is counted.
pub open spec fn counted(s: Rds, pilot: u32) -> (nat, nat) {
    if late(s, pilot) {
        (s.clock.first, s.clock.second + 1)
    } else {
        (s.clock.first + 1, s.clock.second)
    }
}

/// The step from the mean of the first half to that of the second, times the
/// product of the two divisors.
pub open spec fn step_num(s: Rds, v: int, pilot: u32) -> int {
    let (a, b) = summed(s, v, pilot);
    let (m, n) = counted(s, pilot);
    a * divisor(n) - b * divisor(m)
}

/// The product of the two divisors.
pub open spec fn step_den(s: Rds, pilot: u32) -> nat {
    let (m, n) = counted(s, pilot);
    divisor(m) * divisor(n)
}

/// The size of the step.
pub open spec fn step_size(s: Rds, v: int, pilot: u32) -> int {
    let d = nearest_signed_spec(step_num(s, v, pilot), step_den(s, pilot));
    if d < 0 {
        -d
    } else {
        d
    }
}

/// One sample on, at which the pilot has that phase. Where it ends a symbol, the
/// sign of the step in the middle is the symbol.
pub open spec fn listened(s: Rds, v: int, pilot: u32) -> Rds {
    if ends_symbol(s.clock, pilot) {
        Rds {
            clock: ticked(s.clock, pilot),
            first: 0,
            second: 0,
            prev: Some(step_num(s, v, pilot) >= 0),
            level: s.level + nearest_signed_spec(step_size(s, v, pilot) - s.level, 100),
        }
    } else {
        let (a, b) = summed(s, v, pilot);
        Rds { clock: ticked(s.clock, pilot), first: a, second: b, ..s }
    }
}

/// The bit that one sample completes.
pub open spec fn bit_at(s: Rds, v: int, pilot: u32) -> Option<u8> {
    match (ends_symbol(s.clock, pilot), s.prev) {
        (true, Some(p)) => Some(
            if p != (step_num(s, v, pilot) >= 0) {
                1u8
            } else {
                0u8
            },
        ),
        _ => None,
    }
}

/// A block of samples on, with the phase of the pilot at each.
pub open spec fn listened_to(s: Rds, base: Seq<i64>, pilot: Seq<u32>) -> Rds
    decreases base.len(),
{
    if base.len() == 0 {
        s
    } else {
        listened(
            listened_to(s, base.drop_last(), pilot.drop_last()),
            base.last() as int,
            pilot.last(),
        )
    }
}

/// The bits that a block of samples completes.
pub open spec fn bits_in(s: Rds, base: Seq<i64>, pilot: Seq<u32>) -> Seq<u8>
    decreases base.len(),
{
    if base.len() == 0 {
        Seq::empty()
    } else {
        let (b, p) = (base.drop_last(), pilot.drop_last());
        let earlier = bits_in(s, b, p);
        match bit_at(listened_to(s, b, p), base.last() as int, pilot.last()) {
            Some(bit) => earlier.push(bit),
            None => earlier,
        }
    }
}

/// Whether `n` samples of a block are taken: all of them, or those up to the
/// first for which the counters have no room.
pub open spec fn stops_after(s: Rds, base: Seq<i64>, pilot: Seq<u32>, n: int) -> bool {
    &&& 0 <= n <= base.len()
    &&& forall|k: int|
        0 <= k < n ==> clock_has_room(
            (#[trigger] listened_to(s, base.take(k), pilot.take(k))).clock,
        )
    &&& n < base.len() ==> !clock_has_room(listened_to(s, base.take(n), pilot.take(n)).clock)
}

/// Recovers bits from the baseband of the subcarrier.
pub struct RdsDemod {
    clock: SymbolClock,
    first: i128,
    second: i128,
    diff: Differential,
    level: i64,
}

impl View for RdsDemod {
    type V = Rds;

    closed spec fn view(&self) -> Rds {
        Rds {
            clock: self.clock@,
            first: self.first as int,
            second: self.second as int,
            prev: self.diff@,
            level: self.level as int,
        }
    }
}

/// Whether sums are ones of so many samples, and so is the level.
pub open spec fn balanced(s: Rds) -> bool {
    &&& -(0x1000_0000_0000_0000 * s.clock.first) <= s.first <= 0x1000_0000_0000_0000 * s.clock.first
    &&& -(0x1000_0000_0000_0000 * s.clock.second) <= s.second <= 0x1000_0000_0000_0000
        * s.clock.second
    &&& 0 <= s.level <= 0x2000_0000_0000_0000
}

proof fn steps_are_small(a: int, b: int, m: int, n: int)
    requires
        1 <= m <= 0xffff_ffff,
        1 <= n <= 0xffff_ffff,
        -(0x1000_0000_0000_0000 * m) <= a <= 0x1000_0000_0000_0000 * m,
        -(0x1000_0000_0000_0000 * n) <= b <= 0x1000_0000_0000_0000 * n,
    ensures
        1 <= m * n <= 0xffff_fffe_0000_0001,
        -(0x1000_0000_0000_0000 * (m * n)) <= a * n <= 0x1000_0000_0000_0000 * (m * n),
        -(0x1000_0000_0000_0000 * (m * n)) <= b * m <= 0x1000_0000_0000_0000 * (m * n),
        -0x2000_0000_0000_0000 <= nearest_signed_spec(a * n - b * m, (m * n) as nat)
            <= 0x2000_0000_0000_0000,
{
    let d = m * n;
    assert(1 <= d <= 0xffff_fffe_0000_0001) by (nonlinear_arith)
        requires
            d == m * n,
            1 <= m <= 0xffff_ffff,
            1 <= n <= 0xffff_ffff,
    ;
    assert(-(0x1000_0000_0000_0000 * d) <= a * n <= 0x1000_0000_0000_0000 * d)
        by (nonlinear_arith)
        requires
            d == m * n,
            1 <= n,
            -(0x1000_0000_0000_0000 * m) <= a <= 0x1000_0000_0000_0000 * m,
    ;
    assert(-(0x1000_0000_0000_0000 * d) <= b * m <= 0x1000_0000_0000_0000 * d)
        by (nonlinear_arith)
        requires
            d == m * n,
            1 <= m,
            -(0x1000_0000_0000_0000 * n) <= b <= 0x1000_0000_0000_0000 * n,
    ;
    let v = a * n - b * m;
    let size = if v < 0 {
        -v
    } else {
        v
    };
    nearest_at_most(size as nat, d as nat, 0x2000_0000_0000_0000);
}

proof fn level_moves_between(level: int, size: int)
    ensures
        level <= size ==> level <= level + nearest_signed_spec(size - level, 100) <= size,
        size <= level ==> size <= level + nearest_signed_spec(size - level, 100) <= level,
{
    rounding_is_bounded(size - level, 100);
}

impl RdsDemod {
    pub closed spec fn wf(&self) -> bool {
        &&& self.clock.wf()
        &&& balanced(self@)
        &&& self.clock@.first <= u32::MAX
        &&& self.clock@.second <= u32::MAX
    }

    pub fn new() -> (r: RdsDemod)
        ensures
            r.wf(),
            r@ == rds_fresh(),
    {
        RdsDemod {
            clock: SymbolClock::new(),
            first: 0,
            second: 0,
            diff: Differential::new(),
            level: 0,
        }
    }

    /// Size of the step in the middle of symbols, for judging whether there is
    /// data at all.
    pub fn level(&self) -> (r: i64)
        ensures
            r == self@.level,
    {
        self.level
    }

    pub fn reset(&mut self)
        requires
            old(self).wf(),
        ensures
            final(self).wf(),
            final(self)@ == rds_fresh(),
    {
        self.clock.reset();
        self.first = 0;
        self.second = 0;
        self.diff.reset();
        self.level = 0;
    }

    /// Whether one more sample can be counted.
    pub fn has_room(&self) -> (r: bool)
        ensures
            r == clock_has_room(self@.clock),
    {
        self.clock.has_room()
    }

    /// Takes one sample, at which the pilot has that phase, and gives the bit
    /// that it completes.
    pub fn push(&mut self, v: i64, pilot: u32) -> (r: Option<u8>)
        requires
            old(self).wf(),
            clock_has_room(old(self)@.clock),
            -RDS_FULL_SCALE <= v <= RDS_FULL_SCALE,
        ensures
            final(self).wf(),
            final(self)@ == listened(old(self)@, v as int, pilot),
            r == bit_at(old(self)@, v as int, pilot),
    {
        let ghost s = self@;
        let tick: Tick = self.clock.tick(pilot);
        if tick.second_half {
            self.second = self.second + v as i128;
        } else {
            self.first = self.first + v as i128;
        }
        assert((self.first as int, self.second as int) == summed(s, v as int, pilot));
        match tick.ended {
            None => None,
            Some((m, n)) => {
                let m1: i128 = if m == 0 {
                    1
                } else {
                    m as i128
                };
                let n1: i128 = if n == 0 {
                    1
                } else {
                    n as i128
                };
                proof {
                    steps_are_small(
                        self.first as int,
                        self.second as int,
                        m1 as int,
                        n1 as int,
                    );
                }
                let num: i128 = self.first * n1 - self.second * m1;
                let d: i128 = nearest_signed(num, (m1 * n1) as u128);
                let size: i128 = if d < 0 {
                    -d
                } else {
                    d
                };
                proof {
                    level_moves_between(self.level as int, size as int);
                }
                let by: i128 = nearest_signed(size - self.level as i128, 100);
                self.level = (self.level as i128 + by) as i64;
                self.first = 0;
                self.second = 0;
                self.diff.push(num >= 0)
            },
        }
    }

    /// Takes a block of samples with the phase of the pilot at each, appending
    /// the bits that it completes, and says how many samples it took: all of
    /// them, unless the counters are full.
    pub fn process(&mut self, base: &[i64], pilot: &[u32], bits: &mut Vec<u8>) -> (r: usize)
        requires
            old(self).wf(),
            base@.len() == pilot@.len(),
            forall|i: int|
                0 <= i < base@.len() ==> -RDS_FULL_SCALE <= #[trigger] base@[i] <= RDS_FULL_SCALE,
        ensures
            final(self).wf(),
            stops_after(old(self)@, base@, pilot@, r as int),
            final(self)@ == listened_to(old(self)@, base@.take(r as int), pilot@.take(r as int)),
            final(bits)@ == old(bits)@ + bits_in(
                old(self)@,
                base@.take(r as int),
                pilot@.take(r as int),
            ),
    {
        let n: usize = base.len();
        let mut i: usize = 0;
        assert(base@.take(0) =~= Seq::empty());
        assert(bits@ =~= old(bits)@ + bits_in(old(self)@, base@.take(0), pilot@.take(0)));
        while i < n
            invariant
                n == base@.len(),
                n == pilot@.len(),
                i <= n,
                self.wf(),
                forall|k: int|
                    0 <= k < base@.len() ==> -RDS_FULL_SCALE <= #[trigger] base@[k]
                        <= RDS_FULL_SCALE,
                forall|k: int|
                    0 <= k < i ==> clock_has_room(
                        (#[trigger] listened_to(old(self)@, base@.take(k), pilot@.take(k))).clock,
                    ),
                self@ == listened_to(old(self)@, base@.take(i as int), pilot@.take(i as int)),
                bits@ == old(bits)@ + bits_in(
                    old(self)@,
                    base@.take(i as int),
                    pilot@.take(i as int),
                ),
            decreases n - i,
        {
            if !self.has_room() {
                return i;
            }
            proof {
                assert(base@.take(i + 1).drop_last() =~= base@.take(i as int));
                assert(base@.take(i + 1).last() == base@[i as int]);
                assert(pilot@.take(i + 1).drop_last() =~= pilot@.take(i as int));
                assert(pilot@.take(i + 1).last() == pilot@[i as int]);
            }
            match self.push(base[i], pilot[i]) {
                Some(b) => {
                    bits.push(b);
                },
                None => {},
            }
            i += 1;
            assert(bits@ =~= old(bits)@ + bits_in(
                old(self)@,
                base@.take(i as int),
                pilot@.take(i as int),
            ));
        }
        n
    }
}

/// How the baseband is cut into blocks neither loses nor repeats a bit, and
/// every bit is zero or one.
#[verifier::rlimit(40)]
pub proof fn baseband_can_be_cut(
    s: Rds,
    a: Seq<i64>,
    p: Seq<u32>,
    b: Seq<i64>,
    q: Seq<u32>,
)
    requires
        a.len() == p.len(),
        b.len() == q.len(),
    ensures
        listened_to(s, a + b, p + q) == listened_to(listened_to(s, a, p), b, q),
        bits_in(s, a + b, p + q) == bits_in(s, a, p) + bits_in(listened_to(s, a, p), b, q),
        forall|i: int| 0 <= i < bits_in(s, b, q).len() ==> #[trigger] bits_in(s, b, q)[i] <= 1,
    decreases b.len(),
{
    let mid = listened_to(s, a, p);
    if b.len() == 0 {
        assert(a + b =~= a);
        assert(p + q =~= p);
        assert(bits_in(s, a, p) + Seq::empty() =~= bits_in(s, a, p));
    } else {
        let (b1, q1) = (b.drop_last(), q.drop_last());
        baseband_can_be_cut(s, a, p, b1, q1);
        assert((a + b).drop_last() =~= a + b1);
        assert((p + q).drop_last() =~= p + q1);
        assert(bits_in(s, a + b, p + q) =~= bits_in(s, a, p) + bits_in(mid, b, q));
        let (all, earlier) = (bits_in(s, b, q), bits_in(s, b1, q1));
        assert forall|i: int| 0 <= i < all.len() implies #[trigger] all[i] <= 1 by {
            if i < earlier.len() {
                assert(all[i] == earlier[i]);
            }
        }
    }
}

/// How far a stream is taken does not depend on the blocks it comes in either: a
/// block that is not taken whole stops the stream where it stops itself, and
/// after one that is, the next goes on.
pub proof fn a_cut_stops_nothing(
    s: Rds,
    a: Seq<i64>,
    p: Seq<u32>,
    b: Seq<i64>,
    q: Seq<u32>,
    n: int,
)
    requires
        a.len() == p.len(),
        b.len() == q.len(),
    ensures
        stops_after(s, a, p, n) && n < a.len() ==> stops_after(s, a + b, p + q, n),
        stops_after(s, a, p, a.len() as int) && stops_after(listened_to(s, a, p), b, q, n)
            ==> stops_after(s, a + b, p + q, a.len() + n),
{
    let mid = listened_to(s, a, p);
    let (c, r) = (a + b, p + q);
    assert forall|k: int| 0 <= k <= a.len() implies c.take(k) == a.take(k) && #[trigger] r.take(k)
        == p.take(k) by {
        assert(c.take(k) =~= a.take(k));
        assert(r.take(k) =~= p.take(k));
    }
    assert forall|k: int| 0 <= k <= b.len() implies listened_to(
        s,
        c.take(a.len() + k),
        #[trigger] r.take(p.len() + k),
    ) == listened_to(mid, b.take(k), q.take(k)) by {
        assert(c.take(a.len() + k) =~= a + b.take(k));
        assert(r.take(p.len() + k) =~= p + q.take(k));
        baseband_can_be_cut(s, a, p, b.take(k), q.take(k));
    }
    if stops_after(s, a, p, a.len() as int) && stops_after(mid, b, q, n) {
        let m = a.len() + n;
        assert forall|k: int| 0 <= k < m implies clock_has_room(
            (#[trigger] listened_to(s, c.take(k), r.take(k))).clock,
        ) by {
            if k < a.len() {
                assert(r.take(k) == p.take(k));
                assert(clock_has_room(listened_to(s, a.take(k), p.take(k)).clock));
            } else {
                let j = k - a.len();
                assert(r.take(p.len() + j) == r.take(k));
                assert(clock_has_room(listened_to(mid, b.take(j), q.take(j)).clock));
            }
        }
        assert(r.take(p.len() + n) == r.take(m));
    }
    if stops_after(s, a, p, n) && n < a.len() {
        assert forall|k: int| 0 <= k < n implies clock_has_room(
            (#[trigger] listened_to(s, c.take(k), r.take(k))).clock,
        ) by {
            assert(r.take(k) == p.take(k));
            assert(clock_has_room(listened_to(s, a.take(k), p.take(k)).clock));
        }
        assert(r.take(n) == p.take(n));
    }
}

/// Decoding gives back the bits that were encoded.
pub proof fn decoding_undoes_encoding(level: bool, bits: Seq<u8>)
    requires
        forall|i: int| 0 <= i < bits.len() ==> #[trigger] bits[i] <= 1,
    ensures
        bits_of(Some(level), encoded(level, bits)) == bits,
        encoded(level, bits).len() == bits.len(),
    decreases bits.len(),
{
    if bits.len() > 0 {
        let head = bits.drop_last();
        decoding_undoes_encoding(level, head);
        assert(encoded(level, bits).drop_last() =~= encoded(level, head));
        assert(bits[bits.len() - 1] <= 1);
        assert(bits_of(Some(level), encoded(level, bits)) =~= bits);
    } else {
        assert(bits_of(Some(level), encoded(level, bits)) =~= bits);
    }
}

/// Symbols of the other polarity carry the same bits, so the sign of the
/// recovered carrier does not matter.
pub proof fn polarity_of_the_carrier_does_not_matter(symbols: Seq<bool>)
    ensures
        bits_of(None, symbols.map_values(|s: bool| !s)) == bits_of(None, symbols),
    decreases symbols.len(),
{
    let flipped = symbols.map_values(|s: bool| !s);
    if symbols.len() > 0 {
        polarity_of_the_carrier_does_not_matter(symbols.drop_last());
        assert(flipped.drop_last() =~= symbols.drop_last().map_values(|s: bool| !s));
    } else {
        assert(flipped =~= symbols);
    }
}

/// How the symbols are cut into blocks neither loses nor repeats a bit.
pub proof fn blocks_keep_every_bit(prev: Option<bool>, a: Seq<bool>, b: Seq<bool>)
    ensures
        bits_of(prev, a + b) == bits_of(prev, a) + bits_of(last_symbol(prev, a), b),
        last_symbol(prev, a + b) == last_symbol(last_symbol(prev, a), b),
    decreases b.len(),
{
    if b.len() == 0 {
        assert(a + b =~= a);
        assert(bits_of(prev, a) + Seq::empty() =~= bits_of(prev, a));
    } else {
        blocks_keep_every_bit(prev, a, b.drop_last());
        assert((a + b).drop_last() =~= a + b.drop_last());
        assert(bits_of(prev, a + b) =~= bits_of(prev, a) + bits_of(last_symbol(prev, a), b));
    }
}

/// A symbol is sixteen cycles of the pilot, eight to each half, the carrier is its
/// third harmonic, and the bits come a sixteenth as often as its cycles.
pub proof fn everything_follows_from_the_pilot(phase: nat)
    ensures
        in_second_half(phase) == (phase / CYCLE as nat % 16 >= 8),
        CARRIER_HZ == 3 * 19_000_000_000,
        16 * BAUD == 19_000_000_000,
{
    let c = CYCLE as int;
    let q = phase as int / c;
    assert(phase as int % SYMBOL as int == c * (q % 16) + phase as int % c);
}

/// The clock moves with the pilot: forward by less than a cycle, to where the
/// pilot is.
pub proof fn the_clock_goes_where_the_pilot_is(c: Clock, pilot: u32)
    ensures
        0 <= advance(c, pilot) < CYCLE,
        reached(c, pilot) >= c.phase,
        reached(c, pilot) % CYCLE as nat == pilot,
{
}

/// Every sample is counted once, for the half of the symbol that it falls in, and
/// the counts begin again with each symbol.
pub proof fn every_sample_counts_for_one_half(c: Clock, pilot: u32)
    ensures
        !ends_symbol(c, pilot) ==> ticked(c, pilot).first + ticked(c, pilot).second == c.first
            + c.second + 1,
        !ends_symbol(c, pilot) && in_second_half(reached(c, pilot)) ==> ticked(c, pilot).first
            == c.first,
        !ends_symbol(c, pilot) && !in_second_half(reached(c, pilot)) ==> ticked(c, pilot).second
            == c.second,
        ends_symbol(c, pilot) ==> ticked(c, pilot).first == 0 && ticked(c, pilot).second == 0,
{
}

/// Whether sample `i` of a block falls in the second half of a symbol.
pub open spec fn falls_late(s: Rds, base: Seq<i64>, pilot: Seq<u32>, i: int) -> bool {
    late(listened_to(s, base.take(i), pilot.take(i)), pilot[i])
}

/// Whether sample `i` of a block ends a symbol.
pub open spec fn falls_last(s: Rds, base: Seq<i64>, pilot: Seq<u32>, i: int) -> bool {
    ends_symbol(listened_to(s, base.take(i), pilot.take(i)).clock, pilot[i])
}

/// Whether the samples of a block are those of one symbol: `up` where it goes from
/// above `t` to below it in its middle, down where it goes the other way.
pub open spec fn is_symbol(
    s: Rds,
    base: Seq<i64>,
    pilot: Seq<u32>,
    t: int,
    up: bool,
) -> bool {
    forall|i: int|
        0 <= i < base.len() ==> if (#[trigger] falls_late(s, base, pilot, i)) == up {
            base[i] < t
        } else {
            base[i] > t
        }
}

proof fn halves_are_apart(s: Rds, base: Seq<i64>, pilot: Seq<u32>, t: int, up: bool)
    requires
        base.len() == pilot.len(),
        s.first == 0,
        s.second == 0,
        s.clock.first == 0,
        s.clock.second == 0,
        is_symbol(s, base, pilot, t, up),
        forall|i: int| 0 <= i < base.len() ==> !#[trigger] falls_last(s, base, pilot, i),
    ensures
        ({
            let r = listened_to(s, base, pilot);
            let (m, n) = (r.clock.first as int, r.clock.second as int);
            &&& r.prev == s.prev
            &&& r.level == s.level
            &&& up ==> r.first >= t * m + m && r.second <= t * n - n
            &&& !up ==> r.first <= t * m - m && r.second >= t * n + n
            &&& bits_in(s, base, pilot) == Seq::<u8>::empty()
        }),
    decreases base.len(),
{
    let r = listened_to(s, base, pilot);
    if base.len() == 0 {
        assert(t * 0 == 0);
    } else {
        let (b, p) = (base.drop_last(), pilot.drop_last());
        let k = base.len() - 1;
        assert forall|i: int| 0 <= i < b.len() implies falls_late(s, b, p, i) == #[trigger] falls_late(
            s,
            base,
            pilot,
            i,
        ) && falls_last(s, b, p, i) == falls_last(s, base, pilot, i) by {
            assert(b.take(i) =~= base.take(i));
            assert(p.take(i) =~= pilot.take(i));
        }
        assert forall|i: int| 0 <= i < b.len() implies !#[trigger] falls_last(s, b, p, i) by {
            assert(falls_late(s, b, p, i) == falls_late(s, base, pilot, i));
            assert(!falls_last(s, base, pilot, i));
        }
        assert(is_symbol(s, b, p, t, up)) by {
            assert forall|i: int| 0 <= i < b.len() implies if (#[trigger] falls_late(s, b, p, i))
                == up {
                b[i] < t
            } else {
                b[i] > t
            } by {
                assert(falls_late(s, base, pilot, i) == falls_late(s, b, p, i));
                assert(b[i] == base[i]);
            }
        }
        halves_are_apart(s, b, p, t, up);
        let q = listened_to(s, b, p);
        assert(base.take(k) =~= b);
        assert(pilot.take(k) =~= p);
        assert(falls_late(s, base, pilot, k) == late(q, pilot[k]));
        assert(!falls_last(s, base, pilot, k));
        let (m, n) = (q.clock.first as int, q.clock.second as int);
        assert(t * (m + 1) == t * m + t && t * (n + 1) == t * n + t) by (nonlinear_arith);
    }
}

/// A symbol is heard as it was sent. Where the samples of its first half lie over
/// a level and those of its second half under it, the symbol is high, and where
/// they lie the other way round it is low, at whatever level that is. The bit is
/// the change from the symbol before it.
pub proof fn symbols_are_heard_as_sent(
    s: Rds,
    base: Seq<i64>,
    pilot: Seq<u32>,
    t: int,
    up: bool,
)
    requires
        base.len() == pilot.len(),
        base.len() > 0,
        s.first == 0,
        s.second == 0,
        s.clock.first == 0,
        s.clock.second == 0,
        is_symbol(s, base, pilot, t, up),
        forall|i: int| 0 <= i < base.len() - 1 ==> !#[trigger] falls_last(s, base, pilot, i),
        falls_last(s, base, pilot, base.len() - 1),
        exists|i: int| 0 <= i < base.len() && #[trigger] falls_late(s, base, pilot, i),
        exists|i: int| 0 <= i < base.len() && !#[trigger] falls_late(s, base, pilot, i),
    ensures
        listened_to(s, base, pilot).prev == Some(up),
        bits_in(s, base, pilot) == match s.prev {
            Some(before) => seq![
                if before == up {
                    0u8
                } else {
                    1u8
                },
            ],
            None => Seq::<u8>::empty(),
        },
        listened_to(s, base, pilot).first == 0,
        listened_to(s, base, pilot).second == 0,
        listened_to(s, base, pilot).clock.first == 0,
        listened_to(s, base, pilot).clock.second == 0,
{
    let (b, p) = (base.drop_last(), pilot.drop_last());
    let k = base.len() - 1;
    assert(base.take(k) =~= b);
    assert(pilot.take(k) =~= p);
    assert forall|i: int| 0 <= i < b.len() implies falls_late(s, b, p, i) == #[trigger] falls_late(
        s,
        base,
        pilot,
        i,
    ) && falls_last(s, b, p, i) == falls_last(s, base, pilot, i) by {
        assert(b.take(i) =~= base.take(i));
        assert(p.take(i) =~= pilot.take(i));
    }
    assert forall|i: int| 0 <= i < b.len() implies !#[trigger] falls_last(s, b, p, i) by {
        assert(falls_late(s, b, p, i) == falls_late(s, base, pilot, i));
        assert(!falls_last(s, base, pilot, i));
    }
    assert(is_symbol(s, b, p, t, up)) by {
        assert forall|i: int| 0 <= i < b.len() implies if (#[trigger] falls_late(s, b, p, i)) == up {
            b[i] < t
        } else {
            b[i] > t
        } by {
            assert(falls_late(s, base, pilot, i) == falls_late(s, b, p, i));
            assert(b[i] == base[i]);
        }
    }
    halves_are_apart(s, b, p, t, up);
    both_halves_are_counted(s, base, pilot);
    let q = listened_to(s, b, p);
    let (v, at) = (base[k] as int, pilot[k]);
    assert(falls_late(s, base, pilot, k) == late(q, at));
    let (x, y) = summed(q, v, at);
    let (m, n) = counted(q, at);
    let (a, c) = (q.clock.first as int, q.clock.second as int);
    assert(t * (a + 1) == t * a + t && t * (c + 1) == t * c + t) by (nonlinear_arith);
    if up {
        assert(x * n - y * m > 0) by (nonlinear_arith)
            requires
                x >= t * m + m,
                y <= t * n - n,
                m >= 1,
                n >= 1,
        ;
    } else {
        assert(x * n - y * m < 0) by (nonlinear_arith)
            requires
                x <= t * m - m,
                y >= t * n + n,
                m >= 1,
                n >= 1,
        ;
    }
    assert(step_num(q, v, at) == x * n - y * m);
    assert(bits_in(s, b, p) =~= Seq::empty());
    match s.prev {
        Some(before) => {
            assert(bits_in(s, base, pilot) =~= seq![
                if before == up {
                    0u8
                } else {
                    1u8
                },
            ]);
        },
        None => {
            assert(bits_in(s, base, pilot) =~= Seq::empty());
        },
    }
}

proof fn both_halves_are_counted(s: Rds, base: Seq<i64>, pilot: Seq<u32>)
    requires
        base.len() == pilot.len(),
        base.len() > 0,
        forall|i: int| 0 <= i < base.len() - 1 ==> !#[trigger] falls_last(s, base, pilot, i),
        exists|i: int| 0 <= i < base.len() && #[trigger] falls_late(s, base, pilot, i),
        exists|i: int| 0 <= i < base.len() && !#[trigger] falls_late(s, base, pilot, i),
    ensures
        ({
            let q = listened_to(s, base.drop_last(), pilot.drop_last());
            let (m, n) = counted(q, pilot.last());
            m >= 1 && n >= 1
        }),
{
    let i = choose|i: int| 0 <= i < base.len() && #[trigger] falls_late(s, base, pilot, i);
    let j = choose|j: int| 0 <= j < base.len() && !#[trigger] falls_late(s, base, pilot, j);
    let k = base.len() - 1;
    assert(base.take(k) =~= base.drop_last());
    assert(pilot.take(k) =~= pilot.drop_last());
    if i < k {
        a_half_stays_counted(s, base, pilot, i, k);
    }
    if j < k {
        a_half_stays_counted(s, base, pilot, j, k);
    }
}

proof fn a_half_stays_counted(s: Rds, base: Seq<i64>, pilot: Seq<u32>, i: int, k: int)
    requires
        base.len() == pilot.len(),
        0 <= i < k <= base.len(),
        forall|j: int| i <= j < k ==> !#[trigger] falls_last(s, base, pilot, j),
    ensures
        ({
            let q = listened_to(s, base.take(k), pilot.take(k));
            &&& falls_late(s, base, pilot, i) ==> q.clock.second >= 1
            &&& !falls_late(s, base, pilot, i) ==> q.clock.first >= 1
        }),
    decreases k,
{
    assert(base.take(k).drop_last() =~= base.take(k - 1));
    assert(pilot.take(k).drop_last() =~= pilot.take(k - 1));
    assert(base.take(k).last() == base[k - 1] && pilot.take(k).last() == pilot[k - 1]);
    assert(!falls_last(s, base, pilot, k - 1));
    if i < k - 1 {
        a_half_stays_counted(s, base, pilot, i, k - 1);
    }
}

/// The level goes a hundredth of the way to the size of the step at each symbol,
/// and that size is the distance between the means of the two halves.
pub proof fn the_level_follows_the_step(s: Rds, v: int, pilot: u32)
    requires
        ends_symbol(s.clock, pilot),
        counted(s, pilot).0 >= 1,
        counted(s, pilot).1 >= 1,
    ensures
        ({
            let (x, y) = summed(s, v, pilot);
            let (m, n) = (counted(s, pilot).0 as int, counted(s, pilot).1 as int);
            let size = step_size(s, v, pilot);
            let moved = listened(s, v, pilot).level - s.level;
            let far = if x * n >= y * m {
                x * n - y * m
            } else {
                y * m - x * n
            };
            &&& -50 <= 100 * moved - (size - s.level) <= 50
            &&& -(m * n) <= 2 * ((m * n) * size) - 2 * far <= m * n
        }),
{
    let (x, y) = summed(s, v, pilot);
    let (m, n) = (counted(s, pilot).0 as int, counted(s, pilot).1 as int);
    let d = nearest_signed_spec(step_num(s, v, pilot), step_den(s, pilot));
    assert(m * n >= 1) by (nonlinear_arith)
        requires
            m >= 1,
            n >= 1,
    ;
    rounding_is_close(step_num(s, v, pilot), step_den(s, pilot));
    rounding_is_bounded(step_num(s, v, pilot), step_den(s, pilot));
    rounding_is_close(step_size(s, v, pilot) - s.level, 100);
    assert((m * n) * (-d) == -((m * n) * d)) by (nonlinear_arith);
}

} // verus!
