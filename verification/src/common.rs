//! Units, errors, device descriptions and sample formats.

use vstd::prelude::*;
use vstd::std_specs::range::ContainsSpec;
use std::ops::RangeInclusive;
use crate::fixed::{nearest, Micro};
#[allow(unused_imports)]
use crate::fixed::{nearest_bounds, nearest_spec};

verus! {

/// A frequency in hertz.
#[derive(Clone, Copy, Debug, PartialEq, Eq, Structural)]
pub struct Hz(pub u64);

/// A sample rate in samples per second.
#[derive(Clone, Copy, Debug, PartialEq, Eq, Structural)]
pub struct Sps(pub u64);

impl Hz {
    /// Whole megahertz.
    pub fn mhz(n: u64) -> (r: Hz)
        requires
            n <= 18_446_744_073_709,
        ensures
            r.0 == n * 1_000_000,
    {
        Hz(n * 1_000_000)
    }

    /// Hertz.
    pub fn get(self) -> (r: u64)
        ensures
            r == self.0,
    {
        self.0
    }
}

/// Something that went wrong, in words.
#[derive(Debug, PartialEq, Eq)]
pub struct Error {
    message: String,
}

impl View for Error {
    type V = Seq<char>;

    closed spec fn view(&self) -> Seq<char> {
        self.message@
    }
}

impl Error {
    /// An error with that text.
    pub fn other(message: String) -> (r: Error)
        ensures
            r@ == message@,
    {
        Error { message }
    }

    /// The text.
    pub fn to_string(&self) -> (r: String)
        ensures
            r@ == self@,
    {
        self.message.as_str().to_owned()
    }
}

#[derive(Clone, Copy, Debug, PartialEq, Eq, Structural, Hash)]
pub enum DriverKind {
    RtlSdr,
    HackRf,
    File,
    Synthetic,
}

/// Name of a driver.
pub open spec fn driver_text(k: DriverKind) -> Seq<char> {
    match k {
        DriverKind::RtlSdr => "rtlsdr"@,
        DriverKind::HackRf => "hackrf"@,
        DriverKind::File => "file"@,
        DriverKind::Synthetic => "synthetic"@,
    }
}

impl DriverKind {
    pub fn as_str(self) -> (r: &'static str)
        ensures
            r@ == driver_text(self),
    {
        match self {
            DriverKind::RtlSdr => "rtlsdr",
            DriverKind::HackRf => "hackrf",
            DriverKind::File => "file",
            DriverKind::Synthetic => "synthetic",
        }
    }
}

/// A tunable span in hertz. Some tuners have gaps, so a device reports a list.
#[derive(Debug)]
pub struct TunerRange {
    pub range: RangeInclusive<u64>,
    pub label: &'static str,
}

/// The same range again. This is `Clone::clone` of `RangeInclusive`, which the
/// standard library promises to be a duplicate of the value.
#[verifier::external_body]
fn duplicate(r: &RangeInclusive<u64>) -> (c: RangeInclusive<u64>)
    ensures
        c@ == r@,
{
    r.clone()
}

impl Clone for TunerRange {
    fn clone(&self) -> (r: TunerRange)
        ensures
            r.range@ == self.range@,
            r.label == self.label,
    {
        TunerRange { range: duplicate(&self.range), label: self.label }
    }
}

/// Whether a span reaches a frequency.
pub open spec fn reaches(t: TunerRange, f: Hz) -> bool {
    &&& t.range@.start <= f.0
    &&& if t.range@.exhausted {
        f.0 < t.range@.end
    } else {
        f.0 <= t.range@.end
    }
}

/// How gain is controlled for one stage.
#[derive(Clone, Copy, Debug, PartialEq, Eq, Structural)]
pub enum GainMode {
    /// The hardware or its driver picks the gain.
    Auto,
    /// Fixed gain in dB.
    Manual(Micro),
}

/// What is known of a device without knowing its driver.
#[derive(Debug)]
pub struct DeviceInfo {
    pub kind: DriverKind,
    /// Stable identifier usable to reopen this unit.
    pub id: String,
    pub label: String,
    pub tuner: String,
    pub ranges: Vec<TunerRange>,
    /// Discrete rates if the device only does a fixed set, else empty and
    /// `rate_range` applies.
    pub rates: Vec<Sps>,
    pub rate_range: RangeInclusive<u64>,
    /// Named gain stages with their dB bounds, in signal-path order.
    pub gain_stages: Vec<(String, Micro, Micro)>,
    pub native_format: SampleFormat,
    /// Usable fraction of the sample rate before the analogue filter rolls off.
    pub usable_bandwidth_ratio: Micro,
}

impl DeviceInfo {
    /// Whether any span of the device reaches a frequency.
    pub fn covers(&self, f: Hz) -> (r: bool)
        ensures
            r == exists|i: int| 0 <= i < self.ranges@.len() && reaches(#[trigger] self.ranges@[i], f),
    {
        let mut i: usize = 0;
        while i < self.ranges.len()
            invariant
                i <= self.ranges@.len(),
                forall|k: int| 0 <= k < i ==> !reaches(#[trigger] self.ranges@[k], f),
            decreases self.ranges@.len() - i,
        {
            if self.ranges[i].range.contains(&f.0) {
                assert(reaches(self.ranges@[i as int], f));
                return true;
            }
            i += 1;
        }
        false
    }
}

impl Clone for DeviceInfo {
    fn clone(&self) -> (r: DeviceInfo)
        ensures
            r.kind == self.kind,
            r.id@ == self.id@,
            r.label@ == self.label@,
            r.tuner@ == self.tuner@,
            r.ranges@.len() == self.ranges@.len(),
            forall|i: int|
                0 <= i < r.ranges@.len() ==> (#[trigger] r.ranges@[i]).range@
                    == self.ranges@[i].range@ && r.ranges@[i].label == self.ranges@[i].label,
            r.rates@ == self.rates@,
            r.rate_range@ == self.rate_range@,
            r.gain_stages@.len() == self.gain_stages@.len(),
            forall|i: int|
                0 <= i < r.gain_stages@.len() ==> (#[trigger] r.gain_stages@[i]).0@
                    == self.gain_stages@[i].0@ && r.gain_stages@[i].1 == self.gain_stages@[i].1
                    && r.gain_stages@[i].2 == self.gain_stages@[i].2,
            r.native_format == self.native_format,
            r.usable_bandwidth_ratio == self.usable_bandwidth_ratio,
    {
        let mut ranges: Vec<TunerRange> = Vec::new();
        let mut i: usize = 0;
        while i < self.ranges.len()
            invariant
                i <= self.ranges@.len(),
                ranges@.len() == i,
                forall|k: int|
                    0 <= k < i ==> (#[trigger] ranges@[k]).range@ == self.ranges@[k].range@
                        && ranges@[k].label == self.ranges@[k].label,
            decreases self.ranges@.len() - i,
        {
            ranges.push(self.ranges[i].clone());
            i += 1;
        }
        let mut gain_stages: Vec<(String, Micro, Micro)> = Vec::new();
        let mut j: usize = 0;
        while j < self.gain_stages.len()
            invariant
                j <= self.gain_stages@.len(),
                gain_stages@.len() == j,
                forall|k: int|
                    0 <= k < j ==> (#[trigger] gain_stages@[k]).0@ == self.gain_stages@[k].0@
                        && gain_stages@[k].1 == self.gain_stages@[k].1 && gain_stages@[k].2
                        == self.gain_stages@[k].2,
            decreases self.gain_stages@.len() - j,
        {
            let name: String = self.gain_stages[j].0.as_str().to_owned();
            gain_stages.push((name, self.gain_stages[j].1, self.gain_stages[j].2));
            j += 1;
        }
        let rates: Vec<Sps> = self.rates.clone();
        assert(rates@ =~= self.rates@);
        DeviceInfo {
            kind: self.kind,
            id: self.id.as_str().to_owned(),
            label: self.label.as_str().to_owned(),
            tuner: self.tuner.as_str().to_owned(),
            ranges,
            rates,
            rate_range: duplicate(&self.rate_range),
            gain_stages,
            native_format: self.native_format,
            usable_bandwidth_ratio: self.usable_bandwidth_ratio,
        }
    }
}

/// Sample format as it arrives from a device or a file.
#[derive(Clone, Copy, Debug, PartialEq, Eq, Structural)]
pub enum SampleFormat {
    /// Unsigned 8-bit offset binary, interleaved I/Q.
    Cu8,
    /// Signed 8-bit two's complement, interleaved I/Q.
    Cs8,
    /// Signed 16-bit little-endian, interleaved I/Q.
    Cs16,
    /// 32-bit float, interleaved I/Q.
    Cf32,
}

/// Bytes of one complex sample.
pub open spec fn sample_bytes(f: SampleFormat) -> nat {
    match f {
        SampleFormat::Cu8 => 2,
        SampleFormat::Cs8 => 2,
        SampleFormat::Cs16 => 4,
        SampleFormat::Cf32 => 8,
    }
}

/// A byte as a signed one.
pub open spec fn signed8(b: u8) -> int {
    if b < 128 {
        b as int
    } else {
        b - 256
    }
}

/// One component of a sample: a multiple of one over the full scale, or for
/// floats the bits of the number.
///
/// The midpoint of offset binary lies between 127 and 128, so its components
/// are odd multiples of half a step.
pub open spec fn component(f: SampleFormat, raw: Seq<u8>, at: int) -> int {
    match f {
        SampleFormat::Cu8 => 2 * raw[at] - 255,
        SampleFormat::Cs8 => signed8(raw[at]),
        SampleFormat::Cs16 => raw[at] + 256 * signed8(raw[at + 1]),
        SampleFormat::Cf32 => raw[at] + 256 * raw[at + 1] + 65536 * raw[at + 2] + 16777216
            * raw[at + 3],
    }
}

/// The samples of a run of bytes, a partial one at its end left out.
pub open spec fn samples_of(f: SampleFormat, raw: Seq<u8>) -> Seq<(i64, i64)> {
    let b = sample_bytes(f) as int;
    Seq::new(
        (raw.len() as int / b) as nat,
        |k: int|
            (
                component(f, raw, k * b) as i64,
                component(f, raw, k * b + b / 2) as i64,
            ),
    )
}

/// The components that full scale is, if they are not floats.
pub open spec fn full_scale(f: SampleFormat) -> Option<u32> {
    match f {
        SampleFormat::Cu8 => Some(255),
        SampleFormat::Cs8 => Some(128),
        SampleFormat::Cs16 => Some(32768),
        SampleFormat::Cf32 => None,
    }
}

/// A byte as a signed one.
fn sign(b: u8) -> (r: i64)
    ensures
        r == signed8(b),
{
    if b < 128 {
        b as i64
    } else {
        b as i64 - 256
    }
}

impl SampleFormat {
    /// Bytes occupied by one complex sample.
    pub fn bytes_per_sample(self) -> (r: usize)
        ensures
            r == sample_bytes(self),
    {
        match self {
            SampleFormat::Cu8 | SampleFormat::Cs8 => 2,
            SampleFormat::Cs16 => 4,
            SampleFormat::Cf32 => 8,
        }
    }

    /// What to divide components by to bring them to a full scale of one.
    /// None for floats, whose components are the bits of the number.
    pub fn scale(self) -> (r: Option<u32>)
        ensures
            r == full_scale(self),
    {
        match self {
            SampleFormat::Cu8 => Some(255),
            SampleFormat::Cs8 => Some(128),
            SampleFormat::Cs16 => Some(32768),
            SampleFormat::Cf32 => None,
        }
    }

    fn component_at(self, raw: &[u8], at: usize) -> (r: i64)
        requires
            at + sample_bytes(self) / 2 <= raw@.len(),
        ensures
            r == component(self, raw@, at as int),
    {
        match self {
            SampleFormat::Cu8 => 2 * raw[at] as i64 - 255,
            SampleFormat::Cs8 => sign(raw[at]),
            SampleFormat::Cs16 => raw[at] as i64 + 256 * sign(raw[at + 1]),
            SampleFormat::Cf32 => raw[at] as i64 + 256 * raw[at + 1] as i64 + 65536 * raw[at
                + 2] as i64 + 16777216 * raw[at + 3] as i64,
        }
    }

    /// Takes interleaved bytes apart into samples, appending to `out`.
    ///
    /// Trailing bytes that do not form a whole sample are ignored; the caller
    /// is responsible for carrying them into the next call if it cares.
    pub fn convert(self, raw: &[u8], out: &mut Vec<(i64, i64)>)
        ensures
            final(out)@ == old(out)@ + samples_of(self, raw@),
    {
        let b: usize = self.bytes_per_sample();
        let n: usize = raw.len() / b;
        let mut k: usize = 0;
        let mut at: usize = 0;
        proof {
            vstd::arithmetic::div_mod::lemma_fundamental_div_mod(raw@.len() as int, b as int);
            assert(0 * b == 0);
        }
        while k < n
            invariant
                b == sample_bytes(self),
                n == raw@.len() as int / b as int,
                b * n <= raw@.len(),
                k <= n,
                at == k * b,
                out@ == old(out)@ + samples_of(self, raw@).take(k as int),
            decreases n - k,
        {
            assert(at + b <= b * n) by (nonlinear_arith)
                requires
                    at == k * b,
                    k + 1 <= n,
                    b >= 1,
            ;
            let len: usize = raw.len();
            assert(at + b <= len);
            let i: i64 = self.component_at(raw, at);
            let q: i64 = self.component_at(raw, at + b / 2);
            out.push((i, q));
            assert((k + 1) * b == k * b + b) by (nonlinear_arith);
            k += 1;
            at += b;
            assert(out@ =~= old(out)@ + samples_of(self, raw@).take(k as int));
        }
        assert(samples_of(self, raw@).take(n as int) =~= samples_of(self, raw@));
    }
}

/// Components lie within full scale.
pub proof fn components_are_normalised(f: SampleFormat, raw: Seq<u8>, k: int)
    requires
        0 <= k < samples_of(f, raw).len(),
    ensures
        full_scale(f) matches Some(top) ==> {
            &&& -top <= samples_of(f, raw)[k].0 <= top
            &&& -top <= samples_of(f, raw)[k].1 <= top
        },
{
}

/// Offset binary is symmetrical about its midpoint: a byte and its complement
/// cancel, so the conversion adds no offset.
pub proof fn offset_binary_has_no_offset(raw: Seq<u8>, at: int)
    requires
        0 <= at < raw.len(),
    ensures
        component(SampleFormat::Cu8, raw, at) + component(
            SampleFormat::Cu8,
            raw.map_values(|b: u8| (255 - b) as u8),
            at,
        ) == 0,
{
}

/// Converting two runs of bytes one after the other is converting them as one,
/// where the first holds whole samples.
pub proof fn whole_samples_can_be_split(f: SampleFormat, a: Seq<u8>, b: Seq<u8>)
    requires
        a.len() % sample_bytes(f) == 0,
    ensures
        samples_of(f, a + b) == samples_of(f, a) + samples_of(f, b),
{
    let s = sample_bytes(f) as int;
    let n = a.len() as int / s;
    let m = b.len() as int / s;
    vstd::arithmetic::div_mod::lemma_fundamental_div_mod(a.len() as int, s);
    vstd::arithmetic::div_mod::lemma_fundamental_div_mod(b.len() as int, s);
    let total = (a + b).len() as int;
    assert(total == s * (n + m) + b.len() as int % s) by (nonlinear_arith)
        requires
            total == s * n + (s * m + b.len() as int % s),
    ;
    vstd::arithmetic::div_mod::lemma_fundamental_div_mod_converse(
        total,
        s,
        n + m,
        b.len() as int % s,
    );
    let whole = samples_of(f, a + b);
    let parts = samples_of(f, a) + samples_of(f, b);
    assert(whole.len() == parts.len());
    assert forall|k: int| 0 <= k < whole.len() implies whole[k] == parts[k] by {
        if k < n {
            assert(k * s + s <= s * n) by (nonlinear_arith)
                requires
                    0 <= k,
                    k + 1 <= n,
                    s >= 1,
            ;
            assert(0 <= k * s) by (nonlinear_arith)
                requires
                    0 <= k,
                    s >= 1,
            ;
        } else {
            assert(k * s == (k - n) * s + s * n) by (nonlinear_arith);
            assert((k - n) * s + s <= s * m) by (nonlinear_arith)
                requires
                    0 <= k - n,
                    k - n + 1 <= m,
                    s >= 1,
            ;
            assert(0 <= (k - n) * s) by (nonlinear_arith)
                requires
                    0 <= k - n,
                    s >= 1,
            ;
        }
    }
    assert(whole =~= parts);
}

/// A block of contiguous samples with the tuning needed to interpret it.
#[derive(Debug)]
pub struct IqBuf<T> {
    pub samples: Vec<T>,
    /// Centre frequency these samples were captured at.
    pub center: Hz,
    pub rate: Sps,
    /// Samples produced by the source before this block.
    pub seq: u64,
}

impl<T: Clone> Clone for IqBuf<T> {
    fn clone(&self) -> (r: IqBuf<T>)
        ensures
            r.samples@.len() == self.samples@.len(),
            forall|i: int|
                0 <= i < r.samples@.len() ==> cloned::<T>(
                    self.samples@[i],
                    #[trigger] r.samples@[i],
                ),
            r.center == self.center,
            r.rate == self.rate,
            r.seq == self.seq,
    {
        let samples: Vec<T> = self.samples.clone();
        IqBuf { samples, center: self.center, rate: self.rate, seq: self.seq }
    }
}

impl<T> IqBuf<T> {
    pub fn new(samples: Vec<T>, center: Hz, rate: Sps, seq: u64) -> (r: IqBuf<T>)
        ensures
            r.samples == samples,
            r.center == center,
            r.rate == rate,
            r.seq == seq,
    {
        IqBuf { samples, center, rate, seq }
    }

    pub fn len(&self) -> (r: usize)
        ensures
            r == self.samples@.len(),
    {
        self.samples.len()
    }

    pub fn is_empty(&self) -> (r: bool)
        ensures
            r == (self.samples@.len() == 0),
    {
        self.samples.len() == 0
    }

    /// Time this block represents, in nanoseconds.
    pub fn duration(&self) -> (r: u128)
        requires
            self.rate.0 > 0,
        ensures
            r == nearest_spec(self.samples@.len() * 1_000_000_000, self.rate.0 as nat),
    {
        nearest(self.samples.len() as u128 * 1_000_000_000, self.rate.0 as u128)
    }

    /// Lowest frequency represented, in millionths of a hertz.
    pub fn low_edge(&self) -> (r: i128)
        ensures
            r == self.center.0 * 1_000_000 - self.rate.0 * 500_000,
    {
        self.center.0 as i128 * 1_000_000 - self.rate.0 as i128 * 500_000
    }

    /// Highest frequency represented, in millionths of a hertz.
    pub fn high_edge(&self) -> (r: i128)
        ensures
            r == self.center.0 * 1_000_000 + self.rate.0 * 500_000,
    {
        self.center.0 as i128 * 1_000_000 + self.rate.0 as i128 * 500_000
    }
}

/// An opened radio. Control only; sampling happens on a stream, so that the two
/// never wait for each other.
pub trait Device<T> {
    type Stream: RxStream<T>;

    fn info(&self) -> &DeviceInfo;

    fn set_center(&mut self, f: Hz) -> Result<(), Error>;

    fn center(&self) -> Hz;

    fn set_rate(&mut self, r: Sps) -> Result<(), Error>;

    fn rate(&self) -> Sps;

    /// Sets one gain stage by the name that is given for it.
    fn set_gain(&mut self, stage: &str, mode: GainMode) -> Result<(), Error>;

    /// Correction of the reference oscillator, in parts per million.
    fn set_ppm(&mut self, _ppm: Micro) -> (r: Result<(), Error>)
        default_ensures
            &*final(self) == &*old(self),
            r is Ok,
    {
        Ok(())
    }

    /// Begins streaming.
    fn start_rx(&mut self) -> Result<Self::Stream, Error>;
}

/// A running sample stream.
pub trait RxStream<T> {
    /// Waits for the next buffer. An error once the device is gone.
    fn read(&mut self) -> Result<IqBuf<T>, Error>;

    /// Samples dropped since the stream started.
    fn dropped(&self) -> u64;

    /// Asks the stream to stop.
    fn stop(&mut self);
}

/// Whether a component can be sent in a format. Offset binary has odd ones only,
/// and a float is thirty-two bits.
pub open spec fn can_be_sent(f: SampleFormat, v: int) -> bool {
    match f {
        SampleFormat::Cu8 => -255 <= v <= 255 && v % 2 == 1,
        SampleFormat::Cs8 => -128 <= v < 128,
        SampleFormat::Cs16 => -32768 <= v < 32768,
        SampleFormat::Cf32 => 0 <= v < 0x1_0000_0000,
    }
}

/// The bytes of a component, the lowest first. Negative ones wrap round, and the
/// middle of offset binary lies between its two middle bytes.
pub open spec fn sent_bytes(f: SampleFormat, v: int) -> Seq<u8> {
    match f {
        SampleFormat::Cu8 => seq![((v + 255) / 2) as u8],
        SampleFormat::Cs8 => seq![(v % 256) as u8],
        SampleFormat::Cs16 => seq![(v % 256) as u8, (v % 65536 / 256) as u8],
        SampleFormat::Cf32 => seq![
            (v % 256) as u8,
            (v / 256 % 256) as u8,
            (v / 65536 % 256) as u8,
            (v / 16777216) as u8,
        ],
    }
}

/// The bytes of samples: of each the in-phase component and then the other.
pub open spec fn sent_samples(f: SampleFormat, s: Seq<(i64, i64)>) -> Seq<u8>
    decreases s.len(),
{
    if s.len() == 0 {
        Seq::empty()
    } else {
        sent_samples(f, s.drop_last()) + sent_bytes(f, s.last().0 as int) + sent_bytes(
            f,
            s.last().1 as int,
        )
    }
}

proof fn wrapping_undone(v: int)
    requires
        -32768 <= v < 32768,
    ensures
        v % 256 + 256 * signed8((v % 65536 / 256) as u8) == v,
        -128 <= v < 128 ==> signed8((v % 256) as u8) == v,
{
}

proof fn components_read_back(f: SampleFormat, v: int, before: Seq<u8>, after: Seq<u8>)
    requires
        can_be_sent(f, v),
    ensures
        2 * sent_bytes(f, v).len() == sample_bytes(f),
        component(f, before + sent_bytes(f, v) + after, before.len() as int) == v,
{
    let all = before + sent_bytes(f, v) + after;
    let at = before.len() as int;
    let b = sent_bytes(f, v);
    assert(all[at] == b[0]);
    match f {
        SampleFormat::Cu8 => {
            assert(2 * ((v + 255) / 2) == v + 255);
        },
        SampleFormat::Cs8 => {
            wrapping_undone(v);
        },
        SampleFormat::Cs16 => {
            assert(all[at + 1] == b[1]);
            wrapping_undone(v);
        },
        SampleFormat::Cf32 => {
            assert(all[at + 1] == b[1] && all[at + 2] == b[2] && all[at + 3] == b[3]);
            assert(v == v % 256 + 256 * (v / 256 % 256) + 65536 * (v / 65536 % 256) + 16777216 * (v
                / 16777216));
        },
    }
}

/// Converting bytes undoes sending them: every format gives back the samples that
/// were written in it, in order, and neither component stands for the other.
pub proof fn converting_undoes_sending(f: SampleFormat, s: Seq<(i64, i64)>)
    requires
        forall|i: int|
            0 <= i < s.len() ==> can_be_sent(f, (#[trigger] s[i]).0 as int) && can_be_sent(
                f,
                s[i].1 as int,
            ),
    ensures
        samples_of(f, sent_samples(f, s)) == s,
        sent_samples(f, s).len() == s.len() * sample_bytes(f),
    decreases s.len(),
{
    let b = sample_bytes(f) as int;
    if s.len() == 0 {
        vstd::arithmetic::div_mod::lemma_div_basics(b);
        assert(samples_of(f, sent_samples(f, s)) =~= s);
        assert(0 * b == 0);
    } else {
        let head = s.drop_last();
        assert forall|i: int| 0 <= i < head.len() implies can_be_sent(
            f,
            (#[trigger] head[i]).0 as int,
        ) && can_be_sent(f, head[i].1 as int) by {
            assert(head[i] == s[i]);
        }
        converting_undoes_sending(f, head);
        let (v, w) = (s.last().0 as int, s.last().1 as int);
        assert(can_be_sent(f, s[s.len() - 1].0 as int));
        let (x, y) = (sent_bytes(f, v), sent_bytes(f, w));
        let none = Seq::<u8>::empty();
        components_read_back(f, v, none, y);
        components_read_back(f, w, x, none);
        let last = x + y;
        assert(none + x + y =~= last);
        assert(x + y + none =~= last);
        vstd::arithmetic::div_mod::lemma_fundamental_div_mod_converse(b, b, 1, 0);
        assert(samples_of(f, last) =~= seq![s.last()]) by {
            assert(0 * b == 0);
            assert(samples_of(f, last).len() == 1);
            assert(samples_of(f, last)[0] == s.last());
        }
        vstd::arithmetic::div_mod::lemma_mod_multiples_basic(head.len() as int, b);
        whole_samples_can_be_split(f, sent_samples(f, head), last);
        assert(sent_samples(f, s) =~= sent_samples(f, head) + last);
        assert(head + seq![s.last()] =~= s);
        assert(s.len() * b == head.len() * b + b) by (nonlinear_arith)
            requires
                s.len() == head.len() + 1,
        ;
    }
}

/// Full scale is a component that the format has, or the opposite of one, so
/// nothing is scaled to less than its size.
pub proof fn full_scale_is_reached(f: SampleFormat)
    ensures
        match full_scale(f) {
            Some(top) => can_be_sent(f, -(top as int)),
            None => f == SampleFormat::Cf32,
        },
{
}

/// A block of samples stands for as much spectrum as its rate, half on either
/// side of its centre, and for as much time as its samples take.
pub proof fn blocks_span_their_rate<T>(b: &IqBuf<T>, low: i128, high: i128, ns: u128)
    requires
        b.rate.0 > 0,
        call_ensures(IqBuf::<T>::low_edge, (b,), low),
        call_ensures(IqBuf::<T>::high_edge, (b,), high),
        call_ensures(IqBuf::<T>::duration, (b,), ns),
    ensures
        high - low == b.rate.0 * 1_000_000,
        high + low == 2 * (b.center.0 * 1_000_000),
        -(b.rate.0 as int) <= 2 * (b.rate.0 * ns) - 2_000_000_000 * b.samples@.len() <= b.rate.0,
{
    let (n, d) = (b.samples@.len() * 1_000_000_000, b.rate.0 as nat);
    nearest_bounds(n, d);
    let q = nearest_spec(n, d) as int;
    assert((2 * d) * q == 2 * (d * q)) by (nonlinear_arith);
}

} // verus!
