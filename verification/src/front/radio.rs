//! What the radio thread is told and how it carries it out.
//!
//! Opening the device, reading samples and playing audio are the caller's part.
//! [`Receiver`] says what to do for each command and each block of samples.

use vstd::prelude::*;
use crate::common::{Error, GainMode, Hz, Sps};
use crate::fixed::{nearest, Micro};
#[allow(unused_imports)]
use crate::fixed::{clamp_spec, nearest_bounds, nearest_spec};
use crate::text::push_nat;
#[allow(unused_imports)]
use crate::text::digits;

verus! {

#[derive(Clone, Copy, Debug, PartialEq, Eq, Structural)]
pub enum Demod {
    Wfm,
    Nfm,
    Am,
}

/// Name of a mode.
pub open spec fn demod_text(d: Demod) -> Seq<char> {
    match d {
        Demod::Wfm => "WFM"@,
        Demod::Nfm => "NFM"@,
        Demod::Am => "AM"@,
    }
}

/// Occupied channel bandwidth in hertz, two-sided.
pub open spec fn bandwidth_spec(d: Demod) -> u32 {
    match d {
        Demod::Wfm => 180_000,
        Demod::Nfm => 12_500,
        Demod::Am => 10_000,
    }
}

/// Sample rate at which a mode is demodulated.
pub open spec fn if_rate_spec(d: Demod) -> u32 {
    match d {
        Demod::Wfm => 288_000,
        Demod::Nfm => 48_000,
        Demod::Am => 48_000,
    }
}

/// Audio bandwidth after demodulation, in hertz.
pub open spec fn audio_bw_spec(d: Demod) -> u32 {
    match d {
        Demod::Wfm => 15_000,
        Demod::Nfm => 4_000,
        Demod::Am => 5_000,
    }
}

/// Peak deviation in hertz.
pub open spec fn deviation_spec(d: Demod) -> u32 {
    match d {
        Demod::Wfm => 75_000,
        Demod::Nfm => 5_000,
        Demod::Am => 0,
    }
}

impl Demod {
    pub fn label(self) -> (r: &'static str)
        ensures
            r@ == demod_text(self),
    {
        match self {
            Demod::Wfm => "WFM",
            Demod::Nfm => "NFM",
            Demod::Am => "AM",
        }
    }

    /// Occupied channel bandwidth, two-sided: for broadcast, twice the sum of
    /// the deviation and the audio.
    pub fn bandwidth(self) -> (r: u32)
        ensures
            r == bandwidth_spec(self),
    {
        match self {
            Demod::Wfm => 180_000,
            Demod::Nfm => 12_500,
            Demod::Am => 10_000,
        }
    }

    /// Sample rate to run the demodulator at: comfortably above the channel
    /// bandwidth, so that the filter before it stays short.
    pub fn if_rate(self) -> (r: u32)
        ensures
            r == if_rate_spec(self),
    {
        match self {
            Demod::Wfm => 288_000,
            Demod::Nfm | Demod::Am => 48_000,
        }
    }

    /// Audio bandwidth after demodulation.
    pub fn audio_bw(self) -> (r: u32)
        ensures
            r == audio_bw_spec(self),
    {
        match self {
            Demod::Wfm => 15_000,
            Demod::Nfm => 4_000,
            Demod::Am => 5_000,
        }
    }

    pub fn deviation(self) -> (r: u32)
        ensures
            r == deviation_spec(self),
    {
        match self {
            Demod::Wfm => 75_000,
            Demod::Nfm => 5_000,
            Demod::Am => 0,
        }
    }
}

/// The demodulator never runs at the bandwidth of its channel or below it.
pub proof fn demodulators_have_room(d: Demod)
    ensures
        if_rate_spec(d) > bandwidth_spec(d),
        bandwidth_spec(d) > audio_bw_spec(d),
{
}

/// What the radio is told.
#[derive(Clone, Copy, Debug, PartialEq, Eq, Structural)]
pub enum Cmd {
    Center(Hz),
    Rate(Sps),
    Gain(GainMode),
    /// Tune audio to an offset from centre, or mute.
    Listen(Option<Micro>),
    Demod(Demod),
    Volume(Micro),
    Fft(usize),
    /// Spectrum frames per second.
    Refresh(Micro),
    /// Averaging of the spectrum, one for none.
    Smoothing(Micro),
    Stop,
}

/// `num / den` rounded to the nearest integer, but at least one.
pub open spec fn at_least_one(num: nat, den: nat) -> nat {
    let n = nearest_spec(num, den);
    if n < 1 {
        1
    } else {
        n
    }
}

/// How the audio chain of one channel reduces its rate.
#[derive(Clone, Copy, Debug, PartialEq, Eq, Structural)]
pub struct AudioPlan {
    /// Decimation before the demodulator.
    pub if_dec: u64,
    /// Decimation after it.
    pub au_dec: u64,
    /// Rate of the demodulator.
    pub if_rate: Micro,
    /// Rate of the audio.
    pub audio_rate: Micro,
    pub am: bool,
}

/// The plan of a mode at an input rate and a wanted audio rate, both in
/// millionths.
pub open spec fn plan_spec(rate: int, mode: Demod, target: int) -> AudioPlan {
    let if_dec = at_least_one(rate as nat, (if_rate_spec(mode) * 1_000_000) as nat);
    let au_dec = at_least_one(rate as nat, (if_dec * target) as nat);
    AudioPlan {
        if_dec: if_dec as u64,
        au_dec: au_dec as u64,
        if_rate: Micro(nearest_spec(rate as nat, if_dec) as i64),
        audio_rate: Micro(nearest_spec(rate as nat, if_dec * au_dec) as i64),
        am: mode == Demod::Am,
    }
}

impl AudioPlan {
    pub fn new(rate: Micro, mode: Demod, target: Micro) -> (r: AudioPlan)
        requires
            rate@ > 0,
            target@ > 0,
        ensures
            r == plan_spec(rate@, mode, target@),
            r.if_dec >= 1,
            r.au_dec >= 1,
    {
        let n: u128 = rate.0 as u128;
        let wanted: u128 = mode.if_rate() as u128 * 1_000_000;
        let mut if_dec: u128 = nearest(n, wanted);
        proof {
            nearest_bounds(n as nat, wanted as nat);
        }
        if if_dec < 1 {
            if_dec = 1;
        }
        assert(if_dec * target.0 <= 0x7fff_ffff_ffff_ffff * 0x7fff_ffff_ffff_ffff)
            by (nonlinear_arith)
            requires
                0 <= if_dec <= 0x7fff_ffff_ffff_ffff,
                0 <= target.0 <= 0x7fff_ffff_ffff_ffff,
        ;
        assert(if_dec * target.0 >= 1) by (nonlinear_arith)
            requires
                if_dec >= 1,
                target.0 >= 1,
        ;
        let step: u128 = if_dec * target.0 as u128;
        let mut au_dec: u128 = nearest(n, step);
        proof {
            nearest_bounds(n as nat, step as nat);
        }
        if au_dec < 1 {
            au_dec = 1;
        }
        assert(1 <= if_dec * au_dec <= 0x7fff_ffff_ffff_ffff * 0x7fff_ffff_ffff_ffff)
            by (nonlinear_arith)
            requires
                1 <= if_dec <= 0x7fff_ffff_ffff_ffff,
                1 <= au_dec <= 0x7fff_ffff_ffff_ffff,
        ;
        let both: u128 = if_dec * au_dec;
        proof {
            nearest_bounds(n as nat, if_dec as nat);
            nearest_bounds(n as nat, both as nat);
        }
        let if_rate: u128 = nearest(n, if_dec);
        let audio_rate: u128 = nearest(n, both);
        AudioPlan {
            if_dec: if_dec as u64,
            au_dec: au_dec as u64,
            if_rate: Micro(if_rate as i64),
            audio_rate: Micro(audio_rate as i64),
            am: mode == Demod::Am,
        }
    }
}

/// What an audio chain costs: the taps and the decimation of its two filters.
pub open spec fn cost_text(if_taps: nat, au_taps: nat, p: AudioPlan) -> Seq<char> {
    "if "@ + digits(if_taps) + " taps /"@ + digits(p.if_dec as nat) + ", audio "@ + digits(
        au_taps,
    ) + " taps /"@ + digits(p.au_dec as nat)
}

/// What an audio chain costs.
pub fn cost(if_taps: usize, au_taps: usize, p: &AudioPlan) -> (r: String)
    ensures
        r@ == cost_text(if_taps as nat, au_taps as nat, *p),
{
    let mut s: String = "if ".to_owned();
    push_nat(&mut s, if_taps as u128);
    s.append(" taps /");
    push_nat(&mut s, p.if_dec as u128);
    s.append(", audio ");
    push_nat(&mut s, au_taps as u128);
    s.append(" taps /");
    push_nat(&mut s, p.au_dec as u128);
    assert(s@ =~= cost_text(if_taps as nat, au_taps as nat, *p));
    s
}

/// The whole decimation brings the input within half a demodulator step of a
/// multiple of the wanted audio rate, as long as the input is at least half as
/// fast as one step.
pub proof fn the_audio_rate_is_close(rate: int, mode: Demod, target: int)
    requires
        0 < rate <= i64::MAX,
        0 < target <= i64::MAX,
        2 * rate >= plan_spec(rate, mode, target).if_dec * target,
    ensures
        ({
            let p = plan_spec(rate, mode, target);
            let step = p.if_dec * target;
            &&& -step <= 2 * (p.au_dec * step - rate) <= step
        }),
{
    let p = plan_spec(rate, mode, target);
    let wanted = (if_rate_spec(mode) * 1_000_000) as nat;
    nearest_bounds(rate as nat, wanted);
    let if_dec = at_least_one(rate as nat, wanted);
    assert(p.if_dec == if_dec);
    let step = if_dec * target;
    assert(step >= 1) by (nonlinear_arith)
        requires
            step == if_dec * target,
            if_dec >= 1,
            target >= 1,
    ;
    nearest_bounds(rate as nat, step as nat);
    let q = nearest_spec(rate as nat, step as nat) as int;
    assert(q >= 1) by (nonlinear_arith)
        requires
            2 * rate + step < 2 * step * (q + 1),
            2 * rate >= step,
            step >= 1,
    ;
    assert(p.au_dec == q);
    assert(2 * step * q == 2 * (q * step)) by (nonlinear_arith);
    assert(2 * step * (q + 1) == 2 * (q * step) + 2 * step) by (nonlinear_arith);
}

/// The amplitude is demodulated in AM and in no other mode, whatever the rates,
/// and both FM modes have a deviation to be demodulated by.
pub proof fn only_am_is_demodulated_by_amplitude(rate: int, mode: Demod, target: int)
    ensures
        plan_spec(rate, mode, target).am <==> mode is Am,
        !plan_spec(rate, Demod::Wfm, target).am,
        !plan_spec(rate, Demod::Nfm, target).am,
        plan_spec(rate, mode, target).am <==> deviation_spec(mode) == 0,
{
}

/// Both rates of a plan are the input rate divided by what the chain divides it
/// by, and the demodulator runs as near the rate of its mode as whole steps
/// allow.
pub proof fn the_plan_divides_the_rate(rate: int, mode: Demod, target: int)
    requires
        0 < rate <= i64::MAX,
        0 < target <= i64::MAX,
    ensures
        ({
            let p = plan_spec(rate, mode, target);
            let wanted = if_rate_spec(mode) * 1_000_000;
            &&& p.if_dec >= 1
            &&& p.au_dec >= 1
            &&& 2 * rate >= wanted ==> -wanted <= 2 * (p.if_dec * wanted - rate) <= wanted
            &&& 2 * rate < wanted ==> p.if_dec == 1
            &&& -(p.if_dec as int) <= 2 * (p.if_dec * p.if_rate@) - 2 * rate <= p.if_dec
            &&& -(p.if_dec * p.au_dec) <= 2 * ((p.if_dec * p.au_dec) * p.audio_rate@) - 2 * rate
                <= p.if_dec * p.au_dec
            &&& 2 * rate < p.if_dec * target ==> p.au_dec == 1
        }),
{
    let p = plan_spec(rate, mode, target);
    let wanted = (if_rate_spec(mode) * 1_000_000) as nat;
    let if_dec = at_least_one(rate as nat, wanted);
    nearest_bounds(rate as nat, wanted);
    let q = nearest_spec(rate as nat, wanted) as int;
    assert((2 * wanted) * q == 2 * (q * wanted)) by (nonlinear_arith);
    if 2 * rate < wanted {
        assert(q == 0) by (nonlinear_arith)
            requires
                (2 * wanted) * q <= 2 * rate + wanted,
                2 * rate < wanted,
                wanted >= 1,
                q >= 0,
        ;
    } else {
        assert(q >= 1) by (nonlinear_arith)
            requires
                2 * rate + wanted < (2 * wanted) * (q + 1),
                2 * rate >= wanted,
                wanted >= 1,
        ;
        assert((2 * wanted) * (q + 1) == 2 * (q * wanted) + 2 * wanted) by (nonlinear_arith);
    }
    let step = if_dec * target;
    assert(step >= 1) by (nonlinear_arith)
        requires
            step == if_dec * target,
            if_dec >= 1,
            target >= 1,
    ;
    nearest_bounds(rate as nat, step as nat);
    let r = nearest_spec(rate as nat, step as nat) as int;
    let au_dec = at_least_one(rate as nat, step as nat);
    if 2 * rate < step {
        assert(r == 0) by (nonlinear_arith)
            requires
                (2 * step) * r <= 2 * rate + step,
                2 * rate < step,
                step >= 1,
                r >= 0,
        ;
    }
    let both = if_dec * au_dec;
    assert(both >= 1) by (nonlinear_arith)
        requires
            both == if_dec * au_dec,
            if_dec >= 1,
            au_dec >= 1,
    ;
    nearest_bounds(rate as nat, if_dec);
    nearest_bounds(rate as nat, both);
    let (x, y) = (
        nearest_spec(rate as nat, if_dec) as int,
        nearest_spec(rate as nat, both) as int,
    );
    assert((2 * if_dec) * x == 2 * (if_dec * x)) by (nonlinear_arith);
    assert((2 * both) * y == 2 * (both * y)) by (nonlinear_arith);
    assert(p.if_dec == if_dec && p.au_dec == au_dec);
    assert(p.if_rate@ == x && p.audio_rate@ == y);
}

/// The numbers of a mode belong together. A broadcast channel is as wide as
/// twice its deviation and its audio; an AM channel is as wide as its two
/// sidebands; a narrow FM channel holds its deviation on either side and is
/// half of a twenty-five kilohertz step. Audio comes out at a whole fraction of
/// the demodulator's rate, which is no more than four times the channel.
pub proof fn the_numbers_of_a_mode_belong_together(d: Demod)
    ensures
        d is Wfm ==> bandwidth_spec(d) == 2 * (deviation_spec(d) + audio_bw_spec(d)),
        d is Wfm ==> deviation_spec(d) == 5 * audio_bw_spec(d),
        d is Am ==> bandwidth_spec(d) == 2 * audio_bw_spec(d) && deviation_spec(d) == 0,
        d is Nfm ==> 2 * bandwidth_spec(d) == 25_000 && 5 * deviation_spec(d) == 2
            * bandwidth_spec(d),
        d is Nfm ==> 4 * deviation_spec(d) == 5 * audio_bw_spec(d),
        if_rate_spec(d) % 48_000 == 0,
        !(d is Wfm) ==> if_rate_spec(d) == 48_000,
        d is Wfm ==> if_rate_spec(d) == 6 * 48_000,
        audio_bw_spec(Demod::Nfm) < audio_bw_spec(Demod::Am) < audio_bw_spec(Demod::Wfm),
        audio_bw_spec(Demod::Wfm) == 3 * audio_bw_spec(Demod::Am),
        deviation_spec(Demod::Wfm) == 15 * deviation_spec(Demod::Nfm),
        deviation_spec(Demod::Nfm) == audio_bw_spec(Demod::Am),
{
}

/// What the receiver holds.
pub struct Rx {
    /// Offset of the audio from the centre, none for silence.
    pub listen: Option<Micro>,
    pub mode: Demod,
    pub volume: Micro,
    /// Spectrum frames per second.
    pub refresh: Micro,
    pub smoothing: Micro,
    pub bins: nat,
    pub rate: Sps,
    pub center: Hz,
    /// The audio chain no longer fits.
    pub stale: bool,
    /// Nanosecond from which the next spectrum frame is due.
    pub next: nat,
}

/// What is to be done for a command.
#[derive(Clone, Copy, Debug, PartialEq, Eq, Structural)]
pub enum Action {
    /// Stop the stream and leave.
    Stop,
    /// Tune the device, then say where it is.
    Tune(Hz),
    /// Set the device's rate, then say what it is.
    SetRate(Sps),
    SetGain(GainMode),
    /// Start the spectrum again with that many bins and that averaging.
    NewSpectrum(usize, Micro),
    /// Average the spectrum differently from here on.
    Average(Micro),
    Nothing,
}

/// What is to be done about the audio chain.
#[derive(Clone, Copy, Debug, PartialEq, Eq, Structural)]
pub enum Rebuild {
    Keep,
    Silence,
    /// Build a chain for that offset, input rate and mode.
    Chain(Micro, Sps, Demod),
}

/// The receiver after a command.
pub open spec fn told(s: Rx, c: Cmd) -> Rx {
    match c {
        Cmd::Listen(o) => Rx { listen: o, stale: true, ..s },
        Cmd::Demod(d) => Rx { mode: d, stale: true, ..s },
        Cmd::Volume(v) => Rx { volume: v, ..s },
        Cmd::Fft(n) => Rx { bins: n as nat, ..s },
        Cmd::Refresh(hz) => Rx {
            refresh: Micro(clamp_spec(hz@, 1_000_000, 120_000_000) as i64),
            ..s
        },
        Cmd::Smoothing(v) => Rx { smoothing: Micro(clamp_spec(v@, 10_000, 1_000_000) as i64), ..s },
        _ => s,
    }
}

/// What a command asks for.
pub open spec fn asked_for(s: Rx, c: Cmd) -> Action {
    match c {
        Cmd::Stop => Action::Stop,
        Cmd::Center(f) => Action::Tune(f),
        Cmd::Rate(r) => Action::SetRate(r),
        Cmd::Gain(g) => Action::SetGain(g),
        Cmd::Fft(n) => Action::NewSpectrum(n, s.smoothing),
        Cmd::Smoothing(v) => Action::Average(
            Micro(clamp_spec(v@, 10_000, 1_000_000) as i64),
        ),
        _ => Action::Nothing,
    }
}

/// Nanoseconds between spectrum frames.
pub open spec fn period(refresh: int) -> nat {
    nearest_spec(1_000_000_000_000_000, refresh as nat)
}

/// Runs a radio: which command asks for what, and when a frame is due.
pub struct Receiver {
    listen: Option<Micro>,
    mode: Demod,
    volume: Micro,
    refresh: Micro,
    smoothing: Micro,
    bins: usize,
    rate: Sps,
    center: Hz,
    stale: bool,
    next: u64,
}

impl View for Receiver {
    type V = Rx;

    closed spec fn view(&self) -> Rx {
        Rx {
            listen: self.listen,
            mode: self.mode,
            volume: self.volume,
            refresh: self.refresh,
            smoothing: self.smoothing,
            bins: self.bins as nat,
            rate: self.rate,
            center: self.center,
            stale: self.stale,
            next: self.next as nat,
        }
    }
}

impl Receiver {
    /// Whether the refresh rate is one that frames can come at.
    pub open spec fn wf(&self) -> bool {
        1_000_000 <= self@.refresh@ <= 120_000_000
    }

    /// A receiver of a device that is tuned and running at `now`.
    pub fn new(center: Hz, rate: Sps, bins: usize, now: u64) -> (r: Receiver)
        ensures
            r.wf(),
            r@ == (Rx {
                listen: None,
                mode: Demod::Wfm,
                volume: Micro(500_000),
                refresh: Micro(30_000_000),
                smoothing: Micro(350_000),
                bins: bins as nat,
                rate,
                center,
                stale: false,
                next: now as nat,
            }),
    {
        Receiver {
            listen: None,
            mode: Demod::Wfm,
            volume: Micro(500_000),
            refresh: Micro(30_000_000),
            smoothing: Micro(350_000),
            bins,
            rate,
            center,
            stale: false,
            next: now,
        }
    }

    /// Takes a command and says what is to be done.
    pub fn command(&mut self, c: Cmd) -> (r: Action)
        requires
            old(self).wf(),
        ensures
            final(self).wf(),
            final(self)@ == told(old(self)@, c),
            r == asked_for(old(self)@, c),
    {
        match c {
            Cmd::Stop => Action::Stop,
            Cmd::Center(f) => Action::Tune(f),
            Cmd::Rate(r) => Action::SetRate(r),
            Cmd::Gain(g) => Action::SetGain(g),
            Cmd::Listen(o) => {
                self.listen = o;
                self.stale = true;
                Action::Nothing
            },
            Cmd::Demod(d) => {
                self.mode = d;
                self.stale = true;
                Action::Nothing
            },
            Cmd::Volume(v) => {
                self.volume = v;
                Action::Nothing
            },
            Cmd::Fft(n) => {
                self.bins = n;
                Action::NewSpectrum(n, self.smoothing)
            },
            Cmd::Refresh(hz) => {
                self.refresh = hz.clamp_to(Micro(1_000_000), Micro(120_000_000));
                Action::Nothing
            },
            Cmd::Smoothing(v) => {
                self.smoothing = v.clamp_to(Micro(10_000), Micro(1_000_000));
                Action::Average(self.smoothing)
            },
        }
    }

    /// The device says where it is tuned. The spectrum starts again.
    pub fn tuned(&mut self, center: Hz)
        requires
            old(self).wf(),
        ensures
            final(self).wf(),
            final(self)@ == (Rx { center, ..old(self)@ }),
    {
        self.center = center;
    }

    /// The device says what its rate is. The spectrum starts again, and the
    /// audio chain no longer fits.
    pub fn rated(&mut self, rate: Sps)
        requires
            old(self).wf(),
        ensures
            final(self).wf(),
            final(self)@ == (Rx { rate, stale: true, ..old(self)@ }),
    {
        self.rate = rate;
        self.stale = true;
    }

    /// What is to be done about the audio chain before the next block.
    pub fn rebuild(&mut self) -> (r: Rebuild)
        requires
            old(self).wf(),
        ensures
            final(self).wf(),
            final(self)@ == (Rx { stale: false, ..old(self)@ }),
            r == (if !old(self)@.stale {
                Rebuild::Keep
            } else {
                match old(self)@.listen {
                    None => Rebuild::Silence,
                    Some(off) => Rebuild::Chain(off, old(self)@.rate, old(self)@.mode),
                }
            }),
    {
        if !self.stale {
            return Rebuild::Keep;
        }
        self.stale = false;
        match self.listen {
            None => Rebuild::Silence,
            Some(off) => Rebuild::Chain(off, self.rate, self.mode),
        }
    }

    /// Whether a spectrum frame is due at `now`, in nanoseconds. Waking for
    /// every block would redraw frames that no display can show.
    pub fn frame_due(&mut self, now: u64) -> (r: bool)
        requires
            old(self).wf(),
            now + 1_000_000_000 <= u64::MAX,
        ensures
            final(self).wf(),
            r == (now >= old(self)@.next),
            final(self)@ == (if r {
                Rx { next: now as nat + period(old(self)@.refresh@), ..old(self)@ }
            } else {
                old(self)@
            }),
    {
        if now < self.next {
            return false;
        }
        proof {
            period_is_short(self.refresh@);
        }
        let step: u128 = nearest(1_000_000_000_000_000, self.refresh.0 as u128);
        self.next = now + step as u64;
        true
    }

    pub fn volume(&self) -> (r: Micro)
        ensures
            r == self@.volume,
    {
        self.volume
    }

    pub fn center(&self) -> (r: Hz)
        ensures
            r == self@.center,
    {
        self.center
    }

    pub fn rate(&self) -> (r: Sps)
        ensures
            r == self@.rate,
    {
        self.rate
    }

    pub fn smoothing(&self) -> (r: Micro)
        ensures
            r == self@.smoothing,
    {
        self.smoothing
    }
}

proof fn period_is_short(refresh: int)
    requires
        1_000_000 <= refresh <= 120_000_000,
    ensures
        8_333_333 <= period(refresh) <= 1_000_000_000,
{
    let q = period(refresh) as int;
    let n = 1_000_000_000_000_000int;
    nearest_bounds(n as nat, refresh as nat);
    assert(q <= 1_000_000_000) by (nonlinear_arith)
        requires
            (2 * refresh) * q <= 2 * n + refresh,
            refresh >= 1_000_000,
            n == 1_000_000_000_000_000,
    ;
    assert(q >= 8_333_333) by (nonlinear_arith)
        requires
            2 * n + refresh < (2 * refresh) * q + 2 * refresh,
            refresh <= 120_000_000,
            refresh >= 1,
            n == 1_000_000_000_000_000,
    ;
}

/// Frames that are due come at least a refresh period apart, and no oftener
/// than 120 times a second.
pub proof fn frames_keep_their_distance(s: Rx, first: nat, second: nat)
    requires
        1_000_000 <= s.refresh@ <= 120_000_000,
        first >= s.next,
        second >= (Rx { next: first + period(s.refresh@), ..s }).next,
    ensures
        second - first >= period(s.refresh@),
        second - first >= 8_333_333,
{
    period_is_short(s.refresh@);
}

/// The audio chain is rebuilt for what it depends on and nothing else: of all
/// commands only those that set the offset and the mode make it stale.
pub proof fn only_listening_makes_the_chain_stale(s: Rx, c: Cmd)
    requires
        !s.stale,
    ensures
        told(s, c).stale == (c is Listen || c is Demod),
        told(s, c).rate == s.rate,
        told(s, c).center == s.center,
{
}

/// What became of a frame that was handed to the display.
#[derive(Clone, Copy, Debug, PartialEq, Eq, Structural)]
pub enum Delivery {
    Sent,
    /// The display has frames enough; this one is dropped.
    Full,
    /// The display is gone.
    Disconnected,
}

/// Whether the radio goes on after handing over a frame: it never waits for the
/// display, and stops when there is none.
pub fn goes_on(d: Delivery) -> (r: bool)
    ensures
        r == (d != Delivery::Disconnected),
{
    match d {
        Delivery::Sent | Delivery::Full => true,
        Delivery::Disconnected => false,
    }
}

/// What may end a run of the radio, or leave it without something.
#[derive(Debug)]
pub enum Happening {
    /// The device could not be opened, set up, started or set.
    Device(Error),
    /// There is no audio output, or no longer.
    Audio(Error),
    /// No more samples could be read.
    Read(Error),
    /// A frame was handed to the display.
    Frame(Delivery),
    /// The radio was told to stop.
    Stop,
}

/// How a run takes what happened.
#[derive(Debug)]
pub enum Course {
    GoOn,
    /// The run goes on, and this is shown.
    Noted(String),
    /// The run ends, and nothing is shown.
    End,
    /// The run ends, and this is shown.
    Failed(String),
}

impl Course {
    /// Whether the run goes on.
    pub open spec fn on(&self) -> bool {
        *self is GoOn || *self is Noted
    }

    /// What is shown.
    pub open spec fn shown(&self) -> Option<Seq<char>> {
        match *self {
            Course::Noted(s) => Some(s@),
            Course::Failed(s) => Some(s@),
            _ => None,
        }
    }

    /// Whether the run goes on.
    pub fn is_on(&self) -> (r: bool)
        ensures
            r == self.on(),
    {
        match self {
            Course::GoOn | Course::Noted(_) => true,
            Course::End | Course::Failed(_) => false,
        }
    }

    /// What is shown.
    pub fn message(&self) -> (r: Option<String>)
        ensures
            match r {
                Some(s) => self.shown() == Some(s@),
                None => self.shown() is None,
            },
    {
        match self {
            Course::Noted(s) | Course::Failed(s) => Some(s.as_str().to_owned()),
            Course::GoOn | Course::End => None,
        }
    }
}

/// How a run takes what happened: a device that fails ends it with the error,
/// samples that run out end it quietly, as does a stop or a display that is
/// gone, and without an audio output it goes on silent.
pub fn course(h: Happening) -> (r: Course)
    ensures
        match h {
            Happening::Device(e) => r matches Course::Failed(s) && s@ == e@,
            Happening::Audio(e) => r matches Course::Noted(s) && s@ == "no audio output: "@ + e@,
            Happening::Read(_) => r is End,
            Happening::Frame(d) => if d == Delivery::Disconnected {
                r is End
            } else {
                r is GoOn
            },
            Happening::Stop => r is End,
        },
{
    match h {
        Happening::Device(e) => Course::Failed(e.to_string()),
        Happening::Audio(e) => {
            let mut s: String = "no audio output: ".to_owned();
            s.append(e.to_string().as_str());
            Course::Noted(s)
        },
        Happening::Read(_) | Happening::Stop => Course::End,
        Happening::Frame(d) => if goes_on(d) {
            Course::GoOn
        } else {
            Course::End
        },
    }
}

} // verus!
