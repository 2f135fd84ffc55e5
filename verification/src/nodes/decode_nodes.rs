//! Pulse extraction and protocol decoding as stages.
//!
//! [`PulseDetectNode`] is the boundary: above it is arithmetic on samples,
//! below it is parsing of integers, cheap enough to try every known protocol on
//! every burst.

use vstd::prelude::*;
use crate::common::{Error, Hz};
use crate::decode::bits::BitBuffer;
use crate::decode::protocol::{DecodeError, Protocols, Report};
#[allow(unused_imports)]
use crate::decode::protocol::{
    family_name, family_verdict, report_text, verdict_of, Family, ReportView, Verdict,
};
use crate::dsp::ook::{OokDetector, PulseConfig, PulseStats};
#[allow(unused_imports)]
use crate::dsp::ook::{fresh, Ook};
use crate::dsp::pulse::Package;
#[allow(unused_imports)]
use crate::dsp::pulse::{air_time, histogram_spec, marks, Pulse};
use crate::fixed::{time_of, Micro};
#[allow(unused_imports)]
use crate::fixed::{clamp_spec, time_spec, trunc_spec};
use crate::nodes::dsp_nodes::push_param;
#[allow(unused_imports)]
use crate::nodes::dsp_nodes::{agreed, settled};
use crate::pipeline::event::{Decoded, Event};
#[allow(unused_imports)]
use crate::pipeline::event::{events_view, EventView};
use crate::pipeline::node::{unknown, NodeCtx, PortSpec};
#[allow(unused_imports)]
use crate::pipeline::node::{tags_view, unknown_parameter};
use crate::pipeline::param::{Param, ParamValue};
#[allow(unused_imports)]
use crate::pipeline::param::{
    integer, number, params_view, plain, truth, ParamRange, ParamView, ValueView,
};
use crate::pipeline::port::{PortKind, StreamSpec, Tag, TagValue};
#[allow(unused_imports)]
use crate::pipeline::port::TagView;
use crate::text::{push_nat, push_ratio, push_signed_ratio, same};
#[allow(unused_imports)]
use crate::text::{digits, ratio_text, signed_ratio_text};

verus! {

/// Envelope to pulse packages.
pub struct PulseDetectNode {
    pub cfg: PulseConfig,
    pub det: OokDetector,
}

/// What a pulse detector makes of its input. Packages are events in time and
/// not a sampled stream, so their rate is zero.
pub open spec fn pulse_detect_agreed(i: PortSpec) -> Result<StreamSpec, Seq<char>> {
    if i.spec.kind != PortKind::Real {
        Err("pulse_detect needs a real envelope; put an `envelope` node before it"@)
    } else {
        Ok(StreamSpec { kind: PortKind::Pulses, rate: Micro(0), ..i.spec })
    }
}

/// The parameters of a pulse detector.
pub open spec fn pulse_detect_params(c: PulseConfig) -> Seq<ParamView> {
    seq![
        ParamView {
            unit: "us"@,
            label: "Gap that ends a packet"@,
            log: true,
            ..plain(
                "reset_us"@,
                ValueView::Float(c.reset_us * 1_000_000),
                ParamRange::Float(Micro(500_000_000), Micro(100_000_000_000)),
            )
        },
        ParamView {
            unit: "us"@,
            label: "Shortest credible mark"@,
            ..plain(
                "min_mark_us"@,
                ValueView::Float(c.min_mark_us * 1_000_000),
                ParamRange::Float(Micro(10_000_000), Micro(2_000_000_000)),
            )
        },
        ParamView {
            label: "Minimum pulses per packet"@,
            ..plain(
                "min_pulses"@,
                ValueView::Int(clamp_spec(c.min_pulses as int, 0, i64::MAX as int)),
                ParamRange::Int(2, 512),
            )
        },
        ParamView {
            unit: "dB"@,
            label: "Minimum SNR"@,
            ..plain(
                "min_snr_db"@,
                ValueView::Float(c.min_snr_db@),
                ParamRange::Float(Micro(3_000_000), Micro(40_000_000)),
            )
        },
        ParamView {
            label: "Threshold hysteresis"@,
            ..plain(
                "hysteresis"@,
                ValueView::Float(c.hysteresis@),
                ParamRange::Float(Micro(0), Micro(500_000)),
            )
        },
    ]
}

/// The number that a value is, or zero.
pub open spec fn number_or_zero(v: ValueView) -> int {
    match number(v) {
        Some(x) => x,
        None => 0,
    }
}

/// The integer that a value is, or zero.
pub open spec fn integer_or_zero(v: ValueView) -> int {
    match integer(v) {
        Some(n) => n,
        None => 0,
    }
}

/// A number cut to a whole one of at least `low` and at most `high`.
pub open spec fn whole_within(x: int, low: int, high: int) -> int {
    clamp_spec(trunc_spec(x), low, high)
}

/// A detector configuration after a parameter was set.
pub open spec fn config_set(c: PulseConfig, name: Seq<char>, v: ValueView) -> Option<PulseConfig> {
    let f = number_or_zero(v);
    let n = integer_or_zero(v);
    if name == "reset_us"@ {
        Some(PulseConfig { reset_us: clamp_spec(n, 1, u32::MAX as int) as u32, ..c })
    } else if name == "min_mark_us"@ {
        Some(PulseConfig { min_mark_us: clamp_spec(n, 0, u32::MAX as int) as u32, ..c })
    } else if name == "min_pulses"@ {
        Some(PulseConfig { min_pulses: clamp_spec(n, 1, usize::MAX as int) as usize, ..c })
    } else if name == "min_snr_db"@ {
        Some(PulseConfig { min_snr_db: Micro(f as i64), ..c })
    } else if name == "hysteresis"@ {
        Some(PulseConfig { hysteresis: Micro(clamp_spec(f, 0, 900_000) as i64), ..c })
    } else {
        None
    }
}

/// What a detector says of the bursts it threw away.
pub open spec fn discarded_text(few: nat, low: nat, cfg: PulseConfig) -> Seq<char> {
    let too_few = digits(few) + " with fewer than "@ + digits(cfg.min_pulses as nat)
        + " pulses (raise reset_us, or lower min_pulses)"@;
    let too_weak = digits(low) + " below "@ + signed_ratio_text(cfg.min_snr_db@, 1_000_000, 0)
        + " dB SNR (lower min_snr_db, or increase gain)"@;
    "discarded "@ + if few > 0 && low > 0 {
        too_few + "; "@ + too_weak
    } else if few > 0 {
        too_few
    } else {
        too_weak
    }
}

/// The mark that a package leaves on the stream.
pub open spec fn burst_tag(p: Package) -> TagView {
    TagView {
        index: p.start_sample as nat,
        key: "burst"@,
        value: TagValue::Float(p.snr_db),
    }
}

/// A whole number of at least `low` and at most `high`.
fn within(n: i64, low: u64, high: u64) -> (r: u64)
    requires
        low <= high,
    ensures
        r == clamp_spec(n as int, low as int, high as int),
{
    let x: i128 = n as i128;
    if x < low as i128 {
        low
    } else if x > high as i128 {
        high
    } else {
        x as u64
    }
}

impl PulseDetectNode {
    pub open spec fn wf(&self) -> bool {
        &&& self.det.wf()
        &&& self.det.cfg() == self.cfg
    }

    /// Whether nothing has been detected yet at that rate.
    pub open spec fn is_fresh(&self, rate: int) -> bool {
        &&& self.det@ == fresh()
        &&& self.det.low_snr() == 0
        &&& self.det.rate_view() == rate
    }

    pub fn new(cfg: PulseConfig) -> (r: PulseDetectNode)
        ensures
            r.wf(),
            r.cfg == cfg,
            r.is_fresh(1_000_000),
    {
        PulseDetectNode { cfg, det: OokDetector::new(Micro(1_000_000), cfg) }
    }

    /// A detector with the usual configuration.
    pub fn default_ook() -> (r: PulseDetectNode)
        ensures
            r.wf(),
            r.cfg.reset_us == 4_000,
            r.cfg.min_mark_us == 100,
            r.cfg.min_pulses == 4,
            r.cfg.hysteresis@ == 200_000,
            r.cfg.tau_us@ == 500_000_000,
            r.cfg.min_snr_db@ == 6_000_000,
            r.is_fresh(1_000_000),
    {
        PulseDetectNode::new(PulseConfig::default())
    }

    pub fn name(&self) -> (r: &'static str)
        ensures
            r@ == "pulse_detect"@,
    {
        "pulse_detect"
    }

    /// Starts the detector again at the rate of its input.
    pub fn negotiate(&mut self, i: &PortSpec) -> (r: Result<StreamSpec, Error>)
        requires
            old(self).wf(),
        ensures
            final(self).wf(),
            agreed(r) == pulse_detect_agreed(*i),
            final(self).cfg == old(self).cfg,
            r is Ok ==> final(self).is_fresh(i.spec.rate@),
            r is Err ==> *final(self) == *old(self),
    {
        if i.spec.kind != PortKind::Real {
            return Err(
                Error::other(
                    "pulse_detect needs a real envelope; put an `envelope` node before it".to_owned(),
                ),
            );
        }
        self.det = OokDetector::new(i.spec.rate, self.cfg);
        Ok(i.spec.with_kind(PortKind::Pulses).with_rate(Micro(0)))
    }

    /// Marks the stream with each completed package, and reports what was
    /// thrown away. Without that a mistuned chain is silent, which looks like a
    /// disconnected antenna and gives no hint which parameter is wrong.
    pub fn process(&mut self, packages: &[Package], c: &mut NodeCtx)
        requires
            old(self).wf(),
        ensures
            final(self).wf(),
            final(self).cfg == old(self).cfg,
            final(self).det@ == (Ook { too_few: 0, ..old(self).det@ }),
            final(self).det.low_snr() == 0,
            final(self).det.rate_view() == old(self).det.rate_view(),
            final(c).same_call(&*old(c)),
            final(c).tagged() == old(c).tagged() + Seq::new(
                packages@.len(),
                |k: int| burst_tag(packages@[k]),
            ),
            final(c).emitted() == (if old(self).det@.too_few > 0 || old(self).det.low_snr() > 0 {
                old(c).emitted().push(
                    EventView::Warning {
                        stage: "pulse_detect"@,
                        message: discarded_text(
                            old(self).det@.too_few,
                            old(self).det.low_snr(),
                            old(self).cfg,
                        ),
                    },
                )
            } else {
                old(c).emitted()
            }),
    {
        let n: usize = packages.len();
        let mut k: usize = 0;
        let ghost tags = Seq::new(packages@.len(), |k: int| burst_tag(packages@[k]));
        assert(c.tagged() =~= old(c).tagged() + tags.take(0));
        while k < n
            invariant
                n == packages@.len(),
                k <= n,
                tags == Seq::new(packages@.len(), |k: int| burst_tag(packages@[k])),
                c.same_call(&*old(c)),
                c.emitted() == old(c).emitted(),
                c.tagged() == old(c).tagged() + tags.take(k as int),
            decreases n - k,
        {
            let p: &Package = &packages[k];
            c.tag(Tag::new(p.start_sample, "burst", TagValue::Float(p.snr_db)));
            k += 1;
            assert(c.tagged() =~= old(c).tagged() + tags.take(k as int));
        }
        assert(tags.take(n as int) =~= tags);
        let s: PulseStats = self.det.take_stats();
        if s.rejected_total() > 0 {
            let few: u64 = s.rejected_too_few_pulses;
            let low: u64 = s.rejected_low_snr;
            let mut why: String = "discarded ".to_owned();
            if few > 0 {
                push_nat(&mut why, few as u128);
                why.append(" with fewer than ");
                push_nat(&mut why, self.cfg.min_pulses as u128);
                why.append(" pulses (raise reset_us, or lower min_pulses)");
            }
            if low > 0 {
                if few > 0 {
                    why.append("; ");
                }
                push_nat(&mut why, low as u128);
                why.append(" below ");
                push_signed_ratio(&mut why, self.cfg.min_snr_db.0 as i128, 1_000_000, 0);
                why.append(" dB SNR (lower min_snr_db, or increase gain)");
            }
            assert(why@ =~= discarded_text(few as nat, low as nat, self.cfg));
            c.emit(Event::Warning { stage: "pulse_detect".to_owned(), message: why });
        }
    }

    pub fn reset(&mut self)
        requires
            old(self).wf(),
        ensures
            final(self).wf(),
            final(self).cfg == old(self).cfg,
            final(self).det@ == (Ook {
                sample: old(self).det@.sample,
                too_few: old(self).det@.too_few,
                ..fresh()
            }),
            final(self).det.low_snr() == old(self).det.low_snr(),
            final(self).det.rate_view() == old(self).det.rate_view(),
    {
        self.det.reset();
    }

    pub fn params(&self) -> (r: Vec<Param>)
        ensures
            params_view(r@) == pulse_detect_params(self.cfg),
    {
        let c: PulseConfig = self.cfg;
        let mut v: Vec<Param> = Vec::new();
        push_param(
            &mut v,
            Param::float(
                "reset_us",
                Micro::whole(c.reset_us as i64),
                Micro(500_000_000),
                Micro(100_000_000_000),
            ).unit("us").label("Gap that ends a packet").log(),
        );
        push_param(
            &mut v,
            Param::float(
                "min_mark_us",
                Micro::whole(c.min_mark_us as i64),
                Micro(10_000_000),
                Micro(2_000_000_000),
            ).unit("us").label("Shortest credible mark"),
        );
        let pulses: i64 = if c.min_pulses as u128 > i64::MAX as u128 {
            i64::MAX
        } else {
            c.min_pulses as i64
        };
        push_param(
            &mut v,
            Param::integer("min_pulses", pulses, 2, 512).label("Minimum pulses per packet"),
        );
        push_param(
            &mut v,
            Param::float("min_snr_db", c.min_snr_db, Micro(3_000_000), Micro(40_000_000)).unit(
                "dB",
            ).label("Minimum SNR"),
        );
        push_param(
            &mut v,
            Param::float("hysteresis", c.hysteresis, Micro(0), Micro(500_000)).label(
                "Threshold hysteresis",
            ),
        );
        assert(params_view(v@) =~= pulse_detect_params(c));
        v
    }

    /// Sets a parameter and starts the detector again, since it holds what
    /// follows from them.
    pub fn set_param(&mut self, name: &str, v: ParamValue) -> (r: Result<(), Error>)
        requires
            old(self).wf(),
        ensures
            final(self).wf(),
            match config_set(old(self).cfg, name@, v@) {
                Some(cfg) => {
                    &&& r is Ok
                    &&& final(self).cfg == cfg
                    &&& final(self).is_fresh(old(self).det.rate_view())
                },
                None => {
                    &&& settled(r) == Err::<(), Seq<char>>(
                        unknown_parameter("pulse_detect"@, name@),
                    )
                    &&& *final(self) == *old(self)
                },
            },
    {
        let f: Micro = match v.as_f64() {
            Some(x) => x,
            None => Micro(0),
        };
        let n: i64 = match v.as_i64() {
            Some(x) => x,
            None => 0,
        };
        if same(name, "reset_us") {
            self.cfg.reset_us = within(n, 1, u32::MAX as u64) as u32;
        } else if same(name, "min_mark_us") {
            self.cfg.min_mark_us = within(n, 0, u32::MAX as u64) as u32;
        } else if same(name, "min_pulses") {
            self.cfg.min_pulses = within(n, 1, usize::MAX as u64) as usize;
        } else if same(name, "min_snr_db") {
            self.cfg.min_snr_db = f;
        } else if same(name, "hysteresis") {
            self.cfg.hysteresis = f.clamp_to(Micro(0), Micro(900_000));
        } else {
            return Err(unknown("pulse_detect", name));
        }
        let rate: Micro = self.det.rate();
        self.det = OokDetector::new(rate, self.cfg);
        Ok(())
    }
}

/// Tries protocols on pulse packages and reports what they make of them.
#[derive(Debug)]
pub struct ProtocolDecodeNode {
    protocols: Protocols,
    /// Report every protocol that claims a package, rather than only the first.
    report_all: bool,
    /// Warn when a package matched a protocol's timings but failed its check.
    report_crc_failures: bool,
}

/// What is to be reported.
pub struct Reporting {
    pub all: bool,
    pub crc_failures: bool,
}

/// What has come of a package after some protocols were tried.
#[verifier::ext_equal]
pub struct Tried {
    pub bytes: Seq<u8>,
    pub events: Seq<EventView>,
    pub matched: bool,
    /// No further protocol is tried.
    pub stopped: bool,
}

/// What a protocol decoder makes of its input.
pub open spec fn protocol_decode_agreed(i: PortSpec) -> Result<StreamSpec, Seq<char>> {
    if i.spec.kind != PortKind::Pulses {
        Err("protocol_decode needs pulses; put a `pulse_detect` node before it"@)
    } else {
        Ok(StreamSpec { kind: PortKind::Bytes, ..i.spec })
    }
}

/// The parameters of a protocol decoder.
pub open spec fn protocol_decode_params(r: Reporting) -> Seq<ParamView> {
    seq![
        ParamView {
            label: "Report every matching protocol"@,
            ..plain("report_all"@, ValueView::Bool(r.all), ParamRange::Any)
        },
        ParamView {
            label: "Warn on CRC failures"@,
            ..plain("report_crc_failures"@, ValueView::Bool(r.crc_failures), ParamRange::Any)
        },
    ]
}

/// The truth value that a value is, or true.
pub open spec fn truth_or_true(v: ValueView) -> bool {
    match truth(v) {
        Some(b) => b,
        None => true,
    }
}

/// A failed check, in words.
pub open spec fn crc_text(p: Package) -> Seq<char> {
    "timings matched but CRC failed ("@ + digits(p.pulses@.len()) + " pulses, "@
        + signed_ratio_text(p.snr_db@, 1_000_000, 1) + " dB SNR)"@
}

/// Clusters in words.
pub open spec fn clusters_text(h: Seq<(u32, usize)>) -> Seq<char>
    decreases h.len(),
{
    if h.len() == 0 {
        Seq::empty()
    } else {
        clusters_text(h.drop_last()) + (if h.len() > 1 {
            ", "@
        } else {
            Seq::empty()
        }) + "("@ + digits(h.last().0 as nat) + ", "@ + digits(h.last().1 as nat) + ")"@
    }
}

/// Microseconds on air.
pub open spec fn on_air(p: Package) -> int {
    air_time(p.pulses@) - if p.pulses@.len() == 0 {
        0
    } else {
        p.pulses@.last().gap as int
    }
}

/// A burst that no protocol claims, in words.
pub open spec fn unrecognised_text(p: Package) -> Seq<char> {
    "unrecognised burst: "@ + digits(p.pulses@.len()) + " pulses, "@ + ratio_text(
        on_air(p) as nat,
        1000,
        1,
    ) + " ms, "@ + signed_ratio_text(p.snr_db@, 1_000_000, 1) + " dB; marks ["@ + clusters_text(
        histogram_spec(marks(p.pulses@), 100),
    ) + "]"@
}

/// The event of a decoded frame: its time is that of the sample its burst
/// started at.
pub open spec fn decoded_event(rep: ReportView, p: Package, center: Hz) -> EventView {
    EventView::Decoded {
        protocol: rep.model,
        center: center.0 as nat,
        at: time_spec(p.start_sample as nat, p.rate@),
        payload: rep.raw,
        text: Some(report_text(rep)),
        crc_ok: rep.crc_valid,
    }
}

/// One more protocol tried.
pub open spec fn try_next(
    t: Tried,
    name: Seq<char>,
    v: Verdict,
    p: Package,
    center: Hz,
    r: Reporting,
) -> Tried {
    if t.stopped {
        t
    } else {
        match v {
            Verdict::Reading(rep) => Tried {
                bytes: t.bytes + rep.raw,
                events: t.events.push(decoded_event(rep, p, center)),
                matched: true,
                stopped: !r.all,
            },
            Verdict::CrcFailed => if r.crc_failures {
                Tried {
                    events: t.events.push(
                        EventView::Warning { stage: name, message: crc_text(p) },
                    ),
                    ..t
                }
            } else {
                t
            },
            _ => t,
        }
    }
}

/// The bytes of a frame that a protocol claims.
pub open spec fn claimed_bytes(v: Verdict) -> Seq<u8> {
    match v {
        Verdict::Reading(rep) => rep.raw,
        _ => Seq::empty(),
    }
}

/// What is reported of one protocol's verdict.
pub open spec fn reported(
    name: Seq<char>,
    v: Verdict,
    p: Package,
    center: Hz,
    r: Reporting,
) -> Seq<EventView> {
    match v {
        Verdict::Reading(rep) => seq![decoded_event(rep, p, center)],
        Verdict::CrcFailed => if r.crc_failures {
            seq![EventView::Warning { stage: name, message: crc_text(p) }]
        } else {
            Seq::empty()
        },
        _ => Seq::empty(),
    }
}

/// What has come of a package after the first `n` protocols.
pub open spec fn tried(
    families: Seq<Family>,
    sliced: Seq<BitBuffer>,
    n: nat,
    p: Package,
    center: Hz,
    r: Reporting,
) -> Tried
    decreases n,
{
    if n == 0 {
        Tried { bytes: Seq::empty(), events: Seq::empty(), matched: false, stopped: false }
    } else {
        try_next(
            tried(families, sliced, (n - 1) as nat, p, center, r),
            family_name(families[n - 1]),
            family_verdict(families[n - 1], sliced[n - 1]@),
            p,
            center,
            r,
        )
    }
}

/// What comes of a package: the protocols that claim it, or that none does.
#[verifier::opaque]
pub open spec fn decoded_package(
    families: Seq<Family>,
    sliced: Seq<BitBuffer>,
    p: Package,
    center: Hz,
    r: Reporting,
) -> Tried {
    let t = tried(families, sliced, families.len(), p, center, r);
    if t.matched {
        t
    } else {
        Tried {
            events: t.events.push(
                EventView::Warning { stage: "protocol_decode"@, message: unrecognised_text(p) },
            ),
            ..t
        }
    }
}

/// The bytes of the first `n` packages.
pub open spec fn decoded_bytes(
    families: Seq<Family>,
    sliced: Seq<Vec<BitBuffer>>,
    packages: Seq<Package>,
    n: nat,
    center: Hz,
    r: Reporting,
) -> Seq<u8>
    decreases n,
{
    if n == 0 {
        Seq::empty()
    } else {
        decoded_bytes(families, sliced, packages, (n - 1) as nat, center, r) + decoded_package(
            families,
            sliced[n - 1]@,
            packages[n - 1],
            center,
            r,
        ).bytes
    }
}

/// The events of the first `n` packages.
pub open spec fn decoded_events(
    families: Seq<Family>,
    sliced: Seq<Vec<BitBuffer>>,
    packages: Seq<Package>,
    n: nat,
    center: Hz,
    r: Reporting,
) -> Seq<EventView>
    decreases n,
{
    if n == 0 {
        Seq::empty()
    } else {
        decoded_events(families, sliced, packages, (n - 1) as nat, center, r) + decoded_package(
            families,
            sliced[n - 1]@,
            packages[n - 1],
            center,
            r,
        ).events
    }
}

/// Appends bytes.
fn extend(out: &mut Vec<u8>, bytes: &Vec<u8>)
    ensures
        final(out)@ == old(out)@ + bytes@,
{
    let n: usize = bytes.len();
    let mut i: usize = 0;
    while i < n
        invariant
            n == bytes@.len(),
            i <= n,
            out@ == old(out)@ + bytes@.take(i as int),
        decreases n - i,
    {
        out.push(bytes[i]);
        i += 1;
        assert(out@ =~= old(out)@ + bytes@.take(i as int));
    }
    assert(bytes@.take(n as int) =~= bytes@);
}

/// A failed check, in words.
fn crc_message(p: &Package) -> (r: String)
    ensures
        r@ == crc_text(*p),
{
    let mut s: String = "timings matched but CRC failed (".to_owned();
    push_nat(&mut s, p.len() as u128);
    s.append(" pulses, ");
    push_signed_ratio(&mut s, p.snr_db.0 as i128, 1_000_000, 1);
    s.append(" dB SNR)");
    assert(s@ =~= crc_text(*p));
    s
}

/// Appends clusters in words.
fn push_clusters(s: &mut String, h: &Vec<(u32, usize)>)
    ensures
        final(s)@ == old(s)@ + clusters_text(h@),
{
    let n: usize = h.len();
    let mut i: usize = 0;
    assert(s@ =~= old(s)@ + clusters_text(h@.take(0)));
    while i < n
        invariant
            n == h@.len(),
            i <= n,
            s@ == old(s)@ + clusters_text(h@.take(i as int)),
        decreases n - i,
    {
        let ghost head = h@.take(i + 1);
        assert(head.drop_last() =~= h@.take(i as int));
        assert(head.last() == h@[i as int]);
        let (center, count) = h[i];
        if i > 0 {
            s.append(", ");
        }
        s.append("(");
        push_nat(s, center as u128);
        s.append(", ");
        push_nat(s, count as u128);
        s.append(")");
        i += 1;
        assert(s@ =~= old(s)@ + clusters_text(head));
    }
    assert(h@.take(n as int) =~= h@);
}

/// A burst that no protocol claims, in words.
fn unrecognised_message(p: &Package) -> (r: String)
    requires
        air_time(p.pulses@) <= u64::MAX,
    ensures
        r@ == unrecognised_text(*p),
{
    let mut s: String = "unrecognised burst: ".to_owned();
    push_nat(&mut s, p.len() as u128);
    s.append(" pulses, ");
    push_ratio(&mut s, p.duration_us() as u128, 1000, 1);
    s.append(" ms, ");
    push_signed_ratio(&mut s, p.snr_db.0 as i128, 1_000_000, 1);
    s.append(" dB; marks [");
    push_clusters(&mut s, &p.mark_histogram(100));
    s.append("]");
    assert(s@ =~= unrecognised_text(*p));
    s
}

impl ProtocolDecodeNode {
    /// What is to be reported.
    pub closed spec fn reporting(&self) -> Reporting {
        Reporting { all: self.report_all, crc_failures: self.report_crc_failures }
    }

    /// The protocols that are tried, in order.
    pub closed spec fn families(&self) -> Seq<Family> {
        self.protocols@
    }

    pub fn new(protocols: Protocols) -> (r: ProtocolDecodeNode)
        ensures
            r.families() == protocols@,
            r.reporting() == (Reporting { all: true, crc_failures: true }),
    {
        ProtocolDecodeNode { protocols, report_all: true, report_crc_failures: true }
    }

    /// A decoder that tries every known protocol.
    pub fn all() -> (r: ProtocolDecodeNode)
        ensures
            r.families() == seq![Family::OregonV3],
            r.reporting() == (Reporting { all: true, crc_failures: true }),
    {
        ProtocolDecodeNode::new(Protocols::all())
    }

    pub fn protocols(&self) -> (r: &Protocols)
        ensures
            r@ == self.families(),
    {
        &self.protocols
    }

    pub fn name(&self) -> (r: &'static str)
        ensures
            r@ == "protocol_decode"@,
    {
        "protocol_decode"
    }

    pub fn negotiate(&self, i: &PortSpec) -> (r: Result<StreamSpec, Error>)
        ensures
            agreed(r) == protocol_decode_agreed(*i),
    {
        if i.spec.kind != PortKind::Pulses {
            return Err(
                Error::other(
                    "protocol_decode needs pulses; put a `pulse_detect` node before it".to_owned(),
                ),
            );
        }
        Ok(i.spec.with_kind(PortKind::Bytes))
    }

    /// Takes what one protocol makes of a package. Returns whether it claims it.
    fn take_result(
        &self,
        name: &'static str,
        res: Result<Report, DecodeError>,
        p: &Package,
        center: Hz,
        out: &mut Vec<u8>,
        c: &mut NodeCtx,
    ) -> (claimed: bool)
        ensures
            claimed == (verdict_of(res) is Reading),
            final(out)@ == old(out)@ + claimed_bytes(verdict_of(res)),
            final(c).emitted() == old(c).emitted() + reported(
                name@,
                verdict_of(res),
                *p,
                center,
                self.reporting(),
            ),
            final(c).same_call(&*old(c)),
            final(c).tagged() == old(c).tagged(),
    {
        match res {
            Ok(report) => {
                extend(out, &report.raw);
                let text: String = report.to_string();
                c.emit(
                    Event::Decoded(
                        Decoded {
                            protocol: report.model,
                            center,
                            at: time_of(p.start_sample, p.rate),
                            payload: report.raw,
                            text: Some(text),
                            crc_ok: report.crc_valid,
                        },
                    ),
                );
                true
            },
            Err(DecodeError::CrcFailed) => {
                if self.report_crc_failures {
                    c.emit(Event::Warning { stage: name.to_owned(), message: crc_message(p) });
                } else {
                    assert(c.emitted() =~= old(c).emitted() + Seq::<EventView>::empty());
                }
                assert(out@ =~= old(out)@ + Seq::<u8>::empty());
                false
            },
            Err(_) => {
                assert(c.emitted() =~= old(c).emitted() + Seq::<EventView>::empty());
                assert(out@ =~= old(out)@ + Seq::<u8>::empty());
                false
            },
        }
    }

    /// Tries the protocols on one package whose pulses were sliced into bits
    /// for each of them.
    #[verifier::spinoff_prover]
    #[verifier::rlimit(60)]
    fn try_package(
        &self,
        p: &Package,
        sliced: &Vec<BitBuffer>,
        center: Hz,
        out: &mut Vec<u8>,
        c: &mut NodeCtx,
    ) -> (matched: bool)
        requires
            sliced@.len() == self.families().len(),
        ensures
            ({
                let t = tried(
                    self.families(),
                    sliced@,
                    self.families().len(),
                    *p,
                    center,
                    self.reporting(),
                );
                &&& matched == t.matched
                &&& final(out)@ == old(out)@ + t.bytes
                &&& final(c).emitted() == old(c).emitted() + t.events
            }),
            final(c).same_call(&*old(c)),
            final(c).tagged() == old(c).tagged(),
    {
        let mut results: Vec<(&'static str, Result<Report, DecodeError>)> = self.protocols.diagnose(
            sliced.as_slice(),
        );
        let ghost all = results@;
        let ghost families = self.families();
        let ghost r = self.reporting();
        let n: usize = results.len();
        let mut matched: bool = false;
        let mut i: usize = 0;
        assert(out@ =~= old(out)@ + Seq::<u8>::empty());
        assert(c.emitted() =~= old(c).emitted() + Seq::<EventView>::empty());
        while i < n
            invariant
                n == families.len(),
                all.len() == n,
                i <= n,
                families == self.families(),
                r == self.reporting(),
                results@ == all.skip(i as int),
                forall|k: int|
                    0 <= k < n ==> {
                        &&& (#[trigger] all[k]).0@ == family_name(families[k])
                        &&& verdict_of(all[k].1) == family_verdict(families[k], sliced@[k]@)
                    },
                c.same_call(&*old(c)),
                c.tagged() == old(c).tagged(),
                !tried(families, sliced@, i as nat, *p, center, r).stopped,
                matched == tried(families, sliced@, i as nat, *p, center, r).matched,
                out@ == old(out)@ + tried(families, sliced@, i as nat, *p, center, r).bytes,
                c.emitted() == old(c).emitted() + tried(
                    families,
                    sliced@,
                    i as nat,
                    *p,
                    center,
                    r,
                ).events,
            decreases n - i,
        {
            let ghost t = tried(families, sliced@, i as nat, *p, center, r);
            let ghost next = tried(families, sliced@, (i + 1) as nat, *p, center, r);
            assert(results@[0] == all[i as int]);
            let (name, res) = results.remove(0);
            assert(results@ =~= all.skip(i + 1));
            let claimed: bool = self.take_result(name, res, p, center, out, c);
            proof {
                trying_adds(
                    t,
                    family_name(families[i as int]),
                    family_verdict(families[i as int], sliced@[i as int]@),
                    *p,
                    center,
                    r,
                );
                assert(out@ =~= old(out)@ + next.bytes);
                assert(c.emitted() =~= old(c).emitted() + next.events);
            }
            i += 1;
            if claimed {
                matched = true;
                if !self.report_all {
                    proof {
                        stopped_stays(families, sliced@, i as nat, families.len(), *p, center, r);
                    }
                    return true;
                }
            }
        }
        matched
    }

    /// Tries the protocols on one package and reports it where none claims it.
    fn decode_package(
        &self,
        p: &Package,
        sliced: &Vec<BitBuffer>,
        center: Hz,
        out: &mut Vec<u8>,
        c: &mut NodeCtx,
    )
        requires
            sliced@.len() == self.families().len(),
            air_time(p.pulses@) <= u64::MAX,
        ensures
            final(out)@ == old(out)@ + decoded_package(
                self.families(),
                sliced@,
                *p,
                center,
                self.reporting(),
            ).bytes,
            final(c).emitted() == old(c).emitted() + decoded_package(
                self.families(),
                sliced@,
                *p,
                center,
                self.reporting(),
            ).events,
            final(c).same_call(&*old(c)),
            final(c).tagged() == old(c).tagged(),
    {
        let matched: bool = self.try_package(p, sliced, center, out, c);
        if !matched {
            c.emit(
                Event::Warning {
                    stage: "protocol_decode".to_owned(),
                    message: unrecognised_message(p),
                },
            );
        }
        reveal(decoded_package);
        assert(c.emitted() =~= old(c).emitted() + decoded_package(
            self.families(),
            sliced@,
            *p,
            center,
            self.reporting(),
        ).events);
    }

    /// Runs the protocols against packages, whose pulses were sliced into bits
    /// for each protocol, and reports decoded frames, failed checks and bursts
    /// that nothing claims.
    ///
    /// Telling a wrong protocol from bad reception is the difference between a
    /// silent tool and one that tells you to move the antenna.
    pub fn process(
        &self,
        packages: &[Package],
        sliced: &[Vec<BitBuffer>],
        out: &mut Vec<u8>,
        c: &mut NodeCtx,
    )
        requires
            old(c).inputs@.len() > 0,
            sliced@.len() == packages@.len(),
            forall|k: int|
                0 <= k < sliced@.len() ==> (#[trigger] sliced@[k])@.len() == self.families().len(),
            forall|k: int|
                0 <= k < packages@.len() ==> air_time((#[trigger] packages@[k]).pulses@)
                    <= u64::MAX,
        ensures
            final(out)@ == old(out)@ + decoded_bytes(
                self.families(),
                sliced@,
                packages@,
                packages@.len(),
                old(c).inputs@[0].spec.center,
                self.reporting(),
            ),
            final(c).emitted() == old(c).emitted() + decoded_events(
                self.families(),
                sliced@,
                packages@,
                packages@.len(),
                old(c).inputs@[0].spec.center,
                self.reporting(),
            ),
            final(c).same_call(&*old(c)),
            final(c).tagged() == old(c).tagged(),
    {
        let n: usize = packages.len();
        let center: Hz = c.inputs[0].spec.center;
        let ghost families = self.families();
        let ghost r = self.reporting();
        let mut k: usize = 0;
        assert(out@ =~= old(out)@ + Seq::<u8>::empty());
        assert(c.emitted() =~= old(c).emitted() + Seq::<EventView>::empty());
        while k < n
            invariant
                n == packages@.len(),
                k <= n,
                sliced@.len() == n,
                center == old(c).inputs@[0].spec.center,
                forall|j: int|
                    0 <= j < sliced@.len() ==> (#[trigger] sliced@[j])@.len()
                        == self.families().len(),
                forall|j: int|
                    0 <= j < packages@.len() ==> air_time((#[trigger] packages@[j]).pulses@)
                        <= u64::MAX,
                c.same_call(&*old(c)),
                c.tagged() == old(c).tagged(),
                families == self.families(),
                r == self.reporting(),
                out@ == old(out)@ + decoded_bytes(
                    families,
                    sliced@,
                    packages@,
                    k as nat,
                    center,
                    r,
                ),
                c.emitted() == old(c).emitted() + decoded_events(
                    families,
                    sliced@,
                    packages@,
                    k as nat,
                    center,
                    r,
                ),
            decreases n - k,
        {
            assert(sliced@[k as int]@.len() == self.families().len());
            self.decode_package(&packages[k], &sliced[k], center, out, c);
            k += 1;
            assert(out@ =~= old(out)@ + decoded_bytes(
                families,
                sliced@,
                packages@,
                k as nat,
                center,
                r,
            ));
            assert(c.emitted() =~= old(c).emitted() + decoded_events(
                families,
                sliced@,
                packages@,
                k as nat,
                center,
                r,
            ));
        }
    }

    pub fn params(&self) -> (r: Vec<Param>)
        ensures
            params_view(r@) == protocol_decode_params(self.reporting()),
    {
        let mut v: Vec<Param> = Vec::new();
        push_param(
            &mut v,
            Param::switch("report_all", self.report_all).label("Report every matching protocol"),
        );
        push_param(
            &mut v,
            Param::switch("report_crc_failures", self.report_crc_failures).label(
                "Warn on CRC failures",
            ),
        );
        assert(params_view(v@) =~= protocol_decode_params(self.reporting()));
        v
    }

    pub fn set_param(&mut self, name: &str, v: ParamValue) -> (r: Result<(), Error>)
        ensures
            final(self).families() == old(self).families(),
            if name@ == "report_all"@ {
                &&& r is Ok
                &&& final(self).reporting() == (Reporting {
                    all: truth_or_true(v@),
                    ..old(self).reporting()
                })
            } else if name@ == "report_crc_failures"@ {
                &&& r is Ok
                &&& final(self).reporting() == (Reporting {
                    crc_failures: truth_or_true(v@),
                    ..old(self).reporting()
                })
            } else {
                &&& settled(r) == Err::<(), Seq<char>>(
                    unknown_parameter("protocol_decode"@, name@),
                )
                &&& *final(self) == *old(self)
            },
    {
        let on: bool = match v.as_bool() {
            Some(b) => b,
            None => true,
        };
        if same(name, "report_all") {
            self.report_all = on;
            Ok(())
        } else if same(name, "report_crc_failures") {
            self.report_crc_failures = on;
            Ok(())
        } else {
            Err(unknown("protocol_decode", name))
        }
    }
}

/// One more protocol adds what it claims and reports.
proof fn trying_adds(t: Tried, name: Seq<char>, v: Verdict, p: Package, center: Hz, r: Reporting)
    requires
        !t.stopped,
    ensures
        ({
            let next = try_next(t, name, v, p, center, r);
            &&& next.bytes == t.bytes + claimed_bytes(v)
            &&& next.events == t.events + reported(name, v, p, center, r)
            &&& next.matched == (t.matched || v is Reading)
            &&& next.stopped == (v is Reading && !r.all)
        }),
{
    let next = try_next(t, name, v, p, center, r);
    assert(next.bytes =~= t.bytes + claimed_bytes(v));
    assert(next.events =~= t.events + reported(name, v, p, center, r));
}

proof fn stopped_stays(
    families: Seq<Family>,
    sliced: Seq<BitBuffer>,
    n: nat,
    m: nat,
    p: Package,
    center: Hz,
    r: Reporting,
)
    requires
        n <= m,
        tried(families, sliced, n, p, center, r).stopped,
    ensures
        tried(families, sliced, m, p, center, r) == tried(families, sliced, n, p, center, r),
    decreases m - n,
{
    if n < m {
        stopped_stays(families, sliced, n, (m - 1) as nat, p, center, r);
    }
}

/// No burst passes in silence: a package that no protocol claims is reported
/// as unrecognised, and one that is claimed is reported as decoded.
pub proof fn every_burst_is_reported(
    families: Seq<Family>,
    sliced: Seq<BitBuffer>,
    p: Package,
    center: Hz,
    r: Reporting,
)
    ensures
        ({
            let t = decoded_package(families, sliced, p, center, r);
            &&& t.events.len() > 0
            &&& t.matched ==> exists|i: int|
                0 <= i < t.events.len() && (#[trigger] t.events[i]) is Decoded
            &&& !t.matched ==> t.events.last() == EventView::Warning {
                stage: "protocol_decode"@,
                message: unrecognised_text(p),
            } && t.bytes == Seq::<u8>::empty()
        }),
{
    reveal(decoded_package);
    tried_facts(families, sliced, families.len(), p, center, r);
    let t = decoded_package(families, sliced, p, center, r);
    if t.matched {
        let i = choose|i: int| 0 <= i < t.events.len() && (#[trigger] t.events[i]) is Decoded;
        assert(t.events[i] is Decoded);
    }
}

proof fn tried_facts(
    families: Seq<Family>,
    sliced: Seq<BitBuffer>,
    n: nat,
    p: Package,
    center: Hz,
    r: Reporting,
)
    ensures
        ({
            let t = tried(families, sliced, n, p, center, r);
            &&& t.matched ==> exists|i: int|
                0 <= i < t.events.len() && (#[trigger] t.events[i]) is Decoded
            &&& !t.matched ==> t.bytes == Seq::<u8>::empty()
        }),
    decreases n,
{
    if n > 0 {
        tried_facts(families, sliced, (n - 1) as nat, p, center, r);
        let before = tried(families, sliced, (n - 1) as nat, p, center, r);
        let t = tried(families, sliced, n, p, center, r);
        if t.matched {
            if before.matched {
                let i = choose|i: int|
                    0 <= i < before.events.len() && (#[trigger] before.events[i]) is Decoded;
                assert(t.events[i] == before.events[i]);
            } else {
                assert(t.events[t.events.len() - 1] is Decoded);
            }
        }
    }
}

} // verus!
