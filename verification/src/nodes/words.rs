//! What stages offer, what they make of what they are given, and what they say.

use vstd::prelude::*;
#[allow(unused_imports)]
use crate::common::Hz;
#[allow(unused_imports)]
use crate::decode::bits::BitBuffer;
#[allow(unused_imports)]
use crate::decode::protocol::{fields_text, report_text, value_text, Family, ReportView, Value};
#[allow(unused_imports)]
use crate::dsp::ook::PulseConfig;
#[allow(unused_imports)]
use crate::dsp::pulse::{
    air_time, bursts_last_from_first_to_last_mark, histogram_spec, inner_gaps, marks, sum_all,
    Package,
};
#[allow(unused_imports)]
use crate::fixed::{nearest_bounds, nearest_spec, truncating_goes_toward_zero};
#[allow(unused_imports)]
use crate::front::drawing::{ratios_read, reads};
#[allow(unused_imports)]
use crate::nodes::chain::{
    delay_at, names_text, recounted, stage_error_text, stream_at, unknown_stage_text, Graph,
};
#[allow(unused_imports)]
use crate::nodes::decode_nodes::{
    clusters_text, config_set, crc_text, decoded_bytes, decoded_events, decoded_package,
    discarded_text, on_air, unrecognised_text, Reporting,
};
#[allow(unused_imports)]
use crate::nodes::dsp_nodes::{
    decimate_set, deemphasis_set, fm_demod_set, mixer_set, real_decimate_set, DecimateNode,
    shifted_center, DeemphasisNode, FmDemodNode, MixerNode, RealDecimateNode,
};
#[allow(unused_imports)]
use crate::nodes::stage::{kind_of, made, stage_latency, stage_params, Factory, Stage};
#[allow(unused_imports)]
use crate::pipeline::node::unknown_parameter;
#[allow(unused_imports)]
use crate::pipeline::param::{number, ParamRange, ParamView, ValueView};
#[allow(unused_imports)]
use crate::pipeline::registry::DescView;
#[allow(unused_imports)]
use crate::pipeline::settings::{integer_or, number_or, text_or, truth_or};
#[allow(unused_imports)]
use crate::text::{debug_text, decimal, digits, digits_read_back, signed_ratio_text, value};

verus! {

/// Whether a parameter has that name, and numbers within those ends, in
/// millionths.
pub open spec fn ranges(p: ParamView, name: Seq<char>, unit: Seq<char>, lo: int, hi: int) -> bool {
    &&& p.name == name
    &&& p.unit == unit
    &&& (p.range matches ParamRange::Float(a, b) && a@ == lo && b@ == hi)
    &&& p.value is Float
    &&& !p.affects_rate
}

/// Whether a parameter has that name, and whole numbers within those ends.
pub open spec fn counts(p: ParamView, name: Seq<char>, lo: int, hi: int) -> bool {
    &&& p.name == name
    &&& p.unit.len() == 0
    &&& (p.range matches ParamRange::Int(a, b) && a == lo && b == hi)
    &&& p.value is Int
}

/// Whether a parameter has that name, and is on or off.
pub open spec fn switches(p: ParamView, name: Seq<char>) -> bool {
    &&& p.name == name
    &&& p.unit.len() == 0
    &&& p.range is Any
    &&& p.value is Bool
    &&& !p.affects_rate
}

/// What each kind of stage offers, in its order: its parameters, their units and
/// how far they go. Only a decimation changes the rate.
pub proof fn stages_offer_their_parameters(s: Stage)
    ensures
        ({
            let p = stage_params(s);
            let million: int = 1_000_000;
            match kind_of(s) {
                Factory::Mixer => {
                    &&& p.len() == 1
                    &&& ranges(p[0], "shift_hz"@, "Hz"@, -30 * million * million, 30 * million * million)
                },
                Factory::Decimate => {
                    &&& p.len() == 3
                    &&& counts(p[0], "factor"@, 1, 1024) && p[0].affects_rate
                    &&& ranges(p[1], "passband"@, Seq::empty(), 500_000, 990_000)
                    &&& ranges(p[2], "atten_db"@, "dB"@, 30 * million, 120 * million)
                },
                Factory::RealDecimate => {
                    &&& p.len() == 1
                    &&& counts(p[0], "factor"@, 1, 1024) && p[0].affects_rate
                },
                Factory::Envelope => p.len() == 0,
                Factory::FmDemod => {
                    &&& p.len() == 1
                    &&& ranges(p[0], "deviation_hz"@, "Hz"@, 500 * million, 200_000 * million)
                },
                Factory::Deemphasis => {
                    &&& p.len() == 1
                    &&& ranges(p[0], "tau_us"@, "us"@, 25 * million, 100 * million)
                },
                Factory::PulseDetect => {
                    &&& p.len() == 5
                    &&& ranges(p[0], "reset_us"@, "us"@, 500 * million, 100_000 * million)
                    &&& ranges(p[1], "min_mark_us"@, "us"@, 10 * million, 2000 * million)
                    &&& counts(p[2], "min_pulses"@, 2, 512) && !p[2].affects_rate
                    &&& ranges(p[3], "min_snr_db"@, "dB"@, 3 * million, 40 * million)
                    &&& ranges(p[4], "hysteresis"@, Seq::empty(), 0, million / 2)
                },
                Factory::ProtocolDecode => {
                    &&& p.len() == 2
                    &&& switches(p[0], "report_all"@)
                    &&& switches(p[1], "report_crc_failures"@)
                },
            }
        }),
{
}

/// Whether `r` is `x` as far as it goes from `lo` to `hi`, and the nearer end
/// beyond.
pub open spec fn held_within(r: int, x: int, lo: int, hi: int) -> bool {
    &&& lo <= x <= hi ==> r == x
    &&& x < lo ==> r == lo
    &&& x > hi ==> r == hi
}

/// Numbers that go too far stop at what a stage can work with, which is more than
/// its controls offer. What is no number counts as the usual value, but for a
/// mixer, which refuses it.
pub proof fn numbers_stop_at_what_works(
    m: MixerNode,
    d: DecimateNode,
    f: FmDemodNode,
    e: DeemphasisNode,
    x: int,
    b: bool,
)
    requires
        i64::MIN <= x <= i64::MAX,
    ensures
        ({
            let v = ValueView::Float(x);
            let w = ValueView::Bool(b);
            let million: int = 1_000_000;
            &&& mixer_set(m, "shift_hz"@, v).0.shift_hz@ == x
            &&& mixer_set(m, "shift_hz"@, w) == (m, Err::<(), Seq<char>>("expected a number"@))
            &&& held_within(decimate_set(d, "passband"@, v).0.passband@, x, 100_000, 990_000)
            &&& decimate_set(d, "passband"@, w).0.passband@ == 900_000
            &&& held_within(decimate_set(d, "atten_db"@, v).0.atten_db@, x, 20 * million, 150 * million)
            &&& decimate_set(d, "atten_db"@, w).0.atten_db@ == 80 * million
            &&& held_within(
                fm_demod_set(f, "deviation_hz"@, v).0.deviation_hz@,
                x,
                million,
                i64::MAX as int,
            )
            &&& fm_demod_set(f, "deviation_hz"@, w).0.deviation_hz@ == 75_000 * million
            &&& held_within(deemphasis_set(e, "tau_us"@, v).0.tau_us@, x, million, 1000 * million)
            &&& deemphasis_set(e, "tau_us"@, w).0.tau_us@ == 50 * million
        }),
{
    reveal_strlit("factor");
    reveal_strlit("passband");
    reveal_strlit("atten_db");
    assert("factor"@.len() == 6 && "passband"@.len() == 8 && "atten_db"@.len() == 8);
    assert("passband"@[0] != "atten_db"@[0]);
}

/// Decimation factors and the timings of a pulse detector stop at one or at
/// nothing below, and hysteresis at nine tenths above.
pub proof fn counts_stop_at_what_works(
    d: DecimateNode,
    r: RealDecimateNode,
    c: PulseConfig,
    n: int,
    x: int,
    b: bool,
)
    requires
        i64::MIN <= n <= i64::MAX,
        i64::MIN <= x <= i64::MAX,
    ensures
        ({
            let v = ValueView::Int(n);
            let w = ValueView::Bool(b);
            &&& held_within(decimate_set(d, "factor"@, v).0.factor as int, n, 1, i64::MAX as int)
            &&& decimate_set(d, "factor"@, w).0.factor == 1
            &&& held_within(real_decimate_set(r, "factor"@, v).0.factor as int, n, 1, i64::MAX as int)
            &&& (config_set(c, "reset_us"@, v) matches Some(t) && held_within(
                t.reset_us as int,
                n,
                1,
                u32::MAX as int,
            ))
            &&& (config_set(c, "min_mark_us"@, v) matches Some(t) && held_within(
                t.min_mark_us as int,
                n,
                0,
                u32::MAX as int,
            ))
            &&& (config_set(c, "min_pulses"@, v) matches Some(t) && held_within(
                t.min_pulses as int,
                n,
                1,
                usize::MAX as int,
            ))
            &&& (config_set(c, "hysteresis"@, ValueView::Float(x)) matches Some(t) && held_within(
                t.hysteresis@,
                x,
                0,
                900_000,
            ))
            &&& (config_set(c, "min_snr_db"@, ValueView::Float(x)) matches Some(t)
                && t.min_snr_db@ == x)
        }),
{
    reveal_strlit("reset_us");
    reveal_strlit("min_mark_us");
    reveal_strlit("min_pulses");
    reveal_strlit("min_snr_db");
    reveal_strlit("hysteresis");
    assert("reset_us"@.len() == 8 && "min_mark_us"@.len() == 11 && "min_pulses"@.len() == 10);
    assert("min_snr_db"@.len() == 10 && "hysteresis"@.len() == 10);
    assert("min_pulses"@[4] != "min_snr_db"@[4]);
    assert("min_pulses"@[0] != "hysteresis"@[0]);
    assert("min_snr_db"@[0] != "hysteresis"@[0]);
}

/// A stage has the number that its settings say, and without one the usual: no
/// shift, the deviation of broadcasting, the time constant of Europe. A decoder
/// knows every family and reports everything.
pub proof fn stages_are_made_as_asked(m: Map<Seq<char>, ValueView>, x: int, s: Stage, t: Stage)
    requires
        made(kind_of(s), m.insert("shift_hz"@, ValueView::Float(x)).insert(
            "deviation_hz"@,
            ValueView::Float(x),
        ).insert("tau_us"@, ValueView::Float(x)), s),
        made(kind_of(t), Map::empty(), t),
    ensures
        s matches Stage::Mixer(n) ==> n.shift_hz@ == x,
        s matches Stage::FmDemod(n) ==> n.deviation_hz@ == x,
        s matches Stage::Deemphasis(n) ==> n.tau_us@ == x,
        t matches Stage::Mixer(n) ==> n.shift_hz@ == 0,
        t matches Stage::FmDemod(n) ==> n.deviation_hz@ == 75_000 * 1_000_000,
        t matches Stage::Deemphasis(n) ==> n.tau_us@ == 50 * 1_000_000,
        t matches Stage::Decimate(n) ==> n.factor == 1 && 10 * n.passband@ == 9 * 1_000_000
            && n.atten_db@ == 80 * 1_000_000,
        t matches Stage::RealDecimate(n) ==> n.factor == 1,
        t matches Stage::ProtocolDecode(n) ==> n.families().contains(Family::OregonV3)
            && n.reporting().all && n.reporting().crc_failures,
{
    reveal_strlit("shift_hz");
    reveal_strlit("deviation_hz");
    reveal_strlit("tau_us");
    assert("shift_hz"@.len() == 8 && "deviation_hz"@.len() == 12 && "tau_us"@.len() == 6);
    let one = seq![Family::OregonV3];
    assert(one[0] == Family::OregonV3);
}

/// A setting of the right kind is taken; without one, or with one of another
/// kind, the default is.
pub proof fn settings_are_taken_or_defaulted(
    m: Map<Seq<char>, ValueView>,
    key: Seq<char>,
    x: int,
    b: bool,
    s: Seq<char>,
    number: int,
    truth: bool,
    text: Seq<char>,
)
    ensures
        number_or(m.insert(key, ValueView::Float(x)), key, number) == x,
        i64::MIN <= x * 1_000_000 <= i64::MAX ==> number_or(
            m.insert(key, ValueView::Int(x)),
            key,
            number,
        ) == x * 1_000_000,
        integer_or(m.insert(key, ValueView::Int(x)), key, number) == x,
        truth_or(m.insert(key, ValueView::Bool(b)), key, truth) == b,
        text_or(m.insert(key, ValueView::Str(s)), key, text) == s,
        number_or(m.remove(key), key, number) == number,
        integer_or(m.remove(key), key, number) == number,
        truth_or(m.remove(key), key, truth) == truth,
        text_or(m.remove(key), key, text) == text,
        number_or(m.insert(key, ValueView::Str(s)), key, number) == number,
        integer_or(m.insert(key, ValueView::Bool(b)), key, number) == number,
        truth_or(m.insert(key, ValueView::Int(x)), key, truth) == truth,
        text_or(m.insert(key, ValueView::Int(x)), key, text) == text,
{
}

/// Samples counted at another rate last as long, to within half a sample of it.
pub proof fn recounting_keeps_the_time(n: nat, from: int, to: int)
    ensures
        from > 0 && to > 0 ==> -from <= 2 * (from * recounted(n, from, to)) - 2 * (n * to) <= from,
        from <= 0 || to <= 0 ==> recounted(n, from, to) == 0,
{
    if from > 0 && to > 0 {
        let num = n * (to as nat);
        nearest_bounds(num, from as nat);
        let q = nearest_spec(num, from as nat) as int;
        assert((2 * from) * q == 2 * (from * q)) by (nonlinear_arith);
    }
}

/// Nothing is delayed before the first stage. Each stage adds its own delay to
/// the one that reaches it, counted at its own rate, up to the greatest count.
pub proof fn delays_are_carried_on(g: Graph, taps: Seq<u64>, i: int)
    requires
        0 <= i,
    ensures
        delay_at(g, taps, 0) == 0,
        ({
            let (from, to) = (
                stream_at(g.input, g.specs@, i).rate@,
                stream_at(g.input, g.specs@, i + 1).rate@,
            );
            let own = stage_latency(g.stages@[i], taps[i] as nat);
            let d = delay_at(g, taps, i + 1);
            &&& d <= u64::MAX
            &&& from > 0 && to > 0 && d < u64::MAX ==> -from <= 2 * (from * (d - own)) - 2 * (
            delay_at(g, taps, i) * to) <= from
            &&& d < u64::MAX ==> d >= own
        }),
{
    let (from, to) = (
        stream_at(g.input, g.specs@, i).rate@,
        stream_at(g.input, g.specs@, i + 1).rate@,
    );
    recounting_keeps_the_time(delay_at(g, taps, i), from, to);
}

/// How many events the first packages give.
pub open spec fn events_before(
    families: Seq<Family>,
    sliced: Seq<Vec<BitBuffer>>,
    packages: Seq<Package>,
    n: int,
    center: Hz,
    r: Reporting,
) -> int
    decreases n,
{
    if n <= 0 {
        0
    } else {
        events_before(families, sliced, packages, n - 1, center, r) + decoded_package(
            families,
            sliced[n - 1]@,
            packages[n - 1],
            center,
            r,
        ).events.len()
    }
}

/// Every package has its say, in the order in which they came: what comes of each
/// stands whole behind what came of those before it, whatever their number.
pub proof fn every_package_has_its_say(
    families: Seq<Family>,
    sliced: Seq<Vec<BitBuffer>>,
    packages: Seq<Package>,
    n: nat,
    center: Hz,
    r: Reporting,
    i: int,
    k: int,
)
    requires
        0 <= i < n,
        0 <= k < decoded_package(families, sliced[i]@, packages[i], center, r).events.len(),
    ensures
        ({
            let all = decoded_events(families, sliced, packages, n, center, r);
            let at = events_before(families, sliced, packages, i, center, r) + k;
            &&& all.len() == events_before(families, sliced, packages, n as int, center, r)
            &&& 0 <= at < all.len()
            &&& all[at] == decoded_package(families, sliced[i]@, packages[i], center, r).events[k]
        }),
    decreases n,
{
    let m = (n - 1) as nat;
    events_add_up(families, sliced, packages, m, center, r);
    events_add_up(families, sliced, packages, i as nat, center, r);
    if i < m {
        every_package_has_its_say(families, sliced, packages, m, center, r, i, k);
    }
}

proof fn events_add_up(
    families: Seq<Family>,
    sliced: Seq<Vec<BitBuffer>>,
    packages: Seq<Package>,
    n: nat,
    center: Hz,
    r: Reporting,
)
    ensures
        decoded_events(families, sliced, packages, n, center, r).len() == events_before(
            families,
            sliced,
            packages,
            n as int,
            center,
            r,
        ),
        events_before(families, sliced, packages, n as int, center, r) >= 0,
    decreases n,
{
    if n > 0 {
        events_add_up(families, sliced, packages, (n - 1) as nat, center, r);
    }
}

/// How many bytes the first packages give.
pub open spec fn bytes_before(
    families: Seq<Family>,
    sliced: Seq<Vec<BitBuffer>>,
    packages: Seq<Package>,
    n: int,
    center: Hz,
    r: Reporting,
) -> int
    decreases n,
{
    if n <= 0 {
        0
    } else {
        bytes_before(families, sliced, packages, n - 1, center, r) + decoded_package(
            families,
            sliced[n - 1]@,
            packages[n - 1],
            center,
            r,
        ).bytes.len()
    }
}

/// The bytes of every package come out, in the order in which the packages came.
pub proof fn the_bytes_of_every_package_come_out(
    families: Seq<Family>,
    sliced: Seq<Vec<BitBuffer>>,
    packages: Seq<Package>,
    n: nat,
    center: Hz,
    r: Reporting,
    i: int,
    k: int,
)
    requires
        0 <= i < n,
        0 <= k < decoded_package(families, sliced[i]@, packages[i], center, r).bytes.len(),
    ensures
        ({
            let all = decoded_bytes(families, sliced, packages, n, center, r);
            let at = bytes_before(families, sliced, packages, i, center, r) + k;
            &&& all.len() == bytes_before(families, sliced, packages, n as int, center, r)
            &&& 0 <= at < all.len()
            &&& all[at] == decoded_package(families, sliced[i]@, packages[i], center, r).bytes[k]
        }),
    decreases n,
{
    let m = (n - 1) as nat;
    bytes_add_up(families, sliced, packages, m, center, r);
    bytes_add_up(families, sliced, packages, i as nat, center, r);
    if i < m {
        the_bytes_of_every_package_come_out(families, sliced, packages, m, center, r, i, k);
    }
}

proof fn bytes_add_up(
    families: Seq<Family>,
    sliced: Seq<Vec<BitBuffer>>,
    packages: Seq<Package>,
    n: nat,
    center: Hz,
    r: Reporting,
)
    ensures
        decoded_bytes(families, sliced, packages, n, center, r).len() == bytes_before(
            families,
            sliced,
            packages,
            n as int,
            center,
            r,
        ),
        bytes_before(families, sliced, packages, n as int, center, r) >= 0,
    decreases n,
{
    if n > 0 {
        bytes_add_up(families, sliced, packages, (n - 1) as nat, center, r);
    }
}

/// Whether a text is a ratio in decibels to a tenth.
pub open spec fn says_ratio(t: Seq<char>, db: int) -> bool {
    if db >= 0 {
        reads(t, db, 1_000_000, 1, 10)
    } else {
        t.len() > 0 && t[0] == '-' && reads(t.skip(1), -db, 1_000_000, 1, 10)
    }
}

proof fn ratios_are_said(db: int)
    ensures
        says_ratio(signed_ratio_text(db, 1_000_000, 1), db),
{
    let t = signed_ratio_text(db, 1_000_000, 1);
    if db >= 0 {
        ratios_read(db, 1_000_000, 1);
    } else {
        ratios_read(-db, 1_000_000, 1);
        assert(t.skip(1) =~= signed_ratio_text(-db, 1_000_000, 1));
    }
}

/// Whether a text says that a check failed, on how many pulses and how far above
/// the noise.
pub open spec fn says_failed(t: Seq<char>, pulses: int, db: int) -> bool {
    exists|a: Seq<char>, b: Seq<char>|
        t == "timings matched but CRC failed ("@ + a + " pulses, "@ + b + " dB SNR)"@
            && #[trigger] value(a) == pulses && #[trigger] says_ratio(b, db)
}

/// A failed check is read back from what is said of it.
pub proof fn failed_checks_are_read_back(p: Package)
    ensures
        says_failed(crc_text(p), p.pulses@.len() as int, p.snr_db@),
{
    digits_read_back(p.pulses@.len());
    ratios_are_said(p.snr_db@);
    let (a, b) = (digits(p.pulses@.len()), signed_ratio_text(p.snr_db@, 1_000_000, 1));
    assert(value(a) == p.pulses@.len() && says_ratio(b, p.snr_db@));
}

/// Whether a text is one cluster: its centre and how many are in it.
pub open spec fn says_cluster(t: Seq<char>, center: int, count: int) -> bool {
    exists|a: Seq<char>, b: Seq<char>|
        t == "("@ + a + ", "@ + b + ")"@ && #[trigger] value(a) == center && #[trigger] value(b)
            == count
}

/// Every cluster is said, in order, with a comma between one and the next.
pub proof fn every_cluster_is_said(h: Seq<(u32, usize)>, x: (u32, usize))
    ensures
        clusters_text(Seq::empty()).len() == 0,
        exists|t: Seq<char>| #[trigger]
            says_cluster(t, x.0 as int, x.1 as int) && clusters_text(h.push(x)) == clusters_text(h)
                + (if h.len() > 0 {
                ", "@
            } else {
                Seq::empty()
            }) + t,
{
    let (a, b) = (digits(x.0 as nat), digits(x.1 as nat));
    digits_read_back(x.0 as nat);
    digits_read_back(x.1 as nat);
    let t = "("@ + a + ", "@ + b + ")"@;
    assert(value(a) == x.0 && value(b) == x.1);
    assert(says_cluster(t, x.0 as int, x.1 as int));
    assert(h.push(x).drop_last() =~= h);
    assert(clusters_text(h.push(x)) =~= clusters_text(h) + (if h.len() > 0 {
        ", "@
    } else {
        Seq::empty()
    }) + t);
}

/// Whether a text says of a burst how many pulses it has, how long it lasted to a
/// tenth of a millisecond, how far it is above the noise, and its marks.
pub open spec fn says_burst(t: Seq<char>, pulses: int, us: int, db: int, widths: Seq<char>) -> bool {
    exists|a: Seq<char>, b: Seq<char>, c: Seq<char>|
        t == "unrecognised burst: "@ + a + " pulses, "@ + b + " ms, "@ + c + " dB; marks ["@ + widths
            + "]"@ && #[trigger] value(a) == pulses && #[trigger] reads(b, us, 1000, 1, 10)
            && #[trigger] says_ratio(c, db)
}

/// A burst that no protocol claims is read back from what is said of it. Its marks
/// are told apart at a tenth of a millisecond.
pub proof fn unrecognised_bursts_are_read_back(p: Package)
    requires
        on_air(p) >= 0,
    ensures
        says_burst(
            unrecognised_text(p),
            p.pulses@.len() as int,
            on_air(p),
            p.snr_db@,
            clusters_text(histogram_spec(marks(p.pulses@), 100)),
        ),
{
    digits_read_back(p.pulses@.len());
    ratios_are_said(p.snr_db@);
    ratios_read(on_air(p), 1000, 1);
    let (a, c) = (digits(p.pulses@.len()), signed_ratio_text(p.snr_db@, 1_000_000, 1));
    let b = signed_ratio_text(on_air(p), 1000, 1);
    assert(value(a) == p.pulses@.len() && reads(b, on_air(p), 1000, 1, 10) && says_ratio(
        c,
        p.snr_db@,
    ));
}

/// Whether a text says how many bursts had too few pulses, and how many they
/// needed.
pub open spec fn says_few(t: Seq<char>, few: int, least: int) -> bool {
    exists|a: Seq<char>, b: Seq<char>|
        t == a + " with fewer than "@ + b + " pulses (raise reset_us, or lower min_pulses)"@
            && #[trigger] value(a) == few && #[trigger] value(b) == least
}

/// Whether a text says how many bursts were too weak, and how strong they had to
/// be in whole decibels.
pub open spec fn says_weak(t: Seq<char>, low: int, db: int) -> bool {
    exists|a: Seq<char>, b: Seq<char>|
        t == a + " below "@ + b + " dB SNR (lower min_snr_db, or increase gain)"@ && #[trigger] value(
            a,
        ) == low && #[trigger] reads(b, db, 1_000_000, 0, 1)
}

/// Bursts that were thrown away are read back from what is said of them: those
/// with too few pulses first, then those that were too weak, each only where
/// there were any.
pub proof fn discarded_bursts_are_read_back(few: nat, low: nat, cfg: PulseConfig)
    requires
        few > 0 || low > 0,
        cfg.min_snr_db@ >= 0,
    ensures
        exists|a: Seq<char>, b: Seq<char>| #[trigger]
            says_few(a, few as int, cfg.min_pulses as int) && #[trigger] says_weak(
                b,
                low as int,
                cfg.min_snr_db@,
            ) && discarded_text(few, low, cfg) == "discarded "@ + (if low == 0 {
                a
            } else if few == 0 {
                b
            } else {
                a + "; "@ + b
            }),
{
    digits_read_back(few);
    digits_read_back(low);
    digits_read_back(cfg.min_pulses as nat);
    ratios_read(cfg.min_snr_db@, 1_000_000, 0);
    let (x, y) = (digits(few), digits(cfg.min_pulses as nat));
    let (u, w) = (digits(low), signed_ratio_text(cfg.min_snr_db@, 1_000_000, 0));
    let a = x + " with fewer than "@ + y + " pulses (raise reset_us, or lower min_pulses)"@;
    let b = u + " below "@ + w + " dB SNR (lower min_snr_db, or increase gain)"@;
    assert(value(x) == few && value(y) == cfg.min_pulses && value(u) == low);
    assert(reads(w, cfg.min_snr_db@, 1_000_000, 0, 1));
    assert(says_few(a, few as int, cfg.min_pulses as int));
    assert(says_weak(b, low as int, cfg.min_snr_db@));
}

/// A parameter that is not there is named behind the stage that has none.
pub proof fn unknown_parameters_are_named(stage: Seq<char>, name: Seq<char>)
    ensures
        unknown_parameter(stage, name).take(stage.len() as int) == stage,
        unknown_parameter(stage, name) == stage + ": unknown parameter "@ + debug_text(name),
{
    assert(unknown_parameter(stage, name).take(stage.len() as int) =~= stage);
}

/// The stages that are known are listed in their order, with a comma between.
pub proof fn known_stages_are_listed(e: Seq<(DescView, Factory)>, x: (DescView, Factory))
    ensures
        names_text(Seq::empty()).len() == 0,
        names_text(seq![x]) == x.0.name,
        e.len() > 0 ==> names_text(e.push(x)) == names_text(e) + ", "@ + x.0.name,
{
    assert(e.push(x).drop_last() =~= e);
}

/// Whether a text begins with the number of a stage of the chain.
pub open spec fn names_stage(t: Seq<char>, i: int, rest: Seq<char>) -> bool {
    exists|a: Seq<char>|
        t == "chain node "@ + a + rest && decimal(a) && #[trigger] value(a) == i
}

/// An error of a chain gives the number of the stage, its kind, and what it says,
/// or which kinds there are where there is none of that name.
pub proof fn errors_of_a_chain_name_the_stage(
    i: nat,
    kind: Seq<char>,
    e: Seq<char>,
    known: Seq<(DescView, Factory)>,
)
    ensures
        names_stage(stage_error_text(i, kind, e), i as int, " ("@ + kind + "): "@ + e),
        names_stage(
            unknown_stage_text(i, kind, known),
            i as int,
            ": no node type named "@ + debug_text(kind) + ". Known types: "@ + names_text(known),
        ),
{
    digits_read_back(i);
    let a = digits(i);
    assert(value(a) == i);
    let r = " ("@ + kind + "): "@ + e;
    assert(stage_error_text(i, kind, e) =~= "chain node "@ + a + r);
    let s = ": no node type named "@ + debug_text(kind) + ". Known types: "@ + names_text(known);
    assert(unknown_stage_text(i, kind, known) =~= "chain node "@ + a + s);
}

/// A report in one line is its model, then a blank, the name, an equals sign and
/// the value of each field in turn, then how its check came out if it has one.
pub proof fn reports_say_their_fields(r: ReportView, name: Seq<char>, v: Value)
    ensures
        fields_text(Seq::empty()).len() == 0,
        fields_text(r.fields.push((name, v))) == fields_text(r.fields).push(' ') + name.push('=')
            + value_text(v),
        r.crc_valid is None ==> report_text(r) == r.model + fields_text(r.fields),
        r.crc_valid == Some(true) ==> report_text(r) == r.model + fields_text(r.fields)
            + " [CRC ok]"@,
        r.crc_valid == Some(false) ==> report_text(r) == r.model + fields_text(r.fields)
            + " [CRC failed]"@,
{
    reveal_strlit(" ");
    reveal_strlit("=");
    let f = r.fields.push((name, v));
    assert(f.drop_last() =~= r.fields);
    assert(fields_text(f) =~= fields_text(r.fields).push(' ') + name.push('=') + value_text(v));
    if r.crc_valid is None {
        assert(report_text(r) =~= r.model + fields_text(r.fields));
    }
}

/// A burst is on the air from its first mark to its last: the marks and the gaps
/// between them, without the one that ended it.
pub proof fn a_burst_is_on_the_air_for_its_marks_and_gaps(p: Package)
    ensures
        p.pulses@.len() == 0 ==> on_air(p) == 0,
        p.pulses@.len() > 0 ==> on_air(p) == sum_all(marks(p.pulses@)) + sum_all(
            inner_gaps(p.pulses@),
        ),
{
    if p.pulses@.len() > 0 {
        bursts_last_from_first_to_last_mark(p.pulses@);
    } else {
        assert(air_time(p.pulses@) == 0);
    }
}

/// An integer that is too large for a number counts as the largest there is.
pub proof fn large_integers_are_the_largest_number(n: int)
    ensures
        n * 1_000_000 > i64::MAX ==> number(ValueView::Int(n)) == Some(i64::MAX as int),
        n * 1_000_000 < i64::MIN ==> number(ValueView::Int(n)) == Some(i64::MIN as int),
{
}

/// A centre too high for a signed number counts as the negative one that it wraps
/// to, and a centre that would be negative is zero.
pub proof fn centres_wrap_as_signed_numbers(center: int, shift: int)
    requires
        0 <= center <= u64::MAX,
        shift % 1_000_000 == 0,
        i64::MIN <= shift <= i64::MAX,
    ensures
        ({
            let whole = shift / 1_000_000;
            let c = if center < 0x8000_0000_0000_0000 {
                center
            } else {
                center - 0x1_0000_0000_0000_0000
            };
            &&& 0 <= c - whole <= i64::MAX ==> shifted_center(center, shift) == c - whole
            &&& c - whole < 0 ==> shifted_center(center, shift) == 0
            &&& c - whole > i64::MAX ==> shifted_center(center, shift) == i64::MAX
        }),
{
    truncating_goes_toward_zero(shift);
}

} // verus!
