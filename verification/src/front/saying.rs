//! What the program is asked for, what it lists, and what it says of a run.

use vstd::prelude::*;
#[allow(unused_imports)]
use crate::common::DriverKind;
#[allow(unused_imports)]
use crate::fixed::{rounding_is_close, Micro};
#[allow(unused_imports)]
use crate::front::args::{asked, given, place, TaskView};
#[allow(unused_imports)]
use crate::front::chainview::{
    branches, header_text, height, kind_text, link_text, picture, rate_text, stage_marks,
    stages_marks, ChainNode, MarkView,
};
#[allow(unused_imports)]
use crate::front::devices::{
    candidates, dongle_label, end_of, label_text, listed, offered, open, rates_of, short_spec,
    text_bytes, without_zeros, Dongle, Entry, Opening,
};
#[allow(unused_imports)]
use crate::front::drawing::{ratios_read, reads, written};
#[allow(unused_imports)]
use crate::front::probe::{is_reported, line_text, peak_at, read, right, Reading};
#[allow(unused_imports)]
use crate::front::soak::{report_text, shot_progress, soak_progress, space, words, Progress};
#[allow(unused_imports)]
use crate::front::ui::{numbers, Frame};
#[allow(unused_imports)]
use crate::pipeline::port::{PortKind, StreamSpec};
#[allow(unused_imports)]
use crate::sort::{order_is_unique, orders};
#[allow(unused_imports)]
use crate::text::{decimal, digits, digits_read_back, ratio_text, signed_ratio_text, value};

verus! {

/// Whether all characters take one byte.
pub open spec fn plain(s: Seq<char>) -> bool {
    forall|i: int| 0 <= i < s.len() ==> (#[trigger] s[i] as int) < 0x80
}

proof fn plain_text_is_its_length(s: Seq<char>)
    requires
        plain(s),
    ensures
        text_bytes(s) == s.len(),
    decreases s.len(),
{
    if s.len() > 0 {
        assert forall|i: int| 0 <= i < s.len() - 1 implies (#[trigger] s.drop_first()[i] as int)
            < 0x80 by {
            assert(s[i + 1] as int == s.drop_first()[i] as int);
        }
        plain_text_is_its_length(s.drop_first());
        assert((s[0] as int) < 0x80);
    }
}

proof fn the_end_is_the_last(s: Seq<char>, n: nat)
    requires
        plain(s),
    ensures
        s.len() <= n ==> end_of(s, n) == s,
        s.len() > n ==> end_of(s, n) == s.skip(s.len() - n),
    decreases s.len(),
{
    plain_text_is_its_length(s);
    if s.len() > n {
        assert forall|i: int| 0 <= i < s.len() - 1 implies (#[trigger] s.drop_first()[i] as int)
            < 0x80 by {
            assert(s[i + 1] as int == s.drop_first()[i] as int);
        }
        the_end_is_the_last(s.drop_first(), n);
        assert(s.drop_first().skip(s.len() - 1 - n) =~= s.skip(s.len() - n));
        assert(s.len() - 1 == n ==> s.drop_first() =~= s.skip(s.len() - n));
    }
}

/// Only zeros at the start go, and all of them.
pub proof fn zeros_go_from_the_start(s: Seq<char>)
    ensures
        ({
            let z = without_zeros(s);
            &&& z.len() <= s.len()
            &&& z == s.skip(s.len() - z.len())
            &&& forall|i: int| 0 <= i < s.len() - z.len() ==> #[trigger] s[i] == '0'
            &&& z.len() > 0 ==> z[0] != '0'
        }),
    decreases s.len(),
{
    if s.len() > 0 && s[0] == '0' {
        let r = s.drop_first();
        zeros_go_from_the_start(r);
        let z = without_zeros(s);
        assert(r.skip(r.len() - z.len()) =~= s.skip(s.len() - z.len()));
        assert forall|i: int| 0 <= i < s.len() - z.len() implies #[trigger] s[i] == '0' by {
            if i > 0 {
                assert(r[i - 1] == '0');
            }
        }
    } else {
        assert(s.skip(0) =~= s);
    }
}

/// Of a plain serial number, the last eight characters behind the zeros at its
/// start are shown, or all of them where there are fewer.
pub proof fn serials_are_shown_by_their_end(s: Seq<char>)
    requires
        plain(s),
    ensures
        ({
            let z = without_zeros(s);
            &&& z.len() <= 8 ==> short_spec(s) == z
            &&& z.len() > 8 ==> short_spec(s).len() == 8 && short_spec(s) == s.skip(s.len() - 8)
        }),
{
    zeros_go_from_the_start(s);
    let z = without_zeros(s);
    assert forall|i: int| 0 <= i < z.len() implies (#[trigger] z[i] as int) < 0x80 by {
        assert(s[s.len() - z.len() + i] as int == z[i] as int);
    }
    the_end_is_the_last(z, 8);
    if z.len() > 8 {
        assert(z.skip(z.len() - 8) =~= s.skip(s.len() - 8));
    }
}

/// Dongles are listed first and keep their own numbers; then the others, counted
/// from zero. A dongle goes by its product, or by its name where it has none,
/// with the end of its serial number behind it where it has one.
pub proof fn every_radio_is_listed(dongles: Seq<Dongle>, serials: Seq<String>, i: int)
    ensures
        listed(dongles, serials).len() == dongles.len() + serials.len(),
        0 <= i < dongles.len() ==> ({
            let (e, d) = (listed(dongles, serials)[i], dongles[i]);
            let name = if d.product@.len() > 0 {
                d.product@
            } else {
                d.name@
            };
            &&& e.kind == DriverKind::RtlSdr
            &&& e.index == d.index
            &&& e.label.len() >= name.len()
            &&& e.label.take(name.len() as int) == name
            &&& short_spec(d.serial@).len() == 0 ==> e.label == name
            &&& short_spec(d.serial@).len() > 0 ==> e.label == name.push(' ') + short_spec(d.serial@)
        }),
        0 <= i < serials.len() ==> ({
            let e = listed(dongles, serials)[dongles.len() + i];
            &&& e.kind == DriverKind::HackRf
            &&& e.index == i
            &&& e.label == "HackRF One "@ + short_spec(serials[i]@)
        }),
{
    reveal_strlit(" ");
    if 0 <= i < dongles.len() {
        let d = dongles[i];
        let name = if d.product@.len() > 0 {
            d.product@
        } else {
            d.name@
        };
        let l = dongle_label(d);
        assert(l.take(name.len() as int) =~= name);
        if short_spec(d.serial@).len() > 0 {
            assert(l =~= name.push(' ') + short_spec(d.serial@));
        }
    }
}

/// A radio is opened as what it is, under its own number; the others cannot be.
pub proof fn radios_are_opened_as_what_they_are(e: Entry, o: Opening)
    requires
        call_ensures(open, (&e,), Ok(o)),
        e.index <= u32::MAX,
    ensures
        o matches Opening::RtlSdr(i) ==> e.kind == DriverKind::RtlSdr && i == e.index,
        o matches Opening::HackRf(i) ==> e.kind == DriverKind::HackRf && i == e.index,
        e.kind == DriverKind::RtlSdr || e.kind == DriverKind::HackRf,
{
}

/// Whether a rate is one that is offered where a radio can do it.
pub open spec fn usual(r: int) -> bool {
    ||| r == 250_000
    ||| r == 1_024_000
    ||| r == 2_048_000
    ||| r == 2_304_000
    ||| r == 2_400_000
    ||| r == 4_000_000
    ||| r == 8_000_000
    ||| r == 10_000_000
    ||| r == 12_500_000
    ||| r == 16_000_000
    ||| r == 20_000_000
}

proof fn offered_so_far(lo: int, hi: int, n: nat)
    requires
        n <= 11,
    ensures
        ({
            let o = offered(lo, hi, n);
            &&& forall|i: int| 0 <= i < o.len() ==> lo <= #[trigger] o[i] <= hi && usual(o[i] as int)
            &&& forall|i: int|
                0 <= i < o.len() ==> n > 0 && #[trigger] o[i] <= candidates()[n - 1]
            &&& forall|i: int, j: int| 0 <= i < j < o.len() ==> o[i] < o[j]
            &&& forall|k: int|
                0 <= k < n && lo <= #[trigger] candidates()[k] <= hi ==> o.contains(
                    candidates()[k],
                )
        }),
    decreases n,
{
    if n > 0 {
        let m = (n - 1) as nat;
        offered_so_far(lo, hi, m);
        let (b, o) = (offered(lo, hi, m), offered(lo, hi, n));
        let c = candidates()[n - 1];
        assert(usual(c as int));
        assert(m > 0 ==> candidates()[m - 1] < c);
        assert forall|i: int| 0 <= i < b.len() implies #[trigger] b[i] < c by {}
        assert forall|k: int| 0 <= k < n && lo <= #[trigger] candidates()[k] <= hi implies o.contains(
            candidates()[k],
        ) by {
            if k < m {
                assert(b.contains(candidates()[k]));
                let i = choose|i: int| 0 <= i < b.len() && b[i] == candidates()[k];
                assert(o[i] == candidates()[k]);
            } else {
                assert(o[o.len() - 1] == c);
            }
        }
    }
}

/// The usual rates that a radio can do are offered, each once, from the lowest to
/// the highest, and no other.
pub proof fn the_usual_rates_are_offered(lo: int, hi: int, r: u64)
    ensures
        offered(lo, hi, 11).contains(r) <==> usual(r as int) && lo <= r <= hi,
        forall|i: int, j: int|
            0 <= i < j < offered(lo, hi, 11).len() ==> offered(lo, hi, 11)[i] < offered(
                lo,
                hi,
                11,
            )[j],
{
    offered_so_far(lo, hi, 11);
    if usual(r as int) && lo <= r <= hi {
        let c = candidates();
        assert(r == c[0] || r == c[1] || r == c[2] || r == c[3] || r == c[4] || r == c[5] || r
            == c[6] || r == c[7] || r == c[8] || r == c[9] || r == c[10]);
    }
}

/// A dongle does from 225 thousand to 2.4 million samples a second, a HackRF from
/// 2 to 20 million. What is neither counts as a dongle.
pub proof fn drivers_have_their_rates(k: DriverKind)
    ensures
        k == DriverKind::HackRf ==> rates_of(k).0 == 2_000_000 && rates_of(k).1 == 20_000_000,
        k != DriverKind::HackRf ==> rates_of(k).0 == 225_000 && rates_of(k).1 == 2_400_000,
{
}

/// A rate is written in millions, whole where it is and to three places where it
/// is not, and below a million in whole thousands.
pub proof fn spans_are_read_back(hz: nat)
    ensures
        hz >= 1_000_000 && hz % 1_000_000 == 0 ==> exists|s: Seq<char>|
            label_text(hz) == s.push('M') && decimal(s) && #[trigger] value(s) * 1_000_000 == hz,
        hz >= 1_000_000 && hz % 1_000_000 != 0 ==> written(
            label_text(hz),
            "M"@,
            hz as int,
            1_000_000,
            3,
            1000,
        ),
        hz < 1_000_000 ==> written(label_text(hz), "k"@, hz as int, 1000, 0, 1),
{
    ratios_read(hz as int, 1_000_000, 3);
    ratios_read(hz as int, 1000, 0);
    if hz >= 1_000_000 && hz % 1_000_000 == 0 {
        let s = digits(hz / 1_000_000);
        digits_read_back(hz / 1_000_000);
        reveal_strlit("M");
        assert(label_text(hz) =~= s.push('M'));
        assert(value(s) * 1_000_000 == hz);
    }
}

proof fn placed_is_first(a: Seq<String>, name: Seq<char>, from: int, i: int)
    requires
        0 <= from <= i <= a.len(),
        forall|k: int| from <= k < i ==> (#[trigger] a[k])@ != name,
        i < a.len() ==> a[i]@ == name,
    ensures
        place(a, name, from) == if i < a.len() {
            Some(i)
        } else {
            None
        },
    decreases i - from,
{
    if from < i {
        placed_is_first(a, name, from + 1, i);
    }
}

/// Timing the audio goes before everything else.
pub proof fn timing_goes_first(a: Seq<String>, i: int)
    requires
        0 <= i < a.len(),
    ensures
        a[i]@ == "--bench-audio"@ ==> asked(a) is BenchAudio,
        asked(a) is BenchAudio ==> exists|k: int|
            0 <= k < a.len() && (#[trigger] a[k])@ == "--bench-audio"@,
{
}

/// Without that, a run without a window is asked for by its name, at the
/// frequency behind it if one is, and listens where that is asked for too.
pub proof fn a_probe_is_asked_for(a: Seq<String>, i: int)
    requires
        !given(a, "--bench-audio"@),
        0 <= i < a.len(),
        a[i]@ == "--probe"@,
        forall|k: int| 0 <= k < i ==> (#[trigger] a[k])@ != "--probe"@,
    ensures
        asked(a) matches TaskView::Probe { mhz, listen } && {
            &&& i + 1 < a.len() ==> mhz == Some(a[i + 1]@)
            &&& i + 1 == a.len() ==> mhz is None
            &&& listen <==> exists|k: int| 0 <= k < a.len() && (#[trigger] a[k])@ == "--listen"@
        },
{
    placed_is_first(a, "--probe"@, 0, i);
}

/// Without either, there is a window. A picture of it is saved where that is
/// asked for, under the name behind that or else under one of its own, and the
/// run is measured where that is, for the seconds behind that if any are.
pub proof fn a_window_is_asked_for(a: Seq<String>, i: int, j: int)
    requires
        !given(a, "--bench-audio"@),
        !given(a, "--probe"@),
        0 <= i <= a.len(),
        i < a.len() ==> a[i]@ == "--shot"@,
        forall|k: int| 0 <= k < i ==> (#[trigger] a[k])@ != "--shot"@,
        0 <= j <= a.len(),
        j < a.len() ==> a[j]@ == "--soak"@,
        forall|k: int| 0 <= k < j ==> (#[trigger] a[k])@ != "--soak"@,
    ensures
        asked(a) matches TaskView::Window { shot, soak } && {
            &&& i == a.len() ==> shot is None
            &&& i + 1 == a.len() ==> shot == Some("/tmp/shot.png"@)
            &&& i + 1 < a.len() ==> shot == Some(a[i + 1]@)
            &&& j == a.len() ==> soak is None
            &&& j + 1 == a.len() ==> soak == Some(None::<Seq<char>>)
            &&& j + 1 < a.len() ==> soak == Some(Some(a[j + 1]@))
        },
{
    placed_is_first(a, "--shot"@, 0, i);
    placed_is_first(a, "--soak"@, 0, j);
    assert forall|k: int| 0 <= k < a.len() implies (#[trigger] a[k])@ != "--probe"@ by {}
    placed_is_first(a, "--probe"@, 0, a.len() as int);
}

/// Words behind one another with white space between them come apart into those
/// words, however much of it there is.
pub proof fn words_come_apart(s: Seq<char>, c: char, w: Seq<char>)
    requires
        space(c),
        forall|i: int| 0 <= i < w.len() ==> !space(#[trigger] w[i]),
    ensures
        words(Seq::empty()).len() == 0,
        words(s.push(c)) == words(s),
        w.len() > 0 ==> words(s.push(c) + w) == words(s).push(w),
        w.len() > 0 ==> words(w) == seq![w],
    decreases w.len(),
{
    let t = s.push(c);
    assert(t.drop_last() =~= s);
    if w.len() > 0 {
        let r = w.drop_last();
        words_come_apart(s, c, r);
        let u = t + w;
        assert(u.drop_last() =~= t + r);
        assert(u.last() == w.last());
        assert(!space(w[w.len() - 1]));
        if r.len() == 0 {
            assert(t + r =~= t);
            assert(u[u.len() - 2] == c);
            assert(seq![w.last()] =~= w);
            assert(words(u) =~= words(s).push(w));
            assert(w.drop_last() =~= Seq::empty());
            assert(words(w) =~= seq![w]);
        } else {
            assert(u[u.len() - 2] == w[w.len() - 2]);
            assert(words(s).push(r).drop_last() =~= words(s));
            assert(r.push(w.last()) =~= w);
            assert(words(u) =~= words(s).push(w));
            assert(seq![r].drop_last() =~= Seq::empty());
            assert(words(w) =~= seq![w]);
        }
    }
}

/// Blanks, tabs and ends of lines are white space; what is printed is not.
pub proof fn printed_characters_are_no_space(c: char)
    ensures
        c == ' ' || c == '\t' || c == '\n' || c == '\r' ==> space(c),
        '!' <= c && c <= '~' ==> !space(c),
{
}

/// Whether a text says what a run cost: how long it was to a tenth of a second,
/// the processor time to a hundredth, and their quotient in percent.
pub open spec fn says_cost(t: Seq<char>, ran: int, used: int) -> bool {
    exists|a: Seq<char>, b: Seq<char>, c: Seq<char>|
        t == "ran "@ + a + "s, used "@ + b + "s CPU = "@ + c + "% of one core"@ && #[trigger] reads(
            a,
            ran,
            1_000_000,
            1,
            10,
        ) && #[trigger] reads(b, used, 1_000_000, 2, 100) && #[trigger] reads(c, 100 * used, ran, 0, 1)
}

/// What a run cost is read back from what is said of it.
pub proof fn the_cost_is_read_back(ran: nat, used: nat)
    requires
        ran >= 1,
    ensures
        says_cost(report_text(ran, used), ran as int, used as int),
{
    ratios_read(ran as int, 1_000_000, 1);
    ratios_read(used as int, 1_000_000, 2);
    ratios_read(100 * used as int, ran as int, 0);
    let (a, b) = (ratio_text(ran, 1_000_000, 1), ratio_text(used, 1_000_000, 2));
    let c = ratio_text(used * 100, ran, 0);
    assert(reads(a, ran as int, 1_000_000, 1, 10) && reads(b, used as int, 1_000_000, 2, 100));
    assert(reads(c, 100 * used as int, ran as int, 0, 1));
}

/// A measured run ends once, as soon as it has lasted as long as it was to.
pub proof fn a_run_ends_once(ran: Micro, secs: Micro, done: bool, r: Progress)
    requires
        call_ensures(soak_progress, (ran, secs, done), r),
    ensures
        r == Progress::Now <==> !done && ran@ >= secs@,
        r == Progress::Over <==> done,
{
}

/// A picture is taken once, after more than six seconds.
pub proof fn a_picture_is_taken_once(ran: Micro, done: bool, r: Progress)
    requires
        call_ensures(shot_progress, (ran, done), r),
    ensures
        r == Progress::Now <==> !done && ran@ > 6 * 1_000_000,
        r == Progress::Over <==> done,
{
}

/// Every twentieth frame is reported.
pub proof fn every_twentieth_is_reported(n: u64, r: bool, by: u64, s: bool)
    requires
        call_ensures(is_reported, (n,), r),
        call_ensures(is_reported, (by,), s),
        r,
        n <= by < n + 20,
    ensures
        s <==> by == n,
{
}

/// The frequency of a peak is that of its bin, counted from the low end of the
/// span, to within half a millionth of a hertz, and the median is the level in
/// the middle of those that are numbers.
pub proof fn a_peak_is_read_at_its_bin(f: Frame, s: Seq<i64>)
    requires
        orders(numbers(f.db@), s),
        f.db@.len() > 0,
        read(f) matches Some(r) ==> ({
            let n = f.db@.len() as int;
            let v = (2 * f.center@ - f.rate@) * n + 2 * peak_at(f.db@, n) * f.rate@;
            -0x7fff_ffff_ffff_ffff_ffff_ffff <= v <= 0x7fff_ffff_ffff_ffff_ffff_ffff
        }),
    ensures
        read(f) is Some <==> s.len() > 0,
        read(f) matches Some(r) ==> ({
            let n = f.db@.len() as int;
            let low = 2 * f.center@ - f.rate@;
            &&& -n <= n * (2 * r.hz - low) - 2 * (peak_at(f.db@, n) * f.rate@) <= n
            &&& exists|m: int|
                0 <= m < s.len() && s.len() - 1 <= 2 * m <= s.len() && r.median.0 == #[trigger] s[m]
        }),
{
    order_is_unique(numbers(f.db@), s);
    if s.len() > 0 {
        let n = f.db@.len() as int;
        let r = read(f)->0;
        let low = 2 * f.center@ - f.rate@;
        let k = peak_at(f.db@, n);
        let v = low * n + 2 * k * f.rate@;
        rounding_is_close(v, (2 * n) as nat);
        let q = crate::fixed::nearest_signed_spec(v, (2 * n) as nat);
        crate::fixed::rounding_is_bounded(v, (2 * n) as nat);
        assert(2 * k * f.rate@ == 2 * (k * f.rate@)) by (nonlinear_arith);
        assert((2 * n) * q == n * (2 * q)) by (nonlinear_arith);
        assert(n * (2 * q - low) == n * (2 * q) - low * n) by (nonlinear_arith);
        let m = s.len() as int / 2;
        assert(s.len() - 1 <= 2 * m <= s.len());
        assert(r.median.0 == s[m]);
    }
}

/// Whether a text is a number flush right in so many columns, with a minus sign
/// where it is negative.
pub open spec fn column(t: Seq<char>, width: nat, num: int, den: int, p: int, scale: int) -> bool {
    exists|s: Seq<char>|
        #![trigger right(s, width)]
        t == right(s, width) && if num >= 0 {
            reads(s, num, den, p, scale)
        } else {
            s.len() > 0 && s[0] == '-' && reads(s.skip(1), -num, den, p, scale)
        }
}

/// Text that is flush right is filled with blanks from the left up to its width,
/// and never cut.
pub proof fn columns_are_filled(t: Seq<char>, width: nat)
    ensures
        right(t, width).len() == if t.len() < width {
            width
        } else {
            t.len()
        },
        right(t, width).skip(right(t, width).len() - t.len()) == t,
        forall|i: int|
            0 <= i < right(t, width).len() - t.len() ==> #[trigger] right(t, width)[i] == ' ',
{
    let r = right(t, width);
    assert(r.skip(r.len() - t.len()) =~= t);
}

proof fn a_column_reads(v: int, den: int, p: nat, width: nat)
    requires
        den >= 1,
        p == 1 || p == 4,
    ensures
        p == 1 ==> column(right(signed_ratio_text(v, den as nat, p), width), width, v, den, 1, 10),
        p == 4 ==> column(
            right(signed_ratio_text(v, den as nat, p), width),
            width,
            v,
            den,
            4,
            10_000,
        ),
{
    let s = signed_ratio_text(v, den as nat, p);
    if v >= 0 {
        ratios_read(v, den, p);
    } else {
        ratios_read(-v, den, p);
        assert(s.skip(1) =~= signed_ratio_text(-v, den as nat, p));
        assert(s[0] == '-');
    }
    let t = right(s, width);
    assert(p == 1 ==> column(t, width, v, den, 1, 10));
    assert(p == 4 ==> column(t, width, v, den, 4, 10_000));
}

/// Whether a line says the number of a frame, its peak, where that is, its
/// median, and how far the peak is above that.
pub open spec fn says_reading(t: Seq<char>, n: int, r: Reading) -> bool {
    exists|a: Seq<char>, b: Seq<char>, c: Seq<char>, d: Seq<char>, e: Seq<char>|
        t == "frame "@ + right(a, 3) + "  peak "@ + b + " dBFS at "@ + c + " MHz  floor "@ + d
            + "  peak-floor "@ + e + " dB"@ && #[trigger] value(a) == n && decimal(a)
            && #[trigger] column(b, 6, r.peak@, 1_000_000, 1, 10) && #[trigger] column(
            c,
            9,
            r.hz as int,
            1_000_000_000_000,
            4,
            10_000,
        ) && #[trigger] column(d, 6, r.median@, 1_000_000, 1, 10) && #[trigger] column(
            e,
            5,
            r.peak@ - r.median@,
            1_000_000,
            1,
            10,
        )
}

/// What was read off a frame is read back from its line: decibels to a tenth, the
/// frequency in megahertz to four places.
pub proof fn readings_are_read_back(n: nat, r: Reading)
    ensures
        exists|t: Seq<char>| t == line_text(n, r) && #[trigger] says_reading(t, n as int, r),
{
    digits_read_back(n);
    a_column_reads(r.peak@, 1_000_000, 1, 6);
    a_column_reads(r.hz as int, 1_000_000_000_000, 4, 9);
    a_column_reads(r.median@, 1_000_000, 1, 6);
    a_column_reads(r.peak@ - r.median@, 1_000_000, 1, 5);
    let a = digits(n);
    let b = right(signed_ratio_text(r.peak@, 1_000_000, 1), 6);
    let c = right(signed_ratio_text(r.hz as int, 1_000_000_000_000, 4), 9);
    let d = right(signed_ratio_text(r.median@, 1_000_000, 1), 6);
    let e = right(signed_ratio_text(r.peak@ - r.median@, 1_000_000, 1), 5);
    assert(value(a) == n);
    assert(column(b, 6, r.peak@, 1_000_000, 1, 10));
    assert(column(c, 9, r.hz as int, 1_000_000_000_000, 4, 10_000));
    assert(column(d, 6, r.median@, 1_000_000, 1, 10));
    assert(column(e, 5, r.peak@ - r.median@, 1_000_000, 1, 10));
    assert(says_reading(line_text(n, r), n as int, r));
}

/// Each kind of port has a word of its own.
pub proof fn ports_are_told_apart(k: PortKind)
    ensures
        k == PortKind::Iq <==> kind_text(k) == "iq"@,
        k == PortKind::Real <==> kind_text(k) == "real"@,
        k == PortKind::Bytes <==> kind_text(k) == "bytes"@,
        k == PortKind::Pulses <==> kind_text(k) == "pulses"@,
        k == PortKind::Soft <==> kind_text(k) == "soft"@,
{
    reveal_strlit("iq");
    reveal_strlit("real");
    reveal_strlit("bytes");
    reveal_strlit("pulses");
    reveal_strlit("soft");
    assert("iq"@.len() == 2 && "bytes"@.len() == 5 && "pulses"@.len() == 6);
    assert("real"@.len() == 4 && "soft"@.len() == 4);
    assert("real"@[0] == 'r' && "soft"@[0] == 's');
}

/// Whether a text is the rate of one of so many channels.
pub open spec fn says_rate(t: Seq<char>, rate: int, channels: int) -> bool {
    if rate >= 1_000_000 * 1_000_000 * channels {
        written(t, " MS/s"@, rate, 1_000_000 * 1_000_000 * channels, 3, 1000)
    } else if rate >= 10_000 * 1_000_000 * channels {
        written(t, " kS/s"@, rate, 1000 * 1_000_000 * channels, 1, 10)
    } else {
        written(t, " S/s"@, rate, 1_000_000 * channels, 0, 1)
    }
}

/// A rate is shown for one channel: in millions to three places from one million
/// up, in thousands to one place from ten thousand up, else whole. The number of
/// channels stands behind it where there are several.
pub proof fn rates_are_read_back(rate: int, channels: nat)
    requires
        rate >= 0,
        channels >= 1,
    ensures
        channels == 1 ==> says_rate(rate_text(rate, channels), rate, 1),
        channels > 1 ==> exists|t: Seq<char>, c: Seq<char>|
            rate_text(rate, channels) == t + " x"@ + c && #[trigger] says_rate(
                t,
                rate,
                channels as int,
            ) && #[trigger] value(c) == channels,
{
    let n = channels as int;
    ratios_read(rate, 1_000_000 * 1_000_000 * n, 3);
    ratios_read(rate, 1000 * 1_000_000 * n, 1);
    ratios_read(rate, 1_000_000 * n, 0);
    digits_read_back(channels);
    assert((1_000_000 * 1_000_000 * n) as nat == 1_000_000_000_000 * channels);
    assert((1000 * 1_000_000 * n) as nat == 1_000_000_000 * channels);
    assert((1_000_000 * n) as nat == 1_000_000 * channels);
    let base = if rate >= 1_000_000_000_000 * channels {
        signed_ratio_text(rate, 1_000_000_000_000 * channels, 3) + " MS/s"@
    } else if rate >= 10_000_000_000 * channels {
        signed_ratio_text(rate, 1_000_000_000 * channels, 1) + " kS/s"@
    } else {
        signed_ratio_text(rate, 1_000_000 * channels, 0) + " S/s"@
    };
    assert(says_rate(base, rate, n));
    if channels > 1 {
        assert(rate_text(rate, channels) =~= base + " x"@ + digits(channels));
        assert(value(digits(channels)) == channels);
    }
}

proof fn branches_in_order(outputs: Seq<StreamSpec>, y: int, n: nat)
    ensures
        branches(outputs, y, n).len() == if n == 0 {
            0
        } else {
            n - 1
        },
        forall|k: int|
            1 <= k < n ==> #[trigger] branches(outputs, y, n)[k - 1] == (MarkView::Branch {
                y,
                label: "out "@ + digits(k as nat),
                carries: kind_text(outputs[k].kind),
            }),
    decreases n,
{
    if n > 1 {
        branches_in_order(outputs, y, (n - 1) as nat);
        let (b, c) = (branches(outputs, y, (n - 1) as nat), branches(outputs, y, n));
        assert forall|k: int| 1 <= k < n implies #[trigger] c[k - 1] == (MarkView::Branch {
            y,
            label: "out "@ + digits(k as nat),
            carries: kind_text(outputs[k].kind),
        }) by {
            if k < n - 1 {
                assert(c[k - 1] == b[k - 1]);
            }
        }
    }
}

/// A stage is a box eighty points below the one before. An arrow that says what
/// its first output carries goes from its foot to the head of the next box, or
/// the last stage says what leaves. Each further output is a branch beside it.
pub proof fn a_stage_is_drawn_below_the_one_before(nodes: Seq<ChainNode>, i: int, k: int)
    requires
        0 <= i < nodes.len(),
    ensures
        ({
            let m = stage_marks(nodes, i);
            let n = nodes[i];
            let head = 92 + 80 * i;
            let outs = n.outputs@.len();
            &&& m.len() == 1 + outs
            &&& m[0] == (MarkView::Stage { y: head, label: n.label@, kind: n.kind@, source: false })
            &&& outs > 0 && i + 1 < nodes.len() ==> m[1] == (MarkView::Edge {
                from: head + 46,
                to: 92 + 80 * (i + 1),
                text: link_text(n.outputs@[0]),
            })
            &&& outs > 0 && i + 1 == nodes.len() ==> m[1] == (MarkView::Out {
                y: head + 56,
                text: "out  "@ + link_text(n.outputs@[0]),
            })
            &&& 1 <= k < outs ==> m[1 + k] == (MarkView::Branch {
                y: head,
                label: "out "@ + digits(k as nat),
                carries: kind_text(n.outputs@[k].kind),
            })
        }),
{
    let n = nodes[i];
    let head = 92 + 80 * i;
    branches_in_order(n.outputs@, head, n.outputs@.len());
    if 1 <= k < n.outputs@.len() {
        assert(stage_marks(nodes, i)[1 + k] == branches(n.outputs@, head, n.outputs@.len())[k - 1]);
    }
}

/// How many marks the first stages take.
pub open spec fn marks_before(nodes: Seq<ChainNode>, n: int) -> int
    decreases n,
{
    if n <= 0 {
        3
    } else {
        marks_before(nodes, n - 1) + 1 + nodes[n - 1].outputs@.len()
    }
}

proof fn stages_are_in_order(nodes: Seq<ChainNode>, n: nat, i: int, k: int)
    requires
        n <= nodes.len(),
        0 <= i < n,
        0 <= k <= nodes[i].outputs@.len(),
    ensures
        stages_marks(nodes, n).len() == marks_before(nodes, n as int) - 3,
        3 <= marks_before(nodes, i),
        marks_before(nodes, i) + k < marks_before(nodes, n as int),
        stages_marks(nodes, n)[marks_before(nodes, i) - 3 + k] == stage_marks(nodes, i)[k],
    decreases n,
{
    let m = (n - 1) as nat;
    a_stage_is_drawn_below_the_one_before(nodes, n - 1, 0);
    a_stage_is_drawn_below_the_one_before(nodes, i, 0);
    if i < m {
        stages_are_in_order(nodes, m, i, k);
    } else if m > 0 {
        stages_are_in_order(nodes, m, m - 1, 0);
    } else {
        assert(stages_marks(nodes, 0).len() == 0);
    }
}

/// The picture begins with the number of stages and the delay, the source and
/// what it gives, and then holds all that is drawn for each stage in turn.
pub proof fn the_picture_holds_every_stage(
    input: StreamSpec,
    nodes: Seq<ChainNode>,
    latency_ms: int,
    i: int,
    k: int,
)
    requires
        0 <= i < nodes.len(),
        0 <= k <= nodes[i].outputs@.len(),
    ensures
        ({
            let p = picture(input, nodes, latency_ms);
            &&& p.len() == marks_before(nodes, nodes.len() as int)
            &&& p[0] == MarkView::Header(header_text(nodes.len(), latency_ms))
            &&& p[1] == (MarkView::Stage {
                y: 12,
                label: "Source"@,
                kind: "device"@,
                source: true,
            })
            &&& p[2] == (MarkView::Edge { from: 58, to: 92, text: link_text(input) })
            &&& p[marks_before(nodes, i) + k] == stage_marks(nodes, i)[k]
        }),
{
    stages_are_in_order(nodes, nodes.len(), i, k);
}

/// Above the picture stand the number of stages and the delay to a tenth of a
/// millisecond.
pub proof fn the_header_is_read_back(stages: nat, latency_ms: int)
    requires
        latency_ms >= 0,
    ensures
        exists|a: Seq<char>, b: Seq<char>|
            header_text(stages, latency_ms) == a + " stages   "@ + b + " ms through the chain"@
                && #[trigger] value(a) == stages && #[trigger] reads(b, latency_ms, 1_000_000, 1, 10),
{
    digits_read_back(stages);
    ratios_read(latency_ms, 1_000_000, 1);
    assert(value(digits(stages)) == stages);
    assert(reads(signed_ratio_text(latency_ms, 1_000_000, 1), latency_ms, 1_000_000, 1, 10));
}

/// A link is named by what it carries and its rate, two blanks apart.
pub proof fn links_say_what_they_carry(s: StreamSpec)
    ensures
        link_text(s) == kind_text(s.kind) + "  "@ + rate_text(s.rate@, s.channels as nat),
{
}

/// The picture is as high as the source and the stages take.
pub proof fn the_picture_is_high_enough(stages: usize, r: i64)
    requires
        call_ensures(height, (stages,), r),
    ensures
        r == 80 * (stages + 1),
{
}

} // verus!
