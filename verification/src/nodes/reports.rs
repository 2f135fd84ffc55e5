//! What is reported of packages.

use vstd::prelude::*;
use crate::common::Hz;
use crate::decode::bits::BitBuffer;
#[allow(unused_imports)]
use crate::decode::protocol::{
    family_name, family_verdict, report_text, Family, ReportView, Verdict,
};
use crate::dsp::pulse::Package;
#[allow(unused_imports)]
use crate::fixed::times_are_right;
#[allow(unused_imports)]
use crate::nodes::decode_nodes::{burst_tag, decoded_event, tried, try_next, Reporting, Tried};
#[allow(unused_imports)]
use crate::pipeline::event::EventView;
#[allow(unused_imports)]
use crate::pipeline::port::TagValue;

verus! {

/// What the first `n` protocols make of a package.
pub open spec fn verdicts(families: Seq<Family>, sliced: Seq<BitBuffer>, n: nat) -> Seq<Verdict> {
    Seq::new(n, |i: int| family_verdict(families[i], sliced[i]@))
}

/// The frames that are claimed, one after the other.
pub open spec fn frames_claimed(v: Seq<Verdict>) -> Seq<u8>
    decreases v.len(),
{
    if v.len() == 0 {
        Seq::empty()
    } else {
        frames_claimed(v.drop_last()) + match v.last() {
            Verdict::Reading(rep) => rep.raw,
            _ => Seq::empty(),
        }
    }
}

/// How many frames are claimed.
pub open spec fn claim_count(v: Seq<Verdict>) -> nat
    decreases v.len(),
{
    if v.len() == 0 {
        0
    } else {
        claim_count(v.drop_last()) + if v.last() is Reading {
            1nat
        } else {
            0
        }
    }
}

/// How many checks failed.
pub open spec fn failure_count(v: Seq<Verdict>) -> nat
    decreases v.len(),
{
    if v.len() == 0 {
        0
    } else {
        failure_count(v.drop_last()) + if v.last() is CrcFailed {
            1nat
        } else {
            0
        }
    }
}

/// How many events say that something was decoded.
pub open spec fn decoded_count(e: Seq<EventView>) -> nat
    decreases e.len(),
{
    if e.len() == 0 {
        0
    } else {
        decoded_count(e.drop_last()) + if e.last() is Decoded {
            1nat
        } else {
            0
        }
    }
}

/// Where everything is to be reported, every protocol that claims a package is
/// reported and its frame given, in the order of the protocols; and every failed
/// check is warned of, if that is asked for, and not if it is not.
pub proof fn every_claim_is_reported(
    families: Seq<Family>,
    sliced: Seq<BitBuffer>,
    n: nat,
    p: Package,
    center: Hz,
    r: Reporting,
)
    requires
        r.all,
    ensures
        ({
            let t = tried(families, sliced, n, p, center, r);
            let v = verdicts(families, sliced, n);
            &&& t.bytes == frames_claimed(v)
            &&& decoded_count(t.events) == claim_count(v)
            &&& t.events.len() == claim_count(v) + if r.crc_failures {
                failure_count(v)
            } else {
                0
            }
            &&& t.matched == (claim_count(v) > 0)
            &&& !t.stopped
        }),
    decreases n,
{
    let v = verdicts(families, sliced, n);
    if n == 0 {
        assert(v =~= Seq::empty());
    } else {
        let m = (n - 1) as nat;
        every_claim_is_reported(families, sliced, m, p, center, r);
        assert(v.drop_last() =~= verdicts(families, sliced, m));
        let before = tried(families, sliced, m, p, center, r);
        let now = tried(families, sliced, n, p, center, r);
        if now.events.len() > before.events.len() {
            assert(now.events.drop_last() =~= before.events);
        }
        assert(now.bytes =~= frames_claimed(v));
    }
}

/// Where one is enough, the first protocol that claims a package is reported and
/// no protocol behind it is heard.
pub proof fn the_first_claim_is_enough(
    families: Seq<Family>,
    sliced: Seq<BitBuffer>,
    n: nat,
    p: Package,
    center: Hz,
    r: Reporting,
    k: int,
)
    requires
        !r.all,
        0 <= k < n,
        family_verdict(families[k], sliced[k]@) is Reading,
        forall|i: int|
            0 <= i < k ==> !(family_verdict(#[trigger] families[i], sliced[i]@) is Reading),
    ensures
        ({
            let t = tried(families, sliced, n, p, center, r);
            let rep = family_verdict(families[k], sliced[k]@)->Reading_0;
            &&& t.bytes == rep.raw
            &&& decoded_count(t.events) == 1
            &&& t.events.last() == decoded_event(rep, p, center)
            &&& t.matched && t.stopped
        }),
    decreases n,
{
    let m = (n - 1) as nat;
    let before = tried(families, sliced, m, p, center, r);
    if k < m {
        the_first_claim_is_enough(families, sliced, m, p, center, r, k);
    } else {
        no_claim_says_nothing(families, sliced, m, p, center, r);
        let rep = family_verdict(families[k], sliced[k]@)->Reading_0;
        a_claim_is_taken(before, family_name(families[k]), rep, p, center, r);
    }
}

proof fn a_claim_is_taken(
    t: Tried,
    name: Seq<char>,
    rep: ReportView,
    p: Package,
    center: Hz,
    r: Reporting,
)
    requires
        !t.stopped,
        t.bytes == Seq::<u8>::empty(),
        decoded_count(t.events) == 0,
    ensures
        ({
            let now = try_next(t, name, Verdict::Reading(rep), p, center, r);
            &&& now.bytes == rep.raw
            &&& decoded_count(now.events) == 1
            &&& now.events.last() == decoded_event(rep, p, center)
            &&& now.matched
            &&& now.stopped == !r.all
        }),
{
    let now = try_next(t, name, Verdict::Reading(rep), p, center, r);
    assert(now.events.drop_last() =~= t.events);
    assert(now.bytes =~= rep.raw);
}

proof fn no_claim_says_nothing(
    families: Seq<Family>,
    sliced: Seq<BitBuffer>,
    n: nat,
    p: Package,
    center: Hz,
    r: Reporting,
)
    requires
        forall|i: int|
            0 <= i < n ==> !(family_verdict(#[trigger] families[i], sliced[i]@) is Reading),
    ensures
        ({
            let t = tried(families, sliced, n, p, center, r);
            t.bytes == Seq::<u8>::empty() && decoded_count(t.events) == 0 && !t.matched
                && !t.stopped
        }),
    decreases n,
{
    if n > 0 {
        let m = (n - 1) as nat;
        no_claim_says_nothing(families, sliced, m, p, center, r);
        let before = tried(families, sliced, m, p, center, r);
        let now = tried(families, sliced, n, p, center, r);
        assert(!(family_verdict(families[n - 1], sliced[n - 1]@) is Reading));
        if now.events.len() > before.events.len() {
            assert(now.events.drop_last() =~= before.events);
        }
    }
}

/// What is said of a decoded frame is what was decoded: the model, the frame as
/// it came, whether its check passed, where it was heard, and when its burst
/// began, to the nearest millionth of a second.
pub proof fn events_say_what_was_decoded(rep: ReportView, p: Package, center: Hz)
    ensures
        decoded_event(rep, p, center) matches EventView::Decoded {
            protocol,
            center: c,
            at,
            payload,
            text,
            crc_ok,
        } && protocol == rep.model && c == center.0 && payload == rep.raw && crc_ok
            == rep.crc_valid && text == Some(report_text(rep)) && (p.rate@ > 0 ==> -p.rate@ <= 2 * (
        p.rate@ * at) - 2_000_000_000_000 * p.start_sample <= p.rate@),
{
    times_are_right(p.start_sample as nat, p.rate@);
}

/// A burst is marked where it began, with its ratio.
pub proof fn bursts_are_marked_where_they_began(p: Package)
    ensures
        burst_tag(p).index == p.start_sample,
        burst_tag(p).value == TagValue::Float(p.snr_db),
        burst_tag(p).key == "burst"@,
{
}

} // verus!
