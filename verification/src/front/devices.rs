//! Listing radios across drivers and the sample rates worth offering.

use vstd::prelude::*;
use crate::common::{DriverKind, Error, Sps};
#[allow(unused_imports)]
use crate::common::driver_text;
use crate::text::{push_nat, push_ratio, same};
#[allow(unused_imports)]
use crate::text::{digits, ratio_text};

verus! {

/// A radio that can be picked.
#[derive(Debug, PartialEq, Eq)]
pub struct Entry {
    pub kind: DriverKind,
    /// Position within that driver's own enumeration.
    pub index: usize,
    pub label: String,
}

/// A radio as mathematical values.
pub struct EntryView {
    pub kind: DriverKind,
    pub index: nat,
    pub label: Seq<char>,
}

impl View for Entry {
    type V = EntryView;

    open spec fn view(&self) -> EntryView {
        EntryView { kind: self.kind, index: self.index as nat, label: self.label@ }
    }
}

impl Entry {
    /// Whether two entries are the same radio: driver, position and label.
    pub fn is(&self, other: &Entry) -> (r: bool)
        ensures
            r == (self@ == other@),
    {
        self.kind == other.kind && self.index == other.index && same(
            self.label.as_str(),
            other.label.as_str(),
        )
    }
}

impl Clone for Entry {
    fn clone(&self) -> (r: Entry)
        ensures
            r@ == self@,
    {
        Entry { kind: self.kind, index: self.index, label: self.label.as_str().to_owned() }
    }
}

/// What a driver says of one dongle.
#[derive(Debug)]
pub struct Dongle {
    pub index: u32,
    pub name: String,
    pub product: String,
    pub serial: String,
}

/// Bytes that a character takes.
pub open spec fn char_bytes(c: char) -> nat {
    if (c as int) < 0x80 {
        1
    } else if (c as int) < 0x800 {
        2
    } else if (c as int) < 0x1_0000 {
        3
    } else {
        4
    }
}

/// Bytes that a text takes.
pub open spec fn text_bytes(s: Seq<char>) -> nat
    decreases s.len(),
{
    if s.len() == 0 {
        0
    } else {
        char_bytes(s[0]) + text_bytes(s.drop_first())
    }
}

/// A text without the zeros it starts with.
pub open spec fn without_zeros(s: Seq<char>) -> Seq<char>
    decreases s.len(),
{
    if s.len() > 0 && s[0] == '0' {
        without_zeros(s.drop_first())
    } else {
        s
    }
}

/// The longest end of a text that takes `n` bytes at most.
pub open spec fn end_of(s: Seq<char>, n: nat) -> Seq<char>
    decreases s.len(),
{
    if text_bytes(s) <= n || s.len() == 0 {
        s
    } else {
        end_of(s.drop_first(), n)
    }
}

/// What identifies a unit in its serial number.
pub open spec fn short_spec(s: Seq<char>) -> Seq<char> {
    end_of(without_zeros(s), 8)
}

/// Whether a serial number can be cut eight bytes from its end.
pub open spec fn can_be_cut(s: Seq<char>) -> bool {
    text_bytes(without_zeros(s)) > 8 ==> text_bytes(short_spec(s)) == 8
}

fn width(c: char) -> (r: u128)
    ensures
        r == char_bytes(c),
{
    let v: u32 = c as u32;
    if v < 0x80 {
        1
    } else if v < 0x800 {
        2
    } else if v < 0x1_0000 {
        3
    } else {
        4
    }
}

proof fn bytes_of_end(s: Seq<char>)
    ensures
        s.len() <= text_bytes(s) <= 4 * s.len(),
    decreases s.len(),
{
    if s.len() > 0 {
        bytes_of_end(s.drop_first());
    }
}

/// Serial tails identify a unit; the leading zeros do not.
pub fn short(s: &str) -> (r: String)
    requires
        can_be_cut(s@),
    ensures
        r@ == short_spec(s@),
{
    let n: usize = s.unicode_len();
    let mut from: usize = 0;
    assert(s@.skip(0) =~= s@);
    while from < n && s.get_char(from) == '0'
        invariant
            n == s@.len(),
            from <= n,
            without_zeros(s@) == without_zeros(s@.skip(from as int)),
        decreases n - from,
    {
        assert(s@.skip(from as int).drop_first() =~= s@.skip(from + 1));
        from += 1;
    }
    let ghost t = s@.skip(from as int);
    assert(without_zeros(t) == t);
    // Bytes from here to the end.
    let mut bytes: u128 = 0;
    let mut i: usize = n;
    assert(s@.skip(n as int) =~= Seq::<char>::empty());
    while i > from
        invariant
            n == s@.len(),
            from <= i <= n,
            bytes == text_bytes(s@.skip(i as int)),
        decreases i,
    {
        proof {
            assert(s@.skip(i - 1).drop_first() =~= s@.skip(i as int));
            bytes_of_end(s@.skip(i as int));
        }
        i -= 1;
        bytes = bytes + width(s.get_char(i));
    }
    let mut k: usize = from;
    while bytes > 8
        invariant
            n == s@.len(),
            from <= k <= n,
            bytes == text_bytes(s@.skip(k as int)),
            end_of(t, 8) == end_of(s@.skip(k as int), 8),
        decreases n - k,
    {
        proof {
            if k == n {
                assert(s@.skip(k as int) =~= Seq::<char>::empty());
            }
            assert(s@.skip(k as int).drop_first() =~= s@.skip(k + 1));
        }
        bytes = bytes - width(s.get_char(k));
        k += 1;
    }
    assert(s@.subrange(k as int, n as int) =~= s@.skip(k as int));
    s.substring_char(k, n).to_owned()
}

/// What a dongle is called: its product, or its name where it has none, and the
/// end of its serial number.
pub open spec fn dongle_label(d: Dongle) -> Seq<char> {
    let name = if d.product@.len() == 0 {
        d.name@
    } else {
        d.product@
    };
    let tail = short_spec(d.serial@);
    if tail.len() == 0 {
        name
    } else {
        name + " "@ + tail
    }
}

/// What is listed: the dongles, then the other radios by their serial numbers.
pub open spec fn listed(dongles: Seq<Dongle>, serials: Seq<String>) -> Seq<EntryView> {
    Seq::new(
        dongles.len() + serials.len(),
        |i: int|
            if i < dongles.len() {
                EntryView {
                    kind: DriverKind::RtlSdr,
                    index: dongles[i].index as nat,
                    label: dongle_label(dongles[i]),
                }
            } else {
                EntryView {
                    kind: DriverKind::HackRf,
                    index: (i - dongles.len()) as nat,
                    label: "HackRF One "@ + short_spec(serials[i - dongles.len()]@),
                }
            },
    )
}

/// The views of entries.
pub open spec fn entries_view(e: Seq<Entry>) -> Seq<EntryView> {
    Seq::new(e.len(), |i: int| e[i]@)
}

/// Every attached radio, dongles first because they are the common case.
pub fn list(dongles: &[Dongle], serials: &[String]) -> (r: Vec<Entry>)
    requires
        forall|i: int| 0 <= i < dongles@.len() ==> can_be_cut((#[trigger] dongles@[i]).serial@),
        forall|i: int| 0 <= i < serials@.len() ==> can_be_cut((#[trigger] serials@[i])@),
    ensures
        entries_view(r@) == listed(dongles@, serials@),
{
    let mut v: Vec<Entry> = Vec::new();
    let n: usize = dongles.len();
    let m: usize = serials.len();
    let ghost all = listed(dongles@, serials@);
    let mut i: usize = 0;
    assert(entries_view(v@) =~= all.take(0));
    while i < n
        invariant
            n == dongles@.len(),
            i <= n,
            all == listed(dongles@, serials@),
            forall|k: int|
                0 <= k < dongles@.len() ==> can_be_cut((#[trigger] dongles@[k]).serial@),
            v@.len() == i,
            entries_view(v@) == all.take(i as int),
        decreases n - i,
    {
        let d: &Dongle = &dongles[i];
        assert(can_be_cut(dongles@[i as int].serial@));
        let tail: String = short(d.serial.as_str());
        let mut label: String = if d.product.as_str().is_empty() {
            d.name.as_str().to_owned()
        } else {
            d.product.as_str().to_owned()
        };
        if !tail.as_str().is_empty() {
            label.append(" ");
            label.append(tail.as_str());
        }
        assert(label@ =~= dongle_label(*d));
        let ghost had = entries_view(v@);
        v.push(Entry { kind: DriverKind::RtlSdr, index: d.index as usize, label });
        i += 1;
        assert(entries_view(v@) =~= had.push(v@[i - 1]@));
        assert(entries_view(v@) =~= all.take(i as int));
    }
    let mut j: usize = 0;
    while j < m
        invariant
            n == dongles@.len(),
            m == serials@.len(),
            j <= m,
            all == listed(dongles@, serials@),
            forall|k: int| 0 <= k < serials@.len() ==> can_be_cut((#[trigger] serials@[k])@),
            v@.len() == n + j,
            entries_view(v@) == all.take(n + j),
        decreases m - j,
    {
        assert(can_be_cut(serials@[j as int]@));
        let mut label: String = "HackRF One ".to_owned();
        label.append(short(serials[j].as_str()).as_str());
        let ghost had = entries_view(v@);
        v.push(Entry { kind: DriverKind::HackRf, index: j, label });
        j += 1;
        assert(entries_view(v@) =~= had.push(v@[n + j - 1]@));
        assert(entries_view(v@) =~= all.take(n + j));
    }
    assert(all.take(n + m) =~= all);
    v
}

/// How a radio is opened.
#[derive(Clone, Copy, Debug, PartialEq, Eq, Structural)]
pub enum Opening {
    RtlSdr(u32),
    HackRf(usize),
}

/// How to open a radio, if it can be opened live.
pub fn open(e: &Entry) -> (r: Result<Opening, Error>)
    ensures
        match e.kind {
            DriverKind::RtlSdr => r matches Ok(o) && o == Opening::RtlSdr(e.index as u32),
            DriverKind::HackRf => r matches Ok(o) && o == Opening::HackRf(e.index),
            _ => r matches Err(x) && x@ == driver_text(e.kind) + " cannot be opened live"@,
        },
{
    match e.kind {
        DriverKind::RtlSdr => Ok(Opening::RtlSdr(#[verifier::truncate] (e.index as u32))),
        DriverKind::HackRf => Ok(Opening::HackRf(e.index)),
        other => {
            let mut s: String = other.as_str().to_owned();
            s.append(" cannot be opened live");
            Err(Error::other(s))
        },
    }
}

/// Sample rates that are worth offering.
pub open spec fn candidates() -> Seq<u64> {
    seq![
        250_000u64,
        1_024_000,
        2_048_000,
        2_304_000,
        2_400_000,
        4_000_000,
        8_000_000,
        10_000_000,
        12_500_000,
        16_000_000,
        20_000_000,
    ]
}

/// A rate as it is offered.
pub open spec fn label_text(hz: nat) -> Seq<char> {
    if hz >= 1_000_000 {
        if hz % 1_000_000 == 0 {
            digits(hz / 1_000_000) + "M"@
        } else {
            ratio_text(hz, 1_000_000, 3) + "M"@
        }
    } else {
        ratio_text(hz, 1000, 0) + "k"@
    }
}

/// A rate as it is offered.
pub fn label(hz: u64) -> (r: String)
    ensures
        r@ == label_text(hz as nat),
{
    let mut s: String = String::new();
    if hz >= 1_000_000 {
        if hz % 1_000_000 == 0 {
            push_nat(&mut s, (hz / 1_000_000) as u128);
        } else {
            push_ratio(&mut s, hz as u128, 1_000_000, 3);
        }
        s.append("M");
    } else {
        push_ratio(&mut s, hz as u128, 1000, 0);
        s.append("k");
    }
    assert(s@ =~= label_text(hz as nat));
    s
}

/// The first `n` candidates that lie between two rates.
pub open spec fn offered(lo: int, hi: int, n: nat) -> Seq<u64>
    decreases n,
{
    if n == 0 {
        Seq::empty()
    } else if lo <= candidates()[n - 1] <= hi {
        offered(lo, hi, (n - 1) as nat).push(candidates()[n - 1])
    } else {
        offered(lo, hi, (n - 1) as nat)
    }
}

/// Whether spans are these rates with their labels.
pub open spec fn labelled(spans: Seq<(String, u64)>, rates: Seq<u64>) -> bool {
    &&& spans.len() == rates.len()
    &&& forall|i: int|
        0 <= i < spans.len() ==> (#[trigger] spans[i]).1 == rates[i] && spans[i].0@ == label_text(
            rates[i] as nat,
        )
}

fn candidate_rates() -> (r: Vec<u64>)
    ensures
        r@ == candidates(),
{
    let mut v: Vec<u64> = Vec::new();
    v.push(250_000);
    v.push(1_024_000);
    v.push(2_048_000);
    v.push(2_304_000);
    v.push(2_400_000);
    v.push(4_000_000);
    v.push(8_000_000);
    v.push(10_000_000);
    v.push(12_500_000);
    v.push(16_000_000);
    v.push(20_000_000);
    assert(v@ =~= candidates());
    v
}

/// Sample rates worth offering for a device, within what it supports.
pub fn spans_for(lo: Sps, hi: Sps) -> (r: Vec<(String, u64)>)
    ensures
        labelled(r@, offered(lo.0 as int, hi.0 as int, 11)),
{
    let all: Vec<u64> = candidate_rates();
    let mut v: Vec<(String, u64)> = Vec::new();
    let mut i: usize = 0;
    while i < 11
        invariant
            all@ == candidates(),
            i <= 11,
            labelled(v@, offered(lo.0 as int, hi.0 as int, i as nat)),
        decreases 11 - i,
    {
        let r: u64 = all[i];
        let ghost had = v@;
        if lo.0 <= r && r <= hi.0 {
            v.push((label(r), r));
            assert forall|k: int| 0 <= k < had.len() implies #[trigger] v@[k] == had[k] by {}
        }
        i += 1;
    }
    v
}

/// Rates of a driver, from the least to the greatest.
pub open spec fn rates_of(k: DriverKind) -> (u64, u64) {
    match k {
        DriverKind::HackRf => (2_000_000, 20_000_000),
        _ => (225_000, 2_400_000),
    }
}

/// Rate limits per driver, used before the device is opened.
pub fn device_rates(e: &Entry) -> (r: (Sps, Sps))
    ensures
        (r.0.0, r.1.0) == rates_of(e.kind),
{
    match e.kind {
        DriverKind::HackRf => (Sps(2_000_000), Sps(20_000_000)),
        _ => (Sps(225_000), Sps(2_400_000)),
    }
}

/// Only rates that a device can do are offered.
pub proof fn spans_respect_the_device(lo: int, hi: int, n: nat)
    requires
        n <= 11,
    ensures
        forall|i: int|
            0 <= i < offered(lo, hi, n).len() ==> lo <= #[trigger] offered(lo, hi, n)[i] <= hi,
    decreases n,
{
    if n > 0 {
        spans_respect_the_device(lo, hi, (n - 1) as nat);
        let before = offered(lo, hi, (n - 1) as nat);
        let o = offered(lo, hi, n);
        assert forall|i: int| 0 <= i < o.len() implies lo <= #[trigger] o[i] <= hi by {
            if i < before.len() {
                assert(o[i] == before[i]);
            }
        }
    }
}

/// Every rate worth offering that a device can do is offered.
pub proof fn nothing_is_held_back(lo: int, hi: int, n: nat, k: int)
    requires
        0 <= k < n <= 11,
        lo <= candidates()[k] <= hi,
    ensures
        offered(lo, hi, n).contains(candidates()[k]),
    decreases n,
{
    let c = candidates()[k];
    if k == n - 1 {
        let o = offered(lo, hi, n);
        assert(o[o.len() - 1] == c);
    } else {
        nothing_is_held_back(lo, hi, (n - 1) as nat, k);
        let o = offered(lo, hi, (n - 1) as nat);
        let i = choose|i: int| 0 <= i < o.len() && o[i] == c;
        assert(offered(lo, hi, n)[i] == c);
    }
}

/// Every driver offers at least one rate.
pub proof fn every_driver_offers_a_rate(k: DriverKind)
    ensures
        offered(rates_of(k).0 as int, rates_of(k).1 as int, 11).len() > 0,
{
    nothing_is_held_back(rates_of(k).0 as int, rates_of(k).1 as int, 11, 4);
}

} // verus!
