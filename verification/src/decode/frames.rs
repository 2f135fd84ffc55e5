//! Frames as a sensor sends them.
//!
//! The other side of the decoder: a sensor's state is written into a frame here,
//! field by field, and the laws say that reading the frame gives the state back.

use vstd::prelude::*;
#[allow(unused_imports)]
use crate::decode::bits::{
    byte_at, find_spec, first_at, first_is_unique, occurs_at, pattern_bit, weight,
};
#[allow(unused_imports)]
use crate::decode::oregon::{
    checksum, framed_verdict, humidity, is_bcd, message, message_verdict, model_spec, nibbles,
    oregon_verdict, reading, stored_sum, sync, tenths,
};
#[allow(unused_imports)]
use crate::decode::protocol::{ReportView, Value, Verdict};
use crate::fixed::Micro;

verus! {

/// What a sensor says.
pub struct Weather {
    /// Sensor id, sixteen bits.
    pub id: int,
    pub channel: int,
    /// Rolling device id, eight bits.
    pub device: int,
    pub battery_low: bool,
    /// Temperature in tenths of a degree.
    pub tenths: int,
    /// Humidity in percent, nothing where there is no element for it.
    pub humidity: int,
    /// The bits that mean nothing: two and one beside the battery's, and a
    /// nibble on either side of the checksum.
    pub spare: (int, int, int, int),
}

pub open spec fn size(t: int) -> int {
    if t < 0 {
        -t
    } else {
        t
    }
}

/// Whether the fields fit where they are sent.
pub open spec fn fits(w: Weather) -> bool {
    &&& 0 <= w.id < 0x1_0000
    &&& 0 <= w.channel < 16
    &&& 0 <= w.device < 256
    &&& -8000 < w.tenths < 8000
    &&& 0 <= w.humidity <= 99
    &&& 0 <= w.spare.0 < 4
    &&& 0 <= w.spare.1 < 2
    &&& 0 <= w.spare.2 < 16
    &&& 0 <= w.spare.3 < 16
}

/// The nibbles that a sensor sends ahead of the checksum, in reading order. Ones
/// come before tens and tens before hundreds.
pub open spec fn sent_nibbles(w: Weather) -> Seq<int> {
    let t = size(w.tenths);
    seq![
        w.id / 4096,
        w.id / 256 % 16,
        w.id / 16 % 16,
        w.id % 16,
        w.channel,
        w.device % 16,
        w.device / 16,
        8 * w.spare.1 + if w.battery_low {
            4int
        } else {
            0
        } + w.spare.0,
        t % 10,
        t / 10 % 10,
        t / 100 % 10,
        t / 1000 + if w.tenths < 0 {
            8int
        } else {
            0
        },
        w.humidity % 10,
        w.humidity / 10,
        w.spare.2,
    ]
}

/// The sum of numbers.
pub open spec fn sum(s: Seq<int>) -> int
    decreases s.len(),
{
    if s.len() == 0 {
        0
    } else {
        sum(s.drop_last()) + s.last()
    }
}

/// A frame of nine bytes, written nibble by nibble: those ahead of the checksum,
/// the two of the checksum with the lower first, and one that means nothing.
pub open spec fn sent(w: Weather) -> Seq<u8> {
    let n = sent_nibbles(w) + seq![
        sum(sent_nibbles(w)) % 16,
        sum(sent_nibbles(w)) / 16 % 16,
        w.spare.3,
    ];
    Seq::new(9, |i: int| (16 * n[2 * i] + n[2 * i + 1]) as u8)
}

/// Nibble `i` of a frame, in reading order.
pub open spec fn nibble(m: Seq<u8>, i: int) -> int {
    if i % 2 == 0 {
        m[i / 2] as int / 16
    } else {
        m[i / 2] as int % 16
    }
}

/// The sensors that are known by their id.
pub open spec fn model_sent(id: int) -> Option<Seq<char>> {
    if id / 4096 == 15 && id % 256 == 0x24 && (id / 256 % 16 == 0 || id / 256 % 16 == 2 || id / 256
        % 16 == 8 || id / 256 % 16 == 10) {
        Some("Oregon-THGR810"@)
    } else if id / 256 == 0xc8 && id % 256 == 0x44 {
        Some("Oregon-THN802"@)
    } else {
        None
    }
}

/// What a sensor says, as it is reported.
pub open spec fn said(w: Weather) -> Seq<(Seq<char>, Value)> {
    let all = seq![
        ("id"@, Value::Int(w.device as i64)),
        ("channel"@, Value::Int(w.channel as i64)),
        ("temperature_c"@, Value::Float(Micro((w.tenths * 100_000) as i64))),
        ("battery_ok"@, Value::Bool(!w.battery_low)),
    ];
    if w.humidity == 0 {
        all
    } else {
        all.push(("humidity_pct"@, Value::Int(w.humidity as i64)))
    }
}

proof fn sum_of_fifteen(n: Seq<int>)
    requires
        n.len() == 15,
    ensures
        sum(n) == n[0] + n[1] + n[2] + n[3] + n[4] + n[5] + n[6] + n[7] + n[8] + n[9] + n[10]
            + n[11] + n[12] + n[13] + n[14],
{
    reveal_with_fuel(sum, 16);
}

proof fn sum_is_bounded(n: Seq<int>)
    requires
        forall|i: int| 0 <= i < n.len() ==> 0 <= #[trigger] n[i] < 16,
    ensures
        0 <= sum(n) <= 15 * n.len(),
    decreases n.len(),
{
    if n.len() > 0 {
        assert(0 <= n[n.len() - 1] < 16);
        assert forall|i: int| 0 <= i < n.drop_last().len() implies 0 <= #[trigger] n.drop_last()[i]
            < 16 by {
            assert(n.drop_last()[i] == n[i]);
        }
        sum_is_bounded(n.drop_last());
    }
}

proof fn one_number_changed(n: Seq<int>, at: int, v: int)
    requires
        0 <= at < n.len(),
    ensures
        sum(n.update(at, v)) == sum(n) - n[at] + v,
    decreases n.len(),
{
    let k = n.update(at, v);
    if at == n.len() - 1 {
        assert(k.drop_last() =~= n.drop_last());
    } else {
        assert(k.drop_last() =~= n.drop_last().update(at, v));
        one_number_changed(n.drop_last(), at, v);
    }
}

/// The nibbles ahead of the checksum.
pub open spec fn front(m: Seq<u8>) -> Seq<int> {
    Seq::new(15, |i: int| nibble(m, i))
}

proof fn nibbles_of_a_frame(m: Seq<u8>)
    requires
        m.len() == 9,
    ensures
        checksum(m) == sum(front(m)),
        stored_sum(m) == nibble(m, 15) + 16 * nibble(m, 16),
        0 <= sum(front(m)) <= 225,
{
    let n = front(m);
    sum_of_fifteen(n);
    assert forall|i: int| 0 <= i < n.len() implies 0 <= #[trigger] n[i] < 16 by {}
    sum_is_bounded(n);
    reveal_with_fuel(nibbles, 8);
    assert(n[0] == m[0] as int / 16 && n[1] == m[0] as int % 16);
    assert(n[2] == m[1] as int / 16 && n[3] == m[1] as int % 16);
    assert(n[4] == m[2] as int / 16 && n[5] == m[2] as int % 16);
    assert(n[6] == m[3] as int / 16 && n[7] == m[3] as int % 16);
    assert(n[8] == m[4] as int / 16 && n[9] == m[4] as int % 16);
    assert(n[10] == m[5] as int / 16 && n[11] == m[5] as int % 16);
    assert(n[12] == m[6] as int / 16 && n[13] == m[6] as int % 16);
    assert(n[14] == m[7] as int / 16);
}

proof fn sent_nibbles_fit(w: Weather)
    requires
        fits(w),
    ensures
        sent_nibbles(w).len() == 15,
        forall|i: int| 0 <= i < 15 ==> 0 <= #[trigger] sent_nibbles(w)[i] < 16,
{
    let n = sent_nibbles(w);
    let t = size(w.tenths);
    assert(0 <= w.id / 4096 < 16);
    assert(0 <= t / 1000 < 8);
    assert(0 <= w.humidity / 10 < 10);
    assert forall|i: int| 0 <= i < 15 implies 0 <= #[trigger] n[i] < 16 by {
        assert(i == 0 || i == 1 || i == 2 || i == 3 || i == 4 || i == 5 || i == 6 || i == 7 || i
            == 8 || i == 9 || i == 10 || i == 11 || i == 12 || i == 13 || i == 14);
    }
}

/// All the nibbles of a frame.
spec fn all_nibbles(w: Weather) -> Seq<int> {
    sent_nibbles(w) + seq![
        sum(sent_nibbles(w)) % 16,
        sum(sent_nibbles(w)) / 16 % 16,
        w.spare.3,
    ]
}

proof fn packed(a: int, b: int)
    requires
        0 <= a < 16,
        0 <= b < 16,
    ensures
        ((16 * a + b) as u8) as int == 16 * a + b,
        (16 * a + b) / 16 == a,
        (16 * a + b) % 16 == b,
{
}

proof fn sent_nibble(w: Weather, i: int)
    requires
        fits(w),
        0 <= i < 18,
    ensures
        0 <= all_nibbles(w)[i] < 16,
        nibble(sent(w), i) == all_nibbles(w)[i],
        i < 15 ==> nibble(sent(w), i) == sent_nibbles(w)[i],
{
    let (n, all) = (sent_nibbles(w), all_nibbles(w));
    sent_nibbles_fit(w);
    assert forall|k: int| 0 <= k < 18 implies 0 <= #[trigger] all[k] < 16 by {
        if k < 15 {
            assert(all[k] == n[k]);
        }
    }
    let k = i / 2;
    packed(all[2 * k], all[2 * k + 1]);
    assert(sent(w)[k] == (16 * all[2 * k] + all[2 * k + 1]) as u8);
}

proof fn sent_sum(w: Weather)
    requires
        fits(w),
    ensures
        checksum(sent(w)) == stored_sum(sent(w)),
{
    let m = sent(w);
    assert forall|i: int| 0 <= i < 15 implies front(m)[i] == sent_nibbles(w)[i] by {
        sent_nibble(w, i);
    }
    sent_nibbles_fit(w);
    assert(front(m) =~= sent_nibbles(w));
    nibbles_of_a_frame(m);
    sent_nibble(w, 15);
    sent_nibble(w, 16);
}

proof fn sent_bytes(w: Weather)
    requires
        fits(w),
    ensures
        ({
            let m = sent(w);
            let t = size(w.tenths);
            &&& m[0] == w.id / 256 && m[1] == w.id % 256
            &&& m[2] as int / 16 == w.channel && m[2] as int % 16 == w.device % 16
            &&& m[3] as int / 16 == w.device / 16
            &&& (m[3] as int / 4) % 2 == if w.battery_low {
                1int
            } else {
                0
            }
            &&& m[4] as int / 16 == t % 10 && m[4] as int % 16 == t / 10 % 10
            &&& m[5] as int / 16 == t / 100 % 10 && m[5] as int % 8 == t / 1000
            &&& (m[5] as int / 8) % 2 == if w.tenths < 0 {
                1int
            } else {
                0
            }
            &&& m[6] as int / 16 == w.humidity % 10 && m[6] as int % 16 == w.humidity / 10
        }),
{
    let m = sent(w);
    sent_nibble(w, 0);
    sent_nibble(w, 1);
    sent_nibble(w, 2);
    sent_nibble(w, 3);
    sent_nibble(w, 4);
    sent_nibble(w, 5);
    sent_nibble(w, 6);
    sent_nibble(w, 7);
    sent_nibble(w, 8);
    sent_nibble(w, 9);
    sent_nibble(w, 10);
    sent_nibble(w, 11);
    sent_nibble(w, 12);
    sent_nibble(w, 13);
    let n = sent_nibbles(w);
    halves(m[3] as int);
    halves(m[5] as int);
    assert(m[0] as int / 16 == n[0] && m[0] as int % 16 == n[1]);
    assert(m[1] as int / 16 == n[2] && m[1] as int % 16 == n[3]);
    assert(m[3] as int / 16 == n[6] && m[3] as int % 16 == n[7]);
    assert(m[5] as int / 16 == n[10] && m[5] as int % 16 == n[11]);
}

proof fn halves(x: int)
    requires
        0 <= x < 256,
    ensures
        x / 4 % 2 == x % 16 / 4 % 2,
        x / 8 % 2 == x % 16 / 8,
        x % 8 == x % 16 % 8,
{
}

proof fn decimal(t: int)
    requires
        0 <= t < 8000,
    ensures
        (t / 1000) * 1000 + (t / 100 % 10) * 100 + (t / 10 % 10) * 10 + t % 10 == t,
        0 <= t / 1000 < 8,
        0 <= t / 100 % 10 <= 9,
        0 <= t / 10 % 10 <= 9,
{
    let (a, b, c) = (t / 10, t / 100, t / 1000);
    vstd::arithmetic::div_mod::lemma_div_denominator(t, 10, 10);
    vstd::arithmetic::div_mod::lemma_div_denominator(t, 100, 10);
    assert(b == a / 10 && c == b / 10);
    last_digit(t);
    last_digit(a);
    last_digit(b);
}

proof fn last_digit(t: int)
    ensures
        10 * (t / 10) + t % 10 == t,
        0 <= t % 10 <= 9,
{
}

proof fn models_agree(id: int)
    requires
        0 <= id < 0x1_0000,
    ensures
        model_spec(id) == model_sent(id),
{
}

proof fn sent_values(w: Weather)
    requires
        fits(w),
    ensures
        is_bcd(sent(w)),
        tenths(sent(w)) == w.tenths,
        humidity(sent(w)) == w.humidity,
        reading(sent(w)) == said(w),
{
    let m = sent(w);
    sent_bytes(w);
    decimal(size(w.tenths));
    assert((w.humidity / 10) * 10 + w.humidity % 10 == w.humidity);
    assert(tenths(m) == w.tenths);
    assert(humidity(m) == w.humidity);
    assert((w.device / 16) * 16 + w.device % 16 == w.device);
    assert(reading(m) =~= said(w));
}

/// Reading a frame undoes sending it: whatever a known sensor says, the report
/// has its device, its channel, its temperature, its battery and its humidity.
/// Other sensors are left to other protocols, and a temperature that no weather
/// has is not believed.
pub proof fn reading_undoes_sending(w: Weather)
    requires
        fits(w),
    ensures
        message_verdict(sent(w)) == match model_sent(w.id) {
            None => Verdict::NotThisProtocol,
            Some(model) => if w.tenths < -500 || w.tenths > 700 {
                Verdict::Implausible("temperature out of range"@)
            } else {
                Verdict::Reading(
                    ReportView { model, crc_valid: Some(true), raw: sent(w), fields: said(w) },
                )
            },
        },
{
    sent_sum(w);
    sent_bytes(w);
    sent_values(w);
    models_agree(w.id);
    assert(sent(w)[0] * 256 + sent(w)[1] == w.id);
}

/// One wrong nibble is always noticed, wherever in the frame it stands: nothing
/// is read from a frame that differs in a nibble from one that was sent.
pub proof fn a_wrong_nibble_is_noticed(m: Seq<u8>, k: Seq<u8>, at: int)
    requires
        m.len() == 9,
        k.len() == 9,
        0 <= at < 17,
        message_verdict(m) is Reading,
        nibble(k, at) != nibble(m, at),
        forall|i: int| 0 <= i < 17 && i != at ==> #[trigger] nibble(k, i) == nibble(m, i),
    ensures
        message_verdict(k) == Verdict::NotThisProtocol || message_verdict(k) == Verdict::CrcFailed,
        at >= 4 ==> message_verdict(k) == Verdict::CrcFailed,
{
    nibbles_of_a_frame(m);
    nibbles_of_a_frame(k);
    assert(0 <= nibble(k, at) < 16 && 0 <= nibble(m, at) < 16);
    if at < 15 {
        assert(nibble(k, 15) == nibble(m, 15) && nibble(k, 16) == nibble(m, 16));
        assert(front(k) =~= front(m).update(at, nibble(k, at)));
        one_number_changed(front(m), at, nibble(k, at));
    } else {
        assert(front(k) =~= front(m));
        if at == 15 {
            assert(nibble(k, 16) == nibble(m, 16));
        } else {
            assert(nibble(k, 15) == nibble(m, 15));
        }
    }
    if at >= 4 {
        assert(nibble(k, 0) == nibble(m, 0) && nibble(k, 1) == nibble(m, 1));
        assert(nibble(k, 2) == nibble(m, 2) && nibble(k, 3) == nibble(m, 3));
        assert(k[0] == m[0] && k[1] == m[1]);
    }
}

/// A frame whose digits are not digits is not believed, though its checksum
/// agrees: each of the five must be one.
pub proof fn digits_are_digits(m: Seq<u8>, at: int)
    requires
        m.len() == 9,
        at == 8 || at == 9 || at == 10 || at == 12 || at == 13,
        nibble(m, at) > 9,
        model_sent(m[0] * 256 + m[1]) is Some,
        checksum(m) == stored_sum(m),
    ensures
        message_verdict(m) == Verdict::Implausible("value is not BCD"@),
{
}

/// The bits of a nibble, the highest first.
pub open spec fn nibble_bits(n: int) -> Seq<bool> {
    seq![n / 8 % 2 == 1, n / 4 % 2 == 1, n / 2 % 2 == 1, n % 2 == 1]
}

/// The bits of bytes on the air: of each byte the lower nibble goes first.
pub open spec fn on_air(m: Seq<u8>) -> Seq<bool>
    decreases m.len(),
{
    if m.len() == 0 {
        Seq::empty()
    } else {
        on_air(m.drop_last()) + nibble_bits(m.last() as int % 16) + nibble_bits(
            m.last() as int / 16,
        )
    }
}

/// A preamble of ones and the end of the sync word.
pub open spec fn preamble(ones: nat) -> Seq<bool> {
    Seq::new(ones, |i: int| true) + seq![true, false, true, false]
}

proof fn on_air_byte(m: Seq<u8>, k: int)
    requires
        0 <= k < m.len(),
    ensures
        on_air(m).len() == 8 * m.len(),
        on_air(m).subrange(8 * k, 8 * k + 8) == nibble_bits(m[k] as int % 16) + nibble_bits(
            m[k] as int / 16,
        ),
    decreases m.len(),
{
    let head = m.drop_last();
    if head.len() > 0 {
        on_air_byte(head, if k < head.len() {
            k
        } else {
            0
        });
    } else {
        assert(on_air(head).len() == 0);
    }
    let last = nibble_bits(m.last() as int % 16) + nibble_bits(m.last() as int / 16);
    assert(on_air(m) =~= on_air(head) + last);
    if k < head.len() {
        assert(on_air(m).subrange(8 * k, 8 * k + 8) =~= on_air(head).subrange(8 * k, 8 * k + 8));
    } else {
        assert(on_air(m).subrange(8 * k, 8 * k + 8) =~= last);
    }
}

proof fn four_bits(n: int)
    requires
        0 <= n < 16,
    ensures
        8 * (n / 8 % 2) + 4 * (n / 4 % 2) + 2 * (n / 2 % 2) + n % 2 == n,
{
}

proof fn on_air_byte_is_read(m: Seq<u8>, k: int)
    requires
        m.len() == 9,
        0 <= k < 9,
    ensures
        byte_at(on_air(m), k) == (m[k] as int % 16) * 16 + m[k] as int / 16,
{
    let b = on_air(m);
    on_air_byte(m, k);
    let (lo, hi) = (m[k] as int % 16, m[k] as int / 16);
    let part = nibble_bits(lo) + nibble_bits(hi);
    let s = b.subrange(8 * k, 8 * k + 8);
    assert(s == part);
    assert(s[0] == b[8 * k] && s[1] == b[8 * k + 1] && s[2] == b[8 * k + 2] && s[3] == b[8 * k + 3]
        && s[4] == b[8 * k + 4] && s[5] == b[8 * k + 5] && s[6] == b[8 * k + 6] && s[7] == b[8 * k
        + 7]);
    assert(weight(b, 8 * k) == lo / 8 % 2 && weight(b, 8 * k + 1) == lo / 4 % 2 && weight(
        b,
        8 * k + 2,
    ) == lo / 2 % 2 && weight(b, 8 * k + 3) == lo % 2);
    assert(weight(b, 8 * k + 4) == hi / 8 % 2 && weight(b, 8 * k + 5) == hi / 4 % 2 && weight(
        b,
        8 * k + 6,
    ) == hi / 2 % 2 && weight(b, 8 * k + 7) == hi % 2);
    four_bits(lo);
    four_bits(hi);
}

proof fn on_air_is_read(m: Seq<u8>)
    requires
        m.len() == 9,
    ensures
        on_air(m).len() == 72,
        message(on_air(m)) == m,
{
    let b = on_air(m);
    assert forall|k: int| 0 <= k < 9 implies #[trigger] message(b)[k] == m[k] by {
        on_air_byte_is_read(m, k);
        packed(m[k] as int % 16, m[k] as int / 16);
    }
    on_air_byte(m, 0);
    assert(message(b) =~= m);
}

proof fn sync_bits(i: int)
    requires
        0 <= i < 16,
    ensures
        pattern_bit(sync(), i) == (i != 13 && i != 15),
{
    assert(i == 0 || i == 1 || i == 2 || i == 3 || i == 4 || i == 5 || i == 6 || i == 7 || i == 8
        || i == 9 || i == 10 || i == 11 || i == 12 || i == 13 || i == 14 || i == 15);
}

proof fn sync_ends_the_preamble(ones: nat, rest: Seq<bool>)
    requires
        ones >= 12,
    ensures
        find_spec(preamble(ones) + rest, sync(), 16) == Some(ones - 12),
{
    let b = preamble(ones) + rest;
    let at = ones - 12;
    assert forall|i: int| 0 <= i < 16 implies b[at + i] == #[trigger] pattern_bit(sync(), i) by {
        sync_bits(i);
    }
    assert forall|k: int| 0 <= k < at implies !#[trigger] occurs_at(b, sync(), 16, k) by {
        sync_bits(13);
        assert(b[k + 13]);
        if occurs_at(b, sync(), 16, k) {
            assert(b[k + 13] == pattern_bit(sync(), 13));
        }
    }
    assert(first_at(b, sync(), 16, at));
    first_is_unique(b, sync(), 16, at);
}

proof fn frame_behind_the_preamble(ones: nat, m: Seq<u8>, rest: Seq<bool>)
    requires
        ones >= 12,
        m.len() == 9,
    ensures
        ({
            let b = preamble(ones) + on_air(m) + rest;
            &&& find_spec(b, sync(), 16) == Some(ones - 12)
            &&& ones - 12 + 16 + 72 <= b.len()
            &&& b.subrange(ones - 12 + 16, ones - 12 + 16 + 72) == on_air(m)
        }),
{
    let b = preamble(ones) + on_air(m) + rest;
    assert(b =~= preamble(ones) + (on_air(m) + rest));
    sync_ends_the_preamble(ones, on_air(m) + rest);
    on_air_byte(m, 0);
    assert(preamble(ones).len() == ones + 4);
    assert(b.subrange(ones - 12 + 16, ones - 12 + 16 + 72) =~= on_air(m));
}

/// A frame on the air is found and read: behind a preamble of twelve ones at
/// least, with anything behind it, its bytes give what they say.
pub proof fn frames_on_the_air_are_read(ones: nat, m: Seq<u8>, rest: Seq<bool>)
    requires
        ones >= 12,
        m.len() == 9,
    ensures
        oregon_verdict(preamble(ones) + on_air(m) + rest) == message_verdict(m),
{
    let b = preamble(ones) + on_air(m) + rest;
    let at = ones - 12;
    frame_behind_the_preamble(ones, m, rest);
    on_air_is_read(m);
    assert(oregon_verdict(b) == framed_verdict(b, at, false));
    assert(b.subrange(at + 16, at + 16 + 72) == on_air(m));
}

/// A frame that is cut off is said to be too short, by as much as it is.
pub proof fn cut_frames_are_too_short(ones: nat, got: Seq<bool>)
    requires
        ones >= 12,
        got.len() < 72,
    ensures
        oregon_verdict(preamble(ones) + got) == (Verdict::WrongLength {
            got: got.len() as int,
            want: 72,
        }),
{
    sync_ends_the_preamble(ones, got);
}

} // verus!
