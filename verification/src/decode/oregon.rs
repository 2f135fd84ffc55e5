//! Oregon Scientific v3 sensors: THGR810 and its rebrands, THN802.
//!
//! 433.92 MHz, Manchester at 1024 baud. Three things make the family awkward,
//! all of them from the wire format:
//!
//! - The Manchester convention is not fixed, so the sync word is searched for
//!   in both polarities and the payload inverted if it was the second one.
//! - Nibbles arrive reversed within each byte.
//! - Values are BCD, including the temperature.
//!
//! After reflection the frame reads `SSSS CDDB TTTT TT?? HH?? KKKK`: a 16 bit
//! sensor id, a channel and a rolling device id with a battery bit, the
//! temperature in tenths with a sign bit and a hundreds field, the humidity,
//! and the sum of every nibble before it.

use vstd::prelude::*;
use crate::decode::bits::BitBuffer;
#[allow(unused_imports)]
use crate::decode::bits::{
    absent, byte_at, bytes_of, find_spec, first_at, first_is_unique, flipped,
    flipping_twice_is_nothing, occurs_at, pattern_bit,
};
use crate::decode::protocol::{Coding, DecodeError, Protocol, Report, Timing};
#[allow(unused_imports)]
use crate::decode::protocol::{fields_view, verdict_of, ReportView, Value, Verdict};
use crate::fixed::Micro;

verus! {

pub struct OregonV3;

/// Bytes of payload a temperature and humidity frame needs.
pub const MSG_BYTES: usize = 9;

/// Sync word ending the preamble, in the polarity the layout is written in.
pub open spec fn sync() -> Seq<u8> {
    seq![0xff, 0xfa]
}

/// The sync word as it arrives when the slicer locked onto the other half.
pub open spec fn sync_inverted() -> Seq<u8> {
    seq![0x00, 0x05]
}

/// A byte with its nibbles exchanged.
pub open spec fn reflected(b: u8) -> u8 {
    ((b % 16) * 16 + b / 16) as u8
}

/// The nine payload bytes, nibbles in reading order.
pub open spec fn message(frame: Seq<bool>) -> Seq<u8> {
    Seq::new(9, |i: int| reflected(byte_at(frame, i)))
}

/// The sensors whose id is known.
pub open spec fn model_spec(id: int) -> Option<Seq<char>> {
    if id == 0xf824 || id == 0xf024 || id == 0xf224 || id == 0xfa24 {
        Some("Oregon-THGR810"@)
    } else if id == 0xc844 {
        Some("Oregon-THN802"@)
    } else {
        None
    }
}

/// Sum of the two nibbles of each of the first `n` bytes.
pub open spec fn nibbles(m: Seq<u8>, n: nat) -> nat
    decreases n,
{
    if n == 0 {
        0
    } else {
        nibbles(m, (n - 1) as nat) + m[n - 1] as nat / 16 + m[n - 1] as nat % 16
    }
}

/// Sum of the fifteen nibbles before the checksum, cut to eight bits.
pub open spec fn checksum(m: Seq<u8>) -> nat {
    (nibbles(m, 7) + m[7] as nat / 16) % 256
}

/// The checksum that the frame carries.
pub open spec fn stored_sum(m: Seq<u8>) -> nat {
    (m[7] as nat % 16) + 16 * (m[8] as nat / 16)
}

/// Whether the five value digits are decimal.
pub open spec fn is_bcd(m: Seq<u8>) -> bool {
    &&& m[4] % 16 <= 9
    &&& m[4] / 16 <= 9
    &&& m[5] / 16 <= 9
    &&& m[6] % 16 <= 9
    &&& m[6] / 16 <= 9
}

/// Temperature in tenths of a degree.
pub open spec fn tenths(m: Seq<u8>) -> int {
    let t = (m[5] / 16) * 100 + (m[4] % 16) * 10 + (m[4] / 16) + (m[5] % 8) * 1000;
    if (m[5] / 8) % 2 == 1 {
        -t
    } else {
        t as int
    }
}

/// Humidity in percent.
pub open spec fn humidity(m: Seq<u8>) -> int {
    (m[6] % 16) * 10 + m[6] / 16
}

/// The fields of an accepted frame.
pub open spec fn reading(m: Seq<u8>) -> Seq<(Seq<char>, Value)> {
    let base = seq![
        ("id"@, Value::Int((m[2] % 16 + 16 * (m[3] / 16)) as i64)),
        ("channel"@, Value::Int((m[2] / 16) as i64)),
        ("temperature_c"@, Value::Float(Micro((tenths(m) * 100_000) as i64))),
        ("battery_ok"@, Value::Bool((m[3] / 4) % 2 == 0)),
    ];
    if humidity(m) != 0 {
        base.push(("humidity_pct"@, Value::Int(humidity(m) as i64)))
    } else {
        base
    }
}

/// What the payload says.
pub open spec fn message_verdict(m: Seq<u8>) -> Verdict {
    match model_spec(m[0] * 256 + m[1]) {
        None => Verdict::NotThisProtocol,
        Some(model) => if checksum(m) != stored_sum(m) {
            Verdict::CrcFailed
        } else if !is_bcd(m) {
            Verdict::Implausible("value is not BCD"@)
        } else if tenths(m) < -500 || tenths(m) > 700 {
            Verdict::Implausible("temperature out of range"@)
        } else if humidity(m) > 100 {
            Verdict::Implausible("humidity above 100%"@)
        } else {
            Verdict::Reading(
                ReportView { model, crc_valid: Some(true), raw: m, fields: reading(m) },
            )
        },
    }
}

/// What follows a sync word found at `at`.
pub open spec fn framed_verdict(bits: Seq<bool>, at: int, invert: bool) -> Verdict {
    let start = at + 16;
    if start + 72 > bits.len() {
        Verdict::WrongLength {
            got: if bits.len() > start {
                bits.len() - start
            } else {
                0
            },
            want: 72,
        }
    } else {
        let frame = bits.subrange(start, start + 72);
        message_verdict(
            message(
                if invert {
                    flipped(frame)
                } else {
                    frame
                },
            ),
        )
    }
}

/// What the decoder makes of bits.
pub open spec fn oregon_verdict(bits: Seq<bool>) -> Verdict {
    match find_spec(bits, sync(), 16) {
        Some(at) => framed_verdict(bits, at, false),
        None => match find_spec(bits, sync_inverted(), 16) {
            Some(at) => framed_verdict(bits, at, true),
            None => Verdict::NotThisProtocol,
        },
    }
}

/// Known sensor ids. The THGR810 rolled its id several times across rebrands,
/// all differing only in the second nibble.
pub fn model_of(id: u16) -> (r: Option<&'static str>)
    ensures
        match r {
            Some(m) => model_spec(id as int) == Some(m@),
            None => model_spec(id as int) == None::<Seq<char>>,
        },
{
    match id {
        0xf824 | 0xf024 | 0xf224 | 0xfa24 => Some("Oregon-THGR810"),
        0xc844 => Some("Oregon-THN802"),
        _ => None,
    }
}

/// The ids of one model differ only in the second nibble.
pub proof fn ids_of_a_model_share_three_nibbles(a: u16, b: u16)
    requires
        model_spec(a as int) is Some,
        model_spec(a as int) == model_spec(b as int),
    ensures
        (a ^ b) & 0xf0ff == 0,
{
    reveal_strlit("Oregon-THGR810");
    reveal_strlit("Oregon-THN802");
    if a == 0xc844 || b == 0xc844 {
        assert("Oregon-THGR810"@.len() != "Oregon-THN802"@.len());
    }
    assert((a ^ b) & 0xf0ff == 0) by (bit_vector)
        requires
            (a == 0xf824 || a == 0xf024 || a == 0xf224 || a == 0xfa24) && (b == 0xf824 || b
                == 0xf024 || b == 0xf224 || b == 0xfa24) || a == 0xc844 && b == 0xc844,
    ;
}

/// Sum of the fifteen nibbles before the checksum, truncated to eight bits.
pub fn nibble_sum(msg: &[u8]) -> (r: u8)
    requires
        msg@.len() >= 8,
    ensures
        r == checksum(msg@),
{
    let mut whole: u16 = 0;
    let mut i: usize = 0;
    while i < 7
        invariant
            i <= 7,
            msg@.len() >= 8,
            whole == nibbles(msg@, i as nat),
            whole <= 30 * i,
        decreases 7 - i,
    {
        whole = whole + (msg[i] / 16) as u16 + (msg[i] % 16) as u16;
        i += 1;
    }
    ((whole + (msg[7] / 16) as u16) % 256) as u8
}

impl Protocol for OregonV3 {
    fn name(&self) -> (r: &'static str)
        ensures
            r@ == "Oregon-v3"@,
    {
        "Oregon-v3"
    }

    fn timing(&self) -> (r: Timing)
        ensures
            r == (Timing {
                coding: Coding::Manchester,
                short_us: 488,
                long_us: 976,
                sync_us: 0,
                tolerance_us: 0,
                reset_us: 2400,
            }),
    {
        Timing {
            coding: Coding::Manchester,
            // Half a symbol at 1024 baud. Pulses run shorter than pauses on
            // these sensors, which the slicer's rounding absorbs.
            short_us: 488,
            long_us: 976,
            sync_us: 0,
            tolerance_us: 0,
            reset_us: 2400,
        }
    }

    fn decode(&self, bits: &BitBuffer) -> (r: Result<Report, DecodeError>)
        ensures
            verdict_of(r) == oregon_verdict(bits@),
    {
        let plain: [u8; 2] = [0xff, 0xfa];
        let other: [u8; 2] = [0x00, 0x05];
        assert(plain@ =~= sync());
        assert(other@ =~= sync_inverted());
        let (at, invert): (usize, bool) = match bits.find(&plain, 16) {
            Some(a) => (a, false),
            None => match bits.find(&other, 16) {
                Some(a) => (a, true),
                None => return Err(DecodeError::NotThisProtocol),
            },
        };
        let len: usize = bits.len();
        let start: usize = at + 16;
        if len - start < MSG_BYTES * 8 {
            return Err(DecodeError::WrongLength { got: len - start, want: MSG_BYTES * 8 });
        }
        let frame: BitBuffer = bits.slice(start, MSG_BYTES * 8);
        let frame: BitBuffer = if invert {
            frame.inverted()
        } else {
            frame
        };
        let packed: Vec<u8> = frame.as_bytes();
        let mut msg: Vec<u8> = Vec::new();
        let mut i: usize = 0;
        while i < MSG_BYTES
            invariant
                i <= 9,
                packed@ == bytes_of(frame@),
                frame@.len() == 72,
                msg@.len() == i,
                forall|k: int| 0 <= k < i ==> msg@[k] == reflected(byte_at(frame@, k)),
            decreases 9 - i,
        {
            let b: u8 = packed[i];
            msg.push((b % 16) * 16 + b / 16);
            i += 1;
        }
        assert(msg@ =~= message(frame@));
        read_message(msg)
    }
}

/// Reads the nine payload bytes.
fn read_message(msg: Vec<u8>) -> (r: Result<Report, DecodeError>)
    requires
        msg@.len() == 9,
    ensures
        verdict_of(r) == message_verdict(msg@),
{
    let model: &'static str = match model_of(msg[0] as u16 * 256 + msg[1] as u16) {
        Some(m) => m,
        None => return Err(DecodeError::NotThisProtocol),
    };
    let stored: u8 = msg[7] % 16 + 16 * (msg[8] / 16);
    if nibble_sum(msg.as_slice()) != stored {
        return Err(DecodeError::CrcFailed);
    }
    // Every value in the frame is BCD, so a nibble above nine is a frame that
    // passed an eight bit checksum by luck.

    if msg[4] % 16 > 9 || msg[4] / 16 > 9 || msg[5] / 16 > 9 || msg[6] % 16 > 9 || msg[6] / 16 > 9 {
        return Err(DecodeError::Implausible("value is not BCD"));
    }
    let size: i64 = (msg[5] / 16) as i64 * 100 + (msg[4] % 16) as i64 * 10 + (msg[4] / 16) as i64
        + (msg[5] % 8) as i64 * 1000;
    let t: i64 = if (msg[5] / 8) % 2 == 1 {
        -size
    } else {
        size
    };
    if t < -500 || t > 700 {
        return Err(DecodeError::Implausible("temperature out of range"));
    }
    let hum: u8 = (msg[6] % 16) * 10 + msg[6] / 16;
    if hum > 100 {
        return Err(DecodeError::Implausible("humidity above 100%"));
    }
    let ghost m = msg@;
    let id: u8 = msg[2] % 16 + 16 * (msg[3] / 16);
    let channel: u8 = msg[2] / 16;
    let battery: bool = (msg[3] / 4) % 2 == 0;
    let mut rep: Report = Report::new(model);
    rep.crc_valid = Some(true);
    rep.raw = msg;
    let rep: Report = rep.with_int("id", id as i64).with_int("channel", channel as i64).with_float(
        "temperature_c",
        Micro(t * 100_000),
    ).with_bool("battery_ok", battery);
    // The THN802 has no humidity element and sends zero for it.
    let rep: Report = if hum != 0 {
        rep.with_int("humidity_pct", hum as i64)
    } else {
        rep
    };
    assert(rep@.fields =~= reading(m));
    Ok(rep)
}

proof fn sync_words_are_opposite(i: int)
    requires
        0 <= i < 16,
    ensures
        pattern_bit(sync_inverted(), i) == !pattern_bit(sync(), i),
{
    assert(i == 0 || i == 1 || i == 2 || i == 3 || i == 4 || i == 5 || i == 6 || i == 7 || i == 8
        || i == 9 || i == 10 || i == 11 || i == 12 || i == 13 || i == 14 || i == 15);
}

proof fn opposite_sync_stands_where_sync_stood(b: Seq<bool>, at: int)
    ensures
        occurs_at(flipped(b), sync_inverted(), 16, at) == occurs_at(b, sync(), 16, at),
        occurs_at(flipped(b), sync(), 16, at) == occurs_at(b, sync_inverted(), 16, at),
{
    let f = flipped(b);
    if 0 <= at && at + 16 <= b.len() {
        assert forall|i: int| 0 <= i < 16 implies f[at + i] == !b[at + i] && pattern_bit(
            sync_inverted(),
            i,
        ) == !#[trigger] pattern_bit(sync(), i) by {
            sync_words_are_opposite(i);
        }
        if occurs_at(b, sync(), 16, at) {
            assert forall|i: int| 0 <= i < 16 implies f[at + i] == #[trigger] pattern_bit(
                sync_inverted(),
                i,
            ) by {
                assert(b[at + i] == pattern_bit(sync(), i));
            }
        }
        if occurs_at(f, sync_inverted(), 16, at) {
            assert forall|i: int| 0 <= i < 16 implies b[at + i] == #[trigger] pattern_bit(
                sync(),
                i,
            ) by {
                assert(f[at + i] == pattern_bit(sync_inverted(), i));
            }
        }
        if occurs_at(b, sync_inverted(), 16, at) {
            assert forall|i: int| 0 <= i < 16 implies f[at + i] == #[trigger] pattern_bit(
                sync(),
                i,
            ) by {
                assert(b[at + i] == pattern_bit(sync_inverted(), i));
            }
        }
        if occurs_at(f, sync(), 16, at) {
            assert forall|i: int| 0 <= i < 16 implies b[at + i] == #[trigger] pattern_bit(
                sync_inverted(),
                i,
            ) by {
                assert(f[at + i] == pattern_bit(sync(), i));
            }
        }
    }
}

proof fn opposite_sync_is_found_where_sync_was(b: Seq<bool>)
    ensures
        find_spec(flipped(b), sync_inverted(), 16) == find_spec(b, sync(), 16),
        find_spec(flipped(b), sync(), 16) == find_spec(b, sync_inverted(), 16),
{
    let f = flipped(b);
    assert forall|at: int|
        #![trigger occurs_at(f, sync_inverted(), 16, at)]
        #![trigger occurs_at(b, sync(), 16, at)]
        #![trigger occurs_at(f, sync(), 16, at)]
        #![trigger occurs_at(b, sync_inverted(), 16, at)]
        occurs_at(f, sync_inverted(), 16, at) == occurs_at(b, sync(), 16, at) && occurs_at(
            f,
            sync(),
            16,
            at,
        ) == occurs_at(b, sync_inverted(), 16, at) by {
        opposite_sync_stands_where_sync_stood(b, at);
    }
    same_places_same_find(b, sync(), f, sync_inverted());
    same_places_same_find(b, sync_inverted(), f, sync());
}

/// There is a first place wherever there is one at all.
proof fn somewhere_means_first(b: Seq<bool>, p: Seq<u8>, at: int)
    requires
        occurs_at(b, p, 16, at),
    ensures
        exists|w: int| first_at(b, p, 16, w),
    decreases at,
{
    if exists|k: int| 0 <= k < at && #[trigger] occurs_at(b, p, 16, k) {
        let k = choose|k: int| 0 <= k < at && #[trigger] occurs_at(b, p, 16, k);
        somewhere_means_first(b, p, k);
    } else {
        assert(first_at(b, p, 16, at));
    }
}

proof fn same_places_same_find(b: Seq<bool>, p: Seq<u8>, c: Seq<bool>, q: Seq<u8>)
    requires
        forall|at: int|
            #![trigger occurs_at(b, p, 16, at)]
            #![trigger occurs_at(c, q, 16, at)]
            occurs_at(b, p, 16, at) == occurs_at(c, q, 16, at),
    ensures
        find_spec(b, p, 16) == find_spec(c, q, 16),
{
    if !absent(b, p, 16) {
        let at = choose|at: int| #[trigger] occurs_at(b, p, 16, at);
        somewhere_means_first(b, p, at);
        let w = choose|w: int| first_at(b, p, 16, w);
        assert(first_at(c, q, 16, w));
        first_is_unique(b, p, 16, w);
        first_is_unique(c, q, 16, w);
    } else {
        assert(absent(c, q, 16));
    }
}

proof fn framing_ignores_polarity(b: Seq<bool>, at: int, invert: bool)
    requires
        0 <= at,
    ensures
        framed_verdict(flipped(b), at, !invert) == framed_verdict(b, at, invert),
{
    let start = at + 16;
    if start + 72 <= b.len() {
        let frame = b.subrange(start, start + 72);
        assert(flipped(b).subrange(start, start + 72) =~= flipped(frame));
        flipping_twice_is_nothing(frame);
    }
}

/// Which half of the symbol carries the bit does not matter: bits received in
/// the other polarity decode the same. Bits that hold the sync word in both
/// polarities are left out, since there the upright one is taken first.
pub proof fn polarity_does_not_matter(bits: Seq<bool>)
    requires
        absent(bits, sync(), 16) || absent(bits, sync_inverted(), 16),
    ensures
        oregon_verdict(flipped(bits)) == oregon_verdict(bits),
{
    opposite_sync_is_found_where_sync_was(bits);
    match find_spec(bits, sync(), 16) {
        Some(at) => {
            let k = choose|k: int| #[trigger] occurs_at(bits, sync(), 16, k);
            somewhere_means_first(bits, sync(), k);
            framing_ignores_polarity(bits, at, false);
        },
        None => match find_spec(bits, sync_inverted(), 16) {
            Some(at) => {
                let k = choose|k: int| #[trigger] occurs_at(bits, sync_inverted(), 16, k);
                somewhere_means_first(bits, sync_inverted(), k);
                framing_ignores_polarity(bits, at, true);
            },
            None => {},
        },
    }
}

/// A frame is accepted only where the sensor id is a known one, the checksum
/// agrees, the digits are digits and the values are plausible.
pub proof fn accepted_frames_are_checked(bits: Seq<bool>, r: ReportView)
    requires
        oregon_verdict(bits) == Verdict::Reading(r),
    ensures
        r.raw.len() == 9,
        model_spec(r.raw[0] * 256 + r.raw[1]) == Some(r.model),
        checksum(r.raw) == stored_sum(r.raw),
        is_bcd(r.raw),
        -500 <= tenths(r.raw) <= 700,
        0 <= humidity(r.raw) <= 100,
        r.crc_valid == Some(true),
{
}

} // verus!
