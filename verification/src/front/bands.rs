//! Service allocations.
//!
//! A bare frequency axis tells you where you are but not what you are looking
//! at. Naming the allocation makes the span readable, and the same table picks
//! a sensible demodulator. Frequencies are in millionths of a hertz.

use vstd::prelude::*;
use crate::fixed::Micro;
use crate::front::color::Rgb;
use crate::front::radio::Demod;

verus! {

/// One allocation, from `lo` up to but not including `hi`, both in hertz.
#[derive(Clone, Copy, Debug, PartialEq, Eq)]
pub struct Band {
    pub lo: u64,
    pub hi: u64,
    pub name: &'static str,
    pub demod: Demod,
    pub color: Rgb,
}

/// An allocation as mathematical values.
pub struct BandView {
    pub lo: int,
    pub hi: int,
    pub name: Seq<char>,
    pub demod: Demod,
    pub color: Rgb,
}

impl View for Band {
    type V = BandView;

    open spec fn view(&self) -> BandView {
        BandView {
            lo: self.lo as int,
            hi: self.hi as int,
            name: self.name@,
            demod: self.demod,
            color: self.color,
        }
    }
}

/// The views of bands.
pub open spec fn bands_view(b: Seq<Band>) -> Seq<BandView> {
    Seq::new(b.len(), |i: int| b[i]@)
}

/// Colours of the services.
pub open spec fn broadcast() -> Rgb {
    Rgb { r: 0x4a, g: 0x6f, b: 0x8a }
}

pub open spec fn aero() -> Rgb {
    Rgb { r: 0x8a, g: 0x6b, b: 0x4a }
}

pub open spec fn amateur() -> Rgb {
    Rgb { r: 0x53, g: 0x7a, b: 0x5c }
}

pub open spec fn utility() -> Rgb {
    Rgb { r: 0x6b, g: 0x5a, b: 0x7a }
}

pub open spec fn ism() -> Rgb {
    Rgb { r: 0x8a, g: 0x4a, b: 0x55 }
}

pub open spec fn entry(lo: int, hi: int, name: Seq<char>, demod: Demod, color: Rgb) -> BandView {
    BandView { lo, hi, name, demod, color }
}

/// European allocations, coarse enough to stay readable.
pub open spec fn table() -> Seq<BandView> {
    seq![
        entry(26_965_000, 27_405_000, "CB"@, Demod::Am, utility()),
        entry(28_000_000, 29_700_000, "10 m"@, Demod::Nfm, amateur()),
        entry(50_000_000, 52_000_000, "6 m"@, Demod::Nfm, amateur()),
        entry(76_000_000, 87_500_000, "Band II low"@, Demod::Wfm, broadcast()),
        entry(87_500_000, 108_000_000, "FM broadcast"@, Demod::Wfm, broadcast()),
        entry(108_000_000, 117_975_000, "VOR / ILS"@, Demod::Am, aero()),
        entry(117_975_000, 137_000_000, "Airband"@, Demod::Am, aero()),
        entry(137_000_000, 138_000_000, "Weather sat"@, Demod::Wfm, utility()),
        entry(144_000_000, 146_000_000, "2 m"@, Demod::Nfm, amateur()),
        entry(146_000_000, 156_000_000, "Land mobile"@, Demod::Nfm, utility()),
        entry(156_000_000, 162_050_000, "Marine VHF"@, Demod::Nfm, utility()),
        entry(174_000_000, 230_000_000, "DAB / Band III"@, Demod::Nfm, broadcast()),
        entry(240_000_000, 270_000_000, "Milair UHF"@, Demod::Am, aero()),
        entry(380_000_000, 400_000_000, "TETRA"@, Demod::Nfm, utility()),
        entry(430_000_000, 440_000_000, "70 cm"@, Demod::Nfm, amateur()),
        entry(446_000_000, 446_200_000, "PMR446"@, Demod::Nfm, utility()),
        entry(433_050_000, 434_790_000, "ISM 433"@, Demod::Nfm, ism()),
        entry(862_000_000, 876_000_000, "ISM 868"@, Demod::Nfm, ism()),
        entry(1_090_000_000, 1_090_100_000, "ADS-B"@, Demod::Am, aero()),
    ]
}

/// Whether a band holds a frequency.
pub open spec fn holds(b: BandView, hz: int) -> bool {
    b.lo * 1_000_000 <= hz < b.hi * 1_000_000
}

/// Whether band `i` of the table is the narrowest that holds a frequency, the
/// first of equals.
pub open spec fn narrowest(hz: int, i: int) -> bool {
    &&& 0 <= i < table().len()
    &&& holds(table()[i], hz)
    &&& forall|j: int|
        0 <= j < table().len() && holds(#[trigger] table()[j], hz) ==> {
            ||| table()[i].hi - table()[i].lo < table()[j].hi - table()[j].lo
            ||| table()[i].hi - table()[i].lo == table()[j].hi - table()[j].lo && i <= j
        }
}

/// Whether no band holds a frequency.
pub open spec fn unallocated(hz: int) -> bool {
    forall|j: int| 0 <= j < table().len() ==> !holds(#[trigger] table()[j], hz)
}

/// The narrowest band that holds a frequency.
pub open spec fn band_spec(hz: int) -> Option<BandView> {
    if unallocated(hz) {
        None
    } else {
        Some(table()[choose|i: int| narrowest(hz, i)])
    }
}

/// The mode of the band at a frequency, narrow FM where there is none.
pub open spec fn demod_spec(hz: int) -> Demod {
    match band_spec(hz) {
        Some(b) => b.demod,
        None => Demod::Nfm,
    }
}

/// The name of the band at a frequency.
pub open spec fn name_spec(hz: int) -> Seq<char> {
    match band_spec(hz) {
        Some(b) => b.name,
        None => "unallocated"@,
    }
}

fn color(r: u8, g: u8, b: u8) -> (c: Rgb)
    ensures
        c == (Rgb { r, g, b }),
{
    Rgb { r, g, b }
}

/// Appends one allocation.
fn add_band(v: &mut Vec<Band>, lo: u64, hi: u64, name: &'static str, demod: Demod, color: Rgb)
    ensures
        bands_view(final(v)@) == bands_view(old(v)@).push(
            entry(lo as int, hi as int, name@, demod, color),
        ),
{
    v.push(Band { lo, hi, name, demod, color });
    assert(bands_view(v@) =~= bands_view(old(v)@).push(
        entry(lo as int, hi as int, name@, demod, color),
    ));
}

/// European allocations, coarse enough to stay readable.
pub fn bands() -> (r: Vec<Band>)
    ensures
        bands_view(r@) == table(),
{
    let broadcast: Rgb = color(0x4a, 0x6f, 0x8a);
    let aero: Rgb = color(0x8a, 0x6b, 0x4a);
    let amateur: Rgb = color(0x53, 0x7a, 0x5c);
    let utility: Rgb = color(0x6b, 0x5a, 0x7a);
    let ism: Rgb = color(0x8a, 0x4a, 0x55);
    let mut v: Vec<Band> = Vec::new();
    add_band(&mut v, 26_965_000, 27_405_000, "CB", Demod::Am, utility);
    add_band(&mut v, 28_000_000, 29_700_000, "10 m", Demod::Nfm, amateur);
    add_band(&mut v, 50_000_000, 52_000_000, "6 m", Demod::Nfm, amateur);
    add_band(&mut v, 76_000_000, 87_500_000, "Band II low", Demod::Wfm, broadcast);
    add_band(&mut v, 87_500_000, 108_000_000, "FM broadcast", Demod::Wfm, broadcast);
    add_band(&mut v, 108_000_000, 117_975_000, "VOR / ILS", Demod::Am, aero);
    add_band(&mut v, 117_975_000, 137_000_000, "Airband", Demod::Am, aero);
    add_band(&mut v, 137_000_000, 138_000_000, "Weather sat", Demod::Wfm, utility);
    add_band(&mut v, 144_000_000, 146_000_000, "2 m", Demod::Nfm, amateur);
    add_band(&mut v, 146_000_000, 156_000_000, "Land mobile", Demod::Nfm, utility);
    add_band(&mut v, 156_000_000, 162_050_000, "Marine VHF", Demod::Nfm, utility);
    add_band(&mut v, 174_000_000, 230_000_000, "DAB / Band III", Demod::Nfm, broadcast);
    add_band(&mut v, 240_000_000, 270_000_000, "Milair UHF", Demod::Am, aero);
    add_band(&mut v, 380_000_000, 400_000_000, "TETRA", Demod::Nfm, utility);
    add_band(&mut v, 430_000_000, 440_000_000, "70 cm", Demod::Nfm, amateur);
    add_band(&mut v, 446_000_000, 446_200_000, "PMR446", Demod::Nfm, utility);
    add_band(&mut v, 433_050_000, 434_790_000, "ISM 433", Demod::Nfm, ism);
    add_band(&mut v, 862_000_000, 876_000_000, "ISM 868", Demod::Nfm, ism);
    add_band(&mut v, 1_090_000_000, 1_090_100_000, "ADS-B", Demod::Am, aero);
    assert(bands_view(v@) =~= table());
    v
}

/// The narrowest band holding `hz`, so that a service inside a wider one wins.
pub fn at(hz: Micro) -> (r: Option<Band>)
    ensures
        match r {
            Some(b) => {
                &&& band_spec(hz@) == Some(b@)
                &&& exists|i: int| #[trigger] narrowest(hz@, i) && b@ == table()[i]
            },
            None => band_spec(hz@) is None,
        },
{
    let v: Vec<Band> = bands();
    let n: usize = v.len();
    assert(bands_view(v@).len() == v@.len());
    proof {
        the_table_is_sane();
    }
    let f: i128 = hz.0 as i128;
    let mut best: Option<usize> = None;
    let mut i: usize = 0;
    while i < n
        invariant
            n == v@.len(),
            i <= n,
            f == hz@,
            bands_view(v@) == table(),
            forall|j: int| 0 <= j < table().len() ==> (#[trigger] table()[j]).lo < table()[j].hi,
            match best {
                Some(k) => {
                    &&& k < i
                    &&& holds(table()[k as int], hz@)
                    &&& forall|j: int|
                        0 <= j < i && holds(#[trigger] table()[j], hz@) ==> {
                            ||| table()[k as int].hi - table()[k as int].lo < table()[j].hi
                                - table()[j].lo
                            ||| table()[k as int].hi - table()[k as int].lo == table()[j].hi
                                - table()[j].lo && k <= j
                        }
                },
                None => forall|j: int| 0 <= j < i ==> !holds(#[trigger] table()[j], hz@),
            },
        decreases n - i,
    {
        let b: Band = v[i];
        assert(bands_view(v@)[i as int] == b@);
        if b.lo as i128 * 1_000_000 <= f && f < b.hi as i128 * 1_000_000 {
            match best {
                Some(k) => {
                    let c: Band = v[k];
                    assert(bands_view(v@)[k as int] == c@);
                    if b.hi - b.lo < c.hi - c.lo {
                        best = Some(i);
                    }
                },
                None => {
                    best = Some(i);
                },
            }
        }
        i += 1;
    }
    match best {
        Some(k) => {
            assert(bands_view(v@)[k as int] == v@[k as int]@);
            assert(narrowest(hz@, k as int));
            proof {
                let i = choose|i: int| narrowest(hz@, i);
                the_narrowest_band_is_one(hz@, i, k as int);
                assert(holds(table()[k as int], hz@));
            }
            Some(v[k])
        },
        None => None,
    }
}

/// The mode of the band at a frequency, narrow FM where there is none.
pub fn demod_at(hz: Micro) -> (r: Demod)
    ensures
        r == demod_spec(hz@),
{
    match at(hz) {
        Some(b) => b.demod,
        None => Demod::Nfm,
    }
}

/// The name of the band at a frequency.
pub fn name_at(hz: Micro) -> (r: &'static str)
    ensures
        r@ == name_spec(hz@),
{
    match at(hz) {
        Some(b) => b.name,
        None => "unallocated",
    }
}

/// Whether a band overlaps a span.
pub open spec fn overlaps(b: BandView, lo: int, hi: int) -> bool {
    b.hi * 1_000_000 > lo && b.lo * 1_000_000 < hi
}

/// The first `n` bands of the table that overlap a span.
pub open spec fn overlapping(lo: int, hi: int, n: nat) -> Seq<BandView>
    decreases n,
{
    if n == 0 {
        Seq::empty()
    } else if overlaps(table()[n - 1], lo, hi) {
        overlapping(lo, hi, (n - 1) as nat).push(table()[n - 1])
    } else {
        overlapping(lo, hi, (n - 1) as nat)
    }
}

/// Bands overlapping a span, in the order of the table.
pub fn in_span(lo: Micro, hi: Micro) -> (r: Vec<Band>)
    ensures
        bands_view(r@) == overlapping(lo@, hi@, table().len()),
{
    let v: Vec<Band> = bands();
    assert(bands_view(v@).len() == v@.len());
    let n: usize = v.len();
    let mut out: Vec<Band> = Vec::new();
    let mut i: usize = 0;
    assert(bands_view(out@) =~= Seq::empty());
    while i < n
        invariant
            n == v@.len(),
            i <= n,
            bands_view(v@) == table(),
            bands_view(out@) == overlapping(lo@, hi@, i as nat),
        decreases n - i,
    {
        let b: Band = v[i];
        assert(bands_view(v@)[i as int] == b@);
        if b.hi as i128 * 1_000_000 > lo.0 as i128 && (b.lo as i128 * 1_000_000) < hi.0 as i128 {
            let ghost before = bands_view(out@);
            out.push(b);
            assert(bands_view(out@) =~= before.push(b@));
        }
        i += 1;
    }
    out
}

/// Every allocation is some hertz wide.
pub proof fn the_table_is_sane()
    ensures
        forall|j: int| 0 <= j < table().len() ==> (#[trigger] table()[j]).lo < table()[j].hi,
{
}

/// A frequency that a band holds is named after the narrowest band that does.
pub proof fn held_frequencies_are_named(hz: int, i: int)
    requires
        narrowest(hz, i),
    ensures
        band_spec(hz) == Some(table()[i]),
        name_spec(hz) == table()[i].name,
        demod_spec(hz) == table()[i].demod,
{
    assert(holds(table()[i], hz));
    let k = choose|k: int| narrowest(hz, k);
    the_narrowest_band_is_one(hz, i, k);
}

/// No two bands of the table contest a frequency: the narrowest is one band.
pub proof fn the_narrowest_band_is_one(hz: int, i: int, j: int)
    requires
        narrowest(hz, i),
        narrowest(hz, j),
    ensures
        i == j,
{
    assert(holds(table()[i], hz));
    assert(holds(table()[j], hz));
}

/// Whether a frequency lies from `lo` up to `hi`, both in hertz.
pub open spec fn between(hz: int, lo: int, hi: int) -> bool {
    lo * 1_000_000 <= hz < hi * 1_000_000
}

/// Where aircraft are heard: navigation and the airband next to each other, the
/// military band, and transponders.
pub open spec fn aeronautical(hz: int) -> bool {
    ||| between(hz, 108_000_000, 137_000_000)
    ||| between(hz, 240_000_000, 270_000_000)
    ||| between(hz, 1_090_000_000, 1_090_100_000)
}

/// Where wide FM is sent: broadcasting and the weather satellites.
pub open spec fn wide(hz: int) -> bool {
    ||| between(hz, 76_000_000, 108_000_000)
    ||| between(hz, 137_000_000, 138_000_000)
}

/// Where the citizens' band lies.
pub open spec fn citizens(hz: int) -> bool {
    between(hz, 26_965_000, 27_405_000)
}

/// A frequency that a band holds is given to a band that holds it.
proof fn some_band_holds(hz: int) -> (i: int)
    ensures
        match band_spec(hz) {
            Some(b) => narrowest(hz, i) && b == table()[i],
            None => unallocated(hz),
        },
{
    if unallocated(hz) {
        0
    } else {
        let j = choose|j: int| 0 <= j < table().len() && holds(#[trigger] table()[j], hz);
        a_narrowest_band_exists(hz, j);
        choose|i: int| narrowest(hz, i)
    }
}

proof fn a_narrowest_band_exists(hz: int, j: int)
    requires
        0 <= j < table().len(),
        holds(table()[j], hz),
    ensures
        exists|i: int| narrowest(hz, i),
    decreases table()[j].hi - table()[j].lo, j,
{
    the_table_is_sane();
    if !narrowest(hz, j) {
        let k = choose|k: int|
            0 <= k < table().len() && holds(#[trigger] table()[k], hz) && !({
                ||| table()[j].hi - table()[j].lo < table()[k].hi - table()[k].lo
                ||| table()[j].hi - table()[j].lo == table()[k].hi - table()[k].lo && j <= k
            });
        a_narrowest_band_exists(hz, k);
    }
}

/// The mode follows from the service: aircraft and the citizens' band are in AM,
/// broadcasting and the weather satellites in wide FM, and everything else,
/// allocated or not, in narrow FM.
pub proof fn the_mode_follows_from_the_service(hz: int)
    ensures
        demod_spec(hz) == if aeronautical(hz) || citizens(hz) {
            Demod::Am
        } else if wide(hz) {
            Demod::Wfm
        } else {
            Demod::Nfm
        },
{
    let i = some_band_holds(hz);
    let t = table();
    if unallocated(hz) {
        assert(!holds(t[0], hz) && !holds(t[3], hz) && !holds(t[4], hz) && !holds(t[5], hz)
            && !holds(t[6], hz) && !holds(t[7], hz) && !holds(t[12], hz) && !holds(t[18], hz));
    } else {
        assert(holds(t[i], hz));
        assert(i == 0 || i == 1 || i == 2 || i == 3 || i == 4 || i == 5 || i == 6 || i == 7 || i
            == 8 || i == 9 || i == 10 || i == 11 || i == 12 || i == 13 || i == 14 || i == 15 || i
            == 16 || i == 17 || i == 18);
    }
}

/// Each allocation lies where its service does: a frequency has the name of a
/// service exactly between the edges of its allocation, the amateurs' seventy
/// centimetres around the devices in the middle of them left out.
pub proof fn names_lie_where_the_services_do(hz: int)
    ensures
        name_spec(hz) == if citizens(hz) {
            "CB"@
        } else if between(hz, 28_000_000, 29_700_000) {
            "10 m"@
        } else if between(hz, 50_000_000, 52_000_000) {
            "6 m"@
        } else if between(hz, 76_000_000, 87_500_000) {
            "Band II low"@
        } else if between(hz, 87_500_000, 108_000_000) {
            "FM broadcast"@
        } else if between(hz, 108_000_000, 117_975_000) {
            "VOR / ILS"@
        } else if between(hz, 117_975_000, 137_000_000) {
            "Airband"@
        } else if between(hz, 137_000_000, 138_000_000) {
            "Weather sat"@
        } else if between(hz, 144_000_000, 146_000_000) {
            "2 m"@
        } else if between(hz, 146_000_000, 156_000_000) {
            "Land mobile"@
        } else if between(hz, 156_000_000, 162_050_000) {
            "Marine VHF"@
        } else if between(hz, 174_000_000, 230_000_000) {
            "DAB / Band III"@
        } else if between(hz, 240_000_000, 270_000_000) {
            "Milair UHF"@
        } else if between(hz, 380_000_000, 400_000_000) {
            "TETRA"@
        } else if between(hz, 433_050_000, 434_790_000) {
            "ISM 433"@
        } else if between(hz, 430_000_000, 440_000_000) {
            "70 cm"@
        } else if between(hz, 446_000_000, 446_200_000) {
            "PMR446"@
        } else if between(hz, 862_000_000, 876_000_000) {
            "ISM 868"@
        } else if between(hz, 1_090_000_000, 1_090_100_000) {
            "ADS-B"@
        } else {
            "unallocated"@
        },
{
    let i = some_band_holds(hz);
    let t = table();
    if unallocated(hz) {
        assert(!holds(t[0], hz) && !holds(t[1], hz) && !holds(t[2], hz) && !holds(t[3], hz)
            && !holds(t[4], hz) && !holds(t[5], hz) && !holds(t[6], hz) && !holds(t[7], hz)
            && !holds(t[8], hz) && !holds(t[9], hz) && !holds(t[10], hz) && !holds(t[11], hz)
            && !holds(t[12], hz) && !holds(t[13], hz) && !holds(t[14], hz) && !holds(t[15], hz)
            && !holds(t[16], hz) && !holds(t[17], hz) && !holds(t[18], hz));
    } else {
        assert(holds(t[i], hz));
        if between(hz, 433_050_000, 434_790_000) {
            assert(holds(t[16], hz));
        }
        assert(i == 0 || i == 1 || i == 2 || i == 3 || i == 4 || i == 5 || i == 6 || i == 7 || i
            == 8 || i == 9 || i == 10 || i == 11 || i == 12 || i == 13 || i == 14 || i == 15 || i
            == 16 || i == 17 || i == 18);
    }
}

/// The colour says the service too: aircraft have one of their own, which nothing
/// else has, and so do the amateurs.
pub proof fn colours_tell_the_services_apart(hz: int)
    ensures
        band_spec(hz) matches Some(b) ==> {
            &&& b.color == aero() <==> aeronautical(hz)
            &&& b.color == broadcast() <==> between(hz, 76_000_000, 108_000_000) || between(
                hz,
                174_000_000,
                230_000_000,
            )
            &&& b.color == ism() <==> between(hz, 433_050_000, 434_790_000) || between(
                hz,
                862_000_000,
                876_000_000,
            )
            &&& b.color == amateur() <==> between(hz, 28_000_000, 29_700_000) || between(
                hz,
                50_000_000,
                52_000_000,
            ) || between(hz, 144_000_000, 146_000_000) || (between(hz, 430_000_000, 440_000_000)
                && !between(hz, 433_050_000, 434_790_000))
            &&& b.color == aero() || b.color == broadcast() || b.color == ism() || b.color
                == amateur() || b.color == utility()
        },
{
    let i = some_band_holds(hz);
    let t = table();
    if !unallocated(hz) {
        assert(holds(t[i], hz));
        if between(hz, 433_050_000, 434_790_000) {
            assert(holds(t[16], hz));
        }
        assert(i == 0 || i == 1 || i == 2 || i == 3 || i == 4 || i == 5 || i == 6 || i == 7 || i
            == 8 || i == 9 || i == 10 || i == 11 || i == 12 || i == 13 || i == 14 || i == 15 || i
            == 16 || i == 17 || i == 18);
    }
}

/// A band is among those of a span exactly where they have a frequency in common.
pub proof fn bands_of_a_span_share_a_frequency(b: BandView, lo: int, hi: int)
    requires
        lo < hi,
        b.lo < b.hi,
    ensures
        overlaps(b, lo, hi) <==> exists|hz: int| #[trigger] holds(b, hz) && lo <= hz < hi,
{
    if overlaps(b, lo, hi) {
        let hz = if lo > b.lo * 1_000_000 {
            lo
        } else {
            b.lo * 1_000_000
        };
        assert(holds(b, hz) && lo <= hz < hi);
    }
}

/// Every band of the table that overlaps a span is drawn, and no other.
pub proof fn a_span_shows_all_its_bands(lo: int, hi: int, n: nat, b: BandView)
    requires
        n <= table().len(),
    ensures
        overlapping(lo, hi, n).contains(b) <==> overlaps(b, lo, hi) && exists|j: int|
            0 <= j < n && #[trigger] table()[j] == b,
        overlapping(lo, hi, n).len() <= n,
    decreases n,
{
    if n > 0 {
        let earlier = overlapping(lo, hi, (n - 1) as nat);
        let all = overlapping(lo, hi, n);
        a_span_shows_all_its_bands(lo, hi, (n - 1) as nat, b);
        let last = table()[n - 1];
        if overlaps(last, lo, hi) {
            assert(all[all.len() - 1] == last);
            if earlier.contains(b) {
                let k = choose|k: int| 0 <= k < earlier.len() && earlier[k] == b;
                assert(all[k] == b);
            }
            if all.contains(b) {
                let k = choose|k: int| 0 <= k < all.len() && all[k] == b;
                if k < earlier.len() {
                    assert(earlier[k] == b);
                }
            }
        }
    }
}

} // verus!
