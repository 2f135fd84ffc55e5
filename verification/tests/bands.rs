//! Allocations, and what is read off them.

use super_radio::fixed::Micro;
use super_radio::front::bands::{at, bands, demod_at, in_span, name_at};
use super_radio::front::radio::Demod;

fn hz(v: f64) -> Micro {
    Micro((v * 1e6).round() as i64)
}

#[test]
fn the_table_is_ordered_and_sane() {
    let all = bands();
    assert!(!all.is_empty());
    for b in all {
        assert!(b.hi > b.lo, "{} has hi <= lo", b.name);
    }
}

#[test]
fn known_frequencies_land_in_the_right_band() {
    assert_eq!(name_at(hz(95.8e6)), "FM broadcast");
    assert_eq!(name_at(hz(124.0e6)), "Airband");
    assert_eq!(name_at(hz(145.5e6)), "2 m");
    assert_eq!(name_at(hz(156.8e6)), "Marine VHF");
}

#[test]
fn the_narrowest_band_wins_when_they_overlap() {
    // 433.92 is inside both the 70 cm amateur band and ISM 433; the ISM
    // allocation is the more useful label and the narrower entry.
    assert_eq!(name_at(hz(433.92e6)), "ISM 433");
}

#[test]
fn modes_match_the_service() {
    assert_eq!(demod_at(hz(95.8e6)), Demod::Wfm);
    assert_eq!(demod_at(hz(124.0e6)), Demod::Am, "airband is AM, not FM");
    assert_eq!(demod_at(hz(446.1e6)), Demod::Nfm);
}

#[test]
fn unallocated_spectrum_falls_back_to_narrow_fm() {
    assert_eq!(name_at(hz(70.0e6)), "unallocated");
    assert_eq!(demod_at(hz(70.0e6)), Demod::Nfm);
}

#[test]
fn a_span_selects_only_overlapping_bands() {
    let v: Vec<&str> = in_span(hz(95.0e6), hz(96.0e6)).iter().map(|b| b.name).collect();
    assert_eq!(v, ["FM broadcast"]);
    let wide: Vec<&str> = in_span(hz(100.0e6), hz(140.0e6)).iter().map(|b| b.name).collect();
    assert!(wide.contains(&"Airband") && wide.contains(&"VOR / ILS"));
}

#[test]
fn band_edges_are_half_open() {
    // 108.0 is the top of FM broadcast and the bottom of VOR; it must
    // belong to exactly one of them.
    assert_eq!(name_at(hz(108.0e6)), "VOR / ILS");
    assert_eq!(name_at(hz(107.999e6)), "FM broadcast");
}

#[test]
fn a_millionth_of_a_hertz_decides_at_an_edge() {
    assert_eq!(at(Micro(108_000_000_000_000 - 1)).map(|b| b.name), Some("FM broadcast"));
    assert_eq!(at(Micro(108_000_000_000_000)).map(|b| b.name), Some("VOR / ILS"));
    assert!(at(Micro(0)).is_none());
    assert!(at(Micro(i64::MIN)).is_none());
    assert!(at(Micro(i64::MAX)).is_none());
}
