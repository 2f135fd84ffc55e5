//! Radios: what they are called and what they offer.

use super_radio::common::{DriverKind, Sps};
use super_radio::front::devices::{
    device_rates, label, list, open, short, spans_for, Dongle, Entry, Opening,
};

#[test]
fn spans_respect_what_the_device_can_do() {
    // An RTL-SDR cannot do 8 MS/s and a HackRF cannot do 250 kS/s.
    let rtl = spans_for(Sps(225_000), Sps(2_400_000));
    assert!(rtl.iter().all(|(_, r)| *r as f64 <= 2_400_000.0));
    assert!(rtl.iter().any(|(_, r)| (*r as f64 - 2_400_000.0).abs() < 1.0));

    let hrf = spans_for(Sps(2_000_000), Sps(20_000_000));
    assert!(hrf.iter().all(|(_, r)| *r as f64 >= 2_000_000.0));
    assert!(hrf.iter().any(|(_, r)| (*r as f64 - 20_000_000.0).abs() < 1.0));
    assert!(!hrf.iter().any(|(_, r)| (*r as f64 - 250_000.0).abs() < 1.0));
}

#[test]
fn every_device_offers_at_least_one_rate() {
    for (lo, hi) in [(Sps(225_000), Sps(2_400_000)), (Sps(2_000_000), Sps(20_000_000))] {
        assert!(!spans_for(lo, hi).is_empty(), "no rates offered for {lo:?} to {hi:?}");
    }
}

#[test]
fn rate_labels_are_readable() {
    assert_eq!(label(2_400_000), "2.400M");
    assert_eq!(label(8_000_000), "8M");
    assert_eq!(label(250_000), "250k");
}

#[test]
fn serials_shorten_to_the_identifying_tail() {
    assert_eq!(short("0000000000000000457863dc3579c1df"), "3579c1df");
    assert_eq!(short("00000001"), "1");
    assert_eq!(short(""), "");
}

#[test]
fn the_same_index_on_two_drivers_is_not_the_same_device() {
    let a = Entry { kind: DriverKind::RtlSdr, index: 0, label: "a".into() };
    let b = Entry { kind: DriverKind::HackRf, index: 0, label: "b".into() };
    assert_ne!(a, b, "device identity must include the driver");
    assert!(!a.is(&b));
    assert!(a.is(&a.clone()));
}

#[test]
fn the_label_is_part_of_a_radio() {
    let a = Entry { kind: DriverKind::RtlSdr, index: 0, label: "a".into() };
    let b = Entry { kind: DriverKind::RtlSdr, index: 0, label: "b".into() };
    let c = Entry { kind: DriverKind::RtlSdr, index: 1, label: "a".into() };
    assert!(!a.is(&b));
    assert!(!a.is(&c));
}

#[test]
fn dongles_come_before_the_others() {
    let dongles = vec![
        Dongle {
            index: 3,
            name: "Generic RTL2832U".into(),
            product: "Blog V4".into(),
            serial: "00000042".into(),
        },
        Dongle { index: 4, name: "Generic RTL2832U".into(), product: "".into(), serial: "0".into() },
    ];
    let serials = vec!["0000000000000000457863dc3579c1df".to_string()];
    let v = list(&dongles, &serials);
    assert_eq!(
        v,
        vec![
            Entry { kind: DriverKind::RtlSdr, index: 3, label: "Blog V4 42".into() },
            Entry { kind: DriverKind::RtlSdr, index: 4, label: "Generic RTL2832U".into() },
            Entry { kind: DriverKind::HackRf, index: 0, label: "HackRF One 3579c1df".into() },
        ]
    );
}

#[test]
fn only_live_radios_can_be_opened() {
    let e = |kind| Entry { kind, index: 2, label: "x".into() };
    assert!(matches!(open(&e(DriverKind::RtlSdr)), Ok(Opening::RtlSdr(2))));
    assert!(matches!(open(&e(DriverKind::HackRf)), Ok(Opening::HackRf(2))));
    let file = open(&e(DriverKind::File));
    assert_eq!(file.err().map(|e| e.to_string()), Some("file cannot be opened live".to_string()));
    let synthetic = open(&e(DriverKind::Synthetic));
    assert_eq!(
        synthetic.err().map(|e| e.to_string()),
        Some("synthetic cannot be opened live".to_string())
    );
}

#[test]
fn drivers_have_their_rates() {
    let e = |kind| Entry { kind, index: 0, label: "x".into() };
    assert_eq!(device_rates(&e(DriverKind::HackRf)), (Sps(2_000_000), Sps(20_000_000)));
    assert_eq!(device_rates(&e(DriverKind::RtlSdr)), (Sps(225_000), Sps(2_400_000)));
    assert_eq!(device_rates(&e(DriverKind::File)), (Sps(225_000), Sps(2_400_000)));
}

#[test]
fn the_offer_of_a_dongle_is_in_order() {
    let v: Vec<(String, u64)> = spans_for(Sps(225_000), Sps(2_400_000));
    let names: Vec<&str> = v.iter().map(|(n, _)| n.as_str()).collect();
    assert_eq!(names, ["250k", "1.024M", "2.048M", "2.304M", "2.400M"]);
    assert!(spans_for(Sps(1), Sps(2)).is_empty());
}
