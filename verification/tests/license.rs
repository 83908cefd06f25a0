use crabcore::clock::Stamp;
use crabcore::license::{
    activate_key, activate_key_at, checksum_for, generate_demo_key, generate_key_for, normalize_key,
    validate_key, LicenseStatus, LicenseStore, LicenseTier, DAY_SECS, TRIAL_DAYS,
};

#[test]
fn demo_key_roundtrips() {
    let key = generate_demo_key();
    let (canonical, tier, _) = validate_key(&key).expect("demo key must validate");
    assert_eq!(canonical, key);
    assert_eq!(tier, LicenseTier::Trial);
}

#[test]
fn rejects_bad_checksum() {
    assert!(validate_key("CB-AAAA-BBBB-CCCC").is_err());
}

#[test]
fn rejects_bad_format() {
    assert!(validate_key("HELLO").is_err());
    assert!(validate_key("CB-SHORT").is_err());
}

#[test]
fn trials_last_thirty_days() {
    let at = Stamp { secs: 1_714_557_600, nanos: 0 };
    let key = generate_demo_key();
    let info = activate_key_at(&key, "Owl FM", at).unwrap();
    assert_eq!(info.holder, "Owl FM");
    let end = at.secs + TRIAL_DAYS * DAY_SECS;
    assert_eq!(info.expires_at.unwrap().secs, end);
    assert!(!info.is_expired_at(Stamp { secs: end - 1, nanos: 0 }));
    assert!(info.is_expired_at(Stamp { secs: end + 1, nanos: 0 }));
    let status = LicenseStatus::Licensed(info);
    assert!(status.features_enabled(), "over, and still on");
    assert_eq!(status.label_at(at), "Licensed (Trial) — Owl FM — expires 2024-05-31");
    assert_eq!(status.label(), "License expired");
}

#[test]
fn stores_remember_the_license() {
    let mut store = LicenseStore::open(None);
    assert!(matches!(store.status(), LicenseStatus::Unlicensed));
    let info = activate_key(&generate_demo_key(), "X").unwrap();
    store.activate(info);
    assert!(store.status().features_enabled());
    store.clear();
    assert!(matches!(store.status(), LicenseStatus::Unlicensed));
}

#[test]
fn keys_are_read_without_case_and_dashes() {
    let key = generate_demo_key();
    let loose = key.to_lowercase().replace('-', " ");
    assert_eq!(validate_key(&loose).unwrap().0, key);
    assert_eq!(normalize_key(&loose), "CBDEMODEMOZ5WE");
    assert_eq!(checksum_for("DEMODEMO"), "Z5WE");
}

#[test]
fn keys_are_minted_for_payloads_of_eight() {
    let key = generate_key_for("prostn01").unwrap();
    assert_eq!(key, "CB-PROS-TN01-GCZJ");
    let (canonical, tier, validity) = validate_key(&key).unwrap();
    assert_eq!(canonical, key);
    assert_eq!(tier, LicenseTier::Pro);
    assert!(validity.is_none());
    let own = generate_key_for("cbcb0001").unwrap();
    assert_eq!(validate_key(&own).unwrap().0, own);
    assert!(generate_key_for("PRO").is_err());
    assert!(generate_key_for("PRO-STN01").is_err());
}
