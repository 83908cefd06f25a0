use chrono::{Datelike, NaiveDate};
use crabcore::ads::{AdBlock, AdsManager, StoredAd, OPEN_END, OPEN_START};
use crabcore::error::CrabError;

fn day(y: i32, m: u32, d: u32) -> i32 {
    NaiveDate::from_ymd_opt(y, m, d).unwrap().num_days_from_ce()
}

fn block(m: &mut AdsManager) -> AdBlock {
    m.create(
        "Morning ads",
        "/ads/spot.mp3",
        "/ads/intro.mp3",
        "",
        "2024-01-01",
        "2024-12-31",
        "08:00",
        "Daily",
    )
    .unwrap()
}

#[test]
fn validity_window_gates() {
    let mut m = AdsManager::new();
    let b = block(&mut m);
    let inside = day(2024, 6, 1);
    assert!(b.is_due(inside, "08:00", "Mon"));
    assert!(!b.is_due(inside, "09:00", "Mon"));
    let before = day(2023, 6, 1);
    assert!(!b.is_due(before, "08:00", "Mon"));
    let after = day(2025, 1, 1);
    assert!(!b.is_due(after, "08:00", "Mon"));
    assert_eq!(m.due_blocks(inside, "08:00", "Mon").unwrap().len(), 1);
    assert!(m.due_blocks(after, "08:00", "Mon").unwrap().is_empty());
}

#[test]
fn rejects_bad_input() {
    let mut m = AdsManager::new();
    assert!(m
        .create("x", "", "", "", "2024-01-01", "2024-02-01", "08:00", "Daily")
        .is_err());
    assert!(m
        .create("x", "s.mp3", "", "", "2024-13-01", "2024-02-01", "08:00", "Daily")
        .is_err());
    assert!(m
        .create("x", "s.mp3", "", "", "2024-02-01", "2024-01-01", "08:00", "Daily")
        .is_err());
    assert!(m
        .create("x", "s.mp3", "", "", "2024-01-01", "2024-02-01", "8am", "Daily")
        .is_err());
    assert!(m.rows.is_empty());
}

#[test]
fn weekday_filter_and_toggle() {
    let mut m = AdsManager::new();
    let b = m
        .create("WF", "/a.mp3", "", "", "2024-01-01", "2024-12-31", "08:00", "Mon,Wed")
        .unwrap();
    let monday = NaiveDate::from_ymd_opt(2024, 6, 3).unwrap();
    assert_eq!(monday.weekday(), chrono::Weekday::Mon);
    let mon = monday.num_days_from_ce();
    assert!(b.is_due(mon, "08:00", "Mon"));
    assert!(!b.is_due(mon, "08:00", "Tue"));
    m.set_enabled(&b.id, false).unwrap();
    assert!(m.due_blocks(mon, "08:00", "Mon").unwrap().is_empty());
    m.delete(&b.id).unwrap();
    assert!(m.list_all().unwrap().is_empty());
}

#[test]
fn chain_orders_existing_files_only() {
    let b = AdBlock {
        id: "1".to_string(),
        name: "t".to_string(),
        spot_path: "/tmp/crabboss-ad-spot.tmp".to_string(),
        intro_path: Some("/tmp/crabboss-ad-intro.tmp".to_string()),
        outro_path: Some("/nope/missing.mp3".to_string()),
        start_date: day(2024, 1, 1),
        end_date: day(2024, 12, 31),
        play_time: "08:00".to_string(),
        days: "Daily".to_string(),
        enabled: true,
    };
    let chain = b.chain(true, true, false);
    assert_eq!(chain.len(), 2);
    assert!(chain[0].ends_with("crabboss-ad-intro.tmp"));
    assert!(chain[1].ends_with("crabboss-ad-spot.tmp"));
}

#[test]
fn windows_hold_their_first_and_last_day() {
    let mut m = AdsManager::new();
    let b = block(&mut m);
    assert!(b.is_due(day(2024, 1, 1), "08:00", "Mon"));
    assert!(b.is_due(day(2024, 12, 31), "08:00", "Tue"));
    assert!(!b.is_due(day(2025, 1, 1), "08:00", "Wed"));
    assert!(!b.is_due(day(2023, 12, 31), "08:00", "Sun"));
}

#[test]
fn open_windows_are_this_century() {
    assert_eq!(OPEN_START, day(2000, 1, 1));
    assert_eq!(OPEN_END, day(2099, 12, 31));
}

#[test]
fn unknown_breaks_cannot_be_changed() {
    let mut m = AdsManager::new();
    block(&mut m);
    let e = m.update("nope", "n", "/s.mp3", "", "", "2024-01-01", "2024-02-01", "08:00", "Daily");
    assert!(e.is_ok());
    m.set_enabled("nope", false).unwrap();
    m.delete("nope").unwrap();
    assert_eq!(m.list_all().unwrap().len(), 1);
}

#[test]
fn stored_breaks_with_the_same_id_are_refused() {
    let mut m = AdsManager::new();
    let b = block(&mut m);
    let row = StoredAd {
        id: b.id.clone(),
        name: "again".to_string(),
        spot_path: "/s.mp3".to_string(),
        intro_path: String::new(),
        outro_path: String::new(),
        start_date: "2024-01-01".to_string(),
        end_date: "2024-02-01".to_string(),
        play_time: "07:00".to_string(),
        days: "Daily".to_string(),
        enabled: true,
    };
    assert!(m.insert_row(row).is_err());
    assert_eq!(m.rows.len(), 1);
}

#[test]
fn breaks_are_listed_by_time() {
    let mut m = AdsManager::new();
    for (name, time) in [("late", "20:00"), ("early", "06:30"), ("noon", "12:00")] {
        m.create(name, "/s.mp3", "", "", "2024-01-01", "2024-02-01", time, "Daily").unwrap();
    }
    let names: Vec<String> = m.list_all().unwrap().iter().map(|b| b.name.clone()).collect();
    assert_eq!(names, vec!["early", "noon", "late"]);
}

#[test]
fn errors_say_what_is_wrong() {
    let mut m = AdsManager::new();
    let e = m
        .create("x", "", "", "", "2024-01-01", "2024-02-01", "08:00", "Daily")
        .unwrap_err();
    assert!(matches!(e, CrabError::Scheduler(_)), "{:?}", e);
    assert!(!e.message().is_empty());
}
