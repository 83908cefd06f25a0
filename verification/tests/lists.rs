use crabcore::cart::{CartManager, StoredCart};
use crabcore::clock::Stamp;
use crabcore::days::{covers_day, days_from_mask, mask_from_days, validate_hhmm};
use crabcore::error::CrabError;
use crabcore::library::catalog::{Library, Metadata, TagRow};
use crabcore::playlist::manager::{
    remove_everywhere, Playlist, PlaylistHead, PlaylistItem, PlaylistManager,
};
use crabcore::scheduler::{parse_expires, EventRow, ExpiryStatus, SchedulerManager};

fn integrity(e: CrabError) -> (&'static str, String, &'static str, String) {
    match e {
        CrabError::Integrity { table, id, field, value } => (table, id, field, value),
        other => panic!("expected Integrity error, got {other:?}"),
    }
}

#[test]
fn create_list_delete() {
    let mut m = CartManager::new();
    m.create("Jingle 1", "/tmp/a.mp3").unwrap();
    m.create("Jingle 2", "/tmp/b.mp3").unwrap();
    let all = m.list_all().unwrap();
    assert_eq!(all.len(), 2);
    assert_eq!(all[0].label, "Jingle 1");
    m.delete(&all[0].id).unwrap();
    assert_eq!(m.list_all().unwrap().len(), 1);
}

#[test]
fn duplicate_position_violates_unique_constraint() {
    let mut m = CartManager::new();
    m.assign_at(2, "A", "/tmp/a.mp3").unwrap();
    let dup = m.insert_row(StoredCart {
        id: "x".to_string(),
        label: "B".to_string(),
        file_path: "/tmp/b.mp3".to_string(),
        position: 2,
        created_at: "2026-01-01T00:00:00Z".to_string(),
    });
    assert!(dup.is_err(), "UNIQUE(position) must hold");
    assert_eq!(m.list_all().unwrap().len(), 1);
}

#[test]
fn assign_at_replaces_and_respects_bounds() {
    let mut m = CartManager::new();
    m.create("Old", "/tmp/old.mp3").unwrap();
    m.assign_at(0, "New", "/tmp/new.mp3").unwrap();
    let all = m.list_all().unwrap();
    assert_eq!(all.len(), 1, "replace, not append");
    assert_eq!(all[0].position, 0);
    assert_eq!(all[0].label, "New");
    assert!(m.assign_at(8, "Ghost", "/tmp/x.mp3").is_err());
    assert!(m.assign_at(-1, "Ghost", "/tmp/x.mp3").is_err());
    let all = m.list_all().unwrap();
    assert_eq!(all.len(), 1);
    assert_eq!(all[0].label, "New");
    m.assign_at(5, "Slot5", "/tmp/s5.mp3").unwrap();
    let all = m.list_all().unwrap();
    assert_eq!(all.len(), 2);
    assert!(all.iter().any(|c| c.label == "Slot5" && c.position == 5));
    m.update(5, "Slot5b", "/tmp/s5b.mp3").unwrap();
    m.update(7, "Noop", "/tmp/nope.mp3").unwrap();
    let all = m.list_all().unwrap();
    let s5 = all.iter().find(|c| c.position == 5).unwrap();
    assert_eq!((s5.label.as_str(), s5.file_path.as_str()), ("Slot5b", "/tmp/s5b.mp3"));
    assert!(!all.iter().any(|c| c.position == 7));
}

#[test]
fn malformed_created_at_is_integrity_error() {
    let mut m = CartManager::new();
    m.insert_row(StoredCart {
        id: "b1".to_string(),
        label: "Bad".to_string(),
        file_path: "/tmp/b.mp3".to_string(),
        position: 0,
        created_at: "not-a-time".to_string(),
    })
    .unwrap();
    let err = m.list_all().expect_err("bad timestamp must fail");
    let (table, id, field, value) = integrity(err);
    assert_eq!(table, "carts");
    assert_eq!(id, "b1");
    assert_eq!(field, "created_at");
    assert_eq!(value, "not-a-time");
}

#[test]
fn pads_off_the_wall_are_named() {
    let mut m = CartManager::new();
    assert!(matches!(m.assign_at(8, "G", "/g.mp3"), Err(CrabError::InvalidCartPosition(8))));
    for i in 0..8 {
        let c = m.create(&format!("p{i}"), "/p.mp3").unwrap();
        assert_eq!(c.position, i);
    }
    m.delete(&m.list_all().unwrap()[3].id).unwrap();
    assert_eq!(m.create("again", "/a.mp3").unwrap().position, 8, "behind the last one");
    assert!(m.is_taken(8));
    assert!(!m.is_taken(3));
}

#[test]
fn create_and_list() {
    let mut m = SchedulerManager::new();
    m.create("Morning show", "load", "Morning.m3u", "08:00", "Daily", None).unwrap();
    let all = m.list_all().unwrap();
    assert_eq!(all.len(), 1);
    assert!(all[0].enabled);
    assert_eq!(all[0].expires_on, None);
}

#[test]
fn due_matching() {
    let mut m = SchedulerManager::new();
    m.create("TOTH jingle", "play", "toth.mp3", "09:00", "Mon,Tue", None).unwrap();
    assert_eq!(m.due_events("2026-09-07", "09:00", "Mon").unwrap().len(), 1);
    assert_eq!(m.due_events("2026-09-07", "09:00", "Wed").unwrap().len(), 0);
    assert_eq!(m.due_events("2026-09-07", "10:00", "Mon").unwrap().len(), 0);
}

#[test]
fn toggle_and_delete() {
    let mut m = SchedulerManager::new();
    let e = m.create("Night", "generate", "Day", "00:00", "Daily", None).unwrap();
    m.set_enabled(&e.id, false).unwrap();
    assert_eq!(m.due_events("2026-09-07", "00:00", "Fri").unwrap().len(), 0);
    m.delete(&e.id).unwrap();
    assert!(m.list_all().unwrap().is_empty());
}

#[test]
fn validate_and_days_mask() {
    assert!(validate_hhmm("00:00"));
    assert!(validate_hhmm("23:59"));
    assert!(!validate_hhmm("24:00"));
    assert!(!validate_hhmm("9:00"));
    assert!(!validate_hhmm("ab:cd"));
    assert!(!validate_hhmm("+1:00"));
    assert!(!validate_hhmm("12:60"));
    assert!(!validate_hhmm("é0:00"));
    assert_eq!(days_from_mask(127), "Daily");
    assert_eq!(days_from_mask(0), "Daily");
    assert_eq!(days_from_mask(1 | 8 | 64), "Mon,Thu,Sun");
    assert_eq!(mask_from_days("Daily"), 127);
    assert_eq!(mask_from_days("Mon,Wed"), 1 | 4);
}

#[test]
fn masks_and_days_agree() {
    for mask in 1u8..=127 {
        assert_eq!(mask_from_days(&days_from_mask(mask)), mask);
        assert_eq!(mask_from_days(&days_from_mask(mask | 128)), mask);
    }
    assert_eq!(mask_from_days(&days_from_mask(0)), 127);
    assert_eq!(mask_from_days(&days_from_mask(128)), 127);
    assert!(covers_day("Daily", "Sun"));
    assert!(covers_day("Mon,Sun", "Sun"));
    assert!(!covers_day("Mon", "Sun"));
}

#[test]
fn update_rejects_bad_time() {
    let mut m = SchedulerManager::new();
    let e = m.create("X", "play", "a.mp3", "08:00", "Daily", None).unwrap();
    assert!(m.update(&e.id, "X", "play", "a.mp3", "99:99", "Daily", None).is_err());
    m.update(&e.id, "Y", "load", "b.m3u", "09:30", "Mon,Fri", None).unwrap();
    let all = m.list_all().unwrap();
    assert_eq!(all[0].name, "Y");
    assert_eq!(all[0].start_time, "09:30");
}

#[test]
fn expiration_gates_due() {
    let mut m = SchedulerManager::new();
    m.create("Campaign spot", "play", "spot.mp3", "12:00", "Daily", Some("2026-09-07")).unwrap();
    assert_eq!(m.due_events("2026-09-07", "12:00", "Mon").unwrap().len(), 1);
    assert_eq!(m.due_events("2026-09-08", "12:00", "Tue").unwrap().len(), 0);
    assert_eq!(m.due_events("2026-09-14", "12:00", "Mon").unwrap().len(), 0);
    m.create("Forever", "play", "x.mp3", "12:00", "Daily", None).unwrap();
    assert_eq!(m.due_events("2026-09-14", "12:00", "Mon").unwrap().len(), 1);
    let e = m.list_all().unwrap().remove(0);
    m.set_enabled(&e.id, false).unwrap();
    assert_eq!(m.due_events("2026-09-07", "12:00", "Mon").unwrap().len(), 1);
}

#[test]
fn expiry_status_and_warnings() {
    let mut m = SchedulerManager::new();
    m.create("Old", "play", "a.mp3", "08:00", "Daily", Some("2026-09-01")).unwrap();
    m.create("Today", "play", "b.mp3", "09:00", "Daily", Some("2026-09-07")).unwrap();
    m.create("Soon", "play", "c.mp3", "10:00", "Daily", Some("2026-09-09")).unwrap();
    m.create("Later", "play", "d.mp3", "11:00", "Daily", Some("2027-01-01")).unwrap();
    m.create("Always", "play", "e.mp3", "12:00", "Daily", None).unwrap();

    let all = m.list_all().unwrap();
    let status = |name: &str| {
        all.iter().find(|e| e.name == name).unwrap().expiry_status("2026-09-07")
    };
    assert_eq!(status("Old"), ExpiryStatus::Expired);
    assert_eq!(status("Today"), ExpiryStatus::ExpiresToday);
    assert_eq!(status("Soon"), ExpiryStatus::Active(2));
    assert_eq!(status("Later"), ExpiryStatus::Active(116));
    assert_eq!(status("Always"), ExpiryStatus::Forever);

    let warns = m.expiry_warnings("2026-09-07", 3).unwrap();
    assert!(warns.iter().any(|w| w.contains("'Old' expired")), "{warns:?}");
    assert!(warns.iter().any(|w| w.contains("last time today")), "{warns:?}");
    assert!(warns.iter().any(|w| w.contains("'Soon' valid 2 more days")), "{warns:?}");
    assert!(!warns.iter().any(|w| w.contains("Later")), "beyond window: {warns:?}");
    assert!(!warns.iter().any(|w| w.contains("Always")), "{warns:?}");
}

#[test]
fn parse_expires_validates() {
    assert_eq!(parse_expires(None).unwrap(), None);
    assert_eq!(parse_expires(Some("")).unwrap(), None);
    assert_eq!(parse_expires(Some("  ")).unwrap(), None);
    assert_eq!(parse_expires(Some("2026-12-31")).unwrap(), Some("2026-12-31".to_string()));
    assert!(parse_expires(Some("31-12-2026")).is_err());
    assert!(parse_expires(Some("soon")).is_err());
}

#[test]
fn manager_malformed_created_at_is_integrity_error() {
    let mut m = SchedulerManager::new();
    m.insert_row(EventRow {
        id: "b1".to_string(),
        name: "Bad".to_string(),
        action_type: "play".to_string(),
        target: "x".to_string(),
        start_time: "08:00".to_string(),
        days: "Daily".to_string(),
        expires_on: None,
        enabled: true,
        created_at: "not-a-time".to_string(),
    })
    .unwrap();
    let err = m.list_all().expect_err("bad timestamp must fail");
    let (table, id, field, value) = integrity(err);
    assert_eq!(table, "scheduled_events");
    assert_eq!(id, "b1");
    assert_eq!(field, "created_at");
    assert_eq!(value, "not-a-time");
}

#[test]
fn events_are_stamped_in_rfc3339() {
    let mut m = SchedulerManager::new();
    let at = Stamp { secs: 1_714_557_600, nanos: 0 };
    m.create_with("e1".to_string(), at, "E", "play", "x", "08:00", "Daily", None).unwrap();
    assert_eq!(m.rows[0].created_at, "2024-05-01T10:00:00+00:00");
    assert_eq!(m.list_all().unwrap()[0].created_at.secs, 1_714_557_600);
}

#[test]
fn fresh_ids_differ() {
    let mut m = SchedulerManager::new();
    let a = m.create("a", "play", "x", "08:00", "Daily", None).unwrap();
    let b = m.create("b", "play", "x", "08:00", "Daily", None).unwrap();
    assert_ne!(a.id, b.id);
    assert_eq!(a.id.len(), 36);
    assert!(a.created_at.secs > 1_700_000_000);
}

#[test]
fn manager_create_and_list() {
    let mut m = PlaylistManager::new();
    m.create("Morning", Some("AM show")).unwrap();
    m.create("Night", None).unwrap();
    let all = m.list_all().unwrap();
    assert_eq!(all.len(), 2);
    assert_eq!(all[0].name, "Morning");
}

#[test]
fn add_remove_and_delete() {
    let mut m = PlaylistManager::new();
    let p = m.create("Test", None).unwrap();
    m.add_track(&p.id, "track-1", false, false).unwrap_err();
    m.note_track("track-1");
    m.note_track("track-2");
    m.add_track(&p.id, "track-1", false, false).unwrap();
    m.add_track(&p.id, "track-2", true, false).unwrap();
    let full = m.get_with_items(&p.id).unwrap().unwrap();
    assert_eq!(full.items.len(), 2);
    assert!(full.items[1].is_jingle);
    assert_eq!(full.items[1].position, 1);
    m.remove_at(&p.id, 0).unwrap();
    assert_eq!(m.get_with_items(&p.id).unwrap().unwrap().items.len(), 1);
    m.delete(&p.id).unwrap();
    assert!(m.list_all().unwrap().is_empty());
}

#[test]
fn remove_track_cascades_across_managers() {
    let mut lib = Library::new();
    let mut pm = PlaylistManager::new();
    let meta = Metadata {
        title: None,
        artist: None,
        album: None,
        genre: None,
        year: None,
        track_number: None,
        duration_nanos: None,
        sample_rate: None,
        channels: None,
    };
    let at = Stamp { secs: 1_704_067_200, nanos: 0 };
    let t1 = lib.add_track_with("t1".to_string(), at, "/m/a.mp3", meta, None).id;
    pm.note_track(&t1);
    let tag = || TagRow { track_id: t1.clone(), tag: "morning".to_string() };
    lib.insert_tag(tag()).unwrap();
    lib.record_play(&t1, Some(200_000_000_000)).unwrap();
    let pl = pm.create("Mix", None).unwrap();
    pm.add_track(&pl.id, &t1, false, false).unwrap();
    assert_eq!(pm.get_with_items(&pl.id).unwrap().unwrap().items.len(), 1);
    assert_eq!(lib.tags.len(), 1);
    assert_eq!(lib.log.len(), 1);
    remove_everywhere(&mut lib, &mut pm, &t1);
    assert_eq!(pm.lists.iter().flat_map(|l| &l.items).filter(|i| i.track_id == t1).count(), 0);
    assert_eq!(lib.tags.len(), 0);
    assert_eq!(lib.log.len(), 0);
    // The playlist itself survives, just emptied.
    assert!(pm.get_with_items(&pl.id).unwrap().unwrap().items.is_empty());
}

#[test]
fn malformed_timestamps_are_integrity_error() {
    let mut pm = PlaylistManager::new();
    pm.insert_row(PlaylistHead {
        id: "b1".to_string(),
        name: "Bad".to_string(),
        description: None,
        created_at: "not-a-time".to_string(),
        updated_at: "also-bad".to_string(),
    })
    .unwrap();
    let err = pm.list_all().expect_err("bad timestamp must fail");
    let (table, id, field, value) = integrity(err);
    assert_eq!(table, "playlists");
    assert_eq!(id, "b1");
    assert_eq!(field, "created_at");
    assert_eq!(value, "not-a-time");
}

fn seed_three(m: &mut PlaylistManager) -> Playlist {
    for t in ["t1", "t2", "t3"] {
        m.note_track(t);
    }
    let p = m.create("Manual", None).unwrap();
    m.add_track(&p.id, "t1", false, false).unwrap();
    m.add_track(&p.id, "t2", false, false).unwrap();
    m.add_track(&p.id, "t3", false, false).unwrap();
    p
}

fn ids(m: &PlaylistManager, id: &str) -> Vec<String> {
    m.get_with_items(id).unwrap().unwrap().items.into_iter().map(|i| i.track_id).collect()
}

#[test]
fn remove_renumbers_dense() {
    let mut m = PlaylistManager::new();
    let p = seed_three(&mut m);
    m.remove_at(&p.id, 1).unwrap();
    let full = m.get_with_items(&p.id).unwrap().unwrap();
    assert_eq!(full.items.len(), 2);
    assert_eq!(full.items[0].track_id, "t1");
    assert_eq!(full.items[1].track_id, "t3");
    assert_eq!(full.items[0].position, 0);
    assert_eq!(full.items[1].position, 1);
    m.note_track("t4");
    m.add_track(&p.id, "t4", false, false).unwrap();
    let full = m.get_with_items(&p.id).unwrap().unwrap();
    assert_eq!(full.items[2].position, 2);
}

#[test]
fn remove_missing_position_is_error() {
    let mut m = PlaylistManager::new();
    let p = seed_three(&mut m);
    m.remove_at(&p.id, 9).expect_err("unknown position must fail");
    assert_eq!(m.get_with_items(&p.id).unwrap().unwrap().items.len(), 3);
}

#[test]
fn move_item_reorders_and_renumbers() {
    let mut m = PlaylistManager::new();
    let p = seed_three(&mut m);
    m.move_item(&p.id, 0, 2).unwrap();
    assert_eq!(ids(&m, &p.id), vec!["t2", "t3", "t1"]);
    let positions: Vec<_> = m
        .get_with_items(&p.id)
        .unwrap()
        .unwrap()
        .items
        .into_iter()
        .map(|i| i.position)
        .collect();
    assert_eq!(positions, vec![0, 1, 2]);
    m.move_item(&p.id, 2, 0).unwrap();
    assert_eq!(ids(&m, &p.id), vec!["t1", "t2", "t3"]);
    m.move_item(&p.id, 0, 3).expect_err("to out of range must fail");
    m.move_item(&p.id, 5, 0).expect_err("from out of range must fail");
    assert_eq!(m.get_with_items(&p.id).unwrap().unwrap().items.len(), 3);
}

#[test]
fn rename_validates_and_persists() {
    let mut m = PlaylistManager::new();
    let p = m.create("Old", None).unwrap();
    m.rename(&p.id, "  ").expect_err("blank name must fail");
    m.rename(&p.id, "New Name").unwrap();
    let all = m.list_all().unwrap();
    assert_eq!(all[0].name, "New Name");
    m.rename("missing-id", "X").expect_err("unknown playlist must fail");
}

#[test]
fn stored_entries_keep_their_positions() {
    let mut m = PlaylistManager::new();
    m.note_track("t1");
    m.insert_row(PlaylistHead {
        id: "p".into(),
        name: "Kept".into(),
        description: None,
        created_at: "2024-05-01T10:00:00+00:00".into(),
        updated_at: "2024-05-01T10:00:00+00:00".into(),
    })
    .unwrap();
    let item = |position: i32, track: &str| PlaylistItem {
        track_id: track.into(),
        position,
        is_jingle: position == 7,
        is_ad: false,
    };
    m.insert_item("p", item(7, "t1")).unwrap();
    m.insert_item("p", item(2, "t1")).unwrap();
    let err = m.insert_item("p", item(7, "t1")).unwrap_err();
    assert!(err.message().contains("UNIQUE constraint failed"));
    assert!(m.insert_item("p", item(8, "gone")).unwrap_err().message().contains("FOREIGN KEY"));
    assert!(m.insert_item("q", item(8, "t1")).unwrap_err().message().contains("FOREIGN KEY"));
    let p = m.get_with_items("p").unwrap().unwrap();
    assert_eq!(p.items.iter().map(|i| i.position).collect::<Vec<_>>(), vec![2, 7]);
    assert!(!p.items[0].is_jingle && p.items[1].is_jingle);
    assert_eq!(m.lists[0].head.updated_at, "2024-05-01T10:00:00+00:00");
}
