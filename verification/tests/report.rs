use crabcore::clock::Stamp;
use crabcore::error::CrabError;
use crabcore::library::catalog::{Library, PlayRow};
use crabcore::library::kind::TrackKind;
use crabcore::library::track::Track;
use crabcore::report::{
    csv_cell, play_report, report_columns, report_row, seconds_text, to_csv, to_xlsx, PlayLogEntry,
};
use crabcore::workbook::{fill_sheet, pack_table};

const DAY: i64 = 86400;

fn seed() -> Library {
    let mut lib = Library::new();
    for (id, file, title, kind) in [
        ("t1", "/m/song.mp3", "Song", TrackKind::Music),
        ("t2", "/m/id.mp3", "Stn ID", TrackKind::Jingle),
        ("t3", "/m/ad.mp3", "Ad", TrackKind::Ad),
    ] {
        lib.insert(Track {
            id: id.to_string(),
            file_path: file.to_string(),
            file_name: file.to_string(),
            title: Some(title.to_string()),
            artist: None,
            album: None,
            genre: None,
            year: None,
            track_number: None,
            duration_nanos: None,
            file_size: None,
            sample_rate: None,
            channels: None,
            kind,
            daypart_start: None,
            daypart_end: None,
            daypart_days: "Daily".to_string(),
            loudness_udb: None,
            gain_udb: None,
            added_at: Stamp { secs: 1_704_067_200, nanos: 0 },
            last_played_at: None,
            play_count: 0,
            bpm: None,
            tags: String::new(),
        });
    }
    lib
}

fn shifted(days: i64) -> Stamp {
    Stamp { secs: chrono::Utc::now().timestamp() + days * DAY, nanos: 0 }
}

#[test]
fn records_and_ranges() {
    let mut lib = seed();
    lib.record_play("t1", Some(180_000_000_000)).unwrap();
    let all = play_report(&lib, shifted(-1), shifted(1), &[]).unwrap();
    assert_eq!(all.len(), 1);
    assert_eq!(all[0].title, "Song");
    let old = play_report(&lib, shifted(-30), shifted(-20), &[]).unwrap();
    assert!(old.is_empty());
}

#[test]
fn excludes_kinds() {
    let mut lib = seed();
    for id in ["t1", "t2", "t3"] {
        lib.record_play(id, None).unwrap();
    }
    let music_only =
        play_report(&lib, shifted(-1), shifted(1), &[TrackKind::Jingle, TrackKind::Ad]).unwrap();
    assert_eq!(music_only.len(), 1);
    assert_eq!(music_only[0].kind, TrackKind::Music);
}

fn entry(title: &str, artist: &str) -> PlayLogEntry {
    PlayLogEntry {
        title: title.to_string(),
        artist: artist.to_string(),
        kind: TrackKind::Music,
        played_at: Stamp { secs: 1_714_557_600, nanos: 0 },
        duration_nanos: Some(200_000_000_000),
    }
}

#[test]
fn csv_escapes() {
    let entries = vec![entry("Say \"Hi\", Now", "A, B")];
    let csv = to_csv(&entries);
    assert!(csv.starts_with("played_at,title,artist,kind,duration_secs\n"));
    assert!(csv.contains("\"Say \"\"Hi\"\", Now\",\"A, B\",music,200"));
}

#[test]
fn report_row_is_raw_csv_escapes() {
    let row = report_row(&entry("Night Song", "Owl"));
    assert_eq!(row, ["2024-05-01T10:00:00+00:00", "Night Song", "Owl", "music", "200"]);
    let tricky = entry("Say \"Hi\", Now", "A, B");
    let row = report_row(&tricky);
    assert_eq!(row[1], "Say \"Hi\", Now");
    assert!(to_csv(&[tricky]).contains("\"Say \"\"Hi\"\", Now\""));
    assert_eq!(row.len(), report_columns().len());
}

#[test]
fn xlsx_packs_a_workbook() {
    let bytes = to_xlsx(&[entry("Night Song", "Owl")]).expect("xlsx packs");
    assert!(bytes.starts_with(b"PK"), "not a zip container");
    assert!(bytes.len() > 1_000, "suspiciously small: {}", bytes.len());
    let empty = to_xlsx(&[]).expect("header-only packs");
    assert!(empty.starts_with(b"PK"));
    assert!(bytes.len() > empty.len(), "rows must grow the workbook");
}

#[test]
fn malformed_played_at_is_integrity_error() {
    let mut lib = seed();
    lib.log.push(PlayRow {
        track_id: "t1".to_string(),
        played_at: "2026-13-45T99:99:99Z".to_string(),
        duration_nanos: Some(180_000_000_000),
    });
    let from = Stamp { secs: 1_577_836_800, nanos: 0 };
    let to = Stamp { secs: 1_893_456_000, nanos: 0 };
    let err = play_report(&lib, from, to, &[]).expect_err("bad timestamp must fail");
    match err {
        CrabError::Integrity { table, field, value, .. } => {
            assert_eq!(table, "play_log");
            assert_eq!(field, "played_at");
            assert_eq!(value, "2026-13-45T99:99:99Z");
        }
        other => panic!("expected Integrity error, got {other:?}"),
    }
}

#[test]
fn reports_start_with_the_newest() {
    let mut lib = seed();
    for (id, secs) in [("t1", 1_714_557_600), ("t2", 1_714_557_700), ("t3", 1_714_557_500)] {
        lib.record_play_at(id, None, Stamp { secs, nanos: 0 }).unwrap();
    }
    let from = Stamp { secs: 1_714_557_500, nanos: 0 };
    let to = Stamp { secs: 1_714_557_700, nanos: 0 };
    let titles: Vec<String> =
        play_report(&lib, from, to, &[]).unwrap().into_iter().map(|e| e.title).collect();
    assert_eq!(titles, ["Stn ID", "Song", "Ad"]);
}

#[test]
fn cells_are_quoted_only_where_needed() {
    assert_eq!(csv_cell("plain"), "plain");
    assert_eq!(csv_cell("a,b"), "\"a,b\"");
    assert_eq!(csv_cell("a\nb"), "\"a\nb\"");
    assert_eq!(csv_cell("\""), "\"\"\"\"");
    assert_eq!(seconds_text(200_000_000_000), "200");
}

#[test]
fn sheets_are_filled_before_they_are_saved() {
    let text = |s: &str| s.to_string();
    assert!(fill_sheet("Plays", &vec![vec![text("a"), text("")], vec![text("_x0001_")]]).is_ok());
    let long = "x".repeat(32_768);
    let err = fill_sheet("Plays", &vec![vec![text("a")], vec![long]]).map(|_| ()).unwrap_err();
    assert!(err.starts_with("xlsx row 1: String exceeds"), "{err}");
    let wide = vec![text("a"); 16_385];
    let err = pack_table("Plays", &vec![wide]).unwrap_err();
    assert!(err.starts_with("xlsx header: Row or column exceeds"), "{err}");
}
