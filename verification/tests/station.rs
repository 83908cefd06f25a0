use crabcore::ads::AdsManager;
use crabcore::audio::cue::CueConfig;
use crabcore::audio::mic::MicConfig;
use crabcore::cart::CartManager;
use crabcore::clock::Stamp;
use crabcore::db::{
    after_step, event_repair, track_repairs, AdBlockRow, CartRow, Database, Mark, ReplaceCounts,
    SchedulerRow, SchemaStep, BUSY_TIMEOUT_MS, SCHEMA_VERSION,
};
use crabcore::error::CrabError;
use crabcore::paths::{
    default_root, join_path, resolve_from, same_file, sidecars, AppPaths, CopyOutcome,
    FileMigration, MigrationPlan, Sighting,
};
use crabcore::scheduler::SchedulerManager;
use crabcore::settings::{
    quarantine_target, AppSettings, FileOutcome, SettingsLoad, AUTO_SYNC_DEFAULT_MINUTES,
    AUTO_SYNC_MAX_MINUTES, AUTO_SYNC_MIN_MINUTES, TARGET_MIN_UDB,
};
use crabcore::voice::manager::VoiceManager;
use crabcore::voice::take::{suggest_filename, suggest_name, VoiceTap, VOICE_MAX_RECORD_SECS};
use crabcore::voice::wav::{header, WavWriter};

const HIGHEST: i64 = -5_000_000;

#[test]
fn corrupt_or_missing_falls_back() {
    let load = AppSettings::load("nope.json", FileOutcome::NotFound, HIGHEST);
    assert!(matches!(load, SettingsLoad::Missing(_)));
    assert!(load.warning().is_none(), "first run stays quiet");
    assert!(!load.needs_quarantine());
    let d = load.settings();
    assert_eq!(d.crossfade_us, 3_000_000);
    assert_eq!(d.station_name, "CrabBoss FM");
    let blank = AppSettings { station_name: "   ".to_string(), ..Default::default() };
    let load = AppSettings::load("blank.json", FileOutcome::Parsed(blank), HIGHEST);
    assert!(matches!(load, SettingsLoad::Loaded(_)));
    assert_eq!(load.settings().station_name, "CrabBoss FM");
    let load =
        AppSettings::load("bad.json", FileOutcome::Malformed("expected ident".into()), HIGHEST);
    assert!(matches!(load, SettingsLoad::Invalid { .. }));
    let warn = load.warning().expect("invalid file warns");
    assert!(warn.contains("invalid JSON"), "actionable: {warn}");
    assert!(load.needs_quarantine());
    assert!(load.settings().output_device.is_none());
    let wild = AppSettings {
        output_device: None,
        crossfade_us: 99_000_000,
        silence_threshold_us: 100_000,
        ..Default::default()
    };
    let d = AppSettings::load("clamp.json", FileOutcome::Parsed(wild), HIGHEST).settings();
    assert_eq!((d.crossfade_us, d.silence_threshold_us), (30_000_000, 1_000_000));
    let mut gains = vec![0i64; 12];
    gains[0] = 99_000_000;
    gains[1] = -99_000_000;
    let loud = AppSettings {
        eq_gains_udb: gains,
        limiter_ceiling: 5_000_000,
        loudness_target_udb: -99_000_000,
        ..Default::default()
    };
    let d = AppSettings::load("eq.json", FileOutcome::Parsed(loud), HIGHEST).settings();
    assert_eq!((d.eq_gains_udb[0], d.eq_gains_udb[1]), (12_000_000, -12_000_000));
    assert_eq!(d.limiter_ceiling, 1_000_000);
    assert_eq!(d.loudness_target_udb, TARGET_MIN_UDB);
}

#[test]
fn defaults_are_as_documented() {
    let s = AppSettings::load("none", FileOutcome::NotFound, HIGHEST).settings();
    assert_eq!(s.station_name, "CrabBoss FM");
    assert_eq!(s.crossfade_us, 3_000_000);
    assert!(!s.stream.enabled);
    assert_eq!(s.stream.port, 8000);
    assert_eq!(s.stream.mount, "/stream");
    assert!(!s.stream.tls);
    assert_eq!(s.loudness_target_udb, -9_000_000);
    assert!(!s.mic.enabled);
    assert_eq!((s.stream.host.as_str(), s.stream.username.as_str()), ("127.0.0.1", "source"));
    assert_eq!((s.stream.bitrate_kbps, s.stream.sid), (128, 1));
    assert!(s.mic.device.is_none() && s.mic.duck_enabled);
    assert_eq!((s.mic.duck_depth_udb, s.mic.attack_us), (12_000_000, 10_000));
}

#[test]
fn bus_preferences_clamp_on_load() {
    let s = AppSettings {
        cue: CueConfig { device: None, volume: 9_000_000 },
        mic: MicConfig { level: 9_000_000, attack_us: 0, ..Default::default() },
        ..Default::default()
    };
    let back = AppSettings::load("x", FileOutcome::Parsed(s), HIGHEST).settings();
    assert_eq!(back.cue.volume, 1_500_000);
    assert_eq!(back.mic.level, 1_500_000);
    assert_eq!(back.mic.attack_us, 1_000);
}

#[test]
fn autosync_defaults_clamps_and_dedupes() {
    let d = AppSettings { station_name: "Old".to_string(), ..Default::default() }.sanitized(HIGHEST);
    assert!(d.watch_folders.is_empty());
    assert!(!d.auto_sync_enabled);
    assert_eq!(d.auto_sync_interval_mins, AUTO_SYNC_DEFAULT_MINUTES);
    let every = |mins: u32| {
        AppSettings { auto_sync_interval_mins: mins, ..Default::default() }
            .sanitized(HIGHEST)
            .auto_sync_interval_mins
    };
    assert_eq!(every(1), AUTO_SYNC_MIN_MINUTES);
    assert_eq!(every(99999), AUTO_SYNC_MAX_MINUTES);
    let folders = AppSettings {
        watch_folders: ["D:/mix", "", "D:/mix", "E:/jingles"].iter().map(|s| s.to_string()).collect(),
        ..Default::default()
    }
    .sanitized(HIGHEST);
    assert_eq!(folders.watch_folders, vec!["D:/mix", "E:/jingles"]);
}

#[test]
fn unreadable_path_is_io_error_not_missing() {
    let load = AppSettings::load("dir.json", FileOutcome::Unreadable("is a directory".into()), HIGHEST);
    assert!(matches!(load, SettingsLoad::IoError { .. }));
    let warn = load.warning().expect("I/O failure warns");
    assert!(warn.contains("cannot read"), "actionable: {warn}");
    assert!(load.needs_quarantine());
}

#[test]
fn quarantine_names_carry_the_moment() {
    let now = Stamp { secs: 1_714_557_600, nanos: 0 };
    let backup = quarantine_target("/tmp/settings.json", true, now).expect("something to preserve");
    assert!(backup.starts_with("/tmp/settings.json.corrupt-"), "{backup}");
    assert!(backup.contains("20240501-100000"), "{backup}");
    assert!(quarantine_target("/tmp/settings.json", false, now).is_none());
}

#[test]
fn suggested_names_carry_timestamps() {
    let now = Stamp { secs: 1_714_557_600, nanos: 0 };
    let file = suggest_filename(now);
    assert!(file.starts_with("voice-"), "{file}");
    assert!(file.ends_with(".wav"), "{file}");
    assert_eq!(file, "voice-20240501-100000.wav");
    let name = suggest_name(now);
    assert!(name.starts_with("Voice "), "{name}");
    assert_eq!(name, "Voice 2024-05-01 10:00");
}

#[test]
fn record_budget_is_ten_minutes() {
    assert_eq!(VOICE_MAX_RECORD_SECS, 600);
}

#[test]
fn tap_stages_pairs_and_drops_overflow_without_blocking() {
    let bits = |v: &[f32]| -> Vec<u32> { v.iter().map(|s| s.to_bits()).collect() };
    let (producer, mut cons) = rtrb::RingBuffer::new(8);
    let mut tap = VoiceTap { producer };
    tap.push_slice(&bits(&[0.1, 0.2, 0.3, 0.4]));
    assert_eq!(cons.slots(), 4);
    tap.push_slice(&bits(&[0.5, 0.6, 0.7, 0.8, 0.9, 1.0]));
    assert_eq!(cons.slots(), 8);
    let mut got = Vec::new();
    while let Ok(s) = cons.pop() {
        got.push(f32::from_bits(s));
    }
    assert_eq!(got.len() % 2, 0, "pairs must stay intact");
    assert!((got[0] - 0.1).abs() < 1e-6);
}

fn wav_bytes(channels: u16, rate: u32, samples: &[i16]) -> (u64, u64, Vec<u8>) {
    let mut w = WavWriter::create(channels, rate).unwrap();
    let mut file = header(channels, rate, 0);
    file.extend(w.write_frames(samples));
    let (meta, riff, data) = w.finalize();
    file[4..8].copy_from_slice(&riff);
    file[40..44].copy_from_slice(&data);
    (meta.samples, meta.duration_nanos(), file)
}

#[test]
fn header_roundtrips_sizes() {
    let (samples, nanos, h) = wav_bytes(2, 48_000, &vec![0i16; 48_000 * 2]);
    assert_eq!(samples, 48_000);
    assert_eq!(nanos, 1_000_000_000);
    assert_eq!(&h[0..4], b"RIFF");
    assert_eq!(&h[8..12], b"WAVE");
    assert_eq!(u16::from_le_bytes([h[22], h[23]]), 2);
    assert_eq!(u32::from_le_bytes([h[24], h[25], h[26], h[27]]), 48_000);
    let data = u32::from_le_bytes([h[40], h[41], h[42], h[43]]);
    assert_eq!(data, 48_000 * 2 * 2);
    let riff = u32::from_le_bytes([h[4], h[5], h[6], h[7]]);
    assert_eq!(riff, 36 + data);
    assert_eq!(h.len() as u64, 44 + data as u64);
}

#[test]
fn empty_take_finalizes_to_valid_header() {
    let (samples, nanos, h) = wav_bytes(1, 44_100, &[]);
    assert_eq!(samples, 0);
    assert_eq!(nanos, 0);
    assert_eq!(&h[0..4], b"RIFF");
    assert_eq!(u32::from_le_bytes([h[40], h[41], h[42], h[43]]), 0);
}

#[test]
fn rejects_bad_params() {
    assert!(WavWriter::create(0, 48_000).is_err());
    assert!(WavWriter::create(3, 48_000).is_err());
    assert!(WavWriter::create(2, 0).is_err());
}

#[test]
fn samples_are_little_endian() {
    let mut w = WavWriter::create(2, 48_000).unwrap();
    assert_eq!(w.write_frames(&[1, -2, 3]), vec![1, 0, 0xFE, 0xFF]);
    assert_eq!(w.samples, 1);
}

#[test]
fn crud_roundtrips_newest_first() {
    let mut mgr = VoiceManager::new();
    let a = mgr.create("Voice A", "/v/a.wav", 3_500_000_000, 48_000).unwrap();
    let b = mgr.create("Voice B", "/v/b.wav", 7_250_000_000, 44_100).unwrap();
    assert_ne!(a.id, b.id);
    let list = mgr.list_all().unwrap();
    assert_eq!(list.len(), 2);
    assert_eq!(list[0].id, b.id);
    assert_eq!(list[1].id, a.id);
    assert_eq!(list[0].duration_nanos, 7_250_000_000);
    assert_eq!(list[0].sample_rate, 44_100);
}

#[test]
fn find_by_path_hits_and_misses() {
    let mut mgr = VoiceManager::new();
    let v = mgr.create("Take", "/v/take.wav", 2_000_000_000, 48_000).unwrap();
    let hit = mgr.find_by_path("/v/take.wav").unwrap().unwrap();
    assert_eq!(hit.id, v.id);
    assert_eq!(hit.name, "Take");
    assert!(mgr.find_by_path("/v/nope.wav").unwrap().is_none());
}

#[test]
fn delete_removes_row_and_file() {
    let mut mgr = VoiceManager::new();
    let v = mgr.create("Gone", "/tmp/gone.wav", 1_000_000_000, 48_000).unwrap();
    assert_eq!(mgr.delete(&v.id).as_deref(), Some("/tmp/gone.wav"), "audio file must go with the row");
    assert!(mgr.list_all().unwrap().is_empty());
    assert!(mgr.delete(&v.id).is_none());
}

fn args(v: &[&str]) -> Vec<String> {
    v.iter().map(|s| s.to_string()).collect()
}

#[test]
fn data_dir_override_parses_both_forms() {
    let root = |a: &[&str]| resolve_from(&args(a), "/legacy", "/usual").root;
    assert_eq!(root(&["--data-dir", "/tmp/portable"]), "/tmp/portable");
    assert_eq!(root(&["--data-dir=/tmp/eq"]), "/tmp/eq");
    assert_ne!(root(&["--data-dir"]), "--data-dir");
    let r = resolve_from(&args(&["--engine", "cpal"]), "/legacy", "/usual");
    assert_eq!(r.settings, join_path(&r.root, "settings.json"));
    assert_eq!(r.database, join_path(&r.root, "crabboss.db"));
    assert_eq!(r.license, "/legacy/license.json");
    assert_eq!(default_root(Some("/data"), "/here"), "/data/CrabBoss");
    assert_eq!(default_root(None, "/here"), "/here/CrabBoss-data");
}

fn paths_for(legacy: &str, root: &str) -> AppPaths {
    AppPaths {
        settings: join_path(root, "settings.json"),
        database: join_path(root, "crabboss.db"),
        license: join_path(legacy, "license.json"),
        root: root.to_string(),
    }
}

fn seen(to_exists: bool, from_exists: bool) -> Sighting {
    Sighting { to_exists, from_exists, copy: CopyOutcome::Done }
}

#[test]
fn migration_copies_legacy_when_destination_missing() {
    let paths = paths_for("/l", "/r");
    let plan = paths.plan_legacy("/l", (false, true), (false, true));
    assert_eq!(plan, (MigrationPlan::Copy, MigrationPlan::Copy));
    let report = paths.migrate_legacy("/l", seen(false, true), seen(false, true));
    assert!(report.copied_any());
    assert!(matches!(
        &report.database,
        FileMigration::Copied { from, to } if from == "/l/crabboss.db" && to == "/r/crabboss.db"
    ));
    let report = paths.migrate_legacy("/l", seen(true, true), seen(true, true));
    assert!(!report.copied_any());
    assert_eq!(sidecars("x"), vec!["x-wal", "x-shm", "x-journal"]);
}

#[test]
fn migration_existing_destination_always_wins() {
    let report = paths_for("/l", "/r").migrate_legacy("/l", seen(true, true), seen(false, false));
    assert!(matches!(report.settings, FileMigration::SkippedExisting));
}

#[test]
fn migration_without_legacy_is_noop() {
    let report = paths_for("/l", "/r").migrate_legacy("/l", seen(false, false), seen(false, false));
    assert!(matches!(report.settings, FileMigration::SkippedNoLegacy));
    assert!(matches!(report.database, FileMigration::SkippedNoLegacy));
    assert!(!report.copied_any());
}

#[test]
fn migration_onto_self_is_noop() {
    let report = paths_for("/l", "/l/./").migrate_legacy("/l", seen(false, true), seen(false, true));
    assert!(matches!(report.settings, FileMigration::SkippedExisting));
    assert!(same_file("/a//b/", "/a/./b"));
    assert!(!same_file("a/b", "/a/b"));
    assert!(!same_file("./a", "a"));
}

#[test]
fn failed_copies_say_why() {
    let no_folder = Sighting {
        to_exists: false,
        from_exists: true,
        copy: CopyOutcome::NoFolder { folder: "/r".to_string(), why: "denied".to_string() },
    };
    let full = Sighting {
        to_exists: false,
        from_exists: true,
        copy: CopyOutcome::CopyFailed("disk full".to_string()),
    };
    let report = paths_for("/l", "/r").migrate_legacy("/l", no_folder, full);
    assert!(matches!(&report.settings, FileMigration::Failed { error, .. } if error == "cannot create /r: denied"));
    assert!(matches!(&report.database, FileMigration::Failed { error, .. } if error == "copy failed: disk full"));
}

#[test]
fn fresh_initialize_reaches_current_version_idempotently() {
    let steps = Database::initialize(0).unwrap();
    assert_eq!(steps.iter().map(|s| s.version).collect::<Vec<_>>(), vec![1, 2, 3]);
    let mut version = 0;
    for s in &steps {
        version = after_step(s, Ok(())).unwrap();
    }
    assert_eq!(version, SCHEMA_VERSION);
    assert!(Database::initialize(version).unwrap().is_empty());
}

#[test]
fn an_interrupted_upgrade_goes_on_where_it_stopped() {
    let first = Database::initialize(0).unwrap();
    let version = after_step(&first[0], Ok(())).unwrap();
    let rest = Database::initialize(version).unwrap();
    assert_eq!(rest.iter().map(|s| s.version).collect::<Vec<_>>(), vec![2, 3]);
}

#[test]
fn legacy_tables_are_repaired() {
    let old = args(&["id", "file_path"]);
    let fixes = track_repairs(&old);
    assert_eq!(fixes.len(), 6);
    assert!(fixes[0].contains("kind TEXT NOT NULL DEFAULT 'music'"));
    let whole =
        args(&["kind", "daypart_start", "daypart_end", "daypart_days", "loudness_lufs", "loudness_gain_db"]);
    assert!(track_repairs(&whole).is_empty());
    assert!(event_repair(false).unwrap().contains("expires_on"));
    assert!(event_repair(true).is_none());
}

#[test]
fn failed_migration_reports_context_and_bumps_nothing() {
    let step = SchemaStep { version: 1, name: "broken" };
    let err = after_step(&step, Err("near THIS: syntax error".to_string()))
        .expect_err("bad SQL must fail");
    match err {
        CrabError::Migration { version, name, .. } => {
            assert_eq!(version, 1);
            assert_eq!(name, "broken");
        }
        other => panic!("expected Migration error, got {other:?}"),
    }
}

#[test]
fn newer_database_is_rejected_with_context() {
    let err = Database::initialize(SCHEMA_VERSION + 10).map(|_| ()).expect_err("downgrade must fail");
    assert!(matches!(err, CrabError::SchemaTooNew { .. }), "{err:?}");
}

#[test]
fn busy_timeout_is_bounded() {
    assert_eq!(BUSY_TIMEOUT_MS, 5000);
}

fn sched_row(name: &str) -> SchedulerRow {
    SchedulerRow {
        name: name.into(),
        action_type: "play".into(),
        target: "x.mp3".into(),
        start_time: "08:00".into(),
        days: "Daily".into(),
        expires_on: None,
        enabled: true,
    }
}

fn cart_row(label: &str, position: i32) -> CartRow {
    CartRow { label: label.into(), file_path: "C:/a.mp3".into(), position }
}

fn ad_row(name: &str) -> AdBlockRow {
    AdBlockRow {
        name: name.into(),
        spot_path: "C:/s.mp3".into(),
        intro_path: None,
        outro_path: Some("C:/o.mp3".into()),
        start_date: "2026-01-01".into(),
        end_date: "2026-12-31".into(),
        play_time: "09:00".into(),
        days: "Daily".into(),
        enabled: false,
    }
}

#[test]
fn replace_swaps_all_lists_together() {
    let (mut e, mut c, mut a) = (SchedulerManager::new(), CartManager::new(), AdsManager::new());
    e.create("Old", "play", "o.mp3", "07:00", "Daily", None).unwrap();
    let counts = Database::replace_station_lists(
        &mut e,
        &mut c,
        &mut a,
        &[sched_row("New")],
        &[cart_row("Pad", 3)],
        &[ad_row("Break")],
    )
    .unwrap();
    assert_eq!(counts, ReplaceCounts { scheduler: 1, carts: 1, ads: 1 });
    assert_eq!(e.rows.iter().map(|r| r.name.as_str()).collect::<Vec<_>>(), vec!["New"]);
    assert_eq!((c.rows[0].label.as_str(), c.rows[0].position), ("Pad", 3));
    assert_eq!((a.rows[0].enabled, a.rows[0].intro_path.as_str()), (false, ""));
}

#[test]
fn replace_failure_rolls_back_every_list() {
    let (mut e, mut c, mut a) = (SchedulerManager::new(), CartManager::new(), AdsManager::new());
    e.create("Keep", "play", "k.mp3", "07:00", "Daily", None).unwrap();
    let at = Stamp { secs: 0, nanos: 0 };
    let mark = |id: &str| Mark { id: id.to_string(), at };
    let err = Database::replace_lists_with(
        &mut e,
        &mut c,
        &mut a,
        &[sched_row("New")],
        &[cart_row("Pad", 0), cart_row("Pad", 1)],
        &[ad_row("Break")],
        &vec![mark("1")],
        &vec![mark("2"), mark("2")],
        &vec![mark("3")],
    )
    .expect_err("clashing ids must fail the replace");
    assert!(matches!(err, CrabError::BulkReplace(_)), "{err:?}");
    assert_eq!(e.rows.len(), 1);
    assert_eq!(e.rows[0].name, "Keep");
    assert!(c.rows.is_empty() && a.rows.is_empty());
}

#[test]
fn replace_cart_positions_are_last_wins() {
    let (mut e, mut c, mut a) = (SchedulerManager::new(), CartManager::new(), AdsManager::new());
    let counts = Database::replace_station_lists(
        &mut e,
        &mut c,
        &mut a,
        &[],
        &[cart_row("First", 0), cart_row("Second", 0)],
        &[],
    )
    .unwrap();
    assert_eq!(counts, ReplaceCounts { scheduler: 0, carts: 1, ads: 0 });
    assert_eq!(c.rows.len(), 1);
    assert_eq!(c.rows[0].label, "Second");
    assert_eq!(c.rows[0].position, 0);
}

#[test]
fn replace_rejects_bad_position_without_touching_anything() {
    let (mut e, mut c, mut a) = (SchedulerManager::new(), CartManager::new(), AdsManager::new());
    e.create("Keep", "play", "k.mp3", "07:00", "Daily", None).unwrap();
    let err =
        Database::replace_station_lists(&mut e, &mut c, &mut a, &[], &[cart_row("Bad", 99)], &[])
            .map(|_| ())
            .expect_err("out-of-range pad must fail closed");
    assert!(err.message().contains("bad cart position 99"));
    assert_eq!(e.rows.len(), 1);
    assert_eq!(c.rows.len(), 0);
}
