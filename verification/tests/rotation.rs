use crabcore::clock::Stamp;
use crabcore::library::catalog::Library;
use crabcore::library::kind::TrackKind;
use crabcore::library::track::Track;
use crabcore::playlist::generator::{
    forecast_up_next, generate, generate_next, GenConfig, PlaycountPriority, RuleHistory,
};

fn track(id: &str, file: &str, artist: &str, genre: Option<&str>, plays: i32) -> Track {
    Track {
        id: id.to_string(),
        file_path: format!("/m/{file}"),
        file_name: file.to_string(),
        title: None,
        artist: Some(artist.to_string()),
        album: None,
        genre: genre.map(str::to_string),
        year: None,
        track_number: None,
        duration_nanos: None,
        file_size: None,
        sample_rate: None,
        channels: None,
        kind: TrackKind::Music,
        daypart_start: None,
        daypart_end: None,
        daypart_days: "Daily".to_string(),
        loudness_udb: None,
        gain_udb: None,
        added_at: Stamp { secs: 1_704_067_200, nanos: 0 },
        last_played_at: None,
        play_count: plays,
        bpm: None,
        tags: String::new(),
    }
}

fn mem_lib(tracks: &[(&str, &str, &str, i32)]) -> Library {
    let mut lib = Library::new();
    for (i, (file, artist, genre, plays)) in tracks.iter().enumerate() {
        lib.insert(track(&format!("id-{i}"), file, artist, Some(genre), *plays));
    }
    lib
}

#[test]
fn respects_artist_window_when_possible() {
    let lib = mem_lib(&[
        ("a1.mp3", "A", "Rock", 0),
        ("a2.mp3", "A", "Rock", 0),
        ("b1.mp3", "B", "Pop", 0),
        ("c1.mp3", "C", "Jazz", 0),
    ]);
    let cfg = GenConfig {
        target_tracks: 4,
        artist_window: 2,
        genre_gap: 0,
        jingles_every: 0,
        ..Default::default()
    };
    let out = generate(&lib, &cfg).unwrap();
    assert_eq!(out.len(), 4);
    let artists: Vec<_> = out.iter().map(|t| t.artist.clone().unwrap()).collect();
    for (i, a) in artists.iter().enumerate() {
        assert!(
            !artists[i.saturating_sub(2)..i].contains(a),
            "artist repeated too soon: {:?}",
            artists
        );
    }
}

#[test]
fn least_played_first() {
    let lib = mem_lib(&[("hit.mp3", "Star", "Pop", 100), ("deep.mp3", "Nobody", "Rock", 0)]);
    let cfg = GenConfig {
        target_tracks: 1,
        artist_window: 0,
        title_window: 0,
        album_window: 0,
        genre_gap: 0,
        jingles_every: 0,
        ..Default::default()
    };
    let out = generate(&lib, &cfg).unwrap();
    assert_eq!(out[0].file_name, "deep.mp3");
}

#[test]
fn most_played_first() {
    let lib = mem_lib(&[("hit.mp3", "Star", "Pop", 100), ("deep.mp3", "Nobody", "Rock", 0)]);
    let cfg = GenConfig {
        target_tracks: 1,
        priority: PlaycountPriority::MostPlayed,
        ..Default::default()
    };
    assert_eq!(generate(&lib, &cfg).unwrap()[0].file_name, "hit.mp3");
}

#[test]
fn daypart_filters_ineligible() {
    let mut lib = Library::new();
    let mut night = track("n1", "night.mp3", "Owl", None, 0);
    night.daypart_start = Some(22);
    night.daypart_end = Some(6);
    lib.insert(night);
    lib.insert(track("d1", "day.mp3", "Lark", None, 0));
    let mut cfg = GenConfig { target_tracks: 5, jingles_every: 0, ..Default::default() };
    cfg.hour = 10;
    let out = generate(&lib, &cfg).unwrap();
    assert!(out.iter().all(|t| t.file_name == "day.mp3"));
    cfg.hour = 23;
    let out = generate(&lib, &cfg).unwrap();
    assert!(out.iter().any(|t| t.file_name == "night.mp3"));
}

#[test]
fn relaxes_instead_of_stalling() {
    let lib = mem_lib(&[("only.mp3", "Solo", "Rock", 0)]);
    let cfg = GenConfig { target_tracks: 3, jingles_every: 0, ..Default::default() };
    let out = generate(&lib, &cfg).unwrap();
    assert_eq!(out.len(), 3);
}

#[test]
fn empty_library_gives_empty() {
    let lib = Library::new();
    assert!(generate(&lib, &GenConfig::default()).unwrap().is_empty());
}

fn next_cfg() -> GenConfig {
    GenConfig {
        target_tracks: 1,
        artist_window: 2,
        title_window: 0,
        album_window: 0,
        genre_gap: 0,
        jingles_every: 0,
        ..Default::default()
    }
}

#[test]
fn generate_next_honors_seeded_history() {
    let lib = mem_lib(&[
        ("a1.mp3", "A", "Rock", 0),
        ("a2.mp3", "A", "Rock", 0),
        ("b1.mp3", "B", "Pop", 0),
    ]);
    let cfg = next_cfg();
    let mut history = RuleHistory::default();
    let first = generate_next(&lib, &cfg, &mut history).unwrap().unwrap();
    assert_eq!(first.file_name, "a1.mp3");
    let second = generate_next(&lib, &cfg, &mut history).unwrap().unwrap();
    assert_eq!(second.file_name, "b1.mp3");
    let third = generate_next(&lib, &cfg, &mut history).unwrap().unwrap();
    assert_eq!(third.file_name, "a1.mp3");
}

#[test]
fn generate_next_empty_library_is_none() {
    let lib = Library::new();
    let mut history = RuleHistory::default();
    assert!(generate_next(&lib, &next_cfg(), &mut history).unwrap().is_none());
}

#[test]
fn forecast_lists_successive_picks_with_separation() {
    let lib = mem_lib(&[
        ("a1.mp3", "A", "Rock", 0),
        ("a2.mp3", "A", "Rock", 0),
        ("b1.mp3", "B", "Pop", 0),
    ]);
    let cfg = next_cfg();
    let history = RuleHistory::default();
    let out = forecast_up_next(&lib, &cfg, &history, 5);
    let names: Vec<_> = out.iter().map(|t| t.file_name.as_str()).collect();
    assert_eq!(names, vec!["a1.mp3", "b1.mp3", "a1.mp3", "a1.mp3", "b1.mp3"]);
    let empty = Library::new();
    assert!(forecast_up_next(&empty, &cfg, &history, 5).is_empty());
}

fn jingle_cfg() -> GenConfig {
    GenConfig { target_tracks: 6, jingles_every: 2, ..Default::default() }
}

fn lib_with_jingle() -> Library {
    let mut lib = mem_lib(&[
        ("m1.mp3", "A", "Rock", 0),
        ("m2.mp3", "B", "Pop", 0),
        ("m3.mp3", "C", "Jazz", 0),
    ]);
    let mut j = track("j1", "j1.mp3", "Station", Some("ID"), 0);
    j.kind = TrackKind::Jingle;
    lib.insert(j);
    lib
}

#[test]
fn generate_next_inserts_jingles_at_interval() {
    let lib = lib_with_jingle();
    let cfg = jingle_cfg();
    let mut history = RuleHistory::default();
    let mut kinds = Vec::new();
    let mut names = Vec::new();
    for _ in 0..6 {
        let t = generate_next(&lib, &cfg, &mut history).unwrap().expect("library is not empty");
        kinds.push(t.kind);
        names.push(t.file_name.clone());
    }
    assert_eq!(names, vec!["m1.mp3", "m2.mp3", "j1.mp3", "m3.mp3", "m1.mp3", "j1.mp3"]);
    assert!(kinds[2] == TrackKind::Jingle && kinds[5] == TrackKind::Jingle);
    let batch = generate(&lib, &cfg).unwrap();
    let batch_names: Vec<_> = batch.iter().map(|t| t.file_name.as_str()).collect();
    assert_eq!(batch_names, vec!["m1.mp3", "m2.mp3", "j1.mp3", "m3.mp3", "m1.mp3", "j1.mp3"]);
}

#[test]
fn generate_next_without_jingles_stays_music() {
    let lib = mem_lib(&[("m1.mp3", "A", "Rock", 0)]);
    let cfg = jingle_cfg();
    let mut history = RuleHistory::default();
    for _ in 0..4 {
        let t = generate_next(&lib, &cfg, &mut history).unwrap().unwrap();
        assert_eq!(t.kind, TrackKind::Music);
    }
}

#[test]
fn a_pick_blocks_its_own_artist() {
    let cfg = next_cfg();
    let mut history = RuleHistory::default();
    let a = track("1", "a.mp3", "A", None, 0);
    assert!(history.allows(&a));
    history.push_track(&a, &cfg);
    assert!(!history.allows(&a));
    assert!(history.allows(&track("2", "b.mp3", "B", None, 0)));
}

#[test]
fn a_title_waits_whoever_performs_it() {
    let mut lib = Library::new();
    for (id, file, title, artist) in
        [("1", "x.mp3", "Song", "A"), ("2", "y.mp3", "Song", "B"), ("3", "z.mp3", "Other", "C")]
    {
        let mut t = track(id, file, artist, None, 0);
        t.title = Some(title.to_string());
        lib.insert(t);
    }
    let cfg = GenConfig { target_tracks: 2, artist_window: 0, title_window: 1, ..next_cfg() };
    let names: Vec<_> = generate(&lib, &cfg).unwrap().into_iter().map(|t| t.file_name).collect();
    assert_eq!(names, vec!["x.mp3", "z.mp3"]);
}

#[test]
fn a_look_ahead_shows_what_then_plays() {
    let lib = lib_with_jingle();
    let cfg = jingle_cfg();
    let mut history = RuleHistory::default();
    let ahead = forecast_up_next(&lib, &cfg, &history, 6);
    for t in &ahead {
        let next = generate_next(&lib, &cfg, &mut history).unwrap().unwrap();
        assert_eq!(next.file_name, t.file_name);
    }
    assert_eq!(ahead.len(), 6);
}

#[test]
fn jingles_without_a_title_still_play() {
    let mut lib = mem_lib(&[("a.mp3", "A", "Rock", 0)]);
    for (id, file) in [("j1", "one.mp3"), ("j2", "two.mp3")] {
        let mut t = track(id, file, "", None, 0);
        t.title = Some(String::new());
        t.kind = TrackKind::Jingle;
        lib.insert(t);
    }
    let cfg = GenConfig { jingles_every: 1, title_window: 4, artist_window: 0, ..next_cfg() };
    let names: Vec<_> = forecast_up_next(&lib, &cfg, &RuleHistory::default(), 4)
        .into_iter()
        .map(|t| t.file_name)
        .collect();
    assert_eq!(names, vec!["a.mp3", "one.mp3", "a.mp3", "two.mp3"]);
}
