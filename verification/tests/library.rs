use crabcore::clock::Stamp;
use crabcore::db::Mark;
use crabcore::library::artwork::{pick_artwork, Picture, MAX_ARTWORK_BYTES};
use crabcore::library::catalog::{
    file_name_of, is_audio_path, read_metadata, FoundFile, Library, Metadata, PlayRow, TagFields,
    TagRow,
};
use crabcore::library::dupes::{
    duplicate_ids, find_duplicate_groups, normalize_text, DuplicateGroup, DURATION_TOLERANCE_NANOS,
};
use crabcore::library::kind::TrackKind;
use crabcore::library::track::{map_row, Track, TrackRow};

const SECOND: u64 = 1_000_000_000;

fn track(id: &str, title: Option<&str>, artist: Option<&str>, dur: Option<u64>) -> Track {
    track_file(id, title, artist, dur, &format!("C:/mix/{id}.mp3"))
}

fn track_file(
    id: &str,
    title: Option<&str>,
    artist: Option<&str>,
    dur: Option<u64>,
    path: &str,
) -> Track {
    Track {
        id: id.to_string(),
        file_path: path.to_string(),
        file_name: path.rsplit(['/', '\\']).next().unwrap_or(path).to_string(),
        title: title.map(str::to_string),
        artist: artist.map(str::to_string),
        album: None,
        genre: None,
        year: None,
        track_number: None,
        duration_nanos: dur.map(|d| d * (SECOND / 10)),
        file_size: None,
        sample_rate: None,
        channels: None,
        kind: TrackKind::Music,
        daypart_start: None,
        daypart_end: None,
        daypart_days: "Daily".to_string(),
        loudness_udb: None,
        gain_udb: None,
        added_at: Stamp { secs: 1_704_067_200, nanos: 0 },
        last_played_at: None,
        play_count: 0,
        bpm: None,
        tags: String::new(),
    }
}

fn stored(lib: &mut Library, id: &str, path: &str, kind: TrackKind) {
    let mut t = track_file(id, None, None, None, path);
    t.kind = kind;
    lib.insert(t);
}

fn ids(groups: &[DuplicateGroup]) -> Vec<Vec<String>> {
    groups.iter().map(|g| g.tracks.iter().map(|t| t.id.clone()).collect()).collect()
}

#[test]
fn classify_paths() {
    let j = |p: &str| TrackKind::classify_path(p);
    assert_eq!(j("C:/radio/Jingles/toth.mp3"), TrackKind::Jingle);
    assert_eq!(j("/music/Station IDs/id1.wav"), TrackKind::Jingle);
    assert_eq!(j("/music/song_bumper.mp3"), TrackKind::Jingle);
    assert_eq!(j("/music/Ads/coke.mp3"), TrackKind::Ad);
    assert_eq!(j("/music/summer_ad.mp3"), TrackKind::Ad);
    assert_eq!(j("/music/Rock/madonna_hit.mp3"), TrackKind::Music);
    assert_eq!(j("/music/Rock/song.mp3"), TrackKind::Music);
    assert_eq!(j("C:/Users/DJ/Downloads/track01.mp3"), TrackKind::Music);
    assert_eq!(j("C:/Users/DJ/Music/Spotify/song.mp3"), TrackKind::Music);
    assert_eq!(j("/music/Bedroom Mix/chill.mp3"), TrackKind::Music);
    assert_eq!(j("/music/Raindrops Best/song.mp3"), TrackKind::Music);
    assert_eq!(j("/music/Spotlight - hits.mp3"), TrackKind::Music);
    assert_eq!(j("/music/lead vocal take.mp3"), TrackKind::Music);
    assert_eq!(j("/music/promenade.mp3"), TrackKind::Music);
    assert_eq!(j("/music/My Ads/coke.mp3"), TrackKind::Ad);
    assert_eq!(j("/music/StationIDs/toth.mp3"), TrackKind::Jingle);
    assert_eq!(j("/music/Iklan/sirup.mp3"), TrackKind::Ad);
    assert_eq!(j("/music/coke_spot.mp3"), TrackKind::Ad);
    assert_eq!(j("/music/promo_mix.mp3"), TrackKind::Ad);
}

#[test]
fn kinds_have_names() {
    for k in [TrackKind::Music, TrackKind::Jingle, TrackKind::Ad] {
        assert_eq!(TrackKind::parse(k.as_str()), k);
    }
    assert_eq!(TrackKind::parse("anything"), TrackKind::Music);
}

#[test]
fn reclassify_repairs_over_eager_labels() {
    let mut lib = Library::new();
    stored(&mut lib, "1", "C:/Users/DJ/Downloads/track01.mp3", TrackKind::Ad);
    stored(&mut lib, "2", "/music/Ads/coke.mp3", TrackKind::Ad);
    stored(&mut lib, "3", "/music/Rock/song.mp3", TrackKind::Music);
    assert_eq!(lib.reclassify_all().unwrap(), 1);
    let kind = |id: &str| lib.get_track(id).unwrap().unwrap().kind;
    assert_eq!(kind("1"), TrackKind::Music);
    assert_eq!(kind("2"), TrackKind::Ad);
    assert_eq!(kind("3"), TrackKind::Music);
    assert_eq!(lib.reclassify_all().unwrap(), 0);
}

#[test]
fn set_kind_and_list_by_kind() {
    let mut lib = Library::new();
    for (name, kind) in
        [("a.mp3", TrackKind::Music), ("b.mp3", TrackKind::Jingle), ("c.mp3", TrackKind::Ad)]
    {
        stored(&mut lib, name, &format!("/m/{name}"), kind);
    }
    assert_eq!(lib.list_by_kind(TrackKind::Music).unwrap().len(), 1);
    assert_eq!(lib.list_by_kind(TrackKind::Jingle).unwrap().len(), 1);
    let all = lib.get_all_tracks().unwrap();
    assert_eq!(all.len(), 3);
    let jingle = all.iter().find(|t| t.kind == TrackKind::Jingle).unwrap();
    lib.set_kind(&jingle.id, TrackKind::Music).unwrap();
    assert_eq!(lib.list_by_kind(TrackKind::Music).unwrap().len(), 2);
}

#[test]
fn loudness_store_and_lookup() {
    let mut lib = Library::new();
    stored(&mut lib, "1", "/m/a.mp3", TrackKind::Music);
    assert_eq!(lib.tracks_missing_loudness(10).unwrap().len(), 1);
    assert_eq!(lib.loudness_gain_by_path("/m/a.mp3").unwrap(), None);
    lib.set_loudness("1", -18_500_000, -4_500_000).unwrap();
    assert!(lib.tracks_missing_loudness(10).unwrap().is_empty());
    assert_eq!(lib.loudness_gain_by_path("/m/a.mp3").unwrap(), Some(-4_500_000));
    let t = &lib.get_all_tracks().unwrap()[0];
    assert_eq!(t.loudness_udb, Some(-18_500_000));
    assert_eq!(t.gain_udb, Some(-4_500_000));
    assert_eq!(lib.loudness_gain_by_path("/m/other.mp3").unwrap(), None);
}

#[test]
fn retarget_rewrites_gains_without_rescan() {
    let mut lib = Library::new();
    for (id, lufs, gain) in [
        ("old", Some(-10_000_000), Some(-13_000_000)),
        ("sentinel", Some(-70_000_000), Some(0)),
        ("fresh", None, None),
    ] {
        let mut t = track_file(id, None, None, None, &format!("/m/{id}.mp3"));
        t.loudness_udb = lufs;
        t.gain_udb = gain;
        lib.insert(t);
    }
    assert_eq!(lib.retarget_gains(-9_000_000, -23_000_000, -5_000_000).unwrap(), 1);
    let get = |lib: &Library, id: &str| lib.get_track(id).unwrap().unwrap();
    assert_eq!(get(&lib, "old").gain_udb, Some(1_000_000));
    assert_eq!(get(&lib, "old").loudness_udb, Some(-10_000_000));
    assert_eq!(get(&lib, "sentinel").gain_udb, Some(0));
    assert_eq!(get(&lib, "fresh").gain_udb, None);
    assert_eq!(lib.retarget_gains(-99_000_000, -23_000_000, -5_000_000).unwrap(), 1);
    let t = lib.find_by_path("/m/old.mp3").unwrap().unwrap();
    assert_eq!(t.gain_udb, Some(-13_000_000));
}

#[test]
fn count_missing_loudness_tracks_queue() {
    let mut lib = Library::new();
    assert_eq!(lib.count_missing_loudness().unwrap(), 0);
    for i in 0..3 {
        stored(&mut lib, &i.to_string(), &format!("/m/{i}.mp3"), TrackKind::Music);
    }
    assert_eq!(lib.count_missing_loudness().unwrap(), 3);
    lib.set_loudness("1", -18_500_000, -4_500_000).unwrap();
    assert_eq!(lib.count_missing_loudness().unwrap(), 2);
}

fn row() -> TrackRow {
    TrackRow {
        id: "1".to_string(),
        file_path: "/m/old.mp3".to_string(),
        file_name: "old.mp3".to_string(),
        title: None,
        artist: None,
        album: None,
        genre: None,
        year: None,
        track_number: None,
        duration_nanos: None,
        file_size: None,
        sample_rate: None,
        channels: None,
        kind: None,
        daypart_start: None,
        daypart_end: None,
        daypart_days: None,
        loudness_udb: None,
        gain_udb: None,
        added_at: "2024-01-01T00:00:00Z".to_string(),
        last_played_at: None,
        play_count: 0,
    }
}

#[test]
fn migrates_pre_kind_database() {
    let mut lib = Library::new();
    lib.insert(map_row(row(), Stamp { secs: 0, nanos: 0 }));
    let all = lib.get_all_tracks().unwrap();
    assert_eq!(all.len(), 1);
    assert_eq!(all[0].kind, TrackKind::Music);
}

#[test]
fn rows_fill_in_what_is_missing() {
    let now = Stamp { secs: 77, nanos: 0 };
    let t = map_row(row(), now);
    assert_eq!(t.added_at.secs, 1_704_067_200);
    assert_eq!(t.daypart_days, "Daily");
    assert!(t.last_played_at.is_none());
    let mut bad = row();
    bad.added_at = "yesterday".to_string();
    bad.last_played_at = Some("2024-01-01T00:00:01Z".to_string());
    bad.kind = Some("jingle".to_string());
    let t = map_row(bad, now);
    assert_eq!(t.added_at.secs, 77);
    assert_eq!(t.last_played_at.unwrap().secs, 1_704_067_201);
    assert_eq!(t.kind, TrackKind::Jingle);
}

#[test]
fn adding_a_file_again_keeps_the_first() {
    let mut lib = Library::new();
    let meta = |title: &str| Metadata {
        title: Some(title.to_string()),
        artist: None,
        album: None,
        genre: None,
        year: None,
        track_number: None,
        duration_nanos: Some(SECOND),
        sample_rate: Some(44100),
        channels: Some(2),
    };
    let a = lib.add_track("/m/Jingles/a.mp3", meta("One"), Some(10)).unwrap();
    assert_eq!(a.kind, TrackKind::Jingle);
    assert_eq!(a.file_name, "a.mp3");
    lib.add_track("/m/Jingles/a.mp3", meta("Two"), Some(10)).unwrap();
    let all = lib.get_all_tracks().unwrap();
    assert_eq!(all.len(), 1);
    assert_eq!(all[0].title.as_deref(), Some("One"));
    assert_eq!(all[0].id, a.id);
}

#[test]
fn dayparts_wrap_around_midnight() {
    let mut t = track("n", None, None, None);
    t.daypart_start = Some(22);
    t.daypart_end = Some(6);
    assert!(t.eligible_at(23, "Mon"));
    assert!(t.eligible_at(5, "Mon"));
    assert!(!t.eligible_at(6, "Mon"));
    assert!(!t.eligible_at(12, "Mon"));
    t.daypart_days = "Tue".to_string();
    assert!(!t.eligible_at(23, "Mon"));
}

#[test]
fn plays_are_counted_and_removed_with_their_track() {
    let mut lib = Library::new();
    stored(&mut lib, "1", "/m/a.mp3", TrackKind::Music);
    lib.record_play_at("1", Some(SECOND), Stamp { secs: 1_714_557_600, nanos: 0 }).unwrap();
    let t = lib.get_track("1").unwrap().unwrap();
    assert_eq!(t.play_count, 1);
    assert_eq!(t.last_played_at.unwrap().secs, 1_714_557_600);
    assert_eq!(lib.log[0].played_at, "2024-05-01T10:00:00+00:00");
    assert_eq!(lib.missing_files(&vec![false]).unwrap().len(), 1);
    lib.set_daypart("1", Some(6), Some(10), "Mon").unwrap();
    assert_eq!(lib.get_track("1").unwrap().unwrap().daypart_days, "Mon");
    lib.remove_track("1").unwrap();
    assert!(lib.log.is_empty());
    assert!(lib.get_track("1").unwrap().is_none());
}

#[test]
fn the_first_tag_stands_in_for_the_main_one() {
    let tags = |title: &str| TagFields {
        title: Some(title.to_string()),
        artist: None,
        album: None,
        genre: None,
        year: Some(1999),
        track: Some(3),
    };
    let m = read_metadata(Some(tags("main")), Some(tags("first")), SECOND, Some(48000), Some(2));
    assert_eq!(m.title.as_deref(), Some("main"));
    assert_eq!(m.year, Some(1999));
    let m = read_metadata(None, Some(tags("first")), SECOND, None, None);
    assert_eq!(m.title.as_deref(), Some("first"));
    assert_eq!(m.duration_nanos, Some(SECOND));
    assert!(read_metadata(None, None, 0, None, None).title.is_none());
}

#[test]
fn audio_files_are_known_by_their_extension() {
    assert!(is_audio_path("/m/a.MP3"));
    assert!(is_audio_path("b.flac"));
    assert!(!is_audio_path("/m/cover.jpg"));
    assert!(!is_audio_path("/m/mp3"));
    assert_eq!(file_name_of("/m/x/a.mp3"), "a.mp3");
}

#[test]
fn normalize_folds_case_space_and_punctuation() {
    assert_eq!(normalize_text("  Hip-Hop  Anthem! "), "hip hop anthem");
    assert_eq!(normalize_text("DON'T Stop"), "dont stop");
    assert_eq!(normalize_text(""), "");
}

#[test]
fn same_song_groups_despite_case_and_spacing() {
    let tracks = vec![
        track("a", Some("Morning Show"), Some("The Band"), Some(1800)),
        track("b", Some("  morning  show "), Some("the band"), Some(1805)),
    ];
    assert_eq!(
        ids(&find_duplicate_groups(&tracks, DURATION_TOLERANCE_NANOS)),
        vec![vec!["a", "b"]]
    );
}

#[test]
fn different_artist_or_title_stays_apart() {
    let tracks = vec![
        track("a", Some("Song"), Some("Band A"), Some(1800)),
        track("b", Some("Song"), Some("Band B"), Some(1800)),
        track("c", Some("Other"), Some("Band A"), Some(1800)),
    ];
    assert!(find_duplicate_groups(&tracks, 2 * SECOND).is_empty());
}

#[test]
fn untagged_matches_only_untagged() {
    let tracks = vec![
        track("a", Some("Song"), None, Some(1800)),
        track("b", Some("Song"), Some("Band"), Some(1800)),
    ];
    assert!(find_duplicate_groups(&tracks, 2 * SECOND).is_empty());
}

#[test]
fn untagged_title_falls_back_to_file_stem() {
    let tracks = vec![
        track_file("a", None, None, Some(1800), "D:/rips/song.mp3"),
        track_file("b", None, None, Some(1800), "E:/backup/song.mp3"),
        track_file("c", None, None, Some(1800), "E:/backup/other.mp3"),
    ];
    assert_eq!(ids(&find_duplicate_groups(&tracks, 2 * SECOND)), vec![vec!["a", "b"]]);
}

#[test]
fn duration_gate_splits_versions() {
    let tracks = vec![
        track("a", Some("Song"), Some("Band"), Some(1800)),
        track("b", Some("Song"), Some("Band"), Some(1810)),
        track("c", Some("Song"), Some("Band"), Some(2400)),
    ];
    assert_eq!(ids(&find_duplicate_groups(&tracks, 2 * SECOND)), vec![vec!["a", "b"]]);
}

#[test]
fn unknown_duration_joins_as_weak_match() {
    let tracks = vec![
        track("a", Some("Song"), Some("Band"), Some(1800)),
        track("b", Some("Song"), Some("Band"), None),
    ];
    assert_eq!(ids(&find_duplicate_groups(&tracks, 2 * SECOND)), vec![vec!["a", "b"]]);
}

#[test]
fn all_unknown_lengths_still_flagged() {
    let tracks = vec![
        track("a", Some("Song"), Some("Band"), None),
        track("b", Some("Song"), Some("Band"), None),
    ];
    assert_eq!(ids(&find_duplicate_groups(&tracks, 2 * SECOND)), vec![vec!["a", "b"]]);
}

#[test]
fn output_is_deterministic() {
    let tracks = vec![
        track("b", Some("Zed"), Some("Band"), Some(1800)),
        track("a", Some("Zed"), Some("Band"), Some(1800)),
        track("d", Some("Alpha"), Some("Band"), Some(1800)),
        track("c", Some("Alpha"), Some("Band"), Some(1800)),
    ];
    let groups = find_duplicate_groups(&tracks, 2 * SECOND);
    assert_eq!(groups.len(), 2);
    assert_eq!(groups[0].title, "Alpha");
    assert_eq!(groups[1].title, "Zed");
    assert_eq!(ids(&groups), vec![vec!["c", "d"], vec!["a", "b"]]);
    assert_eq!(groups[0].tracks[0].file_path, "C:/mix/c.mp3");
}

#[test]
fn duplicate_ids_covers_group_members_only() {
    let tracks = vec![
        track("a", Some("Song"), Some("Band"), Some(1800)),
        track("b", Some("Song"), Some("Band"), Some(1800)),
        track("c", Some("Solo"), Some("Band"), Some(1800)),
    ];
    let set = duplicate_ids(&find_duplicate_groups(&tracks, 2 * SECOND));
    let has = |id: &str| set.iter().any(|x| x == id);
    assert!(has("a") && has("b") && !has("c"));
    let mut twice = find_duplicate_groups(&tracks, 2 * SECOND);
    twice.extend(find_duplicate_groups(&tracks, 2 * SECOND));
    assert_eq!(duplicate_ids(&twice), ["a", "b"]);
}

fn picture(front_cover: bool, mime: &str, data: &[u8]) -> Picture {
    Picture { front_cover, mime: Some(mime.to_string()), data: data.to_vec() }
}

#[test]
fn pick_prefers_front_cover_over_first() {
    let pics = vec![
        picture(false, "image/png", b"artist"),
        picture(true, "image/jpeg", b"cover"),
    ];
    let art = pick_artwork(&pics).expect("cover wins");
    assert_eq!(art.mime, "image/jpeg");
    assert_eq!(art.data, b"cover");
}

#[test]
fn pick_falls_back_to_first_usable() {
    let pics = vec![picture(false, "image/png", b"back")];
    let art = pick_artwork(&pics).expect("fallback");
    assert_eq!(art.mime, "image/png");
}

#[test]
fn pick_skips_empty_and_oversized() {
    let big = vec![0xFF; MAX_ARTWORK_BYTES + 1];
    let pics = vec![
        picture(true, "image/jpeg", &[]),
        picture(true, "image/jpeg", &big),
        picture(true, "image/jpeg", b"ok"),
    ];
    let art = pick_artwork(&pics).expect("third picture");
    assert_eq!(art.data, b"ok");
    assert!(pick_artwork(&vec![]).is_none());
}

#[test]
fn queries_match_any_field_in_either_case() {
    let mut lib = Library::new();
    let mut a = track_file("a", Some("Zebra"), Some("The Owls"), None, "/m/one.mp3");
    a.genre = Some("Jazz".to_string());
    lib.insert(a);
    lib.insert(track_file("b", Some("Apple 100%"), None, None, "/m/two.mp3"));
    lib.insert(track_file("c", None, Some("owlish"), None, "/m/three_four.mp3"));
    let found = |q: &str| -> Vec<String> {
        lib.search(q).unwrap().into_iter().map(|t| t.id).collect()
    };
    assert_eq!(found("OWL"), ["c", "a"]);
    assert_eq!(found("jazz"), ["a"]);
    assert_eq!(found(".mp3"), ["c", "b", "a"]);
    assert_eq!(found(""), ["c", "b", "a"]);
    assert_eq!(found("t_o"), ["b"]);
    assert_eq!(found("A%e"), ["b"]);
    assert!(found("missing").is_empty());
}

#[test]
fn stored_tracks_come_back_as_they_were() {
    let mut t = track("a", Some("Song"), None, Some(1800));
    t.kind = TrackKind::Jingle;
    t.daypart_start = Some(22);
    t.daypart_end = Some(4);
    t.daypart_days = "Mon,Tue".to_string();
    t.last_played_at = Some(Stamp { secs: 1_714_557_600, nanos: 500_000_000 });
    let row = t.to_row();
    assert_eq!(row.kind.as_deref(), Some("jingle"));
    assert_eq!(row.added_at, "2024-01-01T00:00:00+00:00");
    assert_eq!(row.last_played_at.as_deref(), Some("2024-05-01T10:00:00.500+00:00"));
    let back = map_row(row, Stamp { secs: 0, nanos: 0 });
    assert_eq!(back.kind, TrackKind::Jingle);
    assert_eq!((back.daypart_start, back.daypart_end), (Some(22), Some(4)));
    assert_eq!(back.daypart_days, t.daypart_days);
    assert_eq!(back.added_at, t.added_at);
    assert_eq!(back.last_played_at, t.last_played_at);
    assert_eq!(back.title, t.title);

    let mut lib = Library::new();
    lib.insert(back);
    assert_eq!(lib.get_track("a").unwrap().unwrap().title, t.title);
    assert_eq!(lib.find_by_path(&t.file_path).unwrap().unwrap().id, "a");
}

#[test]
fn copies_of_a_file_are_told_by_their_number() {
    let tracks = vec![
        track_file("a", None, None, Some(1800), "C:/mix/song (1).mp3"),
        track_file("b", None, None, Some(1800), "C:/mix/song.mp3"),
        track_file("c", None, None, Some(1800), "C:/mix/song (live).mp3"),
        track_file("d", None, None, Some(1800), "C:/mix/(1).mp3"),
    ];
    assert_eq!(ids(&find_duplicate_groups(&tracks, 2 * SECOND)), vec![vec!["a", "b"]]);
}

#[test]
fn normalizing_twice_changes_nothing_more() {
    for s in ["  Don't  STOP! ", "hip-hop", "", "'", "A--B  c"] {
        let once = normalize_text(s);
        assert_eq!(normalize_text(&once), once);
    }
    assert_eq!(normalize_text("  Don't  STOP! "), "dont stop");
}

#[test]
fn groups_are_the_same_in_any_order() {
    let tracks = vec![
        track("a", Some("Zed"), Some("Band"), Some(1800)),
        track("b", Some("Alpha"), Some("Band"), Some(1800)),
        track("c", Some("Zed"), Some("Band"), Some(1810)),
        track("d", Some("Alpha"), Some("Band"), None),
        track("e", Some("Zed"), Some("Band"), None),
        track("f", Some("Alpha"), Some("Band"), Some(2600)),
    ];
    let want = ids(&find_duplicate_groups(&tracks, 2 * SECOND));
    assert_eq!(want, vec![vec!["b", "d"], vec!["a", "c", "e"]]);
    let mut other = tracks.clone();
    for _ in 0..tracks.len() {
        other.rotate_left(1);
        assert_eq!(ids(&find_duplicate_groups(&other, 2 * SECOND)), want);
    }
    other.reverse();
    assert_eq!(ids(&find_duplicate_groups(&other, 2 * SECOND)), want);
}

fn found(path: &str) -> FoundFile {
    FoundFile {
        path: path.to_string(),
        meta: read_metadata(None, None, SECOND, Some(44100), Some(2)),
        file_size: Some(1),
    }
}

#[test]
fn scans_count_only_what_is_new() {
    let mut lib = Library::new();
    let folder = || vec![found("/m/a.mp3"), found("/m/notes.txt"), found("/m/b.flac"), found("/m/a.mp3")];
    assert_eq!(lib.scan_directory(folder()), 2);
    assert_eq!(lib.scan_directory(folder()), 0, "known already");
    assert_eq!(lib.tracks.len(), 2);
    assert_eq!(lib.tracks[1].file_name, "b.flac");
    assert_eq!(lib.scan_directory(vec![found("/m/c.ogg"), found("/m/b.flac")]), 1);
}

#[test]
fn scans_leave_out_files_whose_id_is_taken() {
    let mut lib = Library::new();
    let mark = |id: &str| Mark { id: id.to_string(), at: Stamp { secs: 7, nanos: 0 } };
    let n = lib.scan_with(
        vec![found("/m/a.mp3"), found("/m/b.mp3"), found("/m/c.mp3")],
        &vec![mark("1"), mark("1"), mark("2")],
    );
    assert_eq!(n, 2);
    let kept: Vec<_> = lib.tracks.iter().map(|t| (t.id.as_str(), t.file_name.as_str())).collect();
    assert_eq!(kept, vec![("1", "a.mp3"), ("2", "c.mp3")]);
    assert_eq!(lib.tracks[1].added_at.secs, 7);
}

#[test]
fn tags_belong_to_tracks_and_come_once() {
    let mut lib = Library::new();
    stored(&mut lib, "1", "/m/a.mp3", TrackKind::Music);
    let tag = |id: &str, tag: &str| TagRow { track_id: id.to_string(), tag: tag.to_string() };
    lib.insert_tag(tag("1", "morning")).unwrap();
    lib.insert_tag(tag("1", "calm")).unwrap();
    assert!(lib.insert_tag(tag("1", "calm")).unwrap_err().message().contains("UNIQUE"));
    assert!(lib.insert_tag(tag("2", "calm")).unwrap_err().message().contains("FOREIGN KEY"));
    assert_eq!(lib.tags.len(), 2);
}

#[test]
fn plays_of_unknown_tracks_are_refused() {
    let mut lib = Library::new();
    stored(&mut lib, "1", "/m/a.mp3", TrackKind::Music);
    let play = |id: &str| PlayRow {
        track_id: id.to_string(),
        played_at: "2024-05-01T10:00:00+00:00".to_string(),
        duration_nanos: None,
    };
    lib.insert_play(play("1")).unwrap();
    assert!(lib.insert_play(play("2")).unwrap_err().message().contains("FOREIGN KEY"));
    assert_eq!(lib.log.len(), 1);
}

#[test]
fn a_play_is_logged_at_the_moment_it_is_noted() {
    let mut lib = Library::new();
    stored(&mut lib, "1", "/m/a.mp3", TrackKind::Music);
    lib.record_play("1", None).unwrap();
    let at = lib.tracks[0].last_played_at.unwrap();
    let logged = chrono::DateTime::parse_from_rfc3339(&lib.log[0].played_at).unwrap();
    assert_eq!((logged.timestamp(), logged.timestamp_subsec_nanos()), (at.secs, at.nanos));
    assert_eq!(lib.tracks[0].play_count, 1);
}
