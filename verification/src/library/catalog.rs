//! The table of tracks and the log of their plays.

use vstd::prelude::*;
use vstd::string::*;

use crate::clock::{fresh_id, now, write_rfc3339, Stamp};
use crate::db::{fresh_marks, Mark};
use crate::error::CrabError;
use crate::library::kind::TrackKind;
use crate::library::track::{ByFileName, ByTags, Track, TrackId};
use crate::rank::{rank, Order};
use crate::table::{choose_rows, copy_all, find_key, remove_key, turned, Keyed};
use crate::text::{chars_of, copy_opt, same_text, split, text_of, to_lower};
use crate::audio::level;
use crate::audio::loudness;
use crate::clock;
use crate::db;
use crate::library::kind;
use crate::library::track;
use crate::rank;
use crate::table;
use crate::text;

verus! {

/// What the tags of a file say.
#[derive(Debug)]
pub struct TagFields {
    pub title: Option<String>,
    pub artist: Option<String>,
    pub album: Option<String>,
    pub genre: Option<String>,
    pub year: Option<u32>,
    pub track: Option<u32>,
}

/// What a file says about itself.
#[derive(Debug)]
pub struct Metadata {
    pub title: Option<String>,
    pub artist: Option<String>,
    pub album: Option<String>,
    pub genre: Option<String>,
    pub year: Option<i32>,
    pub track_number: Option<i32>,
    pub duration_nanos: Option<u64>,
    pub sample_rate: Option<i32>,
    pub channels: Option<i32>,
}

pub open spec fn wrapped(v: Option<u32>) -> Option<i32> {
    match v {
        Some(n) => Some(n as i32),
        None => None,
    }
}

fn wrap(v: Option<u32>) -> (r: Option<i32>)
    ensures
        r == wrapped(v),
{
    match v {
        Some(n) => Some(#[verifier::truncate] (n as i32)),
        None => None,
    }
}

/// The metadata shows the fields of a tag.
pub open spec fn shows_tag(m: Metadata, tag: Option<TagFields>) -> bool {
    match tag {
        Some(t) => m.title == t.title && m.artist == t.artist && m.album == t.album && m.genre
            == t.genre && m.year == wrapped(t.year) && m.track_number == wrapped(t.track),
        None => m.title is None && m.artist is None && m.album is None && m.genre is None
            && m.year is None && m.track_number is None,
    }
}

/// What a file says about itself: the primary tag where there is one, else
/// the first tag, beside the properties of the audio.
pub fn read_metadata(
    primary: Option<TagFields>,
    first: Option<TagFields>,
    duration_nanos: u64,
    sample_rate: Option<u32>,
    channels: Option<u32>,
) -> (m: Metadata)
    ensures
        shows_tag(
            m,
            if primary is Some {
                primary
            } else {
                first
            },
        ),
        m.duration_nanos == Some(duration_nanos),
        m.sample_rate == wrapped(sample_rate),
        m.channels == wrapped(channels),
{
    let tag = match primary {
        Some(t) => Some(t),
        None => first,
    };
    match tag {
        Some(t) => Metadata {
            title: t.title,
            artist: t.artist,
            album: t.album,
            genre: t.genre,
            year: wrap(t.year),
            track_number: wrap(t.track),
            duration_nanos: Some(duration_nanos),
            sample_rate: wrap(sample_rate),
            channels: wrap(channels),
        },
        None => Metadata {
            title: None,
            artist: None,
            album: None,
            genre: None,
            year: None,
            track_number: None,
            duration_nanos: Some(duration_nanos),
            sample_rate: wrap(sample_rate),
            channels: wrap(channels),
        },
    }
}

/// The last name of a path; nothing when it leads upwards.
pub open spec fn name_part(path: Seq<char>) -> Seq<char> {
    let pieces = text::split_at(path, '/');
    let n = kind::last_name(pieces);
    if n < 0 || pieces[n] == ".."@ {
        Seq::empty()
    } else {
        pieces[n]
    }
}

/// The extension of a file name; nothing without a dot, and a dot in front
/// starts none.
pub open spec fn extension(name: Seq<char>) -> Seq<char> {
    if kind::last_dot(name) > 0 {
        name.skip(kind::last_dot(name) + 1)
    } else {
        Seq::empty()
    }
}

/// The extensions of audio files.
pub open spec fn audio_extension(e: Seq<char>) -> bool {
    e == "mp3"@ || e == "flac"@ || e == "aac"@ || e == "ogg"@ || e == "wav"@ || e == "aiff"@ || e
        == "opus"@ || e == "wv"@ || e == "mpc"@ || e == "m4a"@
}

/// A path that names an audio file.
pub open spec fn audio_path(path: Seq<char>) -> bool {
    audio_extension(text::lowered(extension(name_part(path))))
}

/// The last name of a path with `/` between its parts.
pub fn file_name_of(path: &str) -> (r: String)
    ensures
        r@ == name_part(path@),
{
    let pieces = split(path, '/');
    let ghost all = text::texts(pieces@);
    let mut n: usize = pieces.len();
    assert(all.subrange(0, n as int) =~= all);
    while n > 0 && (pieces[n - 1].as_str().is_empty() || same_text(pieces[n - 1].as_str(), "."))
        invariant
            n <= pieces.len(),
            all == text::texts(pieces@),
            kind::last_name(all) == kind::last_name(all.subrange(0, n as int)),
        decreases n,
    {
        assert(all.subrange(0, n as int).drop_last() =~= all.subrange(0, n - 1));
        assert(all[n - 1] == pieces@[n - 1]@);
        n = n - 1;
    }
    if n == 0 {
        return String::new();
    }
    assert(all[n - 1] == pieces@[n - 1]@);
    assert(all.subrange(0, n as int).last() == all[n - 1]);
    if same_text(pieces[n - 1].as_str(), "..") {
        String::new()
    } else {
        pieces[n - 1].clone()
    }
}

/// Whether a path names an audio file, told by its extension.
pub fn is_audio_path(path: &str) -> (r: bool)
    ensures
        r == audio_path(path@),
{
    let name = file_name_of(path);
    let v = chars_of(name.as_str());
    let mut i: usize = v.len();
    assert(name@.subrange(0, i as int) =~= name@);
    while i > 0 && v[i - 1] != '.'
        invariant
            i <= v.len(),
            v@ == name@,
            kind::last_dot(name@) == kind::last_dot(name@.subrange(0, i as int)),
        decreases i,
    {
        assert(name@.subrange(0, i as int).drop_last() =~= name@.subrange(0, i - 1));
        i = i - 1;
    }
    let ext = if i > 1 {
        let t = text_of(vstd::slice::slice_subrange(v.as_slice(), i, v.len()));
        assert(t@ =~= name@.skip(i as int));
        t
    } else {
        String::new()
    };
    assert(ext@ == extension(name@));
    let low = to_lower(ext.as_str());
    let e = low.as_str();
    same_text(e, "mp3") || same_text(e, "flac") || same_text(e, "aac") || same_text(e, "ogg")
        || same_text(e, "wav") || same_text(e, "aiff") || same_text(e, "opus") || same_text(e, "wv")
        || same_text(e, "mpc") || same_text(e, "m4a")
}

/// One play of a track.
#[derive(Debug)]
pub struct PlayRow {
    pub track_id: TrackId,
    pub played_at: String,
    pub duration_nanos: Option<u64>,
}

impl Clone for PlayRow {
    fn clone(&self) -> (r: Self)
        ensures
            r == *self,
    {
        PlayRow {
            track_id: self.track_id.clone(),
            played_at: self.played_at.clone(),
            duration_nanos: self.duration_nanos,
        }
    }
}

impl Keyed for PlayRow {
    /// Plays are found by their track; one track has many.
    open spec fn key(self) -> Seq<char> {
        self.track_id@
    }

    fn key_is(&self, id: &str) -> (r: bool) {
        same_text(self.track_id.as_str(), id)
    }

    fn duplicate(&self) -> (r: Self) {
        self.clone()
    }
}

/// One tag of a track.
#[derive(Debug)]
pub struct TagRow {
    pub track_id: TrackId,
    pub tag: String,
}

impl Clone for TagRow {
    fn clone(&self) -> (r: Self)
        ensures
            r == *self,
    {
        TagRow { track_id: self.track_id.clone(), tag: self.tag.clone() }
    }
}

impl Keyed for TagRow {
    /// Tags are found by their track; one track has many.
    open spec fn key(self) -> Seq<char> {
        self.track_id@
    }

    fn key_is(&self, id: &str) -> (r: bool) {
        same_text(self.track_id.as_str(), id)
    }

    fn duplicate(&self) -> (r: Self) {
        self.clone()
    }
}

/// Some row gives this tag to this track.
pub open spec fn has_tag(tags: Seq<TagRow>, track_id: Seq<char>, tag: Seq<char>) -> bool {
    exists|i: int| 0 <= i < tags.len() && (#[trigger] tags[i]).track_id@ == track_id && tags[i].tag@ == tag
}

/// Two rows give different tags, or tags to different tracks.
pub open spec fn differ(a: TagRow, b: TagRow) -> bool {
    a.track_id@ != b.track_id@ || a.tag@ != b.tag@
}

/// No track has a tag twice.
pub open spec fn distinct_tags(tags: Seq<TagRow>) -> bool {
    forall|i: int, j: int|
        0 <= i < j < tags.len() ==> differ(#[trigger] tags[i], #[trigger] tags[j])
}

/// Some track lies at this path.
pub open spec fn has_path(tracks: Seq<Track>, path: Seq<char>) -> bool {
    exists|i: int| 0 <= i < tracks.len() && (#[trigger] tracks[i]).file_path@ == path
}

/// No two tracks share a path.
pub open spec fn distinct_paths(tracks: Seq<Track>) -> bool {
    forall|i: int, j: int|
        0 <= i < j < tracks.len() ==> (#[trigger] tracks[i]).file_path@ != (
        #[trigger] tracks[j]).file_path@
}

/// A measurement at or below this is a placeholder for a file that was not
/// there: -69 LUFS.
pub const SENTINEL_UDB: i64 = -69_000_000;

/// A track was measured, and its file was there.
pub open spec fn measured(t: Track) -> bool {
    t.loudness_udb matches Some(l) && l > SENTINEL_UDB
}

/// A track after the target has changed.
pub open spec fn retargeted(t: Track, target: int) -> Track {
    if measured(t) {
        Track { gain_udb: Some(loudness::correction(t.loudness_udb->0, target) as i64), ..t }
    } else {
        t
    }
}

/// How many tracks pass a test.
pub open spec fn count_where(tracks: Seq<Track>, test: spec_fn(Track) -> bool) -> nat
    decreases tracks.len(),
{
    if tracks.len() == 0 {
        0
    } else {
        count_where(tracks.drop_last(), test) + (if test(tracks.last()) {
            1nat
        } else {
            0nat
        })
    }
}

proof fn lemma_count_step(tracks: Seq<Track>, test: spec_fn(Track) -> bool, i: int)
    requires
        0 <= i < tracks.len(),
    ensures
        count_where(tracks.subrange(0, i + 1), test) == count_where(tracks.subrange(0, i), test) + (
        if test(tracks[i]) {
            1nat
        } else {
            0nat
        }),
        count_where(tracks.subrange(0, i), test) <= i,
    decreases i,
{
    assert(tracks.subrange(0, i + 1).drop_last() =~= tracks.subrange(0, i));
    if i > 0 {
        lemma_count_step(tracks, test, i - 1);
    }
}

/// The tracks of one kind, by file name.
pub open spec fn kind_listing(tracks: Seq<Track>, kind: TrackKind) -> Seq<Track> {
    rank::ranked(ByFileName, tracks.filter(|t: Track| t.kind == kind))
}

/// The tracks still to be analyzed, by file name.
pub open spec fn unmeasured_listing(tracks: Seq<Track>) -> Seq<Track> {
    rank::ranked(ByFileName, tracks.filter(|t: Track| t.loudness_udb is None))
}

/// The music library: the table of tracks, the log of their plays and their
/// tags.
#[derive(Debug)]
pub struct Library {
    pub tracks: Vec<Track>,
    pub log: Vec<PlayRow>,
    pub tags: Vec<TagRow>,
}

/// A row as a file gets it that was just found: what the file says about
/// itself, its kind told from the path, and no history.
pub open spec fn just_found(
    t: Track,
    path: Seq<char>,
    meta: Metadata,
    file_size: Option<i64>,
) -> bool {
    &&& t.file_path@ == path
    &&& t.file_name@ == name_part(path)
    &&& t.title == meta.title
    &&& t.artist == meta.artist
    &&& t.album == meta.album
    &&& t.genre == meta.genre
    &&& t.year == meta.year
    &&& t.track_number == meta.track_number
    &&& t.duration_nanos == meta.duration_nanos
    &&& t.file_size == file_size
    &&& t.sample_rate == meta.sample_rate
    &&& t.channels == meta.channels
    &&& t.kind == kind::kind_from_path(path)
    &&& t.daypart_start is None
    &&& t.daypart_end is None
    &&& t.daypart_days@ == "Daily"@
    &&& t.loudness_udb is None
    &&& t.gain_udb is None
    &&& t.last_played_at is None
    &&& t.play_count == 0
    &&& t.bpm is None
    &&& t.tags@.len() == 0
}

/// A file that a scan came across, with what it says about itself.
#[derive(Debug)]
pub struct FoundFile {
    pub path: String,
    pub meta: Metadata,
    pub file_size: Option<i64>,
}

/// The paths of some files.
pub open spec fn paths_of(found: Seq<FoundFile>) -> Seq<Seq<char>> {
    found.map_values(|f: FoundFile| f.path@)
}

/// The ids of some marks.
pub open spec fn ids_of(marks: Seq<Mark>) -> Seq<Seq<char>> {
    marks.map_values(|m: Mark| m.id@)
}

/// The ids and paths of some tracks.
pub open spec fn shelf(tracks: Seq<Track>) -> Seq<(Seq<char>, Seq<char>)> {
    tracks.map_values(|t: Track| (t.id@, t.file_path@))
}

/// Some track has this id.
pub open spec fn id_on(shelf: Seq<(Seq<char>, Seq<char>)>, id: Seq<char>) -> bool {
    exists|i: int| 0 <= i < shelf.len() && (#[trigger] shelf[i]).0 == id
}

/// Some track has this path.
pub open spec fn path_on(shelf: Seq<(Seq<char>, Seq<char>)>, path: Seq<char>) -> bool {
    exists|i: int| 0 <= i < shelf.len() && (#[trigger] shelf[i]).1 == path
}

/// The ids and paths after the first `n` files of a scan: audio of a path that
/// is not known yet is taken in, unless its id is taken.
pub open spec fn shelf_after(
    shelf: Seq<(Seq<char>, Seq<char>)>,
    paths: Seq<Seq<char>>,
    ids: Seq<Seq<char>>,
    n: int,
) -> Seq<(Seq<char>, Seq<char>)>
    decreases n,
{
    if n <= 0 {
        shelf
    } else {
        let so_far = shelf_after(shelf, paths, ids, n - 1);
        if audio_path(paths[n - 1]) && !id_on(so_far, ids[n - 1]) && !path_on(so_far, paths[n - 1]) {
            so_far.push((ids[n - 1], paths[n - 1]))
        } else {
            so_far
        }
    }
}

/// A row was made of a file under a mark.
pub open spec fn taken_from(t: Track, f: FoundFile, mark: Mark) -> bool {
    t.id@ == mark.id@ && t.added_at == mark.at && just_found(t, f.path@, f.meta, f.file_size)
}

/// A row was made of one of the first `n` files of a scan.
pub open spec fn from_scan(t: Track, found: Seq<FoundFile>, marks: Seq<Mark>, n: int) -> bool {
    exists|f: int| 0 <= f < n && #[trigger] taken_from(t, found[f], marks[f])
}

/// Some tracks became others by a scan that took in so many files.
pub open spec fn scanned(
    before: Seq<Track>,
    after: Seq<Track>,
    found: Seq<FoundFile>,
    marks: Seq<Mark>,
    taken: int,
) -> bool {
    &&& before.len() <= after.len()
    &&& taken == after.len() - before.len()
    &&& after.take(before.len() as int) == before
    &&& shelf(after) == shelf_after(
        shelf(before),
        paths_of(found),
        ids_of(marks),
        found.len() as int,
    )
    &&& forall|k: int|
        before.len() <= k < after.len() ==> from_scan(
            #[trigger] after[k],
            found,
            marks,
            found.len() as int,
        )
}

proof fn lemma_on_shelf(tracks: Seq<Track>, id: Seq<char>, path: Seq<char>)
    ensures
        id_on(shelf(tracks), id) == table::has_key(tracks, id),
        path_on(shelf(tracks), path) == has_path(tracks, path),
{
    if id_on(shelf(tracks), id) {
        let i = choose|i: int| 0 <= i < shelf(tracks).len() && (#[trigger] shelf(tracks)[i]).0 == id;
        assert(tracks[i].key() == id);
    }
    if table::has_key(tracks, id) {
        let i = choose|i: int| 0 <= i < tracks.len() && (#[trigger] tracks[i]).key() == id;
        assert(shelf(tracks)[i].0 == id);
    }
    if path_on(shelf(tracks), path) {
        let i = choose|i: int|
            0 <= i < shelf(tracks).len() && (#[trigger] shelf(tracks)[i]).1 == path;
        assert(tracks[i].file_path@ == path);
    }
    if has_path(tracks, path) {
        let i = choose|i: int| 0 <= i < tracks.len() && (#[trigger] tracks[i]).file_path@ == path;
        assert(shelf(tracks)[i].1 == path);
    }
}

proof fn lemma_shelf_grows(
    shelf: Seq<(Seq<char>, Seq<char>)>,
    paths: Seq<Seq<char>>,
    ids: Seq<Seq<char>>,
    n: int,
)
    requires
        0 <= n <= paths.len(),
        paths.len() == ids.len(),
        forall|i: int| 0 <= i < ids.len() ==> !id_on(shelf, #[trigger] ids[i]),
        ids.no_duplicates(),
    ensures
        forall|i: int|
            n <= i < ids.len() ==> !id_on(shelf_after(shelf, paths, ids, n), #[trigger] ids[i]),
        forall|f: int|
            0 <= f < n && audio_path(#[trigger] paths[f]) ==> path_on(
                shelf_after(shelf, paths, ids, n),
                paths[f],
            ),
    decreases n,
{
    if n > 0 {
        lemma_shelf_grows(shelf, paths, ids, n - 1);
        let so_far = shelf_after(shelf, paths, ids, n - 1);
        let all = shelf_after(shelf, paths, ids, n);
        assert forall|i: int| n <= i < ids.len() implies !id_on(all, #[trigger] ids[i]) by {
            if id_on(all, ids[i]) {
                let k = choose|k: int| 0 <= k < all.len() && (#[trigger] all[k]).0 == ids[i];
                if k < so_far.len() {
                    assert(so_far[k].0 == ids[i]);
                    assert(id_on(so_far, ids[i]));
                } else {
                    assert(ids[n - 1] == ids[i]);
                }
            }
        }
        assert forall|f: int| 0 <= f < n && audio_path(#[trigger] paths[f]) implies path_on(
            all,
            paths[f],
        ) by {
            if path_on(so_far, paths[f]) {
                let k = choose|k: int| 0 <= k < so_far.len() && (#[trigger] so_far[k]).1 == paths[f];
                assert(all[k].1 == paths[f]);
            } else {
                assert(f == n - 1);
                assert(!id_on(so_far, ids[n - 1]));
                assert(all[so_far.len() as int].1 == paths[f]);
            }
        }
    }
}

proof fn lemma_nothing_new(
    shelf: Seq<(Seq<char>, Seq<char>)>,
    paths: Seq<Seq<char>>,
    ids: Seq<Seq<char>>,
    n: int,
)
    requires
        0 <= n <= paths.len(),
        forall|f: int|
            0 <= f < paths.len() && audio_path(#[trigger] paths[f]) ==> path_on(shelf, paths[f]),
    ensures
        shelf_after(shelf, paths, ids, n) == shelf,
    decreases n,
{
    if n > 0 {
        lemma_nothing_new(shelf, paths, ids, n - 1);
        if audio_path(paths[n - 1]) {
            assert(path_on(shelf, paths[n - 1]));
        }
    }
}

/// A second scan of the same files takes in none, whatever ids it draws, and
/// leaves the tracks as they are, where the ids of the first did not clash.
pub proof fn a_second_scan_adds_nothing(
    before: Seq<Track>,
    after: Seq<Track>,
    last: Seq<Track>,
    found: Seq<FoundFile>,
    marks: Seq<Mark>,
    more: Seq<Mark>,
    first: int,
    second: int,
)
    requires
        marks.len() == found.len(),
        more.len() == found.len(),
        scanned(before, after, found, marks, first),
        scanned(after, last, found, more, second),
        ids_of(marks).no_duplicates(),
        forall|i: int| 0 <= i < marks.len() ==> !table::has_key(before, (#[trigger] marks[i]).id@),
    ensures
        second == 0,
        last == after,
{
    let paths = paths_of(found);
    let ids = ids_of(marks);
    assert forall|i: int| 0 <= i < ids.len() implies !id_on(shelf(before), #[trigger] ids[i]) by {
        assert(ids[i] == marks[i].id@);
        lemma_on_shelf(before, ids[i], Seq::empty());
    }
    lemma_shelf_grows(shelf(before), paths, ids, found.len() as int);
    lemma_nothing_new(shelf(after), paths, ids_of(more), found.len() as int);
    assert(shelf(last).len() == last.len() && shelf(after).len() == after.len());
    assert(last =~= last.take(after.len() as int));
}

/// One library became another by a play of a track at a moment: its count goes
/// up, the moment is its last play, and the log has one more row.
pub open spec fn played(
    before: Library,
    after: Library,
    track_id: Seq<char>,
    duration_nanos: Option<u64>,
    at: Stamp,
) -> bool {
    &&& after.tracks@ == before.tracks@.map_values(
        |t: Track|
            if t.id@ == track_id {
                Track { play_count: (t.play_count + 1) as i32, last_played_at: Some(at), ..t }
            } else {
                t
            },
    )
    &&& after.tags == before.tags
    &&& after.log@.len() == before.log@.len() + 1
    &&& after.log@.drop_last() == before.log@
    &&& after.log@.last().track_id@ == track_id
    &&& after.log@.last().played_at@ == clock::rfc3339_text(at.secs as int, at.nanos as int)
    &&& after.log@.last().duration_nanos == duration_nanos
}

impl Library {
    /// Ids and paths are unique, a track has each tag once, and every logged
    /// play and every tag is of a track that is there.
    pub open spec fn wf(self) -> bool {
        &&& table::distinct_keys(self.tracks@)
        &&& distinct_paths(self.tracks@)
        &&& forall|i: int|
            0 <= i < self.log@.len() ==> table::has_key(self.tracks@, (#[trigger] self.log@[i]).track_id@)
        &&& forall|i: int|
            0 <= i < self.tags@.len() ==> table::has_key(self.tracks@, (#[trigger] self.tags@[i]).track_id@)
        &&& distinct_tags(self.tags@)
    }

    /// An empty library.
    pub fn new() -> (m: Self)
        ensures
            m.wf(),
            m.tracks@ == Seq::<Track>::empty(),
            m.log@ == Seq::<PlayRow>::empty(),
            m.tags@ == Seq::<TagRow>::empty(),
    {
        Library { tracks: Vec::new(), log: Vec::new(), tags: Vec::new() }
    }

    /// The index of the track at a path.
    fn find_path(&self, path: &str) -> (r: Option<usize>)
        ensures
            match r {
                Some(i) => i < self.tracks@.len() && self.tracks@[i as int].file_path@ == path@,
                None => !has_path(self.tracks@, path@),
            },
    {
        let mut i: usize = 0;
        while i < self.tracks.len()
            invariant
                i <= self.tracks.len(),
                forall|j: int| 0 <= j < i ==> (#[trigger] self.tracks@[j]).file_path@ != path@,
            decreases self.tracks.len() - i,
        {
            if same_text(self.tracks[i].file_path.as_str(), path) {
                return Some(i);
            }
            i = i + 1;
        }
        None
    }

    /// Store a row of the log as it stands; its track must be there.
    pub fn insert_play(&mut self, row: PlayRow) -> (r: Result<(), CrabError>)
        requires
            old(self).wf(),
        ensures
            final(self).wf(),
            final(self).tracks == old(self).tracks,
            final(self).tags == old(self).tags,
            match r {
                Ok(_) => table::has_key(old(self).tracks@, row.track_id@) && final(self).log@
                    == old(self).log@.push(row),
                Err(CrabError::Database(m)) => !table::has_key(old(self).tracks@, row.track_id@)
                    && final(self).log == old(self).log && m@ == "FOREIGN KEY constraint failed"@,
                Err(_) => false,
            },
    {
        if find_key(&self.tracks, row.track_id.as_str()).is_none() {
            return Err(CrabError::Database(String::from_str("FOREIGN KEY constraint failed")));
        }
        self.log.push(row);
        Ok(())
    }

    /// Store a tag of a track; the track must be there, and not have it.
    pub fn insert_tag(&mut self, row: TagRow) -> (r: Result<(), CrabError>)
        requires
            old(self).wf(),
        ensures
            final(self).wf(),
            final(self).tracks == old(self).tracks,
            final(self).log == old(self).log,
            match r {
                Ok(_) => table::has_key(old(self).tracks@, row.track_id@) && !has_tag(
                    old(self).tags@,
                    row.track_id@,
                    row.tag@,
                ) && final(self).tags@ == old(self).tags@.push(row),
                Err(CrabError::Database(m)) => final(self).tags == old(self).tags && (if has_tag(
                    old(self).tags@,
                    row.track_id@,
                    row.tag@,
                ) {
                    m@ == "UNIQUE constraint failed: tags.track_id, tags.tag"@
                } else {
                    !table::has_key(old(self).tracks@, row.track_id@) && m@
                        == "FOREIGN KEY constraint failed"@
                }),
                Err(_) => false,
            },
    {
        let mut i: usize = 0;
        while i < self.tags.len()
            invariant
                i <= self.tags.len(),
                *self == *old(self),
                self.wf(),
                forall|j: int|
                    0 <= j < i ==> (#[trigger] self.tags@[j]).track_id@ != row.track_id@
                        || self.tags@[j].tag@ != row.tag@,
            decreases self.tags.len() - i,
        {
            if same_text(self.tags[i].track_id.as_str(), row.track_id.as_str()) && same_text(
                self.tags[i].tag.as_str(),
                row.tag.as_str(),
            ) {
                return Err(
                    CrabError::Database(
                        String::from_str("UNIQUE constraint failed: tags.track_id, tags.tag"),
                    ),
                );
            }
            i = i + 1;
        }
        if find_key(&self.tracks, row.track_id.as_str()).is_none() {
            return Err(CrabError::Database(String::from_str("FOREIGN KEY constraint failed")));
        }
        self.tags.push(row);
        Ok(())
    }

    /// Take in a file that a scan came across, under a given id at a given
    /// moment. Only audio is taken in, and only a file that the library does
    /// not know. Tells whether it was.
    pub fn scan_file_with(
        &mut self,
        id: TrackId,
        at: Stamp,
        path: &str,
        meta: Metadata,
        file_size: Option<i64>,
    ) -> (r: bool)
        requires
            old(self).wf(),
        ensures
            final(self).wf(),
            final(self).log == old(self).log,
            final(self).tags == old(self).tags,
            r == (audio_path(path@) && !table::has_key(old(self).tracks@, id@) && !has_path(
                old(self).tracks@,
                path@,
            )),
            !r ==> final(self).tracks@ == old(self).tracks@,
            r ==> {
                &&& final(self).tracks@.len() == old(self).tracks@.len() + 1
                &&& final(self).tracks@.drop_last() == old(self).tracks@
                &&& final(self).tracks@.last().id@ == id@
                &&& final(self).tracks@.last().added_at == at
                &&& just_found(final(self).tracks@.last(), path@, meta, file_size)
            },
    {
        if !is_audio_path(path) {
            return false;
        }
        let before: usize = self.tracks.len();
        let ghost was = self.tracks@;
        let t = self.add_track_with(id, at, path, meta, file_size);
        assert(was.push(t).drop_last() =~= was);
        before < self.tracks.len()
    }

    /// Take in the files that a scan came across, each under its mark. Gives
    /// the number of those that were taken in.
    pub fn scan_with(&mut self, found: Vec<FoundFile>, marks: &Vec<Mark>) -> (n: usize)
        requires
            old(self).wf(),
            found@.len() == marks@.len(),
        ensures
            final(self).wf(),
            final(self).log == old(self).log,
            final(self).tags == old(self).tags,
            scanned(old(self).tracks@, final(self).tracks@, found@, marks@, n as int),
    {
        let ghost was = self.tracks@;
        let ghost paths = paths_of(found@);
        let ghost ids = ids_of(marks@);
        let before: usize = self.tracks.len();
        let mut rest = turned(found);
        let mut i: usize = 0;
        proof {
            assert(self.tracks@.take(was.len() as int) =~= was);
            assert(rest@ =~= found@.reverse());
        }
        while i < marks.len()
            invariant
                self.wf(),
                self.log == old(self).log,
                self.tags == old(self).tags,
                i <= marks@.len(),
                found@.len() == marks@.len(),
                rest@ == found@.skip(i as int).reverse(),
                paths == paths_of(found@),
                ids == ids_of(marks@),
                before == was.len(),
                was.len() <= self.tracks@.len(),
                self.tracks@.take(was.len() as int) == was,
                shelf(self.tracks@) == shelf_after(shelf(was), paths, ids, i as int),
                forall|k: int|
                    was.len() <= k < self.tracks@.len() ==> from_scan(
                        #[trigger] self.tracks@[k],
                        found@,
                        marks@,
                        i as int,
                    ),
            decreases marks@.len() - i,
        {
            let ghost now_there = self.tracks@;
            proof {
                let left = found@.skip(i as int);
                assert(left.reverse().last() == left[0]);
                assert(left[0] == found@[i as int]);
                assert(left.reverse().drop_last() =~= found@.skip(i + 1).reverse());
            }
            match rest.pop() {
                Some(f) => {
                    let added = self.scan_file_with(
                        marks[i].id.clone(),
                        marks[i].at,
                        f.path.as_str(),
                        f.meta,
                        f.file_size,
                    );
                    proof {
                        let path = found@[i as int].path@;
                        let id = marks@[i as int].id@;
                        assert(paths[i as int] == path && ids[i as int] == id);
                        lemma_on_shelf(now_there, id, path);
                        if added {
                            let t = self.tracks@.last();
                            assert(self.tracks@ =~= now_there.push(t));
                            assert(shelf(self.tracks@) =~= shelf(now_there).push((id, path)));
                            assert(taken_from(t, found@[i as int], marks@[i as int]));
                        }
                        assert(self.tracks@.take(was.len() as int) =~= now_there.take(
                            was.len() as int,
                        ));
                        assert forall|k: int| was.len() <= k < self.tracks@.len() implies from_scan(
                            #[trigger] self.tracks@[k],
                            found@,
                            marks@,
                            i + 1,
                        ) by {
                            if k < now_there.len() {
                                assert(self.tracks@[k] == now_there[k]);
                                assert(from_scan(now_there[k], found@, marks@, i as int));
                                let g = choose|g: int|
                                    0 <= g < i && #[trigger] taken_from(
                                        now_there[k],
                                        found@[g],
                                        marks@[g],
                                    );
                                assert(taken_from(self.tracks@[k], found@[g], marks@[g]));
                            } else {
                                assert(taken_from(
                                    self.tracks@[k],
                                    found@[i as int],
                                    marks@[i as int],
                                ));
                            }
                        }
                    }
                },
                None => {},
            }
            i = i + 1;
        }
        self.tracks.len() - before
    }

    /// Take in the files that a scan came across, now and under fresh ids.
    /// Gives the number of those that were taken in: a file that the library
    /// knew already is none of them.
    pub fn scan_directory(&mut self, found: Vec<FoundFile>) -> (n: usize)
        requires
            old(self).wf(),
        ensures
            final(self).wf(),
            final(self).log == old(self).log,
            final(self).tags == old(self).tags,
            exists|marks: Seq<Mark>|
                marks.len() == found@.len() && db::proper(marks) && #[trigger] scanned(
                    old(self).tracks@,
                    final(self).tracks@,
                    found@,
                    marks,
                    n as int,
                ),
    {
        let marks = fresh_marks(found.len());
        self.scan_with(found, &marks)
    }

    /// Store a track; one whose id or path is taken is left out silently.
    pub fn insert(&mut self, t: Track)
        requires
            old(self).wf(),
        ensures
            final(self).wf(),
            final(self).log == old(self).log,
            final(self).tags == old(self).tags,
            final(self).tracks@ == (if table::has_key(old(self).tracks@, t.id@) || has_path(
                old(self).tracks@,
                t.file_path@,
            ) {
                old(self).tracks@
            } else {
                old(self).tracks@.push(t)
            }),
    {
        if find_key(&self.tracks, t.id.as_str()).is_some() || self.find_path(
            t.file_path.as_str(),
        ).is_some() {
            return;
        }
        self.tracks.push(t);
        assert forall|i: int| 0 <= i < self.log@.len() implies table::has_key(
            self.tracks@,
            (#[trigger] self.log@[i]).track_id@,
        ) by {
            let n = choose|n: int|
                0 <= n < old(self).tracks@.len() && old(self).tracks@[n].key()
                    == self.log@[i].track_id@;
            assert(self.tracks@[n].key() == self.log@[i].track_id@);
        }
        assert forall|i: int| 0 <= i < self.tags@.len() implies table::has_key(
            self.tracks@,
            (#[trigger] self.tags@[i]).track_id@,
        ) by {
            let n = choose|n: int|
                0 <= n < old(self).tracks@.len() && old(self).tracks@[n].key()
                    == self.tags@[i].track_id@;
            assert(self.tracks@[n].key() == self.tags@[i].track_id@);
        }
    }

    /// Add a track with a given id at a given moment. Its kind is told from
    /// the path. Where the path is already stored the library keeps what it
    /// has.
    pub fn add_track_with(
        &mut self,
        id: TrackId,
        at: Stamp,
        path: &str,
        meta: Metadata,
        file_size: Option<i64>,
    ) -> (t: Track)
        requires
            old(self).wf(),
        ensures
            final(self).wf(),
            final(self).log == old(self).log,
            final(self).tags == old(self).tags,
            final(self).tracks@ == (if table::has_key(old(self).tracks@, id@) || has_path(
                old(self).tracks@,
                path@,
            ) {
                old(self).tracks@
            } else {
                old(self).tracks@.push(t)
            }),
            t.id@ == id@,
            just_found(t, path@, meta, file_size),
            t.added_at == at,
    {
        let t = Track {
            id,
            file_path: path.to_owned(),
            file_name: file_name_of(path),
            title: meta.title,
            artist: meta.artist,
            album: meta.album,
            genre: meta.genre,
            year: meta.year,
            track_number: meta.track_number,
            duration_nanos: meta.duration_nanos,
            file_size,
            sample_rate: meta.sample_rate,
            channels: meta.channels,
            kind: TrackKind::classify_path(path),
            daypart_start: None,
            daypart_end: None,
            daypart_days: String::from_str("Daily"),
            loudness_udb: None,
            gain_udb: None,
            added_at: at,
            last_played_at: None,
            play_count: 0,
            bpm: None,
            tags: String::new(),
        };
        self.insert(t.clone());
        t
    }

    /// Add a track now, under a fresh id, from what its file says.
    pub fn add_track(&mut self, path: &str, meta: Metadata, file_size: Option<i64>) -> (r: Result<
        Track,
        CrabError,
    >)
        requires
            old(self).wf(),
        ensures
            final(self).wf(),
            final(self).log == old(self).log,
            final(self).tags == old(self).tags,
            match r {
                Ok(t) => {
                    &&& final(self).tracks@ == (if table::has_key(old(self).tracks@, t.id@) || has_path(
                        old(self).tracks@,
                        path@,
                    ) {
                        old(self).tracks@
                    } else {
                        old(self).tracks@.push(t)
                    })
                    &&& just_found(t, path@, meta, file_size)
                    &&& t.added_at.valid()
                },
                Err(_) => false,
            },
    {
        Ok(self.add_track_with(fresh_id(), now(), path, meta, file_size))
    }

    /// Replace one track by another with the same id and path.
    fn put(&mut self, i: usize, t: Track)
        requires
            old(self).wf(),
            i < old(self).tracks@.len(),
            t.id@ == old(self).tracks@[i as int].id@,
            t.file_path@ == old(self).tracks@[i as int].file_path@,
        ensures
            final(self).wf(),
            final(self).log == old(self).log,
            final(self).tags == old(self).tags,
            final(self).tracks@ == old(self).tracks@.update(i as int, t),
    {
        self.tracks.set(i, t);
        proof {
            let before = old(self).tracks@;
            assert forall|a: int, b: int| 0 <= a < b < self.tracks@.len() implies (
            #[trigger] self.tracks@[a]).key() != (#[trigger] self.tracks@[b]).key()
                && self.tracks@[a].file_path@ != self.tracks@[b].file_path@ by {
                assert(before[a].key() != before[b].key());
                assert(before[a].file_path@ != before[b].file_path@);
            }
            assert forall|k: int| 0 <= k < self.log@.len() implies table::has_key(
                self.tracks@,
                (#[trigger] self.log@[k]).track_id@,
            ) by {
                let n = choose|n: int|
                    0 <= n < before.len() && before[n].key() == self.log@[k].track_id@;
                assert(self.tracks@[n].key() == self.log@[k].track_id@);
            }
            assert forall|k: int| 0 <= k < self.tags@.len() implies table::has_key(
                self.tracks@,
                (#[trigger] self.tags@[k]).track_id@,
            ) by {
                let n = choose|n: int|
                    0 <= n < before.len() && before[n].key() == self.tags@[k].track_id@;
                assert(self.tracks@[n].key() == self.tags@[k].track_id@);
            }
        }
    }

    /// Override a track's station role; an unknown id changes nothing.
    pub fn set_kind(&mut self, id: &str, kind: TrackKind) -> (r: Result<(), CrabError>)
        requires
            old(self).wf(),
        ensures
            r is Ok,
            final(self).wf(),
            final(self).log == old(self).log,
            final(self).tags == old(self).tags,
            final(self).tracks@ == old(self).tracks@.map_values(
                |t: Track|
                    if t.id@ == id@ {
                        Track { kind, ..t }
                    } else {
                        t
                    },
            ),
    {
        let ghost change = |t: Track|
            if t.id@ == id@ {
                Track { kind, ..t }
            } else {
                t
            };
        let found = find_key(&self.tracks, id);
        match found {
            Some(i) => {
                let mut t = self.tracks[i].clone();
                t.kind = kind;
                self.put(i, t);
                proof {
                    lemma_one_changes(old(self).tracks@, id@, i as int, change);
                }
            },
            None => {
                assert(self.tracks@ =~= old(self).tracks@.map_values(change)) by {
                    assert forall|j: int| 0 <= j < self.tracks@.len() implies self.tracks@[j] == change(
                        self.tracks@[j],
                    ) by {
                        assert(self.tracks@[j].key() != id@);
                    }
                }
            },
        }
        Ok(())
    }

    /// Tell every track's kind from its path again. Gives the number of
    /// tracks whose kind changed.
    pub fn reclassify_all(&mut self) -> (r: Result<usize, CrabError>)
        requires
            old(self).wf(),
        ensures
            final(self).wf(),
            final(self).log == old(self).log,
            final(self).tags == old(self).tags,
            final(self).tracks@ == old(self).tracks@.map_values(
                |t: Track| Track { kind: kind::kind_from_path(t.file_path@), ..t },
            ),
            r matches Ok(n) && n == count_where(
                old(self).tracks@,
                |t: Track| t.kind != kind::kind_from_path(t.file_path@),
            ),
    {
        let ghost before = self.tracks@;
        let ghost off = |t: Track| t.kind != kind::kind_from_path(t.file_path@);
        let ghost change = |t: Track| Track { kind: kind::kind_from_path(t.file_path@), ..t };
        let mut fixed: usize = 0;
        let mut i: usize = 0;
        while i < self.tracks.len()
            invariant
                i <= self.tracks.len(),
                self.wf(),
                self.log == old(self).log,
                self.tags == old(self).tags,
                before == old(self).tracks@,
                self.tracks@.len() == before.len(),
                off == (|t: Track| t.kind != kind::kind_from_path(t.file_path@)),
                change == (|t: Track| Track { kind: kind::kind_from_path(t.file_path@), ..t }),
                forall|j: int| i <= j < before.len() ==> #[trigger] self.tracks@[j] == before[j],
                forall|j: int| 0 <= j < i ==> #[trigger] self.tracks@[j] == change(before[j]),
                fixed == count_where(before.subrange(0, i as int), off),
                fixed <= i,
            decreases self.tracks.len() - i,
        {
            proof {
                lemma_count_step(before, off, i as int);
            }
            let kind = TrackKind::classify_path(self.tracks[i].file_path.as_str());
            if kind != self.tracks[i].kind {
                let mut t = self.tracks[i].clone();
                t.kind = kind;
                self.put(i, t);
                fixed = fixed + 1;
            }
            i = i + 1;
        }
        assert(before.subrange(0, i as int) =~= before);
        assert(self.tracks@ =~= before.map_values(change));
        Ok(fixed)
    }

    /// Store a measured loudness and its correction; an unknown id changes
    /// nothing.
    pub fn set_loudness(&mut self, id: &str, lufs: i64, gain: i64) -> (r: Result<(), CrabError>)
        requires
            old(self).wf(),
        ensures
            r is Ok,
            final(self).wf(),
            final(self).log == old(self).log,
            final(self).tags == old(self).tags,
            final(self).tracks@ == old(self).tracks@.map_values(
                |t: Track|
                    if t.id@ == id@ {
                        Track { loudness_udb: Some(lufs), gain_udb: Some(gain), ..t }
                    } else {
                        t
                    },
            ),
    {
        let ghost change = |t: Track|
            if t.id@ == id@ {
                Track { loudness_udb: Some(lufs), gain_udb: Some(gain), ..t }
            } else {
                t
            };
        let found = find_key(&self.tracks, id);
        match found {
            Some(i) => {
                let mut t = self.tracks[i].clone();
                t.loudness_udb = Some(lufs);
                t.gain_udb = Some(gain);
                self.put(i, t);
                proof {
                    lemma_one_changes(old(self).tracks@, id@, i as int, change);
                }
            },
            None => {
                assert(self.tracks@ =~= old(self).tracks@.map_values(change)) by {
                    assert forall|j: int| 0 <= j < self.tracks@.len() implies self.tracks@[j] == change(
                        self.tracks@[j],
                    ) by {
                        assert(self.tracks@[j].key() != id@);
                    }
                }
            },
        }
        Ok(())
    }

    /// Rewrite the corrections for a new target, held between a lowest and a
    /// highest one. What was measured stays, so nothing is analyzed again;
    /// placeholders and unmeasured tracks stay as they are. Gives the number
    /// of tracks rewritten.
    pub fn retarget_gains(&mut self, target: i64, lowest: i64, highest: i64) -> (r: Result<
        usize,
        CrabError,
    >)
        requires
            old(self).wf(),
            lowest <= highest,
        ensures
            final(self).wf(),
            final(self).log == old(self).log,
            final(self).tags == old(self).tags,
            final(self).tracks@ == old(self).tracks@.map_values(
                |t: Track| retargeted(t, level::clamped(target as int, lowest as int, highest as int)),
            ),
            r matches Ok(n) && n == count_where(old(self).tracks@, |t: Track| measured(t)),
    {
        let goal: i64 = if target < lowest {
            lowest
        } else if target > highest {
            highest
        } else {
            target
        };
        let ghost before = self.tracks@;
        let ghost test = |t: Track| measured(t);
        let ghost change = |t: Track|
            retargeted(t, level::clamped(target as int, lowest as int, highest as int));
        let mut n: usize = 0;
        let mut i: usize = 0;
        while i < self.tracks.len()
            invariant
                i <= self.tracks.len(),
                self.wf(),
                self.log == old(self).log,
                self.tags == old(self).tags,
                before == old(self).tracks@,
                self.tracks@.len() == before.len(),
                test == (|t: Track| measured(t)),
                change == (|t: Track|
                    retargeted(t, level::clamped(target as int, lowest as int, highest as int))),
                goal == level::clamped(target as int, lowest as int, highest as int),
                forall|j: int| i <= j < before.len() ==> #[trigger] self.tracks@[j] == before[j],
                forall|j: int| 0 <= j < i ==> #[trigger] self.tracks@[j] == change(before[j]),
                n == count_where(before.subrange(0, i as int), test),
                n <= i,
            decreases self.tracks.len() - i,
        {
            proof {
                lemma_count_step(before, test, i as int);
            }
            match self.tracks[i].loudness_udb {
                Some(l) => {
                    if l > SENTINEL_UDB {
                        let wanted: i128 = goal as i128 - l as i128;
                        let gain: i64 = if wanted < -24_000_000 {
                            -24_000_000
                        } else if wanted > 24_000_000 {
                            24_000_000
                        } else {
                            wanted as i64
                        };
                        let mut t = self.tracks[i].clone();
                        t.gain_udb = Some(gain);
                        self.put(i, t);
                        n = n + 1;
                    }
                },
                None => {},
            }
            i = i + 1;
        }
        assert(before.subrange(0, i as int) =~= before);
        assert(self.tracks@ =~= before.map_values(change));
        Ok(n)
    }

    /// Up to `limit` tracks still to be analyzed, by file name.
    pub fn tracks_missing_loudness(&self, limit: usize) -> (r: Result<Vec<Track>, CrabError>)
        ensures
            r matches Ok(v) && v@ == unmeasured_listing(self.tracks@).take(
                if limit < unmeasured_listing(self.tracks@).len() {
                    limit as int
                } else {
                    unmeasured_listing(self.tracks@).len() as int
                },
            ),
    {
        let mut test: Vec<bool> = Vec::new();
        let mut i: usize = 0;
        while i < self.tracks.len()
            invariant
                i <= self.tracks.len(),
                test@.len() == i,
                forall|j: int|
                    0 <= j < i ==> #[trigger] test@[j] == (self.tracks@[j].loudness_udb is None),
            decreases self.tracks.len() - i,
        {
            test.push(self.tracks[i].loudness_udb.is_none());
            i = i + 1;
        }
        proof {
            table::choosing_is_filtering(self.tracks@, test@, |t: Track| t.loudness_udb is None);
        }
        let mut v = rank(ByFileName, choose_rows(copy_all(&self.tracks), &test));
        let ghost all = v@;
        if limit < v.len() {
            v.truncate(limit);
            assert(v@ =~= all.take(limit as int));
        } else {
            assert(v@ =~= all.take(all.len() as int));
        }
        Ok(v)
    }

    /// How many tracks are still to be analyzed.
    pub fn count_missing_loudness(&self) -> (r: Result<usize, CrabError>)
        ensures
            r matches Ok(n) && n == count_where(self.tracks@, |t: Track| t.loudness_udb is None),
    {
        let ghost test = |t: Track| t.loudness_udb is None;
        let mut n: usize = 0;
        let mut i: usize = 0;
        while i < self.tracks.len()
            invariant
                i <= self.tracks.len(),
                test == (|t: Track| t.loudness_udb is None),
                n == count_where(self.tracks@.subrange(0, i as int), test),
                n <= i,
            decreases self.tracks.len() - i,
        {
            proof {
                lemma_count_step(self.tracks@, test, i as int);
            }
            if self.tracks[i].loudness_udb.is_none() {
                n = n + 1;
            }
            i = i + 1;
        }
        assert(self.tracks@.subrange(0, i as int) =~= self.tracks@);
        Ok(n)
    }

    /// The correction of the track at a path, where one is stored.
    pub fn loudness_gain_by_path(&self, path: &str) -> (r: Result<Option<i64>, CrabError>)
        requires
            self.wf(),
        ensures
            match r {
                Ok(g) => (forall|i: int|
                    0 <= i < self.tracks@.len() && (#[trigger] self.tracks@[i]).file_path@ == path@
                        ==> g == self.tracks@[i].gain_udb) && (!has_path(self.tracks@, path@)
                    ==> g is None),
                Err(_) => false,
            },
    {
        match self.find_path(path) {
            Some(k) => {
                assert forall|i: int|
                    0 <= i < self.tracks@.len() && (#[trigger] self.tracks@[i]).file_path@
                        == path@ implies i == k by {
                    if i < k {
                        assert(self.tracks@[i].file_path@ != self.tracks@[k as int].file_path@);
                    } else if i > k {
                        assert(self.tracks@[k as int].file_path@ != self.tracks@[i].file_path@);
                    }
                }
                Ok(self.tracks[k].gain_udb)
            },
            None => Ok(None),
        }
    }

    /// Override when a track may play; an unknown id changes nothing.
    pub fn set_daypart(&mut self, id: &str, start: Option<u8>, end: Option<u8>, days: &str) -> (r:
        Result<(), CrabError>)
        requires
            old(self).wf(),
        ensures
            r is Ok,
            final(self).wf(),
            final(self).log == old(self).log,
            final(self).tags == old(self).tags,
            final(self).tracks@.len() == old(self).tracks@.len(),
            forall|i: int|
                0 <= i < old(self).tracks@.len() ==> if old(self).tracks@[i].id@ == id@ {
                    (#[trigger] final(self).tracks@[i]) == (Track {
                        daypart_start: start,
                        daypart_end: end,
                        daypart_days: final(self).tracks@[i].daypart_days,
                        ..old(self).tracks@[i]
                    }) && final(self).tracks@[i].daypart_days@ == days@
                } else {
                    final(self).tracks@[i] == old(self).tracks@[i]
                },
    {
        let found = find_key(&self.tracks, id);
        match found {
            Some(i) => {
                let mut t = self.tracks[i].clone();
                t.daypart_start = start;
                t.daypart_end = end;
                t.daypart_days = days.to_owned();
                self.put(i, t);
                assert forall|j: int| 0 <= j < old(self).tracks@.len()
                    && j != i implies old(self).tracks@[j].id@ != id@ by {
                    if j < i {
                        assert(old(self).tracks@[j].key() != old(self).tracks@[i as int].key());
                    } else {
                        assert(old(self).tracks@[i as int].key() != old(self).tracks@[j].key());
                    }
                }
            },
            None => {
                assert forall|j: int| 0 <= j < old(self).tracks@.len() implies old(self).tracks@[j].id@ != id@ by {
                    assert(old(self).tracks@[j].key() != id@);
                }
            },
        }
        Ok(())
    }

    /// All tracks of one kind, by file name.
    pub fn list_by_kind(&self, kind: TrackKind) -> (r: Result<Vec<Track>, CrabError>)
        ensures
            r matches Ok(v) && v@ == kind_listing(self.tracks@, kind),
    {
        let mut test: Vec<bool> = Vec::new();
        let mut i: usize = 0;
        while i < self.tracks.len()
            invariant
                i <= self.tracks.len(),
                test@.len() == i,
                forall|j: int| 0 <= j < i ==> #[trigger] test@[j] == (self.tracks@[j].kind == kind),
            decreases self.tracks.len() - i,
        {
            test.push(self.tracks[i].kind == kind);
            i = i + 1;
        }
        proof {
            table::choosing_is_filtering(self.tracks@, test@, |t: Track| t.kind == kind);
        }
        Ok(rank(ByFileName, choose_rows(copy_all(&self.tracks), &test)))
    }

    /// All tracks by artist, album and title.
    pub fn get_all_tracks(&self) -> (r: Result<Vec<Track>, CrabError>)
        ensures
            r matches Ok(v) && v@ == rank::ranked(ByTags, self.tracks@),
    {
        Ok(rank(ByTags, copy_all(&self.tracks)))
    }

    /// The track with an id.
    pub fn get_track(&self, id: &str) -> (r: Result<Option<Track>, CrabError>)
        ensures
            match r {
                Ok(Some(t)) => self.tracks@.contains(t) && t.id@ == id@,
                Ok(None) => !table::has_key(self.tracks@, id@),
                Err(_) => false,
            },
    {
        match find_key(&self.tracks, id) {
            Some(i) => Ok(Some(self.tracks[i].clone())),
            None => Ok(None),
        }
    }

    /// The track at an exact path.
    pub fn find_by_path(&self, path: &str) -> (r: Result<Option<Track>, CrabError>)
        ensures
            match r {
                Ok(Some(t)) => self.tracks@.contains(t) && t.file_path@ == path@,
                Ok(None) => !has_path(self.tracks@, path@),
                Err(_) => false,
            },
    {
        match self.find_path(path) {
            Some(i) => Ok(Some(self.tracks[i].clone())),
            None => Ok(None),
        }
    }

    /// Record that a track was played at a given moment.
    pub fn record_play_at(&mut self, track_id: &str, duration_nanos: Option<u64>, at: Stamp) -> (r:
        Result<(), CrabError>)
        requires
            old(self).wf(),
            at.valid(),
            forall|i: int|
                0 <= i < old(self).tracks@.len() ==> (#[trigger] old(self).tracks@[i]).play_count
                    < i32::MAX,
        ensures
            final(self).wf(),
            match r {
                Ok(_) => {
                    &&& table::has_key(old(self).tracks@, track_id@)
                    &&& played(*old(self), *final(self), track_id@, duration_nanos, at)
                },
                Err(CrabError::Database(m)) => !table::has_key(old(self).tracks@, track_id@) && m@
                    == "FOREIGN KEY constraint failed"@ && *final(self) == *old(self),
                Err(_) => false,
            },
    {
        let ghost change = |t: Track|
            if t.id@ == track_id@ {
                Track { play_count: (t.play_count + 1) as i32, last_played_at: Some(at), ..t }
            } else {
                t
            };
        let i: usize = match find_key(&self.tracks, track_id) {
            Some(i) => i,
            None => {
                return Err(CrabError::Database(String::from_str("FOREIGN KEY constraint failed")));
            },
        };
        assert(self.tracks@[i as int].key() == track_id@);
        let mut t = self.tracks[i].clone();
        t.play_count = t.play_count + 1;
        t.last_played_at = Some(at);
        self.put(i, t);
        proof {
            lemma_one_changes(old(self).tracks@, track_id@, i as int, change);
        }
        let row = PlayRow {
            track_id: track_id.to_owned(),
            played_at: write_rfc3339(at),
            duration_nanos,
        };
        self.log.push(row);
        assert(self.log@.drop_last() =~= old(self).log@);
        assert(self.tracks@[i as int].key() == track_id@);
        assert forall|k: int| 0 <= k < self.log@.len() implies table::has_key(
            self.tracks@,
            (#[trigger] self.log@[k]).track_id@,
        ) by {
            if k < old(self).log@.len() {
                let n = choose|n: int|
                    0 <= n < old(self).tracks@.len()
                        && old(self).tracks@[n].key() == old(self).log@[k].track_id@;
                assert(self.tracks@[n].key() == self.log@[k].track_id@);
            }
        }
        Ok(())
    }

    /// Record that a track was played now; when that is, is up to the clock.
    pub fn record_play(&mut self, track_id: &str, duration_nanos: Option<u64>) -> (r: Result<
        (),
        CrabError,
    >)
        requires
            old(self).wf(),
            forall|i: int|
                0 <= i < old(self).tracks@.len() ==> (#[trigger] old(self).tracks@[i]).play_count
                    < i32::MAX,
        ensures
            final(self).wf(),
            match r {
                Ok(_) => {
                    &&& table::has_key(old(self).tracks@, track_id@)
                    &&& exists|at: Stamp|
                        at.valid() && #[trigger] played(
                            *old(self),
                            *final(self),
                            track_id@,
                            duration_nanos,
                            at,
                        )
                },
                Err(CrabError::Database(m)) => !table::has_key(old(self).tracks@, track_id@) && m@
                    == "FOREIGN KEY constraint failed"@ && *final(self) == *old(self),
                Err(_) => false,
            },
    {
        self.record_play_at(track_id, duration_nanos, now())
    }

    /// Remove a track, the log of its plays and its tags; an unknown id changes
    /// nothing.
    pub fn remove_track(&mut self, id: &str) -> (r: Result<(), CrabError>)
        requires
            old(self).wf(),
        ensures
            r is Ok,
            final(self).wf(),
            final(self).tracks@ == table::without_key(old(self).tracks@, id@),
            final(self).log@ == table::without_key(old(self).log@, id@),
            final(self).tags@ == table::without_key(old(self).tags@, id@),
            !table::has_key(final(self).tracks@, id@),
            !table::has_key(final(self).log@, id@),
            !table::has_key(final(self).tags@, id@),
    {
        remove_key(&mut self.tracks, id);
        remove_key(&mut self.log, id);
        remove_key(&mut self.tags, id);
        proof {
            let tracks = old(self).tracks@;
            let log = old(self).log@;
            table::removal_leaves_the_rest(tracks, id@);
            let tags = old(self).tags@;
            table::removal_leaves_the_rest(log, id@);
            table::removal_leaves_the_rest(tags, id@);
            lemma_without_tags(tags, id@);
            lemma_without_paths(tracks, id@);
            assert forall|k: int| 0 <= k < self.log@.len() implies table::has_key(
                self.tracks@,
                (#[trigger] self.log@[k]).track_id@,
            ) by {
                let row = self.log@[k];
                assert(row.key() != id@);
                assert(log.contains(row));
                let m = choose|m: int| 0 <= m < log.len() && log[m] == row;
                assert(table::has_key(tracks, log[m].track_id@));
                let n = choose|n: int| 0 <= n < tracks.len() && tracks[n].key() == row.track_id@;
                assert(tracks.contains(tracks[n]));
                assert(self.tracks@.contains(tracks[n]));
                let u = choose|u: int| 0 <= u < self.tracks@.len() && self.tracks@[u] == tracks[n];
                assert(self.tracks@[u].key() == row.track_id@);
            }
            assert forall|k: int| 0 <= k < self.tags@.len() implies table::has_key(
                self.tracks@,
                (#[trigger] self.tags@[k]).track_id@,
            ) by {
                let row = self.tags@[k];
                assert(row.key() != id@);
                assert(tags.contains(row));
                let m = choose|m: int| 0 <= m < tags.len() && tags[m] == row;
                assert(table::has_key(tracks, tags[m].track_id@));
                let n = choose|n: int| 0 <= n < tracks.len() && tracks[n].key() == row.track_id@;
                assert(tracks.contains(tracks[n]));
                assert(self.tracks@.contains(tracks[n]));
                let u = choose|u: int| 0 <= u < self.tracks@.len() && self.tracks@[u] == tracks[n];
                assert(self.tracks@[u].key() == row.track_id@);
            }
        }
        Ok(())
    }

    /// The tracks whose files are gone, by artist, album and title. `present`
    /// tells of each listed track whether its file was found.
    pub fn missing_files(&self, present: &Vec<bool>) -> (r: Result<Vec<Track>, CrabError>)
        requires
            present@.len() == self.tracks@.len(),
        ensures
            r matches Ok(v) && v@ == table::chosen(
                rank::ranked(ByTags, self.tracks@),
                present@.map_values(|p: bool| !p),
            ),
    {
        let all = rank(ByTags, copy_all(&self.tracks));
        proof {
            rank::ranking_orders(ByTags, self.tracks@);
        }
        let mut gone: Vec<bool> = Vec::new();
        let mut i: usize = 0;
        while i < present.len()
            invariant
                i <= present.len(),
                gone@ == present@.map_values(|p: bool| !p).subrange(0, i as int),
            decreases present.len() - i,
        {
            gone.push(!present[i]);
            i = i + 1;
            assert(gone@ =~= present@.map_values(|p: bool| !p).subrange(0, i as int));
        }
        assert(gone@ =~= present@.map_values(|p: bool| !p));
        Ok(choose_rows(all, &gone))
    }
}

proof fn lemma_one_changes(
    tracks: Seq<Track>,
    id: Seq<char>,
    i: int,
    change: spec_fn(Track) -> Track,
)
    requires
        0 <= i < tracks.len(),
        table::distinct_keys(tracks),
        tracks[i].key() == id,
        forall|t: Track| t.key() != id ==> #[trigger] change(t) == t,
    ensures
        tracks.update(i, change(tracks[i])) == tracks.map_values(change),
{
    assert forall|j: int| 0 <= j < tracks.len() implies tracks.update(i, change(tracks[i]))[j]
        == tracks.map_values(change)[j] by {
        if j < i {
            assert(tracks[j].key() != tracks[i].key());
        } else if j > i {
            assert(tracks[i].key() != tracks[j].key());
        }
        if j != i {
            assert(change(tracks[j]) == tracks[j]);
        }
    }
    assert(tracks.update(i, change(tracks[i])) =~= tracks.map_values(change));
}

proof fn lemma_without_paths(tracks: Seq<Track>, id: Seq<char>)
    ensures
        distinct_paths(tracks) ==> distinct_paths(table::without_key(tracks, id)),
    decreases tracks.len(),
{
    reveal(Seq::filter);
    let left = table::without_key(tracks, id);
    if tracks.len() > 0 {
        let front = tracks.drop_last();
        lemma_without_paths(front, id);
        table::removal_leaves_the_rest(front, id);
        let before = table::without_key(front, id);
        if distinct_paths(tracks) {
            assert(distinct_paths(front)) by {
                assert forall|i: int, j: int| 0 <= i < j < front.len() implies (
                #[trigger] front[i]).file_path@ != (#[trigger] front[j]).file_path@ by {
                    assert(tracks[i].file_path@ != tracks[j].file_path@);
                }
            }
            assert forall|i: int, j: int| 0 <= i < j < left.len() implies (
            #[trigger] left[i]).file_path@ != (#[trigger] left[j]).file_path@ by {
                assert(left[i] == before[i]);
                if j < before.len() {
                    assert(left[j] == before[j]);
                } else {
                    assert(front.contains(before[i]));
                    let n = choose|n: int| 0 <= n < front.len() && front[n] == before[i];
                    assert(tracks[n].file_path@ != tracks[tracks.len() - 1].file_path@);
                }
            }
        }
    }
}

proof fn lemma_without_tags(tags: Seq<TagRow>, id: Seq<char>)
    ensures
        distinct_tags(tags) ==> distinct_tags(table::without_key(tags, id)),
    decreases tags.len(),
{
    reveal(Seq::filter);
    let left = table::without_key(tags, id);
    if tags.len() > 0 {
        let front = tags.drop_last();
        lemma_without_tags(front, id);
        table::removal_leaves_the_rest(front, id);
        let before = table::without_key(front, id);
        if distinct_tags(tags) {
            assert(distinct_tags(front)) by {
                assert forall|i: int, j: int| 0 <= i < j < front.len() implies differ(
                    #[trigger] front[i],
                    #[trigger] front[j],
                ) by {
                    assert(differ(tags[i], tags[j]));
                }
            }
            assert forall|i: int, j: int| 0 <= i < j < left.len() implies differ(
                #[trigger] left[i],
                #[trigger] left[j],
            ) by {
                assert(left[i] == before[i]);
                if j < before.len() {
                    assert(left[j] == before[j]);
                } else {
                    assert(front.contains(before[i]));
                    let n = choose|n: int| 0 <= n < front.len() && front[n] == before[i];
                    assert(differ(tags[n], tags[tags.len() - 1]));
                }
            }
        }
    }
}

/// A track that was stored is the one that is found, by its id and by its
/// path, and every track that was there before still is.
pub proof fn stored_tracks_are_found(before: Seq<Track>, t: Track, u: Track)
    requires
        !table::has_key(before, t.id@),
        !has_path(before, t.file_path@),
        before.push(t).contains(u),
    ensures
        before.push(t).contains(t),
        u.id@ == t.id@ ==> u == t,
        u.file_path@ == t.file_path@ ==> u == t,
        u != t ==> before.contains(u),
{
    let after = before.push(t);
    assert(after[before.len() as int] == t);
    let i = choose|i: int| 0 <= i < after.len() && after[i] == u;
    if i < before.len() {
        assert(before[i] == u);
        assert(before[i].key() != t.id@);
    }
}

/// Telling the kinds from the paths a second time changes no track.
pub proof fn reclassifying_settles(tracks: Seq<Track>)
    ensures
        ({
            let once = tracks.map_values(|t: Track| Track { kind: kind::kind_from_path(t.file_path@), ..t });
            count_where(once, |t: Track| t.kind != kind::kind_from_path(t.file_path@)) == 0
                && once.map_values(
                |t: Track| Track { kind: kind::kind_from_path(t.file_path@), ..t },
            ) == once
        }),
    decreases tracks.len(),
{
    let f = |t: Track| Track { kind: kind::kind_from_path(t.file_path@), ..t };
    let once = tracks.map_values(f);
    assert(once.map_values(f) =~= once);
    if tracks.len() > 0 {
        reclassifying_settles(tracks.drop_last());
        assert(once.drop_last() =~= tracks.drop_last().map_values(f));
    }
}

/// A file is audio exactly where its ending, in any case, is one of ten, and
/// its name is what follows the last slash.
pub proof fn endings_tell_audio(folder: Seq<char>, base: Seq<char>, ext: Seq<char>)
    requires
        base.len() > 0,
        !base.contains('/'),
        !ext.contains('/'),
        !ext.contains('.'),
        base.push('.') + ext != ".."@,
        text::is_ascii_text(ext),
    ensures
        name_part(folder.push('/') + (base.push('.') + ext)) == base.push('.') + ext,
        audio_path(folder.push('/') + (base.push('.') + ext)) <==> seq![
            "mp3"@,
            "flac"@,
            "aac"@,
            "ogg"@,
            "wav"@,
            "aiff"@,
            "opus"@,
            "wv"@,
            "mpc"@,
            "m4a"@,
        ].contains(text::fold(ext)),
        kind::kind_from_path(folder.push('/') + (base.push('.') + ext)) == kind::kind_from_parts(
            text::lowered(folder),
            text::lowered(base),
        ),
{
    let list = seq![
        "mp3"@,
        "flac"@,
        "aac"@,
        "ogg"@,
        "wav"@,
        "aiff"@,
        "opus"@,
        "wv"@,
        "mpc"@,
        "m4a"@,
    ];
    let file = base.push('.') + ext;
    let path = folder.push('/') + file;
    kind::paths_are_folder_and_file(folder, base, ext);
    kind::lemma_last_dot(base, ext);
    let pieces = text::split_at(path, '/');
    assert(pieces.last() == file);
    assert(file.skip(base.len() as int + 1) =~= ext);
    let e = text::fold(ext);
    assert(list[0] == "mp3"@ && list[1] == "flac"@ && list[2] == "aac"@ && list[3] == "ogg"@ && list[4]
        == "wav"@ && list[5] == "aiff"@ && list[6] == "opus"@ && list[7] == "wv"@ && list[8] == "mpc"@
        && list[9] == "m4a"@);
    assert(text::lowered(extension(name_part(path))) == e);
}

proof fn lemma_hits(s: Seq<Track>, p: spec_fn(Track) -> bool, t: Track)
    ensures
        s.filter(p).contains(t) <==> s.contains(t) && p(t),
{
    if s.filter(p).contains(t) {
        s.lemma_filter_contains_rev(p, t);
        let i = choose|i: int| 0 <= i < s.filter(p).len() && s.filter(p)[i] == t;
        s.lemma_filter_pred(p, i);
    }
    if s.contains(t) && p(t) {
        let i = choose|i: int| 0 <= i < s.len() && s[i] == t;
        s.lemma_filter_contains(p, i);
    }
}

/// A listing holds exactly the tracks of its kind, or those that were never
/// measured, in the order of their file names.
pub proof fn listings_are_complete_and_in_order(
    tracks: Seq<Track>,
    kind: TrackKind,
    t: Track,
    i: int,
    j: int,
)
    ensures
        kind_listing(tracks, kind).contains(t) <==> tracks.contains(t) && t.kind == kind,
        unmeasured_listing(tracks).contains(t) <==> tracks.contains(t) && t.loudness_udb is None,
        0 <= i < j < kind_listing(tracks, kind).len() ==> !text::text_lt(
            kind_listing(tracks, kind)[j].file_name@,
            kind_listing(tracks, kind)[i].file_name@,
        ),
        0 <= i < j < unmeasured_listing(tracks).len() ==> !text::text_lt(
            unmeasured_listing(tracks)[j].file_name@,
            unmeasured_listing(tracks)[i].file_name@,
        ),
{
    let p = |t: Track| t.kind == kind;
    let q = |t: Track| t.loudness_udb is None;
    lemma_hits(tracks, p, t);
    lemma_hits(tracks, q, t);
    rank::ranking_keeps_members(ByFileName, tracks.filter(p), t);
    rank::ranking_keeps_members(ByFileName, tracks.filter(q), t);
    rank::ranking_orders(ByFileName, tracks.filter(p));
    rank::ranking_orders(ByFileName, tracks.filter(q));
    if 0 <= i < j < kind_listing(tracks, kind).len() {
        assert(!ByFileName.before(kind_listing(tracks, kind)[j], kind_listing(tracks, kind)[i]));
    }
    if 0 <= i < j < unmeasured_listing(tracks).len() {
        assert(!ByFileName.before(unmeasured_listing(tracks)[j], unmeasured_listing(tracks)[i]));
    }
}

/// A new target moves the correction of every track that was measured to what
/// brings it there, up to twenty-four decibels either way. Nothing else of it
/// changes, and a track that was not measured, or only found silent, is left
/// alone.
pub proof fn targets_move_measured_tracks(t: Track, target: int)
    ensures
        retargeted(t, target) == (Track { gain_udb: retargeted(t, target).gain_udb, ..t }),
        (t.loudness_udb is None || t.loudness_udb->0 <= -69_000_000) ==> retargeted(t, target) == t,
        t.loudness_udb is Some && t.loudness_udb->0 > -69_000_000 ==> {
            let off = target - t.loudness_udb->0;
            let gain = retargeted(t, target).gain_udb;
            &&& -24_000_000 <= off <= 24_000_000 ==> gain is Some && gain->0 == off
            &&& off < -24_000_000 ==> gain == Some(-24_000_000i64)
            &&& off > 24_000_000 ==> gain == Some(24_000_000i64)
        },
{
}

/// Counting tracks counts those that a listing by the same test would hold.
pub proof fn counts_are_those_of_the_listing(tracks: Seq<Track>, test: spec_fn(Track) -> bool)
    ensures
        count_where(tracks, test) == tracks.filter(test).len(),
    decreases tracks.len(),
{
    reveal(Seq::filter);
    if tracks.len() > 0 {
        counts_are_those_of_the_listing(tracks.drop_last(), test);
    }
}

/// A play counts for its track alone, and is the last line of the log.
pub proof fn plays_count_for_their_track(
    before: Library,
    after: Library,
    id: Seq<char>,
    length: Option<u64>,
    at: Stamp,
    i: int,
)
    requires
        played(before, after, id, length, at),
        0 <= i < before.tracks@.len(),
        before.tracks@[i].play_count < i32::MAX,
    ensures
        after.tracks@.len() == before.tracks@.len(),
        before.tracks@[i].id@ != id ==> after.tracks@[i] == before.tracks@[i],
        before.tracks@[i].id@ == id ==> after.tracks@[i].play_count == before.tracks@[i].play_count + 1
            && after.tracks@[i].last_played_at == Some(at) && after.tracks@[i] == (Track {
            play_count: after.tracks@[i].play_count,
            last_played_at: Some(at),
            ..before.tracks@[i]
        }),
        after.log@ == before.log@.push(after.log@.last()),
        after.log@.last().track_id@ == id,
        after.log@.last().duration_nanos == length,
        after.log@.last().played_at@ == clock::rfc3339_text(at.secs as int, at.nanos as int),
{
    assert(after.log@ =~= before.log@.push(after.log@.last()));
}

/// A scan takes up every audio file that it finds, under its own fresh id, and
/// nothing else: each path on the shelf was there before or is such a file.
pub proof fn scans_take_the_audio_files(
    shelf: Seq<(Seq<char>, Seq<char>)>,
    paths: Seq<Seq<char>>,
    ids: Seq<Seq<char>>,
    n: int,
    path: Seq<char>,
)
    requires
        0 <= n <= paths.len(),
        paths.len() == ids.len(),
        ids.no_duplicates(),
        forall|k: int| 0 <= k < n ==> !id_on(shelf, #[trigger] ids[k]),
    ensures
        path_on(shelf_after(shelf, paths, ids, n), path) <==> path_on(shelf, path) || exists|k: int|
            0 <= k < n && #[trigger] paths[k] == path && audio_path(path),
        forall|k: int| n <= k < ids.len() && !id_on(shelf, #[trigger] ids[k]) ==> !id_on(
            shelf_after(shelf, paths, ids, n),
            ids[k],
        ),
    decreases n,
{
    if n > 0 {
        scans_take_the_audio_files(shelf, paths, ids, n - 1, path);
        let so_far = shelf_after(shelf, paths, ids, n - 1);
        let all = shelf_after(shelf, paths, ids, n);
        let p = paths[n - 1];
        scans_take_the_audio_files(shelf, paths, ids, n - 1, p);
        assert(!id_on(so_far, ids[n - 1]));
        if audio_path(p) && !path_on(so_far, p) {
            assert(all == so_far.push((ids[n - 1], p)));
            assert(all[so_far.len() as int].1 == p);
            assert forall|i: int| 0 <= i < so_far.len() implies all[i] == so_far[i] by {}
            if path_on(so_far, path) {
                let i = choose|i: int| 0 <= i < so_far.len() && (#[trigger] so_far[i]).1 == path;
                assert(all[i].1 == path);
            }
            if path_on(all, path) && path != p {
                let i = choose|i: int| 0 <= i < all.len() && (#[trigger] all[i]).1 == path;
                assert(so_far[i].1 == path);
            }
            assert forall|k: int| n <= k < ids.len() && !id_on(shelf, #[trigger] ids[k]) implies !id_on(
                all,
                ids[k],
            ) by {
                if id_on(all, ids[k]) {
                    let i = choose|i: int| 0 <= i < all.len() && (#[trigger] all[i]).0 == ids[k];
                    if i < so_far.len() {
                        assert(so_far[i].0 == ids[k]);
                    } else {
                        assert(ids[n - 1] == ids[k]);
                    }
                }
            }
        }
    }
}

/// A file says of itself what its tags say, each in its place, and nothing where
/// it has none.
pub proof fn files_say_what_their_tags_say(m: Metadata, tag: TagFields)
    ensures
        shows_tag(m, Some(tag)) ==> m.title == tag.title && m.artist == tag.artist && m.album
            == tag.album && m.genre == tag.genre,
        shows_tag(m, Some(tag)) && tag.year is Some && tag.year->0 <= i32::MAX ==> m.year is Some
            && m.year->0 == tag.year->0,
        shows_tag(m, Some(tag)) && tag.track is Some && tag.track->0 <= i32::MAX ==> m.track_number is Some
            && m.track_number->0 == tag.track->0,
        shows_tag(m, Some(tag)) && tag.year is None ==> m.year is None,
        shows_tag(m, Some(tag)) && tag.track is None ==> m.track_number is None,
        shows_tag(m, None) ==> m.title is None && m.artist is None && m.album is None && m.genre is None,
        shows_tag(m, None) ==> m.year is None && m.track_number is None,
{
}

/// A track that was just found has the path, the name and the tags of its file,
/// the kind that its path tells, and no history.
pub proof fn new_tracks_have_no_history(
    t: Track,
    path: Seq<char>,
    meta: Metadata,
    file_size: Option<i64>,
    hour: u8,
    weekday: Seq<char>,
)
    requires
        just_found(t, path, meta, file_size),
    ensures
        t.file_path@ == path && t.file_name@ == name_part(path),
        t.title == meta.title && t.artist == meta.artist && t.album == meta.album && t.genre
            == meta.genre && t.year == meta.year && t.track_number == meta.track_number,
        t.duration_nanos == meta.duration_nanos && t.sample_rate == meta.sample_rate && t.channels
            == meta.channels && t.file_size == file_size,
        t.kind == kind::kind_from_path(path),
        t.play_count == 0 && t.last_played_at is None && t.loudness_udb is None && t.gain_udb is None,
        track::eligible(t, hour, weekday),
{
    reveal_strlit("Daily");
    reveal_strlit("daily");
    assert(text::fold("Daily"@) =~= text::fold("daily"@));
}

} // verus!
