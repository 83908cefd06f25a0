//! One audio track and when it may play.

use vstd::prelude::*;
use vstd::string::*;

use crate::clock::{read_rfc3339, write_rfc3339, Stamp};
use crate::days::covers_day;
use crate::library::kind::TrackKind;
use crate::rank::Order;
use crate::table::Keyed;
use crate::text::{copy_opt, same_text, text_before};
use crate::clock;
use crate::days;
use crate::library::kind;
use crate::text;

verus! {

/// Unique identifier for a track in the library.
pub type TrackId = String;

/// One audio track. Lengths are in nanoseconds; loudness and gain are in
/// millionths of a decibel.
#[derive(Debug)]
pub struct Track {
    pub id: TrackId,
    pub file_path: String,
    pub file_name: String,
    pub title: Option<String>,
    pub artist: Option<String>,
    pub album: Option<String>,
    pub genre: Option<String>,
    pub year: Option<i32>,
    pub track_number: Option<i32>,
    pub duration_nanos: Option<u64>,
    pub file_size: Option<i64>,
    pub sample_rate: Option<i32>,
    pub channels: Option<i32>,
    /// Station role: music, jingle or ad. Same audio, different rules.
    pub kind: TrackKind,
    /// First hour (0-23) it may play in, or nothing: any time.
    pub daypart_start: Option<u8>,
    /// Hour it may no longer play in (may wrap past midnight), or nothing.
    pub daypart_end: Option<u8>,
    /// `Daily` or a comma list like `Mon,Tue`.
    pub daypart_days: String,
    /// Measured integrated loudness; nothing: not analyzed yet.
    pub loudness_udb: Option<i64>,
    /// Correction toward the loudness target.
    pub gain_udb: Option<i64>,
    pub added_at: Stamp,
    pub last_played_at: Option<Stamp>,
    pub play_count: i32,
    /// Beats per minute, in millionths; nothing: not known.
    pub bpm: Option<i64>,
    /// A comma list of tags; empty where none is shown.
    pub tags: String,
}

impl Clone for Track {
    fn clone(&self) -> (r: Self)
        ensures
            r == *self,
    {
        Track {
            id: self.id.clone(),
            file_path: self.file_path.clone(),
            file_name: self.file_name.clone(),
            title: copy_opt(&self.title),
            artist: copy_opt(&self.artist),
            album: copy_opt(&self.album),
            genre: copy_opt(&self.genre),
            year: self.year,
            track_number: self.track_number,
            duration_nanos: self.duration_nanos,
            file_size: self.file_size,
            sample_rate: self.sample_rate,
            channels: self.channels,
            kind: self.kind,
            daypart_start: self.daypart_start,
            daypart_end: self.daypart_end,
            daypart_days: self.daypart_days.clone(),
            loudness_udb: self.loudness_udb,
            gain_udb: self.gain_udb,
            added_at: self.added_at,
            last_played_at: self.last_played_at,
            play_count: self.play_count,
            bpm: self.bpm,
            tags: self.tags.clone(),
        }
    }
}

impl Keyed for Track {
    open spec fn key(self) -> Seq<char> {
        self.id@
    }

    fn key_is(&self, id: &str) -> (r: bool) {
        same_text(self.id.as_str(), id)
    }

    fn duplicate(&self) -> (r: Self) {
        self.clone()
    }
}

/// An hour lies in a daypart, which may wrap past midnight.
pub open spec fn hour_in(start: Option<u8>, end: Option<u8>, hour: u8) -> bool {
    match (start, end) {
        (Some(s), Some(e)) => if s <= e {
            s <= hour < e
        } else {
            hour >= s || hour < e
        },
        _ => true,
    }
}

/// A track may play in an hour of a weekday.
pub open spec fn eligible(t: Track, hour: u8, weekday: Seq<char>) -> bool {
    days::day_listed(t.daypart_days@, weekday) && hour_in(t.daypart_start, t.daypart_end, hour)
}

impl Track {
    /// Whether the track may play in an hour (0-23) of a weekday (`Mon`..`Sun`).
    pub fn eligible_at(&self, hour: u8, weekday: &str) -> (r: bool)
        ensures
            r == eligible(*self, hour, weekday@),
    {
        if !covers_day(self.daypart_days.as_str(), weekday) {
            return false;
        }
        match (self.daypart_start, self.daypart_end) {
            (Some(s), Some(e)) => {
                if s <= e {
                    hour >= s && hour < e
                } else {
                    hour >= s || hour < e
                }
            },
            _ => true,
        }
    }
}

/// A daypart and the one with its ends exchanged share no hour and leave none
/// out, unless the two ends are the same.
pub proof fn dayparts_complement(s: u8, e: u8, hour: u8)
    requires
        s != e,
    ensures
        hour_in(Some(s), Some(e), hour) == !hour_in(Some(e), Some(s), hour),
{
}

/// A track as it is stored: role, dayparts and moments in the form of their
/// columns.
#[derive(Debug)]
pub struct TrackRow {
    pub id: TrackId,
    pub file_path: String,
    pub file_name: String,
    pub title: Option<String>,
    pub artist: Option<String>,
    pub album: Option<String>,
    pub genre: Option<String>,
    pub year: Option<i32>,
    pub track_number: Option<i32>,
    pub duration_nanos: Option<u64>,
    pub file_size: Option<i64>,
    pub sample_rate: Option<i32>,
    pub channels: Option<i32>,
    pub kind: Option<String>,
    pub daypart_start: Option<i64>,
    pub daypart_end: Option<i64>,
    pub daypart_days: Option<String>,
    pub loudness_udb: Option<i64>,
    pub gain_udb: Option<i64>,
    pub added_at: String,
    pub last_played_at: Option<String>,
    pub play_count: i32,
}

/// A stored hour keeps its low eight bits.
pub open spec fn stored_hour(v: Option<i64>) -> Option<u8> {
    match v {
        Some(h) => Some(h as u8),
        None => None,
    }
}

fn read_hour(v: Option<i64>) -> (r: Option<u8>)
    ensures
        r == stored_hour(v),
{
    match v {
        Some(h) => Some(#[verifier::truncate] (h as u8)),
        None => None,
    }
}

/// The track that a stored row stands for at a given moment: an unknown role
/// is music, missing days are all days, a moment of addition that does not
/// read is the given one, and one of the last play that does not is none.
pub open spec fn row_shows(row: TrackRow, at: Stamp, t: Track) -> bool {
    &&& t == (Track {
        id: row.id,
        file_path: row.file_path,
        file_name: row.file_name,
        title: row.title,
        artist: row.artist,
        album: row.album,
        genre: row.genre,
        year: row.year,
        track_number: row.track_number,
        duration_nanos: row.duration_nanos,
        file_size: row.file_size,
        sample_rate: row.sample_rate,
        channels: row.channels,
        kind: t.kind,
        daypart_start: stored_hour(row.daypart_start),
        daypart_end: stored_hour(row.daypart_end),
        daypart_days: t.daypart_days,
        loudness_udb: row.loudness_udb,
        gain_udb: row.gain_udb,
        added_at: t.added_at,
        last_played_at: t.last_played_at,
        play_count: row.play_count,
        bpm: None,
        tags: t.tags,
    })
    &&& t.tags@.len() == 0
    &&& t.kind == kind::kind_from_name(
        match row.kind {
            Some(k) => k@,
            None => Seq::empty(),
        },
    )
    &&& t.daypart_days@ == (match row.daypart_days {
        Some(d) => d@,
        None => "Daily"@,
    })
    &&& t.added_at == (match clock::rfc3339_moment(row.added_at@) {
        Some(s) => s,
        None => at,
    })
    &&& t.last_played_at == (match row.last_played_at {
        Some(s) => clock::rfc3339_moment(s@),
        None => None,
    })
}

/// Read a stored row at a given moment.
pub fn map_row(row: TrackRow, at: Stamp) -> (t: Track)
    ensures
        row_shows(row, at, t),
{
    let kind = match &row.kind {
        Some(k) => TrackKind::parse(k.as_str()),
        None => TrackKind::parse(String::new().as_str()),
    };
    let added_at = match read_rfc3339(row.added_at.as_str()) {
        Some(s) => s,
        None => at,
    };
    let last_played_at = match &row.last_played_at {
        Some(s) => read_rfc3339(s.as_str()),
        None => None,
    };
    Track {
        id: row.id,
        file_path: row.file_path,
        file_name: row.file_name,
        title: row.title,
        artist: row.artist,
        album: row.album,
        genre: row.genre,
        year: row.year,
        track_number: row.track_number,
        duration_nanos: row.duration_nanos,
        file_size: row.file_size,
        sample_rate: row.sample_rate,
        channels: row.channels,
        kind,
        daypart_start: read_hour(row.daypart_start),
        daypart_end: read_hour(row.daypart_end),
        daypart_days: match row.daypart_days {
            Some(d) => d,
            None => String::from_str("Daily"),
        },
        loudness_udb: row.loudness_udb,
        gain_udb: row.gain_udb,
        added_at,
        last_played_at,
        play_count: row.play_count,
        bpm: None,
        tags: String::new(),
    }
}

/// A stored hour.
fn hour_column(v: Option<u8>) -> (r: Option<i64>)
    ensures
        stored_hour(r) == v,
        r == (match v {
            Some(h) => Some(h as i64),
            None => None,
        }),
{
    match v {
        Some(h) => Some(h as i64),
        None => None,
    }
}

/// A row that a track is stored as: every column as the track has it, and the
/// moments as text.
pub open spec fn stored_as(t: Track, row: TrackRow) -> bool {
    &&& row == (TrackRow {
        id: t.id,
        file_path: t.file_path,
        file_name: t.file_name,
        title: t.title,
        artist: t.artist,
        album: t.album,
        genre: t.genre,
        year: t.year,
        track_number: t.track_number,
        duration_nanos: t.duration_nanos,
        file_size: t.file_size,
        sample_rate: t.sample_rate,
        channels: t.channels,
        loudness_udb: t.loudness_udb,
        gain_udb: t.gain_udb,
        play_count: t.play_count,
        ..row
    })
    &&& row.kind matches Some(k) && k@ == kind::kind_name(t.kind)
    &&& stored_hour(row.daypart_start) == t.daypart_start
    &&& stored_hour(row.daypart_end) == t.daypart_end
    &&& row.daypart_days == Some(t.daypart_days)
    &&& row.added_at@ == clock::rfc3339_text(t.added_at.secs as int, t.added_at.nanos as int)
    &&& match (t.last_played_at, row.last_played_at) {
        (Some(at), Some(s)) => s@ == clock::rfc3339_text(at.secs as int, at.nanos as int),
        (None, None) => true,
        _ => false,
    }
}

/// The moments of a row read as those of a track.
pub open spec fn moments_read_back(t: Track, row: TrackRow) -> bool {
    &&& clock::rfc3339_moment(row.added_at@) == Some(t.added_at)
    &&& row.last_played_at matches Some(s) ==> clock::rfc3339_moment(s@) == t.last_played_at
}

impl Track {
    /// The row that this track is stored as. Moments of the years that four
    /// digits write read back.
    pub fn to_row(&self) -> (r: TrackRow)
        requires
            self.added_at.valid(),
            self.last_played_at matches Some(at) ==> at.valid(),
        ensures
            stored_as(*self, r),
            self.added_at.four_digit_year() && (self.last_played_at matches Some(at)
                ==> at.four_digit_year()) ==> moments_read_back(*self, r),
    {
        TrackRow {
            id: self.id.clone(),
            file_path: self.file_path.clone(),
            file_name: self.file_name.clone(),
            title: copy_opt(&self.title),
            artist: copy_opt(&self.artist),
            album: copy_opt(&self.album),
            genre: copy_opt(&self.genre),
            year: self.year,
            track_number: self.track_number,
            duration_nanos: self.duration_nanos,
            file_size: self.file_size,
            sample_rate: self.sample_rate,
            channels: self.channels,
            kind: Some(String::from_str(self.kind.as_str())),
            daypart_start: hour_column(self.daypart_start),
            daypart_end: hour_column(self.daypart_end),
            daypart_days: Some(self.daypart_days.clone()),
            loudness_udb: self.loudness_udb,
            gain_udb: self.gain_udb,
            added_at: write_rfc3339(self.added_at),
            last_played_at: match self.last_played_at {
                Some(at) => Some(write_rfc3339(at)),
                None => None,
            },
            play_count: self.play_count,
        }
    }
}

/// A stored track reads back as it was, whenever it is read; a row carries
/// neither the beats per minute nor the shown tags.
pub proof fn stored_tracks_read_back(t: Track, row: TrackRow, at: Stamp, u: Track)
    requires
        stored_as(t, row),
        moments_read_back(t, row),
        row_shows(row, at, u),
    ensures
        u == (Track { daypart_days: u.daypart_days, bpm: None, tags: u.tags, ..t }),
        u.tags@.len() == 0,
        u.daypart_days@ == t.daypart_days@,
{
    kind::kind_names_read_back(t.kind);
}

/// Dictionary order with missing texts in front.
pub open spec fn opt_lt(a: Option<Seq<char>>, b: Option<Seq<char>>) -> bool {
    match (a, b) {
        (None, Some(_)) => true,
        (Some(x), Some(y)) => text::text_lt(x, y),
        _ => false,
    }
}

/// Missing texts in front and the others in dictionary order: any two texts
/// that differ are in order one way round, and the order carries over.
pub proof fn missing_come_first(a: Option<Seq<char>>, b: Option<Seq<char>>, c: Option<Seq<char>>)
    ensures
        !opt_lt(a, a),
        opt_lt(a, b) ==> !opt_lt(b, a),
        a == b || opt_lt(a, b) || opt_lt(b, a),
        opt_lt(a, b) && opt_lt(b, c) ==> opt_lt(a, c),
{
    if a is Some {
        text::text_order_is_total(a->0, a->0);
        if b is Some {
            text::text_order_is_total(a->0, b->0);
            if c is Some && text::text_lt(a->0, b->0) && text::text_lt(b->0, c->0) {
                text::text_order_is_transitive(a->0, b->0, c->0);
            }
        }
    }
}

/// Whether a text comes before another, missing ones in front.
pub fn opt_before(a: &Option<String>, b: &Option<String>) -> (r: bool)
    ensures
        r == opt_lt(text::opt_text(*a), text::opt_text(*b)),
{
    match (a, b) {
        (None, Some(_)) => true,
        (Some(x), Some(y)) => text_before(x.as_str(), y.as_str()),
        _ => false,
    }
}

fn opt_same(a: &Option<String>, b: &Option<String>) -> (r: bool)
    ensures
        r == (text::opt_text(*a) == text::opt_text(*b)),
{
    match (a, b) {
        (None, None) => true,
        (Some(x), Some(y)) => same_text(x.as_str(), y.as_str()),
        _ => false,
    }
}

/// Listed by file name.
pub struct ByFileName;

impl Order<Track> for ByFileName {
    open spec fn before(self, a: Track, b: Track) -> bool {
        text::text_lt(a.file_name@, b.file_name@)
    }

    proof fn is_weak_order(self, a: Track, b: Track, c: Track) {
        text::text_order_is_total(a.file_name@, b.file_name@);
        text::text_order_is_total(b.file_name@, c.file_name@);
        text::text_order_is_total(a.file_name@, c.file_name@);
        if text::text_lt(a.file_name@, b.file_name@) && text::text_lt(b.file_name@, c.file_name@) {
            text::text_order_is_transitive(a.file_name@, b.file_name@, c.file_name@);
        }
    }

    fn is_ahead(&self, a: &Track, b: &Track) -> (r: bool) {
        text_before(a.file_name.as_str(), b.file_name.as_str())
    }
}

/// Listed by file path.
pub struct ByFilePath;

impl Order<Track> for ByFilePath {
    open spec fn before(self, a: Track, b: Track) -> bool {
        text::text_lt(a.file_path@, b.file_path@)
    }

    proof fn is_weak_order(self, a: Track, b: Track, c: Track) {
        text::text_order_is_total(a.file_path@, b.file_path@);
        text::text_order_is_total(b.file_path@, c.file_path@);
        text::text_order_is_total(a.file_path@, c.file_path@);
        if text::text_lt(a.file_path@, b.file_path@) && text::text_lt(b.file_path@, c.file_path@) {
            text::text_order_is_transitive(a.file_path@, b.file_path@, c.file_path@);
        }
    }

    fn is_ahead(&self, a: &Track, b: &Track) -> (r: bool) {
        text_before(a.file_path.as_str(), b.file_path.as_str())
    }
}

/// Listed by artist, then album, then title; missing ones in front.
pub struct ByTags;

impl Order<Track> for ByTags {
    open spec fn before(self, a: Track, b: Track) -> bool {
        ||| opt_lt(text::opt_text(a.artist), text::opt_text(b.artist))
        ||| text::opt_text(a.artist) == text::opt_text(b.artist)
            && opt_lt(text::opt_text(a.album), text::opt_text(b.album))
        ||| text::opt_text(a.artist) == text::opt_text(b.artist)
            && text::opt_text(a.album) == text::opt_text(b.album)
            && opt_lt(text::opt_text(a.title), text::opt_text(b.title))
    }

    proof fn is_weak_order(self, a: Track, b: Track, c: Track) {
        let (a1, b1, c1) = (text::opt_text(a.artist), text::opt_text(b.artist), text::opt_text(c.artist));
        let (a2, b2, c2) = (text::opt_text(a.album), text::opt_text(b.album), text::opt_text(c.album));
        let (a3, b3, c3) = (text::opt_text(a.title), text::opt_text(b.title), text::opt_text(c.title));
        missing_come_first(a1, b1, c1);
        missing_come_first(b1, c1, a1);
        missing_come_first(a1, c1, b1);
        missing_come_first(a2, b2, c2);
        missing_come_first(b2, c2, a2);
        missing_come_first(a2, c2, b2);
        missing_come_first(a3, b3, c3);
        missing_come_first(b3, c3, a3);
        missing_come_first(a3, c3, b3);
    }

    fn is_ahead(&self, a: &Track, b: &Track) -> (r: bool) {
        if opt_before(&a.artist, &b.artist) {
            return true;
        }
        if !opt_same(&a.artist, &b.artist) {
            return false;
        }
        if opt_before(&a.album, &b.album) {
            return true;
        }
        opt_same(&a.album, &b.album) && opt_before(&a.title, &b.title)
    }
}

/// A daypart lasts from its first hour round the clock to its last, which no
/// longer belongs to it, across midnight too.
pub proof fn dayparts_run_round_the_clock(s: u8, e: u8, hour: u8)
    requires
        s < 24,
        e < 24,
        hour < 24,
    ensures
        hour_in(Some(s), Some(e), hour) <==> (hour - s) % 24 < (e - s) % 24,
        hour_in(None, Some(e), hour),
        hour_in(Some(s), None, hour),
        hour_in(None, None, hour),
{
}

/// A track plays exactly on the days that it lists, in the hours that it names.
pub proof fn tracks_play_in_their_daypart(t: Track, s: u8, e: u8, hour: u8, weekday: Seq<char>)
    requires
        s < 24,
        e < 24,
        hour < 24,
        t.daypart_start == Some(s),
        t.daypart_end == Some(e),
    ensures
        eligible(t, hour, weekday) ==> days::day_listed(t.daypart_days@, weekday),
        eligible(t, hour, weekday) ==> (hour - s) % 24 < (e - s) % 24,
        days::day_listed(t.daypart_days@, weekday) && (hour - s) % 24 < (e - s) % 24 ==> eligible(
            t,
            hour,
            weekday,
        ),
{
    dayparts_run_round_the_clock(s, e, hour);
}

/// Tracks go by their artist, those of one artist by the album, those of one
/// album by the title.
pub proof fn tracks_go_by_artist_album_title(a: Track, b: Track)
    ensures
        opt_lt(text::opt_text(a.artist), text::opt_text(b.artist)) ==> ByTags.before(a, b)
            && !ByTags.before(b, a),
        text::opt_text(a.artist) == text::opt_text(b.artist) && opt_lt(
            text::opt_text(a.album),
            text::opt_text(b.album),
        ) ==> ByTags.before(a, b) && !ByTags.before(b, a),
        text::opt_text(a.artist) == text::opt_text(b.artist) && text::opt_text(a.album)
            == text::opt_text(b.album) ==> (ByTags.before(a, b) <==> opt_lt(
            text::opt_text(a.title),
            text::opt_text(b.title),
        )),
        opt_lt(None, text::opt_text(b.title)) <==> b.title is Some,
{
    missing_come_first(
        text::opt_text(a.artist),
        text::opt_text(b.artist),
        text::opt_text(a.artist),
    );
    missing_come_first(text::opt_text(a.album), text::opt_text(b.album), text::opt_text(a.album));
}

/// A track plays in the order of file names, or of paths, that their texts
/// have.
pub proof fn files_go_by_name_or_path(a: Track, b: Track)
    ensures
        a.file_name@ == b.file_name@ || ByFileName.before(a, b) || ByFileName.before(b, a),
        ByFileName.before(a, b) ==> text::text_lt(a.file_name@, b.file_name@),
        a.file_path@ == b.file_path@ || ByFilePath.before(a, b) || ByFilePath.before(b, a),
        ByFilePath.before(a, b) ==> text::text_lt(a.file_path@, b.file_path@),
{
    text::text_order_is_total(a.file_name@, b.file_name@);
    text::text_order_is_total(a.file_path@, b.file_path@);
}

} // verus!
