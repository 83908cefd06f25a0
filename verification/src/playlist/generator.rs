//! Rotation: who may play when, who plays next, and how often a jingle comes.
//!
//! Eligible tracks are ranked by play count; a pick keeps its distance from
//! recent artists, titles, albums and genres; jingles come at a fixed cadence.
//! Where no track satisfies every rule the best ranked one plays.

use std::collections::VecDeque;

use vstd::prelude::*;
use vstd::string::*;

use crate::days;
use crate::error::CrabError;
use crate::library::catalog::Library;
use crate::library::kind::TrackKind;
use crate::library::track::Track;
use crate::rank::{rank, Order};
use crate::table::choose_rows;
use crate::text::{same_text, text_before};
use crate::library::catalog;
use crate::library::track;
use crate::rank;
use crate::table;
use crate::text;

verus! {

/// Which end of the play counts to favor.
#[derive(Debug, Clone, Copy, PartialEq, Eq, Structural)]
pub enum PlaycountPriority {
    /// Surface under-played tracks first.
    LeastPlayed,
    /// Favor hits.
    MostPlayed,
}

impl Default for PlaycountPriority {
    fn default() -> (r: Self)
        ensures
            r == PlaycountPriority::LeastPlayed,
    {
        PlaycountPriority::LeastPlayed
    }
}

/// Rotation rules for one generated playlist.
#[derive(Debug, Clone)]
pub struct GenConfig {
    /// How many tracks to pick, music and jingles together.
    pub target_tracks: usize,
    /// The same artist does not repeat within this many previous tracks.
    pub artist_window: usize,
    /// The same title does not repeat within this many previous tracks.
    pub title_window: usize,
    /// The same album does not repeat within this many previous tracks.
    pub album_window: usize,
    /// The same genre does not appear within this many previous tracks.
    pub genre_gap: usize,
    /// A jingle after every so many music tracks; zero for none.
    pub jingles_every: usize,
    pub priority: PlaycountPriority,
    /// The hour, 0-23.
    pub hour: u8,
    /// The weekday, `Mon`..`Sun`.
    pub weekday: String,
}

impl Default for GenConfig {
    fn default() -> (r: Self)
        ensures
            r.target_tracks == 15,
            r.artist_window == 4,
            r.title_window == 8,
            r.album_window == 4,
            r.genre_gap == 2,
            r.jingles_every == 3,
            r.priority == PlaycountPriority::LeastPlayed,
            r.hour == 12,
            r.weekday@ == "Mon"@,
    {
        GenConfig {
            target_tracks: 15,
            artist_window: 4,
            title_window: 8,
            album_window: 4,
            genre_gap: 2,
            jingles_every: 3,
            priority: PlaycountPriority::LeastPlayed,
            hour: 12,
            weekday: String::from_str("Mon"),
        }
    }
}

/// The text of an optional string, empty where it is missing.
pub open spec fn or_empty(s: Option<String>) -> Seq<char> {
    match s {
        Some(t) => t@,
        None => Seq::empty(),
    }
}

/// What a title is told apart by: the title, or else the file name.
pub open spec fn title_key(t: Track) -> Seq<char> {
    match t.title {
        Some(s) => s@,
        None => t.file_name@,
    }
}

/// A window after one more pick: it keeps the latest keys up to its size, and
/// stays as it is when its size is zero.
pub open spec fn window_after(hist: Seq<Seq<char>>, key: Seq<char>, window: nat) -> Seq<Seq<char>> {
    if window == 0 {
        hist
    } else {
        let all = hist.push(key);
        if all.len() > window {
            all.skip(all.len() - window)
        } else {
            all
        }
    }
}

/// A window blocks a key; an empty key is never blocked.
pub open spec fn blocks(hist: Seq<Seq<char>>, key: Seq<char>) -> bool {
    key.len() > 0 && hist.contains(key)
}

/// What is remembered of the picks so far.
#[verifier::ext_equal]
pub ghost struct Memory {
    pub artists: Seq<Seq<char>>,
    pub titles: Seq<Seq<char>>,
    pub albums: Seq<Seq<char>>,
    pub genres: Seq<Seq<char>>,
    /// Music picks since the last jingle.
    pub since_jingle: nat,
    /// Where the search for the next jingle starts.
    pub cursor: nat,
}

/// Nothing is remembered.
pub open spec fn fresh_memory() -> Memory {
    Memory {
        artists: Seq::empty(),
        titles: Seq::empty(),
        albums: Seq::empty(),
        genres: Seq::empty(),
        since_jingle: 0,
        cursor: 0,
    }
}

/// A track clears every window.
pub open spec fn allowed(m: Memory, t: Track) -> bool {
    &&& !blocks(m.artists, or_empty(t.artist))
    &&& !blocks(m.titles, title_key(t))
    &&& !blocks(m.albums, or_empty(t.album))
    &&& !blocks(m.genres, or_empty(t.genre))
}

/// The windows after a pick; the counters stay.
pub open spec fn remembered(m: Memory, t: Track, cfg: GenConfig) -> Memory {
    Memory {
        artists: window_after(m.artists, or_empty(t.artist), cfg.artist_window as nat),
        titles: window_after(m.titles, title_key(t), cfg.title_window as nat),
        albums: window_after(m.albums, or_empty(t.album), cfg.album_window as nat),
        genres: window_after(m.genres, or_empty(t.genre), cfg.genre_gap as nat),
        ..m
    }
}

/// The index of the jingle tried at a step: round robin from the cursor.
pub open spec fn slot(cursor: nat, step: int, count: int) -> int {
    (cursor + step) % count
}

/// A jingle may play: its title did not just play, or it is the only one. An
/// empty title never just played.
pub open spec fn jingle_fits(jingles: Seq<Track>, i: int, last_title: Seq<char>) -> bool {
    jingles.len() == 1 || last_title.len() == 0 || title_key(jingles[i]) != last_title
}

/// The first step, from `step` on, at which a jingle fits.
pub open spec fn jingle_step(
    jingles: Seq<Track>,
    cursor: nat,
    last_title: Seq<char>,
    step: int,
) -> Option<int>
    decreases jingles.len() - step,
{
    if step >= jingles.len() {
        None
    } else if jingle_fits(jingles, slot(cursor, step, jingles.len() as int), last_title) {
        Some(step)
    } else {
        jingle_step(jingles, cursor, last_title, step + 1)
    }
}

/// The title that played last.
pub open spec fn last_title(m: Memory) -> Seq<char> {
    if m.titles.len() == 0 {
        Seq::empty()
    } else {
        m.titles.last()
    }
}

/// The index of the next jingle, where a jingle is due and one fits.
pub open spec fn next_jingle(jingles: Seq<Track>, m: Memory, cfg: GenConfig) -> Option<int> {
    if cfg.jingles_every > 0 && m.since_jingle >= cfg.jingles_every && jingles.len() > 0 {
        match jingle_step(jingles, m.cursor, last_title(m), 0) {
            Some(step) => Some(slot(m.cursor, step, jingles.len() as int)),
            None => None,
        }
    } else {
        None
    }
}

/// The index of the first allowed track from `i` on, and the number of tracks
/// where there is none.
pub open spec fn first_allowed(music: Seq<Track>, m: Memory, i: int) -> int
    decreases music.len() - i,
{
    if i >= music.len() {
        music.len() as int
    } else if allowed(m, music[i]) {
        i
    } else {
        first_allowed(music, m, i + 1)
    }
}

/// The index of the next music track: the best ranked allowed one, else the
/// best ranked one.
pub open spec fn next_music(music: Seq<Track>, m: Memory) -> int {
    if first_allowed(music, m, 0) < music.len() {
        first_allowed(music, m, 0)
    } else {
        0
    }
}

/// The next pick.
pub open spec fn pick(music: Seq<Track>, jingles: Seq<Track>, m: Memory, cfg: GenConfig) -> Track {
    match next_jingle(jingles, m, cfg) {
        Some(j) => jingles[j],
        None => music[next_music(music, m)],
    }
}

/// What is remembered after the next pick.
pub open spec fn after_pick(
    music: Seq<Track>,
    jingles: Seq<Track>,
    m: Memory,
    cfg: GenConfig,
) -> Memory {
    match next_jingle(jingles, m, cfg) {
        Some(j) => Memory {
            since_jingle: 0,
            cursor: (j + 1) as nat,
            ..remembered(m, jingles[j], cfg)
        },
        None => Memory {
            since_jingle: m.since_jingle + 1,
            ..remembered(m, music[next_music(music, m)], cfg)
        },
    }
}

/// What is remembered after a number of picks.
pub open spec fn after_picks(
    music: Seq<Track>,
    jingles: Seq<Track>,
    m: Memory,
    cfg: GenConfig,
    n: nat,
) -> Memory
    decreases n,
{
    if n == 0 {
        m
    } else {
        after_pick(music, jingles, after_picks(music, jingles, m, cfg, (n - 1) as nat), cfg)
    }
}

/// A number of picks in a row.
pub open spec fn picks(
    music: Seq<Track>,
    jingles: Seq<Track>,
    m: Memory,
    cfg: GenConfig,
    n: nat,
) -> Seq<Track>
    decreases n,
{
    if n == 0 {
        Seq::empty()
    } else {
        let before = (n - 1) as nat;
        picks(music, jingles, m, cfg, before).push(
            pick(music, jingles, after_picks(music, jingles, m, cfg, before), cfg),
        )
    }
}

/// The next pick from a library, with what is remembered after it; nothing
/// where no music is eligible.
pub open spec fn next_of(tracks: Seq<Track>, m: Memory, cfg: GenConfig) -> Option<(Track, Memory)> {
    let music = pool(tracks, TrackKind::Music, cfg);
    let jingles = pool(tracks, TrackKind::Jingle, cfg);
    if music.len() == 0 {
        None
    } else {
        Some((pick(music, jingles, m, cfg), after_pick(music, jingles, m, cfg)))
    }
}

/// What a look ahead shows.
pub open spec fn forecast(tracks: Seq<Track>, m: Memory, cfg: GenConfig, n: nat) -> Seq<Track> {
    let music = pool(tracks, TrackKind::Music, cfg);
    if music.len() == 0 {
        Seq::empty()
    } else {
        picks(music, pool(tracks, TrackKind::Jingle, cfg), m, cfg, n)
    }
}

/// What comes of asking for the next pick time after time.
pub open spec fn picked_live(tracks: Seq<Track>, m: Memory, cfg: GenConfig, n: nat) -> Seq<Track>
    decreases n,
{
    if n == 0 {
        Seq::empty()
    } else {
        match next_of(tracks, m, cfg) {
            Some((t, after)) => seq![t] + picked_live(tracks, after, cfg, (n - 1) as nat),
            None => Seq::empty(),
        }
    }
}

/// By play count in the direction of the priority, then the longest unplayed
/// first, then by file name.
#[derive(Clone, Copy)]
pub struct ByPlays {
    pub priority: PlaycountPriority,
}

impl ByPlays {
    /// One count comes before another.
    pub open spec fn count_before(self, a: i32, b: i32) -> bool {
        match self.priority {
            PlaycountPriority::LeastPlayed => a < b,
            PlaycountPriority::MostPlayed => b < a,
        }
    }

    /// One last play comes before another; never played comes first.
    pub open spec fn play_before(a: Track, b: Track) -> bool {
        match (a.last_played_at, b.last_played_at) {
            (None, Some(_)) => true,
            (Some(x), Some(y)) => x.earlier(y),
            _ => false,
        }
    }
}

impl Order<Track> for ByPlays {
    open spec fn before(self, a: Track, b: Track) -> bool {
        ||| self.count_before(a.play_count, b.play_count)
        ||| a.play_count == b.play_count && ByPlays::play_before(a, b)
        ||| a.play_count == b.play_count && a.last_played_at == b.last_played_at && text::text_lt(
            a.file_name@,
            b.file_name@,
        )
    }

    proof fn is_weak_order(self, a: Track, b: Track, c: Track) {
        text::text_order_is_total(a.file_name@, b.file_name@);
        text::text_order_is_total(b.file_name@, c.file_name@);
        text::text_order_is_total(a.file_name@, c.file_name@);
        if text::text_lt(a.file_name@, b.file_name@) && text::text_lt(b.file_name@, c.file_name@) {
            text::text_order_is_transitive(a.file_name@, b.file_name@, c.file_name@);
        }
    }

    fn is_ahead(&self, a: &Track, b: &Track) -> (r: bool) {
        let ahead = match self.priority {
            PlaycountPriority::LeastPlayed => a.play_count < b.play_count,
            PlaycountPriority::MostPlayed => b.play_count < a.play_count,
        };
        if ahead {
            return true;
        }
        if a.play_count != b.play_count {
            return false;
        }
        match (a.last_played_at, b.last_played_at) {
            (None, Some(_)) => true,
            (Some(_), None) => false,
            (None, None) => text_before(a.file_name.as_str(), b.file_name.as_str()),
            (Some(x), Some(y)) => {
                if x.is_before(&y) {
                    true
                } else if y.is_before(&x) {
                    false
                } else {
                    text_before(a.file_name.as_str(), b.file_name.as_str())
                }
            },
        }
    }
}

/// The eligible tracks of one kind, ranked.
pub open spec fn pool(tracks: Seq<Track>, kind: TrackKind, cfg: GenConfig) -> Seq<Track> {
    rank::ranked(
        ByPlays { priority: cfg.priority },
        catalog::kind_listing(tracks, kind).filter(|t: Track| track::eligible(t, cfg.hour, cfg.weekday@)),
    )
}

/// Windows carried across picks, with the counters of the jingle slots.
#[derive(Debug)]
pub struct RuleHistory {
    pub artists: VecDeque<String>,
    pub titles: VecDeque<String>,
    pub albums: VecDeque<String>,
    pub genres: VecDeque<String>,
    /// Music picks since the last jingle.
    pub music_since_jingle: usize,
    /// Round-robin cursor into the eligible jingles.
    pub jingle_cursor: usize,
}

/// The texts of a window.
pub open spec fn window_texts(w: VecDeque<String>) -> Seq<Seq<char>> {
    w@.map_values(|s: String| s@)
}

impl View for RuleHistory {
    type V = Memory;

    open spec fn view(&self) -> Memory {
        Memory {
            artists: window_texts(self.artists),
            titles: window_texts(self.titles),
            albums: window_texts(self.albums),
            genres: window_texts(self.genres),
            since_jingle: self.music_since_jingle as nat,
            cursor: self.jingle_cursor as nat,
        }
    }
}

impl Default for RuleHistory {
    fn default() -> (r: Self)
        ensures
            r@ == fresh_memory(),
    {
        let r = RuleHistory {
            artists: VecDeque::new(),
            titles: VecDeque::new(),
            albums: VecDeque::new(),
            genres: VecDeque::new(),
            music_since_jingle: 0,
            jingle_cursor: 0,
        };
        assert(r@ =~= fresh_memory());
        r
    }
}

/// A window once more.
fn copy_window(w: &VecDeque<String>) -> (r: VecDeque<String>)
    ensures
        window_texts(r) == window_texts(*w),
{
    let mut out: VecDeque<String> = VecDeque::new();
    let mut i: usize = 0;
    while i < w.len()
        invariant
            i <= w@.len(),
            out@ == w@.subrange(0, i as int),
        decreases w@.len() - i,
    {
        out.push_back(w[i].clone());
        i = i + 1;
        assert(out@ =~= w@.subrange(0, i as int));
    }
    assert(out@ =~= w@);
    out
}

impl Clone for RuleHistory {
    fn clone(&self) -> (r: Self)
        ensures
            r@ == self@,
    {
        RuleHistory {
            artists: copy_window(&self.artists),
            titles: copy_window(&self.titles),
            albums: copy_window(&self.albums),
            genres: copy_window(&self.genres),
            music_since_jingle: self.music_since_jingle,
            jingle_cursor: self.jingle_cursor,
        }
    }
}

/// Put a key into a window of a given size.
fn push_key(hist: &mut VecDeque<String>, key: String, window: usize)
    ensures
        window_texts(*final(hist)) == window_after(window_texts(*old(hist)), key@, window as nat),
{
    if window == 0 {
        return;
    }
    let ghost all = window_texts(*hist).push(key@);
    hist.push_back(key);
    assert(window_texts(*hist) =~= all);
    let ghost mut gone: int = 0;
    assert(all.skip(0) =~= all);
    while hist.len() > window
        invariant
            window > 0,
            0 <= gone <= all.len(),
            hist@.len() == all.len() - gone,
            gone > 0 ==> hist@.len() >= window,
            window_texts(*hist) == all.skip(gone),
        decreases hist@.len(),
    {
        let ghost was = window_texts(*hist);
        let _oldest = hist.pop_front();
        assert(window_texts(*hist) =~= was.skip(1));
        proof {
            gone = gone + 1;
        }
        assert(window_texts(*hist) =~= all.skip(gone));
    }
}

/// Whether a window blocks a key.
fn within(hist: &VecDeque<String>, key: &str) -> (r: bool)
    ensures
        r == blocks(window_texts(*hist), key@),
{
    if key.is_empty() {
        return false;
    }
    let mut i: usize = 0;
    while i < hist.len()
        invariant
            i <= hist@.len(),
            key@.len() > 0,
            forall|j: int| 0 <= j < i ==> window_texts(*hist)[j] != key@,
        decreases hist@.len() - i,
    {
        if same_text(hist[i].as_str(), key) {
            assert(window_texts(*hist)[i as int] == key@);
            return true;
        }
        i = i + 1;
    }
    false
}

fn text_or_empty(s: &Option<String>) -> (r: String)
    ensures
        r@ == or_empty(*s),
{
    match s {
        Some(t) => t.clone(),
        None => String::new(),
    }
}

fn key_of_title(t: &Track) -> (r: String)
    ensures
        r@ == title_key(*t),
{
    match &t.title {
        Some(x) => x.clone(),
        None => t.file_name.clone(),
    }
}

impl RuleHistory {
    /// Advance the windows for a pick so that later picks keep their distance.
    pub fn push_track(&mut self, t: &Track, cfg: &GenConfig)
        ensures
            final(self)@ == remembered(old(self)@, *t, *cfg),
    {
        push_key(&mut self.artists, text_or_empty(&t.artist), cfg.artist_window);
        push_key(&mut self.titles, key_of_title(t), cfg.title_window);
        push_key(&mut self.albums, text_or_empty(&t.album), cfg.album_window);
        push_key(&mut self.genres, text_or_empty(&t.genre), cfg.genre_gap);
        assert(self@ =~= remembered(old(self)@, *t, *cfg));
    }

    /// Whether a track clears every window.
    pub fn allows(&self, t: &Track) -> (r: bool)
        ensures
            r == allowed(self@, *t),
    {
        !within(&self.artists, text_or_empty(&t.artist).as_str()) && !within(
            &self.titles,
            key_of_title(t).as_str(),
        ) && !within(&self.albums, text_or_empty(&t.album).as_str()) && !within(
            &self.genres,
            text_or_empty(&t.genre).as_str(),
        )
    }

    /// The title that played last.
    fn latest_title(&self) -> (r: String)
        ensures
            r@ == last_title(self@),
    {
        let n: usize = self.titles.len();
        if n == 0 {
            String::new()
        } else {
            assert(last_title(self@) == self.titles@[n - 1]@);
            self.titles[n - 1].clone()
        }
    }
}

/// The index of the jingle tried at a step.
fn jingle_slot(cursor: usize, step: usize, count: usize) -> (i: usize)
    requires
        step < count,
    ensures
        i == slot(cursor as nat, step as int, count as int),
        i < count,
{
    let base: usize = cursor % count;
    proof {
        vstd::arithmetic::div_mod::lemma_add_mod_noop(cursor as int, step as int, count as int);
        vstd::arithmetic::div_mod::lemma_small_mod(step as nat, count as nat);
        assert(slot(cursor as nat, step as int, count as int) == (base + step) % (count as int));
    }
    if step < count - base {
        proof {
            vstd::arithmetic::div_mod::lemma_small_mod((base + step) as nat, count as nat);
        }
        base + step
    } else {
        proof {
            vstd::arithmetic::div_mod::lemma_mod_sub_multiples_vanish(
                (base + step) as int,
                count as int,
            );
            vstd::arithmetic::div_mod::lemma_small_mod((base + step - count) as nat, count as nat);
        }
        step - (count - base)
    }
}

/// The next jingle: round robin from the cursor, skipping one whose title just
/// played; a lone jingle always plays.
fn pick_jingle(jingles: &Vec<Track>, cursor: usize, latest: &str) -> (r: Option<usize>)
    ensures
        match r {
            Some(i) => jingle_step(jingles@, cursor as nat, latest@, 0) is Some && i == slot(
                cursor as nat,
                jingle_step(jingles@, cursor as nat, latest@, 0)->0,
                jingles@.len() as int,
            ) && i < jingles@.len(),
            None => jingle_step(jingles@, cursor as nat, latest@, 0) is None,
        },
{
    let none: bool = latest.unicode_len() == 0;
    let mut step: usize = 0;
    while step < jingles.len()
        invariant
            none == (latest@.len() == 0),
            step <= jingles.len(),
            jingle_step(jingles@, cursor as nat, latest@, 0) == jingle_step(
                jingles@,
                cursor as nat,
                latest@,
                step as int,
            ),
        decreases jingles.len() - step,
    {
        let i: usize = jingle_slot(cursor, step, jingles.len());
        if jingles.len() == 1 || none || !same_text(key_of_title(&jingles[i]).as_str(), latest) {
            return Some(i);
        }
        step = step + 1;
    }
    None
}

/// The eligible tracks of one kind, ranked.
fn gather(library: &Library, kind: TrackKind, cfg: &GenConfig) -> (r: Vec<Track>)
    ensures
        r@ == pool(library.tracks@, kind, *cfg),
{
    let all = match library.list_by_kind(kind) {
        Ok(v) => v,
        Err(_) => Vec::new(),
    };
    let mut test: Vec<bool> = Vec::new();
    let mut i: usize = 0;
    while i < all.len()
        invariant
            i <= all.len(),
            test@.len() == i,
            forall|j: int|
                0 <= j < i ==> #[trigger] test@[j] == track::eligible(all@[j], cfg.hour, cfg.weekday@),
        decreases all.len() - i,
    {
        test.push(all[i].eligible_at(cfg.hour, cfg.weekday.as_str()));
        i = i + 1;
    }
    proof {
        table::choosing_is_filtering(
            all@,
            test@,
            |t: Track| track::eligible(t, cfg.hour, cfg.weekday@),
        );
    }
    rank(ByPlays { priority: cfg.priority }, choose_rows(all, &test))
}

/// Make the next pick from ranked pools.
fn next_pick(
    music: &Vec<Track>,
    jingles: &Vec<Track>,
    cfg: &GenConfig,
    history: &mut RuleHistory,
) -> (t: Track)
    requires
        music@.len() > 0,
        old(history).music_since_jingle < usize::MAX,
    ensures
        t == pick(music@, jingles@, old(history)@, *cfg),
        final(history)@ == after_pick(music@, jingles@, old(history)@, *cfg),
{
    let ghost m = history@;
    if cfg.jingles_every > 0 && history.music_since_jingle >= cfg.jingles_every && jingles.len() > 0 {
        let latest = history.latest_title();
        match pick_jingle(jingles, history.jingle_cursor, latest.as_str()) {
            Some(j) => {
                let t = jingles[j].clone();
                history.push_track(&t, cfg);
                history.music_since_jingle = 0;
                history.jingle_cursor = j + 1;
                assert(history@ =~= after_pick(music@, jingles@, m, *cfg));
                return t;
            },
            None => {},
        }
    }
    let mut k: usize = 0;
    while k < music.len() && !history.allows(&music[k])
        invariant
            k <= music.len(),
            history@ == m,
            first_allowed(music@, m, 0) == first_allowed(music@, m, k as int),
        decreases music.len() - k,
    {
        k = k + 1;
    }
    if k == music.len() {
        k = 0;
    }
    let t = music[k].clone();
    history.push_track(&t, cfg);
    history.music_since_jingle = history.music_since_jingle + 1;
    assert(history@ =~= after_pick(music@, jingles@, m, *cfg));
    t
}

proof fn lemma_since_bound(
    music: Seq<Track>,
    jingles: Seq<Track>,
    m: Memory,
    cfg: GenConfig,
    n: nat,
)
    ensures
        after_picks(music, jingles, m, cfg, n).since_jingle <= m.since_jingle + n,
    decreases n,
{
    if n > 0 {
        lemma_since_bound(music, jingles, m, cfg, (n - 1) as nat);
    }
}

/// Build a rotation. It always has the wanted number of tracks, unless no
/// music is eligible: rules give way, they never block.
pub fn generate(library: &Library, cfg: &GenConfig) -> (r: Result<Vec<Track>, CrabError>)
    ensures
        r matches Ok(v) && v@ == (if pool(library.tracks@, TrackKind::Music, *cfg).len() == 0 {
            Seq::empty()
        } else {
            picks(
                pool(library.tracks@, TrackKind::Music, *cfg),
                pool(library.tracks@, TrackKind::Jingle, *cfg),
                fresh_memory(),
                *cfg,
                cfg.target_tracks as nat,
            )
        }),
{
    let music = gather(library, TrackKind::Music, cfg);
    let jingles = gather(library, TrackKind::Jingle, cfg);
    let mut out: Vec<Track> = Vec::new();
    if music.len() == 0 {
        assert(out@ =~= Seq::empty());
        return Ok(out);
    }
    let mut history = RuleHistory::default();
    let ghost m = fresh_memory();
    while out.len() < cfg.target_tracks
        invariant
            music@.len() > 0,
            m == fresh_memory(),
            out@.len() <= cfg.target_tracks,
            out@ == picks(music@, jingles@, m, *cfg, out@.len()),
            history@ == after_picks(music@, jingles@, m, *cfg, out@.len()),
        decreases cfg.target_tracks - out@.len(),
    {
        proof {
            lemma_since_bound(music@, jingles@, m, *cfg, out@.len());
        }
        let t = next_pick(&music, &jingles, cfg, &mut history);
        out.push(t);
    }
    Ok(out)
}

/// One next pick that honors the history across calls, music and jingle slots
/// alike. Nothing only when no music is eligible; the history then stays.
pub fn generate_next(library: &Library, cfg: &GenConfig, history: &mut RuleHistory) -> (r: Result<
    Option<Track>,
    CrabError,
>)
    requires
        old(history).music_since_jingle < usize::MAX,
    ensures
        match next_of(library.tracks@, old(history)@, *cfg) {
            Some((t, m)) => r == Ok::<Option<Track>, CrabError>(Some(t)) && final(history)@ == m,
            None => r == Ok::<Option<Track>, CrabError>(None) && final(history)@ == old(history)@,
        },
{
    let music = gather(library, TrackKind::Music, cfg);
    if music.len() == 0 {
        return Ok(None);
    }
    let jingles = gather(library, TrackKind::Jingle, cfg);
    Ok(Some(next_pick(&music, &jingles, cfg, history)))
}

/// Forecast the next picks: what successive picks would give, on a copy of
/// the history.
pub fn forecast_up_next(library: &Library, cfg: &GenConfig, history: &RuleHistory, n: usize) -> (r:
    Vec<Track>)
    requires
        history.music_since_jingle + n <= usize::MAX,
    ensures
        r@ == forecast(library.tracks@, history@, *cfg, n as nat),
{
    let music = gather(library, TrackKind::Music, cfg);
    let jingles = gather(library, TrackKind::Jingle, cfg);
    let mut out: Vec<Track> = Vec::new();
    if music.len() == 0 {
        assert(out@ =~= Seq::empty());
        return out;
    }
    let mut hist = history.clone();
    while out.len() < n
        invariant
            music@.len() > 0,
            out@.len() <= n,
            history.music_since_jingle + n <= usize::MAX,
            out@ == picks(music@, jingles@, history@, *cfg, out@.len()),
            hist@ == after_picks(music@, jingles@, history@, *cfg, out@.len()),
        decreases n - out@.len(),
    {
        proof {
            lemma_since_bound(music@, jingles@, history@, *cfg, out@.len());
        }
        let t = next_pick(&music, &jingles, cfg, &mut hist);
        out.push(t);
    }
    out
}

/// A rotation has exactly the wanted number of tracks.
pub proof fn rotations_are_full(
    music: Seq<Track>,
    jingles: Seq<Track>,
    m: Memory,
    cfg: GenConfig,
    n: nat,
)
    ensures
        picks(music, jingles, m, cfg, n).len() == n,
    decreases n,
{
    if n > 0 {
        rotations_are_full(music, jingles, m, cfg, (n - 1) as nat);
    }
}

/// Batch rotation and one-at-a-time picking agree: a rotation is its first
/// part followed by the picks made from what is remembered of that part.
pub proof fn batch_and_live_agree(
    music: Seq<Track>,
    jingles: Seq<Track>,
    m: Memory,
    cfg: GenConfig,
    a: nat,
    b: nat,
)
    ensures
        picks(music, jingles, m, cfg, a + b) == picks(music, jingles, m, cfg, a) + picks(
            music,
            jingles,
            after_picks(music, jingles, m, cfg, a),
            cfg,
            b,
        ),
        after_picks(music, jingles, m, cfg, a + b) == after_picks(
            music,
            jingles,
            after_picks(music, jingles, m, cfg, a),
            cfg,
            b,
        ),
    decreases b,
{
    if b == 0 {
        assert(picks(music, jingles, m, cfg, a) + Seq::<Track>::empty() =~= picks(
            music,
            jingles,
            m,
            cfg,
            a,
        ));
    } else {
        let c = (b - 1) as nat;
        batch_and_live_agree(music, jingles, m, cfg, a, c);
        let mid = after_picks(music, jingles, m, cfg, a);
        assert((a + b - 1) as nat == a + c);
        assert(picks(music, jingles, m, cfg, a + b) =~= picks(music, jingles, m, cfg, a) + picks(
            music,
            jingles,
            mid,
            cfg,
            b,
        ));
    }
}

proof fn lemma_first_allowed(music: Seq<Track>, m: Memory, i: int)
    requires
        0 <= i <= music.len(),
    ensures
        i <= first_allowed(music, m, i) <= music.len(),
        first_allowed(music, m, i) < music.len() ==> allowed(
            m,
            music[first_allowed(music, m, i)],
        ),
        forall|k: int| i <= k < music.len() && allowed(m, #[trigger] music[k]) ==> first_allowed(
            music,
            m,
            i,
        ) <= k,
    decreases music.len() - i,
{
    if i < music.len() && !allowed(m, music[i]) {
        lemma_first_allowed(music, m, i + 1);
    }
}

/// A look ahead shows what asking for the next pick time after time gives, as
/// long as the library stays as it is.
pub proof fn forecasts_come_true(tracks: Seq<Track>, m: Memory, cfg: GenConfig, n: nat)
    ensures
        forecast(tracks, m, cfg, n) == picked_live(tracks, m, cfg, n),
    decreases n,
{
    let music = pool(tracks, TrackKind::Music, cfg);
    let jingles = pool(tracks, TrackKind::Jingle, cfg);
    if n > 0 && music.len() > 0 {
        let before = (n - 1) as nat;
        let after = after_pick(music, jingles, m, cfg);
        assert(after_picks(music, jingles, m, cfg, 0) == m);
        assert(after_picks(music, jingles, m, cfg, 1) == after);
        assert(picks(music, jingles, m, cfg, 0) =~= Seq::<Track>::empty());
        assert(picks(music, jingles, m, cfg, 1) =~= seq![pick(music, jingles, m, cfg)]);
        batch_and_live_agree(music, jingles, m, cfg, 1, before);
        forecasts_come_true(tracks, after, cfg, before);
        assert(1 + before == n);
    }
}

/// Rules bite whenever they can: if some track clears every window, so does
/// the music pick, and no allowed track is ranked ahead of it.
pub proof fn rules_give_way_only_when_they_must(music: Seq<Track>, m: Memory)
    requires
        music.len() > 0,
    ensures
        0 <= next_music(music, m) < music.len(),
        forall|k: int|
            0 <= k < music.len() && allowed(m, #[trigger] music[k]) ==> allowed(
                m,
                music[next_music(music, m)],
            ) && next_music(music, m) <= k,
{
    lemma_first_allowed(music, m, 0);
}

/// A window after a run of keys.
pub open spec fn window_after_all(keys: Seq<Seq<char>>, window: nat) -> Seq<Seq<char>>
    decreases keys.len(),
{
    if keys.len() == 0 {
        Seq::empty()
    } else {
        window_after(window_after_all(keys.drop_last(), window), keys.last(), window)
    }
}

/// A window holds exactly the latest keys, as many as its size allows.
pub proof fn windows_hold_the_latest(keys: Seq<Seq<char>>, window: nat)
    ensures
        window_after_all(keys, window) == keys.skip(
            if keys.len() > window {
                keys.len() - window
            } else {
                0
            },
        ),
    decreases keys.len(),
{
    if keys.len() > 0 {
        let front = keys.drop_last();
        windows_hold_the_latest(front, window);
        let start = if keys.len() > window {
            keys.len() - window
        } else {
            0
        };
        assert(window_after_all(keys, window) =~= keys.skip(start));
    } else {
        assert(window_after_all(keys, window) =~= keys.skip(0));
    }
}

/// A pick moves the windows on, and blocks itself while the window lasts: a
/// track just picked is not allowed again where any window of its is open.
pub proof fn a_pick_blocks_itself(m: Memory, t: Track, cfg: GenConfig)
    ensures
        cfg.title_window > 0 && title_key(t).len() > 0 ==> !allowed(remembered(m, t, cfg), t),
        cfg.artist_window > 0 && or_empty(t.artist).len() > 0 ==> !allowed(
            remembered(m, t, cfg),
            t,
        ),
{
    if cfg.title_window > 0 {
        let w = window_after(m.titles, title_key(t), cfg.title_window as nat);
        assert(w.last() == title_key(t));
        assert(w[w.len() - 1] == title_key(t));
    }
    if cfg.artist_window > 0 {
        let w = window_after(m.artists, or_empty(t.artist), cfg.artist_window as nat);
        assert(w[w.len() - 1] == or_empty(t.artist));
    }
}

/// Jingles keep their cadence: with jingles switched on, one is due exactly
/// after the set number of music picks in a row, and a lone jingle then plays.
pub proof fn jingles_keep_their_cadence(jingles: Seq<Track>, m: Memory, cfg: GenConfig)
    requires
        jingles.len() == 1,
        cfg.jingles_every > 0,
    ensures
        next_jingle(jingles, m, cfg) is Some <==> m.since_jingle >= cfg.jingles_every,
        next_jingle(jingles, m, cfg) is Some ==> next_jingle(jingles, m, cfg)->0 == 0,
{
    assert(jingle_fits(jingles, slot(m.cursor, 0, 1), last_title(m)));
    assert((m.cursor + 0) % 1 == 0);
}

/// Two tracks carry the same artist, title, album or genre, and stand closer
/// than the rules want; a missing or empty one is never the same.
pub open spec fn too_close(a: Track, b: Track, distance: int, cfg: GenConfig) -> bool {
    ||| distance <= cfg.artist_window && a.artist is Some && b.artist is Some && b.artist->0@.len()
        > 0 && a.artist->0@ == b.artist->0@
    ||| distance <= cfg.album_window && a.album is Some && b.album is Some && b.album->0@.len() > 0
        && a.album->0@ == b.album->0@
    ||| distance <= cfg.genre_gap && a.genre is Some && b.genre is Some && b.genre->0@.len() > 0
        && a.genre->0@ == b.genre->0@
    ||| distance <= cfg.title_window && shown_title(b).len() > 0 && shown_title(a) == shown_title(b)
}

/// The title of a track, or its file name where it has none.
pub open spec fn shown_title(t: Track) -> Seq<char> {
    match t.title {
        Some(s) => s@,
        None => t.file_name@,
    }
}

/// A track that shares its artist, title, album or genre with the one just
/// picked is kept back, for each of them whose window is open.
pub proof fn neighbours_are_kept_apart(m: Memory, t: Track, u: Track, cfg: GenConfig)
    ensures
        cfg.artist_window > 0 && t.artist is Some && u.artist is Some && u.artist->0@.len() > 0
            && t.artist->0@ == u.artist->0@ ==> !allowed(remembered(m, t, cfg), u),
        cfg.album_window > 0 && t.album is Some && u.album is Some && u.album->0@.len() > 0
            && t.album->0@ == u.album->0@ ==> !allowed(remembered(m, t, cfg), u),
        cfg.genre_gap > 0 && t.genre is Some && u.genre is Some && u.genre->0@.len() > 0
            && t.genre->0@ == u.genre->0@ ==> !allowed(remembered(m, t, cfg), u),
        cfg.title_window > 0 && t.title is Some && u.title is Some && u.title->0@.len() > 0
            && t.title->0@ == u.title->0@ ==> !allowed(remembered(m, t, cfg), u),
        cfg.title_window > 0 && t.title is None && u.title is None && u.file_name@.len() > 0
            && t.file_name@ == u.file_name@ ==> !allowed(remembered(m, t, cfg), u),
{
    let after = remembered(m, t, cfg);
    if cfg.artist_window > 0 {
        assert(after.artists[after.artists.len() - 1] == or_empty(t.artist));
    }
    if cfg.album_window > 0 {
        assert(after.albums[after.albums.len() - 1] == or_empty(t.album));
    }
    if cfg.genre_gap > 0 {
        assert(after.genres[after.genres.len() - 1] == or_empty(t.genre));
    }
    if cfg.title_window > 0 {
        assert(after.titles[after.titles.len() - 1] == title_key(t));
    }
}

/// The picks of a rotation that starts with nothing remembered.
pub open spec fn rotation(music: Seq<Track>, jingles: Seq<Track>, cfg: GenConfig, n: nat) -> Seq<Track> {
    picks(music, jingles, fresh_memory(), cfg, n)
}

proof fn lemma_pick_stays(
    music: Seq<Track>,
    jingles: Seq<Track>,
    m: Memory,
    cfg: GenConfig,
    n: nat,
    i: nat,
)
    requires
        i < n,
    ensures
        picks(music, jingles, m, cfg, n).len() == n,
        picks(music, jingles, m, cfg, n)[i as int] == pick(
            music,
            jingles,
            after_picks(music, jingles, m, cfg, i),
            cfg,
        ),
        picks(music, jingles, m, cfg, n).take(i as int) == picks(music, jingles, m, cfg, i),
    decreases n,
{
    rotations_are_full(music, jingles, m, cfg, n);
    rotations_are_full(music, jingles, m, cfg, (n - 1) as nat);
    rotations_are_full(music, jingles, m, cfg, i);
    if i < n - 1 {
        lemma_pick_stays(music, jingles, m, cfg, (n - 1) as nat, i);
    }
    assert(picks(music, jingles, m, cfg, n).take(i as int) =~= picks(music, jingles, m, cfg, i));
}

proof fn lemma_memory(music: Seq<Track>, jingles: Seq<Track>, cfg: GenConfig, n: nat)
    ensures
        ({
            let p = rotation(music, jingles, cfg, n);
            let m = after_picks(music, jingles, fresh_memory(), cfg, n);
            &&& p.len() == n
            &&& m.artists == window_after_all(
                p.map_values(|t: Track| or_empty(t.artist)),
                cfg.artist_window as nat,
            )
            &&& m.titles == window_after_all(
                p.map_values(|t: Track| title_key(t)),
                cfg.title_window as nat,
            )
            &&& m.albums == window_after_all(
                p.map_values(|t: Track| or_empty(t.album)),
                cfg.album_window as nat,
            )
            &&& m.genres == window_after_all(
                p.map_values(|t: Track| or_empty(t.genre)),
                cfg.genre_gap as nat,
            )
        }),
    decreases n,
{
    if n > 0 {
        let before = (n - 1) as nat;
        lemma_memory(music, jingles, cfg, before);
        let p = rotation(music, jingles, cfg, before);
        let m = after_picks(music, jingles, fresh_memory(), cfg, before);
        let t = pick(music, jingles, m, cfg);
        let all = rotation(music, jingles, cfg, n);
        assert(all == p.push(t));
        let fa = |t: Track| or_empty(t.artist);
        let ft = |t: Track| title_key(t);
        let fl = |t: Track| or_empty(t.album);
        let fg = |t: Track| or_empty(t.genre);
        assert(all.map_values(fa).drop_last() =~= p.map_values(fa));
        assert(all.map_values(ft).drop_last() =~= p.map_values(ft));
        assert(all.map_values(fl).drop_last() =~= p.map_values(fl));
        assert(all.map_values(fg).drop_last() =~= p.map_values(fg));
    }
}

proof fn lemma_window_blocks(keys: Seq<Seq<char>>, window: nat, key: Seq<char>)
    ensures
        blocks(window_after_all(keys, window), key) <==> key.len() > 0 && exists|q: int|
            0 <= q < keys.len() && keys.len() - q <= window && #[trigger] keys[q] == key,
{
    windows_hold_the_latest(keys, window);
    let start = if keys.len() > window {
        keys.len() - window
    } else {
        0
    };
    let w = window_after_all(keys, window);
    if w.contains(key) {
        let k = choose|k: int| 0 <= k < w.len() && w[k] == key;
        assert(keys[start + k] == key);
    }
    if exists|q: int| 0 <= q < keys.len() && keys.len() - q <= window && #[trigger] keys[q] == key {
        let q = choose|q: int|
            0 <= q < keys.len() && keys.len() - q <= window && #[trigger] keys[q] == key;
        assert(w[q - start] == key);
    }
}

proof fn lemma_allowed(music: Seq<Track>, jingles: Seq<Track>, cfg: GenConfig, n: nat, t: Track)
    ensures
        allowed(after_picks(music, jingles, fresh_memory(), cfg, n), t) <==> !(exists|q: int|
            0 <= q < n && too_close(#[trigger] rotation(music, jingles, cfg, n)[q], t, n - q, cfg)),
{
    let p = rotation(music, jingles, cfg, n);
    let m = after_picks(music, jingles, fresh_memory(), cfg, n);
    lemma_memory(music, jingles, cfg, n);
    let ka = p.map_values(|t: Track| or_empty(t.artist));
    let kt = p.map_values(|t: Track| title_key(t));
    let kl = p.map_values(|t: Track| or_empty(t.album));
    let kg = p.map_values(|t: Track| or_empty(t.genre));
    lemma_window_blocks(ka, cfg.artist_window as nat, or_empty(t.artist));
    lemma_window_blocks(kt, cfg.title_window as nat, title_key(t));
    lemma_window_blocks(kl, cfg.album_window as nat, or_empty(t.album));
    lemma_window_blocks(kg, cfg.genre_gap as nat, or_empty(t.genre));
    if exists|q: int| 0 <= q < n && too_close(#[trigger] p[q], t, n - q, cfg) {
        let q = choose|q: int| 0 <= q < n && too_close(#[trigger] p[q], t, n - q, cfg);
        assert(ka[q] == or_empty(p[q].artist));
        assert(kt[q] == title_key(p[q]));
        assert(kl[q] == or_empty(p[q].album));
        assert(kg[q] == or_empty(p[q].genre));
    }
    if !allowed(m, t) {
        if blocks(m.artists, or_empty(t.artist)) {
            let q = choose|q: int|
                0 <= q < ka.len() && ka.len() - q <= cfg.artist_window && #[trigger] ka[q] == or_empty(
                    t.artist,
                );
            assert(too_close(p[q], t, n - q, cfg));
        } else if blocks(m.titles, title_key(t)) {
            let q = choose|q: int|
                0 <= q < kt.len() && kt.len() - q <= cfg.title_window && #[trigger] kt[q] == title_key(
                    t,
                );
            assert(too_close(p[q], t, n - q, cfg));
        } else if blocks(m.albums, or_empty(t.album)) {
            let q = choose|q: int|
                0 <= q < kl.len() && kl.len() - q <= cfg.album_window && #[trigger] kl[q] == or_empty(
                    t.album,
                );
            assert(too_close(p[q], t, n - q, cfg));
        } else {
            let q = choose|q: int|
                0 <= q < kg.len() && kg.len() - q <= cfg.genre_gap && #[trigger] kg[q] == or_empty(
                    t.genre,
                );
            assert(too_close(p[q], t, n - q, cfg));
        }
    }
}

/// Some earlier pick of a rotation stands too close for a track to follow.
pub open spec fn held_back(p: Seq<Track>, i: int, t: Track, cfg: GenConfig) -> bool {
    exists|q: int| 0 <= q < i && too_close(#[trigger] p[q], t, i - q, cfg)
}

/// Every music pick of a rotation is the best ranked track that no earlier pick
/// holds back. Only where each of them is held back do the rules give way, to
/// the best ranked of all. So two picks stand too close only where nothing else
/// could play.
pub proof fn rotations_keep_their_distances(
    music: Seq<Track>,
    jingles: Seq<Track>,
    cfg: GenConfig,
    n: nat,
    i: nat,
)
    requires
        music.len() > 0,
        i < n,
        forall|k: int| 0 <= k < music.len() ==> (#[trigger] music[k]).kind == TrackKind::Music,
        forall|k: int| 0 <= k < jingles.len() ==> (#[trigger] jingles[k]).kind == TrackKind::Jingle,
        rotation(music, jingles, cfg, n)[i as int].kind == TrackKind::Music,
    ensures
        ({
            let p = rotation(music, jingles, cfg, n);
            ||| exists|k: int|
                0 <= k < music.len() && p[i as int] == #[trigger] music[k] && !held_back(
                    p,
                    i as int,
                    music[k],
                    cfg,
                ) && forall|j: int| 0 <= j < k ==> held_back(p, i as int, #[trigger] music[j], cfg)
            ||| p[i as int] == music[0] && forall|j: int|
                0 <= j < music.len() ==> held_back(p, i as int, #[trigger] music[j], cfg)
        }),
{
    let p = rotation(music, jingles, cfg, n);
    let m = after_picks(music, jingles, fresh_memory(), cfg, i);
    lemma_pick_stays(music, jingles, fresh_memory(), cfg, n, i);
    let head = rotation(music, jingles, cfg, i);
    assert forall|t: Track| #[trigger] allowed(m, t) == !held_back(p, i as int, t, cfg) by {
        lemma_allowed(music, jingles, cfg, i, t);
        if held_back(p, i as int, t, cfg) {
            let q = choose|q: int| 0 <= q < i && too_close(#[trigger] p[q], t, i - q, cfg);
            assert(head[q] == p[q]);
        }
        if exists|q: int| 0 <= q < i && too_close(#[trigger] head[q], t, i - q, cfg) {
            let q = choose|q: int| 0 <= q < i && too_close(#[trigger] head[q], t, i - q, cfg);
            assert(head[q] == p[q]);
            assert(too_close(p[q], t, i - q, cfg));
        }
    }
    match next_jingle(jingles, m, cfg) {
        Some(j) => {
            lemma_jingle(jingles, m, cfg);
            assert(jingles[j].kind == TrackKind::Jingle);
        },
        None => {},
    }
    lemma_first_allowed(music, m, 0);
    let k = first_allowed(music, m, 0);
    if k < music.len() {
        assert(allowed(m, music[k]));
        assert forall|j: int| 0 <= j < k implies held_back(p, i as int, #[trigger] music[j], cfg) by {
            assert(!allowed(m, music[j]));
        }
        assert(p[i as int] == music[k]);
    } else {
        assert forall|j: int| 0 <= j < music.len() implies held_back(
            p,
            i as int,
            #[trigger] music[j],
            cfg,
        ) by {
            assert(!allowed(m, music[j]));
        }
    }
}

proof fn lemma_jingle_step(
    jingles: Seq<Track>,
    cursor: nat,
    last: Seq<char>,
    step: int,
)
    requires
        0 <= step,
    ensures
        jingle_step(jingles, cursor, last, step) matches Some(s) ==> step <= s < jingles.len()
            && jingle_fits(jingles, slot(cursor, s, jingles.len() as int), last),
        jingle_step(jingles, cursor, last, step) is None ==> forall|s: int|
            step <= s < jingles.len() ==> !jingle_fits(
                jingles,
                #[trigger] slot(cursor, s, jingles.len() as int),
                last,
            ),
        jingle_step(jingles, cursor, last, step) matches Some(s) ==> forall|r: int|
            step <= r < s ==> !jingle_fits(
                jingles,
                #[trigger] slot(cursor, r, jingles.len() as int),
                last,
            ),
    decreases jingles.len() - step,
{
    if step < jingles.len() && !jingle_fits(
        jingles,
        slot(cursor, step, jingles.len() as int),
        last,
    ) {
        lemma_jingle_step(jingles, cursor, last, step + 1);
    }
}

proof fn lemma_jingle(jingles: Seq<Track>, m: Memory, cfg: GenConfig)
    ensures
        next_jingle(jingles, m, cfg) matches Some(j) ==> 0 <= j < jingles.len() && jingle_fits(
            jingles,
            j,
            last_title(m),
        ),
{
    lemma_jingle_step(jingles, m.cursor, last_title(m), 0);
}

/// Without jingles, or with jingles switched off, a rotation is music alone.
pub proof fn jingles_can_be_switched_off(
    music: Seq<Track>,
    jingles: Seq<Track>,
    cfg: GenConfig,
    n: nat,
    i: nat,
)
    requires
        music.len() > 0,
        i < n,
        jingles.len() == 0 || cfg.jingles_every == 0,
    ensures
        music.contains(rotation(music, jingles, cfg, n)[i as int]),
{
    lemma_pick_stays(music, jingles, fresh_memory(), cfg, n, i);
    let m = after_picks(music, jingles, fresh_memory(), cfg, i);
    lemma_first_allowed(music, m, 0);
    assert(music[next_music(music, m)] == rotation(music, jingles, cfg, n)[i as int]);
}

/// The place where the search for the jingle of a round starts.
spec fn turn(round: nat, count: int) -> nat {
    if round == 0 {
        0
    } else {
        ((round - 1) % count + 1) as nat
    }
}

proof fn lemma_round(
    music: Seq<Track>,
    jingles: Seq<Track>,
    cfg: GenConfig,
    round: nat,
    step: nat,
)
    requires
        music.len() > 0,
        jingles.len() > 0,
        cfg.jingles_every > 0,
        step <= cfg.jingles_every,
        forall|a: int, b: int|
            0 <= a < music.len() && 0 <= b < jingles.len() ==> shown_title(#[trigger] music[a])
                != shown_title(#[trigger] jingles[b]),
    ensures
        ({
            let i = (round * (cfg.jingles_every + 1) + step) as nat;
            let m = after_picks(music, jingles, fresh_memory(), cfg, i);
            &&& m.since_jingle == step
            &&& m.cursor == turn(round, jingles.len() as int)
            &&& step > 0 ==> last_title(m).len() == 0 || exists|k: int|
                0 <= k < music.len() && last_title(m) == shown_title(#[trigger] music[k])
        }),
    decreases round, step,
{
    let every = cfg.jingles_every as nat;
    let i = (round * (every + 1) + step) as nat;
    assert(round * (every + 1) >= 0) by (nonlinear_arith)
        requires
            round >= 0,
            every >= 0,
    ;
    if step > 0 {
        let before = (step - 1) as nat;
        lemma_round(music, jingles, cfg, round, before);
        let j = (round * (every + 1) + before) as nat;
        assert(i == j + 1);
        let m = after_picks(music, jingles, fresh_memory(), cfg, j);
        assert(next_jingle(jingles, m, cfg) is None);
        lemma_first_allowed(music, m, 0);
        let k = next_music(music, m);
        let after = after_picks(music, jingles, fresh_memory(), cfg, i);
        assert(after == after_pick(music, jingles, m, cfg));
        if cfg.title_window > 0 {
            assert(last_title(after) == shown_title(music[k]));
        } else {
            lemma_memory(music, jingles, cfg, i);
            windows_hold_the_latest(
                rotation(music, jingles, cfg, i).map_values(|t: Track| title_key(t)),
                0,
            );
            assert(after.titles.len() == 0);
        }
    } else if round > 0 {
        let last = (round - 1) as nat;
        lemma_round(music, jingles, cfg, last, every);
        let j = (last * (every + 1) + every) as nat;
        assert(last * (every + 1) + every + 1 == round * (every + 1)) by (nonlinear_arith)
            requires
                last == round - 1,
        ;
        assert(i == j + 1);
        lemma_turn(music, jingles, cfg, last);
    } else {
        assert(i == 0) by {
            assert(0 * (every + 1) == 0);
        }
    }
}

proof fn lemma_turn(music: Seq<Track>, jingles: Seq<Track>, cfg: GenConfig, round: nat)
    requires
        music.len() > 0,
        jingles.len() > 0,
        cfg.jingles_every > 0,
        forall|a: int, b: int|
            0 <= a < music.len() && 0 <= b < jingles.len() ==> shown_title(#[trigger] music[a])
                != shown_title(#[trigger] jingles[b]),
    ensures
        next_jingle(
            jingles,
            after_picks(
                music,
                jingles,
                fresh_memory(),
                cfg,
                (round * (cfg.jingles_every + 1) + cfg.jingles_every) as nat,
            ),
            cfg,
        ) == Some(round as int % jingles.len() as int),
    decreases round, cfg.jingles_every + 1,
{
    let every = cfg.jingles_every as nat;
    let count = jingles.len() as int;
    lemma_round(music, jingles, cfg, round, every);
    let m = after_picks(
        music,
        jingles,
        fresh_memory(),
        cfg,
        (round * (every + 1) + every) as nat,
    );
    let first = slot(m.cursor, 0, count);
    assert(0 <= first < count);
    assert(jingle_fits(jingles, first, last_title(m))) by {
        if last_title(m).len() > 0 {
            let k = choose|k: int|
                0 <= k < music.len() && last_title(m) == shown_title(#[trigger] music[k]);
            assert(shown_title(music[k]) != shown_title(jingles[first]));
        }
    }
    assert(first == round as int % count) by {
        if round > 0 {
            vstd::arithmetic::div_mod::lemma_add_mod_noop((round - 1) as int, 1, count);
            vstd::arithmetic::div_mod::lemma_add_mod_noop((round - 1) % count, 1, count);
            vstd::arithmetic::div_mod::lemma_mod_twice((round - 1) as int, count);
        }
    }
}

/// Jingles keep their cadence and take turns: with jingles switched on, each
/// round is the set number of music picks and then one jingle, and the jingles
/// come one after the other, from the first again after the last. This holds
/// where no music carries the title of a jingle.
pub proof fn jingles_take_turns(
    music: Seq<Track>,
    jingles: Seq<Track>,
    cfg: GenConfig,
    n: nat,
    round: nat,
    step: nat,
)
    requires
        music.len() > 0,
        jingles.len() > 0,
        cfg.jingles_every > 0,
        step <= cfg.jingles_every,
        round * (cfg.jingles_every + 1) + step < n,
        forall|a: int, b: int|
            0 <= a < music.len() && 0 <= b < jingles.len() ==> shown_title(#[trigger] music[a])
                != shown_title(#[trigger] jingles[b]),
    ensures
        ({
            let t = rotation(music, jingles, cfg, n)[round * (cfg.jingles_every + 1) + step];
            if step < cfg.jingles_every {
                music.contains(t)
            } else {
                t == jingles[round as int % jingles.len() as int]
            }
        }),
{
    assert(round * (cfg.jingles_every + 1) >= 0) by (nonlinear_arith)
        requires
            round >= 0,
            cfg.jingles_every >= 0,
    ;
    let i = (round * (cfg.jingles_every + 1) + step) as nat;
    let m = after_picks(music, jingles, fresh_memory(), cfg, i);
    lemma_pick_stays(music, jingles, fresh_memory(), cfg, n, i);
    lemma_round(music, jingles, cfg, round, step);
    if step < cfg.jingles_every {
        lemma_first_allowed(music, m, 0);
        assert(music[next_music(music, m)] == rotation(music, jingles, cfg, n)[i as int]);
    } else {
        lemma_turn(music, jingles, cfg, round);
    }
}

/// With more than one jingle, none follows a pick of its own title.
pub proof fn jingles_do_not_repeat_the_last_title(
    music: Seq<Track>,
    jingles: Seq<Track>,
    m: Memory,
    t: Track,
    cfg: GenConfig,
)
    requires
        jingles.len() > 1,
        cfg.title_window > 0,
        shown_title(t).len() > 0,
    ensures
        next_jingle(jingles, remembered(m, t, cfg), cfg) matches Some(j) ==> 0 <= j < jingles.len()
            && shown_title(jingles[j]) != shown_title(t),
{
    let after = remembered(m, t, cfg);
    lemma_jingle(jingles, after, cfg);
    assert(last_title(after) == shown_title(t));
}

/// A pool holds exactly the tracks of the library that are of its kind and may
/// play at the hour and on the weekday.
pub proof fn pools_hold_what_may_play(tracks: Seq<Track>, kind: TrackKind, cfg: GenConfig, t: Track)
    ensures
        pool(tracks, kind, cfg).contains(t) <==> tracks.contains(t) && t.kind == kind
            && days::day_listed(t.daypart_days@, cfg.weekday@) && (t.daypart_start is None
            || t.daypart_end is None || (if t.daypart_start->0 <= t.daypart_end->0 {
            t.daypart_start->0 <= cfg.hour < t.daypart_end->0
        } else {
            cfg.hour >= t.daypart_start->0 || cfg.hour < t.daypart_end->0
        })),
{
    let of_kind = |u: Track| u.kind == kind;
    let fits = |u: Track| track::eligible(u, cfg.hour, cfg.weekday@);
    let listing = catalog::kind_listing(tracks, kind);
    rank::ranking_keeps_members(ByPlays { priority: cfg.priority }, listing.filter(fits), t);
    rank::ranking_keeps_members(track::ByFileName, tracks.filter(of_kind), t);
    lemma_filter_members(listing, fits, t);
    lemma_filter_members(tracks, of_kind, t);
}

proof fn lemma_filter_members(s: Seq<Track>, p: spec_fn(Track) -> bool, t: Track)
    ensures
        s.filter(p).contains(t) <==> s.contains(t) && p(t),
{
    if s.filter(p).contains(t) {
        s.lemma_filter_contains_rev(p, t);
        let i = choose|i: int| 0 <= i < s.filter(p).len() && s.filter(p)[i] == t;
        s.lemma_filter_pred(p, i);
    }
    if s.contains(t) && p(t) {
        let i = choose|i: int| 0 <= i < s.len() && s[i] == t;
        s.lemma_filter_contains(p, i);
    }
}

/// A pool is ranked by play counts in the wanted direction; of equal counts
/// those never played come first and then the longest unplayed, and what is
/// still equal goes by file name.
pub proof fn pools_are_ranked(tracks: Seq<Track>, kind: TrackKind, cfg: GenConfig, i: int, j: int)
    requires
        0 <= i < j < pool(tracks, kind, cfg).len(),
    ensures
        ({
            let a = pool(tracks, kind, cfg)[i];
            let b = pool(tracks, kind, cfg)[j];
            &&& cfg.priority == PlaycountPriority::LeastPlayed ==> a.play_count <= b.play_count
            &&& cfg.priority == PlaycountPriority::MostPlayed ==> a.play_count >= b.play_count
            &&& a.play_count == b.play_count && a.last_played_at is Some ==> b.last_played_at is Some
                && (a.last_played_at->0.secs < b.last_played_at->0.secs || (
            a.last_played_at->0.secs == b.last_played_at->0.secs && a.last_played_at->0.nanos
                <= b.last_played_at->0.nanos))
            &&& a.play_count == b.play_count && a.last_played_at == b.last_played_at ==> !text::text_lt(
                b.file_name@,
                a.file_name@,
            )
        }),
{
    let fits = |u: Track| track::eligible(u, cfg.hour, cfg.weekday@);
    let o = ByPlays { priority: cfg.priority };
    rank::ranking_orders(o, catalog::kind_listing(tracks, kind).filter(fits));
    assert(!o.before(pool(tracks, kind, cfg)[j], pool(tracks, kind, cfg)[i]));
}

proof fn lemma_steps(jingles: Seq<Track>, cursor: nat, last: Seq<char>, step: int)
    requires
        0 <= step,
    ensures
        jingle_step(jingles, cursor, last, step) matches Some(k) ==> step <= k < jingles.len()
            && jingle_fits(jingles, slot(cursor, k, jingles.len() as int), last) && forall|j: int|
            step <= j < k ==> !jingle_fits(jingles, #[trigger] slot(cursor, j, jingles.len() as int), last),
        jingle_step(jingles, cursor, last, step) is None ==> forall|j: int|
            step <= j < jingles.len() ==> !jingle_fits(
                jingles,
                #[trigger] slot(cursor, j, jingles.len() as int),
                last,
            ),
    decreases jingles.len() - step,
{
    if step < jingles.len() && !jingle_fits(
        jingles,
        slot(cursor, step, jingles.len() as int),
        last,
    ) {
        lemma_steps(jingles, cursor, last, step + 1);
    }
}

/// A jingle that is due is the next in turn, unless it is passed over: for
/// nothing but its title, which is the one that was just played, and never
/// where it is the only one. Where all of them have that title, music plays on.
pub proof fn jingles_are_passed_over_for_their_title(jingles: Seq<Track>, m: Memory, cfg: GenConfig, k: int)
    requires
        jingles.len() > 0,
        cfg.jingles_every > 0,
        m.since_jingle >= cfg.jingles_every,
        0 <= k < jingles.len(),
        forall|j: int|
            0 <= j < k ==> shown_title(#[trigger] jingles[(m.cursor + j) % jingles.len() as int])
                == last_title(m),
        k > 0 ==> jingles.len() > 1 && last_title(m).len() > 0,
    ensures
        shown_title(jingles[(m.cursor + k) % jingles.len() as int]) != last_title(m) || jingles.len() == 1
            || last_title(m).len() == 0 ==> next_jingle(jingles, m, cfg) == Some(
            (m.cursor + k) % jingles.len() as int,
        ),
        shown_title(jingles[(m.cursor + k) % jingles.len() as int]) == last_title(m) && jingles.len() > 1
            && last_title(m).len() > 0 && k == jingles.len() - 1 ==> next_jingle(jingles, m, cfg) is None,
{
    let n = jingles.len() as int;
    let last = last_title(m);
    lemma_steps(jingles, m.cursor, last, 0);
    assert forall|j: int| 0 <= j < k implies !jingle_fits(jingles, #[trigger] slot(m.cursor, j, n), last) by {
        assert(slot(m.cursor, j, n) == (m.cursor + j) % n);
        assert(shown_title(jingles[(m.cursor + j) % n]) == last);
    }
    assert(slot(m.cursor, k, n) == (m.cursor + k) % n);
    let s = jingle_step(jingles, m.cursor, last, 0);
    if jingle_fits(jingles, slot(m.cursor, k, n), last) {
        assert(s is Some);
        let got = s->0;
        assert(!(got < k)) by {
            if got < k {
                assert(!jingle_fits(jingles, slot(m.cursor, got, n), last));
            }
        }
        assert(!(got > k));
    } else if k == n - 1 {
        if s is Some {
            let got = s->0;
            if got < k {
                assert(!jingle_fits(jingles, slot(m.cursor, got, n), last));
            }
        }
    }
}

/// What is picked live is music or a jingle of the library that may play at
/// that hour and on that day, and something is picked exactly where some music
/// may play.
pub proof fn live_picks_may_play(tracks: Seq<Track>, m: Memory, cfg: GenConfig, t: Track)
    ensures
        next_of(tracks, m, cfg) matches Some((u, after)) ==> tracks.contains(u) && (u.kind
            == TrackKind::Music || (u.kind == TrackKind::Jingle && cfg.jingles_every > 0
            && m.since_jingle >= cfg.jingles_every)) && track::eligible(u, cfg.hour, cfg.weekday@),
        tracks.contains(t) && t.kind == TrackKind::Music && track::eligible(t, cfg.hour, cfg.weekday@)
            ==> next_of(tracks, m, cfg) is Some,
        next_of(tracks, m, cfg) matches Some((u, after)) ==> forecast(tracks, m, cfg, 1) == seq![u],
{
    let music = pool(tracks, TrackKind::Music, cfg);
    let jingles = pool(tracks, TrackKind::Jingle, cfg);
    pools_hold_what_may_play(tracks, TrackKind::Music, cfg, t);
    if music.len() > 0 {
        rules_give_way_only_when_they_must(music, m);
        let u = pick(music, jingles, m, cfg);
        pools_hold_what_may_play(tracks, TrackKind::Music, cfg, u);
        pools_hold_what_may_play(tracks, TrackKind::Jingle, cfg, u);
        if next_jingle(jingles, m, cfg) is Some {
            lemma_steps(jingles, m.cursor, last_title(m), 0);
            assert(jingles.contains(u));
        } else {
            assert(music.contains(u));
        }
        forecasts_come_true(tracks, m, cfg, 1);
        assert(picked_live(tracks, after_pick(music, jingles, m, cfg), cfg, 0) =~= Seq::<Track>::empty());
        assert(picked_live(tracks, m, cfg, 1) =~= seq![u]);
    }
}

} // verus!
