//! Possible duplicates: tracks that look like the same song.
//!
//! Tracks are compared by normalized title and artist, and by length where
//! both sides know theirs. A missing title falls back to the stem of the file
//! name; a track with neither is never grouped. An untagged artist only
//! matches untagged ones. Unknown lengths join the first cluster of a song.

use vstd::prelude::*;
use vstd::string::*;

use crate::library::track::{ByFilePath, Track, TrackId};
use crate::rank::{rank, Order};
use crate::text::{char_is_space, chars_of, is_alnum, same_text, text_before, text_of, to_lower};
use crate::library::kind;
use crate::rank;
use crate::text;

verus! {

/// Default tolerance between two lengths of one song: two seconds.
pub const DURATION_TOLERANCE_NANOS: u64 = 2_000_000_000;

/// An apostrophe, which vanishes.
pub open spec fn is_apostrophe(c: char) -> bool {
    c == '\'' || c == '\u{2018}' || c == '\u{2019}' || c == '`'
}

/// Letters and digits stay, apostrophes vanish, everything else separates.
pub open spec fn plain_char(c: char) -> Option<char> {
    if text::is_alnum_char(c) {
        Some(c)
    } else if is_apostrophe(c) {
        None
    } else {
        Some(' ')
    }
}

/// The runs between white space, with the empty ones.
pub open spec fn runs_of(s: Seq<char>) -> Seq<Seq<char>>
    decreases s.len(),
{
    if s.len() == 0 {
        seq![s]
    } else {
        let front = runs_of(s.drop_last());
        if text::is_space(s.last()) {
            front.push(Seq::empty())
        } else {
            front.drop_last().push(front.last().push(s.last()))
        }
    }
}

/// The words between white space, one blank between each two.
pub open spec fn squeezed(s: Seq<char>) -> Seq<char> {
    text::join(runs_of(s).filter(|w: Seq<char>| w.len() > 0), seq![' '])
}

/// A metadata field in the form that is compared: lower case, no apostrophes,
/// other punctuation as separators, white space squeezed.
pub open spec fn normalized(s: Seq<char>) -> Seq<char> {
    squeezed(text::lowered(s).filter_map(|c: char| plain_char(c)))
}

/// The index behind the last slash of either kind.
pub open spec fn behind_slash(s: Seq<char>) -> int
    decreases s.len(),
{
    if s.len() == 0 {
        0
    } else if s.last() == '/' || s.last() == '\\' {
        s.len() as int
    } else {
        behind_slash(s.drop_last())
    }
}

/// The file name without folders and extension.
pub open spec fn stem(file_name: Seq<char>) -> Seq<char> {
    let name = file_name.skip(behind_slash(file_name));
    if kind::last_dot(name) >= 0 {
        name.subrange(0, kind::last_dot(name))
    } else {
        name
    }
}

/// Where the digits in front of an index begin.
pub open spec fn digits_from(s: Seq<char>, end: int) -> int
    decreases end,
{
    if 0 < end <= s.len() && text::is_digit(s[end - 1]) {
        digits_from(s, end - 1)
    } else {
        end
    }
}

/// A stem without the number in brackets that a copy of a file carries behind
/// its name: `song` of `song (1)`.
pub open spec fn without_copy_number(s: Seq<char>) -> Seq<char> {
    let first = digits_from(s, s.len() - 1);
    if s.len() > 0 && s.last() == ')' && 0 < first < s.len() - 1 && s[first - 1] == '(' {
        s.take(first - 1)
    } else {
        s
    }
}

/// The file name without folders, extension and copy number, normalized; a
/// name that is nothing but a copy number keeps it.
pub open spec fn normalized_stem(file_name: Seq<char>) -> Seq<char> {
    let short = normalized(without_copy_number(stem(file_name)));
    if short.len() > 0 {
        short
    } else {
        normalized(stem(file_name))
    }
}

/// What a track is compared by: its title, or the stem of its file.
pub open spec fn title_part(t: Track) -> Seq<char> {
    match t.title {
        Some(s) => if normalized(s@).len() > 0 {
            normalized(s@)
        } else {
            normalized_stem(t.file_name@)
        },
        None => normalized_stem(t.file_name@),
    }
}

/// What a track is compared by: its artist.
pub open spec fn artist_part(t: Track) -> Seq<char> {
    match t.artist {
        Some(s) => normalized(s@),
        None => normalized(Seq::empty()),
    }
}

/// A track has something to be compared by.
pub open spec fn comparable(t: Track) -> bool {
    title_part(t).len() > 0
}

/// Two tracks carry the same title and artist.
pub open spec fn same_song(a: Track, b: Track) -> bool {
    title_part(a) == title_part(b) && artist_part(a) == artist_part(b)
}

/// By title, then by artist, as they are compared.
pub struct BySong;

impl BySong {
    pub open spec fn ahead(a: Track, b: Track) -> bool {
        text::text_lt(title_part(a), title_part(b)) || (title_part(a) == title_part(b) && text::text_lt(
            artist_part(a),
            artist_part(b),
        ))
    }
}

/// A track with the parts it is compared by.
pub struct Entry {
    pub title: String,
    pub artist: String,
    pub track: Track,
}

impl Entry {
    /// The parts are those of the track.
    pub open spec fn wf(self) -> bool {
        self.title@ == title_part(self.track) && self.artist@ == artist_part(self.track)
    }
}

impl Order<Entry> for BySong {
    open spec fn before(self, a: Entry, b: Entry) -> bool {
        text::text_lt(a.title@, b.title@) || (a.title@ == b.title@ && text::text_lt(a.artist@, b.artist@))
    }

    proof fn is_weak_order(self, a: Entry, b: Entry, c: Entry) {
        text::text_order_is_total(a.title@, b.title@);
        text::text_order_is_total(b.title@, c.title@);
        text::text_order_is_total(a.title@, c.title@);
        text::text_order_is_total(a.artist@, b.artist@);
        text::text_order_is_total(b.artist@, c.artist@);
        text::text_order_is_total(a.artist@, c.artist@);
        if text::text_lt(a.title@, b.title@) && text::text_lt(b.title@, c.title@) {
            text::text_order_is_transitive(a.title@, b.title@, c.title@);
        }
        if text::text_lt(a.artist@, b.artist@) && text::text_lt(b.artist@, c.artist@) {
            text::text_order_is_transitive(a.artist@, b.artist@, c.artist@);
        }
    }

    fn is_ahead(&self, a: &Entry, b: &Entry) -> (r: bool) {
        if text_before(a.title.as_str(), b.title.as_str()) {
            return true;
        }
        same_text(a.title.as_str(), b.title.as_str()) && text_before(
            a.artist.as_str(),
            b.artist.as_str(),
        )
    }
}

impl Order<Track> for BySong {
    open spec fn before(self, a: Track, b: Track) -> bool {
        BySong::ahead(a, b)
    }

    proof fn is_weak_order(self, a: Track, b: Track, c: Track) {
        text::text_order_is_total(title_part(a), title_part(b));
        text::text_order_is_total(title_part(b), title_part(c));
        text::text_order_is_total(title_part(a), title_part(c));
        text::text_order_is_total(artist_part(a), artist_part(b));
        text::text_order_is_total(artist_part(b), artist_part(c));
        text::text_order_is_total(artist_part(a), artist_part(c));
        if text::text_lt(title_part(a), title_part(b)) && text::text_lt(title_part(b), title_part(c)) {
            text::text_order_is_transitive(title_part(a), title_part(b), title_part(c));
        }
        if text::text_lt(artist_part(a), artist_part(b)) && text::text_lt(artist_part(b), artist_part(c)) {
            text::text_order_is_transitive(artist_part(a), artist_part(b), artist_part(c));
        }
    }

    fn is_ahead(&self, a: &Track, b: &Track) -> (r: bool) {
        let (p, q) = (compared_title(a), compared_title(b));
        if text_before(p.as_str(), q.as_str()) {
            return true;
        }
        same_text(p.as_str(), q.as_str()) && text_before(
            compared_artist(a).as_str(),
            compared_artist(b).as_str(),
        )
    }
}

/// By length; only used where lengths are known.
pub struct ByLength;

impl Order<Track> for ByLength {
    open spec fn before(self, a: Track, b: Track) -> bool {
        match (a.duration_nanos, b.duration_nanos) {
            (Some(x), Some(y)) => x < y,
            (None, Some(_)) => true,
            _ => false,
        }
    }

    proof fn is_weak_order(self, a: Track, b: Track, c: Track) {
    }

    fn is_ahead(&self, a: &Track, b: &Track) -> (r: bool) {
        match (a.duration_nanos, b.duration_nanos) {
            (Some(x), Some(y)) => x < y,
            (None, Some(_)) => true,
            _ => false,
        }
    }
}

/// The runs of one song each in tracks that are ordered by song.
pub open spec fn songs(s: Seq<Track>) -> Seq<Seq<Track>>
    decreases s.len(),
{
    if s.len() == 0 {
        Seq::empty()
    } else {
        let front = songs(s.drop_last());
        if front.len() > 0 && front.last().len() > 0 && same_song(front.last().last(), s.last()) {
            front.drop_last().push(front.last().push(s.last()))
        } else {
            front.push(seq![s.last()])
        }
    }
}

/// The chains of neighbouring lengths in tracks that are ordered by length.
pub open spec fn chains(s: Seq<Track>, tolerance: u64) -> Seq<Seq<Track>>
    decreases s.len(),
{
    if s.len() == 0 {
        Seq::empty()
    } else {
        let front = chains(s.drop_last(), tolerance);
        if front.len() > 0 && front.last().len() > 0 && within(
            front.last().last(),
            s.last(),
            tolerance,
        ) {
            front.drop_last().push(front.last().push(s.last()))
        } else {
            front.push(seq![s.last()])
        }
    }
}

/// The second length is known and exceeds the first by no more than the
/// tolerance.
pub open spec fn within(a: Track, b: Track, tolerance: u64) -> bool {
    match (a.duration_nanos, b.duration_nanos) {
        (Some(x), Some(y)) => -tolerance <= y - x <= tolerance,
        _ => false,
    }
}

/// The clusters of one song: chains of known lengths, with all unknown ones
/// in the first.
pub open spec fn clusters(song: Seq<Track>, tolerance: u64) -> Seq<Seq<Track>> {
    let known = rank::ranked(ByLength, song.filter(|t: Track| t.duration_nanos is Some));
    let unknown = song.filter(|t: Track| t.duration_nanos is None);
    let c = chains(known, tolerance);
    if c.len() == 0 {
        seq![unknown]
    } else {
        c.update(0, c[0] + unknown)
    }
}

/// The clusters that hold two or more tracks, each by file path.
pub open spec fn doubles(c: Seq<Seq<Track>>) -> Seq<Seq<Track>> {
    c.filter(|g: Seq<Track>| g.len() >= 2).map_values(|g: Seq<Track>| rank::ranked(ByFilePath, g))
}

/// All doubles of all songs.
pub open spec fn all_doubles(runs: Seq<Seq<Track>>, tolerance: u64) -> Seq<Seq<Track>>
    decreases runs.len(),
{
    if runs.len() == 0 {
        Seq::empty()
    } else {
        all_doubles(runs.drop_last(), tolerance) + doubles(clusters(runs.last(), tolerance))
    }
}

/// The groups of tracks that look like the same song: songs in order, their
/// clusters by length, tracks by path.
pub open spec fn groups(tracks: Seq<Track>, tolerance: u64) -> Seq<Seq<Track>> {
    all_doubles(songs(rank::ranked(BySong, tracks.filter(|t: Track| comparable(t)))), tolerance)
}

/// One set of tracks that look like the same song. The shown title and artist
/// are those of its first track; tracks are in the order of their paths.
#[derive(Debug, Clone)]
pub struct DuplicateGroup {
    pub title: String,
    pub artist: String,
    pub tracks: Vec<Track>,
}

/// A group shows a set of tracks.
pub open spec fn shows_group(g: DuplicateGroup, members: Seq<Track>) -> bool {
    &&& g.tracks@ == members
    &&& members.len() > 0
    &&& g.title@ == (match members[0].title {
        Some(t) => t@,
        None => members[0].file_name@,
    })
    &&& g.artist@ == (match members[0].artist {
        Some(a) => a@,
        None => Seq::empty(),
    })
}

/// Normalize one metadata field for comparison: lower case, drop apostrophes
/// (so "don't" meets "dont"), turn other punctuation into separators (so
/// "hip-hop" meets "hip hop"), squeeze white space.
pub fn normalize_text(s: &str) -> (r: String)
    ensures
        r@ == normalized(s@),
{
    let low = to_lower(s);
    let v = chars_of(low.as_str());
    let ghost f = |c: char| plain_char(c);
    let mut plain: Vec<char> = Vec::new();
    let mut i: usize = 0;
    assert(plain@ =~= v@.subrange(0, 0).filter_map(f));
    while i < v.len()
        invariant
            i <= v.len(),
            f == (|c: char| plain_char(c)),
            plain@ == v@.subrange(0, i as int).filter_map(f),
        decreases v.len() - i,
    {
        let ghost was = plain@;
        assert(v@.subrange(0, i + 1).drop_last() =~= v@.subrange(0, i as int));
        let c: char = v[i];
        if is_alnum(c) {
            plain.push(c);
            assert(plain@ =~= was + seq![c]);
        } else if c == '\'' || c == '\u{2018}' || c == '\u{2019}' || c == '`' {
        } else {
            plain.push(' ');
            assert(plain@ =~= was + seq![' ']);
        }
        i = i + 1;
    }
    assert(v@.subrange(0, i as int) =~= v@);
    squeeze(&plain)
}

/// The words between white space, one blank between each two.
fn squeeze(v: &Vec<char>) -> (r: String)
    ensures
        r@ == squeezed(v@),
{
    let ghost full = |w: Seq<char>| w.len() > 0;
    let mut out = String::new();
    let mut cur = String::new();
    let mut count: usize = 0;
    let mut i: usize = 0;
    let ghost mut done: Seq<Seq<char>> = Seq::empty();
    proof {
        reveal(Seq::filter);
        assert(v@.subrange(0, 0) =~= cur@);
        assert(done.push(cur@) =~= runs_of(v@.subrange(0, 0)));
        assert(out@ =~= text::join(done.filter(full), seq![' ']));
    }
    while i < v.len()
        invariant
            i <= v.len(),
            full == (|w: Seq<char>| w.len() > 0),
            done.push(cur@) == runs_of(v@.subrange(0, i as int)),
            out@ == text::join(done.filter(full), seq![' ']),
            count == done.filter(full).len(),
            count <= i,
            cur@.len() > 0 ==> count < i,
        decreases v.len() - i,
    {
        let ghost before = done.push(cur@);
        assert(v@.subrange(0, i + 1).drop_last() =~= v@.subrange(0, i as int));
        if char_is_space(v[i]) {
            let ghost word = cur@;
            proof {
                reveal(Seq::filter);
                assert(before.drop_last() =~= done);
            }
            if !cur.as_str().is_empty() {
                let ghost parts = done.filter(full).push(word);
                assert(parts.drop_last() =~= done.filter(full));
                if count > 0 {
                    out.push(' ');
                }
                out.append(cur.as_str());
                assert(out@ =~= text::join(parts, seq![' ']));
                count = count + 1;
            }
            proof {
                done = before;
            }
            cur = String::new();
        } else {
            assert(before.drop_last() =~= done);
            cur.push(v[i]);
        }
        i = i + 1;
    }
    assert(v@.subrange(0, i as int) =~= v@);
    let ghost whole = done.push(cur@);
    proof {
        reveal(Seq::filter);
        assert(whole.drop_last() =~= done);
    }
    if !cur.as_str().is_empty() {
        let ghost parts = done.filter(full).push(cur@);
        assert(parts.drop_last() =~= done.filter(full));
        if count > 0 {
            out.push(' ');
        }
        out.append(cur.as_str());
        assert(out@ =~= text::join(parts, seq![' ']));
    }
    out
}

/// A stem without its copy number.
fn drop_copy_number(s: &str) -> (r: String)
    ensures
        r@ == without_copy_number(s@),
{
    let v = chars_of(s);
    let n: usize = v.len();
    if n == 0 || v[n - 1] != ')' {
        return s.to_owned();
    }
    let mut first: usize = n - 1;
    while first > 0 && v[first - 1] >= '0' && v[first - 1] <= '9'
        invariant
            first < v.len(),
            v@ == s@,
            n == v.len(),
            digits_from(s@, n - 1) == digits_from(s@, first as int),
        decreases first,
    {
        first = first - 1;
    }
    if first == 0 || first == n - 1 || v[first - 1] != '(' {
        return s.to_owned();
    }
    let r = text_of(vstd::slice::slice_subrange(v.as_slice(), 0, first - 1));
    assert(r@ =~= s@.take(first - 1));
    r
}

/// The file name without folders and extension (`song` from
/// `C:/mix/song (1).mp3`), normalized.
fn normalize_stem(file_name: &str) -> (r: String)
    ensures
        r@ == normalized_stem(file_name@),
{
    let whole = stem_of(file_name);
    let short = drop_copy_number(whole.as_str());
    let r = normalize_text(short.as_str());
    if r.as_str().is_empty() {
        normalize_text(whole.as_str())
    } else {
        r
    }
}

/// The file name without folders and extension.
fn stem_of(file_name: &str) -> (r: String)
    ensures
        r@ == stem(file_name@),
{
    let v = chars_of(file_name);
    let mut start: usize = v.len();
    assert(file_name@.subrange(0, start as int) =~= file_name@);
    while start > 0 && v[start - 1] != '/' && v[start - 1] != '\\'
        invariant
            start <= v.len(),
            v@ == file_name@,
            behind_slash(file_name@) == behind_slash(file_name@.subrange(0, start as int)),
        decreases start,
    {
        assert(file_name@.subrange(0, start as int).drop_last() =~= file_name@.subrange(
            0,
            start - 1,
        ));
        start = start - 1;
    }
    assert(behind_slash(file_name@) == start);
    let ghost name = file_name@.skip(start as int);
    let mut end: usize = v.len();
    assert(name.subrange(0, end - start) =~= name);
    while end > start && v[end - 1] != '.'
        invariant
            start <= end <= v.len(),
            v@ == file_name@,
            name == file_name@.skip(start as int),
            kind::last_dot(name) == kind::last_dot(name.subrange(0, end - start)),
        decreases end,
    {
        assert(name.subrange(0, end - start).drop_last() =~= name.subrange(0, end - start - 1));
        end = end - 1;
    }
    if end > start {
        assert(name.subrange(0, end - start).last() == '.');
        assert(kind::last_dot(name) == end - start - 1);
        let t = text_of(vstd::slice::slice_subrange(v.as_slice(), start, end - 1));
        assert(t@ =~= name.subrange(0, kind::last_dot(name)));
        t
    } else {
        let t = text_of(vstd::slice::slice_subrange(v.as_slice(), start, v.len()));
        assert(t@ =~= name);
        t
    }
}

/// What a track is compared by: its title, or the stem of its file.
fn compared_title(t: &Track) -> (r: String)
    ensures
        r@ == title_part(*t),
{
    match &t.title {
        Some(s) => {
            let n = normalize_text(s.as_str());
            if n.as_str().is_empty() {
                normalize_stem(t.file_name.as_str())
            } else {
                n
            }
        },
        None => normalize_stem(t.file_name.as_str()),
    }
}

/// What a track is compared by: its artist.
fn compared_artist(t: &Track) -> (r: String)
    ensures
        r@ == artist_part(*t),
{
    match &t.artist {
        Some(s) => normalize_text(s.as_str()),
        None => normalize_text(String::new().as_str()),
    }
}

/// The tracks of entries.
pub open spec fn tracks_of(v: Seq<Entry>) -> Seq<Track> {
    v.map_values(|e: Entry| e.track)
}

proof fn lemma_placed_tracks(s: Seq<Entry>, x: Entry)
    requires
        x.wf(),
        forall|i: int| 0 <= i < s.len() ==> (#[trigger] s[i]).wf(),
    ensures
        tracks_of(crate::rank::placed(BySong, s, x)) == crate::rank::placed(
            BySong,
            tracks_of(s),
            x.track,
        ),
        forall|i: int|
            0 <= i < crate::rank::placed(BySong, s, x).len() ==> (#[trigger] crate::rank::placed(
                BySong,
                s,
                x,
            )[i]).wf(),
    decreases s.len(),
{
    let p = crate::rank::placed(BySong, s, x);
    if s.len() == 0 || !Order::<Entry>::before(BySong, x, s.last()) {
        assert(tracks_of(p) =~= tracks_of(s).push(x.track));
        if s.len() > 0 {
            assert(tracks_of(s).last() == s.last().track);
        }
        assert forall|i: int| 0 <= i < p.len() implies (#[trigger] p[i]).wf() by {
            if i < s.len() {
                assert(p[i] == s[i]);
            }
        }
    } else {
        let front = s.drop_last();
        assert forall|i: int| 0 <= i < front.len() implies (#[trigger] front[i]).wf() by {
            assert(front[i] == s[i]);
        }
        lemma_placed_tracks(front, x);
        assert(tracks_of(s).drop_last() =~= tracks_of(front));
        assert(tracks_of(s).last() == s.last().track);
        assert(tracks_of(p) =~= tracks_of(crate::rank::placed(BySong, front, x)).push(
            s.last().track,
        ));
        let q = crate::rank::placed(BySong, front, x);
        assert forall|i: int| 0 <= i < p.len() implies (#[trigger] p[i]).wf() by {
            if i < q.len() {
                assert(p[i] == q[i]);
            } else {
                assert(p[i] == s[s.len() - 1]);
            }
        }
    }
}

proof fn lemma_ranked_tracks(s: Seq<Entry>)
    requires
        forall|i: int| 0 <= i < s.len() ==> (#[trigger] s[i]).wf(),
    ensures
        tracks_of(rank::ranked(BySong, s)) == rank::ranked(BySong, tracks_of(s)),
        forall|i: int|
            0 <= i < rank::ranked(BySong, s).len() ==> (#[trigger] rank::ranked(BySong, s)[i]).wf(),
    decreases s.len(),
{
    if s.len() > 0 {
        let front = s.drop_last();
        assert forall|i: int| 0 <= i < front.len() implies (#[trigger] front[i]).wf() by {
            assert(front[i] == s[i]);
        }
        lemma_ranked_tracks(front);
        assert(s[s.len() - 1].wf());
        lemma_placed_tracks(rank::ranked(BySong, front), s.last());
        assert(tracks_of(s).drop_last() =~= tracks_of(front));
        assert(tracks_of(s).last() == s.last().track);
    } else {
        assert(tracks_of(rank::ranked(BySong, s)) =~= rank::ranked(BySong, tracks_of(s)));
    }
}

/// The contents of nested vectors.
pub open spec fn nested(v: Seq<Vec<Track>>) -> Seq<Seq<Track>> {
    v.map_values(|g: Vec<Track>| g@)
}

/// The comparable tracks, ordered by song, with the parts they are compared by.
fn ordered_entries(tracks: &Vec<Track>) -> (r: Vec<Entry>)
    ensures
        tracks_of(r@) == rank::ranked(BySong, tracks@.filter(|t: Track| comparable(t))),
        forall|i: int| 0 <= i < r@.len() ==> (#[trigger] r@[i]).wf(),
{
    let ghost keep = |t: Track| comparable(t);
    let mut entries: Vec<Entry> = Vec::new();
    let mut i: usize = 0;
    proof {
        reveal(Seq::filter);
        assert(tracks_of(entries@) =~= tracks@.subrange(0, 0).filter(keep));
    }
    while i < tracks.len()
        invariant
            i <= tracks.len(),
            keep == (|t: Track| comparable(t)),
            tracks_of(entries@) == tracks@.subrange(0, i as int).filter(keep),
            forall|j: int| 0 <= j < entries@.len() ==> (#[trigger] entries@[j]).wf(),
        decreases tracks.len() - i,
    {
        proof {
            reveal(Seq::filter);
            assert(tracks@.subrange(0, i + 1).drop_last() =~= tracks@.subrange(0, i as int));
        }
        let title = compared_title(&tracks[i]);
        if !title.as_str().is_empty() {
            let ghost was = tracks_of(entries@);
            let artist = compared_artist(&tracks[i]);
            entries.push(Entry { title, artist, track: tracks[i].clone() });
            assert(tracks_of(entries@) =~= was.push(tracks@[i as int]));
        }
        i = i + 1;
    }
    assert(tracks@.subrange(0, i as int) =~= tracks@);
    proof {
        lemma_ranked_tracks(entries@);
    }
    rank(BySong, entries)
}

/// The runs of one song each.
fn split_songs(entries: &Vec<Entry>) -> (r: Vec<Vec<Track>>)
    requires
        forall|i: int| 0 <= i < entries@.len() ==> (#[trigger] entries@[i]).wf(),
    ensures
        nested(r@) == songs(tracks_of(entries@)),
{
    let ghost all = tracks_of(entries@);
    let mut done: Vec<Vec<Track>> = Vec::new();
    let mut cur: Vec<Track> = Vec::new();
    let mut i: usize = 0;
    assert(nested(done@) =~= songs(all.subrange(0, 0)));
    while i < entries.len()
        invariant
            i <= entries.len(),
            all == tracks_of(entries@),
            forall|j: int| 0 <= j < entries@.len() ==> (#[trigger] entries@[j]).wf(),
            i == 0 ==> cur@.len() == 0 && done@.len() == 0,
            i > 0 ==> cur@.len() > 0 && cur@.last() == all[i - 1],
            songs(all.subrange(0, i as int)) == (if cur@.len() == 0 {
                nested(done@)
            } else {
                nested(done@).push(cur@)
            }),
        decreases entries.len() - i,
    {
        assert(all.subrange(0, i + 1).drop_last() =~= all.subrange(0, i as int));
        assert(all[i as int] == entries@[i as int].track);
        assert(entries@[i as int].wf());
        let same = i > 0 && same_text(entries[i - 1].title.as_str(), entries[i].title.as_str())
            && same_text(entries[i - 1].artist.as_str(), entries[i].artist.as_str());
        let ghost before = songs(all.subrange(0, i as int));
        proof {
            if i > 0 {
                assert(entries@[i - 1].wf());
                assert(all[i - 1] == entries@[i - 1].track);
                assert(before.last() == cur@);
                assert(same == same_song(cur@.last(), all[i as int]));
            }
        }
        let t = entries[i].track.clone();
        if same {
            let ghost was = cur@;
            cur.push(t);
            assert(nested(done@).push(was).drop_last() =~= nested(done@));
            assert(songs(all.subrange(0, i + 1)) =~= nested(done@).push(cur@));
        } else {
            if cur.len() > 0 {
                let ghost was = nested(done@).push(cur@);
                done.push(cur);
                assert(nested(done@) =~= was);
            }
            cur = Vec::new();
            cur.push(t);
            assert(cur@ =~= seq![all[i as int]]);
            assert(songs(all.subrange(0, i + 1)) =~= nested(done@).push(cur@));
        }
        i = i + 1;
    }
    assert(all.subrange(0, i as int) =~= all);
    if cur.len() > 0 {
        let ghost was = nested(done@).push(cur@);
        done.push(cur);
        assert(nested(done@) =~= was);
    }
    done
}

/// The tracks of a song whose length is known, or is not.
fn by_knowledge(song: &Vec<Track>, known: bool) -> (r: Vec<Track>)
    ensures
        known ==> r@ == song@.filter(|t: Track| t.duration_nanos is Some),
        !known ==> r@ == song@.filter(|t: Track| t.duration_nanos is None),
{
    let ghost yes = |t: Track| t.duration_nanos is Some;
    let ghost no = |t: Track| t.duration_nanos is None;
    let mut out: Vec<Track> = Vec::new();
    let mut i: usize = 0;
    proof {
        reveal(Seq::filter);
        assert(out@ =~= song@.subrange(0, 0).filter(yes));
        assert(out@ =~= song@.subrange(0, 0).filter(no));
    }
    while i < song.len()
        invariant
            i <= song.len(),
            yes == (|t: Track| t.duration_nanos is Some),
            no == (|t: Track| t.duration_nanos is None),
            known ==> out@ == song@.subrange(0, i as int).filter(yes),
            !known ==> out@ == song@.subrange(0, i as int).filter(no),
        decreases song.len() - i,
    {
        proof {
            reveal(Seq::filter);
            assert(song@.subrange(0, i + 1).drop_last() =~= song@.subrange(0, i as int));
        }
        if song[i].duration_nanos.is_some() == known {
            out.push(song[i].clone());
        }
        i = i + 1;
    }
    assert(song@.subrange(0, i as int) =~= song@);
    out
}

/// The chains of neighbouring lengths.
fn split_chains(known: &Vec<Track>, tolerance: u64) -> (r: Vec<Vec<Track>>)
    ensures
        nested(r@) == chains(known@, tolerance),
{
    let ghost all = known@;
    let mut done: Vec<Vec<Track>> = Vec::new();
    let mut cur: Vec<Track> = Vec::new();
    let mut i: usize = 0;
    assert(nested(done@) =~= chains(all.subrange(0, 0), tolerance));
    while i < known.len()
        invariant
            i <= known.len(),
            all == known@,
            i == 0 ==> cur@.len() == 0 && done@.len() == 0,
            i > 0 ==> cur@.len() > 0 && cur@.last() == all[i - 1],
            chains(all.subrange(0, i as int), tolerance) == (if cur@.len() == 0 {
                nested(done@)
            } else {
                nested(done@).push(cur@)
            }),
        decreases known.len() - i,
    {
        assert(all.subrange(0, i + 1).drop_last() =~= all.subrange(0, i as int));
        let near = if i > 0 {
            match (known[i - 1].duration_nanos, known[i].duration_nanos) {
                (Some(x), Some(y)) => {
                    let gap: u64 = if x < y {
                        y - x
                    } else {
                        x - y
                    };
                    gap <= tolerance
                },
                _ => false,
            }
        } else {
            false
        };
        let ghost before = chains(all.subrange(0, i as int), tolerance);
        proof {
            if i > 0 {
                assert(before.last() == cur@);
                assert(near == within(cur@.last(), all[i as int], tolerance));
            }
        }
        let t = known[i].clone();
        if near {
            let ghost was = cur@;
            cur.push(t);
            assert(nested(done@).push(was).drop_last() =~= nested(done@));
            assert(chains(all.subrange(0, i + 1), tolerance) =~= nested(done@).push(cur@));
        } else {
            if cur.len() > 0 {
                let ghost was = nested(done@).push(cur@);
                done.push(cur);
                assert(nested(done@) =~= was);
            }
            cur = Vec::new();
            cur.push(t);
            assert(cur@ =~= seq![all[i as int]]);
            assert(chains(all.subrange(0, i + 1), tolerance) =~= nested(done@).push(cur@));
        }
        i = i + 1;
    }
    assert(all.subrange(0, i as int) =~= all);
    if cur.len() > 0 {
        let ghost was = nested(done@).push(cur@);
        done.push(cur);
        assert(nested(done@) =~= was);
    }
    done
}

/// The clusters of one song.
fn split_clusters(song: &Vec<Track>, tolerance: u64) -> (r: Vec<Vec<Track>>)
    ensures
        nested(r@) == clusters(song@, tolerance),
{
    let known = rank(ByLength, by_knowledge(song, true));
    let mut unknown = by_knowledge(song, false);
    let mut found = split_chains(&known, tolerance);
    let ghost c = chains(known@, tolerance);
    if found.len() == 0 {
        let ghost rest = unknown@;
        found.push(unknown);
        assert(nested(found@) =~= seq![rest]);
    } else {
        let ghost rest = unknown@;
        let mut first = found.remove(0);
        assert(first@ == c[0]);
        first.append(&mut unknown);
        let ghost merged = first@;
        found.insert(0, first);
        assert(nested(found@) =~= c.update(0, c[0] + rest)) by {
            assert forall|k: int| 0 <= k < found@.len() implies nested(found@)[k] == c.update(
                0,
                c[0] + rest,
            )[k] by {
                if k > 0 {
                    assert(nested(found@)[k] == c[k]);
                }
            }
        }
    }
    found
}

/// What a group shows.
fn group_of(members: Vec<Track>) -> (g: DuplicateGroup)
    requires
        members@.len() > 0,
    ensures
        shows_group(g, members@),
{
    let title = match &members[0].title {
        Some(t) => t.clone(),
        None => members[0].file_name.clone(),
    };
    let artist = match &members[0].artist {
        Some(a) => a.clone(),
        None => String::new(),
    };
    DuplicateGroup { title, artist, tracks: members }
}

/// Groups show sets of tracks, one by one.
pub open spec fn show_groups(v: Seq<DuplicateGroup>, sets: Seq<Seq<Track>>) -> bool {
    v.len() == sets.len() && forall|i: int| 0 <= i < v.len() ==> shows_group(#[trigger] v[i], sets[i])
}

/// Append the doubles of one song.
fn push_doubles(out: &mut Vec<DuplicateGroup>, found: Vec<Vec<Track>>, Ghost(so_far): Ghost<
    Seq<Seq<Track>>,
>)
    requires
        show_groups(old(out)@, so_far),
    ensures
        show_groups(final(out)@, so_far + doubles(nested(found@))),
{
    let ghost big = |g: Seq<Track>| g.len() >= 2;
    let ghost by_path = |g: Seq<Track>| rank::ranked(ByFilePath, g);
    let ghost all = nested(found@);
    let mut i: usize = 0;
    proof {
        reveal(Seq::filter);
        assert(so_far + all.subrange(0, 0).filter(big).map_values(by_path) =~= so_far);
    }
    while i < found.len()
        invariant
            i <= found.len(),
            all == nested(found@),
            big == (|g: Seq<Track>| g.len() >= 2),
            by_path == (|g: Seq<Track>| rank::ranked(ByFilePath, g)),
            show_groups(
                out@,
                so_far + all.subrange(0, i as int).filter(big).map_values(by_path),
            ),
        decreases found.len() - i,
    {
        let ghost before = all.subrange(0, i as int).filter(big).map_values(by_path);
        proof {
            reveal(Seq::filter);
            assert(all.subrange(0, i + 1).drop_last() =~= all.subrange(0, i as int));
            assert(all[i as int] == found@[i as int]@);
        }
        if found[i].len() >= 2 {
            let members = rank(ByFilePath, crate::table::copy_all(&found[i]));
            proof {
                crate::rank::ranking_orders(ByFilePath, found@[i as int]@);
                assert(all.subrange(0, i + 1).filter(big).map_values(by_path) =~= before.push(
                    members@,
                ));
                assert(so_far + before.push(members@) =~= (so_far + before).push(members@));
            }
            out.push(group_of(members));
        }
        i = i + 1;
    }
    assert(all.subrange(0, i as int) =~= all);
}

/// Group tracks into possible duplicates. Only sets of two or more come out,
/// songs in the order of their titles and artists.
pub fn find_duplicate_groups(tracks: &Vec<Track>, tolerance_nanos: u64) -> (r: Vec<DuplicateGroup>)
    ensures
        show_groups(r@, groups(tracks@, tolerance_nanos)),
{
    let entries = ordered_entries(tracks);
    let runs = split_songs(&entries);
    let ghost all = nested(runs@);
    let mut out: Vec<DuplicateGroup> = Vec::new();
    let mut i: usize = 0;
    assert(all.subrange(0, 0) =~= Seq::empty());
    while i < runs.len()
        invariant
            i <= runs.len(),
            all == nested(runs@),
            show_groups(out@, all_doubles(all.subrange(0, i as int), tolerance_nanos)),
        decreases runs.len() - i,
    {
        let ghost so_far = all_doubles(all.subrange(0, i as int), tolerance_nanos);
        assert(all.subrange(0, i + 1).drop_last() =~= all.subrange(0, i as int));
        assert(all.subrange(0, i + 1).last() == runs@[i as int]@);
        let found = split_clusters(&runs[i], tolerance_nanos);
        push_doubles(&mut out, found, Ghost(so_far));
        i = i + 1;
    }
    assert(all.subrange(0, i as int) =~= all);
    out
}

/// No white space among the characters.
spec fn solid(w: Seq<char>) -> bool {
    forall|i: int| 0 <= i < w.len() ==> !text::is_space(#[trigger] w[i])
}

/// Words: not empty, and without white space.
spec fn are_words(parts: Seq<Seq<char>>) -> bool {
    forall|i: int| 0 <= i < parts.len() ==> (#[trigger] parts[i]).len() > 0 && solid(parts[i])
}

/// Words with single blanks between them.
spec fn well_spaced(n: Seq<char>) -> bool {
    &&& n.len() > 0 ==> n[0] != ' ' && n.last() != ' '
    &&& forall|i: int| 0 < i < n.len() && #[trigger] n[i] == ' ' ==> n[i - 1] != ' '
}

proof fn lemma_runs_solid(s: Seq<char>)
    ensures
        runs_of(s).len() > 0,
        forall|i: int| 0 <= i < runs_of(s).len() ==> solid(#[trigger] runs_of(s)[i]),
        forall|i: int, k: int|
            0 <= i < runs_of(s).len() && 0 <= k < runs_of(s)[i].len() ==> s.contains(
                #[trigger] runs_of(s)[i][k],
            ),
    decreases s.len(),
{
    if s.len() > 0 {
        let front = runs_of(s.drop_last());
        lemma_runs_solid(s.drop_last());
        let all = runs_of(s);
        assert forall|i: int| 0 <= i < all.len() implies solid(#[trigger] all[i]) by {
            if i < front.len() - 1 {
                assert(all[i] == front[i]);
            } else if !text::is_space(s.last()) {
                assert(solid(front[front.len() - 1]));
            } else if i < front.len() {
                assert(all[i] == front[i]);
            }
        }
        assert forall|i: int, k: int| 0 <= i < all.len() && 0 <= k < all[i].len() implies s.contains(
            #[trigger] all[i][k],
        ) by {
            if i < front.len() && k < front[i].len() {
                assert(all[i][k] == front[i][k]);
                let m = choose|m: int|
                    0 <= m < s.drop_last().len() && s.drop_last()[m] == front[i][k];
                assert(s[m] == front[i][k]);
            } else {
                assert(s[s.len() - 1] == all[i][k]);
            }
        }
    }
}

proof fn lemma_runs_after(a: Seq<char>, b: Seq<char>)
    requires
        solid(b),
    ensures
        runs_of(a + seq![' '] + b) == runs_of(a).push(b),
    decreases b.len(),
{
    let s = a + seq![' '] + b;
    if b.len() == 0 {
        assert(s.drop_last() =~= a);
        assert(b =~= Seq::<char>::empty());
    } else {
        let c = b.drop_last();
        assert(b[b.len() - 1] == b.last());
        assert forall|i: int| 0 <= i < c.len() implies !text::is_space(#[trigger] c[i]) by {
            assert(c[i] == b[i]);
        }
        lemma_runs_after(a, c);
        assert(s.drop_last() =~= a + seq![' '] + c);
        assert(b =~= c.push(b.last()));
        let front = runs_of(a).push(c);
        assert(front.drop_last() =~= runs_of(a));
    }
}

proof fn lemma_runs_whole(b: Seq<char>)
    requires
        solid(b),
    ensures
        runs_of(b) == seq![b],
    decreases b.len(),
{
    if b.len() > 0 {
        let c = b.drop_last();
        assert(b[b.len() - 1] == b.last());
        assert forall|i: int| 0 <= i < c.len() implies !text::is_space(#[trigger] c[i]) by {
            assert(c[i] == b[i]);
        }
        lemma_runs_whole(c);
        assert(b =~= c.push(b.last()));
        assert(seq![c].drop_last().push(b) =~= seq![b]);
    } else {
        assert(b =~= Seq::<char>::empty());
    }
}

proof fn lemma_joined_words(words: Seq<Seq<char>>)
    requires
        are_words(words),
    ensures
        well_spaced(text::join(words, seq![' '])),
        words.len() > 0 ==> runs_of(text::join(words, seq![' '])) == words,
        words.len() > 0 ==> text::join(words, seq![' ']).len() > 0,
        forall|k: int|
            0 <= k < text::join(words, seq![' ']).len() ==> (#[trigger] text::join(
                words,
                seq![' '],
            )[k]) == ' ' || exists|i: int, j: int|
                0 <= i < words.len() && 0 <= j < words[i].len() && #[trigger] words[i][j]
                    == text::join(words, seq![' '])[k],
    decreases words.len(),
{
    let t = text::join(words, seq![' ']);
    if words.len() == 1 {
        lemma_runs_whole(words[0]);
        assert(words =~= seq![words[0]]);
        assert forall|k: int| 0 <= k < t.len() implies (#[trigger] t[k]) == ' ' || exists|i: int, j: int|
            0 <= i < words.len() && 0 <= j < words[i].len() && #[trigger] words[i][j] == t[k] by {
            assert(words[0][k] == t[k]);
        }
    } else if words.len() > 1 {
        let front = words.drop_last();
        assert forall|i: int| 0 <= i < front.len() implies (#[trigger] front[i]).len() > 0 && solid(
            front[i],
        ) by {
            assert(front[i] == words[i]);
        }
        lemma_joined_words(front);
        let a = text::join(front, seq![' ']);
        let last = words.last();
        assert(last == words[words.len() - 1]);
        lemma_runs_after(a, last);
        assert(words =~= front.push(last));
        assert(t == a + seq![' '] + last);
        assert forall|i: int| 0 < i < t.len() && #[trigger] t[i] == ' ' implies t[i - 1] != ' ' by {
            if i < a.len() {
                assert(t[i] == a[i] && t[i - 1] == a[i - 1]);
            } else if i == a.len() {
                assert(t[i - 1] == a.last());
            } else {
                assert(t[i] == last[i - a.len() - 1]);
                assert(text::is_space(last[i - a.len() - 1]));
            }
        }
        assert(t[0] == a[0]);
        assert(t.last() == last[last.len() - 1]);
        assert forall|k: int| 0 <= k < t.len() implies (#[trigger] t[k]) == ' ' || exists|i: int, j: int|
            0 <= i < words.len() && 0 <= j < words[i].len() && #[trigger] words[i][j] == t[k] by {
            if k < a.len() {
                assert(t[k] == a[k]);
                if a[k] != ' ' {
                    let (i, j) = choose|i: int, j: int|
                        0 <= i < front.len() && 0 <= j < front[i].len() && #[trigger] front[i][j]
                            == a[k];
                    assert(words[i][j] == t[k]);
                }
            } else if k > a.len() {
                assert(words[words.len() - 1][k - a.len() - 1] == t[k]);
            }
        }
    }
}

proof fn lemma_all_words(words: Seq<Seq<char>>)
    requires
        are_words(words),
    ensures
        words.filter(|w: Seq<char>| w.len() > 0) == words,
    decreases words.len(),
{
    reveal(Seq::filter);
    if words.len() > 0 {
        let front = words.drop_last();
        assert forall|i: int| 0 <= i < front.len() implies (#[trigger] front[i]).len() > 0 && solid(
            front[i],
        ) by {
            assert(front[i] == words[i]);
        }
        lemma_all_words(front);
        assert(words.last() == words[words.len() - 1]);
        assert(words =~= front.push(words.last()));
    }
}

proof fn lemma_squeezed(s: Seq<char>)
    ensures
        well_spaced(squeezed(s)),
        squeezed(squeezed(s)) == squeezed(s),
        forall|k: int|
            0 <= k < squeezed(s).len() ==> (#[trigger] squeezed(s)[k]) == ' ' || s.contains(
                squeezed(s)[k],
            ) && !text::is_space(squeezed(s)[k]),
{
    let full = |w: Seq<char>| w.len() > 0;
    let runs = runs_of(s);
    let words = runs.filter(full);
    lemma_runs_solid(s);
    assert forall|i: int| 0 <= i < words.len() implies (#[trigger] words[i]).len() > 0 && solid(
        words[i],
    ) && runs.contains(words[i]) by {
        runs.lemma_filter_pred(full, i);
        assert(words.contains(words[i]));
        runs.lemma_filter_contains_rev(full, words[i]);
        let m = choose|m: int| 0 <= m < runs.len() && runs[m] == words[i];
        assert(solid(runs[m]));
    }
    lemma_joined_words(words);
    lemma_all_words(words);
    let t = squeezed(s);
    if words.len() == 0 {
        reveal(Seq::filter);
        assert(t =~= Seq::<char>::empty());
        assert(runs_of(t) =~= seq![t]);
        let one = seq![t];
        assert(one.last() == t && one.drop_last().len() == 0);
        assert(one.drop_last().filter(full).len() == 0);
        assert(one.filter(full) =~= words);
    }
    assert forall|k: int| 0 <= k < t.len() implies (#[trigger] t[k]) == ' ' || s.contains(t[k])
        && !text::is_space(t[k]) by {
        if t[k] != ' ' {
            let (i, j) = choose|i: int, j: int|
                0 <= i < words.len() && 0 <= j < words[i].len() && #[trigger] words[i][j] == t[k];
            let m = choose|m: int| 0 <= m < runs.len() && runs[m] == words[i];
            assert(s.contains(runs[m][j]));
            assert(!text::is_space(words[i][j]));
        }
    }
}

/// Text of plain characters alone.
spec fn all_plain(s: Seq<char>) -> bool {
    forall|i: int| 0 <= i < s.len() ==> plain_char(#[trigger] s[i]) == Some(s[i])
}

proof fn lemma_plain_stays(s: Seq<char>)
    requires
        all_plain(s),
    ensures
        s.filter_map(|c: char| plain_char(c)) == s,
    decreases s.len(),
{
    if s.len() > 0 {
        let front = s.drop_last();
        assert forall|i: int| 0 <= i < front.len() implies plain_char(#[trigger] front[i]) == Some(
            front[i],
        ) by {
            assert(front[i] == s[i]);
        }
        lemma_plain_stays(front);
        assert(s.last() == s[s.len() - 1]);
        assert(s =~= front + seq![s.last()]);
    }
}

/// A normalized text holds letters, digits and single blanks between words,
/// with none at its ends. Where lowering leaves it as it is, as it does on
/// ASCII, normalizing it again changes nothing.
pub proof fn normalizing_settles(s: Seq<char>)
    ensures
        forall|i: int|
            0 <= i < normalized(s).len() ==> (#[trigger] normalized(s)[i]) == ' '
                || text::is_alnum_char(normalized(s)[i]),
        normalized(s).len() > 0 ==> normalized(s)[0] != ' ' && normalized(s).last() != ' ',
        forall|i: int|
            0 < i < normalized(s).len() && #[trigger] normalized(s)[i] == ' ' ==> normalized(s)[i - 1]
                != ' ',
        text::lowered(normalized(s)) == normalized(s) ==> normalized(normalized(s)) == normalized(s),
        text::is_ascii_text(s) ==> text::lowered(normalized(s)) == normalized(s),
{
    let plain = |c: char| plain_char(c);
    let low = text::lowered(s);
    let kept = low.filter_map(plain);
    let n = normalized(s);
    lemma_squeezed(kept);
    assert forall|i: int| 0 <= i < n.len() implies (#[trigger] n[i]) == ' ' || (text::is_alnum_char(
        n[i],
    ) && low.contains(n[i])) by {
        if n[i] != ' ' {
            low.lemma_filter_map_contains(plain, n[i]);
            let c = choose|c: char| #[trigger] low.contains(c) && plain(c) == Some(n[i]);
            assert(plain_char(c) == Some(n[i]));
        }
    }
    if text::lowered(n) == n {
        assert(all_plain(n));
        lemma_plain_stays(n);
    }
    if text::is_ascii_text(s) {
        assert forall|i: int| 0 <= i < n.len() implies (#[trigger] n[i]) as int <= 127
            && text::fold_char(n[i]) == n[i] by {
            if n[i] != ' ' {
                let k = choose|k: int| 0 <= k < low.len() && low[k] == n[i];
                assert(low[k] == text::fold_char(s[k]));
                assert(s[k] as int <= 127);
            }
        }
        assert(text::fold(n) =~= n);
    }
}

/// The ids of the tracks of some groups, group by group.
pub open spec fn group_ids(groups: Seq<DuplicateGroup>) -> Seq<Seq<char>>
    decreases groups.len(),
{
    if groups.len() == 0 {
        Seq::empty()
    } else {
        group_ids(groups.drop_last()) + groups.last().tracks@.map_values(|t: Track| t.id@)
    }
}

/// Texts without their repetitions.
pub open spec fn once_each(s: Seq<Seq<char>>) -> Seq<Seq<char>>
    decreases s.len(),
{
    if s.len() == 0 {
        s
    } else {
        let front = once_each(s.drop_last());
        if front.contains(s.last()) {
            front
        } else {
            front.push(s.last())
        }
    }
}

/// The ids of the tracks of some groups, group by group.
fn ids_of_groups(groups: &Vec<DuplicateGroup>) -> (r: Vec<TrackId>)
    ensures
        text::texts(r@) == group_ids(groups@),
{
    let mut out: Vec<TrackId> = Vec::new();
    let mut i: usize = 0;
    assert(text::texts(out@) =~= group_ids(groups@.subrange(0, 0)));
    while i < groups.len()
        invariant
            i <= groups.len(),
            text::texts(out@) == group_ids(groups@.subrange(0, i as int)),
        decreases groups.len() - i,
    {
        let ghost before = text::texts(out@);
        assert(groups@.subrange(0, i + 1).drop_last() =~= groups@.subrange(0, i as int));
        let ghost ids = groups@[i as int].tracks@.map_values(|t: Track| t.id@);
        let mut k: usize = 0;
        assert(text::texts(out@) =~= before + ids.subrange(0, 0));
        while k < groups[i].tracks.len()
            invariant
                i < groups.len(),
                k <= groups@[i as int].tracks@.len(),
                ids == groups@[i as int].tracks@.map_values(|t: Track| t.id@),
                text::texts(out@) == before + ids.subrange(0, k as int),
            decreases groups@[i as int].tracks@.len() - k,
        {
            let ghost was = text::texts(out@);
            out.push(groups[i].tracks[k].id.clone());
            assert(text::texts(out@) =~= was.push(ids[k as int]));
            k = k + 1;
            assert(text::texts(out@) =~= before + ids.subrange(0, k as int));
        }
        assert(ids.subrange(0, k as int) =~= ids);
        i = i + 1;
    }
    assert(groups@.subrange(0, i as int) =~= groups@);
    out
}

/// The ids of every track that sits in a group, each once.
pub fn duplicate_ids(groups: &Vec<DuplicateGroup>) -> (r: Vec<TrackId>)
    ensures
        text::texts(r@) == once_each(group_ids(groups@)),
{
    let all = ids_of_groups(groups);
    let ghost ids = text::texts(all@);
    let mut out: Vec<TrackId> = Vec::new();
    let mut i: usize = 0;
    assert(ids.take(0) =~= Seq::empty());
    assert(text::texts(out@) =~= once_each(ids.take(0)));
    while i < all.len()
        invariant
            i <= all.len(),
            ids == text::texts(all@),
            text::texts(out@) == once_each(ids.take(i as int)),
        decreases all.len() - i,
    {
        assert(ids.take(i + 1).drop_last() =~= ids.take(i as int));
        let ghost before = text::texts(out@);
        let mut k: usize = 0;
        while k < out.len() && !same_text(out[k].as_str(), all[i].as_str())
            invariant
                i < all.len(),
                k <= out.len(),
                before == text::texts(out@),
                forall|j: int| 0 <= j < k ==> #[trigger] before[j] != all@[i as int]@,
            decreases out.len() - k,
        {
            assert(before[k as int] == out@[k as int]@);
            k = k + 1;
        }
        if k == out.len() {
            assert(!before.contains(ids[i as int]));
            out.push(all[i].clone());
            assert(text::texts(out@) =~= before.push(ids[i as int]));
        } else {
            assert(before[k as int] == ids[i as int]);
        }
        i = i + 1;
    }
    assert(ids.take(i as int) =~= ids);
    out
}

/// Leaving out repetitions loses nothing and leaves none.
pub proof fn repetitions_are_left_out(s: Seq<Seq<char>>)
    ensures
        once_each(s).no_duplicates(),
        forall|x: Seq<char>| #[trigger] once_each(s).contains(x) <==> s.contains(x),
    decreases s.len(),
{
    if s.len() > 0 {
        let front = s.drop_last();
        let kept = once_each(front);
        repetitions_are_left_out(front);
        assert forall|x: Seq<char>| once_each(s).contains(x) <==> s.contains(x) by {
            assert(s =~= front.push(s.last()));
            if s.contains(x) {
                let i = choose|i: int| 0 <= i < s.len() && s[i] == x;
                if i < front.len() {
                    assert(front[i] == x);
                    assert(front.contains(x));
                    assert(once_each(front).contains(x));
                    let j = choose|j: int| 0 <= j < kept.len() && kept[j] == x;
                    assert(once_each(s)[j] == x);
                } else if !kept.contains(x) {
                    assert(once_each(s)[kept.len() as int] == x);
                }
            }
            if once_each(s).contains(x) {
                let j = choose|j: int| 0 <= j < once_each(s).len() && once_each(s)[j] == x;
                if j < kept.len() {
                    assert(kept[j] == x);
                    assert(once_each(front).contains(x));
                    assert(front.contains(x));
                    let i = choose|i: int| 0 <= i < front.len() && front[i] == x;
                    assert(s[i] == x);
                } else {
                    assert(s[s.len() - 1] == x);
                }
            }
        }
    }
}

/// The tracks of all sets, one behind the other.
pub open spec fn flat(sets: Seq<Seq<Track>>) -> Seq<Track>
    decreases sets.len(),
{
    if sets.len() == 0 {
        Seq::empty()
    } else {
        flat(sets.drop_last()) + sets.last()
    }
}

/// How often a track occurs in a sequence.
pub open spec fn occurrences(s: Seq<Track>, t: Track) -> nat
    decreases s.len(),
{
    if s.len() == 0 {
        0
    } else {
        occurrences(s.drop_last(), t) + (if s.last() == t {
            1nat
        } else {
            0nat
        })
    }
}

proof fn lemma_occurrences_add(a: Seq<Track>, b: Seq<Track>, t: Track)
    ensures
        occurrences(a + b, t) == occurrences(a, t) + occurrences(b, t),
    decreases b.len(),
{
    if b.len() == 0 {
        assert(a + b =~= a);
    } else {
        lemma_occurrences_add(a, b.drop_last(), t);
        assert((a + b).drop_last() =~= a + b.drop_last());
    }
}

proof fn lemma_occurs(s: Seq<Track>, t: Track)
    ensures
        occurrences(s, t) > 0 <==> s.contains(t),
    decreases s.len(),
{
    if s.len() > 0 {
        let front = s.drop_last();
        lemma_occurs(front, t);
        if front.contains(t) {
            let n = choose|n: int| 0 <= n < front.len() && front[n] == t;
            assert(s[n] == t);
        }
        if s.contains(t) && s.last() != t {
            let n = choose|n: int| 0 <= n < s.len() && s[n] == t;
            assert(front[n] == t);
        }
        if s.last() == t {
            assert(s[s.len() - 1] == t);
        }
    }
}

proof fn lemma_placed_occurrences<O: Order<Track>>(o: O, s: Seq<Track>, x: Track, t: Track)
    ensures
        occurrences(crate::rank::placed(o, s, x), t) == occurrences(s, t) + (if x == t {
            1nat
        } else {
            0nat
        }),
    decreases s.len(),
{
    let p = crate::rank::placed(o, s, x);
    if s.len() == 0 || !o.before(x, s.last()) {
        assert(p.drop_last() =~= s);
    } else {
        lemma_placed_occurrences(o, s.drop_last(), x, t);
        assert(p.drop_last() =~= crate::rank::placed(o, s.drop_last(), x));
    }
}

proof fn lemma_ranked_occurrences<O: Order<Track>>(o: O, s: Seq<Track>, t: Track)
    ensures
        occurrences(rank::ranked(o, s), t) == occurrences(s, t),
    decreases s.len(),
{
    if s.len() > 0 {
        lemma_ranked_occurrences(o, s.drop_last(), t);
        lemma_placed_occurrences(o, rank::ranked(o, s.drop_last()), s.last(), t);
    }
}

proof fn lemma_songs(s: Seq<Track>)
    ensures
        flat(songs(s)) == s,
        s.len() > 0 ==> songs(s).len() > 0 && songs(s).last().len() > 0 && songs(s).last().last()
            == s.last(),
        forall|i: int| 0 <= i < songs(s).len() ==> one_song(#[trigger] songs(s)[i]),
    decreases s.len(),
{
    if s.len() > 0 {
        let front = songs(s.drop_last());
        lemma_songs(s.drop_last());
        let all = songs(s);
        if front.len() > 0 && front.last().len() > 0 && same_song(front.last().last(), s.last()) {
            assert(all.drop_last() =~= front.drop_last());
            assert(all.last() == front.last().push(s.last()));
            assert(flat(front) == flat(front.drop_last()) + front.last());
            assert(flat(all) == flat(front.drop_last()) + front.last().push(s.last()));
            assert(flat(all) =~= s.drop_last().push(s.last()));
            assert(flat(all) =~= s);
            assert(front[front.len() - 1] == front.last());
            assert(one_song(front.last()));
            let run = front.last();
            assert(one_song(run.push(s.last()))) by {
                let next = run.push(s.last());
                assert forall|i: int, j: int| 0 <= i < next.len() && 0 <= j < next.len() implies
                    same_song(#[trigger] next[i], #[trigger] next[j]) by {
                    assert(same_song(run[run.len() - 1], run[run.len() - 1]));
                    if i < run.len() {
                        assert(same_song(run[i], run[run.len() - 1]));
                    }
                    if j < run.len() {
                        assert(same_song(run[run.len() - 1], run[j]));
                    }
                    if i < run.len() && j < run.len() {
                        assert(same_song(run[i], run[j]));
                    }
                }
            }
            assert forall|i: int| 0 <= i < all.len() implies one_song(#[trigger] all[i]) by {
                if i < front.len() - 1 {
                    assert(all[i] == front[i]);
                }
            }
        } else {
            assert(all.drop_last() =~= front);
            assert(flat(all) =~= s);
            assert forall|i: int| 0 <= i < all.len() implies one_song(#[trigger] all[i]) by {
                if i < front.len() {
                    assert(all[i] == front[i]);
                }
            }
        }
    } else {
        assert(flat(songs(s)) =~= s);
    }
}

proof fn lemma_chains(s: Seq<Track>, tolerance: u64)
    ensures
        flat(chains(s, tolerance)) == s,
        s.len() > 0 ==> chains(s, tolerance).len() > 0 && chains(s, tolerance).last().len() > 0,
    decreases s.len(),
{
    if s.len() > 0 {
        let front = chains(s.drop_last(), tolerance);
        lemma_chains(s.drop_last(), tolerance);
        let all = chains(s, tolerance);
        if front.len() > 0 && front.last().len() > 0 && within(
            front.last().last(),
            s.last(),
            tolerance,
        ) {
            assert(all.drop_last() =~= front.drop_last());
            assert(all.last() == front.last().push(s.last()));
            assert(flat(front) == flat(front.drop_last()) + front.last());
            assert(flat(all) == flat(front.drop_last()) + front.last().push(s.last()));
            assert(flat(all) =~= s.drop_last().push(s.last()));
            assert(flat(all) =~= s);
        } else {
            assert(all.drop_last() =~= front);
            assert(flat(all) =~= s);
        }
    } else {
        assert(flat(chains(s, tolerance)) =~= s);
    }
}

/// All tracks of a set carry the same title and artist.
pub open spec fn one_song(s: Seq<Track>) -> bool {
    forall|i: int, j: int|
        0 <= i < s.len() && 0 <= j < s.len() ==> same_song(#[trigger] s[i], #[trigger] s[j])
}

proof fn lemma_split_occurrences(s: Seq<Track>, t: Track)
    ensures
        occurrences(s.filter(|u: Track| u.duration_nanos is Some), t) + occurrences(
            s.filter(|u: Track| u.duration_nanos is None),
            t,
        ) == occurrences(s, t),
    decreases s.len(),
{
    reveal(Seq::filter);
    let yes = |u: Track| u.duration_nanos is Some;
    let no = |u: Track| u.duration_nanos is None;
    if s.len() > 0 {
        let front = s.drop_last();
        lemma_split_occurrences(front, t);
        if s.last().duration_nanos is Some {
            assert(s.filter(yes).drop_last() =~= front.filter(yes));
            assert(s.filter(no) =~= front.filter(no));
        } else {
            assert(s.filter(no).drop_last() =~= front.filter(no));
            assert(s.filter(yes) =~= front.filter(yes));
        }
    }
}

proof fn lemma_flat_front(sets: Seq<Seq<Track>>, rest: Seq<Track>, t: Track)
    requires
        sets.len() > 0,
    ensures
        occurrences(flat(sets.update(0, sets[0] + rest)), t) == occurrences(flat(sets), t)
            + occurrences(rest, t),
    decreases sets.len(),
{
    let next = sets.update(0, sets[0] + rest);
    if sets.len() == 1 {
        assert(next.drop_last() =~= Seq::empty());
        assert(sets.drop_last() =~= Seq::empty());
        assert(flat(next.drop_last()).len() == 0 && flat(sets.drop_last()).len() == 0);
        assert(next.last() == sets[0] + rest);
        assert(flat(next) =~= sets[0] + rest);
        assert(flat(sets) =~= sets[0]);
        lemma_occurrences_add(sets[0], rest, t);
    } else {
        let front = sets.drop_last();
        lemma_flat_front(front, rest, t);
        assert(next.drop_last() =~= front.update(0, front[0] + rest));
        lemma_occurrences_add(flat(next.drop_last()), next.last(), t);
        lemma_occurrences_add(flat(front), sets.last(), t);
    }
}

proof fn lemma_clusters(song: Seq<Track>, tolerance: u64, t: Track)
    ensures
        occurrences(flat(clusters(song, tolerance)), t) == occurrences(song, t),
{
    let known = rank::ranked(ByLength, song.filter(|u: Track| u.duration_nanos is Some));
    let unknown = song.filter(|u: Track| u.duration_nanos is None);
    let c = chains(known, tolerance);
    lemma_split_occurrences(song, t);
    lemma_ranked_occurrences(ByLength, song.filter(|u: Track| u.duration_nanos is Some), t);
    lemma_chains(known, tolerance);
    if c.len() == 0 {
        assert(known.len() == 0);
        assert(known =~= Seq::<Track>::empty());
        assert(clusters(song, tolerance).drop_last() =~= Seq::empty());
        assert(flat(clusters(song, tolerance)) =~= unknown);
    } else {
        lemma_flat_front(c, unknown, t);
    }
}

proof fn lemma_doubles(c: Seq<Seq<Track>>, t: Track)
    ensures
        occurrences(flat(doubles(c)), t) <= occurrences(flat(c), t),
        forall|i: int|
            0 <= i < doubles(c).len() ==> (#[trigger] doubles(c)[i]).len() >= 2 && exists|k: int|
                0 <= k < c.len() && doubles(c)[i] == rank::ranked(ByFilePath, #[trigger] c[k]),
    decreases c.len(),
{
    reveal(Seq::filter);
    let big = |g: Seq<Track>| g.len() >= 2;
    let by_path = |g: Seq<Track>| rank::ranked(ByFilePath, g);
    let all = doubles(c);
    if c.len() > 0 {
        let front = c.drop_last();
        lemma_doubles(front, t);
        lemma_occurrences_add(flat(front), c.last(), t);
        let before = doubles(front);
        if c.last().len() >= 2 {
            crate::rank::ranking_orders(ByFilePath, c.last());
            lemma_ranked_occurrences(ByFilePath, c.last(), t);
            assert(all =~= before.push(rank::ranked(ByFilePath, c.last())));
            assert(all.drop_last() =~= before);
            lemma_occurrences_add(flat(before), rank::ranked(ByFilePath, c.last()), t);
        } else {
            assert(all =~= before);
        }
        assert forall|i: int| 0 <= i < all.len() implies (#[trigger] all[i]).len() >= 2 && exists|
            k: int,
        |
            0 <= k < c.len() && all[i] == rank::ranked(ByFilePath, #[trigger] c[k]) by {
            if i < before.len() {
                assert(all[i] == before[i]);
                let k = choose|k: int|
                    0 <= k < front.len() && before[i] == rank::ranked(ByFilePath, #[trigger] front[k]);
                assert(c[k] == front[k]);
            } else {
                assert(all[i] == rank::ranked(ByFilePath, c[c.len() - 1]));
            }
        }
    } else {
        assert(all =~= Seq::empty());
    }
}

proof fn lemma_flat_member(sets: Seq<Seq<Track>>, k: int, t: Track)
    requires
        0 <= k < sets.len(),
        sets[k].contains(t),
    ensures
        occurrences(flat(sets), t) > 0,
    decreases sets.len(),
{
    lemma_occurrences_add(flat(sets.drop_last()), sets.last(), t);
    if k == sets.len() - 1 {
        lemma_occurs(sets.last(), t);
    } else {
        lemma_flat_member(sets.drop_last(), k, t);
    }
}

proof fn lemma_all_doubles(runs: Seq<Seq<Track>>, tolerance: u64, t: Track)
    ensures
        occurrences(flat(all_doubles(runs, tolerance)), t) <= occurrences(flat(runs), t),
    decreases runs.len(),
{
    if runs.len() > 0 {
        let front = runs.drop_last();
        let c = clusters(runs.last(), tolerance);
        lemma_all_doubles(front, tolerance, t);
        lemma_clusters(runs.last(), tolerance, t);
        lemma_doubles(c, t);
        lemma_flat_concat(all_doubles(front, tolerance), doubles(c), t);
        lemma_occurrences_add(flat(front), runs.last(), t);
    }
}

proof fn lemma_flat_concat(a: Seq<Seq<Track>>, b: Seq<Seq<Track>>, t: Track)
    ensures
        occurrences(flat(a + b), t) == occurrences(flat(a), t) + occurrences(flat(b), t),
    decreases b.len(),
{
    if b.len() == 0 {
        assert(a + b =~= a);
    } else {
        lemma_flat_concat(a, b.drop_last(), t);
        assert((a + b).drop_last() =~= a + b.drop_last());
        lemma_occurrences_add(flat(a + b.drop_last()), b.last(), t);
        lemma_occurrences_add(flat(b.drop_last()), b.last(), t);
    }
}

proof fn lemma_filter_occurrences(s: Seq<Track>, t: Track)
    ensures
        occurrences(s.filter(|u: Track| comparable(u)), t) == (if comparable(t) {
            occurrences(s, t)
        } else {
            0
        }),
    decreases s.len(),
{
    reveal(Seq::filter);
    let keep = |u: Track| comparable(u);
    if s.len() > 0 {
        lemma_filter_occurrences(s.drop_last(), t);
        if comparable(s.last()) {
            assert(s.filter(keep).drop_last() =~= s.drop_last().filter(keep));
        } else {
            assert(s.filter(keep) =~= s.drop_last().filter(keep));
        }
    }
}

/// No track is counted more often in the groups than it occurs in the library,
/// and a track that cannot be compared is in none of them.
pub proof fn groups_count_each_track_once(tracks: Seq<Track>, tolerance: u64, t: Track)
    ensures
        occurrences(flat(groups(tracks, tolerance)), t) <= occurrences(tracks, t),
        !comparable(t) ==> occurrences(flat(groups(tracks, tolerance)), t) == 0,
{
    let kept = tracks.filter(|u: Track| comparable(u));
    let sorted = rank::ranked(BySong, kept);
    lemma_filter_occurrences(tracks, t);
    lemma_ranked_occurrences(BySong, kept, t);
    lemma_songs(sorted);
    lemma_all_doubles(songs(sorted), tolerance, t);
}

/// Some double of a song among the runs.
spec fn comes_from(runs: Seq<Seq<Track>>, tolerance: u64, g: Seq<Track>) -> bool {
    exists|k: int| from_run(runs, tolerance, g, k)
}

spec fn from_run(runs: Seq<Seq<Track>>, tolerance: u64, g: Seq<Track>, k: int) -> bool {
    0 <= k < runs.len() && doubles(clusters(runs[k], tolerance)).contains(g)
}

proof fn lemma_origin(runs: Seq<Seq<Track>>, tolerance: u64, i: int)
    requires
        0 <= i < all_doubles(runs, tolerance).len(),
    ensures
        comes_from(runs, tolerance, all_doubles(runs, tolerance)[i]),
    decreases runs.len(),
{
    let front = runs.drop_last();
    let before = all_doubles(front, tolerance);
    let g = all_doubles(runs, tolerance)[i];
    if i < before.len() {
        lemma_origin(front, tolerance, i);
        let k = choose|k: int| from_run(front, tolerance, g, k);
        assert(from_run(runs, tolerance, g, k));
    } else {
        let d = doubles(clusters(runs.last(), tolerance));
        assert(d[i - before.len()] == g);
        assert(from_run(runs, tolerance, g, runs.len() - 1));
    }
}

/// Every group holds two or more tracks of the library, all of them carry the
/// same title and artist as they are compared, and they stand in the order of
/// their paths.
pub proof fn groups_hold_one_song(tracks: Seq<Track>, tolerance: u64, i: int)
    requires
        0 <= i < groups(tracks, tolerance).len(),
    ensures
        groups(tracks, tolerance)[i].len() >= 2,
        one_song(groups(tracks, tolerance)[i]),
        crate::rank::in_order(ByFilePath, groups(tracks, tolerance)[i]),
        forall|k: int|
            0 <= k < groups(tracks, tolerance)[i].len() ==> tracks.contains(
                #[trigger] groups(tracks, tolerance)[i][k],
            ) && comparable(groups(tracks, tolerance)[i][k]),
{
    let kept = tracks.filter(|u: Track| comparable(u));
    let sorted = rank::ranked(BySong, kept);
    let runs = songs(sorted);
    let g = groups(tracks, tolerance)[i];
    lemma_origin(runs, tolerance, i);
    let r = choose|r: int| from_run(runs, tolerance, g, r);
    let c = clusters(runs[r], tolerance);
    let d = doubles(c);
    let n = choose|n: int| 0 <= n < d.len() && d[n] == g;
    lemma_doubles(c, g[0]);
    let q = choose|q: int| 0 <= q < c.len() && d[n] == rank::ranked(ByFilePath, #[trigger] c[q]);
    crate::rank::ranking_orders(ByFilePath, c[q]);
    lemma_songs(sorted);
    assert(one_song(runs[r]));
    assert forall|k: int| 0 <= k < g.len() implies runs[r].contains(#[trigger] g[k])
        && tracks.contains(g[k]) && comparable(g[k]) by {
        let t = g[k];
        assert(g.contains(t));
        lemma_occurs(g, t);
        lemma_ranked_occurrences(ByFilePath, c[q], t);
        lemma_occurs(c[q], t);
        lemma_flat_member(c, q, t);
        lemma_clusters(runs[r], tolerance, t);
        lemma_occurs(runs[r], t);
        lemma_flat_member(runs, r, t);
        lemma_ranked_occurrences(BySong, kept, t);
        lemma_filter_occurrences(tracks, t);
        lemma_occurs(tracks, t);
    }
    assert forall|a: int, b: int| 0 <= a < g.len() && 0 <= b < g.len() implies same_song(
        #[trigger] g[a],
        #[trigger] g[b],
    ) by {
        let x = choose|x: int| 0 <= x < runs[r].len() && runs[r][x] == g[a];
        let y = choose|y: int| 0 <= y < runs[r].len() && runs[r][y] == g[b];
        assert(same_song(runs[r][x], runs[r][y]));
    }
}

/// Neighbours that are linked stay together.
spec fn runs(s: Seq<Track>, linked: spec_fn(Track, Track) -> bool) -> Seq<Seq<Track>>
    decreases s.len(),
{
    if s.len() == 0 {
        Seq::empty()
    } else {
        let front = runs(s.drop_last(), linked);
        if front.len() > 0 && front.last().len() > 0 && linked(front.last().last(), s.last()) {
            front.drop_last().push(front.last().push(s.last()))
        } else {
            front.push(seq![s.last()])
        }
    }
}

proof fn lemma_songs_are_runs(s: Seq<Track>)
    ensures
        songs(s) == runs(s, |a: Track, b: Track| same_song(a, b)),
    decreases s.len(),
{
    if s.len() > 0 {
        lemma_songs_are_runs(s.drop_last());
    }
}

proof fn lemma_chains_are_runs(s: Seq<Track>, tolerance: u64)
    ensures
        chains(s, tolerance) == runs(s, |a: Track, b: Track| within(a, b, tolerance)),
    decreases s.len(),
{
    if s.len() > 0 {
        lemma_chains_are_runs(s.drop_last(), tolerance);
    }
}

/// The same sets of tracks, one by one.
spec fn alike(a: Seq<Seq<Track>>, b: Seq<Seq<Track>>) -> bool {
    &&& a.len() == b.len()
    &&& forall|k: int| 0 <= k < a.len() ==> (#[trigger] a[k]).to_multiset() == b[k].to_multiset()
}

/// All tracks of some sets are among those of a sequence.
spec fn among(sets: Seq<Seq<Track>>, s: Seq<Track>) -> bool {
    forall|k: int, i: int|
        0 <= k < sets.len() && 0 <= i < sets[k].len() ==> s.contains(#[trigger] sets[k][i])
}

/// Two orderings of the same tracks are cut at the same places, where the rank
/// changes.
spec fn cut_alike<O: Order<Track>>(
    o: O,
    a: Seq<Track>,
    b: Seq<Track>,
    linked: spec_fn(Track, Track) -> bool,
) -> bool {
    &&& rank::in_order(o, a)
    &&& rank::in_order(o, b)
    &&& a.to_multiset() == b.to_multiset()
    &&& a.len() == b.len()
    &&& forall|i: int|
        0 < i < a.len() ==> linked(a[i - 1], #[trigger] a[i]) == linked(b[i - 1], #[trigger] b[i])
    &&& forall|i: int|
        0 < i < a.len() && !linked(a[i - 1], #[trigger] a[i]) ==> o.before(a[i - 1], a[i])
}

/// The last run is what stands behind the cut, in front of which both
/// orderings hold the same tracks.
spec fn open_run(a: Seq<Track>, b: Seq<Track>, x: Seq<Track>, y: Seq<Track>, m: int) -> bool {
    let c = m - x.len();
    &&& 0 <= c < m
    &&& x == a.subrange(c, m)
    &&& y == b.subrange(c, m)
    &&& a.take(c).to_multiset() == b.take(c).to_multiset()
}

proof fn lemma_closed_run(a: Seq<Track>, b: Seq<Track>, c: int, m: int)
    requires
        a.len() == b.len(),
        0 <= c <= m <= a.len(),
        a.take(c).to_multiset() == b.take(c).to_multiset(),
        a.take(m).to_multiset() == b.take(m).to_multiset(),
    ensures
        a.subrange(c, m).to_multiset() == b.subrange(c, m).to_multiset(),
{
    vstd::seq_lib::lemma_multiset_commutative(a.take(c), a.subrange(c, m));
    vstd::seq_lib::lemma_multiset_commutative(b.take(c), b.subrange(c, m));
    assert(a.take(m) =~= a.take(c) + a.subrange(c, m));
    assert(b.take(m) =~= b.take(c) + b.subrange(c, m));
    let x = a.subrange(c, m).to_multiset();
    let y = b.subrange(c, m).to_multiset();
    assert forall|t: Track| x.count(t) == y.count(t) by {
        assert(a.take(m).to_multiset().count(t) == a.take(c).to_multiset().count(t) + x.count(t));
        assert(b.take(m).to_multiset().count(t) == b.take(c).to_multiset().count(t) + y.count(t));
    }
    assert(x =~= y);
}

proof fn lemma_runs_alike<O: Order<Track>>(
    o: O,
    a: Seq<Track>,
    b: Seq<Track>,
    linked: spec_fn(Track, Track) -> bool,
    m: int,
)
    requires
        cut_alike(o, a, b, linked),
        0 < m <= a.len(),
    ensures
        ({
            let x = runs(a.take(m), linked);
            let y = runs(b.take(m), linked);
            &&& x.len() > 0
            &&& alike(x.drop_last(), y.drop_last())
            &&& x.len() == y.len()
            &&& open_run(a, b, x.last(), y.last(), m)
            &&& among(x, a)
        }),
    decreases m,
{
    let x = runs(a.take(m), linked);
    let y = runs(b.take(m), linked);
    let p = runs(a.take(m - 1), linked);
    let q = runs(b.take(m - 1), linked);
    assert(a.take(m).drop_last() =~= a.take(m - 1));
    assert(b.take(m).drop_last() =~= b.take(m - 1));
    assert(a.take(m).last() == a[m - 1] && b.take(m).last() == b[m - 1]);
    if m == 1 {
        assert(x =~= seq![seq![a[0]]]);
        assert(y =~= seq![seq![b[0]]]);
        assert(a.subrange(0, 1) =~= seq![a[0]]);
        assert(b.subrange(0, 1) =~= seq![b[0]]);
        assert(a.take(0) =~= b.take(0));
    } else {
        lemma_runs_alike(o, a, b, linked, m - 1);
        let c = m - 1 - p.last().len();
        assert(p.last().last() == a[m - 2]);
        assert(q.last().last() == b[m - 2]);
        assert(linked(a[m - 2], a[m - 1]) == linked(b[m - 2], b[m - 1]));
        if linked(a[m - 2], a[m - 1]) {
            assert(x =~= p.drop_last().push(p.last().push(a[m - 1])));
            assert(y =~= q.drop_last().push(q.last().push(b[m - 1])));
            assert(x.drop_last() =~= p.drop_last());
            assert(y.drop_last() =~= q.drop_last());
            assert(x.last() =~= a.subrange(c, m));
            assert(y.last() =~= b.subrange(c, m));
        } else {
            rank::fronts_are_the_same(o, a, b, m - 1);
            lemma_closed_run(a, b, c, m - 1);
            assert(x =~= p.push(seq![a[m - 1]]));
            assert(y =~= q.push(seq![b[m - 1]]));
            assert(x.drop_last() =~= p);
            assert(y.drop_last() =~= q);
            assert forall|k: int| 0 <= k < p.len() implies (#[trigger] p[k]).to_multiset()
                == q[k].to_multiset() by {
                if k < p.len() - 1 {
                    assert(p.drop_last()[k] == p[k] && q.drop_last()[k] == q[k]);
                }
            }
            assert(x.last() =~= a.subrange(m - 1, m));
            assert(y.last() =~= b.subrange(m - 1, m));
        }
        assert forall|k: int, i: int| 0 <= k < x.len() && 0 <= i < x[k].len() implies a.contains(
            #[trigger] x[k][i],
        ) by {
            if k < p.len() && i < p[k].len() {
                assert(x[k][i] == p[k][i]);
            } else {
                assert(a[m - 1] == x[k][i]);
            }
        }
    }
}

proof fn lemma_whole_runs_alike<O: Order<Track>>(
    o: O,
    a: Seq<Track>,
    b: Seq<Track>,
    linked: spec_fn(Track, Track) -> bool,
)
    requires
        cut_alike(o, a, b, linked),
    ensures
        alike(runs(a, linked), runs(b, linked)),
        among(runs(a, linked), a),
{
    if a.len() > 0 {
        let n = a.len() as int;
        lemma_runs_alike(o, a, b, linked, n);
        assert(a.take(n) =~= a);
        assert(b.take(n) =~= b);
        let x = runs(a, linked);
        let y = runs(b, linked);
        lemma_closed_run(a, b, n - x.last().len(), n);
        assert forall|k: int| 0 <= k < x.len() implies (#[trigger] x[k]).to_multiset()
            == y[k].to_multiset() by {
            if k < x.len() - 1 {
                assert(x.drop_last()[k] == x[k] && y.drop_last()[k] == y[k]);
            }
        }
    }
}

proof fn lemma_filter_count(s: Seq<Track>, p: spec_fn(Track) -> bool, t: Track)
    ensures
        s.filter(p).to_multiset().count(t) == (if p(t) {
            s.to_multiset().count(t)
        } else {
            0
        }),
    decreases s.len(),
{
    broadcast use vstd::seq_lib::group_to_multiset_ensures;

    reveal(Seq::filter);
    if s.len() > 0 {
        let front = s.drop_last();
        lemma_filter_count(front, p, t);
        assert(s =~= front.push(s.last()));
        assert(s.to_multiset() == front.to_multiset().insert(s.last()));
    } else {
        assert(s.filter(p) =~= s);
        assert(!s.contains(t));
    }
}

proof fn lemma_filters_alike(a: Seq<Track>, b: Seq<Track>, p: spec_fn(Track) -> bool)
    requires
        a.to_multiset() == b.to_multiset(),
    ensures
        a.filter(p).to_multiset() == b.filter(p).to_multiset(),
{
    assert forall|t: Track|
        a.filter(p).to_multiset().count(t) == b.filter(p).to_multiset().count(t) by {
        lemma_filter_count(a, p, t);
        lemma_filter_count(b, p, t);
    }
    assert(a.filter(p).to_multiset() =~= b.filter(p).to_multiset());
}

/// Tracks with the same path are the same.
spec fn told_apart(s: Seq<Track>) -> bool {
    forall|i: int, j: int|
        0 <= i < s.len() && 0 <= j < s.len() && (#[trigger] s[i]).file_path@ == (
        #[trigger] s[j]).file_path@ ==> s[i] == s[j]
}

proof fn lemma_part_told_apart(whole: Seq<Track>, part: Seq<Track>)
    requires
        told_apart(whole),
        forall|i: int| 0 <= i < part.len() ==> whole.contains(#[trigger] part[i]),
    ensures
        told_apart(part),
{
    assert forall|i: int, j: int|
        0 <= i < part.len() && 0 <= j < part.len() && (#[trigger] part[i]).file_path@ == (
        #[trigger] part[j]).file_path@ implies part[i] == part[j] by {
        let x = choose|x: int| 0 <= x < whole.len() && whole[x] == part[i];
        let y = choose|y: int| 0 <= y < whole.len() && whole[y] == part[j];
        assert(whole[x].file_path@ == whole[y].file_path@);
    }
}

proof fn lemma_songs_alike(a: Seq<Track>, b: Seq<Track>)
    requires
        a.to_multiset() == b.to_multiset(),
    ensures
        alike(songs(rank::ranked(BySong, a)), songs(rank::ranked(BySong, b))),
        among(songs(rank::ranked(BySong, a)), a),
{
    broadcast use vstd::seq_lib::group_to_multiset_ensures;

    let linked = |x: Track, y: Track| same_song(x, y);
    let x = rank::ranked(BySong, a);
    let y = rank::ranked(BySong, b);
    rank::ranking_orders(BySong, a);
    rank::ranking_orders(BySong, b);
    lemma_songs_are_runs(x);
    lemma_songs_are_runs(y);
    assert(x.len() == x.to_multiset().len() && y.len() == y.to_multiset().len());
    assert forall|i: int| 0 <= i < x.len() implies same_song(#[trigger] x[i], #[trigger] y[i]) by {
        rank::orderings_are_level(BySong, x, y, i);
        text::text_order_is_total(title_part(x[i]), title_part(y[i]));
        text::text_order_is_total(artist_part(x[i]), artist_part(y[i]));
    }
    assert forall|i: int| 0 < i < x.len() implies linked(x[i - 1], #[trigger] x[i]) == linked(
        y[i - 1],
        #[trigger] y[i],
    ) by {
        assert(same_song(x[i - 1], y[i - 1]) && same_song(x[i], y[i]));
    }
    assert forall|i: int|
        0 < i < x.len() && !linked(x[i - 1], #[trigger] x[i]) implies BySong.before(x[i - 1], x[i]) by {
        assert(!BySong.before(x[i], x[i - 1]));
        text::text_order_is_total(title_part(x[i - 1]), title_part(x[i]));
        text::text_order_is_total(artist_part(x[i - 1]), artist_part(x[i]));
    }
    lemma_whole_runs_alike(BySong, x, y, linked);
    let all = songs(x);
    assert forall|k: int, i: int| 0 <= k < all.len() && 0 <= i < all[k].len() implies a.contains(
        #[trigger] all[k][i],
    ) by {
        rank::ranking_keeps_members(BySong, a, all[k][i]);
    }
}

proof fn lemma_chains_alike(a: Seq<Track>, b: Seq<Track>, tolerance: u64)
    requires
        a.to_multiset() == b.to_multiset(),
        forall|i: int| 0 <= i < a.len() ==> (#[trigger] a[i]).duration_nanos is Some,
    ensures
        alike(
            chains(rank::ranked(ByLength, a), tolerance),
            chains(rank::ranked(ByLength, b), tolerance),
        ),
        among(chains(rank::ranked(ByLength, a), tolerance), a),
{
    broadcast use vstd::seq_lib::group_to_multiset_ensures;

    let linked = |x: Track, y: Track| within(x, y, tolerance);
    let x = rank::ranked(ByLength, a);
    let y = rank::ranked(ByLength, b);
    rank::ranking_orders(ByLength, a);
    rank::ranking_orders(ByLength, b);
    lemma_chains_are_runs(x, tolerance);
    lemma_chains_are_runs(y, tolerance);
    assert(x.len() == x.to_multiset().len() && y.len() == y.to_multiset().len());
    assert forall|i: int| 0 <= i < x.len() implies (#[trigger] x[i]).duration_nanos is Some && x[i].duration_nanos
        == (#[trigger] y[i]).duration_nanos by {
        rank::orderings_are_level(ByLength, x, y, i);
        assert(x.contains(x[i]));
        rank::ranking_keeps_members(ByLength, a, x[i]);
        let m = choose|m: int| 0 <= m < a.len() && a[m] == x[i];
        assert(a[m].duration_nanos is Some);
    }
    assert forall|i: int| 0 < i < x.len() implies linked(x[i - 1], #[trigger] x[i]) == linked(
        y[i - 1],
        #[trigger] y[i],
    ) by {
        assert(x[i - 1].duration_nanos == y[i - 1].duration_nanos);
        assert(x[i].duration_nanos == y[i].duration_nanos);
    }
    assert forall|i: int|
        0 < i < x.len() && !linked(x[i - 1], #[trigger] x[i]) implies ByLength.before(
        x[i - 1],
        x[i],
    ) by {
        assert(!ByLength.before(x[i], x[i - 1]));
        assert(x[i - 1].duration_nanos == y[i - 1].duration_nanos);
        assert(x[i].duration_nanos == y[i].duration_nanos);
    }
    lemma_whole_runs_alike(ByLength, x, y, linked);
    let all = chains(x, tolerance);
    assert forall|k: int, i: int| 0 <= k < all.len() && 0 <= i < all[k].len() implies a.contains(
        #[trigger] all[k][i],
    ) by {
        rank::ranking_keeps_members(ByLength, a, all[k][i]);
    }
}

proof fn lemma_clusters_alike(a: Seq<Track>, b: Seq<Track>, tolerance: u64)
    requires
        a.to_multiset() == b.to_multiset(),
    ensures
        alike(clusters(a, tolerance), clusters(b, tolerance)),
        among(clusters(a, tolerance), a),
{
    let yes = |t: Track| t.duration_nanos is Some;
    let no = |t: Track| t.duration_nanos is None;
    let known = a.filter(yes);
    let unknown = a.filter(no);
    lemma_filters_alike(a, b, yes);
    lemma_filters_alike(a, b, no);
    assert forall|i: int| 0 <= i < known.len() implies (#[trigger] known[i]).duration_nanos is Some by {
        a.lemma_filter_pred(yes, i);
    }
    lemma_chains_alike(known, b.filter(yes), tolerance);
    let x = chains(rank::ranked(ByLength, known), tolerance);
    let y = chains(rank::ranked(ByLength, b.filter(yes)), tolerance);
    let p = clusters(a, tolerance);
    let q = clusters(b, tolerance);
    if x.len() > 0 {
        vstd::seq_lib::lemma_multiset_commutative(x[0], unknown);
        vstd::seq_lib::lemma_multiset_commutative(y[0], b.filter(no));
        assert forall|k: int| 0 <= k < p.len() implies (#[trigger] p[k]).to_multiset()
            == q[k].to_multiset() by {
            assert(x[k].to_multiset() == y[k].to_multiset());
            if k == 0 {
                assert(p[0] == x[0] + unknown);
                assert(q[0] == y[0] + b.filter(no));
            }
        }
    }
    assert forall|k: int, i: int| 0 <= k < p.len() && 0 <= i < p[k].len() implies a.contains(
        #[trigger] p[k][i],
    ) by {
        if x.len() > 0 && i < x[k].len() {
            assert(p[k][i] == x[k][i]);
            a.lemma_filter_contains_rev(yes, x[k][i]);
        } else {
            let j = if x.len() > 0 {
                i - x[k].len()
            } else {
                i
            };
            assert(unknown[j] == p[k][i]);
            a.lemma_filter_contains_rev(no, p[k][i]);
        }
    }
}

proof fn lemma_doubles_step(c: Seq<Seq<Track>>)
    requires
        c.len() > 0,
    ensures
        doubles(c) == (if c.last().len() >= 2 {
            doubles(c.drop_last()).push(rank::ranked(ByFilePath, c.last()))
        } else {
            doubles(c.drop_last())
        }),
{
    reveal(Seq::filter);
    let two = |g: Seq<Track>| g.len() >= 2;
    let by_path = |g: Seq<Track>| rank::ranked(ByFilePath, g);
    let front = c.drop_last().filter(two);
    if c.last().len() >= 2 {
        assert(c.filter(two) == front.push(c.last()));
        assert(front.push(c.last()).map_values(by_path) =~= front.map_values(by_path).push(
            by_path(c.last()),
        ));
    } else {
        assert(c.filter(two) == front);
    }
}

proof fn lemma_doubles_alike(a: Seq<Seq<Track>>, b: Seq<Seq<Track>>)
    requires
        alike(a, b),
        forall|k: int| 0 <= k < a.len() ==> told_apart(#[trigger] a[k]),
    ensures
        doubles(a) == doubles(b),
    decreases a.len(),
{
    broadcast use vstd::seq_lib::group_to_multiset_ensures;

    if a.len() > 0 {
        let n = a.len() as int;
        let x = a.drop_last();
        let y = b.drop_last();
        assert forall|k: int| 0 <= k < x.len() implies (#[trigger] x[k]).to_multiset()
            == y[k].to_multiset() && told_apart(x[k]) by {
            assert(x[k] == a[k] && y[k] == b[k]);
        }
        lemma_doubles_alike(x, y);
        lemma_doubles_step(a);
        lemma_doubles_step(b);
        let g = a[n - 1];
        let h = b[n - 1];
        assert(g.to_multiset() == h.to_multiset());
        assert(g.len() == g.to_multiset().len() && h.len() == h.to_multiset().len());
        rank::ranking_orders(ByFilePath, g);
        rank::ranking_orders(ByFilePath, h);
        let u = rank::ranked(ByFilePath, g);
        assert forall|i: int| 0 <= i < u.len() implies g.contains(#[trigger] u[i]) by {
            assert(u.contains(u[i]));
            rank::ranking_keeps_members(ByFilePath, g, u[i]);
        }
        lemma_part_told_apart(g, u);
        assert forall|i: int, j: int|
            0 <= i < u.len() && 0 <= j < u.len() && rank::level(
                ByFilePath,
                #[trigger] u[i],
                #[trigger] u[j],
            ) implies u[i] == u[j] by {
            text::text_order_is_total(u[i].file_path@, u[j].file_path@);
        }
        rank::strict_order_is_unique(ByFilePath, u, rank::ranked(ByFilePath, h));
    } else {
        assert(a =~= b);
    }
}

proof fn lemma_all_doubles_alike(
    a: Seq<Seq<Track>>,
    b: Seq<Seq<Track>>,
    whole: Seq<Track>,
    tolerance: u64,
)
    requires
        alike(a, b),
        among(a, whole),
        told_apart(whole),
    ensures
        all_doubles(a, tolerance) == all_doubles(b, tolerance),
    decreases a.len(),
{
    if a.len() > 0 {
        let n = a.len() as int;
        let x = a.drop_last();
        let y = b.drop_last();
        assert forall|k: int| 0 <= k < x.len() implies (#[trigger] x[k]).to_multiset()
            == y[k].to_multiset() by {
            assert(x[k] == a[k] && y[k] == b[k]);
        }
        assert forall|k: int, i: int| 0 <= k < x.len() && 0 <= i < x[k].len() implies whole.contains(
            #[trigger] x[k][i],
        ) by {
            assert(x[k][i] == a[k][i]);
        }
        lemma_all_doubles_alike(x, y, whole, tolerance);
        assert(a[n - 1].to_multiset() == b[n - 1].to_multiset());
        lemma_clusters_alike(a[n - 1], b[n - 1], tolerance);
        let g = a[n - 1];
        let c = clusters(g, tolerance);
        assert forall|k: int| 0 <= k < c.len() implies told_apart(#[trigger] c[k]) by {
            assert forall|i: int| 0 <= i < c[k].len() implies whole.contains(#[trigger] c[k][i]) by {
                assert(g.contains(c[k][i]));
                let m = choose|m: int| 0 <= m < g.len() && g[m] == c[k][i];
                assert(whole.contains(a[n - 1][m]));
            }
            lemma_part_told_apart(whole, c[k]);
        }
        lemma_doubles_alike(c, clusters(b[n - 1], tolerance));
    }
}

/// The groups do not depend on the order in which the tracks come, where no
/// two of them have the same path.
pub proof fn order_of_tracks_does_not_matter(a: Seq<Track>, b: Seq<Track>, tolerance: u64)
    requires
        a.to_multiset() == b.to_multiset(),
        forall|i: int, j: int|
            0 <= i < j < a.len() ==> (#[trigger] a[i]).file_path@ != (#[trigger] a[j]).file_path@,
    ensures
        groups(a, tolerance) == groups(b, tolerance),
{
    let fits = |t: Track| comparable(t);
    let x = a.filter(fits);
    lemma_filters_alike(a, b, fits);
    lemma_songs_alike(x, b.filter(fits));
    assert(told_apart(a));
    assert forall|i: int| 0 <= i < x.len() implies a.contains(#[trigger] x[i]) by {
        assert(x.contains(x[i]));
        a.lemma_filter_contains_rev(fits, x[i]);
    }
    lemma_part_told_apart(a, x);
    lemma_all_doubles_alike(
        songs(rank::ranked(BySong, x)),
        songs(rank::ranked(BySong, b.filter(fits))),
        x,
        tolerance,
    );
}

/// Tracks in the order of their lengths, which are all known.
spec fn by_known_length(s: Seq<Track>) -> bool {
    &&& forall|i: int| 0 <= i < s.len() ==> (#[trigger] s[i]).duration_nanos is Some
    &&& forall|i: int, j: int|
        0 <= i <= j < s.len() ==> (#[trigger] s[i]).duration_nanos->0 <= (
        #[trigger] s[j]).duration_nanos->0
}

/// Tracks in the order of their lengths, with no step over the tolerance.
spec fn close_steps(s: Seq<Track>, tolerance: u64) -> bool {
    &&& by_known_length(s)
    &&& forall|i: int| 0 < i < s.len() ==> #[trigger] small_step(s, i, tolerance)
}

/// The step to a length from the one in front is within the tolerance.
spec fn small_step(s: Seq<Track>, i: int, tolerance: u64) -> bool {
    s[i].duration_nanos->0 - s[i - 1].duration_nanos->0 <= tolerance
}

proof fn lemma_known_ranked(s: Seq<Track>)
    requires
        forall|i: int| 0 <= i < s.len() ==> (#[trigger] s[i]).duration_nanos is Some,
    ensures
        by_known_length(rank::ranked(ByLength, s)),
{
    let r = rank::ranked(ByLength, s);
    rank::ranking_orders(ByLength, s);
    assert forall|i: int| 0 <= i < r.len() implies (#[trigger] r[i]).duration_nanos is Some by {
        assert(r.contains(r[i]));
        rank::ranking_keeps_members(ByLength, s, r[i]);
        let k = choose|k: int| 0 <= k < s.len() && s[k] == r[i];
        assert(s[k].duration_nanos is Some);
    }
    assert forall|i: int, j: int| 0 <= i <= j < r.len() implies (#[trigger] r[i]).duration_nanos->0 <= (
    #[trigger] r[j]).duration_nanos->0 by {
        if i < j {
            assert(!ByLength.before(r[j], r[i]));
        }
    }
}

proof fn lemma_chain_steps(s: Seq<Track>, tolerance: u64)
    requires
        by_known_length(s),
    ensures
        s.len() > 0 ==> chains(s, tolerance).len() > 0 && chains(s, tolerance).last().len() > 0
            && chains(s, tolerance).last().last() == s.last(),
        forall|k: int|
            0 <= k < chains(s, tolerance).len() ==> close_steps(
                #[trigger] chains(s, tolerance)[k],
                tolerance,
            ),
        forall|k: int, i: int|
            0 <= k < chains(s, tolerance).len() && 0 <= i < chains(s, tolerance)[k].len()
                ==> s.contains(#[trigger] chains(s, tolerance)[k][i]),
    decreases s.len(),
{
    if s.len() > 0 {
        let rest = s.drop_last();
        assert(by_known_length(rest));
        lemma_chain_steps(rest, tolerance);
        let front = chains(rest, tolerance);
        let all = chains(s, tolerance);
        assert(s.last() == s[s.len() - 1]);
        assert forall|k: int| 0 <= k < all.len() implies close_steps(#[trigger] all[k], tolerance) by {
            if k < front.len() - 1 || (k < front.len() && all[k] == front[k]) {
                assert(all[k] == front[k]);
            } else if k == front.len() - 1 {
                let run = front.last();
                assert(close_steps(front[k], tolerance));
                assert(run == front[k]);
                let next = run.push(s.last());
                assert(all[k] == next);
                assert(run.last() == rest.last());
                assert(rest.last() == s[s.len() - 2]);
                assert(run[run.len() - 1] == run.last());
                assert forall|i: int, j: int| 0 <= i <= j < next.len() implies (
                #[trigger] next[i]).duration_nanos->0 <= (#[trigger] next[j]).duration_nanos->0 by {
                    if j == run.len() && i < run.len() {
                        assert(run[i].duration_nanos->0 <= run[run.len() - 1].duration_nanos->0);
                        assert(s[s.len() - 2].duration_nanos->0 <= s[s.len() - 1].duration_nanos->0);
                    }
                }
                assert forall|i: int| 0 < i < next.len() implies #[trigger] small_step(
                    next,
                    i,
                    tolerance,
                ) by {
                    if i < run.len() {
                        assert(small_step(run, i, tolerance));
                    }
                }
            } else {
                assert(all[k] =~= seq![s.last()]);
            }
        }
        assert forall|k: int, i: int| 0 <= k < all.len() && 0 <= i < all[k].len() implies s.contains(
            #[trigger] all[k][i],
        ) by {
            if k < front.len() && i < front[k].len() {
                assert(all[k][i] == front[k][i]);
                assert(rest.contains(front[k][i]));
                let m = choose|m: int| 0 <= m < rest.len() && rest[m] == front[k][i];
                assert(s[m] == front[k][i]);
            } else {
                assert(s[s.len() - 1] == all[k][i]);
            }
        }
    }
}

proof fn lemma_no_gap(h: Seq<Track>, tolerance: u64, p: int, r: int)
    requires
        close_steps(h, tolerance),
        0 <= p < r < h.len(),
        h[p].duration_nanos->0 < h[r].duration_nanos->0,
        forall|k: int|
            0 <= k < h.len() ==> !(h[p].duration_nanos->0 < (#[trigger] h[k]).duration_nanos->0
                < h[r].duration_nanos->0),
    ensures
        h[r].duration_nanos->0 - h[p].duration_nanos->0 <= tolerance,
    decreases r - p,
{
    let z = h[p + 1];
    assert(h[p].duration_nanos->0 <= z.duration_nanos->0 <= h[r].duration_nanos->0);
    if z.duration_nanos->0 == h[p].duration_nanos->0 {
        lemma_no_gap(h, tolerance, p + 1, r);
    } else {
        assert(z.duration_nanos->0 == h[r].duration_nanos->0);
        assert(small_step(h, p + 1, tolerance));
    }
}

/// Where a group comes from: a cluster of the run of one song.
spec fn group_of_cluster(tracks: Seq<Track>, tolerance: u64, g: Seq<Track>, r: int, q: int) -> bool {
    let runs = songs(rank::ranked(BySong, tracks.filter(|t: Track| comparable(t))));
    &&& 0 <= r < runs.len()
    &&& 0 <= q < clusters(runs[r], tolerance).len()
    &&& g == rank::ranked(ByFilePath, clusters(runs[r], tolerance)[q])
}

proof fn lemma_group_cluster(tracks: Seq<Track>, tolerance: u64, i: int)
    requires
        0 <= i < groups(tracks, tolerance).len(),
    ensures
        exists|r: int, q: int|
            group_of_cluster(tracks, tolerance, groups(tracks, tolerance)[i], r, q),
{
    let runs = songs(rank::ranked(BySong, tracks.filter(|t: Track| comparable(t))));
    let g = groups(tracks, tolerance)[i];
    lemma_origin(runs, tolerance, i);
    let r = choose|r: int| from_run(runs, tolerance, g, r);
    let c = clusters(runs[r], tolerance);
    let d = doubles(c);
    let n = choose|n: int| 0 <= n < d.len() && d[n] == g;
    lemma_doubles(c, g[0]);
    let q = choose|q: int| 0 <= q < c.len() && d[n] == rank::ranked(ByFilePath, #[trigger] c[q]);
    assert(group_of_cluster(tracks, tolerance, g, r, q));
}

/// The lengths in a group leave no gap over the tolerance: two known lengths
/// with none of the group between them differ by no more than it.
pub proof fn groups_leave_no_gap(tracks: Seq<Track>, tolerance: u64, i: int, a: int, b: int)
    requires
        0 <= i < groups(tracks, tolerance).len(),
        0 <= a < groups(tracks, tolerance)[i].len(),
        0 <= b < groups(tracks, tolerance)[i].len(),
        groups(tracks, tolerance)[i][a].duration_nanos is Some,
        groups(tracks, tolerance)[i][b].duration_nanos is Some,
        groups(tracks, tolerance)[i][a].duration_nanos->0 <= groups(
            tracks,
            tolerance,
        )[i][b].duration_nanos->0,
        forall|k: int|
            0 <= k < groups(tracks, tolerance)[i].len() && (#[trigger] groups(
                tracks,
                tolerance,
            )[i][k]).duration_nanos is Some ==> !(groups(tracks, tolerance)[i][a].duration_nanos->0
                < groups(tracks, tolerance)[i][k].duration_nanos->0 < groups(
                tracks,
                tolerance,
            )[i][b].duration_nanos->0),
    ensures
        groups(tracks, tolerance)[i][b].duration_nanos->0 - groups(
            tracks,
            tolerance,
        )[i][a].duration_nanos->0 <= tolerance,
{
    let g = groups(tracks, tolerance)[i];
    let x = g[a].duration_nanos->0;
    let y = g[b].duration_nanos->0;
    if x < y {
        lemma_group_cluster(tracks, tolerance, i);
        let (r, q) = choose|r: int, q: int| group_of_cluster(tracks, tolerance, g, r, q);
        let runs = songs(rank::ranked(BySong, tracks.filter(|t: Track| comparable(t))));
        let song = runs[r];
        let yes = |t: Track| t.duration_nanos is Some;
        let no = |t: Track| t.duration_nanos is None;
        let known = rank::ranked(ByLength, song.filter(yes));
        let unknown = song.filter(no);
        let c = chains(known, tolerance);
        let cluster = clusters(song, tolerance)[q];
        assert forall|k: int| 0 <= k < song.filter(yes).len() implies (#[trigger] song.filter(
            yes,
        )[k]).duration_nanos is Some by {
            song.lemma_filter_pred(yes, k);
        }
        assert forall|k: int| 0 <= k < unknown.len() implies (#[trigger] unknown[k]).duration_nanos is None by {
            song.lemma_filter_pred(no, k);
        }
        lemma_known_ranked(song.filter(yes));
        lemma_chain_steps(known, tolerance);
        rank::ranking_keeps_members(ByFilePath, cluster, g[a]);
        rank::ranking_keeps_members(ByFilePath, cluster, g[b]);
        assert(g.contains(g[a]) && g.contains(g[b]));
        let u = choose|u: int| 0 <= u < cluster.len() && cluster[u] == g[a];
        let v = choose|v: int| 0 <= v < cluster.len() && cluster[v] == g[b];
        assert(c.len() > 0) by {
            if c.len() == 0 {
                assert(cluster == unknown);
                assert(unknown[u].duration_nanos is None);
            }
        }
        let h = c[q];
        assert(close_steps(h, tolerance));
        assert(u < h.len()) by {
            if u >= h.len() {
                assert(cluster[u] == unknown[u - h.len()]);
            }
        }
        assert(v < h.len()) by {
            if v >= h.len() {
                assert(cluster[v] == unknown[v - h.len()]);
            }
        }
        assert(h[u] == g[a] && h[v] == g[b]);
        assert(u < v) by {
            if v <= u {
                assert(h[v].duration_nanos->0 <= h[u].duration_nanos->0);
            }
        }
        assert forall|k: int| 0 <= k < h.len() implies !(x < (#[trigger] h[k]).duration_nanos->0 < y) by {
            assert(cluster[k] == h[k]);
            assert(cluster.contains(h[k]));
            rank::ranking_keeps_members(ByFilePath, cluster, h[k]);
            let w = choose|w: int| 0 <= w < g.len() && g[w] == h[k];
            assert(groups(tracks, tolerance)[i][w].duration_nanos is Some);
        }
        lemma_no_gap(h, tolerance, u, v);
    }
}

/// Whoever is near a track is linked to it step by step.
spec fn steps_link(
    s: Seq<Track>,
    linked: spec_fn(Track, Track) -> bool,
    near: spec_fn(Track, Track) -> bool,
) -> bool {
    forall|i: int, j: int|
        0 <= i < j < s.len() && near(#[trigger] s[i], #[trigger] s[j]) ==> linked(s[j - 1], s[j]) && (
        i < j - 1 ==> near(s[i], s[j - 1]))
}

/// Some set holds both tracks.
spec fn share_a_set(sets: Seq<Seq<Track>>, a: Track, b: Track) -> bool {
    exists|k: int| 0 <= k < sets.len() && (#[trigger] sets[k]).contains(a) && sets[k].contains(b)
}

proof fn lemma_push_holds(s: Seq<Track>, x: Track, t: Track)
    requires
        s.contains(t) || x == t,
    ensures
        s.push(x).contains(t),
{
    if s.contains(t) {
        let k = choose|k: int| 0 <= k < s.len() && s[k] == t;
        assert(s.push(x)[k] == t);
    } else {
        assert(s.push(x)[s.len() as int] == t);
    }
}

proof fn lemma_near_share(
    s: Seq<Track>,
    linked: spec_fn(Track, Track) -> bool,
    near: spec_fn(Track, Track) -> bool,
)
    requires
        steps_link(s, linked, near),
    ensures
        s.len() > 0 ==> runs(s, linked).len() > 0 && runs(s, linked).last().len() > 0 && runs(
            s,
            linked,
        ).last().last() == s.last(),
        forall|i: int|
            0 <= i < s.len() - 1 && near(#[trigger] s[i], s.last()) ==> runs(
                s,
                linked,
            ).last().contains(s[i]),
        forall|i: int, j: int|
            0 <= i < j < s.len() && near(#[trigger] s[i], #[trigger] s[j]) ==> share_a_set(
                runs(s, linked),
                s[i],
                s[j],
            ),
        s.len() > 0 ==> runs(s, linked)[0].contains(s[0]),
        forall|j: int|
            0 < j < s.len() && near(s[0], #[trigger] s[j]) ==> runs(s, linked)[0].contains(s[j]),
        s.len() > 1 && near(s[0], s.last()) ==> runs(s, linked).len() == 1,
        s.len() == 1 ==> runs(s, linked).len() == 1,
    decreases s.len(),
{
    if s.len() > 0 {
        let rest = s.drop_last();
        let n = s.len() as int;
        let x = s.last();
        assert(x == s[n - 1]);
        assert(steps_link(rest, linked, near)) by {
            assert forall|i: int, j: int|
                0 <= i < j < rest.len() && near(#[trigger] rest[i], #[trigger] rest[j]) implies linked(
                rest[j - 1],
                rest[j],
            ) && (i < j - 1 ==> near(rest[i], rest[j - 1])) by {
                assert(rest[i] == s[i] && rest[j] == s[j] && rest[j - 1] == s[j - 1]);
            }
        }
        lemma_near_share(rest, linked, near);
        let front = runs(rest, linked);
        let all = runs(s, linked);
        let joined = front.len() > 0 && front.last().len() > 0 && linked(front.last().last(), x);
        if n == 1 {
            assert(all =~= seq![seq![x]]);
            assert(seq![x][0] == x);
        } else {
            assert(rest.last() == s[n - 2]);
            assert(rest[0] == s[0]);
            assert(joined == linked(s[n - 2], s[n - 1]));
            if joined {
                assert(all.last() == front.last().push(x));
                assert(all.len() == front.len());
            } else {
                assert(all.last() == seq![x]);
                assert(seq![x].last() == x);
            }
            assert forall|i: int| 0 <= i < n - 1 && near(#[trigger] s[i], x) implies all.last().contains(
                s[i],
            ) by {
                assert(near(s[i], s[n - 1]));
                assert(joined);
                if i < n - 2 {
                    assert(near(s[i], s[n - 2]));
                    assert(rest[i] == s[i]);
                    assert(near(rest[i], rest.last()));
                } else {
                    assert(front.last()[front.last().len() - 1] == s[i]);
                }
                lemma_push_holds(front.last(), x, s[i]);
            }
            lemma_push_holds(all.last().drop_last(), x, x);
            assert(all.last() =~= all.last().drop_last().push(x));
            assert forall|i: int, j: int| 0 <= i < j < n && near(#[trigger] s[i], #[trigger] s[j]) implies share_a_set(
                all,
                s[i],
                s[j],
            ) by {
                if j < n - 1 {
                    assert(rest[i] == s[i] && rest[j] == s[j]);
                    assert(share_a_set(front, s[i], s[j]));
                    let k = choose|k: int|
                        0 <= k < front.len() && (#[trigger] front[k]).contains(s[i])
                            && front[k].contains(s[j]);
                    if joined && k == front.len() - 1 {
                        lemma_push_holds(front[k], x, s[i]);
                        lemma_push_holds(front[k], x, s[j]);
                        assert(all[k] == front[k].push(x));
                    } else {
                        assert(all[k] == front[k]);
                    }
                    assert(all[k].contains(s[i]) && all[k].contains(s[j]));
                } else {
                    assert(all[all.len() - 1].contains(s[i]));
                    assert(all[all.len() - 1].contains(s[j]));
                }
            }
            assert forall|t: Track| #[trigger] front[0].contains(t) implies all[0].contains(t) by {
                if joined && front.len() == 1 {
                    lemma_push_holds(front[0], x, t);
                }
            }
            assert forall|j: int| 0 < j < n && near(s[0], #[trigger] s[j]) implies all[0].contains(
                s[j],
            ) by {
                if j < n - 1 {
                    assert(rest[j] == s[j]);
                    assert(front[0].contains(s[j]));
                } else {
                    assert(joined);
                    if n > 2 {
                        assert(near(s[0], s[n - 2]));
                    }
                    assert(front.len() == 1);
                    assert(all.last() == all[0]);
                }
            }
            if near(s[0], x) {
                assert(near(s[0], s[n - 1]));
                assert(joined);
                if n > 2 {
                    assert(near(s[0], s[n - 2]));
                }
            }
        }
    }
}

proof fn lemma_two_members(s: Seq<Track>, a: Track, b: Track)
    requires
        s.contains(a),
        s.contains(b),
        a != b,
    ensures
        s.len() >= 2,
{
    let x = choose|x: int| 0 <= x < s.len() && s[x] == a;
    let y = choose|y: int| 0 <= y < s.len() && s[y] == b;
    assert(x != y);
}

proof fn lemma_doubles_hold(c: Seq<Seq<Track>>, k: int)
    requires
        0 <= k < c.len(),
        c[k].len() >= 2,
    ensures
        doubles(c).contains(rank::ranked(ByFilePath, c[k])),
    decreases c.len(),
{
    lemma_doubles_step(c);
    let before = doubles(c.drop_last());
    let g = rank::ranked(ByFilePath, c[k]);
    if k < c.len() - 1 {
        assert(c.drop_last()[k] == c[k]);
        lemma_doubles_hold(c.drop_last(), k);
        let n = choose|n: int| 0 <= n < before.len() && before[n] == g;
        assert(doubles(c)[n] == g);
    } else {
        assert(doubles(c)[before.len() as int] == g);
    }
}

proof fn lemma_all_doubles_hold(runs: Seq<Seq<Track>>, tolerance: u64, r: int, g: Seq<Track>)
    requires
        0 <= r < runs.len(),
        doubles(clusters(runs[r], tolerance)).contains(g),
    ensures
        all_doubles(runs, tolerance).contains(g),
    decreases runs.len(),
{
    let before = all_doubles(runs.drop_last(), tolerance);
    let here = doubles(clusters(runs.last(), tolerance));
    let all = all_doubles(runs, tolerance);
    if r < runs.len() - 1 {
        assert(runs.drop_last()[r] == runs[r]);
        lemma_all_doubles_hold(runs.drop_last(), tolerance, r, g);
        let n = choose|n: int| 0 <= n < before.len() && before[n] == g;
        assert(all[n] == g);
    } else {
        let n = choose|n: int| 0 <= n < here.len() && here[n] == g;
        assert(all[before.len() + n] == g);
    }
}

/// The run of a song: it holds both tracks.
proof fn lemma_song_run(tracks: Seq<Track>, a: Track, b: Track) -> (r: int)
    requires
        tracks.contains(a),
        tracks.contains(b),
        a != b,
        comparable(a),
        comparable(b),
        same_song(a, b),
    ensures
        ({
            let all = songs(rank::ranked(BySong, tracks.filter(|t: Track| comparable(t))));
            0 <= r < all.len() && all[r].contains(a) && all[r].contains(b)
        }),
{
    let fits = |t: Track| comparable(t);
    let kept = tracks.filter(fits);
    let s = rank::ranked(BySong, kept);
    let linked = |x: Track, y: Track| same_song(x, y);
    rank::ranking_orders(BySong, kept);
    let ia = choose|i: int| 0 <= i < tracks.len() && tracks[i] == a;
    let ib = choose|i: int| 0 <= i < tracks.len() && tracks[i] == b;
    tracks.lemma_filter_contains(fits, ia);
    tracks.lemma_filter_contains(fits, ib);
    rank::ranking_keeps_members(BySong, kept, a);
    rank::ranking_keeps_members(BySong, kept, b);
    let x = choose|x: int| 0 <= x < s.len() && s[x] == a;
    let y = choose|y: int| 0 <= y < s.len() && s[y] == b;
    assert(steps_link(s, linked, linked)) by {
        assert forall|i: int, j: int|
            0 <= i < j < s.len() && linked(#[trigger] s[i], #[trigger] s[j]) implies linked(
            s[j - 1],
            s[j],
        ) && (i < j - 1 ==> linked(s[i], s[j - 1])) by {
            if i < j - 1 {
                assert(!BySong.before(s[j - 1], s[i]));
                assert(!BySong.before(s[j], s[j - 1]));
                text::text_order_is_total(title_part(s[i]), title_part(s[j - 1]));
                text::text_order_is_total(artist_part(s[i]), artist_part(s[j - 1]));
            }
        }
    }
    lemma_near_share(s, linked, linked);
    lemma_songs_are_runs(s);
    if x < y {
        assert(linked(s[x], s[y]));
    } else {
        assert(linked(s[y], s[x]));
    }
    let all = songs(s);
    let k = choose|k: int|
        0 <= k < all.len() && (#[trigger] all[k]).contains(s[x]) && all[k].contains(s[y]);
    k
}

/// Some group holds both tracks.
pub open spec fn share_a_group(tracks: Seq<Track>, tolerance: u64, a: Track, b: Track) -> bool {
    exists|i: int|
        0 <= i < groups(tracks, tolerance).len() && (#[trigger] groups(tracks, tolerance)[i]).contains(
            a,
        ) && groups(tracks, tolerance)[i].contains(b)
}

proof fn lemma_cluster_groups(tracks: Seq<Track>, tolerance: u64, r: int, q: int, a: Track, b: Track)
    requires
        ({
            let all = songs(rank::ranked(BySong, tracks.filter(|t: Track| comparable(t))));
            &&& 0 <= r < all.len()
            &&& 0 <= q < clusters(all[r], tolerance).len()
            &&& clusters(all[r], tolerance)[q].contains(a)
            &&& clusters(all[r], tolerance)[q].contains(b)
        }),
        a != b,
    ensures
        share_a_group(tracks, tolerance, a, b),
{
    let all = songs(rank::ranked(BySong, tracks.filter(|t: Track| comparable(t))));
    let c = clusters(all[r], tolerance);
    lemma_two_members(c[q], a, b);
    lemma_doubles_hold(c, q);
    let g = rank::ranked(ByFilePath, c[q]);
    lemma_all_doubles_hold(all, tolerance, r, g);
    rank::ranking_keeps_members(ByFilePath, c[q], a);
    rank::ranking_keeps_members(ByFilePath, c[q], b);
    let i = choose|i: int|
        0 <= i < groups(tracks, tolerance).len() && groups(tracks, tolerance)[i] == g;
    assert(groups(tracks, tolerance)[i].contains(a) && groups(tracks, tolerance)[i].contains(b));
}

proof fn lemma_known_share(s: Seq<Track>, tolerance: u64)
    requires
        by_known_length(s),
    ensures
        steps_link(
            s,
            |x: Track, y: Track| within(x, y, tolerance),
            |x: Track, y: Track| y.duration_nanos->0 - x.duration_nanos->0 <= tolerance,
        ),
{
    let linked = |x: Track, y: Track| within(x, y, tolerance);
    let near = |x: Track, y: Track| y.duration_nanos->0 - x.duration_nanos->0 <= tolerance;
    assert forall|i: int, j: int|
        0 <= i < j < s.len() && near(#[trigger] s[i], #[trigger] s[j]) implies linked(s[j - 1], s[j])
        && (i < j - 1 ==> near(s[i], s[j - 1])) by {
        assert(s[i].duration_nanos->0 <= s[j - 1].duration_nanos->0 <= s[j].duration_nanos->0);
    }
}

/// Two tracks of the library with the same title and artist, as they are
/// compared, whose known lengths differ by no more than the tolerance are in
/// one group.
pub proof fn close_lengths_share_a_group(tracks: Seq<Track>, tolerance: u64, a: Track, b: Track)
    requires
        tracks.contains(a),
        tracks.contains(b),
        a != b,
        title_part(a).len() > 0,
        title_part(a) == title_part(b),
        artist_part(a) == artist_part(b),
        a.duration_nanos is Some,
        b.duration_nanos is Some,
        -tolerance <= a.duration_nanos->0 - b.duration_nanos->0 <= tolerance,
    ensures
        share_a_group(tracks, tolerance, a, b),
{
    let r = lemma_song_run(tracks, a, b);
    let song = songs(rank::ranked(BySong, tracks.filter(|t: Track| comparable(t))))[r];
    let yes = |t: Track| t.duration_nanos is Some;
    let no = |t: Track| t.duration_nanos is None;
    let picked = song.filter(yes);
    let known = rank::ranked(ByLength, picked);
    let linked = |x: Track, y: Track| within(x, y, tolerance);
    let near = |x: Track, y: Track| y.duration_nanos->0 - x.duration_nanos->0 <= tolerance;
    assert forall|k: int| 0 <= k < picked.len() implies (#[trigger] picked[k]).duration_nanos is Some by {
        song.lemma_filter_pred(yes, k);
    }
    lemma_known_ranked(picked);
    lemma_known_share(known, tolerance);
    lemma_near_share(known, linked, near);
    lemma_chains_are_runs(known, tolerance);
    let ia = choose|i: int| 0 <= i < song.len() && song[i] == a;
    let ib = choose|i: int| 0 <= i < song.len() && song[i] == b;
    song.lemma_filter_contains(yes, ia);
    song.lemma_filter_contains(yes, ib);
    rank::ranking_keeps_members(ByLength, picked, a);
    rank::ranking_keeps_members(ByLength, picked, b);
    let x = choose|x: int| 0 <= x < known.len() && known[x] == a;
    let y = choose|y: int| 0 <= y < known.len() && known[y] == b;
    if x < y {
        assert(near(known[x], known[y]));
    } else {
        assert(near(known[y], known[x]));
    }
    let c = chains(known, tolerance);
    let q = choose|q: int| 0 <= q < c.len() && (#[trigger] c[q]).contains(a) && c[q].contains(b);
    let cluster = clusters(song, tolerance)[q];
    assert forall|t: Track| #[trigger] c[q].contains(t) implies cluster.contains(t) by {
        let k = choose|k: int| 0 <= k < c[q].len() && c[q][k] == t;
        assert(cluster[k] == t);
    }
    lemma_cluster_groups(tracks, tolerance, r, q, a, b);
}

/// A track of unknown length is in one group with every other of unknown length
/// that carries the same title and artist, and with the shortest of known
/// length.
pub proof fn unknown_lengths_join_the_first(tracks: Seq<Track>, tolerance: u64, a: Track, b: Track)
    requires
        tracks.contains(a),
        tracks.contains(b),
        a != b,
        title_part(a).len() > 0,
        title_part(a) == title_part(b),
        artist_part(a) == artist_part(b),
        a.duration_nanos is None,
        b.duration_nanos is Some ==> forall|t: Track| #[trigger]
            tracks.contains(t) && title_part(t) == title_part(b) && artist_part(t) == artist_part(b)
                && t.duration_nanos is Some ==> b.duration_nanos->0 <= t.duration_nanos->0,
    ensures
        share_a_group(tracks, tolerance, a, b),
{
    let r = lemma_song_run(tracks, a, b);
    let fits = |t: Track| comparable(t);
    let kept = tracks.filter(fits);
    let sorted = rank::ranked(BySong, kept);
    let song = songs(sorted)[r];
    let yes = |t: Track| t.duration_nanos is Some;
    let no = |t: Track| t.duration_nanos is None;
    let picked = song.filter(yes);
    let unknown = song.filter(no);
    let known = rank::ranked(ByLength, picked);
    let c = chains(known, tolerance);
    let linked = |x: Track, y: Track| within(x, y, tolerance);
    let near = |x: Track, y: Track| y.duration_nanos->0 - x.duration_nanos->0 <= tolerance;
    let ia = choose|i: int| 0 <= i < song.len() && song[i] == a;
    let ib = choose|i: int| 0 <= i < song.len() && song[i] == b;
    song.lemma_filter_contains(no, ia);
    let ua = choose|u: int| 0 <= u < unknown.len() && unknown[u] == a;
    let first = clusters(song, tolerance)[0];
    assert(first.contains(a)) by {
        if c.len() == 0 {
            assert(first == unknown);
        } else {
            assert(first[c[0].len() + ua] == a);
        }
    }
    assert forall|k: int| 0 <= k < picked.len() implies (#[trigger] picked[k]).duration_nanos is Some by {
        song.lemma_filter_pred(yes, k);
    }
    lemma_known_ranked(picked);
    lemma_known_share(known, tolerance);
    lemma_near_share(known, linked, near);
    lemma_chains_are_runs(known, tolerance);
    if b.duration_nanos is None {
        song.lemma_filter_contains(no, ib);
        let ub = choose|u: int| 0 <= u < unknown.len() && unknown[u] == b;
        assert(first.contains(b)) by {
            if c.len() == 0 {
                assert(first == unknown);
            } else {
                assert(first[c[0].len() + ub] == b);
            }
        }
    } else {
        song.lemma_filter_contains(yes, ib);
        rank::ranking_keeps_members(ByLength, picked, b);
        let y = choose|y: int| 0 <= y < known.len() && known[y] == b;
        let t = known[0];
        assert(tracks.contains(t) && same_song(t, b)) by {
            assert(known.contains(t));
            rank::ranking_keeps_members(ByLength, picked, t);
            song.lemma_filter_contains_rev(yes, t);
            lemma_songs(sorted);
            assert(one_song(song));
            let k = choose|k: int| 0 <= k < song.len() && song[k] == t;
            assert(same_song(song[k], song[ib]));
            lemma_occurs(song, t);
            lemma_flat_member(songs(sorted), r, t);
            lemma_occurs(sorted, t);
            rank::ranking_keeps_members(BySong, kept, t);
            tracks.lemma_filter_contains_rev(fits, t);
        }
        assert(known[0].duration_nanos is Some);
        assert(c[0].contains(b)) by {
            if y > 0 {
                assert(near(known[0], known[y]));
            }
        }
        let k = choose|k: int| 0 <= k < c[0].len() && c[0][k] == b;
        assert(first[k] == b);
    }
    lemma_cluster_groups(tracks, tolerance, r, 0, a, b);
}

/// The stem of a file is its name, whatever folder it lies in and whatever its
/// extension is.
pub proof fn stems_are_names(folder: Seq<char>, slash: char, name: Seq<char>, ext: Seq<char>)
    requires
        slash == '/' || slash == '\\',
        !name.contains('/') && !name.contains('\\'),
        !ext.contains('/') && !ext.contains('\\') && !ext.contains('.'),
    ensures
        stem(folder.push(slash) + name + seq!['.'] + ext) == name,
        stem(name + seq!['.'] + ext) == name,
{
    let file = name + seq!['.'] + ext;
    assert forall|i: int| 0 <= i < file.len() implies (#[trigger] file[i]) != '/' && file[i] != '\\' by {
        if i < name.len() {
            assert(file[i] == name[i]);
            assert(name.contains(name[i]));
        } else if i > name.len() {
            assert(file[i] == ext[i - name.len() - 1]);
            assert(ext.contains(ext[i - name.len() - 1]));
        } else {
            assert(file[i] == '.');
        }
    }
    lemma_behind(folder.push(slash), file);
    lemma_behind(Seq::empty(), file);
    let whole = folder.push(slash) + name + seq!['.'] + ext;
    assert(whole =~= folder.push(slash) + file);
    assert(whole.skip(folder.len() as int + 1) =~= file);
    assert(Seq::<char>::empty() + file =~= file);
    assert(file.skip(0) =~= file);
    assert forall|i: int| 0 <= i < ext.len() implies (#[trigger] ext[i]) != '.' by {
        assert(ext.contains(ext[i]));
    }
    lemma_last_dot(name, ext);
    assert(file.subrange(0, name.len() as int) =~= name);
    assert(behind_slash(file) == 0);
    assert(behind_slash(whole) == folder.len() + 1);
    assert(stem(file) == name);
    assert(stem(whole) == stem(file));
}

proof fn lemma_behind(head: Seq<char>, tail: Seq<char>)
    requires
        head.len() == 0 || head.last() == '/' || head.last() == '\\',
        forall|i: int| 0 <= i < tail.len() ==> (#[trigger] tail[i]) != '/' && tail[i] != '\\',
    ensures
        behind_slash(head + tail) == head.len(),
    decreases tail.len(),
{
    let s = head + tail;
    if tail.len() > 0 {
        assert(s.drop_last() =~= head + tail.drop_last());
        assert(s.last() == tail[tail.len() - 1]);
        lemma_behind(head, tail.drop_last());
    } else {
        assert(s =~= head);
    }
}

proof fn lemma_last_dot(name: Seq<char>, ext: Seq<char>)
    requires
        forall|i: int| 0 <= i < ext.len() ==> (#[trigger] ext[i]) != '.',
    ensures
        kind::last_dot(name + seq!['.'] + ext) == name.len(),
    decreases ext.len(),
{
    let s = name + seq!['.'] + ext;
    if ext.len() > 0 {
        assert(s.drop_last() =~= name + seq!['.'] + ext.drop_last());
        assert(s.last() == ext[ext.len() - 1]);
        lemma_last_dot(name, ext.drop_last());
    } else {
        assert(s.last() == '.');
    }
}

/// A copy is told by its number: the name of a file with a number in brackets
/// behind it loses the number, and other names stay.
pub proof fn copy_numbers_are_dropped(name: Seq<char>, digits: Seq<char>)
    requires
        digits.len() > 0,
        forall|i: int| 0 <= i < digits.len() ==> '0' <= (#[trigger] digits[i]) <= '9',
    ensures
        without_copy_number(name + seq!['('] + digits + seq![')']) == name,
        name.len() == 0 || name.last() != ')' ==> without_copy_number(name) == name,
{
    let s = name + seq!['('] + digits + seq![')'];
    lemma_digits_from(s, name.len() as int + 1, s.len() - 1);
    assert(s.take(name.len() as int) =~= name);
}

proof fn lemma_digits_from(s: Seq<char>, first: int, end: int)
    requires
        0 < first <= end <= s.len(),
        forall|i: int| first <= i < end ==> text::is_digit(#[trigger] s[i]),
        !text::is_digit(s[first - 1]),
    ensures
        digits_from(s, end) == first,
    decreases end,
{
    if first < end {
        lemma_digits_from(s, first, end - 1);
    }
}

proof fn lemma_filter_map_add(a: Seq<char>, b: Seq<char>, f: spec_fn(char) -> Option<char>)
    ensures
        (a + b).filter_map(f) == a.filter_map(f) + b.filter_map(f),
    decreases b.len(),
{
    if b.len() > 0 {
        let s = a + b;
        assert(s.drop_last() =~= a + b.drop_last());
        lemma_filter_map_add(a, b.drop_last(), f);
        assert(s.filter_map(f) =~= a.filter_map(f) + b.filter_map(f));
    } else {
        assert(a + b =~= a);
        assert(b.filter_map(f) =~= Seq::empty());
        assert(a.filter_map(f) + Seq::<char>::empty() =~= a.filter_map(f));
    }
}

/// How ASCII texts are compared: apostrophes count for nothing, any other
/// punctuation counts as a blank, and capitals count as small letters.
pub proof fn spelling_is_forgiven(a: Seq<char>, c: char, b: Seq<char>)
    requires
        text::is_ascii_text(a),
        text::is_ascii_text(b),
        c as int <= 127,
    ensures
        c == '\'' || c == '`' ==> normalized(a + seq![c] + b) == normalized(a + b),
        c != '\'' && c != '`' && !('a' <= c <= 'z') && !('A' <= c <= 'Z') && !('0' <= c <= '9')
            ==> normalized(a + seq![c] + b) == normalized(a + seq![' '] + b),
        'A' <= c <= 'Z' ==> normalized(a + seq![c] + b) == normalized(
            a + seq![((c as u32 + 32) as u32) as char] + b,
        ),
{
    let f = |x: char| plain_char(x);
    let low = if 'A' <= c <= 'Z' {
        ((c as u32 + 32) as u32) as char
    } else {
        c
    };
    lemma_plain_parts(a, c, b);
    lemma_plain_parts(a, ' ', b);
    lemma_plain_parts(a, low, b);
    assert(text::lowered(a + b) =~= text::lowered(a) + text::lowered(b));
    lemma_filter_map_add(text::lowered(a), text::lowered(b), f);
    let kept = text::lowered(a).filter_map(f);
    assert(kept + Seq::<char>::empty() =~= kept);
}

proof fn lemma_plain_parts(a: Seq<char>, c: char, b: Seq<char>)
    requires
        text::is_ascii_text(a),
        text::is_ascii_text(b),
        c as int <= 127,
    ensures
        text::lowered(a + seq![c] + b).filter_map(|x: char| plain_char(x)) == text::lowered(
            a,
        ).filter_map(|x: char| plain_char(x)) + (match plain_char(text::fold_char(c)) {
            Some(x) => seq![x],
            None => Seq::empty(),
        }) + text::lowered(b).filter_map(|x: char| plain_char(x)),
{
    let f = |x: char| plain_char(x);
    let one = seq![c];
    let mid = seq![text::fold_char(c)];
    assert(text::is_ascii_text(a + one + b)) by {
        assert forall|i: int| 0 <= i < (a + one + b).len() implies (#[trigger] (a + one + b)[i]) as int
            <= 127 by {
            if i < a.len() {
                assert(a[i] as int <= 127);
            } else if i > a.len() {
                assert(b[i - a.len() - 1] as int <= 127);
            }
        }
    }
    assert(text::lowered(a + one + b) =~= text::lowered(a) + mid + text::lowered(b));
    lemma_filter_map_add(text::lowered(a) + mid, text::lowered(b), f);
    lemma_filter_map_add(text::lowered(a), mid, f);
    assert(mid.drop_last() =~= Seq::empty());
    assert(mid.last() == text::fold_char(c));
    assert(mid.drop_last().filter_map(f) =~= Seq::<char>::empty());
    match f(mid.last()) {
        Some(x) => {
            assert(mid.filter_map(f) =~= seq![x]);
        },
        None => {
            assert(mid.filter_map(f) =~= Seq::empty());
        },
    }
}

/// A song is told by its title, whatever its file is called, as long as the
/// title has a letter or a digit; without one, by the name of its file, whatever
/// folder or number of a copy it has. An artist that is not said is none.
pub proof fn songs_are_told_by_title(a: Track, b: Track)
    ensures
        a.title is Some && b.title is Some && normalized(a.title->0@) == normalized(b.title->0@)
            && normalized(a.title->0@).len() > 0 ==> title_part(a) == title_part(b) && title_part(a)
            == normalized(a.title->0@),
        (a.title is None || normalized(a.title->0@).len() == 0) && (b.title is None || normalized(
            b.title->0@,
        ).len() == 0) && normalized(stem(a.file_name@)) == normalized(stem(b.file_name@)) && without_copy_number(
            stem(a.file_name@),
        ) == stem(a.file_name@) && without_copy_number(stem(b.file_name@)) == stem(b.file_name@)
            ==> title_part(a) == title_part(b) && title_part(a) == normalized(stem(a.file_name@)),
        a.title is None && b.title is None && without_copy_number(stem(a.file_name@))
            == without_copy_number(stem(b.file_name@)) && normalized(
            without_copy_number(stem(a.file_name@)),
        ).len() > 0 ==> title_part(a) == title_part(b),
        a.artist is Some && b.artist is Some && normalized(a.artist->0@) == normalized(b.artist->0@)
            ==> artist_part(a) == artist_part(b),
        a.artist is None && b.artist is None ==> artist_part(a) == artist_part(b),
        a.artist is Some ==> artist_part(a) == normalized(a.artist->0@),
        same_song(a, b) <==> title_part(a) == title_part(b) && artist_part(a) == artist_part(b),
{
}

/// A group is shown by the first of its tracks: its title, or the name of its
/// file, and its artist, or nothing.
pub proof fn groups_show_their_first(g: DuplicateGroup, members: Seq<Track>)
    requires
        shows_group(g, members),
    ensures
        g.tracks@ == members,
        members[0].title is Some ==> g.title@ == members[0].title->0@,
        members[0].title is None ==> g.title@ == members[0].file_name@,
        members[0].artist is Some ==> g.artist@ == members[0].artist->0@,
        members[0].artist is None ==> g.artist@.len() == 0,
{
}

/// A file whose name is nothing but the number of a copy keeps it: only what
/// leaves something to tell is dropped.
pub proof fn bare_numbers_are_kept(file_name: Seq<char>)
    ensures
        normalized(without_copy_number(stem(file_name))).len() == 0 ==> normalized_stem(file_name)
            == normalized(stem(file_name)),
        normalized(without_copy_number(stem(file_name))).len() > 0 ==> normalized_stem(file_name)
            == normalized(without_copy_number(stem(file_name))),
{
}

} // verus!
