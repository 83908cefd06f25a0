//! The station role of a track, told from its path.

use vstd::prelude::*;
use vstd::string::*;

use crate::text::{chars_of, contains_text, is_alnum, same_text, split, text_of, to_lower};
use crate::text;

verus! {

/// What a track *is* for station purposes. Jingles, bumpers, sweepers, ids and
/// ads are plain audio files: the kind only changes how the station treats
/// them.
#[derive(Debug, Clone, Copy, PartialEq, Eq, Structural)]
pub enum TrackKind {
    Music,
    Jingle,
    Ad,
}

/// The stored name of a kind.
pub open spec fn kind_name(k: TrackKind) -> Seq<char> {
    match k {
        TrackKind::Music => "music"@,
        TrackKind::Jingle => "jingle"@,
        TrackKind::Ad => "ad"@,
    }
}

/// The kind that a stored name stands for; unknown names are music.
pub open spec fn kind_from_name(s: Seq<char>) -> TrackKind {
    let n = text::lowered(s);
    if n == "jingle"@ || n == "bumper"@ || n == "sweeper"@ || n == "id"@ || n == "stationid"@ || n
        == "toth"@ {
        TrackKind::Jingle
    } else if n == "ad"@ || n == "advert"@ || n == "commercial"@ || n == "promo"@ {
        TrackKind::Ad
    } else {
        TrackKind::Music
    }
}

/// The words of a text: its runs of letters and digits, with the empty runs
/// between neighbouring separators.
pub open spec fn words(s: Seq<char>) -> Seq<Seq<char>>
    decreases s.len(),
{
    if s.len() == 0 {
        seq![s]
    } else {
        let front = words(s.drop_last());
        if !text::is_alnum_char(s.last()) {
            front.push(Seq::empty())
        } else {
            front.drop_last().push(front.last().push(s.last()))
        }
    }
}

/// Whole words that mark a jingle.
pub open spec fn jingle_word(w: Seq<char>) -> bool {
    w == "jingle"@ || w == "jingles"@ || w == "bumper"@ || w == "bumpers"@ || w == "sweeper"@ || w
        == "sweepers"@ || w == "stationid"@ || w == "toth"@ || w == "stinger"@ || w == "stingers"@ || w
        == "beds"@ || w == "liners"@ || w == "drops"@ || w == "id"@ || w == "ids"@
}

/// Whole words that mark an ad.
pub open spec fn ad_word(w: Seq<char>) -> bool {
    w == "ad"@ || w == "ads"@ || w == "advert"@ || w == "adverts"@ || w == "commercial"@ || w
        == "commercials"@ || w == "promo"@ || w == "promos"@ || w == "spot"@ || w == "spots"@ || w
        == "iklan"@
}

/// Longer keys that mark a jingle anywhere in a text.
pub open spec fn jingle_key(s: Seq<char>) -> bool {
    text::holds(s, "jingle"@) || text::holds(s, "bumper"@) || text::holds(s, "sweeper"@) || text::holds(s, "stationid"@)
        || text::holds(s, "stinger"@) || text::holds(s, "liners"@)
}

/// Longer keys that mark an ad anywhere in a text.
pub open spec fn ad_key(s: Seq<char>) -> bool {
    text::holds(s, "advert"@) || text::holds(s, "commercial"@)
}

/// A text speaks of jingles.
pub open spec fn jingle_text(s: Seq<char>) -> bool {
    (exists|i: int| 0 <= i < words(s).len() && jingle_word(#[trigger] words(s)[i])) || jingle_key(s)
}

/// A text speaks of ads.
pub open spec fn ad_text(s: Seq<char>) -> bool {
    (exists|i: int| 0 <= i < words(s).len() && ad_word(#[trigger] words(s)[i])) || ad_key(s)
}

/// A piece of a path that names something: not empty and not the place itself.
pub open spec fn names_something(piece: Seq<char>) -> bool {
    piece.len() > 0 && piece != "."@
}

/// The index of the last piece that names something, and minus one where
/// there is none.
pub open spec fn last_name(pieces: Seq<Seq<char>>) -> int
    decreases pieces.len(),
{
    if pieces.len() == 0 {
        -1
    } else if names_something(pieces.last()) {
        pieces.len() - 1
    } else {
        last_name(pieces.drop_last())
    }
}

/// The index of the last dot of a name, and minus one where there is none.
pub open spec fn last_dot(name: Seq<char>) -> int
    decreases name.len(),
{
    if name.len() == 0 {
        -1
    } else if name.last() == '.' {
        name.len() - 1
    } else {
        last_dot(name.drop_last())
    }
}

/// A file name without its extension; a dot in front starts no extension.
pub open spec fn stem(name: Seq<char>) -> Seq<char> {
    if last_dot(name) > 0 {
        name.subrange(0, last_dot(name))
    } else {
        name
    }
}

/// The folders of a path: all of it before its last name.
pub open spec fn folder_part(path: Seq<char>) -> Seq<char> {
    let pieces = text::split_at(path, '/');
    let n = last_name(pieces);
    if n < 0 {
        Seq::empty()
    } else {
        crate::text::join(pieces.subrange(0, n), seq!['/'])
    }
}

/// The stem of a path's last name; nothing when it leads upwards.
pub open spec fn stem_part(path: Seq<char>) -> Seq<char> {
    let pieces = text::split_at(path, '/');
    let n = last_name(pieces);
    if n < 0 || pieces[n] == ".."@ {
        Seq::empty()
    } else {
        stem(pieces[n])
    }
}

/// The kind of a track from its folders and its stem, both in lower case.
/// Folders speak first; jingles win over ads.
pub open spec fn kind_from_parts(folders: Seq<char>, name: Seq<char>) -> TrackKind {
    if jingle_text(folders) {
        TrackKind::Jingle
    } else if ad_text(folders) {
        TrackKind::Ad
    } else if jingle_text(name) {
        TrackKind::Jingle
    } else if ad_text(name) {
        TrackKind::Ad
    } else {
        TrackKind::Music
    }
}

/// The kind of a track from its path.
pub open spec fn kind_from_path(path: Seq<char>) -> TrackKind {
    kind_from_parts(text::lowered(folder_part(path)), text::lowered(stem_part(path)))
}

/// The words of a text.
fn split_words(s: &str) -> (r: Vec<String>)
    ensures
        text::texts(r@) == words(s@),
{
    let v = chars_of(s);
    let mut done: Vec<String> = Vec::new();
    let mut cur = String::new();
    let mut i: usize = 0;
    assert(s@.subrange(0, 0) =~= cur@);
    assert(text::texts(done@).push(cur@) =~= words(s@.subrange(0, 0)));
    while i < v.len()
        invariant
            i <= v.len(),
            v@ == s@,
            text::texts(done@).push(cur@) == words(s@.subrange(0, i as int)),
        decreases v.len() - i,
    {
        assert(s@.subrange(0, i + 1).drop_last() =~= s@.subrange(0, i as int));
        let ghost before = text::texts(done@).push(cur@);
        if !is_alnum(v[i]) {
            done.push(cur);
            assert(text::texts(done@) =~= before);
            cur = String::new();
        } else {
            assert(before.drop_last() =~= text::texts(done@));
            cur.push(v[i]);
        }
        i = i + 1;
    }
    assert(s@.subrange(0, i as int) =~= s@);
    let ghost before = text::texts(done@).push(cur@);
    done.push(cur);
    assert(text::texts(done@) =~= before);
    done
}

fn is_jingle_word(w: &str) -> (r: bool)
    ensures
        r == jingle_word(w@),
{
    same_text(w, "jingle") || same_text(w, "jingles") || same_text(w, "bumper") || same_text(
        w,
        "bumpers",
    ) || same_text(w, "sweeper") || same_text(w, "sweepers") || same_text(w, "stationid")
        || same_text(w, "toth") || same_text(w, "stinger") || same_text(w, "stingers") || same_text(
        w,
        "beds",
    ) || same_text(w, "liners") || same_text(w, "drops") || same_text(w, "id") || same_text(w, "ids")
}

fn is_ad_word(w: &str) -> (r: bool)
    ensures
        r == ad_word(w@),
{
    same_text(w, "ad") || same_text(w, "ads") || same_text(w, "advert") || same_text(w, "adverts")
        || same_text(w, "commercial") || same_text(w, "commercials") || same_text(w, "promo")
        || same_text(w, "promos") || same_text(w, "spot") || same_text(w, "spots") || same_text(
        w,
        "iklan",
    )
}

/// Whether a text speaks of jingles.
fn speaks_of_jingles(s: &str) -> (r: bool)
    ensures
        r == jingle_text(s@),
{
    let parts = split_words(s);
    let mut i: usize = 0;
    while i < parts.len()
        invariant
            i <= parts.len(),
            text::texts(parts@) == words(s@),
            forall|j: int| 0 <= j < i ==> !jingle_word(#[trigger] words(s@)[j]),
        decreases parts.len() - i,
    {
        assert(words(s@)[i as int] == parts@[i as int]@);
        if is_jingle_word(parts[i].as_str()) {
            return true;
        }
        i = i + 1;
    }
    assert(words(s@).len() == parts@.len());
    contains_text(s, "jingle") || contains_text(s, "bumper") || contains_text(s, "sweeper")
        || contains_text(s, "stationid") || contains_text(s, "stinger") || contains_text(s, "liners")
}

/// Whether a text speaks of ads.
fn speaks_of_ads(s: &str) -> (r: bool)
    ensures
        r == ad_text(s@),
{
    let parts = split_words(s);
    let mut i: usize = 0;
    while i < parts.len()
        invariant
            i <= parts.len(),
            text::texts(parts@) == words(s@),
            forall|j: int| 0 <= j < i ==> !ad_word(#[trigger] words(s@)[j]),
        decreases parts.len() - i,
    {
        assert(words(s@)[i as int] == parts@[i as int]@);
        if is_ad_word(parts[i].as_str()) {
            return true;
        }
        i = i + 1;
    }
    assert(words(s@).len() == parts@.len());
    contains_text(s, "advert") || contains_text(s, "commercial")
}

/// A file name without its extension.
pub fn stem_of(name: &str) -> (r: String)
    ensures
        r@ == stem(name@),
{
    let v = chars_of(name);
    let mut i: usize = v.len();
    assert(name@.subrange(0, i as int) =~= name@);
    while i > 0 && v[i - 1] != '.'
        invariant
            i <= v.len(),
            v@ == name@,
            last_dot(name@) == last_dot(name@.subrange(0, i as int)),
        decreases i,
    {
        assert(name@.subrange(0, i as int).drop_last() =~= name@.subrange(0, i - 1));
        i = i - 1;
    }
    if i > 1 {
        text_of(vstd::slice::slice_subrange(v.as_slice(), 0, i - 1))
    } else {
        name.to_owned()
    }
}

/// The folders of a path and the stem of its last name.
fn path_parts(path: &str) -> (r: (String, String))
    ensures
        r.0@ == folder_part(path@),
        r.1@ == stem_part(path@),
{
    let pieces = split(path, '/');
    let ghost all = text::texts(pieces@);
    let mut n: usize = pieces.len();
    assert(all.subrange(0, n as int) =~= all);
    while n > 0 && (pieces[n - 1].as_str().is_empty() || same_text(pieces[n - 1].as_str(), "."))
        invariant
            n <= pieces.len(),
            all == text::texts(pieces@),
            last_name(all) == last_name(all.subrange(0, n as int)),
        decreases n,
    {
        assert(all.subrange(0, n as int).drop_last() =~= all.subrange(0, n - 1));
        assert(all[n - 1] == pieces@[n - 1]@);
        n = n - 1;
    }
    if n == 0 {
        return (String::new(), String::new());
    }
    let last: usize = n - 1;
    assert(all[last as int] == pieces@[last as int]@);
    assert(all.subrange(0, n as int).last() == all[last as int]);
    let mut folders = String::new();
    let mut i: usize = 0;
    while i < last
        invariant
            i <= last < pieces.len(),
            all == text::texts(pieces@),
            folders@ == crate::text::join(all.subrange(0, i as int), seq!['/']),
        decreases last - i,
    {
        let ghost next = all.subrange(0, i + 1);
        assert(next.drop_last() =~= all.subrange(0, i as int));
        assert(next.last() == pieces@[i as int]@);
        if i > 0 {
            folders.push('/');
        }
        folders.append(pieces[i].as_str());
        assert(folders@ =~= crate::text::join(next, seq!['/']));
        i = i + 1;
    }
    let name = if same_text(pieces[last].as_str(), "..") {
        String::new()
    } else {
        stem_of(pieces[last].as_str())
    };
    (folders, name)
}

impl TrackKind {
    /// The stored name of this kind.
    pub fn as_str(self) -> (r: &'static str)
        ensures
            r@ == kind_name(self),
    {
        match self {
            TrackKind::Music => "music",
            TrackKind::Jingle => "jingle",
            TrackKind::Ad => "ad",
        }
    }

    /// The kind that a stored name stands for; unknown names are music.
    pub fn parse(s: &str) -> (r: Self)
        ensures
            r == kind_from_name(s@),
    {
        let l = to_lower(s);
        let n = l.as_str();
        if same_text(n, "jingle") || same_text(n, "bumper") || same_text(n, "sweeper") || same_text(
            n,
            "id",
        ) || same_text(n, "stationid") || same_text(n, "toth") {
            TrackKind::Jingle
        } else if same_text(n, "ad") || same_text(n, "advert") || same_text(n, "commercial")
            || same_text(n, "promo") {
            TrackKind::Ad
        } else {
            TrackKind::Music
        }
    }

    /// Guess the kind from a file path with `/` between its parts (folders
    /// like `Jingles/`, `Ads/`). Short keys count as whole words only, so
    /// `Downloads/`, `Spotify/` or `Bedroom Mix` do not misfire; a few long
    /// keys also count inside longer words.
    pub fn classify_path(path: &str) -> (r: Self)
        ensures
            r == kind_from_path(path@),
    {
        let (folders, name) = path_parts(path);
        let folders = to_lower(folders.as_str());
        if speaks_of_jingles(folders.as_str()) {
            return TrackKind::Jingle;
        }
        if speaks_of_ads(folders.as_str()) {
            return TrackKind::Ad;
        }
        let name = to_lower(name.as_str());
        if speaks_of_jingles(name.as_str()) {
            return TrackKind::Jingle;
        }
        if speaks_of_ads(name.as_str()) {
            return TrackKind::Ad;
        }
        TrackKind::Music
    }
}

/// The stored name of a kind reads back as the kind.
pub proof fn kind_names_read_back(k: TrackKind)
    ensures
        kind_from_name(kind_name(k)) == k,
{
    reveal_strlit("music");
    reveal_strlit("jingle");
    reveal_strlit("ad");
    reveal_strlit("bumper");
    reveal_strlit("sweeper");
    reveal_strlit("id");
    reveal_strlit("stationid");
    reveal_strlit("toth");
    reveal_strlit("advert");
    reveal_strlit("commercial");
    reveal_strlit("promo");
    let n = kind_name(k);
    assert(crate::text::is_ascii_text(n));
    assert(text::lowered(n) =~= n);
    assert("ad"@[0] != "id"@[0]);
    assert("music"@[0] != "promo"@[0]);
}

/// A jingle in the folders outweighs everything else, an ad in the folders
/// outweighs the file name, and a path that speaks of neither is music.
pub proof fn folders_speak_first(folders: Seq<char>, name: Seq<char>)
    ensures
        jingle_text(folders) ==> kind_from_parts(folders, name) == TrackKind::Jingle,
        !jingle_text(folders) && ad_text(folders) ==> kind_from_parts(folders, name)
            == TrackKind::Ad,
        !jingle_text(folders) && !ad_text(folders) && !jingle_text(name) && !ad_text(name)
            ==> kind_from_parts(folders, name) == TrackKind::Music,
{
}

/// Text is read word by word: what does not belong to a word parts the words
/// before it from those behind, and letters and digits in one run are one word.
pub proof fn words_are_runs(a: Seq<char>, sep: char, b: Seq<char>)
    requires
        !text::is_alnum_char(sep),
    ensures
        words(a.push(sep) + b) == words(a) + words(b),
        (forall|i: int| 0 <= i < b.len() ==> text::is_alnum_char(#[trigger] b[i])) ==> words(b) == seq![b],
        words(b).len() > 0,
    decreases b.len(),
{
    if b.len() == 0 {
        assert(a.push(sep) + b =~= a.push(sep));
        assert(a.push(sep).drop_last() =~= a);
        assert(b =~= Seq::<char>::empty());
        assert(words(a.push(sep)) =~= words(a) + words(b));
        assert(words(b) =~= seq![b]);
    } else {
        let c = b.drop_last();
        words_are_runs(a, sep, c);
        let s = a.push(sep) + b;
        assert(s.drop_last() =~= a.push(sep) + c);
        assert(s.last() == b.last());
        assert(words(s) =~= words(a) + words(b));
        if forall|i: int| 0 <= i < b.len() ==> text::is_alnum_char(#[trigger] b[i]) {
            assert forall|i: int| 0 <= i < c.len() implies text::is_alnum_char(#[trigger] c[i]) by {
                assert(c[i] == b[i]);
            }
            assert(text::is_alnum_char(b[b.len() - 1]));
            assert(b =~= c.push(b.last()));
            assert(words(b) =~= seq![b]);
        }
    }
}

/// The words that mark a jingle.
pub open spec fn station_words() -> Seq<Seq<char>> {
    seq![
        "jingle"@, "jingles"@, "bumper"@, "bumpers"@, "sweeper"@, "sweepers"@, "stationid"@, "toth"@, "stinger"@, "stingers"@, "beds"@, "liners"@, "drops"@, "id"@, "ids"@,
    ]
}

/// The words that mark an ad.
pub open spec fn paid_words() -> Seq<Seq<char>> {
    seq![
        "ad"@, "ads"@, "advert"@, "adverts"@, "commercial"@, "commercials"@, "promo"@, "promos"@, "spot"@, "spots"@, "iklan"@,
    ]
}

/// A text marks a jingle, or an ad, where one of the words for it stands in it
/// as a word of its own, wherever that is. A word that is none of these marks
/// neither, unless one of the longer words is a part of it.
pub proof fn single_words_mark_the_kind(a: Seq<char>, before: char, w: Seq<char>, behind: char, b: Seq<char>)
    requires
        !text::is_alnum_char(before),
        !text::is_alnum_char(behind),
        forall|i: int| 0 <= i < w.len() ==> text::is_alnum_char(#[trigger] w[i]),
    ensures
        station_words().contains(w) ==> jingle_text(w) && jingle_text(a.push(before) + w)
            && jingle_text(w.push(behind) + b) && jingle_text(a.push(before) + (w.push(behind) + b)),
        paid_words().contains(w) ==> ad_text(w) && ad_text(a.push(before) + w) && ad_text(
            w.push(behind) + b,
        ) && ad_text(a.push(before) + (w.push(behind) + b)),
        jingle_text(w) ==> station_words().contains(w) || exists|k: int, i: int|
            #![trigger station_words()[k], w.subrange(i, i + station_words()[k].len())]
            0 <= k < station_words().len() && station_words()[k].len() >= 6 && 0 <= i && i
                + station_words()[k].len() <= w.len() && w.subrange(i, i + station_words()[k].len())
                == station_words()[k],
        ad_text(w) ==> paid_words().contains(w) || exists|k: int, i: int|
            #![trigger paid_words()[k], w.subrange(i, i + paid_words()[k].len())]
            0 <= k < paid_words().len() && paid_words()[k].len() >= 6 && 0 <= i && i
                + paid_words()[k].len() <= w.len() && w.subrange(i, i + paid_words()[k].len())
                == paid_words()[k],
{
    words_are_runs(a, before, w);
    words_are_runs(w, behind, b);
    words_are_runs(a, before, w.push(behind) + b);
    assert(words(w) == seq![w]);
    assert(words(w)[0] == w);
    let front = words(a);
    assert(words(a.push(before) + w)[front.len() as int] == w);
    assert(words(w.push(behind) + b)[0] == w);
    assert(words(a.push(before) + (w.push(behind) + b))[front.len() as int] == w);
    lemma_station_words(w);
    lemma_paid_words(w);
}

proof fn lemma_station_words(w: Seq<char>)
    ensures
        station_words().contains(w) <==> jingle_word(w),
        jingle_key(w) ==> exists|k: int, i: int|
            #![trigger station_words()[k], w.subrange(i, i + station_words()[k].len())]
            0 <= k < station_words().len() && station_words()[k].len() >= 6 && 0 <= i && i
                + station_words()[k].len() <= w.len() && w.subrange(i, i + station_words()[k].len())
                == station_words()[k],
{
    let l = station_words();
    assert(l[0] == "jingle"@);
    assert(l[1] == "jingles"@);
    assert(l[2] == "bumper"@);
    assert(l[3] == "bumpers"@);
    assert(l[4] == "sweeper"@);
    assert(l[5] == "sweepers"@);
    assert(l[6] == "stationid"@);
    assert(l[7] == "toth"@);
    assert(l[8] == "stinger"@);
    assert(l[9] == "stingers"@);
    assert(l[10] == "beds"@);
    assert(l[11] == "liners"@);
    assert(l[12] == "drops"@);
    assert(l[13] == "id"@);
    assert(l[14] == "ids"@);
    if jingle_word(w) {
        let k: int = if w == "jingle"@ { 0 } else if w == "jingles"@ { 1 } else if w == "bumper"@ { 2 } else if w == "bumpers"@ { 3 } else if w == "sweeper"@ { 4 } else if w == "sweepers"@ { 5 } else if w == "stationid"@ { 6 } else if w == "toth"@ { 7 } else if w == "stinger"@ { 8 } else if w == "stingers"@ { 9 } else if w == "beds"@ { 10 } else if w == "liners"@ { 11 } else if w == "drops"@ { 12 } else if w == "id"@ { 13 } else { 14 };
        assert(l[k] == w);
    }
    reveal_strlit("jingle");
    reveal_strlit("bumper");
    reveal_strlit("sweeper");
    reveal_strlit("stationid");
    reveal_strlit("stinger");
    reveal_strlit("liners");
    if jingle_key(w) {
        let k: int = if text::holds(w, "jingle"@) {
            0
        } else if text::holds(w, "bumper"@) {
            2
        } else if text::holds(w, "sweeper"@) {
            4
        } else if text::holds(w, "stationid"@) {
            6
        } else if text::holds(w, "stinger"@) {
            8
        } else {
            11
        };
        let key = l[k];
        assert(text::holds(w, key));
        let i = choose|i: int|
            0 <= i && i + key.len() <= w.len() && #[trigger] w.subrange(i, i + key.len()) == key;
        assert(w.subrange(i, i + l[k].len()) == l[k]);
    }
}

proof fn lemma_paid_words(w: Seq<char>)
    ensures
        paid_words().contains(w) <==> ad_word(w),
        ad_key(w) ==> exists|k: int, i: int|
            #![trigger paid_words()[k], w.subrange(i, i + paid_words()[k].len())]
            0 <= k < paid_words().len() && paid_words()[k].len() >= 6 && 0 <= i && i
                + paid_words()[k].len() <= w.len() && w.subrange(i, i + paid_words()[k].len())
                == paid_words()[k],
{
    let l = paid_words();
    assert(l[0] == "ad"@);
    assert(l[1] == "ads"@);
    assert(l[2] == "advert"@);
    assert(l[3] == "adverts"@);
    assert(l[4] == "commercial"@);
    assert(l[5] == "commercials"@);
    assert(l[6] == "promo"@);
    assert(l[7] == "promos"@);
    assert(l[8] == "spot"@);
    assert(l[9] == "spots"@);
    assert(l[10] == "iklan"@);
    if ad_word(w) {
        let k: int = if w == "ad"@ { 0 } else if w == "ads"@ { 1 } else if w == "advert"@ { 2 } else if w == "adverts"@ { 3 } else if w == "commercial"@ { 4 } else if w == "commercials"@ { 5 } else if w == "promo"@ { 6 } else if w == "promos"@ { 7 } else if w == "spot"@ { 8 } else if w == "spots"@ { 9 } else { 10 };
        assert(l[k] == w);
    }
    reveal_strlit("advert");
    reveal_strlit("commercial");
    if ad_key(w) {
        let k: int = if text::holds(w, "advert"@) {
            2
        } else {
            4
        };
        let key = l[k];
        assert(text::holds(w, key));
        let i = choose|i: int|
            0 <= i && i + key.len() <= w.len() && #[trigger] w.subrange(i, i + key.len()) == key;
        assert(w.subrange(i, i + l[k].len()) == l[k]);
    }
}

/// A kind that is told by name is told alike by a folder of that name, and a
/// name that marks nothing is music.
pub proof fn names_and_folders_agree(s: Seq<char>)
    ensures
        kind_from_name(s) == TrackKind::Jingle ==> station_words().contains(text::lowered(s)),
        kind_from_name(s) == TrackKind::Ad ==> paid_words().contains(text::lowered(s)),
        station_words().take(8).contains(text::lowered(s)) ==> kind_from_name(s)
            == TrackKind::Jingle || text::lowered(s).last() == 's',
        text::lowered(s) == "id"@ ==> kind_from_name(s) == TrackKind::Jingle,
        paid_words().take(8).contains(text::lowered(s)) ==> kind_from_name(s) == TrackKind::Ad
            || text::lowered(s).last() == 's',
{
    let n = text::lowered(s);
    lemma_station_words(n);
    lemma_paid_words(n);
    reveal_strlit("jingles");
    reveal_strlit("bumpers");
    reveal_strlit("sweepers");
    reveal_strlit("jingle");
    reveal_strlit("bumper");
    reveal_strlit("sweeper");
    reveal_strlit("id");
    reveal_strlit("stationid");
    reveal_strlit("toth");
    reveal_strlit("ad");
    reveal_strlit("advert");
    reveal_strlit("commercial");
    reveal_strlit("promo");
    reveal_strlit("ads");
    reveal_strlit("adverts");
    reveal_strlit("commercials");
    reveal_strlit("promos");
    if station_words().take(8).contains(n) {
        let k = choose|k: int| 0 <= k < 8 && station_words().take(8)[k] == n;
        assert(k == 0 || k == 1 || k == 2 || k == 3 || k == 4 || k == 5 || k == 6 || k == 7);
    }
    assert("advert"@[0] == 'a' && "jingle"@[0] == 'j' && "bumper"@[0] == 'b' && "ad"@[0] == 'a' && "id"@[0]
        == 'i');
    assert("toth"@.len() == 4 && "promo"@.len() == 5 && "commercial"@.len() == 10 && "stationid"@.len()
        == 9 && "sweeper"@.len() == 7);
    if paid_words().take(8).contains(n) {
        let k = choose|k: int| 0 <= k < 8 && paid_words().take(8)[k] == n;
        assert(k == 0 || k == 1 || k == 2 || k == 3 || k == 4 || k == 5 || k == 6 || k == 7);
    }
}

pub proof fn lemma_last_dot(base: Seq<char>, ext: Seq<char>)
    requires
        !ext.contains('.'),
    ensures
        last_dot(base.push('.') + ext) == base.len(),
    decreases ext.len(),
{
    let s = base.push('.') + ext;
    if ext.len() > 0 {
        let e = ext.drop_last();
        assert(ext.contains(ext.last()));
        assert forall|i: int| 0 <= i < e.len() implies e[i] != '.' by {
            assert(e[i] == ext[i]);
            assert(ext.contains(ext[i]));
        }
        assert(s.drop_last() =~= base.push('.') + e);
        lemma_last_dot(base, e);
    }
}

/// A path is its folder, a slash and its file; the file is told by what stands
/// in front of its last dot.
pub proof fn paths_are_folder_and_file(folder: Seq<char>, base: Seq<char>, ext: Seq<char>)
    requires
        base.len() > 0,
        !base.contains('/'),
        !ext.contains('/'),
        !ext.contains('.'),
        base.push('.') + ext != ".."@,
    ensures
        folder_part(folder.push('/') + (base.push('.') + ext)) == folder,
        stem_part(folder.push('/') + (base.push('.') + ext)) == base,
        text::split_at(folder.push('/') + (base.push('.') + ext), '/') == text::split_at(
            folder,
            '/',
        ).push(base.push('.') + ext),
        last_name(text::split_at(folder.push('/') + (base.push('.') + ext), '/')) == text::split_at(
            folder,
            '/',
        ).len(),
{
    reveal_strlit(".");
    let file = base.push('.') + ext;
    let path = folder.push('/') + file;
    let front = text::split_at(folder, '/');
    let parts = front.push(file);
    text::splitting_keeps_the_text(folder, '/');
    assert(!file.contains('/')) by {
        if file.contains('/') {
            let i = choose|i: int| 0 <= i < file.len() && file[i] == '/';
            if i < base.len() {
                assert(base.contains(base[i]));
            } else if i > base.len() {
                assert(ext[i - base.len() - 1] == '/');
                assert(ext.contains(ext[i - base.len() - 1]));
            }
        }
    }
    assert forall|i: int| 0 <= i < parts.len() implies !(#[trigger] parts[i]).contains('/') by {
        if i < front.len() {
            assert(parts[i] == front[i]);
        }
    }
    text::joining_keeps_the_pieces(parts, '/');
    assert(parts.drop_last() =~= front);
    assert(text::join(parts, seq!['/']) =~= path);
    assert(file.len() > 1);
    assert(last_name(parts) == front.len());
    assert(parts.subrange(0, front.len() as int) =~= front);
    lemma_last_dot(base, ext);
    assert(file.subrange(0, base.len() as int) =~= base);
}

} // verus!
