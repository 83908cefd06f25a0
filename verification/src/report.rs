//! Play-log reports and their exports as text and as a workbook.

use vstd::prelude::*;
use vstd::string::*;

use crate::clock::{read_rfc3339, write_rfc3339, Stamp};
use crate::error::CrabError;
use crate::library::catalog::{Library, PlayRow};
use crate::library::kind::TrackKind;
use crate::library::track::Track;
use crate::rank::{rank, Order};
use crate::table::{find_key, Keyed};
use crate::text::{chars_of, push_decimal, text_before};
use crate::workbook::pack_table;
use crate::clock;
use crate::library::kind;
use crate::rank;
use crate::table;
use crate::text;
use crate::workbook;

verus! {

/// One played item of a report.
#[derive(Debug, Clone)]
pub struct PlayLogEntry {
    pub title: String,
    pub artist: String,
    pub kind: TrackKind,
    pub played_at: Stamp,
    pub duration_nanos: Option<u64>,
}

/// Newest first.
pub struct ByNewest;

impl Order<PlayRow> for ByNewest {
    open spec fn before(self, a: PlayRow, b: PlayRow) -> bool {
        text::text_lt(b.played_at@, a.played_at@)
    }

    proof fn is_weak_order(self, a: PlayRow, b: PlayRow, c: PlayRow) {
        text::text_order_is_total(a.played_at@, b.played_at@);
        text::text_order_is_total(b.played_at@, c.played_at@);
        text::text_order_is_total(a.played_at@, c.played_at@);
        if text::text_lt(c.played_at@, b.played_at@) && text::text_lt(b.played_at@, a.played_at@) {
            text::text_order_is_transitive(c.played_at@, b.played_at@, a.played_at@);
        }
        if text::text_lt(b.played_at@, c.played_at@) && text::text_lt(a.played_at@, b.played_at@) {
            text::text_order_is_transitive(a.played_at@, b.played_at@, c.played_at@);
        }
    }

    fn is_ahead(&self, a: &PlayRow, b: &PlayRow) -> (r: bool) {
        text_before(b.played_at.as_str(), a.played_at.as_str())
    }
}

/// A play within a window; both ends belong to it. Moments compare as they are
/// written.
pub open spec fn within(p: PlayRow, from: Seq<char>, to: Seq<char>) -> bool {
    !text::text_lt(p.played_at@, from) && !text::text_lt(to, p.played_at@)
}

/// The plays of a window, newest first.
pub open spec fn window(log: Seq<PlayRow>, from: Seq<char>, to: Seq<char>) -> Seq<PlayRow> {
    rank::ranked(ByNewest, log.filter(|p: PlayRow| within(p, from, to)))
}

/// The track of a play.
pub open spec fn track_of(tracks: Seq<Track>, p: PlayRow) -> Track {
    tracks[choose|i: int| 0 <= i < tracks.len() && (#[trigger] tracks[i]).id@ == p.track_id@]
}

/// A play whose moment can be read.
pub open spec fn readable(p: PlayRow) -> bool {
    clock::rfc3339_moment(p.played_at@) is Some
}

/// An entry tells of a play of a track.
pub open spec fn tells(e: PlayLogEntry, p: PlayRow, t: Track) -> bool {
    &&& e.title@ == (match t.title {
        Some(s) => s@,
        None => t.file_name@,
    })
    &&& e.artist@ == (match t.artist {
        Some(s) => s@,
        None => Seq::empty(),
    })
    &&& e.kind == t.kind
    &&& clock::rfc3339_moment(p.played_at@) == Some(e.played_at)
    &&& e.duration_nanos == p.duration_nanos
}

/// The plays of the kinds that are not left out.
pub open spec fn kept(rows: Seq<PlayRow>, tracks: Seq<Track>, exclude: Seq<TrackKind>) -> Seq<PlayRow> {
    rows.filter(|p: PlayRow| !exclude.contains(track_of(tracks, p).kind))
}

/// The entries tell of the plays, one for one.
pub open spec fn told(v: Seq<PlayLogEntry>, rows: Seq<PlayRow>, tracks: Seq<Track>) -> bool {
    &&& v.len() == rows.len()
    &&& forall|i: int| 0 <= i < v.len() ==> tells(#[trigger] v[i], rows[i], track_of(tracks, rows[i]))
}

/// The first play whose moment cannot be read is at this place.
pub open spec fn first_unreadable(rows: Seq<PlayRow>, i: int) -> bool {
    &&& 0 <= i < rows.len()
    &&& !readable(rows[i])
    &&& forall|j: int| 0 <= j < i ==> readable(#[trigger] rows[j])
}

/// Whether a kind is in a list.
fn is_listed(k: TrackKind, list: &[TrackKind]) -> (r: bool)
    ensures
        r == list@.contains(k),
{
    let mut i: usize = 0;
    while i < list.len()
        invariant
            i <= list@.len(),
            forall|j: int| 0 <= j < i ==> list@[j] != k,
        decreases list@.len() - i,
    {
        if list[i] == k {
            assert(list@[i as int] == k);
            return true;
        }
        i = i + 1;
    }
    false
}

/// The plays of a window, in the order of the log.
fn plays_within(log: &Vec<PlayRow>, from: &str, to: &str) -> (r: Vec<PlayRow>)
    ensures
        r@ == log@.filter(|p: PlayRow| within(p, from@, to@)),
{
    let ghost keep = |p: PlayRow| within(p, from@, to@);
    let mut r: Vec<PlayRow> = Vec::new();
    let mut i: usize = 0;
    proof {
        reveal(Seq::filter);
    }
    assert(log@.subrange(0, 0) =~= Seq::empty());
    assert(log@.subrange(0, 0).filter(keep) =~= Seq::empty());
    while i < log.len()
        invariant
            i <= log@.len(),
            keep == (|p: PlayRow| within(p, from@, to@)),
            r@ == log@.subrange(0, i as int).filter(keep),
        decreases log@.len() - i,
    {
        proof {
            reveal(Seq::filter);
        }
        assert(log@.subrange(0, i + 1).drop_last() =~= log@.subrange(0, i as int));
        if !text_before(log[i].played_at.as_str(), from) && !text_before(
            to,
            log[i].played_at.as_str(),
        ) {
            r.push(log[i].clone());
        }
        i = i + 1;
    }
    assert(log@.subrange(0, i as int) =~= log@);
    r
}

proof fn lemma_track_of(tracks: Seq<Track>, p: PlayRow, i: int)
    requires
        crate::table::distinct_keys(tracks),
        0 <= i < tracks.len(),
        tracks[i].id@ == p.track_id@,
    ensures
        track_of(tracks, p) == tracks[i],
{
    let k = choose|i: int| 0 <= i < tracks.len() && (#[trigger] tracks[i]).id@ == p.track_id@;
    assert(tracks[k].key() == tracks[i].key());
}

/// Plays between two moments, both ends included, without the kinds that are
/// left out, newest first. A moment that cannot be read is reported, be its
/// kind left out or not.
pub fn play_report(library: &Library, from: Stamp, to: Stamp, exclude: &[TrackKind]) -> (r: Result<
    Vec<PlayLogEntry>,
    CrabError,
>)
    requires
        library.wf(),
        from.valid(),
        to.valid(),
    ensures
        ({
            let rows = window(
                library.log@,
                clock::rfc3339_text(from.secs as int, from.nanos as int),
                clock::rfc3339_text(to.secs as int, to.nanos as int),
            );
            match r {
                Ok(v) => (forall|i: int| 0 <= i < rows.len() ==> readable(#[trigger] rows[i])) && told(
                    v@,
                    kept(rows, library.tracks@, exclude@),
                    library.tracks@,
                ),
                Err(CrabError::Integrity { table, id, field, value }) => exists|i: int| #[trigger]
                    first_unreadable(rows, i) && table@ == "play_log"@ && field@ == "played_at"@
                        && id@ == track_of(library.tracks@, rows[i]).file_name@ && value@
                        == rows[i].played_at@,
                Err(_) => false,
            }
        }),
{
    let low = write_rfc3339(from);
    let high = write_rfc3339(to);
    let hits = plays_within(&library.log, low.as_str(), high.as_str());
    let ghost tracks = library.tracks@;
    assert forall|i: int| 0 <= i < hits@.len() implies library.log@.contains(#[trigger] hits@[i]) by {
        lemma_filter_members(
            library.log@,
            |p: PlayRow| within(p, low@, high@),
            i,
        );
    }
    let ghost found = hits@;
    let rows = rank(ByNewest, hits);
    let ghost all = rows@;
    assert forall|i: int| 0 <= i < all.len() implies crate::table::has_key(
        tracks,
        (#[trigger] all[i]).track_id@,
    ) by {
        rank::ranking_keeps_members(ByNewest, found, all[i]);
        assert(all.contains(all[i]));
        assert(found.contains(all[i]));
        let j = choose|j: int| 0 <= j < found.len() && found[j] == all[i];
        assert(library.log@.contains(found[j]));
    }
    let ghost keep = |p: PlayRow| !exclude@.contains(track_of(tracks, p).kind);
    let mut out: Vec<PlayLogEntry> = Vec::new();
    let mut i: usize = 0;
    proof {
        reveal(Seq::filter);
    }
    assert(all.subrange(0, 0) =~= Seq::empty());
    assert(kept(all.subrange(0, 0), tracks, exclude@) =~= Seq::empty());
    while i < rows.len()
        invariant
            i <= rows@.len(),
            rows@ == all,
            tracks == library.tracks@,
            library.wf(),
            all == window(library.log@, low@, high@),
            low@ == clock::rfc3339_text(from.secs as int, from.nanos as int),
            high@ == clock::rfc3339_text(to.secs as int, to.nanos as int),
            forall|j: int| 0 <= j < all.len() ==> crate::table::has_key(
                tracks,
                (#[trigger] all[j]).track_id@,
            ),
            forall|j: int| 0 <= j < i ==> readable(#[trigger] all[j]),
            told(out@, kept(all.subrange(0, i as int), tracks, exclude@), tracks),
        decreases rows@.len() - i,
    {
        let ghost front = all.subrange(0, i as int);
        proof {
            reveal(Seq::filter);
            assert(all.subrange(0, i + 1).drop_last() =~= front);
            assert(all.subrange(0, i + 1).last() == all[i as int]);
        }
        let p = &rows[i];
        match find_key(&library.tracks, p.track_id.as_str()) {
            Some(k) => {
                let t = &library.tracks[k];
                proof {
                    lemma_track_of(tracks, *p, k as int);
                }
                match read_rfc3339(p.played_at.as_str()) {
                    Some(at) => {
                        if !is_listed(t.kind, exclude) {
                            let title = match &t.title {
                                Some(s) => s.clone(),
                                None => t.file_name.clone(),
                            };
                            let artist = match &t.artist {
                                Some(s) => s.clone(),
                                None => String::new(),
                            };
                            let ghost before = out@;
                            out.push(
                                PlayLogEntry {
                                    title,
                                    artist,
                                    kind: t.kind,
                                    played_at: at,
                                    duration_nanos: p.duration_nanos,
                                },
                            );
                            assert(kept(all.subrange(0, i + 1), tracks, exclude@) =~= kept(
                                front,
                                tracks,
                                exclude@,
                            ).push(all[i as int]));
                        }
                    },
                    None => {
                        assert(first_unreadable(all, i as int));
                        return Err(
                            CrabError::Integrity {
                                table: "play_log",
                                id: t.file_name.clone(),
                                field: "played_at",
                                value: p.played_at.clone(),
                            },
                        );
                    },
                }
            },
            None => {
                assert(crate::table::has_key(tracks, all[i as int].track_id@));
            },
        }
        i = i + 1;
    }
    assert(all.subrange(0, i as int) =~= all);
    Ok(out)
}

proof fn lemma_filter_members<T>(s: Seq<T>, pred: spec_fn(T) -> bool, i: int)
    requires
        0 <= i < s.filter(pred).len(),
    ensures
        s.contains(s.filter(pred)[i]),
        pred(s.filter(pred)[i]),
    decreases s.len(),
{
    reveal(Seq::filter);
    if s.len() > 0 {
        let t = s.drop_last();
        if i < t.filter(pred).len() {
            lemma_filter_members(t, pred, i);
            assert(t.contains(t.filter(pred)[i]));
            let k = choose|k: int| 0 <= k < t.len() && t[k] == t.filter(pred)[i];
            assert(s[k] == t[k]);
            assert(s.filter(pred)[i] == t.filter(pred)[i]);
        } else {
            assert(s.filter(pred)[i] == s.last());
        }
    }
}

/// The digits behind the point, without zeros at their end. The unit is what
/// the first of them counts.
pub open spec fn fraction(f: nat, unit: nat) -> Seq<char>
    decreases unit,
{
    if f == 0 || unit == 0 {
        Seq::empty()
    } else {
        seq![text::digit_char((f / unit) % 10)] + fraction(f % unit, unit / 10)
    }
}

/// Nanoseconds as seconds in decimal.
pub open spec fn seconds_of(nanos: nat) -> Seq<char> {
    if nanos % 1_000_000_000 == 0 {
        text::decimal(nanos / 1_000_000_000)
    } else {
        text::decimal(nanos / 1_000_000_000) + "."@ + fraction(
            nanos % 1_000_000_000,
            100_000_000,
        )
    }
}

/// Nanoseconds as seconds in decimal.
pub fn seconds_text(nanos: u64) -> (r: String)
    ensures
        r@ == seconds_of(nanos as nat),
{
    let mut s = String::new();
    push_decimal(&mut s, nanos / 1_000_000_000);
    assert(s@ =~= text::decimal((nanos / 1_000_000_000) as nat));
    if nanos % 1_000_000_000 == 0 {
        return s;
    }
    s.append(".");
    let ghost head = s@;
    let mut f: u64 = nanos % 1_000_000_000;
    let mut unit: u64 = 100_000_000;
    assert(s@ + fraction(f as nat, unit as nat) == seconds_of(nanos as nat));
    while f > 0 && unit > 0
        invariant
            s@ + fraction(f as nat, unit as nat) == seconds_of(nanos as nat),
        decreases unit,
    {
        let d: u8 = ((f / unit) % 10) as u8;
        let ghost before = s@;
        s.push((48 + d) as char);
        assert(text::digit_char(((f / unit) % 10) as nat) == (48 + d) as char);
        assert(s@ + fraction((f % unit) as nat, (unit / 10) as nat) =~= before + fraction(
            f as nat,
            unit as nat,
        ));
        f = f % unit;
        unit = unit / 10;
    }
    assert(s@ + Seq::<char>::empty() =~= s@);
    s
}

/// The columns of every export.
pub open spec fn column_names() -> Seq<Seq<char>> {
    seq!["played_at"@, "title"@, "artist"@, "kind"@, "duration_secs"@]
}

/// The columns of every export.
pub fn report_columns() -> (r: Vec<String>)
    ensures
        text::texts(r@) == column_names(),
{
    let r = vec![
        String::from_str("played_at"),
        String::from_str("title"),
        String::from_str("artist"),
        String::from_str("kind"),
        String::from_str("duration_secs"),
    ];
    assert(text::texts(r@) =~= column_names());
    r
}

/// One entry as plain texts.
pub open spec fn row_of(e: PlayLogEntry) -> Seq<Seq<char>> {
    seq![
        clock::rfc3339_text(e.played_at.secs as int, e.played_at.nanos as int),
        e.title@,
        e.artist@,
        kind::kind_name(e.kind),
        match e.duration_nanos {
            Some(n) => seconds_of(n as nat),
            None => Seq::empty(),
        },
    ]
}

/// One entry as plain texts. Each export quotes in its own way.
pub fn report_row(e: &PlayLogEntry) -> (r: Vec<String>)
    requires
        e.played_at.valid(),
    ensures
        text::texts(r@) == row_of(*e),
{
    let last = match e.duration_nanos {
        Some(n) => seconds_text(n),
        None => String::new(),
    };
    let r = vec![
        write_rfc3339(e.played_at),
        e.title.clone(),
        e.artist.clone(),
        String::from_str(e.kind.as_str()),
        last,
    ];
    assert(text::texts(r@) =~= row_of(*e));
    r
}

/// A text with every quote doubled.
pub open spec fn doubled(s: Seq<char>) -> Seq<char>
    decreases s.len(),
{
    if s.len() == 0 {
        s
    } else if s[0] == '"' {
        seq!['"', '"'] + doubled(s.drop_first())
    } else {
        seq![s[0]] + doubled(s.drop_first())
    }
}

/// A text that has to be quoted.
pub open spec fn needs_quotes(s: Seq<char>) -> bool {
    s.contains(',') || s.contains('"') || s.contains('\n')
}

/// A text as a cell.
pub open spec fn cell_text(s: Seq<char>) -> Seq<char> {
    if needs_quotes(s) {
        seq!['"'] + doubled(s) + seq!['"']
    } else {
        s
    }
}

/// A text as a cell.
pub fn csv_cell(s: &str) -> (r: String)
    ensures
        r@ == cell_text(s@),
{
    let v = chars_of(s);
    let mut plain = true;
    let mut i: usize = 0;
    while i < v.len()
        invariant
            i <= v@.len(),
            v@ == s@,
            plain == (forall|j: int|
                0 <= j < i ==> v@[j] != ',' && v@[j] != '"' && v@[j] != '\n'),
        decreases v@.len() - i,
    {
        if v[i] == ',' || v[i] == '"' || v[i] == '\n' {
            plain = false;
        }
        i = i + 1;
    }
    if plain {
        return String::from_str(s);
    }
    assert(needs_quotes(s@)) by {
        let j = choose|j: int| 0 <= j < s@.len() && (s@[j] == ',' || s@[j] == '"' || s@[j] == '\n');
        assert(s@.contains(s@[j]));
    }
    let mut r = String::new();
    r.push('"');
    let mut k: usize = 0;
    assert(v@.skip(0) =~= v@);
    assert(r@ + doubled(v@) =~= seq!['"'] + doubled(v@));
    while k < v.len()
        invariant
            k <= v@.len(),
            v@ == s@,
            r@ + doubled(v@.skip(k as int)) == seq!['"'] + doubled(s@),
        decreases v@.len() - k,
    {
        let ghost before = r@;
        assert(v@.skip(k as int).drop_first() =~= v@.skip(k + 1));
        if v[k] == '"' {
            r.push('"');
        }
        r.push(v[k]);
        assert(r@ + doubled(v@.skip(k + 1)) =~= before + doubled(v@.skip(k as int)));
        k = k + 1;
    }
    assert(doubled(v@.skip(k as int)) =~= Seq::empty());
    assert(r@ =~= seq!['"'] + doubled(s@));
    r.push('"');
    assert(r@ =~= cell_text(s@));
    r
}

/// The cells of a row as a line.
pub open spec fn line_text(cells: Seq<Seq<char>>) -> Seq<char> {
    text::join(cells.map_values(|c: Seq<char>| cell_text(c)), ","@) + "\n"@
}

/// The lines of the entries.
pub open spec fn lines_text(entries: Seq<PlayLogEntry>) -> Seq<char>
    decreases entries.len(),
{
    if entries.len() == 0 {
        Seq::empty()
    } else {
        lines_text(entries.drop_last()) + line_text(row_of(entries.last()))
    }
}

/// The line of a row.
fn csv_line(cells: &Vec<String>) -> (r: String)
    requires
        cells@.len() == 5,
    ensures
        r@ == line_text(text::texts(cells@)),
{
    let ghost row = text::texts(cells@);
    let ghost done = row.map_values(|c: Seq<char>| cell_text(c));
    let mut r = csv_cell(cells[0].as_str());
    let mut i: usize = 1;
    proof {
        assert(done.subrange(0, 1).drop_last() =~= Seq::empty());
        assert(row[0] == cells@[0]@);
        assert(text::join(done.subrange(0, 1), ","@) == done[0]);
    }
    while i < cells.len()
        invariant
            1 <= i <= cells@.len(),
            cells@.len() == 5,
            row == text::texts(cells@),
            done == row.map_values(|c: Seq<char>| cell_text(c)),
            r@ == text::join(done.subrange(0, i as int), ","@),
        decreases cells@.len() - i,
    {
        r.append(",");
        let c = csv_cell(cells[i].as_str());
        r.append(c.as_str());
        proof {
            assert(row[i as int] == cells@[i as int]@);
            assert(done.subrange(0, i + 1).drop_last() =~= done.subrange(0, i as int));
            assert(done.subrange(0, i + 1).last() == done[i as int]);
        }
        i = i + 1;
    }
    assert(done.subrange(0, i as int) =~= done);
    r.append("\n");
    r
}

/// The entries as comma separated lines, below a line with the columns.
pub fn to_csv(entries: &[PlayLogEntry]) -> (r: String)
    requires
        forall|i: int| 0 <= i < entries@.len() ==> (#[trigger] entries@[i]).played_at.valid(),
    ensures
        r@ == text::join(column_names(), ","@) + "\n"@ + lines_text(entries@),
{
    let mut out = String::from_str("played_at,title,artist,kind,duration_secs\n");
    proof {
        lemma_header();
    }
    let ghost head = out@;
    let mut i: usize = 0;
    assert(entries@.subrange(0, 0) =~= Seq::empty());
    assert(head + lines_text(entries@.subrange(0, 0)) =~= head);
    while i < entries.len()
        invariant
            i <= entries@.len(),
            forall|j: int| 0 <= j < entries@.len() ==> (#[trigger] entries@[j]).played_at.valid(),
            out@ == head + lines_text(entries@.subrange(0, i as int)),
        decreases entries@.len() - i,
    {
        let row = report_row(&entries[i]);
        assert(text::texts(row@).len() == row@.len());
        let line = csv_line(&row);
        out.append(line.as_str());
        assert(entries@.subrange(0, i + 1).drop_last() =~= entries@.subrange(0, i as int));
        assert(out@ =~= head + lines_text(entries@.subrange(0, i + 1)));
        i = i + 1;
    }
    assert(entries@.subrange(0, i as int) =~= entries@);
    out
}

proof fn lemma_header()
    ensures
        "played_at,title,artist,kind,duration_secs\n"@ == text::join(column_names(), ","@) + "\n"@,
{
    reveal_strlit("played_at,title,artist,kind,duration_secs\n");
    reveal_strlit("played_at");
    reveal_strlit("title");
    reveal_strlit("artist");
    reveal_strlit("kind");
    reveal_strlit("duration_secs");
    reveal_strlit(",");
    reveal_strlit("\n");
    let c = column_names();
    reveal_with_fuel(text::join, 6);
    assert(c.drop_last() =~= seq!["played_at"@, "title"@, "artist"@, "kind"@]);
    assert(c.drop_last().drop_last() =~= seq!["played_at"@, "title"@, "artist"@]);
    assert(c.drop_last().drop_last().drop_last() =~= seq!["played_at"@, "title"@]);
    assert(c.drop_last().drop_last().drop_last().drop_last() =~= seq!["played_at"@]);
    assert(text::join(c, ","@) == "played_at"@ + ","@ + "title"@ + ","@ + "artist"@ + ","@ + "kind"@
        + ","@ + "duration_secs"@);
    assert("played_at,title,artist,kind,duration_secs\n"@ =~= "played_at"@ + ","@ + "title"@ + ","@
        + "artist"@ + ","@ + "kind"@ + ","@ + "duration_secs"@ + "\n"@);
}

/// What a reader takes from the front of a line: the text of the first cell,
/// and what follows it.
pub open spec fn read_cell(s: Seq<char>) -> (Seq<char>, Seq<char>) {
    if s.len() > 0 && s[0] == '"' {
        read_quoted(s.drop_first())
    } else {
        read_plain(s)
    }
}

/// Read up to the closing quote; two quotes stand for one.
pub open spec fn read_quoted(s: Seq<char>) -> (Seq<char>, Seq<char>)
    decreases s.len(),
{
    if s.len() == 0 {
        (Seq::empty(), s)
    } else if s[0] == '"' {
        if s.len() > 1 && s[1] == '"' {
            let (a, b) = read_quoted(s.skip(2));
            (seq!['"'] + a, b)
        } else {
            (Seq::empty(), s.drop_first())
        }
    } else {
        let (a, b) = read_quoted(s.drop_first());
        (seq![s[0]] + a, b)
    }
}

/// Read up to a comma or the end of the line.
pub open spec fn read_plain(s: Seq<char>) -> (Seq<char>, Seq<char>)
    decreases s.len(),
{
    if s.len() == 0 || s[0] == ',' || s[0] == '\n' {
        (Seq::empty(), s)
    } else {
        let (a, b) = read_plain(s.drop_first());
        (seq![s[0]] + a, b)
    }
}

proof fn lemma_read_quoted(s: Seq<char>, rest: Seq<char>)
    requires
        rest.len() > 0,
        rest[0] != '"',
    ensures
        read_quoted(doubled(s) + seq!['"'] + rest) == (s, rest),
    decreases s.len(),
{
    let w = doubled(s) + seq!['"'] + rest;
    if s.len() == 0 {
        assert(w[0] == '"');
        assert(w[1] == rest[0]);
        assert(w.drop_first() =~= rest);
        assert(s =~= Seq::empty());
    } else {
        let t = s.drop_first();
        lemma_read_quoted(t, rest);
        assert(seq![s[0]] + t =~= s);
        if s[0] == '"' {
            assert(w[0] == '"' && w[1] == '"');
            assert(w.skip(2) =~= doubled(t) + seq!['"'] + rest);
        } else {
            assert(w[0] == s[0]);
            assert(w.drop_first() =~= doubled(t) + seq!['"'] + rest);
        }
    }
}

proof fn lemma_read_plain(s: Seq<char>, rest: Seq<char>)
    requires
        rest.len() > 0,
        rest[0] == ',' || rest[0] == '\n',
        forall|i: int| 0 <= i < s.len() ==> s[i] != ',' && s[i] != '\n',
    ensures
        read_plain(s + rest) == (s, rest),
    decreases s.len(),
{
    let w = s + rest;
    if s.len() == 0 {
        assert(w =~= rest);
        assert(s =~= Seq::empty());
    } else {
        let t = s.drop_first();
        assert(w[0] == s[0]);
        assert forall|i: int| 0 <= i < t.len() implies t[i] != ',' && t[i] != '\n' by {
            assert(t[i] == s[i + 1]);
        }
        lemma_read_plain(t, rest);
        assert(w.drop_first() =~= t + rest);
        assert(seq![s[0]] + t =~= s);
    }
}

/// Whatever a text holds, its cell reads back as the text, up to the comma or
/// the line end behind it.
pub proof fn cells_read_back(s: Seq<char>, rest: Seq<char>)
    requires
        rest.len() > 0,
        rest[0] == ',' || rest[0] == '\n',
    ensures
        read_cell(cell_text(s) + rest) == (s, rest),
{
    if needs_quotes(s) {
        let w = cell_text(s) + rest;
        assert(w.drop_first() =~= doubled(s) + seq!['"'] + rest);
        lemma_read_quoted(s, rest);
    } else {
        assert forall|i: int| 0 <= i < s.len() implies s[i] != ',' && s[i] != '\n' && s[i] != '"' by {
            assert(s.contains(s[i]));
        }
        lemma_read_plain(s, rest);
        if s.len() == 0 {
            assert(cell_text(s) + rest =~= rest);
        } else {
            assert((cell_text(s) + rest)[0] == s[0]);
        }
    }
}

/// The rows of an export: the columns, then the entries.
pub open spec fn export_rows(entries: Seq<PlayLogEntry>) -> Seq<Seq<Seq<char>>> {
    seq![column_names()] + entries.map_values(|e: PlayLogEntry| row_of(e))
}

/// The entries as a workbook: one sheet with the rows of the other export,
/// every value as plain text. Saving may fail on its own account; apart from
/// that, entries are refused exactly for the first that breaks a limit of
/// spreadsheets.
pub fn to_xlsx(entries: &[PlayLogEntry]) -> (r: Result<Vec<u8>, String>)
    requires
        entries@.len() < u32::MAX,
        forall|i: int| 0 <= i < entries@.len() ==> (#[trigger] entries@[i]).played_at.valid(),
    ensures
        match r {
            Ok(bytes) => (forall|i: int| !workbook::first_problem(export_rows(entries@), i))
                && (workbook::plain_rows(export_rows(entries@)) ==> workbook::file_cells(bytes@) == seq![
                workbook::table_cells(export_rows(entries@)),
            ]),
            Err(m) => {
                ||| (forall|i: int| !workbook::first_problem(export_rows(entries@), i))
                    && text::begins(m@, "xlsx pack: "@)
                ||| exists|i: int| #[trigger]
                    workbook::first_problem(export_rows(entries@), i) && m@
                        == workbook::problem_text(
                        i,
                        workbook::row_problem(i, export_rows(entries@)[i])->0,
                    )
            },
        },
{
    let mut rows: Vec<Vec<String>> = Vec::new();
    let head = report_columns();
    assert(text::texts(head@).len() == head@.len());
    rows.push(head);
    let mut i: usize = 0;
    while i < entries.len()
        invariant
            i <= entries@.len(),
            forall|j: int| 0 <= j < entries@.len() ==> (#[trigger] entries@[j]).played_at.valid(),
            rows@.len() == i + 1,
            text::texts(rows@[0]@) == column_names(),
            forall|j: int| 0 <= j < i ==> text::texts((#[trigger] rows@[j + 1])@) == row_of(entries@[j]),
            forall|j: int| 0 <= j <= i ==> (#[trigger] rows@[j])@.len() == 5,
        decreases entries@.len() - i,
    {
        let row = report_row(&entries[i]);
        assert(text::texts(row@).len() == row@.len());
        rows.push(row);
        i = i + 1;
    }
    proof {
        reveal_strlit("Plays");
        let all = workbook::table_texts(rows@);
        assert forall|j: int| 0 <= j < all.len() implies #[trigger] all[j] == export_rows(entries@)[j] by {
            if j > 0 {
                assert(text::texts(rows@[(j - 1) + 1]@) == row_of(entries@[j - 1]));
            }
        }
        assert(all =~= export_rows(entries@));
    }
    pack_table("Plays", &rows)
}

/// Both exports show the same rows: the line of an entry holds exactly the
/// texts of its row, and the workbook holds them unquoted.
pub proof fn exports_agree(entries: Seq<PlayLogEntry>, i: int)
    requires
        0 <= i < entries.len(),
    ensures
        export_rows(entries)[i + 1] == row_of(entries[i]),
        row_of(entries[i]).len() == column_names().len(),
        lines_text(entries.take(i + 1)) == lines_text(entries.take(i)) + line_text(
            export_rows(entries)[i + 1],
        ),
{
    assert(entries.take(i + 1).drop_last() =~= entries.take(i));
    assert(entries.take(i + 1).last() == entries[i]);
}

/// A report covers exactly the plays from the first moment to the last, both
/// included, and starts with the newest.
pub proof fn reports_cover_their_range(
    log: Seq<PlayRow>,
    from: Seq<char>,
    to: Seq<char>,
    p: PlayRow,
    i: int,
    j: int,
)
    ensures
        window(log, from, to).contains(p) <==> log.contains(p) && (p.played_at@ == from
            || text::text_lt(from, p.played_at@)) && (p.played_at@ == to || text::text_lt(
            p.played_at@,
            to,
        )),
        0 <= i < j < window(log, from, to).len() ==> window(log, from, to)[i].played_at@ == window(
            log,
            from,
            to,
        )[j].played_at@ || text::text_lt(
            window(log, from, to)[j].played_at@,
            window(log, from, to)[i].played_at@,
        ),
{
    let test = |p: PlayRow| within(p, from, to);
    let hits = log.filter(test);
    text::text_order_is_total(p.played_at@, from);
    text::text_order_is_total(p.played_at@, to);
    rank::ranking_keeps_members(ByNewest, hits, p);
    rank::ranking_orders(ByNewest, hits);
    lemma_hits(log, test, p);
    let w = window(log, from, to);
    if 0 <= i < j < w.len() {
        assert(!ByNewest.before(w[j], w[i]));
        text::text_order_is_total(w[i].played_at@, w[j].played_at@);
    }
}

proof fn lemma_hits(s: Seq<PlayRow>, p: spec_fn(PlayRow) -> bool, t: PlayRow)
    ensures
        s.filter(p).contains(t) <==> s.contains(t) && p(t),
{
    if s.filter(p).contains(t) {
        s.lemma_filter_contains_rev(p, t);
        let i = choose|i: int| 0 <= i < s.filter(p).len() && s.filter(p)[i] == t;
        s.lemma_filter_pred(p, i);
    }
    if s.contains(t) && p(t) {
        let i = choose|i: int| 0 <= i < s.len() && s[i] == t;
        s.lemma_filter_contains(p, i);
    }
}

/// A play is left out of a report exactly where the kind of its track is
/// excluded, and what is told of it is told by its track: the title, or the
/// file name where there is none, the artist, or nothing, and the kind.
pub proof fn reports_tell_of_their_tracks(
    rows: Seq<PlayRow>,
    tracks: Seq<Track>,
    exclude: Seq<TrackKind>,
    p: PlayRow,
    e: PlayLogEntry,
    i: int,
)
    requires
        table::distinct_keys(tracks),
        0 <= i < tracks.len(),
        tracks[i].id@ == p.track_id@,
    ensures
        kept(rows, tracks, exclude).contains(p) <==> rows.contains(p) && !exclude.contains(
            tracks[i].kind,
        ),
        tells(e, p, track_of(tracks, p)) ==> {
            &&& tracks[i].title is Some ==> e.title@ == tracks[i].title->0@
            &&& tracks[i].title is None ==> e.title@ == tracks[i].file_name@
            &&& tracks[i].artist is Some ==> e.artist@ == tracks[i].artist->0@
            &&& tracks[i].artist is None ==> e.artist@.len() == 0
            &&& e.kind == tracks[i].kind
            &&& e.duration_nanos == p.duration_nanos
            &&& clock::rfc3339_moment(p.played_at@) == Some(e.played_at)
        },
{
    let k = choose|k: int| 0 <= k < tracks.len() && (#[trigger] tracks[k]).id@ == p.track_id@;
    assert(k == i) by {
        assert(tracks[k].key() == tracks[i].key());
        if k < i {
            assert(tracks[k].key() != tracks[i].key());
        } else if i < k {
            assert(tracks[i].key() != tracks[k].key());
        }
    }
    assert(track_of(tracks, p) == tracks[i]);
    lemma_hits(rows, |p: PlayRow| !exclude.contains(track_of(tracks, p).kind), p);
}

/// Each column of an export holds what its name says.
pub proof fn columns_hold_what_they_say(e: PlayLogEntry, i: int)
    requires
        0 <= i < column_names().len(),
    ensures
        column_names()[i] == "played_at"@ ==> row_of(e)[i] == clock::rfc3339_text(
            e.played_at.secs as int,
            e.played_at.nanos as int,
        ),
        column_names()[i] == "title"@ ==> row_of(e)[i] == e.title@,
        column_names()[i] == "artist"@ ==> row_of(e)[i] == e.artist@,
        column_names()[i] == "kind"@ ==> kind::kind_from_name(row_of(e)[i]) == e.kind,
        column_names()[i] == "duration_secs"@ && e.duration_nanos is None ==> row_of(e)[i].len() == 0,
        column_names()[i] == "duration_secs"@ && e.duration_nanos is Some ==> row_of(e)[i]
            == seconds_of(e.duration_nanos->0 as nat),
        column_names().contains("played_at"@) && column_names().contains("title"@)
            && column_names().contains("artist"@) && column_names().contains("kind"@)
            && column_names().contains("duration_secs"@),
{
    reveal_strlit("played_at");
    reveal_strlit("title");
    reveal_strlit("artist");
    reveal_strlit("kind");
    reveal_strlit("duration_secs");
    kind::kind_names_read_back(e.kind);
    let c = column_names();
    assert(c[0] == "played_at"@ && c[1] == "title"@ && c[2] == "artist"@ && c[3] == "kind"@ && c[4]
        == "duration_secs"@);
    assert(c[0].len() == 9 && c[1].len() == 5 && c[2].len() == 6 && c[3].len() == 4 && c[4].len() == 13);
    assert(i == 0 || i == 1 || i == 2 || i == 3 || i == 4);
}

/// The number that digits behind a point stand for, in units of the first.
pub open spec fn fraction_value(s: Seq<char>, unit: nat) -> nat
    decreases s.len(),
{
    if s.len() == 0 {
        0
    } else {
        (s[0] as int - 48) as nat * unit + fraction_value(s.drop_first(), unit / 10)
    }
}

/// A power of ten.
pub open spec fn is_ten(unit: nat) -> bool
    decreases unit,
{
    unit == 1 || (unit > 0 && unit % 10 == 0 && is_ten(unit / 10))
}

proof fn lemma_fraction(f: nat, unit: nat)
    requires
        is_ten(unit),
        f < 10 * unit,
    ensures
        fraction_value(fraction(f, unit), unit) == f,
        forall|i: int|
            0 <= i < fraction(f, unit).len() ==> '0' <= (#[trigger] fraction(f, unit)[i]) <= '9',
    decreases unit,
{
    if f > 0 {
        let d = f / unit;
        assert(d < 10) by (nonlinear_arith)
            requires
                f < 10 * unit,
                unit > 0,
                d == f / unit,
        ;
        assert(f == d * unit + f % unit) by (nonlinear_arith)
            requires
                unit > 0,
                d == f / unit,
        ;
        let rest = fraction(f % unit, unit / 10);
        if unit == 1 {
            assert(f % 1 == 0);
            assert(rest =~= Seq::empty());
        } else {
            assert(unit == 10 * (unit / 10));
            assert(f % unit < unit) by (nonlinear_arith)
                requires
                    unit > 0,
            ;
            lemma_fraction(f % unit, unit / 10);
        }
        let s = fraction(f, unit);
        assert(s.drop_first() =~= rest);
        assert(d % 10 == d);
        assert(s[0] == text::digit_char(d));
        assert(s[0] as int - 48 == d);
        assert(fraction_value(rest, unit / 10) == f % unit);
        assert forall|i: int| 0 <= i < s.len() implies '0' <= (#[trigger] s[i]) <= '9' by {
            if i > 0 {
                assert(s[i] == rest[i - 1]);
            }
        }
    }
}

/// Lengths read back to the nanosecond: the digits before the point are the
/// whole seconds, and those behind it the rest.
pub proof fn lengths_read_back(nanos: nat)
    ensures
        nanos % 1_000_000_000 == 0 ==> text::digits_value(seconds_of(nanos)) == Some(
            nanos / 1_000_000_000,
        ),
        nanos % 1_000_000_000 != 0 ==> exists|at: int|
            0 < at < seconds_of(nanos).len() && #[trigger] seconds_of(nanos)[at] == '.'
                && text::digits_value(seconds_of(nanos).take(at)) == Some(nanos / 1_000_000_000)
                && fraction_value(seconds_of(nanos).skip(at + 1), 100_000_000) == nanos
                % 1_000_000_000,
{
    reveal_strlit(".");
    let whole = text::decimal(nanos / 1_000_000_000);
    text::decimal_reads_back(nanos / 1_000_000_000);
    if nanos % 1_000_000_000 != 0 {
        reveal_with_fuel(is_ten, 10);
        assert(is_ten(100_000_000));
        lemma_fraction(nanos % 1_000_000_000, 100_000_000);
        let s = seconds_of(nanos);
        let at = whole.len() as int;
        assert(s[at] == '.');
        assert(s.take(at) =~= whole);
        assert(s.skip(at + 1) =~= fraction(nanos % 1_000_000_000, 100_000_000));
    }
}

/// The cells of a line, read one after the other up to its end.
pub open spec fn read_line(s: Seq<char>) -> Seq<Seq<char>>
    decreases s.len(),
{
    let cell = read_cell(s).0;
    let rest = read_cell(s).1;
    if 0 < rest.len() <= s.len() && rest[0] == ',' {
        seq![cell] + read_line(rest.drop_first())
    } else {
        seq![cell]
    }
}

proof fn lemma_rest_is_shorter(s: Seq<char>)
    ensures
        read_cell(s).1.len() <= s.len(),
        read_plain(s).1.len() <= s.len(),
        read_quoted(s).1.len() <= s.len(),
    decreases s.len(),
{
    if s.len() > 0 {
        lemma_rest_is_shorter(s.drop_first());
        if s.len() > 1 {
            lemma_rest_is_shorter(s.skip(2));
        }
    }
}

proof fn lemma_join_front(cells: Seq<Seq<char>>, sep: Seq<char>)
    requires
        cells.len() > 1,
    ensures
        text::join(cells, sep) == cells[0] + sep + text::join(cells.drop_first(), sep),
    decreases cells.len(),
{
    let rest = cells.drop_first();
    let front = cells.drop_last();
    if cells.len() == 2 {
        assert(front =~= seq![cells[0]]);
        assert(rest =~= seq![cells[1]]);
        assert(text::join(front, sep) == cells[0]);
        assert(text::join(rest, sep) == cells[1]);
    } else {
        lemma_join_front(front, sep);
        assert(rest.drop_last() =~= front.drop_first());
        assert(text::join(cells, sep) =~= cells[0] + sep + text::join(rest, sep));
    }
}

/// A line of the text export reads back as its cells, whatever they hold.
pub proof fn lines_read_back(cells: Seq<Seq<char>>)
    requires
        cells.len() > 0,
    ensures
        read_line(line_text(cells)) == cells,
    decreases cells.len(),
{
    reveal_strlit(",");
    reveal_strlit("\n");
    let f = |c: Seq<char>| cell_text(c);
    let texts = cells.map_values(f);
    let line = line_text(cells);
    let tail = cells.drop_first();
    lemma_rest_is_shorter(line);
    if cells.len() == 1 {
        assert(texts =~= seq![cell_text(cells[0])]);
        assert(line =~= cell_text(cells[0]) + "\n"@);
        cells_read_back(cells[0], "\n"@);
        assert(read_line(line) =~= cells);
    } else {
        lemma_join_front(texts, ","@);
        assert(texts.drop_first() =~= tail.map_values(f));
        let rest = ","@ + line_text(tail);
        assert(line =~= cell_text(cells[0]) + rest);
        cells_read_back(cells[0], rest);
        assert(rest.drop_first() =~= line_text(tail));
        lines_read_back(tail);
        assert(rest[0] == ',');
        assert(read_cell(line) == (cells[0], rest));
        assert(read_line(rest.drop_first()) == tail);
        assert(rest.len() <= line.len());
        assert(read_line(line) == seq![cells[0]] + tail);
        assert(read_line(line) =~= cells);
    }
}

} // verus!
