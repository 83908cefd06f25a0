//! Finding tracks by a query.

use vstd::prelude::*;
use vstd::string::*;

use crate::error::CrabError;
use crate::library::catalog::Library;
use crate::library::track::{opt_before, Track};
use crate::rank::{rank, Order};
use crate::table::{choose_rows, copy_all};
use crate::text::{chars_of, fold_one};
use crate::library::track;
use crate::rank;
use crate::table;
use crate::text;

verus! {

/// A text fits a pattern in which `%` stands for any characters and `_` for
/// any one; ASCII letters count alike in either case.
pub open spec fn like(pattern: Seq<char>, s: Seq<char>) -> bool
    decreases pattern.len() + s.len(),
{
    if pattern.len() == 0 {
        s.len() == 0
    } else if pattern[0] == '%' {
        like(pattern.drop_first(), s) || (s.len() > 0 && like(pattern, s.drop_first()))
    } else {
        s.len() > 0 && (pattern[0] == '_' || text::fold_char(pattern[0]) == text::fold_char(s[0]))
            && like(pattern.drop_first(), s.drop_first())
    }
}

/// The pattern of a query: it may stand anywhere.
pub open spec fn anywhere(query: Seq<char>) -> Seq<char> {
    seq!['%'] + query + seq!['%']
}

/// A field is there and holds the query.
pub open spec fn field_fits(field: Option<Seq<char>>, query: Seq<char>) -> bool {
    field matches Some(s) && like(anywhere(query), s)
}

/// Some field of a track holds the query.
pub open spec fn fits(t: Track, query: Seq<char>) -> bool {
    ||| field_fits(text::opt_text(t.title), query)
    ||| field_fits(text::opt_text(t.artist), query)
    ||| field_fits(text::opt_text(t.album), query)
    ||| field_fits(Some(t.file_name@), query)
    ||| field_fits(text::opt_text(t.genre), query)
}

/// For each place in a text, whether the rest of it fits the rest of a
/// pattern.
spec fn row_of(pattern: Seq<char>, s: Seq<char>, i: int, row: Seq<bool>) -> bool {
    row.len() == s.len() + 1 && forall|j: int|
        0 <= j <= s.len() ==> #[trigger] row[j] == like(pattern.skip(i), s.skip(j))
}

/// Whether a text fits a pattern.
pub fn is_like(pattern: &Vec<char>, s: &str) -> (r: bool)
    ensures
        r == like(pattern@, s@),
{
    let v = chars_of(s);
    let n: usize = v.len();
    let mut row: Vec<bool> = Vec::new();
    while row.len() < n
        invariant
            n == v@.len(),
            row@.len() <= n,
            forall|j: int| 0 <= j < row@.len() ==> #[trigger] row@[j] == false,
        decreases n - row@.len(),
    {
        row.push(false);
    }
    row.push(true);
    let mut i: usize = pattern.len();
    assert(row_of(pattern@, v@, i as int, row@));
    while i > 0
        invariant
            i <= pattern@.len(),
            n == v@.len(),
            row_of(pattern@, v@, i as int, row@),
        decreases i,
    {
        i = i - 1;
        let c = pattern[i];
        let mut next: Vec<bool> = Vec::new();
        let wide: usize = row.len();
        while next.len() < wide
            invariant
                next@.len() <= wide,
            decreases wide - next@.len(),
        {
            next.push(false);
        }
        let mut j: usize = wide;
        assert(pattern@.skip(i as int).drop_first() =~= pattern@.skip(i + 1));
        while j > 0
            invariant
                i < pattern@.len(),
                c == pattern@[i as int],
                j <= n + 1,
                n == v@.len(),
                next@.len() == n + 1,
                row_of(pattern@, v@, i + 1, row@),
                pattern@.skip(i as int).drop_first() == pattern@.skip(i + 1),
                forall|k: int|
                    j <= k <= n ==> #[trigger] next@[k] == like(pattern@.skip(i as int), v@.skip(k)),
            decreases j,
        {
            j = j - 1;
            if j < n {
                assert(v@.skip(j as int).drop_first() =~= v@.skip(j + 1));
            }
            let fit = if c == '%' {
                row[j] || (j < n && next[j + 1])
            } else {
                j < n && (c == '_' || fold_one(c) == fold_one(v[j])) && row[j + 1]
            };
            next.set(j, fit);
        }
        row = next;
    }
    assert(pattern@.skip(0) =~= pattern@);
    assert(v@.skip(0) =~= v@);
    row[0]
}

/// Listed by title; missing ones in front.
pub struct ByTitle;

impl Order<Track> for ByTitle {
    open spec fn before(self, a: Track, b: Track) -> bool {
        track::opt_lt(text::opt_text(a.title), text::opt_text(b.title))
    }

    proof fn is_weak_order(self, a: Track, b: Track, c: Track) {
        let (x, y, z) = (text::opt_text(a.title), text::opt_text(b.title), text::opt_text(c.title));
        track::missing_come_first(x, y, z);
        track::missing_come_first(y, z, x);
        track::missing_come_first(x, z, y);
    }

    fn is_ahead(&self, a: &Track, b: &Track) -> (r: bool) {
        opt_before(&a.title, &b.title)
    }
}

fn has_like(field: &Option<String>, pattern: &Vec<char>) -> (r: bool)
    ensures
        r == (text::opt_text(*field) matches Some(s) && like(pattern@, s)),
{
    match field {
        Some(s) => is_like(pattern, s.as_str()),
        None => false,
    }
}

impl Library {
    /// The tracks that hold a query in their title, artist, album, file name
    /// or genre, by title.
    pub fn search(&self, query: &str) -> (r: Result<Vec<Track>, CrabError>)
        ensures
            r matches Ok(v) && v@ == rank::ranked(
                ByTitle,
                self.tracks@.filter(|t: Track| fits(t, query@)),
            ),
    {
        let mut pattern: Vec<char> = vec!['%'];
        let mut letters = chars_of(query);
        pattern.append(&mut letters);
        pattern.push('%');
        assert(pattern@ =~= anywhere(query@));
        let mut test: Vec<bool> = Vec::new();
        let mut i: usize = 0;
        while i < self.tracks.len()
            invariant
                i <= self.tracks.len(),
                pattern@ == anywhere(query@),
                test@.len() == i,
                forall|j: int| 0 <= j < i ==> #[trigger] test@[j] == fits(self.tracks@[j], query@),
            decreases self.tracks.len() - i,
        {
            let t = &self.tracks[i];
            let hit = has_like(&t.title, &pattern) || has_like(&t.artist, &pattern) || has_like(
                &t.album,
                &pattern,
            ) || is_like(&pattern, t.file_name.as_str()) || has_like(&t.genre, &pattern);
            test.push(hit);
            i = i + 1;
        }
        proof {
            table::choosing_is_filtering(self.tracks@, test@, |t: Track| fits(t, query@));
        }
        Ok(rank(ByTitle, choose_rows(copy_all(&self.tracks), &test)))
    }
}

/// No character of this text stands for others.
pub open spec fn literal(s: Seq<char>) -> bool {
    forall|i: int| 0 <= i < s.len() ==> (#[trigger] s[i]) != '%' && s[i] != '_'
}

proof fn lemma_tail_fits(s: Seq<char>)
    ensures
        like(seq!['%'], s),
    decreases s.len(),
{
    assert(seq!['%'].drop_first() =~= Seq::<char>::empty());
    assert(like(Seq::<char>::empty(), s) == (s.len() == 0));
    if s.len() > 0 {
        lemma_tail_fits(s.drop_first());
    }
}

proof fn lemma_head_fits(q: Seq<char>, s: Seq<char>)
    requires
        literal(q),
    ensures
        like(q + seq!['%'], s) == text::begins(text::fold(s), text::fold(q)),
    decreases q.len(),
{
    let p = q + seq!['%'];
    if q.len() == 0 {
        assert(p =~= seq!['%']);
        lemma_tail_fits(s);
        assert(text::fold(s).subrange(0, 0) =~= text::fold(q));
    } else {
        assert(p.drop_first() =~= q.drop_first() + seq!['%']);
        assert(q[0] != '%' && q[0] != '_');
        assert forall|i: int| 0 <= i < q.drop_first().len() implies (
        #[trigger] q.drop_first()[i]) != '%' && q.drop_first()[i] != '_' by {
            assert(q[i + 1] != '%' && q[i + 1] != '_');
        }
        if s.len() > 0 {
            let (qs, ss) = (text::fold(q), text::fold(s));
            let (qt, st) = (text::fold(q.drop_first()), text::fold(s.drop_first()));
            lemma_head_fits(q.drop_first(), s.drop_first());
            if text::begins(ss, qs) {
                assert(ss.subrange(0, qs.len() as int)[0] == qs[0]);
                assert(st.subrange(0, qt.len() as int) =~= qt) by {
                    assert forall|i: int| 0 <= i < qt.len() implies st[i] == qt[i] by {
                        assert(ss.subrange(0, qs.len() as int)[i + 1] == qs[i + 1]);
                    }
                }
            }
            if text::begins(st, qt) && ss[0] == qs[0] {
                assert(ss.subrange(0, qs.len() as int) =~= qs) by {
                    assert forall|i: int| 0 <= i < qs.len() implies ss[i] == qs[i] by {
                        if i > 0 {
                            assert(st.subrange(0, qt.len() as int)[i - 1] == qt[i - 1]);
                        }
                    }
                }
            }
        }
    }
}

/// A query without wildcards is found exactly where it occurs, whatever the
/// case of its ASCII letters; and the empty query is found everywhere.
pub proof fn plain_queries_find_what_holds_them(q: Seq<char>, s: Seq<char>)
    requires
        literal(q),
    ensures
        like(anywhere(q), s) == text::holds(text::fold(s), text::fold(q)),
        q.len() == 0 ==> like(anywhere(q), s),
    decreases s.len(),
{
    let p = anywhere(q);
    let (fs, fq) = (text::fold(s), text::fold(q));
    assert(p.drop_first() =~= q + seq!['%']);
    lemma_head_fits(q, s);
    if text::begins(fs, fq) {
        assert(text::occurs_at(fs, fq, 0));
    }
    if s.len() > 0 {
        let t = s.drop_first();
        let ft = text::fold(t);
        plain_queries_find_what_holds_them(q, t);
        if text::holds(ft, fq) {
            let i = choose|i: int| text::occurs_at(ft, fq, i);
            assert(fs.subrange(i + 1, i + 1 + fq.len()) =~= ft.subrange(i, i + fq.len()));
            assert(text::occurs_at(fs, fq, i + 1));
        }
        if text::holds(fs, fq) {
            let i = choose|i: int| text::occurs_at(fs, fq, i);
            if i > 0 {
                assert(ft.subrange(i - 1, i - 1 + fq.len()) =~= fs.subrange(i, i + fq.len()));
                assert(text::occurs_at(ft, fq, i - 1));
            }
        }
    } else if text::holds(fs, fq) {
        let i = choose|i: int| text::occurs_at(fs, fq, i);
        assert(i == 0);
    }
    if q.len() == 0 {
        assert(fs.subrange(0, 0) =~= fq);
    }
}

/// A plain query finds a track exactly where its title, artist, album, genre or
/// file name holds it, in any case.
pub proof fn queries_look_into_every_field(t: Track, q: Seq<char>)
    requires
        literal(q),
    ensures
        fits(t, q) <==> (t.title is Some && text::holds(text::fold(t.title->0@), text::fold(q))) || (
        t.artist is Some && text::holds(text::fold(t.artist->0@), text::fold(q))) || (t.album is Some
            && text::holds(text::fold(t.album->0@), text::fold(q))) || (t.genre is Some
            && text::holds(text::fold(t.genre->0@), text::fold(q))) || text::holds(
            text::fold(t.file_name@),
            text::fold(q),
        ),
{
    if t.title is Some {
        plain_queries_find_what_holds_them(q, t.title->0@);
    }
    if t.artist is Some {
        plain_queries_find_what_holds_them(q, t.artist->0@);
    }
    if t.album is Some {
        plain_queries_find_what_holds_them(q, t.album->0@);
    }
    if t.genre is Some {
        plain_queries_find_what_holds_them(q, t.genre->0@);
    }
    plain_queries_find_what_holds_them(q, t.file_name@);
}

/// What a search finds comes in the order of titles, those without one in
/// front, and each track that fits is found once.
pub proof fn finds_come_by_title(tracks: Seq<Track>, q: Seq<char>, i: int, j: int)
    requires
        0 <= i < j < rank::ranked(ByTitle, tracks.filter(|t: Track| fits(t, q))).len(),
    ensures
        ({
            let found = rank::ranked(ByTitle, tracks.filter(|t: Track| fits(t, q)));
            &&& found[i].title is Some ==> found[j].title is Some && !text::text_lt(
                found[j].title->0@,
                found[i].title->0@,
            )
            &&& found.to_multiset() == tracks.filter(|t: Track| fits(t, q)).to_multiset()
        }),
{
    let hits = tracks.filter(|t: Track| fits(t, q));
    let found = rank::ranked(ByTitle, hits);
    rank::ranking_orders(ByTitle, hits);
    assert(!ByTitle.before(found[j], found[i]));
}

/// In a query, an underline stands for any one character, and a percent sign
/// for any run of them, also for none; every other character stands for itself,
/// in any case.
pub proof fn wildcards_stand_for_others(p: Seq<char>, s: Seq<char>, c: char)
    requires
        c != '%',
        c != '_',
    ensures
        like(seq!['_'] + p, s) <==> s.len() > 0 && like(p, s.skip(1)),
        like(seq!['%'] + p, s) <==> exists|k: int| 0 <= k <= s.len() && like(p, #[trigger] s.skip(k)),
        like(seq![c] + p, s) <==> s.len() > 0 && text::fold(seq![c]) == text::fold(seq![s[0]]) && like(
            p,
            s.skip(1),
        ),
        like(Seq::empty(), s) <==> s.len() == 0,
    decreases s.len(),
{
    assert((seq!['_'] + p).drop_first() =~= p);
    assert((seq!['%'] + p).drop_first() =~= p);
    assert((seq![c] + p).drop_first() =~= p);
    if s.len() > 0 {
        assert(s.drop_first() =~= s.skip(1));
        let a = text::fold(seq![c]);
        let b = text::fold(seq![s[0]]);
        assert(a[0] == text::fold_char(c) && b[0] == text::fold_char(s[0]));
        if text::fold_char(c) == text::fold_char(s[0]) {
            assert(a =~= b);
        }
        wildcards_stand_for_others(p, s.drop_first(), c);
        let t = s.drop_first();
        if exists|k: int| 0 <= k <= t.len() && like(p, #[trigger] t.skip(k)) {
            let k = choose|k: int| 0 <= k <= t.len() && like(p, #[trigger] t.skip(k));
            assert(t.skip(k) =~= s.skip(k + 1));
            assert(like(p, s.skip(k + 1)));
        }
        if exists|k: int| 0 <= k <= s.len() && like(p, #[trigger] s.skip(k)) {
            let k = choose|k: int| 0 <= k <= s.len() && like(p, #[trigger] s.skip(k));
            if k > 0 {
                assert(s.skip(k) =~= t.skip(k - 1));
                assert(like(p, t.skip(k - 1)));
            } else {
                assert(s.skip(0) =~= s);
            }
        }
        if like(p, s) {
            assert(s.skip(0) =~= s);
            assert(like(p, s.skip(0)));
        }
    } else {
        assert(s.skip(0) =~= s);
        if exists|k: int| 0 <= k <= s.len() && like(p, #[trigger] s.skip(k)) {
            let k = choose|k: int| 0 <= k <= s.len() && like(p, #[trigger] s.skip(k));
            assert(k == 0);
        }
        if like(p, s) {
            assert(like(p, s.skip(0)));
        }
    }
}

} // verus!
