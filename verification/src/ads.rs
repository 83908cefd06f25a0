//! Commercial breaks: an optional intro, the spot, an optional outro, fired
//! at a time of day on given weekdays inside a validity window.

use vstd::prelude::*;
use vstd::string::*;

use crate::clock::{fresh_id, read_day};
use crate::days::covers_day;
use crate::error::CrabError;
use crate::rank::{rank, Order};
use crate::scheduler::check_time;
use crate::table::{choose_rows, copy_all, find_key, remove_key, Keyed};
use crate::text::{blank, same_text, text_before, trim};
use crate::clock;
use crate::days;
use crate::rank;
use crate::table;
use crate::text;

verus! {

/// One commercial break. Days are numbered as in [`crate::clock`].
#[derive(Debug, Clone)]
pub struct AdBlock {
    pub id: String,
    pub name: String,
    /// The commercial audio (required).
    pub spot_path: String,
    /// Optional sting played immediately before the spot.
    pub intro_path: Option<String>,
    /// Optional sting queued right after the spot.
    pub outro_path: Option<String>,
    pub start_date: i32,
    pub end_date: i32,
    /// Daily start time as `HH:MM` (24h).
    pub play_time: String,
    /// `Daily` or a comma list like `Mon,Tue`.
    pub days: String,
    pub enabled: bool,
}

/// A break as it is stored: dates and stings are plain text.
#[derive(Debug)]
pub struct StoredAd {
    pub id: String,
    pub name: String,
    pub spot_path: String,
    pub intro_path: String,
    pub outro_path: String,
    pub start_date: String,
    pub end_date: String,
    pub play_time: String,
    pub days: String,
    pub enabled: bool,
}

/// The contents of a stored break.
pub ghost struct AdView {
    pub id: Seq<char>,
    pub name: Seq<char>,
    pub spot_path: Seq<char>,
    pub intro_path: Seq<char>,
    pub outro_path: Seq<char>,
    pub start_date: Seq<char>,
    pub end_date: Seq<char>,
    pub play_time: Seq<char>,
    pub days: Seq<char>,
    pub enabled: bool,
}

impl View for StoredAd {
    type V = AdView;

    open spec fn view(&self) -> AdView {
        AdView {
            id: self.id@,
            name: self.name@,
            spot_path: self.spot_path@,
            intro_path: self.intro_path@,
            outro_path: self.outro_path@,
            start_date: self.start_date@,
            end_date: self.end_date@,
            play_time: self.play_time@,
            days: self.days@,
            enabled: self.enabled,
        }
    }
}

impl Clone for StoredAd {
    fn clone(&self) -> (r: Self)
        ensures
            r == *self,
    {
        StoredAd {
            id: self.id.clone(),
            name: self.name.clone(),
            spot_path: self.spot_path.clone(),
            intro_path: self.intro_path.clone(),
            outro_path: self.outro_path.clone(),
            start_date: self.start_date.clone(),
            end_date: self.end_date.clone(),
            play_time: self.play_time.clone(),
            days: self.days.clone(),
            enabled: self.enabled,
        }
    }
}

impl Keyed for StoredAd {
    open spec fn key(self) -> Seq<char> {
        self.id@
    }

    fn key_is(&self, id: &str) -> (r: bool) {
        same_text(self.id.as_str(), id)
    }

    fn duplicate(&self) -> (r: Self) {
        self.clone()
    }
}

/// Listed by play time, then by name.
pub struct ByPlayTime;

impl Order<StoredAd> for ByPlayTime {
    open spec fn before(self, a: StoredAd, b: StoredAd) -> bool {
        text::text_lt(a.play_time@, b.play_time@) || (a.play_time@ == b.play_time@ && text::text_lt(
            a.name@,
            b.name@,
        ))
    }

    proof fn is_weak_order(self, a: StoredAd, b: StoredAd, c: StoredAd) {
        text::text_order_is_total(a.play_time@, b.play_time@);
        text::text_order_is_total(b.play_time@, c.play_time@);
        text::text_order_is_total(a.play_time@, c.play_time@);
        text::text_order_is_total(a.name@, b.name@);
        text::text_order_is_total(b.name@, c.name@);
        text::text_order_is_total(a.name@, c.name@);
        if text::text_lt(a.play_time@, b.play_time@) && text::text_lt(b.play_time@, c.play_time@) {
            text::text_order_is_transitive(a.play_time@, b.play_time@, c.play_time@);
        }
        if text::text_lt(a.name@, b.name@) && text::text_lt(b.name@, c.name@) {
            text::text_order_is_transitive(a.name@, b.name@, c.name@);
        }
    }

    fn is_ahead(&self, a: &StoredAd, b: &StoredAd) -> (r: bool) {
        if text_before(a.play_time.as_str(), b.play_time.as_str()) {
            return true;
        }
        same_text(a.play_time.as_str(), b.play_time.as_str()) && text_before(
            a.name.as_str(),
            b.name.as_str(),
        )
    }
}

/// A break fires on a day, at a time and on a weekday.
pub open spec fn ad_due(b: AdBlock, date: i32, hhmm: Seq<char>, weekday: Seq<char>) -> bool {
    &&& b.enabled
    &&& b.play_time@ == hhmm
    &&& b.start_date <= date <= b.end_date
    &&& days::day_listed(b.days@, weekday)
}

/// One clip of a chain, where it is named and its file is there.
pub open spec fn link(path: Option<Seq<char>>, there: bool) -> Seq<Seq<char>> {
    match path {
        Some(p) => if !text::is_blank(p) && there {
            seq![p]
        } else {
            Seq::empty()
        },
        None => Seq::empty(),
    }
}

impl AdBlock {
    /// Whether this break fires now; `date` bounds the validity window.
    pub fn is_due(&self, date: i32, hhmm: &str, weekday: &str) -> (r: bool)
        ensures
            r == ad_due(*self, date, hhmm@, weekday@),
    {
        if !self.enabled || !same_text(self.play_time.as_str(), hhmm) {
            return false;
        }
        if date < self.start_date || date > self.end_date {
            return false;
        }
        covers_day(self.days.as_str(), weekday)
    }

    /// The clips of the break in order: those that are named and whose files
    /// are there, as the caller found them on disk.
    pub fn chain(&self, intro_there: bool, spot_there: bool, outro_there: bool) -> (r: Vec<String>)
        ensures
            text::texts(r@) == clips_of(
                text::opt_text(self.intro_path),
                self.spot_path@,
                text::opt_text(self.outro_path),
                intro_there,
                spot_there,
                outro_there,
            ),
    {
        let mut out: Vec<String> = Vec::new();
        match &self.intro_path {
            Some(p) => {
                if intro_there && !blank(p.as_str()) {
                    out.push(p.clone());
                }
            },
            None => {},
        }
        assert(text::texts(out@) =~= link(text::opt_text(self.intro_path), intro_there));
        let ghost first = text::texts(out@);
        if spot_there && !blank(self.spot_path.as_str()) {
            out.push(self.spot_path.clone());
        }
        assert(text::texts(out@) =~= first + link(Some(self.spot_path@), spot_there));
        let ghost second = text::texts(out@);
        match &self.outro_path {
            Some(p) => {
                if outro_there && !blank(p.as_str()) {
                    out.push(p.clone());
                }
            },
            None => {},
        }
        assert(text::texts(out@) =~= second + link(text::opt_text(self.outro_path), outro_there));
        out
    }
}

/// The clips of a break: those that are named and whose files are there.
pub open spec fn clips_of(
    intro: Option<Seq<char>>,
    spot: Seq<char>,
    outro: Option<Seq<char>>,
    intro_there: bool,
    spot_there: bool,
    outro_there: bool,
) -> Seq<Seq<char>> {
    link(intro, intro_there) + link(Some(spot), spot_there) + link(outro, outro_there)
}

/// The words for a date that is none.
pub open spec fn date_refusal(s: Seq<char>, field: Seq<char>) -> Seq<char> {
    "bad "@ + field + " '"@ + s + "', want YYYY-MM-DD"@
}

/// The number of the day that a text names; blanks around it do not matter.
fn parse_date(s: &str, field: &str) -> (r: Result<i32, CrabError>)
    ensures
        match r {
            Ok(d) => clock::day_number(text::trimmed(s@)) == Some(d),
            Err(CrabError::Scheduler(m)) => clock::day_number(text::trimmed(s@)) is None
                && m@ == date_refusal(
                s@,
                field@,
            ),
            Err(_) => false,
        },
{
    let t = trim(s);
    match read_day(t.as_str()) {
        Some(d) => Ok(d),
        None => {
            let mut m = String::from_str("bad ");
            m.append(field);
            m.append(" '");
            m.append(s);
            m.append("', want YYYY-MM-DD");
            Err(CrabError::Scheduler(m))
        },
    }
}

/// Why the fields of a break are refused, if they are.
pub open spec fn ad_refusal(
    name: Seq<char>,
    spot: Seq<char>,
    start: Seq<char>,
    end: Seq<char>,
    play_time: Seq<char>,
) -> Option<Seq<char>> {
    if text::is_blank(name) {
        Some("name is empty"@)
    } else if text::is_blank(spot) {
        Some("spot audio is required"@)
    } else if !days::is_hhmm(play_time) {
        Some("bad time '"@ + play_time + "', want HH:MM"@)
    } else if clock::day_number(text::trimmed(start)) is None {
        Some(date_refusal(start, "start date"@))
    } else if clock::day_number(text::trimmed(end)) is None {
        Some(date_refusal(end, "end date"@))
    } else if clock::day_number(text::trimmed(end))->0 < clock::day_number(text::trimmed(start))->0 {
        Some("end date is before start date"@)
    } else {
        None
    }
}

/// The checks on the fields of a break; gives its first and last day.
fn check_ad(name: &str, spot: &str, start: &str, end: &str, play_time: &str) -> (r: Result<
    (i32, i32),
    CrabError,
>)
    ensures
        match r {
            Ok((a, b)) => ad_refusal(name@, spot@, start@, end@, play_time@) is None && clock::day_number(
                text::trimmed(start@),
            ) == Some(a) && clock::day_number(text::trimmed(end@)) == Some(b),
            Err(CrabError::Scheduler(m)) => ad_refusal(name@, spot@, start@, end@, play_time@)
                == Some(m@),
            Err(_) => false,
        },
{
    if blank(name) {
        return Err(CrabError::Scheduler(String::from_str("name is empty")));
    }
    if blank(spot) {
        return Err(CrabError::Scheduler(String::from_str("spot audio is required")));
    }
    match check_time(play_time) {
        Ok(_) => {},
        Err(e) => {
            return Err(e);
        },
    }
    let first: i32 = match parse_date(start, "start date") {
        Ok(d) => d,
        Err(e) => {
            return Err(e);
        },
    };
    let last: i32 = match parse_date(end, "end date") {
        Ok(d) => d,
        Err(e) => {
            return Err(e);
        },
    };
    if last < first {
        return Err(CrabError::Scheduler(String::from_str("end date is before start date")));
    }
    Ok((first, last))
}

/// A sting as it is read: nothing when blank.
pub open spec fn sting(s: Seq<char>) -> Option<Seq<char>> {
    if text::is_blank(s) {
        None
    } else {
        Some(s)
    }
}

fn opt(s: &str) -> (r: Option<String>)
    ensures
        text::opt_text(r) == sting(s@),
{
    if blank(s) {
        None
    } else {
        Some(s.to_owned())
    }
}

/// January 1, 2000: the first day of a break whose stored one does not read.
pub const OPEN_START: i32 = 730120;

/// December 31, 2099: the last day of a break whose stored one does not read.
pub const OPEN_END: i32 = 766644;

/// The break that a stored row stands for.
pub open spec fn ad_matches(row: StoredAd, b: AdBlock) -> bool {
    &&& b.id@ == row.id@
    &&& b.name@ == row.name@
    &&& b.spot_path@ == row.spot_path@
    &&& text::opt_text(b.intro_path) == sting(row.intro_path@)
    &&& text::opt_text(b.outro_path) == sting(row.outro_path@)
    &&& b.start_date == (match clock::day_number(row.start_date@) {
        Some(d) => d,
        None => OPEN_START,
    })
    &&& b.end_date == (match clock::day_number(row.end_date@) {
        Some(d) => d,
        None => OPEN_END,
    })
    &&& b.play_time@ == row.play_time@
    &&& b.days@ == row.days@
    &&& b.enabled == row.enabled
}

/// A row fires on a day, at a time and on a weekday.
pub open spec fn row_due(row: StoredAd, date: i32, hhmm: Seq<char>, weekday: Seq<char>) -> bool {
    &&& row.enabled
    &&& row.play_time@ == hhmm
    &&& (match clock::day_number(row.start_date@) {
        Some(d) => d,
        None => OPEN_START,
    }) <= date
    &&& date <= (match clock::day_number(row.end_date@) {
        Some(d) => d,
        None => OPEN_END,
    })
    &&& days::day_listed(row.days@, weekday)
}

/// Two listings match record by record.
pub open spec fn ads_match(rows: Seq<StoredAd>, blocks: Seq<AdBlock>) -> bool {
    rows.len() == blocks.len() && forall|i: int|
        0 <= i < rows.len() ==> ad_matches(rows[i], #[trigger] blocks[i])
}

/// The stored breaks of the station.
#[derive(Debug)]
pub struct AdsManager {
    pub rows: Vec<StoredAd>,
}

impl AdsManager {
    /// No two rows share an id.
    pub open spec fn wf(self) -> bool {
        table::distinct_keys(self.rows@)
    }

    /// An empty store.
    pub fn new() -> (m: Self)
        ensures
            m.wf(),
            m.rows@ == Seq::<StoredAd>::empty(),
    {
        AdsManager { rows: Vec::new() }
    }

    /// Store a row as it stands; ids are unique.
    pub fn insert_row(&mut self, row: StoredAd) -> (r: Result<(), CrabError>)
        requires
            old(self).wf(),
        ensures
            final(self).wf(),
            match r {
                Ok(_) => !table::has_key(old(self).rows@, row.id@)
                    && final(self).rows@ == old(self).rows@.push(row),
                Err(CrabError::Database(m)) => table::has_key(old(self).rows@, row.id@) && final(self).rows@
                    == old(self).rows@ && m@ == "UNIQUE constraint failed: ad_blocks.id"@,
                Err(_) => false,
            },
    {
        if find_key(&self.rows, row.id.as_str()).is_some() {
            return Err(
                CrabError::Database(String::from_str("UNIQUE constraint failed: ad_blocks.id")),
            );
        }
        self.rows.push(row);
        Ok(())
    }

    /// Create a break with a given id.
    pub fn create_with(
        &mut self,
        id: String,
        name: &str,
        spot: &str,
        intro: &str,
        outro: &str,
        start: &str,
        end: &str,
        play_time: &str,
        days: &str,
    ) -> (r: Result<AdBlock, CrabError>)
        requires
            old(self).wf(),
        ensures
            final(self).wf(),
            match r {
                Ok(b) => {
                    &&& ad_refusal(name@, spot@, start@, end@, play_time@) is None
                    &&& !table::has_key(old(self).rows@, id@)
                    &&& final(self).rows@.len() == old(self).rows@.len() + 1
                    &&& final(self).rows@.drop_last() == old(self).rows@
                    &&& final(self).rows@.last()@ == (AdView {
                        id: id@,
                        name: name@,
                        spot_path: spot@,
                        intro_path: intro@,
                        outro_path: outro@,
                        start_date: start@,
                        end_date: end@,
                        play_time: play_time@,
                        days: days@,
                        enabled: true,
                    })
                    &&& b.id@ == id@
                    &&& b.name@ == name@
                    &&& b.spot_path@ == spot@
                    &&& text::opt_text(b.intro_path) == sting(intro@)
                    &&& text::opt_text(b.outro_path) == sting(outro@)
                    &&& clock::day_number(text::trimmed(start@)) == Some(b.start_date)
                    &&& clock::day_number(text::trimmed(end@)) == Some(b.end_date)
                    &&& b.play_time@ == play_time@
                    &&& b.days@ == days@
                    &&& b.enabled
                },
                Err(CrabError::Scheduler(m)) => ad_refusal(name@, spot@, start@, end@, play_time@)
                    == Some(m@) && final(self).rows@ == old(self).rows@,
                Err(CrabError::Database(m)) => ad_refusal(
                    name@,
                    spot@,
                    start@,
                    end@,
                    play_time@,
                ) is None && table::has_key(old(self).rows@, id@) && final(self).rows@ == old(self).rows@
                    && m@ == "UNIQUE constraint failed: ad_blocks.id"@,
                Err(_) => false,
            },
    {
        let (first, last) = match check_ad(name, spot, start, end, play_time) {
            Ok(d) => d,
            Err(e) => {
                return Err(e);
            },
        };
        let block = AdBlock {
            id: id.clone(),
            name: name.to_owned(),
            spot_path: spot.to_owned(),
            intro_path: opt(intro),
            outro_path: opt(outro),
            start_date: first,
            end_date: last,
            play_time: play_time.to_owned(),
            days: days.to_owned(),
            enabled: true,
        };
        let row = StoredAd {
            id,
            name: name.to_owned(),
            spot_path: spot.to_owned(),
            intro_path: intro.to_owned(),
            outro_path: outro.to_owned(),
            start_date: start.to_owned(),
            end_date: end.to_owned(),
            play_time: play_time.to_owned(),
            days: days.to_owned(),
            enabled: true,
        };
        match self.insert_row(row) {
            Ok(_) => {},
            Err(e) => {
                return Err(e);
            },
        }
        assert(self.rows@.drop_last() =~= old(self).rows@);
        Ok(block)
    }

    /// Create a break under a fresh id.
    pub fn create(
        &mut self,
        name: &str,
        spot: &str,
        intro: &str,
        outro: &str,
        start: &str,
        end: &str,
        play_time: &str,
        days: &str,
    ) -> (r: Result<AdBlock, CrabError>)
        requires
            old(self).wf(),
        ensures
            final(self).wf(),
            match r {
                Ok(b) => {
                    &&& ad_refusal(name@, spot@, start@, end@, play_time@) is None
                    &&& !table::has_key(old(self).rows@, b.id@)
                    &&& final(self).rows@.len() == old(self).rows@.len() + 1
                    &&& final(self).rows@.drop_last() == old(self).rows@
                    &&& final(self).rows@.last()@ == (AdView {
                        id: b.id@,
                        name: name@,
                        spot_path: spot@,
                        intro_path: intro@,
                        outro_path: outro@,
                        start_date: start@,
                        end_date: end@,
                        play_time: play_time@,
                        days: days@,
                        enabled: true,
                    })
                    &&& b.name@ == name@
                    &&& b.spot_path@ == spot@
                    &&& text::opt_text(b.intro_path) == sting(intro@)
                    &&& text::opt_text(b.outro_path) == sting(outro@)
                    &&& clock::day_number(text::trimmed(start@)) == Some(b.start_date)
                    &&& clock::day_number(text::trimmed(end@)) == Some(b.end_date)
                    &&& b.play_time@ == play_time@
                    &&& b.days@ == days@
                    &&& b.enabled
                },
                Err(CrabError::Scheduler(m)) => ad_refusal(name@, spot@, start@, end@, play_time@)
                    == Some(m@) && final(self).rows@ == old(self).rows@,
                Err(CrabError::Database(_)) => ad_refusal(
                    name@,
                    spot@,
                    start@,
                    end@,
                    play_time@,
                ) is None && old(self).rows@.len() > 0 && final(self).rows@ == old(self).rows@,
                Err(_) => false,
            },
    {
        self.create_with(fresh_id(), name, spot, intro, outro, start, end, play_time, days)
    }

    /// All breaks by play time and name. A stored date that does not read
    /// leaves its side of the window open.
    pub fn list_all(&self) -> (r: Result<Vec<AdBlock>, CrabError>)
        ensures
            r matches Ok(v) && ads_match(rank::ranked(ByPlayTime, self.rows@), v@),
    {
        let sorted = rank(ByPlayTime, copy_all(&self.rows));
        let mut out: Vec<AdBlock> = Vec::new();
        let mut k: usize = 0;
        while k < sorted.len()
            invariant
                k <= sorted.len(),
                out@.len() == k,
                forall|j: int| 0 <= j < k ==> ad_matches(sorted@[j], #[trigger] out@[j]),
            decreases sorted.len() - k,
        {
            let row = sorted[k].clone();
            let intro_path = opt(row.intro_path.as_str());
            let outro_path = opt(row.outro_path.as_str());
            let start_date: i32 = match read_day(row.start_date.as_str()) {
                Some(d) => d,
                None => OPEN_START,
            };
            let end_date: i32 = match read_day(row.end_date.as_str()) {
                Some(d) => d,
                None => OPEN_END,
            };
            out.push(
                AdBlock {
                    id: row.id,
                    name: row.name,
                    spot_path: row.spot_path,
                    intro_path,
                    outro_path,
                    start_date,
                    end_date,
                    play_time: row.play_time,
                    days: row.days,
                    enabled: row.enabled,
                },
            );
            k = k + 1;
        }
        Ok(out)
    }

    /// Overwrite the fields of a break; an unknown id changes nothing.
    pub fn update(
        &mut self,
        id: &str,
        name: &str,
        spot: &str,
        intro: &str,
        outro: &str,
        start: &str,
        end: &str,
        play_time: &str,
        days: &str,
    ) -> (r: Result<(), CrabError>)
        requires
            old(self).wf(),
        ensures
            final(self).wf(),
            match r {
                Ok(_) => {
                    &&& ad_refusal(name@, spot@, start@, end@, play_time@) is None
                    &&& final(self).rows@.len() == old(self).rows@.len()
                    &&& forall|i: int|
                        0 <= i < old(self).rows@.len() ==> if old(self).rows@[i].id@ == id@ {
                            (#[trigger] final(self).rows@[i])@ == (AdView {
                                name: name@,
                                spot_path: spot@,
                                intro_path: intro@,
                                outro_path: outro@,
                                start_date: start@,
                                end_date: end@,
                                play_time: play_time@,
                                days: days@,
                                ..old(self).rows@[i]@
                            })
                        } else {
                            final(self).rows@[i] == old(self).rows@[i]
                        }
                },
                Err(CrabError::Scheduler(m)) => ad_refusal(name@, spot@, start@, end@, play_time@)
                    == Some(m@) && final(self).rows@ == old(self).rows@,
                Err(_) => false,
            },
    {
        match check_ad(name, spot, start, end, play_time) {
            Ok(_) => {},
            Err(e) => {
                return Err(e);
            },
        }
        let mut i: usize = 0;
        while i < self.rows.len()
            invariant
                i <= self.rows.len(),
                self.rows@.len() == old(self).rows@.len(),
                forall|j: int|
                    i <= j < old(self).rows@.len() ==> #[trigger] self.rows@[j] == old(self).rows@[j],
                forall|j: int|
                    0 <= j < i ==> if old(self).rows@[j].id@ == id@ {
                        (#[trigger] self.rows@[j])@ == (AdView {
                            name: name@,
                            spot_path: spot@,
                            intro_path: intro@,
                            outro_path: outro@,
                            start_date: start@,
                            end_date: end@,
                            play_time: play_time@,
                            days: days@,
                            ..old(self).rows@[j]@
                        })
                    } else {
                        self.rows@[j] == old(self).rows@[j]
                    },
            decreases self.rows.len() - i,
        {
            if same_text(self.rows[i].id.as_str(), id) {
                let row = self.rows[i].clone();
                self.rows.set(
                    i,
                    StoredAd {
                        id: row.id,
                        name: name.to_owned(),
                        spot_path: spot.to_owned(),
                        intro_path: intro.to_owned(),
                        outro_path: outro.to_owned(),
                        start_date: start.to_owned(),
                        end_date: end.to_owned(),
                        play_time: play_time.to_owned(),
                        days: days.to_owned(),
                        enabled: row.enabled,
                    },
                );
            }
            i = i + 1;
        }
        assert forall|i: int, j: int| 0 <= i < j < self.rows@.len() implies (
        #[trigger] self.rows@[i]).key() != (#[trigger] self.rows@[j]).key() by {
            assert(old(self).rows@[i].key() != old(self).rows@[j].key());
            assert(self.rows@[i]@.id == old(self).rows@[i]@.id);
            assert(self.rows@[j]@.id == old(self).rows@[j]@.id);
        }
        Ok(())
    }

    /// Switch a break on or off; an unknown id changes nothing.
    pub fn set_enabled(&mut self, id: &str, enabled: bool) -> (r: Result<(), CrabError>)
        requires
            old(self).wf(),
        ensures
            r is Ok,
            final(self).wf(),
            final(self).rows@.len() == old(self).rows@.len(),
            forall|i: int|
                0 <= i < old(self).rows@.len() ==> #[trigger] final(self).rows@[i] == (if old(self).rows@[i].id@ == id@ {
                    StoredAd { enabled, ..old(self).rows@[i] }
                } else {
                    old(self).rows@[i]
                }),
    {
        let mut i: usize = 0;
        while i < self.rows.len()
            invariant
                i <= self.rows.len(),
                self.rows@.len() == old(self).rows@.len(),
                forall|j: int|
                    i <= j < old(self).rows@.len() ==> #[trigger] self.rows@[j] == old(self).rows@[j],
                forall|j: int|
                    0 <= j < i ==> #[trigger] self.rows@[j] == (if old(self).rows@[j].id@ == id@ {
                        StoredAd { enabled, ..old(self).rows@[j] }
                    } else {
                        old(self).rows@[j]
                    }),
            decreases self.rows.len() - i,
        {
            if same_text(self.rows[i].id.as_str(), id) {
                let mut row = self.rows[i].clone();
                row.enabled = enabled;
                self.rows.set(i, row);
            }
            i = i + 1;
        }
        assert forall|i: int, j: int| 0 <= i < j < self.rows@.len() implies (
        #[trigger] self.rows@[i]).key() != (#[trigger] self.rows@[j]).key() by {
            assert(old(self).rows@[i].key() != old(self).rows@[j].key());
        }
        Ok(())
    }

    /// Delete a break; an unknown id changes nothing.
    pub fn delete(&mut self, id: &str) -> (r: Result<(), CrabError>)
        requires
            old(self).wf(),
        ensures
            r is Ok,
            final(self).wf(),
            final(self).rows@ == table::without_key(old(self).rows@, id@),
            !table::has_key(final(self).rows@, id@),
    {
        remove_key(&mut self.rows, id);
        proof {
            table::removal_leaves_the_rest(old(self).rows@, id@);
        }
        Ok(())
    }

    /// Breaks that should fire now, in listing order.
    pub fn due_blocks(&self, date: i32, hhmm: &str, weekday: &str) -> (r: Result<
        Vec<AdBlock>,
        CrabError,
    >)
        ensures
            r matches Ok(v) && ads_match(
                rank::ranked(ByPlayTime, self.rows@).filter(|row: StoredAd| row_due(row, date, hhmm@, weekday@)),
                v@,
            ),
    {
        let all = match self.list_all() {
            Ok(v) => v,
            Err(e) => {
                return Err(e);
            },
        };
        let ghost rows = rank::ranked(ByPlayTime, self.rows@);
        let mut due: Vec<bool> = Vec::new();
        let mut i: usize = 0;
        while i < all.len()
            invariant
                i <= all.len(),
                due@.len() == i,
                ads_match(rows, all@),
                forall|j: int|
                    0 <= j < i ==> #[trigger] due@[j] == row_due(rows[j], date, hhmm@, weekday@),
            decreases all.len() - i,
        {
            assert(ad_matches(rows[i as int], all@[i as int]));
            due.push(all[i].is_due(date, hhmm, weekday));
            i = i + 1;
        }
        proof {
            table::choosing_is_filtering(
                rows,
                due@,
                |row: StoredAd| row_due(row, date, hhmm@, weekday@),
            );
            lemma_chosen_match(rows, all@, due@);
        }
        Ok(choose_rows(all, &due))
    }
}

proof fn lemma_chosen_match(rows: Seq<StoredAd>, blocks: Seq<AdBlock>, due: Seq<bool>)
    requires
        ads_match(rows, blocks),
        rows.len() <= due.len(),
    ensures
        ads_match(crate::table::chosen(rows, due), crate::table::chosen(blocks, due)),
    decreases rows.len(),
{
    if rows.len() > 0 {
        let a = rows.drop_last();
        let b = blocks.drop_last();
        assert forall|i: int| 0 <= i < a.len() implies ad_matches(a[i], #[trigger] b[i]) by {
            assert(ad_matches(rows[i], blocks[i]));
        }
        lemma_chosen_match(a, b, due);
        assert(ad_matches(rows[rows.len() - 1], blocks[rows.len() - 1]));
    }
}

/// A window is inclusive at both ends and closed outside them.
pub proof fn windows_are_inclusive(b: AdBlock, hhmm: Seq<char>, weekday: Seq<char>)
    requires
        b.enabled,
        b.play_time@ == hhmm,
        days::day_listed(b.days@, weekday),
        b.start_date <= b.end_date,
    ensures
        ad_due(b, b.start_date, hhmm, weekday),
        ad_due(b, b.end_date, hhmm, weekday),
        forall|d: i32| d < b.start_date || d > b.end_date ==> !ad_due(b, d, hhmm, weekday),
{
}

/// A break fires on every day of its window and on no other, only at its time,
/// only on the weekdays that it lists, and only while it is switched on. What
/// is stored and what is listed agree on it.
pub proof fn breaks_fire_within_their_window(
    row: StoredAd,
    b: AdBlock,
    date: i32,
    hhmm: Seq<char>,
    weekday: Seq<char>,
)
    ensures
        b.enabled && b.play_time@ == hhmm && days::day_listed(b.days@, weekday) ==> (ad_due(
            b,
            date,
            hhmm,
            weekday,
        ) <==> b.start_date <= date && date <= b.end_date),
        !b.enabled ==> !ad_due(b, date, hhmm, weekday),
        b.play_time@ != hhmm ==> !ad_due(b, date, hhmm, weekday),
        !days::day_listed(b.days@, weekday) ==> !ad_due(b, date, hhmm, weekday),
        ad_matches(row, b) ==> row_due(row, date, hhmm, weekday) == ad_due(b, date, hhmm, weekday),
{
}

/// The clips of a break come in the order intro, spot, outro. One that is not
/// named or whose file is not there is left out, and nothing takes its place.
pub proof fn breaks_run_from_intro_to_outro(
    intro: Option<Seq<char>>,
    spot: Seq<char>,
    outro: Option<Seq<char>>,
    intro_there: bool,
    spot_there: bool,
    outro_there: bool,
)
    ensures
        ({
            let clips = clips_of(intro, spot, outro, intro_there, spot_there, outro_there);
            let lead = if intro is Some && !text::is_blank(intro->0) && intro_there {
                1int
            } else {
                0
            };
            let mid = if !text::is_blank(spot) && spot_there {
                1int
            } else {
                0
            };
            let tail = if outro is Some && !text::is_blank(outro->0) && outro_there {
                1int
            } else {
                0
            };
            &&& clips.len() == lead + mid + tail
            &&& lead == 1 ==> clips[0] == intro->0
            &&& mid == 1 ==> clips[lead] == spot
            &&& tail == 1 ==> clips.last() == outro->0
        }),
{
}

/// The words that refuse a break come exactly for a blank name or spot, a time
/// that is none, a date that is none, or a window that ends before it starts.
pub proof fn sound_breaks_are_accepted(
    name: Seq<char>,
    spot: Seq<char>,
    start: Seq<char>,
    end: Seq<char>,
    play_time: Seq<char>,
)
    ensures
        ad_refusal(name, spot, start, end, play_time) is None <==> text::trimmed(name).len() > 0
            && text::trimmed(spot).len() > 0 && days::is_hhmm(play_time) && clock::day_number(
            text::trimmed(start),
        ) is Some && clock::day_number(text::trimmed(end)) is Some && clock::day_number(
            text::trimmed(start),
        )->0 <= clock::day_number(text::trimmed(end))->0,
{
}

/// The first fault of a break is told, whatever else is wrong: the name, the
/// spot, the time, the first day, the last day, their order; and a text that
/// cannot be read is shown.
pub proof fn faults_are_told_in_order(
    name: Seq<char>,
    spot: Seq<char>,
    start: Seq<char>,
    end: Seq<char>,
    play_time: Seq<char>,
    other: Seq<char>,
)
    ensures
        text::is_blank(name) ==> ad_refusal(name, spot, start, end, play_time) == ad_refusal(
            name,
            other,
            other,
            other,
            other,
        ),
        !text::is_blank(name) && text::is_blank(spot) ==> ad_refusal(name, spot, start, end, play_time)
            == ad_refusal(name, spot, other, other, other),
        !text::is_blank(name) && !text::is_blank(spot) && !days::is_hhmm(play_time) ==> ad_refusal(
            name,
            spot,
            start,
            end,
            play_time,
        ) == ad_refusal(name, spot, other, other, play_time) && text::holds(
            ad_refusal(name, spot, start, end, play_time)->0,
            play_time,
        ),
        !text::is_blank(name) && !text::is_blank(spot) && days::is_hhmm(play_time) && clock::day_number(
            text::trimmed(start),
        ) is None ==> ad_refusal(name, spot, start, end, play_time) == ad_refusal(
            name,
            spot,
            start,
            other,
            play_time,
        ) && ad_refusal(name, spot, start, end, play_time) == Some(date_refusal(start, "start date"@)),
        !text::is_blank(name) && !text::is_blank(spot) && days::is_hhmm(play_time) && clock::day_number(
            text::trimmed(start),
        ) is Some && clock::day_number(text::trimmed(end)) is None ==> ad_refusal(
            name,
            spot,
            start,
            end,
            play_time,
        ) == Some(date_refusal(end, "end date"@)),
        text::holds(date_refusal(start, other), start),
{
    text::middles_are_held("bad time '"@, play_time, "', want HH:MM"@);
    text::middles_are_held("bad "@ + other + " '"@, start, "', want YYYY-MM-DD"@);
}

/// A break whose days cannot be read runs from the first day of 2000 to the
/// last of 2099; a clip of blanks is none, and any other is kept as it is.
pub proof fn unread_days_leave_it_open(
    row: StoredAd,
    date: i32,
    hhmm: Seq<char>,
    weekday: Seq<char>,
    clip: Seq<char>,
)
    requires
        clock::day_number(row.start_date@) is None,
        clock::day_number(row.end_date@) is None,
        row.enabled,
        row.play_time@ == hhmm,
        days::day_listed(row.days@, weekday),
    ensures
        row_due(row, date, hhmm, weekday) <==> 730120 <= date <= 766644,
        text::trimmed(clip).len() == 0 ==> sting(clip) is None,
        text::trimmed(clip).len() > 0 ==> sting(clip) == Some(clip),
{
}

/// A break is read as it is stored.
pub proof fn breaks_are_read_as_stored(row: StoredAd, b: AdBlock)
    requires
        ad_matches(row, b),
    ensures
        b.id@ == row.id@ && b.name@ == row.name@ && b.spot_path@ == row.spot_path@ && b.play_time@
            == row.play_time@ && b.days@ == row.days@ && b.enabled == row.enabled,
        clock::day_number(row.start_date@) is Some ==> Some(b.start_date) == clock::day_number(
            row.start_date@,
        ),
        clock::day_number(row.end_date@) is Some ==> Some(b.end_date) == clock::day_number(
            row.end_date@,
        ),
        text::trimmed(row.intro_path@).len() == 0 ==> b.intro_path is None,
        text::trimmed(row.intro_path@).len() > 0 ==> b.intro_path is Some && b.intro_path->0@
            == row.intro_path@,
        text::trimmed(row.outro_path@).len() == 0 ==> b.outro_path is None,
        text::trimmed(row.outro_path@).len() > 0 ==> b.outro_path is Some && b.outro_path->0@
            == row.outro_path@,
{
}

/// Breaks go by their time, those of one time by their name.
pub proof fn breaks_go_by_time(a: StoredAd, b: StoredAd)
    ensures
        text::text_lt(a.play_time@, b.play_time@) ==> ByPlayTime.before(a, b) && !ByPlayTime.before(b, a),
        a.play_time@ == b.play_time@ ==> (ByPlayTime.before(a, b) <==> text::text_lt(a.name@, b.name@)),
{
    text::text_order_is_total(a.play_time@, b.play_time@);
}

} // verus!
