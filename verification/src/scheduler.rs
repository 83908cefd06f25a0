//! Scheduled automation events: what is stored, what is due, what runs out.

use vstd::prelude::*;
use vstd::string::*;

use crate::clock::{fresh_id, now, read_day, read_rfc3339, write_rfc3339, Stamp};
use crate::days::{covers_day, validate_hhmm};
use crate::error::CrabError;
use crate::rank::{rank, Order};
use crate::table::{choose_rows, copy_all, find_key, remove_key, Keyed};
use crate::text::{blank, push_decimal, same_text, text_before, trim};
use crate::clock;
use crate::days;
use crate::rank;
use crate::table;
use crate::text;

verus! {

/// A scheduled automation event.
#[derive(Debug, Clone)]
pub struct ScheduledEvent {
    pub id: String,
    pub name: String,
    /// `play` | `load` | `generate` | `queue` | `command`
    pub action_type: String,
    /// Playlist name, file path, preset name or raw command.
    pub target: String,
    /// Daily start time as `HH:MM` (24h).
    pub start_time: String,
    /// Repeat days: `Daily` or a comma list like `Mon,Tue,Wed`.
    pub days: String,
    /// Last day it runs, `YYYY-MM-DD`, or nothing: it runs forever.
    pub expires_on: Option<String>,
    pub enabled: bool,
    pub created_at: Stamp,
}

/// An event as it is stored: the moment of its creation is text.
#[derive(Debug)]
pub struct EventRow {
    pub id: String,
    pub name: String,
    pub action_type: String,
    pub target: String,
    pub start_time: String,
    pub days: String,
    pub expires_on: Option<String>,
    pub enabled: bool,
    pub created_at: String,
}

/// The contents of a stored event.
pub ghost struct EventView {
    pub id: Seq<char>,
    pub name: Seq<char>,
    pub action_type: Seq<char>,
    pub target: Seq<char>,
    pub start_time: Seq<char>,
    pub days: Seq<char>,
    pub expires_on: Option<Seq<char>>,
    pub enabled: bool,
    pub created_at: Seq<char>,
}

impl View for EventRow {
    type V = EventView;

    open spec fn view(&self) -> EventView {
        EventView {
            id: self.id@,
            name: self.name@,
            action_type: self.action_type@,
            target: self.target@,
            start_time: self.start_time@,
            days: self.days@,
            expires_on: text::opt_text(self.expires_on),
            enabled: self.enabled,
            created_at: self.created_at@,
        }
    }
}

impl Clone for EventRow {
    fn clone(&self) -> (r: Self)
        ensures
            r == *self,
    {
        EventRow {
            id: self.id.clone(),
            name: self.name.clone(),
            action_type: self.action_type.clone(),
            target: self.target.clone(),
            start_time: self.start_time.clone(),
            days: self.days.clone(),
            expires_on: match &self.expires_on {
                Some(s) => Some(s.clone()),
                None => None,
            },
            enabled: self.enabled,
            created_at: self.created_at.clone(),
        }
    }
}

impl Keyed for EventRow {
    open spec fn key(self) -> Seq<char> {
        self.id@
    }

    fn key_is(&self, id: &str) -> (r: bool) {
        same_text(self.id.as_str(), id)
    }

    fn duplicate(&self) -> (r: Self) {
        self.clone()
    }
}

/// Listed by start time, then by name.
pub struct ByStart;

impl Order<EventRow> for ByStart {
    open spec fn before(self, a: EventRow, b: EventRow) -> bool {
        text::text_lt(a.start_time@, b.start_time@) || (a.start_time@ == b.start_time@
            && text::text_lt(a.name@, b.name@))
    }

    proof fn is_weak_order(self, a: EventRow, b: EventRow, c: EventRow) {
        text::text_order_is_total(a.start_time@, b.start_time@);
        text::text_order_is_total(b.start_time@, c.start_time@);
        text::text_order_is_total(a.start_time@, c.start_time@);
        text::text_order_is_total(a.name@, b.name@);
        text::text_order_is_total(b.name@, c.name@);
        text::text_order_is_total(a.name@, c.name@);
        if text::text_lt(a.start_time@, b.start_time@) && text::text_lt(b.start_time@, c.start_time@) {
            text::text_order_is_transitive(a.start_time@, b.start_time@, c.start_time@);
        }
        if text::text_lt(a.name@, b.name@) && text::text_lt(b.name@, c.name@) {
            text::text_order_is_transitive(a.name@, b.name@, c.name@);
        }
    }

    fn is_ahead(&self, a: &EventRow, b: &EventRow) -> (r: bool) {
        if text_before(a.start_time.as_str(), b.start_time.as_str()) {
            return true;
        }
        same_text(a.start_time.as_str(), b.start_time.as_str()) && text_before(
            a.name.as_str(),
            b.name.as_str(),
        )
    }
}

/// Expiration state of an event relative to a date.
#[derive(Debug, Clone, Copy, PartialEq, Eq, Structural)]
pub enum ExpiryStatus {
    /// No expiration set.
    Forever,
    /// Still valid, with this many days left (one or more).
    Active(u32),
    /// The last day is today: last firing day.
    ExpiresToday,
    /// The last day has passed; it does not fire any more.
    Expired,
}

/// Expiration relative to a day. A date that does not read as one never
/// switches an event off.
pub open spec fn expiry(expires_on: Option<Seq<char>>, today: Seq<char>) -> ExpiryStatus {
    match expires_on {
        None => ExpiryStatus::Forever,
        Some(until) => match (clock::day_number(until), clock::day_number(today)) {
            (Some(u), Some(n)) => if u < n {
                ExpiryStatus::Expired
            } else if u == n {
                ExpiryStatus::ExpiresToday
            } else {
                ExpiryStatus::Active((u - n) as u32)
            },
            _ => ExpiryStatus::Forever,
        },
    }
}

/// An event fires on a day, at a time and on a weekday.
pub open spec fn event_due(
    e: ScheduledEvent,
    today: Seq<char>,
    hhmm: Seq<char>,
    weekday: Seq<char>,
) -> bool {
    &&& e.enabled
    &&& e.start_time@ == hhmm
    &&& expiry(text::opt_text(e.expires_on), today) != ExpiryStatus::Expired
    &&& days::day_listed(e.days@, weekday)
}

/// Expiration is inclusive: on the last day an enabled event still fires at
/// its time, and on any later day it does not.
pub proof fn last_day_still_fires(
    e: ScheduledEvent,
    today: Seq<char>,
    hhmm: Seq<char>,
    weekday: Seq<char>,
)
    requires
        text::opt_text(e.expires_on) is Some,
        clock::day_number(text::opt_text(e.expires_on)->0) is Some,
        clock::day_number(today) is Some,
    ensures
        clock::day_number(today) == clock::day_number(text::opt_text(e.expires_on)->0) ==> (event_due(
            e,
            today,
            hhmm,
            weekday,
        ) <==> e.enabled && e.start_time@ == hhmm && days::day_listed(e.days@, weekday)),
        clock::day_number(today)->0 > clock::day_number(text::opt_text(e.expires_on)->0)->0 ==> !event_due(
            e,
            today,
            hhmm,
            weekday,
        ),
{
}

/// The days left of an active event, counted down by the calendar: one day
/// later there is one less, and the day before the last is followed by the last.
pub proof fn days_count_down(until: Seq<char>, today: Seq<char>, tomorrow: Seq<char>)
    requires
        clock::day_number(until) is Some,
        clock::day_number(today) is Some,
        clock::day_number(tomorrow) is Some,
        clock::day_number(tomorrow)->0 == clock::day_number(today)->0 + 1,
    ensures
        expiry(Some(until), today) matches ExpiryStatus::Active(n) ==> n >= 1 && expiry(
            Some(until),
            tomorrow,
        ) == (if n == 1 {
            ExpiryStatus::ExpiresToday
        } else {
            ExpiryStatus::Active((n - 1) as u32)
        }),
        expiry(Some(until), today) == ExpiryStatus::ExpiresToday ==> expiry(Some(until), tomorrow)
            == ExpiryStatus::Expired,
{
}

/// An event fires on each day up to its last, and on every day where it has
/// none or where a date does not read: exactly when it is switched on, it is
/// its time, and its days cover the weekday. After its last day it never fires.
pub proof fn events_fire_up_to_their_last_day(
    e: ScheduledEvent,
    today: Seq<char>,
    hhmm: Seq<char>,
    weekday: Seq<char>,
)
    ensures
        e.expires_on is None || clock::day_number(e.expires_on->0@) is None || clock::day_number(today)
            is None || clock::day_number(today)->0 <= clock::day_number(e.expires_on->0@)->0 ==> (
        event_due(e, today, hhmm, weekday) <==> e.enabled && e.start_time@ == hhmm
            && days::day_listed(e.days@, weekday)),
        e.expires_on is Some && clock::day_number(e.expires_on->0@) is Some && clock::day_number(today)
            is Some && clock::day_number(today)->0 > clock::day_number(e.expires_on->0@)->0 ==> !event_due(
            e,
            today,
            hhmm,
            weekday,
        ),
{
}

/// What is shown of an expiration date goes by the calendar alone: over once
/// the date has passed, the last day on the date, and before it the number of
/// days that are left.
pub proof fn expiry_goes_by_the_calendar(e: ScheduledEvent, today: Seq<char>)
    ensures
        e.expires_on is None ==> expiry(text::opt_text(e.expires_on), today) == ExpiryStatus::Forever,
        e.expires_on is Some && (clock::day_number(e.expires_on->0@) is None || clock::day_number(
            today,
        ) is None) ==> expiry(text::opt_text(e.expires_on), today) == ExpiryStatus::Forever,
        e.expires_on is Some && clock::day_number(e.expires_on->0@) is Some && clock::day_number(today)
            is Some ==> {
            let left = clock::day_number(e.expires_on->0@)->0 - clock::day_number(today)->0;
            &&& left < 0 <==> expiry(text::opt_text(e.expires_on), today) == ExpiryStatus::Expired
            &&& left == 0 <==> expiry(text::opt_text(e.expires_on), today)
                == ExpiryStatus::ExpiresToday
            &&& left > 0 ==> (expiry(text::opt_text(e.expires_on), today) matches ExpiryStatus::Active(
                n,
            ) && n == left)
        },
{
}

/// The warning shown for an event, if one is due.
pub open spec fn warning(e: ScheduledEvent, today: Seq<char>, warn_days: u32) -> Option<Seq<char>> {
    let until = match e.expires_on {
        Some(t) => t@,
        None => Seq::empty(),
    };
    match expiry(text::opt_text(e.expires_on), today) {
        ExpiryStatus::Expired => Some(
            "⚠ '"@ + e.name@ + "' expired "@ + until + " (set to run "@ + e.start_time@
                + ") — edit or delete it"@,
        ),
        ExpiryStatus::ExpiresToday => Some(
            "⚠ '"@ + e.name@ + "' runs for the last time today at "@ + e.start_time@,
        ),
        ExpiryStatus::Active(n) => if n <= warn_days {
            Some(
                "⏳ '"@ + e.name@ + "' valid "@ + text::decimal(n as nat) + " more day"@ + (if n == 1 {
                    ""@
                } else {
                    "s"@
                }) + " (until "@ + until + ")"@,
            )
        } else {
            None
        },
        ExpiryStatus::Forever => None,
    }
}

/// A warning comes exactly for a date that is over, is today, or comes within
/// the days of warning, and it names the event.
pub proof fn warnings_come_in_time(e: ScheduledEvent, today: Seq<char>, warn_days: u32)
    ensures
        warning(e, today, warn_days) is Some <==> e.expires_on is Some && clock::day_number(
            e.expires_on->0@,
        ) is Some && clock::day_number(today) is Some && clock::day_number(e.expires_on->0@)->0
            - clock::day_number(today)->0 <= (if warn_days > 0 {
            warn_days as int
        } else {
            0
        }),
        warning(e, today, warn_days) matches Some(w) ==> exists|i: int|
            0 <= i <= w.len() - e.name@.len() && #[trigger] w.subrange(i, i + e.name@.len()) == e.name@,
{
    if let Some(w) = warning(e, today, warn_days) {
        reveal_strlit("⚠ '");
        reveal_strlit("⏳ '");
        let n = e.name@.len() as int;
        assert(w.subrange(3, 3 + n) =~= e.name@);
    }
}

impl ScheduledEvent {
    /// Whether the event fires on `today` (`YYYY-MM-DD`) at `HH:MM` on a
    /// three-letter weekday. Expiration is inclusive: an event valid until
    /// today still fires today.
    pub fn is_due(&self, today: &str, now_hhmm: &str, weekday: &str) -> (r: bool)
        ensures
            r == event_due(*self, today@, now_hhmm@, weekday@),
    {
        if !self.enabled || !same_text(self.start_time.as_str(), now_hhmm) {
            return false;
        }
        match self.expiry_status(today) {
            ExpiryStatus::Expired => {
                return false;
            },
            ExpiryStatus::Forever | ExpiryStatus::Active(_) | ExpiryStatus::ExpiresToday => {},
        }
        covers_day(self.days.as_str(), weekday)
    }

    /// Expiration state relative to `today` (`YYYY-MM-DD`).
    pub fn expiry_status(&self, today: &str) -> (r: ExpiryStatus)
        ensures
            r == expiry(text::opt_text(self.expires_on), today@),
    {
        match &self.expires_on {
            None => ExpiryStatus::Forever,
            Some(until) => {
                let u: Option<i32> = read_day(until.as_str());
                let n: Option<i32> = read_day(today);
                match (u, n) {
                    (Some(u), Some(n)) => {
                        if u < n {
                            ExpiryStatus::Expired
                        } else if u == n {
                            ExpiryStatus::ExpiresToday
                        } else {
                            let left: i64 = u as i64 - n as i64;
                            ExpiryStatus::Active(left as u32)
                        }
                    },
                    _ => ExpiryStatus::Forever,
                }
            },
        }
    }

    /// The warning shown for this event, if one is due.
    pub fn expiry_warning(&self, today: &str, warn_days: u32) -> (r: Option<String>)
        ensures
            text::opt_text(r) == warning(*self, today@, warn_days),
    {
        let until = match &self.expires_on {
            Some(t) => t.clone(),
            None => String::new(),
        };
        let mut s = String::new();
        match self.expiry_status(today) {
            ExpiryStatus::Expired => {
                s.append("⚠ '");
                s.append(self.name.as_str());
                s.append("' expired ");
                s.append(until.as_str());
                s.append(" (set to run ");
                s.append(self.start_time.as_str());
                s.append(") — edit or delete it");
                assert(Some(s@) =~= warning(*self, today@, warn_days));
                Some(s)
            },
            ExpiryStatus::ExpiresToday => {
                s.append("⚠ '");
                s.append(self.name.as_str());
                s.append("' runs for the last time today at ");
                s.append(self.start_time.as_str());
                assert(Some(s@) =~= warning(*self, today@, warn_days));
                Some(s)
            },
            ExpiryStatus::Active(n) => {
                if n <= warn_days {
                    s.append("⏳ '");
                    s.append(self.name.as_str());
                    s.append("' valid ");
                    push_decimal(&mut s, n as u64);
                    s.append(" more day");
                    s.append(if n == 1 {
                        ""
                    } else {
                        "s"
                    });
                    s.append(" (until ");
                    s.append(until.as_str());
                    s.append(")");
                    assert(Some(s@) =~= warning(*self, today@, warn_days));
                    Some(s)
                } else {
                    None
                }
            },
            ExpiryStatus::Forever => None,
        }
    }
}

/// The expiration date as it is stored: trimmed, nothing when blank.
pub open spec fn stored_expiry(v: Option<Seq<char>>) -> Option<Seq<char>> {
    match v {
        Some(s) => if text::is_blank(s) {
            None
        } else {
            Some(text::trimmed(s))
        },
        None => None,
    }
}

/// The words for an expiration date that is none, if it is given.
pub open spec fn bad_expiry(v: Option<Seq<char>>) -> Option<Seq<char>> {
    match stored_expiry(v) {
        Some(s) => if clock::day_number(s) is Some {
            None
        } else {
            Some("bad date '"@ + s + "', want YYYY-MM-DD"@)
        },
        None => None,
    }
}

/// Validate an optional `YYYY-MM-DD` date; blank or absent means no expiration.
pub fn parse_expires(v: Option<&str>) -> (r: Result<Option<String>, CrabError>)
    ensures
        match r {
            Ok(d) => bad_expiry(text::opt_str(v)) is None
                && text::opt_text(d) == stored_expiry(text::opt_str(v)),
            Err(CrabError::Scheduler(m)) => bad_expiry(text::opt_str(v)) == Some(m@),
            Err(_) => false,
        },
{
    match v {
        None => Ok(None),
        Some(s) => {
            let t = trim(s);
            if t.as_str().is_empty() {
                return Ok(None);
            }
            match read_day(t.as_str()) {
                Some(_) => Ok(Some(t)),
                None => {
                    let mut m = String::from_str("bad date '");
                    m.append(t.as_str());
                    m.append("', want YYYY-MM-DD");
                    Err(CrabError::Scheduler(m))
                },
            }
        },
    }
}

/// Why the fields of an event are refused, if they are.
pub open spec fn event_refusal(
    name: Seq<char>,
    start_time: Seq<char>,
    expires_on: Option<Seq<char>>,
) -> Option<Seq<char>> {
    if text::is_blank(name) {
        Some("name is empty"@)
    } else if !days::is_hhmm(start_time) {
        Some("bad time '"@ + start_time + "', want HH:MM"@)
    } else {
        bad_expiry(expires_on)
    }
}

/// The check of a clock time, with the words of its refusal.
pub(crate) fn check_time(t: &str) -> (r: Result<(), CrabError>)
    ensures
        match r {
            Ok(_) => days::is_hhmm(t@),
            Err(CrabError::Scheduler(m)) => !days::is_hhmm(t@) && m@ == "bad time '"@ + t@
                + "', want HH:MM"@,
            Err(_) => false,
        },
{
    if validate_hhmm(t) {
        Ok(())
    } else {
        let mut m = String::from_str("bad time '");
        m.append(t);
        m.append("', want HH:MM");
        Err(CrabError::Scheduler(m))
    }
}

/// The checks on the fields of an event; gives the expiration date to store.
fn check_event(name: &str, start_time: &str, expires_on: Option<&str>) -> (r: Result<
    Option<String>,
    CrabError,
>)
    ensures
        match r {
            Ok(d) => event_refusal(name@, start_time@, text::opt_str(expires_on)) is None
                && text::opt_text(d)
                == stored_expiry(text::opt_str(expires_on)),
            Err(CrabError::Scheduler(m)) => event_refusal(name@, start_time@, text::opt_str(expires_on))
                == Some(m@),
            Err(_) => false,
        },
{
    if blank(name) {
        return Err(CrabError::Scheduler(String::from_str("name is empty")));
    }
    match check_time(start_time) {
        Ok(_) => {},
        Err(e) => {
            return Err(e);
        },
    }
    parse_expires(expires_on)
}

/// The event that a readable row stands for.
pub open spec fn event_from(row: EventRow) -> ScheduledEvent {
    ScheduledEvent {
        id: row.id,
        name: row.name,
        action_type: row.action_type,
        target: row.target,
        start_time: row.start_time,
        days: row.days,
        expires_on: row.expires_on,
        enabled: row.enabled,
        created_at: clock::rfc3339_moment(row.created_at@)->0,
    }
}

/// The moment of creation reads as one.
pub open spec fn event_readable(row: EventRow) -> bool {
    clock::rfc3339_moment(row.created_at@) is Some
}

/// The stored events in listing order.
pub open spec fn listed_events(rows: Seq<EventRow>) -> Seq<ScheduledEvent> {
    rank::ranked(ByStart, rows).map_values(|r: EventRow| event_from(r))
}

/// Listing fails at the first row, in listing order, that does not read.
pub open spec fn listing_fails(rows: Seq<EventRow>, e: CrabError) -> bool {
    exists|i: int| fails_at(rank::ranked(ByStart, rows), e, i)
}

pub open spec fn fails_at(rows: Seq<EventRow>, e: CrabError, i: int) -> bool {
    &&& 0 <= i < rows.len()
    &&& !event_readable(rows[i])
    &&& forall|j: int| 0 <= j < i ==> event_readable(#[trigger] rows[j])
    &&& e matches CrabError::Integrity { table, id, field, value } && table@ == "scheduled_events"@
        && id@ == rows[i].id@ && field@ == "created_at"@ && value@ == rows[i].created_at@
}

/// The stored events of the station.
#[derive(Debug)]
pub struct SchedulerManager {
    pub rows: Vec<EventRow>,
}

impl SchedulerManager {
    /// No two rows share an id.
    pub open spec fn wf(self) -> bool {
        table::distinct_keys(self.rows@)
    }

    /// An empty store.
    pub fn new() -> (m: Self)
        ensures
            m.wf(),
            m.rows@ == Seq::<EventRow>::empty(),
    {
        SchedulerManager { rows: Vec::new() }
    }

    /// Store a row as it stands; ids are unique.
    pub fn insert_row(&mut self, row: EventRow) -> (r: Result<(), CrabError>)
        requires
            old(self).wf(),
        ensures
            final(self).wf(),
            match r {
                Ok(_) => !table::has_key(old(self).rows@, row.id@) && final(self).rows@
                    == old(self).rows@.push(row),
                Err(CrabError::Database(m)) => table::has_key(old(self).rows@, row.id@)
                    && final(self).rows@ == old(self).rows@ && m@
                    == "UNIQUE constraint failed: scheduled_events.id"@,
                Err(_) => false,
            },
    {
        if find_key(&self.rows, row.id.as_str()).is_some() {
            return Err(
                CrabError::Database(
                    String::from_str("UNIQUE constraint failed: scheduled_events.id"),
                ),
            );
        }
        self.rows.push(row);
        Ok(())
    }

    /// Create an event with a given id at a given moment.
    pub fn create_with(
        &mut self,
        id: String,
        at: Stamp,
        name: &str,
        action_type: &str,
        target: &str,
        start_time: &str,
        days: &str,
        expires_on: Option<&str>,
    ) -> (r: Result<ScheduledEvent, CrabError>)
        requires
            old(self).wf(),
            at.valid(),
        ensures
            final(self).wf(),
            match r {
                Ok(e) => {
                    &&& event_refusal(name@, start_time@, text::opt_str(expires_on)) is None
                    &&& !table::has_key(old(self).rows@, id@)
                    &&& final(self).rows@.len() == old(self).rows@.len() + 1
                    &&& final(self).rows@.drop_last() == old(self).rows@
                    &&& final(self).rows@.last()@ == (EventView {
                        id: id@,
                        name: name@,
                        action_type: action_type@,
                        target: target@,
                        start_time: start_time@,
                        days: days@,
                        expires_on: stored_expiry(text::opt_str(expires_on)),
                        enabled: true,
                        created_at: clock::rfc3339_text(at.secs as int, at.nanos as int),
                    })
                    &&& at.four_digit_year() ==> e == event_from(final(self).rows@.last())
                        && event_readable(final(self).rows@.last())
                    &&& e.created_at == at
                    &&& e == (ScheduledEvent {
                        created_at: at,
                        ..event_from(final(self).rows@.last())
                    })
                },
                Err(CrabError::Scheduler(m)) => event_refusal(
                    name@,
                    start_time@,
                    text::opt_str(expires_on),
                ) == Some(m@) && final(self).rows@ == old(self).rows@,
                Err(CrabError::Database(m)) => event_refusal(
                    name@,
                    start_time@,
                    text::opt_str(expires_on),
                ) is None && table::has_key(old(self).rows@, id@)
                    && final(self).rows@ == old(self).rows@
                    && m@ == "UNIQUE constraint failed: scheduled_events.id"@,
                Err(_) => false,
            },
    {
        let until = match check_event(name, start_time, expires_on) {
            Ok(d) => d,
            Err(e) => {
                return Err(e);
            },
        };
        let row = EventRow {
            id,
            name: name.to_owned(),
            action_type: action_type.to_owned(),
            target: target.to_owned(),
            start_time: start_time.to_owned(),
            days: days.to_owned(),
            expires_on: until,
            enabled: true,
            created_at: write_rfc3339(at),
        };
        let kept = row.clone();
        match self.insert_row(row) {
            Ok(_) => {},
            Err(e) => {
                return Err(e);
            },
        }
        assert(self.rows@.drop_last() =~= old(self).rows@);
        Ok(
            ScheduledEvent {
                id: kept.id,
                name: kept.name,
                action_type: kept.action_type,
                target: kept.target,
                start_time: kept.start_time,
                days: kept.days,
                expires_on: kept.expires_on,
                enabled: kept.enabled,
                created_at: at,
            },
        )
    }

    /// Create an event now, under a fresh id. `start_time` must be `HH:MM`;
    /// `expires_on` an optional `YYYY-MM-DD` or blank for "runs forever".
    pub fn create(
        &mut self,
        name: &str,
        action_type: &str,
        target: &str,
        start_time: &str,
        days: &str,
        expires_on: Option<&str>,
    ) -> (r: Result<ScheduledEvent, CrabError>)
        requires
            old(self).wf(),
        ensures
            final(self).wf(),
            match r {
                Ok(e) => {
                    &&& event_refusal(name@, start_time@, text::opt_str(expires_on)) is None
                    &&& !table::has_key(old(self).rows@, e.id@)
                    &&& e.created_at.valid()
                    &&& final(self).rows@.len() == old(self).rows@.len() + 1
                    &&& final(self).rows@.drop_last() == old(self).rows@
                    &&& final(self).rows@.last()@ == (EventView {
                        id: e.id@,
                        name: name@,
                        action_type: action_type@,
                        target: target@,
                        start_time: start_time@,
                        days: days@,
                        expires_on: stored_expiry(text::opt_str(expires_on)),
                        enabled: true,
                        created_at: clock::rfc3339_text(
                            e.created_at.secs as int,
                            e.created_at.nanos as int,
                        ),
                    })
                    &&& e == (ScheduledEvent {
                        created_at: e.created_at,
                        ..event_from(final(self).rows@.last())
                    })
                },
                Err(CrabError::Scheduler(m)) => event_refusal(
                    name@,
                    start_time@,
                    text::opt_str(expires_on),
                ) == Some(m@) && final(self).rows@ == old(self).rows@,
                Err(CrabError::Database(_)) => event_refusal(
                    name@,
                    start_time@,
                    text::opt_str(expires_on),
                ) is None && old(self).rows@.len() > 0 && final(self).rows@ == old(self).rows@,
                Err(_) => false,
            },
    {
        self.create_with(
            fresh_id(),
            now(),
            name,
            action_type,
            target,
            start_time,
            days,
            expires_on,
        )
    }

    /// All events by start time and name. A row whose moment of creation does
    /// not read fails the listing with the row's context.
    pub fn list_all(&self) -> (r: Result<Vec<ScheduledEvent>, CrabError>)
        ensures
            match r {
                Ok(v) => (forall|i: int|
                    0 <= i < self.rows@.len() ==> event_readable(#[trigger] rank::ranked(ByStart, self.rows@)[i]))
                    && v@ == listed_events(self.rows@),
                Err(e) => listing_fails(self.rows@, e),
            },
    {
        let sorted = rank(ByStart, copy_all(&self.rows));
        proof {
            crate::rank::ranking_orders(ByStart, self.rows@);
        }
        let mut out: Vec<ScheduledEvent> = Vec::new();
        let mut k: usize = 0;
        while k < sorted.len()
            invariant
                k <= sorted.len(),
                sorted@ == rank::ranked(ByStart, self.rows@),
                sorted@.len() == self.rows@.len(),
                forall|j: int| 0 <= j < k ==> event_readable(#[trigger] sorted@[j]),
                out@ == listed_events(self.rows@).subrange(0, k as int),
            decreases sorted.len() - k,
        {
            let row = sorted[k].clone();
            match read_rfc3339(row.created_at.as_str()) {
                Some(at) => {
                    out.push(
                        ScheduledEvent {
                            id: row.id,
                            name: row.name,
                            action_type: row.action_type,
                            target: row.target,
                            start_time: row.start_time,
                            days: row.days,
                            expires_on: row.expires_on,
                            enabled: row.enabled,
                            created_at: at,
                        },
                    );
                },
                None => {
                    let e = CrabError::Integrity {
                        table: "scheduled_events",
                        id: row.id,
                        field: "created_at",
                        value: row.created_at,
                    };
                    assert(fails_at(rank::ranked(ByStart, self.rows@), e, k as int));
                    return Err(e);
                },
            }
            k = k + 1;
            assert(out@ =~= listed_events(self.rows@).subrange(0, k as int));
        }
        assert(out@ =~= listed_events(self.rows@));
        Ok(out)
    }

    /// Switch an event on or off; an unknown id changes nothing.
    pub fn set_enabled(&mut self, id: &str, enabled: bool) -> (r: Result<(), CrabError>)
        requires
            old(self).wf(),
        ensures
            r is Ok,
            final(self).wf(),
            final(self).rows@.len() == old(self).rows@.len(),
            forall|i: int|
                0 <= i < old(self).rows@.len() ==> #[trigger] final(self).rows@[i] == (if old(self).rows@[i].id@ == id@ {
                    EventRow { enabled, ..old(self).rows@[i] }
                } else {
                    old(self).rows@[i]
                }),
    {
        let mut i: usize = 0;
        while i < self.rows.len()
            invariant
                i <= self.rows.len(),
                self.rows@.len() == old(self).rows@.len(),
                forall|j: int|
                    i <= j < old(self).rows@.len() ==> #[trigger] self.rows@[j] == old(self).rows@[j],
                forall|j: int|
                    0 <= j < i ==> #[trigger] self.rows@[j] == (if old(self).rows@[j].id@ == id@ {
                        EventRow { enabled, ..old(self).rows@[j] }
                    } else {
                        old(self).rows@[j]
                    }),
            decreases self.rows.len() - i,
        {
            if same_text(self.rows[i].id.as_str(), id) {
                let mut row = self.rows[i].clone();
                row.enabled = enabled;
                self.rows.set(i, row);
            }
            i = i + 1;
        }
        assert forall|i: int, j: int| 0 <= i < j < self.rows@.len() implies (
        #[trigger] self.rows@[i]).key() != (#[trigger] self.rows@[j]).key() by {
            assert(old(self).rows@[i].key() != old(self).rows@[j].key());
        }
        Ok(())
    }

    /// Overwrite the fields of an event; an unknown id changes nothing.
    pub fn update(
        &mut self,
        id: &str,
        name: &str,
        action_type: &str,
        target: &str,
        start_time: &str,
        days: &str,
        expires_on: Option<&str>,
    ) -> (r: Result<(), CrabError>)
        requires
            old(self).wf(),
        ensures
            final(self).wf(),
            match r {
                Ok(_) => {
                    &&& event_refusal(name@, start_time@, text::opt_str(expires_on)) is None
                    &&& final(self).rows@.len() == old(self).rows@.len()
                    &&& forall|i: int|
                        0 <= i < old(self).rows@.len() ==> if old(self).rows@[i].id@ == id@ {
                            (#[trigger] final(self).rows@[i])@ == (EventView {
                                name: name@,
                                action_type: action_type@,
                                target: target@,
                                start_time: start_time@,
                                days: days@,
                                expires_on: stored_expiry(text::opt_str(expires_on)),
                                ..old(self).rows@[i]@
                            })
                        } else {
                            final(self).rows@[i] == old(self).rows@[i]
                        }
                },
                Err(CrabError::Scheduler(m)) => event_refusal(
                    name@,
                    start_time@,
                    text::opt_str(expires_on),
                ) == Some(m@) && final(self).rows@ == old(self).rows@,
                Err(_) => false,
            },
    {
        let until = match check_event(name, start_time, expires_on) {
            Ok(d) => d,
            Err(e) => {
                return Err(e);
            },
        };
        let mut i: usize = 0;
        while i < self.rows.len()
            invariant
                i <= self.rows.len(),
                self.rows@.len() == old(self).rows@.len(),
                text::opt_text(until) == stored_expiry(text::opt_str(expires_on)),
                forall|j: int|
                    i <= j < old(self).rows@.len() ==> #[trigger] self.rows@[j] == old(self).rows@[j],
                forall|j: int|
                    0 <= j < i ==> if old(self).rows@[j].id@ == id@ {
                        (#[trigger] self.rows@[j])@ == (EventView {
                            name: name@,
                            action_type: action_type@,
                            target: target@,
                            start_time: start_time@,
                            days: days@,
                            expires_on: stored_expiry(text::opt_str(expires_on)),
                            ..old(self).rows@[j]@
                        })
                    } else {
                        self.rows@[j] == old(self).rows@[j]
                    },
            decreases self.rows.len() - i,
        {
            if same_text(self.rows[i].id.as_str(), id) {
                let row = self.rows[i].clone();
                self.rows.set(
                    i,
                    EventRow {
                        id: row.id,
                        name: name.to_owned(),
                        action_type: action_type.to_owned(),
                        target: target.to_owned(),
                        start_time: start_time.to_owned(),
                        days: days.to_owned(),
                        expires_on: match &until {
                            Some(s) => Some(s.clone()),
                            None => None,
                        },
                        enabled: row.enabled,
                        created_at: row.created_at,
                    },
                );
            }
            i = i + 1;
        }
        assert forall|i: int, j: int| 0 <= i < j < self.rows@.len() implies (
        #[trigger] self.rows@[i]).key() != (#[trigger] self.rows@[j]).key() by {
            assert(old(self).rows@[i].key() != old(self).rows@[j].key());
            assert(self.rows@[i]@.id == old(self).rows@[i]@.id);
            assert(self.rows@[j]@.id == old(self).rows@[j]@.id);
        }
        Ok(())
    }

    /// Delete an event; an unknown id changes nothing.
    pub fn delete(&mut self, id: &str) -> (r: Result<(), CrabError>)
        requires
            old(self).wf(),
        ensures
            r is Ok,
            final(self).wf(),
            final(self).rows@ == table::without_key(old(self).rows@, id@),
            !table::has_key(final(self).rows@, id@),
    {
        remove_key(&mut self.rows, id);
        proof {
            table::removal_leaves_the_rest(old(self).rows@, id@);
        }
        Ok(())
    }

    /// Events that should fire now, in listing order.
    pub fn due_events(&self, today: &str, now_hhmm: &str, weekday: &str) -> (r: Result<
        Vec<ScheduledEvent>,
        CrabError,
    >)
        ensures
            match r {
                Ok(v) => (forall|i: int|
                    0 <= i < self.rows@.len() ==> event_readable(#[trigger] rank::ranked(ByStart, self.rows@)[i]))
                    && v@ == listed_events(self.rows@).filter(
                    |e: ScheduledEvent| event_due(e, today@, now_hhmm@, weekday@),
                ),
                Err(e) => listing_fails(self.rows@, e),
            },
    {
        let all = match self.list_all() {
            Ok(v) => v,
            Err(e) => {
                return Err(e);
            },
        };
        let mut due: Vec<bool> = Vec::new();
        let mut i: usize = 0;
        while i < all.len()
            invariant
                i <= all.len(),
                due@.len() == i,
                forall|j: int|
                    0 <= j < i ==> #[trigger] due@[j] == event_due(
                        all@[j],
                        today@,
                        now_hhmm@,
                        weekday@,
                    ),
            decreases all.len() - i,
        {
            due.push(all[i].is_due(today, now_hhmm, weekday));
            i = i + 1;
        }
        proof {
            table::choosing_is_filtering(
                all@,
                due@,
                |e: ScheduledEvent| event_due(e, today@, now_hhmm@, weekday@),
            );
        }
        Ok(choose_rows(all, &due))
    }

    /// Warnings: events whose validity ends within `warn_days`, or that have
    /// already run out, in listing order.
    pub fn expiry_warnings(&self, today: &str, warn_days: u32) -> (r: Result<
        Vec<String>,
        CrabError,
    >)
        ensures
            match r {
                Ok(v) => (forall|i: int|
                    0 <= i < self.rows@.len() ==> event_readable(#[trigger] rank::ranked(ByStart, self.rows@)[i]))
                    && text::texts(v@) == listed_events(self.rows@).filter_map(
                    |e: ScheduledEvent| warning(e, today@, warn_days),
                ),
                Err(e) => listing_fails(self.rows@, e),
            },
    {
        let all = match self.list_all() {
            Ok(v) => v,
            Err(e) => {
                return Err(e);
            },
        };
        let ghost warn = |e: ScheduledEvent| warning(e, today@, warn_days);
        let mut out: Vec<String> = Vec::new();
        let mut i: usize = 0;
        assert(text::texts(out@) =~= all@.subrange(0, 0).filter_map(warn));
        while i < all.len()
            invariant
                i <= all.len(),
                warn == (|e: ScheduledEvent| warning(e, today@, warn_days)),
                text::texts(out@) == all@.subrange(0, i as int).filter_map(warn),
            decreases all.len() - i,
        {
            assert(all@.subrange(0, i + 1).drop_last() =~= all@.subrange(0, i as int));
            let ghost was = text::texts(out@);
            match all[i].expiry_warning(today, warn_days) {
                Some(w) => {
                    out.push(w);
                    assert(text::texts(out@) =~= was + seq![w@]);
                },
                None => {},
            }
            i = i + 1;
        }
        assert(all@.subrange(0, i as int) =~= all@);
        Ok(out)
    }
}

/// An event is accepted exactly with a name, a time of a clock, and, where it
/// says a last day, one of the calendar. Blanks around that day do not matter,
/// and nothing but blanks says no day.
pub proof fn sound_events_are_accepted(
    name: Seq<char>,
    start_time: Seq<char>,
    expires_on: Option<Seq<char>>,
)
    ensures
        event_refusal(name, start_time, expires_on) is None <==> text::trimmed(name).len() > 0
            && days::is_hhmm(start_time) && (expires_on is None || text::trimmed(expires_on->0).len() == 0
            || clock::day_number(text::trimmed(expires_on->0)) is Some),
        bad_expiry(expires_on) is None <==> expires_on is None || text::trimmed(expires_on->0).len() == 0
            || clock::day_number(text::trimmed(expires_on->0)) is Some,
        expires_on is None || text::trimmed(expires_on->0).len() == 0 ==> stored_expiry(expires_on) is None,
        expires_on is Some && text::trimmed(expires_on->0).len() > 0 ==> stored_expiry(expires_on) == Some(
            text::trimmed(expires_on->0),
        ),
{
}

/// The first fault of an event is told, with what was wrong: a blank name
/// before the time, the time before the day.
pub proof fn faults_are_told_in_order(
    name: Seq<char>,
    start_time: Seq<char>,
    expires_on: Option<Seq<char>>,
    other_time: Seq<char>,
    other_day: Option<Seq<char>>,
)
    ensures
        text::is_blank(name) ==> event_refusal(name, start_time, expires_on) == event_refusal(
            name,
            other_time,
            other_day,
        ),
        !text::is_blank(name) && !days::is_hhmm(start_time) ==> event_refusal(
            name,
            start_time,
            expires_on,
        ) == event_refusal(name, start_time, other_day) && text::holds(
            event_refusal(name, start_time, expires_on)->0,
            start_time,
        ),
        bad_expiry(expires_on) is Some ==> text::holds(
            bad_expiry(expires_on)->0,
            text::trimmed(expires_on->0),
        ),
{
    text::middles_are_held("bad time '"@, start_time, "', want HH:MM"@);
    if bad_expiry(expires_on) is Some {
        text::middles_are_held("bad date '"@, text::trimmed(expires_on->0), "', want YYYY-MM-DD"@);
    }
}

/// Events are listed by their time, those of one time by their name, and each
/// as it is stored.
pub proof fn events_are_listed_by_time(rows: Seq<EventRow>, i: int, j: int)
    requires
        0 <= i < j < listed_events(rows).len(),
    ensures
        listed_events(rows).len() == rows.len(),
        ({
            let a = listed_events(rows)[i];
            let b = listed_events(rows)[j];
            let row = rank::ranked(ByStart, rows)[i];
            &&& !text::text_lt(b.start_time@, a.start_time@)
            &&& a.start_time@ == b.start_time@ ==> !text::text_lt(b.name@, a.name@)
            &&& rows.contains(row)
            &&& a.id == row.id && a.name == row.name && a.target == row.target && a.action_type
                == row.action_type && a.start_time == row.start_time && a.days == row.days
                && a.expires_on == row.expires_on && a.enabled == row.enabled
        }),
{
    let r = rank::ranked(ByStart, rows);
    rank::ranking_orders(ByStart, rows);
    rank::ranking_keeps_members(ByStart, rows, r[i]);
    assert(r.contains(r[i]));
    assert(!ByStart.before(r[j], r[i]));
}

/// A warning says what is up: an event that is over, on which day it ended; one
/// on its last day, when it runs; one that ends soon, in how many days and on
/// which.
pub proof fn warnings_say_what_is_up(e: ScheduledEvent, today: Seq<char>, warn_days: u32)
    requires
        e.expires_on is Some,
        warning(e, today, warn_days) is Some,
    ensures
        ({
            let w = warning(e, today, warn_days)->0;
            let until = e.expires_on->0@;
            match expiry(Some(until), today) {
                ExpiryStatus::Expired => text::holds(w, "' expired "@ + until) && text::holds(
                    w,
                    e.start_time@,
                ),
                ExpiryStatus::ExpiresToday => text::ends(w, e.start_time@),
                ExpiryStatus::Active(n) => n <= warn_days && text::holds(
                    w,
                    text::decimal(n as nat) + " more day"@,
                ) && text::ends(w, " (until "@ + until + ")"@) && (n == 1 ==> text::holds(
                    w,
                    " more day"@ + " (until "@,
                )) && (n > 1 ==> text::holds(w, " more day"@ + "s"@ + " (until "@)),
                ExpiryStatus::Forever => false,
            }
        }),
{
    reveal_strlit("");
    let until = e.expires_on->0@;
    let w = warning(e, today, warn_days)->0;
    match expiry(Some(until), today) {
        ExpiryStatus::Expired => {
            let a = "⚠ '"@ + e.name@;
            let b = "' expired "@ + until;
            let c = " (set to run "@ + e.start_time@ + ") — edit or delete it"@;
            assert(w =~= a + b + c);
            text::middles_are_held(a, b, c);
            let d = a + b + " (set to run "@;
            assert(w =~= d + e.start_time@ + ") — edit or delete it"@);
            text::middles_are_held(d, e.start_time@, ") — edit or delete it"@);
        },
        ExpiryStatus::ExpiresToday => {
            assert(w.skip(w.len() - e.start_time@.len()) =~= e.start_time@);
        },
        ExpiryStatus::Active(n) => {
            let plural = if n == 1 {
                ""@
            } else {
                "s"@
            };
            let a = "⏳ '"@ + e.name@ + "' valid "@;
            let b = text::decimal(n as nat) + " more day"@;
            let t = " (until "@ + until + ")"@;
            assert(w =~= a + b + (plural + t));
            text::middles_are_held(a, b, plural + t);
            assert(w.skip(w.len() - t.len()) =~= t);
            let m = " more day"@ + plural + " (until "@;
            assert(w =~= (a + text::decimal(n as nat)) + m + (until + ")"@));
            text::middles_are_held(a + text::decimal(n as nat), m, until + ")"@);
            if n == 1 {
                assert(m =~= " more day"@ + " (until "@);
            }
        },
        ExpiryStatus::Forever => {},
    }
}

} // verus!
