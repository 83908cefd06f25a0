//! Moments and calendar days as plain numbers.

use chrono::{DateTime, Datelike, NaiveDate, Utc};
use vstd::prelude::*;

verus! {

/// A moment in UTC: seconds since the Unix epoch and nanoseconds within the
/// second (a second longer than usual counts on past one billion).
#[derive(Clone, Copy, Debug, PartialEq, Eq, Structural)]
pub struct Stamp {
    pub secs: i64,
    pub nanos: u32,
}

impl Stamp {
    /// The moments that the calendar covers.
    pub open spec fn valid(self) -> bool {
        &&& -8334601228800 <= self.secs <= 8210266876799
        &&& self.nanos < 1_000_000_000 || (self.nanos < 2_000_000_000 && self.secs % 60 == 59)
    }

    /// The moments of the years 0 to 9999, which four digits can write.
    pub open spec fn four_digit_year(self) -> bool {
        -62167219200 <= self.secs <= 253402300799
    }

    /// Earlier on the time line.
    pub open spec fn earlier(self, other: Stamp) -> bool {
        self.secs < other.secs || (self.secs == other.secs && self.nanos < other.nanos)
    }

    /// Whether this moment comes before another.
    pub fn is_before(&self, other: &Stamp) -> (r: bool)
        ensures
            r == self.earlier(*other),
    {
        self.secs < other.secs || (self.secs == other.secs && self.nanos < other.nanos)
    }
}

/// How a moment, given in seconds and nanoseconds, is written in RFC 3339.
pub uninterp spec fn rfc3339_text(secs: int, nanos: int) -> Seq<char>;

/// The moment that an RFC 3339 text names, where it names one.
pub uninterp spec fn rfc3339_moment(s: Seq<char>) -> Option<Stamp>;

/// The number of the day that a `YYYY-MM-DD` text names, counted from
/// January 1 of the year 1 as day one, where the text names a day.
pub uninterp spec fn day_number(s: Seq<char>) -> Option<i32>;

/// `chrono::Utc::now`: a moment of the machine's clock, at or after the epoch.
/// Which one it is, nothing says.
#[verifier::external_body]
pub(crate) fn now() -> (t: Stamp)
    ensures
        t.valid(),
        t.secs >= 0,
        t.nanos < 1_000_000_000,
{
    let t = Utc::now();
    Stamp { secs: t.timestamp(), nanos: t.timestamp_subsec_nanos() }
}

/// A text that writes some moment.
pub open spec fn writes_a_moment(s: Seq<char>) -> bool {
    exists|t: Stamp| t.valid() && s == #[trigger] rfc3339_text(t.secs as int, t.nanos as int)
}

/// `chrono::DateTime::to_rfc3339`: the text is a function of the moment, and
/// within the years that four digits write it reads back as the same moment.
#[verifier::external_body]
pub(crate) fn write_rfc3339(t: Stamp) -> (s: String)
    requires
        t.valid(),
    ensures
        s@ == rfc3339_text(t.secs as int, t.nanos as int),
        t.four_digit_year() ==> rfc3339_moment(s@) == Some(t),
{
    DateTime::from_timestamp(t.secs, t.nanos).unwrap().to_rfc3339()
}

/// `chrono::DateTime::parse_from_rfc3339`, moved to UTC: whether the text
/// names a moment, and which, depends on the text alone.
#[verifier::external_body]
pub(crate) fn read_rfc3339(s: &str) -> (r: Option<Stamp>)
    ensures
        r == rfc3339_moment(s@),
{
    let t = DateTime::parse_from_rfc3339(s).ok()?.with_timezone(&Utc);
    Some(Stamp { secs: t.timestamp(), nanos: t.timestamp_subsec_nanos() })
}

/// `chrono::NaiveDate::parse_from_str` with the pattern `%Y-%m-%d`: whether
/// the text names a day, and which, depends on the text alone.
#[verifier::external_body]
pub(crate) fn read_day(s: &str) -> (r: Option<i32>)
    ensures
        r == day_number(s@),
{
    NaiveDate::parse_from_str(s, "%Y-%m-%d").ok().map(|d| d.num_days_from_ce())
}

/// The calendar day of a moment, given in seconds, as `YYYY-MM-DD`.
pub uninterp spec fn day_text(secs: int) -> Seq<char>;

/// `chrono::DateTime::format` with the pattern `%Y-%m-%d`: the text is a
/// function of the moment's second.
#[verifier::external_body]
pub(crate) fn write_day(t: Stamp) -> (s: String)
    requires
        t.valid(),
    ensures
        s@ == day_text(t.secs as int),
{
    DateTime::from_timestamp(t.secs, t.nanos).unwrap().format("%Y-%m-%d").to_string()
}

/// A moment, given in seconds, as `YYYYMMDD-HHMMSS`.
pub uninterp spec fn compact_text(secs: int) -> Seq<char>;

/// `chrono::DateTime::format` with the pattern `%Y%m%d-%H%M%S`: the text is a
/// function of the moment's second; a second longer than usual is left out.
#[verifier::external_body]
pub(crate) fn write_compact(t: Stamp) -> (s: String)
    requires
        t.valid(),
    ensures
        t.nanos < 1_000_000_000 ==> s@ == compact_text(t.secs as int),
{
    DateTime::from_timestamp(t.secs, t.nanos).unwrap().format("%Y%m%d-%H%M%S").to_string()
}

/// A moment, given in seconds, as `YYYY-MM-DD HH:MM`.
pub uninterp spec fn minute_text(secs: int) -> Seq<char>;

/// `chrono::DateTime::format` with the pattern `%Y-%m-%d %H:%M`: the text is a
/// function of the moment's second.
#[verifier::external_body]
pub(crate) fn write_minute(t: Stamp) -> (s: String)
    requires
        t.valid(),
    ensures
        s@ == minute_text(t.secs as int),
{
    DateTime::from_timestamp(t.secs, t.nanos).unwrap().format("%Y-%m-%d %H:%M").to_string()
}

/// `uuid::Uuid::new_v4`, written with hyphens: 36 characters, drawn at random.
#[verifier::external_body]
pub(crate) fn fresh_id() -> (s: String)
    ensures
        s@.len() == 36,
{
    uuid::Uuid::new_v4().to_string()
}

/// Moments have one order: by their seconds, and within one second by what is
/// past of it.
pub proof fn moments_have_one_order(a: Stamp, b: Stamp, c: Stamp)
    ensures
        a.secs < b.secs ==> a.earlier(b),
        a.secs == b.secs ==> (a.earlier(b) <==> a.nanos < b.nanos),
        !(a.earlier(b) && b.earlier(a)),
        a == b || a.earlier(b) || b.earlier(a),
        a.earlier(b) && b.earlier(c) ==> a.earlier(c),
{
}

} // verus!
