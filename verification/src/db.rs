//! The station's stored lists as a whole: schema steps, repairs of older
//! files, and replacing the lists together.

use vstd::prelude::*;
use vstd::string::*;

use crate::ads::{AdsManager, StoredAd};
use crate::cart::{CartManager, StoredCart};
use crate::clock::{fresh_id, now, write_rfc3339, Stamp};
use crate::error::CrabError;
use crate::scheduler::{EventRow, SchedulerManager};
use crate::table::Keyed;
use crate::text::{copy_opt, push_decimal_signed, same_text};
use crate::ads;
use crate::cart;
use crate::clock;
use crate::error;
use crate::scheduler;
use crate::table;
use crate::text;

verus! {

/// Current schema version.
pub const SCHEMA_VERSION: u32 = 3;

/// Milliseconds that a connection waits on a locked database.
pub const BUSY_TIMEOUT_MS: u64 = 5000;

/// One step from a schema version to the next.
#[derive(Debug, Clone, Copy)]
pub struct SchemaStep {
    /// The version that the step leads to.
    pub version: u32,
    pub name: &'static str,
}

/// The name of the step to a version.
pub open spec fn step_name(version: int) -> Seq<char> {
    if version == 1 {
        "baseline"@
    } else if version == 2 {
        "scheduler expires_on"@
    } else {
        "tracks enrichment columns"@
    }
}

/// The name of the step to a version.
fn name_of(version: u32) -> (r: &'static str)
    ensures
        r@ == step_name(version as int),
{
    if version == 1 {
        "baseline"
    } else if version == 2 {
        "scheduler expires_on"
    } else {
        "tracks enrichment columns"
    }
}

/// The versions that some steps lead to.
pub open spec fn versions_of(steps: Seq<SchemaStep>) -> Seq<int> {
    steps.map_values(|s: SchemaStep| s.version as int)
}

/// The versions that a file of some version still has to be brought to.
pub open spec fn needed(current: int) -> Seq<int> {
    Seq::new((SCHEMA_VERSION - current) as nat, |i: int| current + 1 + i)
}

/// The version of a file once steps to these versions were applied.
pub open spec fn version_after(current: int, steps: Seq<int>) -> int {
    if steps.len() == 0 {
        current
    } else {
        steps.last()
    }
}

/// The steps that a file needs bring it to the current version, and then it
/// needs none. Where only some were applied, the next start asks for the rest.
pub proof fn steps_complete_a_file(current: int, applied: int)
    requires
        0 <= current <= SCHEMA_VERSION,
        0 <= applied <= needed(current).len(),
    ensures
        version_after(current, needed(current)) == SCHEMA_VERSION,
        needed(SCHEMA_VERSION as int).len() == 0,
        needed(version_after(current, needed(current).take(applied))) == needed(current).skip(applied),
{
    assert(needed(version_after(current, needed(current).take(applied))) =~= needed(current).skip(
        applied,
    ));
}

/// The station's database.
pub struct Database;

impl Database {
    /// The steps that a file of some version still needs, oldest first. A file of
    /// a newer release is refused.
    pub fn initialize(current: u32) -> (r: Result<Vec<SchemaStep>, CrabError>)
        ensures
            match r {
                Ok(v) => {
                    &&& current <= SCHEMA_VERSION
                    &&& v@.len() == SCHEMA_VERSION - current
                    &&& versions_of(v@) == needed(current as int)
                    &&& forall|i: int|
                        0 <= i < v@.len() ==> (#[trigger] v@[i]).version == current + 1 + i && v@[i].name@
                            == step_name(current + 1 + i)
                },
                Err(CrabError::SchemaTooNew { found, supported }) => current > SCHEMA_VERSION && found
                    == current && supported == SCHEMA_VERSION,
                Err(_) => false,
            },
    {
        if current > SCHEMA_VERSION {
            return Err(CrabError::SchemaTooNew { found: current, supported: SCHEMA_VERSION });
        }
        let mut v: Vec<SchemaStep> = Vec::new();
        let mut at: u32 = current;
        while at < SCHEMA_VERSION
            invariant
                current <= at <= SCHEMA_VERSION,
                v@.len() == at - current,
                forall|i: int|
                    0 <= i < v@.len() ==> (#[trigger] v@[i]).version == current + 1 + i && v@[i].name@
                        == step_name(current + 1 + i),
            decreases SCHEMA_VERSION - at,
        {
            v.push(SchemaStep { version: at + 1, name: name_of(at + 1) });
            at = at + 1;
        }
        assert(versions_of(v@) =~= needed(current as int));
        Ok(v)
    }
}

/// The version of a file after a step that came to this: the step's own once
/// it was applied. A step that failed leaves the version and names itself.
pub fn after_step(step: &SchemaStep, outcome: Result<(), String>) -> (r: Result<u32, CrabError>)
    ensures
        match outcome {
            Ok(_) => r == Ok::<u32, CrabError>(step.version),
            Err(why) => r matches Err(CrabError::Migration { version, name, source }) && version
                == step.version && name@ == step.name@ && source@ == why@,
        },
{
    match outcome {
        Ok(_) => Ok(step.version),
        Err(why) => Err(
            CrabError::Migration { version: step.version, name: step.name, source: why },
        ),
    }
}

/// The columns that older track tables lack, each with its definition.
pub open spec fn track_columns() -> Seq<(Seq<char>, Seq<char>)> {
    seq![
        ("kind"@, "kind TEXT NOT NULL DEFAULT 'music'"@),
        ("daypart_start"@, "daypart_start INTEGER"@),
        ("daypart_end"@, "daypart_end INTEGER"@),
        ("daypart_days"@, "daypart_days TEXT NOT NULL DEFAULT 'Daily'"@),
        ("loudness_lufs"@, "loudness_lufs REAL"@),
        ("loudness_gain_db"@, "loudness_gain_db REAL"@),
    ]
}

/// The statement that adds a column.
pub open spec fn add_column(definition: Seq<char>) -> Seq<char> {
    "ALTER TABLE tracks ADD COLUMN "@ + definition + ";"@
}

/// The statements for the columns that are not there.
pub open spec fn repairs(
    columns: Seq<(Seq<char>, Seq<char>)>,
    present: Seq<Seq<char>>,
) -> Seq<Seq<char>>
    decreases columns.len(),
{
    if columns.len() == 0 {
        Seq::empty()
    } else {
        let front = repairs(columns.drop_last(), present);
        if present.contains(columns.last().0) {
            front
        } else {
            front.push(add_column(columns.last().1))
        }
    }
}

/// Whether a list of names holds a name.
fn is_present(list: &Vec<String>, name: &str) -> (r: bool)
    ensures
        r == text::texts(list@).contains(name@),
{
    let ghost all = text::texts(list@);
    let mut i: usize = 0;
    while i < list.len()
        invariant
            i <= list@.len(),
            all == text::texts(list@),
            forall|j: int| 0 <= j < i ==> all[j] != name@,
        decreases list@.len() - i,
    {
        if same_text(list[i].as_str(), name) {
            assert(all[i as int] == name@);
            return true;
        }
        i = i + 1;
    }
    false
}

/// The statements that bring an older track table up to date, by the columns
/// that it has.
pub fn track_repairs(present: &Vec<String>) -> (r: Vec<String>)
    ensures
        text::texts(r@) == repairs(track_columns(), text::texts(present@)),
{
    let columns: Vec<(&'static str, &'static str)> = vec![
        ("kind", "kind TEXT NOT NULL DEFAULT 'music'"),
        ("daypart_start", "daypart_start INTEGER"),
        ("daypart_end", "daypart_end INTEGER"),
        ("daypart_days", "daypart_days TEXT NOT NULL DEFAULT 'Daily'"),
        ("loudness_lufs", "loudness_lufs REAL"),
        ("loudness_gain_db", "loudness_gain_db REAL"),
    ];
    let ghost all = track_columns();
    assert forall|j: int| 0 <= j < 6 implies all[j] == ((#[trigger] columns@[j]).0@, columns@[j].1@) by {
    }
    let mut r: Vec<String> = Vec::new();
    let mut i: usize = 0;
    assert(all.subrange(0, 0) =~= Seq::empty());
    assert(text::texts(r@) =~= Seq::empty());
    while i < columns.len()
        invariant
            i <= columns@.len(),
            columns@.len() == 6,
            all == track_columns(),
            forall|j: int| 0 <= j < 6 ==> all[j] == ((#[trigger] columns@[j]).0@, columns@[j].1@),
            text::texts(r@) == repairs(all.subrange(0, i as int), text::texts(present@)),
        decreases columns@.len() - i,
    {
        let ghost before = text::texts(r@);
        assert(all.subrange(0, i + 1).drop_last() =~= all.subrange(0, i as int));
        assert(all.subrange(0, i + 1).last() == (columns@[i as int].0@, columns@[i as int].1@));
        if !is_present(present, columns[i].0) {
            let mut s = String::from_str("ALTER TABLE tracks ADD COLUMN ");
            s.append(columns[i].1);
            s.append(";");
            r.push(s);
            assert(text::texts(r@) =~= before.push(add_column(columns@[i as int].1@)));
        }
        i = i + 1;
    }
    assert(all.subrange(0, i as int) =~= all);
    r
}

/// The statement that brings an older event table up to date, where it lacks
/// the column of expiry dates.
pub fn event_repair(has_expiry: bool) -> (r: Option<String>)
    ensures
        text::opt_text(r) == (if has_expiry {
            None
        } else {
            Some("ALTER TABLE scheduled_events ADD COLUMN expires_on TEXT;"@)
        }),
{
    if has_expiry {
        None
    } else {
        Some(String::from_str("ALTER TABLE scheduled_events ADD COLUMN expires_on TEXT;"))
    }
}

/// An up-to-date file needs no step, and the steps of an older one lead to the
/// current version.
pub proof fn steps_reach_the_schema(current: u32, steps: Seq<SchemaStep>)
    requires
        current <= SCHEMA_VERSION,
        steps.len() == SCHEMA_VERSION - current,
        forall|i: int| 0 <= i < steps.len() ==> (#[trigger] steps[i]).version == current + 1 + i,
    ensures
        current == SCHEMA_VERSION ==> steps.len() == 0,
        current < SCHEMA_VERSION ==> steps.last().version == SCHEMA_VERSION,
        forall|i: int, j: int| 0 <= i < j < steps.len() ==> steps[i].version < steps[j].version,
{
}

/// A table that has every column needs no repair.
pub proof fn whole_tables_need_no_repair(present: Seq<Seq<char>>)
    requires
        forall|i: int| 0 <= i < track_columns().len() ==> present.contains((#[trigger] track_columns()[i]).0),
    ensures
        repairs(track_columns(), present) == Seq::<Seq<char>>::empty(),
{
    lemma_no_repairs(track_columns(), present);
}

proof fn lemma_no_repairs(columns: Seq<(Seq<char>, Seq<char>)>, present: Seq<Seq<char>>)
    requires
        forall|i: int| 0 <= i < columns.len() ==> present.contains((#[trigger] columns[i]).0),
    ensures
        repairs(columns, present) == Seq::<Seq<char>>::empty(),
    decreases columns.len(),
{
    if columns.len() > 0 {
        let t = columns.drop_last();
        assert forall|i: int| 0 <= i < t.len() implies present.contains((#[trigger] t[i]).0) by {
            assert(t[i] == columns[i]);
        }
        lemma_no_repairs(t, present);
    }
}

/// One event of a wholesale replacement.
#[derive(Debug, Clone)]
pub struct SchedulerRow {
    pub name: String,
    pub action_type: String,
    pub target: String,
    pub start_time: String,
    pub days: String,
    pub expires_on: Option<String>,
    pub enabled: bool,
}

/// One pad of a wholesale replacement.
#[derive(Debug, Clone)]
pub struct CartRow {
    pub label: String,
    pub file_path: String,
    pub position: i32,
}

/// One commercial break of a wholesale replacement, with its dates as
/// `YYYY-MM-DD`.
#[derive(Debug, Clone)]
pub struct AdBlockRow {
    pub name: String,
    pub spot_path: String,
    pub intro_path: Option<String>,
    pub outro_path: Option<String>,
    pub start_date: String,
    pub end_date: String,
    pub play_time: String,
    pub days: String,
    pub enabled: bool,
}

/// How many rows each list has after a replacement.
#[derive(Debug, Clone, Copy, PartialEq, Eq, Structural)]
pub struct ReplaceCounts {
    pub scheduler: usize,
    pub carts: usize,
    pub ads: usize,
}

/// The id and the moment that a new row gets.
#[derive(Debug)]
pub struct Mark {
    pub id: String,
    pub at: Stamp,
}

/// No two rows get the same id.
pub open spec fn distinct_ids(marks: Seq<Mark>) -> bool {
    forall|i: int, j: int|
        0 <= i < j < marks.len() ==> (#[trigger] marks[i]).id@ != (#[trigger] marks[j]).id@
}

/// Every row gets a moment of the calendar.
pub open spec fn proper(marks: Seq<Mark>) -> bool {
    forall|i: int| 0 <= i < marks.len() ==> (#[trigger] marks[i]).at.valid()
}

/// An event as it is stored under its mark.
pub open spec fn event_view(row: SchedulerRow, mark: Mark) -> scheduler::EventView {
    scheduler::EventView {
        id: mark.id@,
        name: row.name@,
        action_type: row.action_type@,
        target: row.target@,
        start_time: row.start_time@,
        days: row.days@,
        expires_on: text::opt_text(row.expires_on),
        enabled: row.enabled,
        created_at: clock::rfc3339_text(mark.at.secs as int, mark.at.nanos as int),
    }
}

/// A pad as it is stored under its mark.
pub open spec fn pad_view(row: CartRow, mark: Mark) -> cart::CartView {
    cart::CartView {
        id: mark.id@,
        label: row.label@,
        file_path: row.file_path@,
        position: row.position,
        created_at: clock::rfc3339_text(mark.at.secs as int, mark.at.nanos as int),
    }
}

/// A path as it is stored: nothing is the empty text.
pub open spec fn stored_path(p: Option<String>) -> Seq<char> {
    match p {
        Some(s) => s@,
        None => Seq::empty(),
    }
}

/// A break as it is stored under its mark.
pub open spec fn break_view(row: AdBlockRow, mark: Mark) -> ads::AdView {
    ads::AdView {
        id: mark.id@,
        name: row.name@,
        spot_path: row.spot_path@,
        intro_path: stored_path(row.intro_path),
        outro_path: stored_path(row.outro_path),
        start_date: row.start_date@,
        end_date: row.end_date@,
        play_time: row.play_time@,
        days: row.days@,
        enabled: row.enabled,
    }
}

/// The wall after the first pads of a replacement: the last pad for a position
/// wins.
pub open spec fn wall_after(rows: Seq<CartRow>, marks: Seq<Mark>, n: int) -> Seq<cart::CartView>
    decreases n,
{
    if n <= 0 {
        Seq::empty()
    } else {
        wall_after(rows, marks, n - 1).filter(
            |v: cart::CartView| v.position != rows[n - 1].position,
        ).push(pad_view(rows[n - 1], marks[n - 1]))
    }
}

/// The first pad that is off the wall is at this place.
pub open spec fn first_off_wall(rows: Seq<CartRow>, i: int) -> bool {
    &&& 0 <= i < rows.len()
    &&& !cart::on_wall(rows[i].position)
    &&& forall|j: int| 0 <= j < i ==> cart::on_wall((#[trigger] rows[j]).position)
}

/// The error of an insert that failed.
fn insert_error(what: &str, name: &str, why: &CrabError) -> (e: CrabError)
    ensures
        e matches CrabError::BulkReplace(m) && m@ == "insert "@ + what@ + " '"@ + name@ + "': "@
            + error::error_text(*why),
{
    let mut s = String::from_str("insert ");
    s.append(what);
    s.append(" '");
    s.append(name);
    s.append("': ");
    let t = why.message();
    s.append(t.as_str());
    CrabError::BulkReplace(s)
}

/// An error that tells of a failed insert.
pub open spec fn insert_failed(e: CrabError) -> bool {
    e matches CrabError::BulkReplace(m) && text::begins(m@, "insert "@)
}

proof fn lemma_begins(a: Seq<char>, b: Seq<char>)
    ensures
        text::begins(a + b, a),
{
    assert((a + b).subrange(0, a.len() as int) =~= a);
}

/// The events of a replacement.
fn fill_events(rows: &[SchedulerRow], marks: &Vec<Mark>) -> (r: Result<SchedulerManager, CrabError>)
    requires
        rows@.len() == marks@.len(),
        proper(marks@),
    ensures
        match r {
            Ok(m) => m.wf() && m.rows@.len() == rows@.len() && (forall|i: int|
                0 <= i < rows@.len() ==> (#[trigger] m.rows@[i])@ == event_view(rows@[i], marks@[i])),
            Err(e) => !distinct_ids(marks@) && insert_failed(e),
        },
{
    let mut m = SchedulerManager::new();
    let mut i: usize = 0;
    while i < rows.len()
        invariant
            i <= rows@.len(),
            rows@.len() == marks@.len(),
            proper(marks@),
            m.wf(),
            m.rows@.len() == i,
            forall|j: int| 0 <= j < i ==> (#[trigger] m.rows@[j])@ == event_view(rows@[j], marks@[j]),
        decreases rows@.len() - i,
    {
        let s = &rows[i];
        assert(marks@[i as int].at.valid());
        let row = EventRow {
            id: marks[i].id.clone(),
            name: s.name.clone(),
            action_type: s.action_type.clone(),
            target: s.target.clone(),
            start_time: s.start_time.clone(),
            days: s.days.clone(),
            expires_on: copy_opt(&s.expires_on),
            enabled: s.enabled,
            created_at: write_rfc3339(marks[i].at),
        };
        let ghost before = m.rows@;
        match m.insert_row(row) {
            Ok(_) => {
                assert(row@ == event_view(rows@[i as int], marks@[i as int]));
            },
            Err(e) => {
                proof {
                    assert(table::has_key(before, marks@[i as int].id@));
                    let k = choose|k: int|
                        0 <= k < before.len() && (#[trigger] before[k]).key() == marks@[i as int].id@;
                    assert(before[k]@ == event_view(rows@[k], marks@[k]));
                    assert(marks@[k].id@ == marks@[i as int].id@);
                }
                let out = insert_error("scheduler", s.name.as_str(), &e);
                proof {
                    lemma_begins(
                        "insert "@,
                        "scheduler"@ + " '"@ + s.name@ + "': "@ + error::error_text(e),
                    );
                    assert("insert "@ + ("scheduler"@ + " '"@ + s.name@ + "': "@ + error::error_text(e))
                        =~= "insert "@ + "scheduler"@ + " '"@ + s.name@ + "': "@ + error::error_text(
                        e,
                    ));
                }
                return Err(out);
            },
        }
        i = i + 1;
    }
    Ok(m)
}

/// The breaks of a replacement.
fn fill_breaks(rows: &[AdBlockRow], marks: &Vec<Mark>) -> (r: Result<AdsManager, CrabError>)
    requires
        rows@.len() == marks@.len(),
    ensures
        match r {
            Ok(m) => m.wf() && m.rows@.len() == rows@.len() && (forall|i: int|
                0 <= i < rows@.len() ==> (#[trigger] m.rows@[i])@ == break_view(rows@[i], marks@[i])),
            Err(e) => !distinct_ids(marks@) && insert_failed(e),
        },
{
    let mut m = AdsManager::new();
    let mut i: usize = 0;
    while i < rows.len()
        invariant
            i <= rows@.len(),
            rows@.len() == marks@.len(),
            m.wf(),
            m.rows@.len() == i,
            forall|j: int| 0 <= j < i ==> (#[trigger] m.rows@[j])@ == break_view(rows@[j], marks@[j]),
        decreases rows@.len() - i,
    {
        let a = &rows[i];
        let row = StoredAd {
            id: marks[i].id.clone(),
            name: a.name.clone(),
            spot_path: a.spot_path.clone(),
            intro_path: match &a.intro_path {
                Some(p) => p.clone(),
                None => String::new(),
            },
            outro_path: match &a.outro_path {
                Some(p) => p.clone(),
                None => String::new(),
            },
            start_date: a.start_date.clone(),
            end_date: a.end_date.clone(),
            play_time: a.play_time.clone(),
            days: a.days.clone(),
            enabled: a.enabled,
        };
        let ghost before = m.rows@;
        match m.insert_row(row) {
            Ok(_) => {
                assert(row@ == break_view(rows@[i as int], marks@[i as int]));
            },
            Err(e) => {
                proof {
                    assert(table::has_key(before, marks@[i as int].id@));
                    let k = choose|k: int|
                        0 <= k < before.len() && (#[trigger] before[k]).key() == marks@[i as int].id@;
                    assert(before[k]@ == break_view(rows@[k], marks@[k]));
                    assert(marks@[k].id@ == marks@[i as int].id@);
                }
                let out = insert_error("ad block", a.name.as_str(), &e);
                proof {
                    lemma_begins(
                        "insert "@,
                        "ad block"@ + " '"@ + a.name@ + "': "@ + error::error_text(e),
                    );
                    assert("insert "@ + ("ad block"@ + " '"@ + a.name@ + "': "@ + error::error_text(e))
                        =~= "insert "@ + "ad block"@ + " '"@ + a.name@ + "': "@ + error::error_text(
                        e,
                    ));
                }
                return Err(out);
            },
        }
        i = i + 1;
    }
    Ok(m)
}

proof fn lemma_filter_views(rows: Seq<StoredCart>, position: i32)
    ensures
        cart::off_position(rows, position).map_values(|c: StoredCart| c@) == rows.map_values(
            |c: StoredCart| c@,
        ).filter(|v: cart::CartView| v.position != position),
    decreases rows.len(),
{
    reveal(Seq::filter);
    let views = rows.map_values(|c: StoredCart| c@);
    if rows.len() > 0 {
        let t = rows.drop_last();
        lemma_filter_views(t, position);
        assert(views.drop_last() =~= t.map_values(|c: StoredCart| c@));
        assert(views.last() == rows.last()@);
        assert(cart::off_position(rows, position).map_values(|c: StoredCart| c@) =~= views.filter(
            |v: cart::CartView| v.position != position,
        ));
    } else {
        assert(cart::off_position(rows, position).map_values(|c: StoredCart| c@) =~= views.filter(
            |v: cart::CartView| v.position != position,
        ));
    }
}

proof fn lemma_wall_ids(rows: Seq<CartRow>, marks: Seq<Mark>, n: int, k: int)
    requires
        0 <= n <= marks.len(),
        0 <= k < wall_after(rows, marks, n).len(),
    ensures
        exists|j: int| 0 <= j < n && wall_after(rows, marks, n)[k].id == (#[trigger] marks[j]).id@,
    decreases n,
{
    if n > 0 {
        let all = wall_after(rows, marks, n - 1);
        let keep = |v: cart::CartView| v.position != rows[n - 1].position;
        let front = all.filter(keep);
        if k < front.len() {
            lemma_filter_from(all, keep, k);
            let q = choose|q: int| 0 <= q < all.len() && all[q] == front[k];
            lemma_wall_ids(rows, marks, n - 1, q);
            let j = choose|j: int|
                0 <= j < n - 1 && wall_after(rows, marks, n - 1)[q].id == (#[trigger] marks[j]).id@;
            assert(wall_after(rows, marks, n)[k].id == marks[j].id@);
        } else {
            assert(wall_after(rows, marks, n)[k].id == marks[n - 1].id@);
        }
    }
}

proof fn lemma_filter_from<T>(s: Seq<T>, pred: spec_fn(T) -> bool, i: int)
    requires
        0 <= i < s.filter(pred).len(),
    ensures
        s.contains(s.filter(pred)[i]),
    decreases s.len(),
{
    reveal(Seq::filter);
    if s.len() > 0 {
        let t = s.drop_last();
        if i < t.filter(pred).len() {
            lemma_filter_from(t, pred, i);
            let k = choose|k: int| 0 <= k < t.len() && t[k] == t.filter(pred)[i];
            assert(s[k] == t[k]);
            assert(s.filter(pred)[i] == t.filter(pred)[i]);
        } else {
            assert(s.filter(pred)[i] == s.last());
        }
    }
}

/// Of several pads for one position the last wins, and no position is left
/// out.
pub proof fn last_pad_wins(rows: Seq<CartRow>, marks: Seq<Mark>, n: int, i: int)
    requires
        0 <= i < n <= rows.len(),
        forall|j: int| i < j < n ==> (#[trigger] rows[j]).position != rows[i].position,
    ensures
        wall_after(rows, marks, n).contains(pad_view(rows[i], marks[i])),
    decreases n,
{
    let all = wall_after(rows, marks, n - 1);
    let keep = |v: cart::CartView| v.position != rows[n - 1].position;
    let wall = wall_after(rows, marks, n);
    let v = pad_view(rows[i], marks[i]);
    if i == n - 1 {
        assert(wall[wall.len() - 1] == v);
    } else {
        last_pad_wins(rows, marks, n - 1, i);
        let q = choose|q: int| 0 <= q < all.len() && all[q] == v;
        assert(rows[n - 1].position != rows[i].position);
        all.lemma_filter_contains(keep, q);
        let front = all.filter(keep);
        let k = choose|k: int| 0 <= k < front.len() && front[k] == v;
        assert(wall[k] == v);
    }
}

/// The wall of a replacement.
fn fill_wall(rows: &[CartRow], marks: &Vec<Mark>) -> (r: Result<CartManager, CrabError>)
    requires
        rows@.len() == marks@.len(),
        proper(marks@),
    ensures
        match r {
            Ok(m) => {
                &&& m.wf()
                &&& m.rows@.map_values(|c: StoredCart| c@) == wall_after(
                    rows@,
                    marks@,
                    rows@.len() as int,
                )
                &&& forall|i: int| 0 <= i < rows@.len() ==> cart::on_wall((#[trigger] rows@[i]).position)
            },
            Err(e) => {
                ||| !distinct_ids(marks@) && insert_failed(e)
                ||| exists|i: int| #[trigger]
                    first_off_wall(rows@, i) && (e matches CrabError::BulkReplace(m) && m@
                        == "bad cart position "@ + text::decimal_int(rows@[i].position as int))
            },
        },
{
    let mut m = CartManager::new();
    let mut i: usize = 0;
    assert(m.rows@.map_values(|c: StoredCart| c@) =~= Seq::empty());
    while i < rows.len()
        invariant
            i <= rows@.len(),
            rows@.len() == marks@.len(),
            proper(marks@),
            m.wf(),
            m.rows@.map_values(|c: StoredCart| c@) == wall_after(rows@, marks@, i as int),
            forall|j: int| 0 <= j < i ==> cart::on_wall((#[trigger] rows@[j]).position),
        decreases rows@.len() - i,
    {
        let c = &rows[i];
        assert(marks@[i as int].at.valid());
        let ghost before = m.rows@;
        match m.assign_with(
            marks[i].id.clone(),
            marks[i].at,
            c.position,
            c.label.as_str(),
            c.file_path.as_str(),
        ) {
            Ok(_) => {
                proof {
                    lemma_filter_views(before, c.position);
                    let views = m.rows@.map_values(|c: StoredCart| c@);
                    assert(views.drop_last() =~= cart::off_position(before, c.position).map_values(
                        |c: StoredCart| c@,
                    ));
                    assert(views =~= views.drop_last().push(m.rows@.last()@));
                    assert(m.rows@.last()@ == pad_view(rows@[i as int], marks@[i as int]));
                }
            },
            Err(e) => {
                match &e {
                    CrabError::InvalidCartPosition(_) => {
                        assert(first_off_wall(rows@, i as int));
                        let mut s = String::from_str("bad cart position ");
                        push_decimal_signed(&mut s, c.position as i64);
                        return Err(CrabError::BulkReplace(s));
                    },
                    _ => {
                        proof {
                            let left = cart::off_position(before, c.position);
                            assert(table::has_key(left, marks@[i as int].id@));
                            let k = choose|k: int|
                                0 <= k < left.len() && (#[trigger] left[k]).key() == marks@[i as int].id@;
                            lemma_filter_from(
                                before,
                                |x: StoredCart| x.position != c.position,
                                k,
                            );
                            let q = choose|q: int| 0 <= q < before.len() && before[q] == left[k];
                            let views = before.map_values(|c: StoredCart| c@);
                            assert(views[q] == before[q]@);
                            lemma_wall_ids(rows@, marks@, i as int, q);
                            let j = choose|j: int|
                                0 <= j < i && wall_after(rows@, marks@, i as int)[q].id
                                    == (#[trigger] marks@[j]).id@;
                            assert(marks@[j].id@ == marks@[i as int].id@);
                        }
                        let out = insert_error("cart", c.label.as_str(), &e);
                        proof {
                            lemma_begins(
                                "insert "@,
                                "cart"@ + " '"@ + c.label@ + "': "@ + error::error_text(e),
                            );
                            assert("insert "@ + ("cart"@ + " '"@ + c.label@ + "': "@
                                + error::error_text(e)) =~= "insert "@ + "cart"@ + " '"@ + c.label@
                                + "': "@ + error::error_text(e));
                        }
                        return Err(out);
                    },
                }
            },
        }
        i = i + 1;
    }
    Ok(m)
}

/// The lists stand as a replacement under its marks asks.
pub open spec fn replaced(
    events: SchedulerManager,
    pads: CartManager,
    breaks: AdsManager,
    scheduler: Seq<SchedulerRow>,
    carts: Seq<CartRow>,
    ads: Seq<AdBlockRow>,
    event_marks: Seq<Mark>,
    pad_marks: Seq<Mark>,
    break_marks: Seq<Mark>,
) -> bool {
    &&& events.rows@.len() == scheduler.len()
    &&& forall|i: int|
        0 <= i < scheduler.len() ==> (#[trigger] events.rows@[i])@ == event_view(
            scheduler[i],
            event_marks[i],
        )
    &&& pads.rows@.map_values(|c: StoredCart| c@) == wall_after(carts, pad_marks, carts.len() as int)
    &&& breaks.rows@.len() == ads.len()
    &&& forall|i: int|
        0 <= i < ads.len() ==> (#[trigger] breaks.rows@[i])@ == break_view(ads[i], break_marks[i])
}

/// Fresh marks for so many rows; what they are is up to chance and the clock.
pub(crate) fn fresh_marks(n: usize) -> (r: Vec<Mark>)
    ensures
        r@.len() == n,
        proper(r@),
{
    let mut r: Vec<Mark> = Vec::new();
    let mut i: usize = 0;
    while i < n
        invariant
            i <= n,
            r@.len() == i,
            proper(r@),
        decreases n - i,
    {
        let at = now();
        r.push(Mark { id: fresh_id(), at });
        i = i + 1;
    }
    r
}

impl Database {
    /// Replace the three lists together, under given marks: all of them or none.
    pub fn replace_lists_with(
        events: &mut SchedulerManager,
        pads: &mut CartManager,
        breaks: &mut AdsManager,
        scheduler: &[SchedulerRow],
        carts: &[CartRow],
        ads: &[AdBlockRow],
        event_marks: &Vec<Mark>,
        pad_marks: &Vec<Mark>,
        break_marks: &Vec<Mark>,
    ) -> (r: Result<ReplaceCounts, CrabError>)
        requires
            scheduler@.len() == event_marks@.len(),
            carts@.len() == pad_marks@.len(),
            ads@.len() == break_marks@.len(),
            proper(event_marks@),
            proper(pad_marks@),
        ensures
            match r {
                Ok(n) => {
                    &&& n == (ReplaceCounts {
                        scheduler: scheduler@.len() as usize,
                        carts: final(pads).rows@.len() as usize,
                        ads: ads@.len() as usize,
                    })
                    &&& forall|i: int| 0 <= i < carts@.len() ==> cart::on_wall((#[trigger] carts@[i]).position)
                    &&& final(events).wf() && final(pads).wf() && final(breaks).wf()
                    &&& replaced(
                        *final(events),
                        *final(pads),
                        *final(breaks),
                        scheduler@,
                        carts@,
                        ads@,
                        event_marks@,
                        pad_marks@,
                        break_marks@,
                    )
                },
                Err(e) => {
                    &&& *final(events) == *old(events)
                    &&& *final(pads) == *old(pads)
                    &&& *final(breaks) == *old(breaks)
                    &&& {
                        ||| insert_failed(e) && !(distinct_ids(event_marks@) && distinct_ids(pad_marks@)
                            && distinct_ids(break_marks@))
                        ||| exists|i: int| #[trigger]
                            first_off_wall(carts@, i) && (e matches CrabError::BulkReplace(m) && m@
                                == "bad cart position "@ + text::decimal_int(carts@[i].position as int))
                    }
                },
            },
    {
        let new_events = match fill_events(scheduler, event_marks) {
            Ok(m) => m,
            Err(e) => {
                return Err(e);
            },
        };
        let new_pads = match fill_wall(carts, pad_marks) {
            Ok(m) => m,
            Err(e) => {
                return Err(e);
            },
        };
        let new_breaks = match fill_breaks(ads, break_marks) {
            Ok(m) => m,
            Err(e) => {
                return Err(e);
            },
        };
        let counts = ReplaceCounts {
            scheduler: scheduler.len(),
            carts: new_pads.rows.len(),
            ads: ads.len(),
        };
        *events = new_events;
        *pads = new_pads;
        *breaks = new_breaks;
        Ok(counts)
    }

    /// Replace the three lists together, under fresh ids: all of them or none. A
    /// pad off the wall fails the whole; of two pads for one position the last
    /// wins. That ids do not clash is up to chance, and only two rows of one
    /// list can clash.
    pub fn replace_station_lists(
        events: &mut SchedulerManager,
        pads: &mut CartManager,
        breaks: &mut AdsManager,
        scheduler: &[SchedulerRow],
        carts: &[CartRow],
        ads: &[AdBlockRow],
    ) -> (r: Result<ReplaceCounts, CrabError>)
        ensures
            match r {
                Ok(n) => {
                    &&& n == (ReplaceCounts {
                        scheduler: scheduler@.len() as usize,
                        carts: final(pads).rows@.len() as usize,
                        ads: ads@.len() as usize,
                    })
                    &&& forall|i: int| 0 <= i < carts@.len() ==> cart::on_wall((#[trigger] carts@[i]).position)
                    &&& final(events).wf() && final(pads).wf() && final(breaks).wf()
                    &&& exists|a: Seq<Mark>, b: Seq<Mark>, c: Seq<Mark>| #[trigger]
                        replaced(
                            *final(events),
                            *final(pads),
                            *final(breaks),
                            scheduler@,
                            carts@,
                            ads@,
                            a,
                            b,
                            c,
                        ) && a.len() == scheduler@.len() && b.len() == carts@.len() && c.len()
                            == ads@.len() && proper(a) && proper(b) && proper(c)
                },
                Err(e) => {
                    &&& *final(events) == *old(events)
                    &&& *final(pads) == *old(pads)
                    &&& *final(breaks) == *old(breaks)
                    &&& {
                        ||| insert_failed(e) && (scheduler@.len() > 1 || carts@.len() > 1
                            || ads@.len() > 1)
                        ||| exists|i: int| #[trigger]
                            first_off_wall(carts@, i) && (e matches CrabError::BulkReplace(m) && m@
                                == "bad cart position "@ + text::decimal_int(carts@[i].position as int))
                    }
                },
            },
    {
        let event_marks = fresh_marks(scheduler.len());
        let pad_marks = fresh_marks(carts.len());
        let break_marks = fresh_marks(ads.len());
        Database::replace_lists_with(
            events,
            pads,
            breaks,
            scheduler,
            carts,
            ads,
            &event_marks,
            &pad_marks,
            &break_marks,
        )
    }
}

/// A table lacks exactly the columns that it does not have: each of them is
/// added by its own statement, and none of the others is.
pub proof fn missing_columns_are_added(
    columns: Seq<(Seq<char>, Seq<char>)>,
    present: Seq<Seq<char>>,
    statement: Seq<char>,
)
    ensures
        repairs(columns, present).contains(statement) <==> exists|i: int|
            0 <= i < columns.len() && !present.contains((#[trigger] columns[i]).0) && statement
                == add_column(columns[i].1),
        repairs(columns, present).len() <= columns.len(),
    decreases columns.len(),
{
    if columns.len() > 0 {
        let front = columns.drop_last();
        let before = repairs(front, present);
        let all = repairs(columns, present);
        missing_columns_are_added(front, present, statement);
        let n = columns.len() - 1;
        assert(columns[n] == columns.last());
        if exists|i: int|
            0 <= i < front.len() && !present.contains((#[trigger] front[i]).0) && statement
                == add_column(front[i].1) {
            let i = choose|i: int|
                0 <= i < front.len() && !present.contains((#[trigger] front[i]).0) && statement
                    == add_column(front[i].1);
            assert(columns[i] == front[i]);
        }
        if exists|i: int|
            0 <= i < columns.len() && !present.contains((#[trigger] columns[i]).0) && statement
                == add_column(columns[i].1) {
            let i = choose|i: int|
                0 <= i < columns.len() && !present.contains((#[trigger] columns[i]).0) && statement
                    == add_column(columns[i].1);
            if i < n {
                assert(front[i] == columns[i]);
            }
        }
        if !present.contains(columns.last().0) {
            assert(all == before.push(add_column(columns.last().1)));
            assert(all[before.len() as int] == add_column(columns.last().1));
            if before.contains(statement) {
                let k = choose|k: int| 0 <= k < before.len() && before[k] == statement;
                assert(all[k] == statement);
            }
            if all.contains(statement) {
                let k = choose|k: int| 0 <= k < all.len() && all[k] == statement;
                if k < before.len() {
                    assert(before[k] == statement);
                }
            }
        }
    }
}

/// A file of any earlier version is brought to the third by the steps that it
/// lacks, one after the other.
pub proof fn steps_follow_one_another(current: int, i: int)
    requires
        0 <= current <= 3,
    ensures
        needed(current).len() == 3 - current,
        0 <= i < needed(current).len() ==> needed(current)[i] == current + 1 + i,
        version_after(current, needed(current)) == 3,
{
}

/// A statement adds the column of its definition.
pub proof fn statements_add_their_column(a: Seq<char>, b: Seq<char>)
    ensures
        text::begins(add_column(a), "ALTER TABLE tracks ADD COLUMN "@),
        text::holds(add_column(a), a),
        add_column(a) == add_column(b) ==> a == b,
{
    let head = "ALTER TABLE tracks ADD COLUMN "@;
    let n = head.len() as int;
    reveal_strlit(";");
    assert(add_column(a).subrange(0, n) =~= head);
    assert(add_column(a).subrange(n, n + a.len()) =~= a);
    assert(text::occurs_at(add_column(a), a, n));
    if add_column(a) == add_column(b) {
        assert(add_column(a).len() == add_column(b).len());
        assert(add_column(b).subrange(n, n + b.len()) =~= b);
    }
}

/// A row of an exchange file becomes a record with the same fields, under the
/// mark's id; a clip that is not there is stored as nothing.
pub proof fn rows_keep_their_fields(e: SchedulerRow, c: CartRow, b: AdBlockRow, mark: Mark)
    ensures
        event_view(e, mark).name == e.name@ && event_view(e, mark).action_type == e.action_type@
            && event_view(e, mark).target == e.target@ && event_view(e, mark).start_time
            == e.start_time@ && event_view(e, mark).days == e.days@ && event_view(e, mark).enabled
            == e.enabled,
        e.expires_on is Some ==> event_view(e, mark).expires_on == Some(e.expires_on->0@),
        e.expires_on is None ==> event_view(e, mark).expires_on is None,
        pad_view(c, mark).label == c.label@ && pad_view(c, mark).file_path == c.file_path@ && pad_view(
            c,
            mark,
        ).position == c.position,
        break_view(b, mark).name == b.name@ && break_view(b, mark).spot_path == b.spot_path@
            && break_view(b, mark).start_date == b.start_date@ && break_view(b, mark).end_date
            == b.end_date@ && break_view(b, mark).play_time == b.play_time@ && break_view(b, mark).days
            == b.days@ && break_view(b, mark).enabled == b.enabled,
        b.intro_path is Some ==> break_view(b, mark).intro_path == b.intro_path->0@,
        b.intro_path is None ==> break_view(b, mark).intro_path.len() == 0,
        b.outro_path is Some ==> break_view(b, mark).outro_path == b.outro_path->0@,
        b.outro_path is None ==> break_view(b, mark).outro_path.len() == 0,
        event_view(e, mark).id == mark.id@ && pad_view(c, mark).id == mark.id@ && break_view(b, mark).id
            == mark.id@,
{
}

} // verus!
