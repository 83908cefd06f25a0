//! The list of recorded takes. They are no tracks of the library: no report,
//! no rotation and no loudness scan knows them.

use vstd::prelude::*;
use vstd::string::*;

use crate::clock::{fresh_id, now, read_rfc3339, write_rfc3339, Stamp};
use crate::error::CrabError;
use crate::rank::{rank, Order};
use crate::table::{find_key, remove_key, Keyed};
use crate::text::{same_text, text_before};
use crate::clock;
use crate::rank;
use crate::table;
use crate::text;

verus! {

/// One recorded take.
#[derive(Debug, Clone)]
pub struct VoiceTrack {
    pub id: String,
    pub name: String,
    pub file_path: String,
    pub duration_nanos: u64,
    pub sample_rate: u32,
    pub created_at: Stamp,
}

/// A take as it is stored: the moment of its creation is text.
#[derive(Debug)]
pub struct StoredVoice {
    pub id: String,
    pub name: String,
    pub file_path: String,
    pub duration_nanos: u64,
    pub sample_rate: u32,
    pub created_at: String,
}

impl Clone for StoredVoice {
    fn clone(&self) -> (r: Self)
        ensures
            r == *self,
    {
        StoredVoice {
            id: self.id.clone(),
            name: self.name.clone(),
            file_path: self.file_path.clone(),
            duration_nanos: self.duration_nanos,
            sample_rate: self.sample_rate,
            created_at: self.created_at.clone(),
        }
    }
}

impl Keyed for StoredVoice {
    open spec fn key(self) -> Seq<char> {
        self.id@
    }

    fn key_is(&self, id: &str) -> (r: bool) {
        same_text(self.id.as_str(), id)
    }

    fn duplicate(&self) -> (r: Self) {
        self.clone()
    }
}

/// Newest first.
pub struct ByCreation;

impl Order<StoredVoice> for ByCreation {
    open spec fn before(self, a: StoredVoice, b: StoredVoice) -> bool {
        text::text_lt(b.created_at@, a.created_at@)
    }

    proof fn is_weak_order(self, a: StoredVoice, b: StoredVoice, c: StoredVoice) {
        text::text_order_is_total(a.created_at@, b.created_at@);
        text::text_order_is_total(b.created_at@, c.created_at@);
        text::text_order_is_total(a.created_at@, c.created_at@);
        if text::text_lt(c.created_at@, b.created_at@) && text::text_lt(b.created_at@, a.created_at@) {
            text::text_order_is_transitive(c.created_at@, b.created_at@, a.created_at@);
        }
        if text::text_lt(b.created_at@, c.created_at@) && text::text_lt(a.created_at@, b.created_at@) {
            text::text_order_is_transitive(a.created_at@, b.created_at@, c.created_at@);
        }
    }

    fn is_ahead(&self, a: &StoredVoice, b: &StoredVoice) -> (r: bool) {
        text_before(b.created_at.as_str(), a.created_at.as_str())
    }
}

/// The takes as they are listed: newest first, and of the same moment the one
/// recorded last.
pub open spec fn listed(rows: Seq<StoredVoice>) -> Seq<StoredVoice> {
    rank::ranked(ByCreation, rows.reverse())
}

/// A row whose moment can be read.
pub open spec fn readable(row: StoredVoice) -> bool {
    clock::rfc3339_moment(row.created_at@) is Some
}

/// The take that a readable row stands for.
pub open spec fn voice_from(row: StoredVoice) -> VoiceTrack {
    VoiceTrack {
        id: row.id,
        name: row.name,
        file_path: row.file_path,
        duration_nanos: row.duration_nanos,
        sample_rate: row.sample_rate,
        created_at: clock::rfc3339_moment(row.created_at@)->0,
    }
}

/// The error that a row with a broken moment gives.
pub open spec fn broken(row: StoredVoice, e: CrabError) -> bool {
    e matches CrabError::Integrity { table, id, field, value } && table@ == "voice_tracks"@ && id@
        == row.id@ && field@ == "created_at"@ && value@ == row.created_at@
}

/// Read a row.
fn read_row(row: &StoredVoice) -> (r: Result<VoiceTrack, CrabError>)
    ensures
        match r {
            Ok(v) => readable(*row) && v == voice_from(*row),
            Err(e) => !readable(*row) && broken(*row, e),
        },
{
    match read_rfc3339(row.created_at.as_str()) {
        Some(at) => Ok(
            VoiceTrack {
                id: row.id.clone(),
                name: row.name.clone(),
                file_path: row.file_path.clone(),
                duration_nanos: row.duration_nanos,
                sample_rate: row.sample_rate,
                created_at: at,
            },
        ),
        None => Err(
            CrabError::Integrity {
                table: "voice_tracks",
                id: row.id.clone(),
                field: "created_at",
                value: row.created_at.clone(),
            },
        ),
    }
}

/// The first row with a path.
pub open spec fn first_at_path(rows: Seq<StoredVoice>, path: Seq<char>, i: int) -> bool {
    &&& 0 <= i < rows.len()
    &&& rows[i].file_path@ == path
    &&& forall|j: int| 0 <= j < i ==> (#[trigger] rows[j]).file_path@ != path
}

/// The takes of the station.
#[derive(Debug)]
pub struct VoiceManager {
    pub rows: Vec<StoredVoice>,
}

impl VoiceManager {
    /// No two rows share an id.
    pub open spec fn wf(self) -> bool {
        table::distinct_keys(self.rows@)
    }

    /// An empty store.
    pub fn new() -> (m: Self)
        ensures
            m.wf(),
            m.rows@ == Seq::<StoredVoice>::empty(),
    {
        VoiceManager { rows: Vec::new() }
    }

    /// Store a row as it stands; a second row with its id is refused.
    pub fn insert_row(&mut self, row: StoredVoice) -> (r: Result<(), CrabError>)
        requires
            old(self).wf(),
        ensures
            final(self).wf(),
            match r {
                Ok(_) => !table::has_key(old(self).rows@, row.id@) && final(self).rows@
                    == old(self).rows@.push(row),
                Err(CrabError::Database(m)) => table::has_key(old(self).rows@, row.id@)
                    && final(self).rows@ == old(self).rows@ && m@
                    == "UNIQUE constraint failed: voice_tracks.id"@,
                Err(_) => false,
            },
    {
        if find_key(&self.rows, row.id.as_str()).is_some() {
            return Err(
                CrabError::Database(String::from_str("UNIQUE constraint failed: voice_tracks.id")),
            );
        }
        self.rows.push(row);
        Ok(())
    }

    /// Store a take under a given id at a given moment.
    pub fn create_with(
        &mut self,
        id: String,
        at: Stamp,
        name: &str,
        file_path: &str,
        duration_nanos: u64,
        sample_rate: u32,
    ) -> (r: Result<VoiceTrack, CrabError>)
        requires
            old(self).wf(),
            at.valid(),
        ensures
            final(self).wf(),
            match r {
                Ok(v) => {
                    &&& !table::has_key(old(self).rows@, id@)
                    &&& final(self).rows@.len() == old(self).rows@.len() + 1
                    &&& final(self).rows@.drop_last() == old(self).rows@
                    &&& v.id@ == id@ && v.name@ == name@ && v.file_path@ == file_path@
                    &&& v.duration_nanos == duration_nanos && v.sample_rate == sample_rate
                    &&& v.created_at == at
                    &&& final(self).rows@.last().created_at@ == clock::rfc3339_text(
                        at.secs as int,
                        at.nanos as int,
                    )
                    &&& v == (VoiceTrack { created_at: at, ..voice_from(final(self).rows@.last()) })
                    &&& at.four_digit_year() ==> readable(final(self).rows@.last()) && v
                        == voice_from(final(self).rows@.last())
                },
                Err(CrabError::Database(m)) => table::has_key(old(self).rows@, id@)
                    && final(self).rows@ == old(self).rows@ && m@
                    == "UNIQUE constraint failed: voice_tracks.id"@,
                Err(_) => false,
            },
    {
        let v = VoiceTrack {
            id: id.clone(),
            name: String::from_str(name),
            file_path: String::from_str(file_path),
            duration_nanos,
            sample_rate,
            created_at: at,
        };
        let row = StoredVoice {
            id,
            name: v.name.clone(),
            file_path: v.file_path.clone(),
            duration_nanos,
            sample_rate,
            created_at: write_rfc3339(at),
        };
        match self.insert_row(row) {
            Ok(_) => {
                assert(self.rows@.drop_last() =~= old(self).rows@);
                Ok(v)
            },
            Err(e) => Err(e),
        }
    }

    /// Store a take under a fresh id, now; which those are, is up to chance
    /// and the clock. Only an id that a row has already is refused.
    pub fn create(
        &mut self,
        name: &str,
        file_path: &str,
        duration_nanos: u64,
        sample_rate: u32,
    ) -> (r: Result<VoiceTrack, CrabError>)
        requires
            old(self).wf(),
        ensures
            final(self).wf(),
            match r {
                Ok(v) => {
                    &&& !table::has_key(old(self).rows@, v.id@)
                    &&& final(self).rows@.len() == old(self).rows@.len() + 1
                    &&& final(self).rows@.drop_last() == old(self).rows@
                    &&& v.name@ == name@ && v.file_path@ == file_path@
                    &&& v.duration_nanos == duration_nanos && v.sample_rate == sample_rate
                    &&& v.created_at.valid()
                    &&& v == (VoiceTrack {
                        created_at: v.created_at,
                        ..voice_from(final(self).rows@.last())
                    })
                    &&& final(self).rows@.last().created_at@ == clock::rfc3339_text(
                        v.created_at.secs as int,
                        v.created_at.nanos as int,
                    )
                },
                Err(CrabError::Database(m)) => old(self).rows@.len() > 0 && final(self).rows@
                    == old(self).rows@ && m@ == "UNIQUE constraint failed: voice_tracks.id"@,
                Err(_) => false,
            },
    {
        let id = fresh_id();
        let at = now();
        self.create_with(id, at, name, file_path, duration_nanos, sample_rate)
    }

    /// The takes, newest first. A row with a broken moment is reported.
    pub fn list_all(&self) -> (r: Result<Vec<VoiceTrack>, CrabError>)
        ensures
            ({
                let rows = listed(self.rows@);
                match r {
                    Ok(v) => v@.len() == rows.len() && (forall|i: int|
                        0 <= i < rows.len() ==> readable(#[trigger] rows[i])) && (forall|i: int|
                        0 <= i < v@.len() ==> #[trigger] v@[i] == voice_from(rows[i])),
                    Err(e) => exists|i: int|
                        0 <= i < rows.len() && !readable(#[trigger] rows[i]) && broken(rows[i], e)
                            && (forall|j: int| 0 <= j < i ==> readable(#[trigger] rows[j])),
                }
            }),
    {
        let mut turned: Vec<StoredVoice> = Vec::new();
        let mut k: usize = self.rows.len();
        while k > 0
            invariant
                k <= self.rows@.len(),
                turned@ == self.rows@.skip(k as int).reverse(),
            decreases k,
        {
            k = k - 1;
            turned.push(self.rows[k].clone());
            assert(turned@ =~= self.rows@.skip(k as int).reverse());
        }
        assert(self.rows@.skip(0) =~= self.rows@);
        let rows = rank(ByCreation, turned);
        let mut out: Vec<VoiceTrack> = Vec::new();
        let mut i: usize = 0;
        while i < rows.len()
            invariant
                i <= rows@.len(),
                rows@ == listed(self.rows@),
                out@.len() == i,
                forall|j: int| 0 <= j < i ==> readable(#[trigger] rows@[j]),
                forall|j: int| 0 <= j < i ==> #[trigger] out@[j] == voice_from(rows@[j]),
            decreases rows@.len() - i,
        {
            match read_row(&rows[i]) {
                Ok(v) => {
                    out.push(v);
                },
                Err(e) => {
                    return Err(e);
                },
            }
            i = i + 1;
        }
        Ok(out)
    }

    /// The take with an audio path, where there is one.
    pub fn find_by_path(&self, file_path: &str) -> (r: Result<Option<VoiceTrack>, CrabError>)
        ensures
            match r {
                Ok(Some(v)) => exists|i: int| #[trigger]
                    first_at_path(self.rows@, file_path@, i) && readable(self.rows@[i]) && v
                        == voice_from(self.rows@[i]),
                Ok(None) => forall|i: int|
                    0 <= i < self.rows@.len() ==> (#[trigger] self.rows@[i]).file_path@ != file_path@,
                Err(e) => exists|i: int| #[trigger]
                    first_at_path(self.rows@, file_path@, i) && !readable(self.rows@[i]) && broken(
                        self.rows@[i],
                        e,
                    ),
            },
    {
        let mut i: usize = 0;
        while i < self.rows.len()
            invariant
                i <= self.rows@.len(),
                forall|j: int| 0 <= j < i ==> (#[trigger] self.rows@[j]).file_path@ != file_path@,
            decreases self.rows@.len() - i,
        {
            if same_text(self.rows[i].file_path.as_str(), file_path) {
                assert(first_at_path(self.rows@, file_path@, i as int));
                return match read_row(&self.rows[i]) {
                    Ok(v) => Ok(Some(v)),
                    Err(e) => Err(e),
                };
            }
            i = i + 1;
        }
        Ok(None)
    }

    /// Forget a take and say which file goes with it, where there was one.
    pub fn delete(&mut self, id: &str) -> (r: Option<String>)
        requires
            old(self).wf(),
        ensures
            final(self).wf(),
            final(self).rows@ == table::without_key(old(self).rows@, id@),
            match r {
                Some(p) => exists|i: int|
                    0 <= i < old(self).rows@.len() && (#[trigger] old(self).rows@[i]).id@ == id@ && p@
                        == old(self).rows@[i].file_path@,
                None => !table::has_key(old(self).rows@, id@),
            },
    {
        let path = match find_key(&self.rows, id) {
            Some(i) => Some(self.rows[i].file_path.clone()),
            None => None,
        };
        proof {
            table::removal_leaves_the_rest(self.rows@, id@);
        }
        remove_key(&mut self.rows, id);
        path
    }
}

/// Recordings are listed once each, the latest in front.
pub proof fn recordings_come_latest_first(rows: Seq<StoredVoice>, v: StoredVoice, i: int, j: int)
    ensures
        listed(rows).contains(v) <==> rows.contains(v),
        listed(rows).len() == rows.len(),
        0 <= i < j < listed(rows).len() ==> !text::text_lt(
            listed(rows)[i].created_at@,
            listed(rows)[j].created_at@,
        ),
{
    let back = rows.reverse();
    rank::ranking_keeps_members(ByCreation, back, v);
    rank::ranking_orders(ByCreation, back);
    if rows.contains(v) {
        let k = choose|k: int| 0 <= k < rows.len() && rows[k] == v;
        assert(back[rows.len() - 1 - k] == v);
    }
    if back.contains(v) {
        let k = choose|k: int| 0 <= k < back.len() && back[k] == v;
        assert(rows[rows.len() - 1 - k] == v);
    }
    if 0 <= i < j < listed(rows).len() {
        assert(!ByCreation.before(listed(rows)[j], listed(rows)[i]));
    }
}

} // verus!
