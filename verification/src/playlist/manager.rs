//! Stored playlists and the order of their entries.

use vstd::prelude::*;
use vstd::string::*;

use crate::clock::{fresh_id, now, read_rfc3339, write_rfc3339, Stamp};
use crate::error::CrabError;
use crate::library::catalog::Library;
use crate::library::track::TrackId;
use crate::rank::{rank, Order};
use crate::table::{find_key, remove_key, Keyed};
use crate::text::{copy_opt, same_text, text_before, trim};
use crate::clock;
use crate::rank;
use crate::table;
use crate::text;

verus! {

/// An entry of a playlist: a track in its place.
#[derive(Debug)]
pub struct PlaylistItem {
    pub track_id: TrackId,
    pub position: i32,
    pub is_jingle: bool,
    pub is_ad: bool,
}

/// A named playlist.
#[derive(Debug, Clone)]
pub struct Playlist {
    pub id: String,
    pub name: String,
    pub description: Option<String>,
    pub created_at: Stamp,
    pub updated_at: Stamp,
    pub items: Vec<PlaylistItem>,
}

/// What is stored of a playlist beside its entries; moments are text.
#[derive(Debug)]
pub struct PlaylistHead {
    pub id: String,
    pub name: String,
    pub description: Option<String>,
    pub created_at: String,
    pub updated_at: String,
}

/// A stored playlist with its entries in the order of their positions.
#[derive(Debug)]
pub struct StoredPlaylist {
    pub head: PlaylistHead,
    pub items: Vec<PlaylistItem>,
}

impl Clone for PlaylistItem {
    fn clone(&self) -> (r: Self)
        ensures
            r == *self,
    {
        PlaylistItem {
            track_id: self.track_id.clone(),
            position: self.position,
            is_jingle: self.is_jingle,
            is_ad: self.is_ad,
        }
    }
}

impl Clone for PlaylistHead {
    fn clone(&self) -> (r: Self)
        ensures
            r == *self,
    {
        PlaylistHead {
            id: self.id.clone(),
            name: self.name.clone(),
            description: copy_opt(&self.description),
            created_at: self.created_at.clone(),
            updated_at: self.updated_at.clone(),
        }
    }
}

/// Listed by name.
pub struct ByName;

impl Order<PlaylistHead> for ByName {
    open spec fn before(self, a: PlaylistHead, b: PlaylistHead) -> bool {
        text::text_lt(a.name@, b.name@)
    }

    proof fn is_weak_order(self, a: PlaylistHead, b: PlaylistHead, c: PlaylistHead) {
        text::text_order_is_total(a.name@, b.name@);
        text::text_order_is_total(b.name@, c.name@);
        text::text_order_is_total(a.name@, c.name@);
        if text::text_lt(a.name@, b.name@) && text::text_lt(b.name@, c.name@) {
            text::text_order_is_transitive(a.name@, b.name@, c.name@);
        }
    }

    fn is_ahead(&self, a: &PlaylistHead, b: &PlaylistHead) -> (r: bool) {
        text_before(a.name.as_str(), b.name.as_str())
    }
}

impl Keyed for String {
    open spec fn key(self) -> Seq<char> {
        self@
    }

    fn key_is(&self, id: &str) -> (r: bool) {
        same_text(self.as_str(), id)
    }

    fn duplicate(&self) -> (r: Self) {
        self.clone()
    }
}

/// Positions strictly increase and there are no more entries than positions
/// can number.
pub open spec fn ordered_items(items: Seq<PlaylistItem>) -> bool {
    &&& items.len() <= i32::MAX
    &&& forall|i: int, j: int|
        0 <= i < j < items.len() ==> (#[trigger] items[i]).position < (#[trigger] items[j]).position
}

/// Some entry stands at a position.
pub open spec fn position_taken(items: Seq<PlaylistItem>, position: i32) -> bool {
    exists|i: int| 0 <= i < items.len() && (#[trigger] items[i]).position == position
}

/// The index of the first entry that does not stand in front of a position.
pub open spec fn place(items: Seq<PlaylistItem>, position: i32) -> int
    decreases items.len(),
{
    if items.len() > 0 && items.last().position >= position {
        place(items.drop_last(), position)
    } else {
        items.len() as int
    }
}

/// One playlist took in an entry at its position, and nothing else differs.
pub open spec fn takes_in(
    before: Seq<StoredPlaylist>,
    after: Seq<StoredPlaylist>,
    k: int,
    item: PlaylistItem,
) -> bool {
    &&& after.len() == before.len()
    &&& forall|j: int| 0 <= j < before.len() && j != k ==> #[trigger] after[j] == before[j]
    &&& after[k].head == before[k].head
    &&& after[k].items@ == before[k].items@.insert(place(before[k].items@, item.position), item)
}

proof fn lemma_place(items: Seq<PlaylistItem>, position: i32, at: int)
    requires
        0 <= at <= items.len(),
        forall|j: int| 0 <= j < at ==> (#[trigger] items[j]).position < position,
        forall|j: int| at <= j < items.len() ==> (#[trigger] items[j]).position > position,
    ensures
        place(items, position) == at,
    decreases items.len(),
{
    if items.len() > at {
        assert(items[items.len() - 1].position > position);
        lemma_place(items.drop_last(), position, at);
    } else if items.len() > 0 {
        assert(items[items.len() - 1].position < position);
    }
}

/// Every entry stands at the position of its index.
pub open spec fn dense(items: Seq<PlaylistItem>) -> bool {
    forall|i: int| 0 <= i < items.len() ==> (#[trigger] items[i]).position == i
}

/// The same entries, each at the position of its index.
pub open spec fn renumbered(items: Seq<PlaylistItem>) -> Seq<PlaylistItem> {
    Seq::new(items.len(), |i: int| PlaylistItem { position: i as i32, ..items[i] })
}

/// An entry taken out at one index and put in at another.
pub open spec fn moved<T>(items: Seq<T>, from: int, to: int) -> Seq<T> {
    items.remove(from).insert(to, items[from])
}

/// The position behind the last entry.
pub open spec fn end_position(items: Seq<PlaylistItem>) -> int {
    if items.len() == 0 {
        0
    } else {
        items.last().position + 1
    }
}

/// Some entry stands at this position.
pub open spec fn has_position(items: Seq<PlaylistItem>, position: i32) -> bool {
    exists|i: int| 0 <= i < items.len() && (#[trigger] items[i]).position == position
}

/// The entries of other tracks, in their order.
pub open spec fn without_track(items: Seq<PlaylistItem>, track_id: Seq<char>) -> Seq<PlaylistItem> {
    items.filter(|it: PlaylistItem| it.track_id@ != track_id)
}

/// Moving an entry and moving it back gives the list as it was.
pub proof fn moving_back_restores<T>(items: Seq<T>, from: int, to: int)
    requires
        0 <= from < items.len(),
        0 <= to < items.len(),
    ensures
        moved(moved(items, from, to), to, from) == items,
{
    let there = moved(items, from, to);
    assert(there[to] == items[from]);
    assert(there.remove(to) =~= items.remove(from));
    assert(moved(there, to, from) =~= items);
}

/// Moving an entry keeps every entry, and puts the moved one at its goal.
pub proof fn moving_keeps_the_entries<T>(items: Seq<T>, from: int, to: int)
    requires
        0 <= from < items.len(),
        0 <= to < items.len(),
    ensures
        moved(items, from, to).len() == items.len(),
        moved(items, from, to)[to] == items[from],
        moved(items, from, to).to_multiset() == items.to_multiset(),
{
    broadcast use vstd::seq_lib::group_to_multiset_ensures;

    let rest = items.remove(from);
    assert(rest.insert(to, items[from]).to_multiset() =~= rest.to_multiset().insert(items[from]));
    assert(rest.to_multiset() =~= items.to_multiset().remove(items[from]));
    assert(items.to_multiset().contains(items[from])) by {
        assert(items.contains(items[from]));
    }
    assert(items.to_multiset().remove(items[from]).insert(items[from]) =~= items.to_multiset());
}

/// Renumbering makes positions dense and touches nothing else; a dense list
/// stays as it is.
pub proof fn renumbering_is_dense(items: Seq<PlaylistItem>)
    requires
        items.len() <= i32::MAX,
    ensures
        dense(renumbered(items)),
        ordered_items(renumbered(items)),
        dense(items) ==> renumbered(items) == items,
        forall|i: int|
            0 <= i < items.len() ==> (#[trigger] renumbered(items)[i]).track_id == items[i].track_id
                && renumbered(items)[i].is_jingle == items[i].is_jingle && renumbered(items)[i].is_ad
                == items[i].is_ad,
{
    if dense(items) {
        assert forall|i: int| 0 <= i < items.len() implies renumbered(items)[i] == items[i] by {
            assert(items[i].position == i);
        }
        assert(renumbered(items) =~= items);
    }
}

/// A dense list is numbered without a gap, so the entry appended next gets
/// the next number and the list stays dense.
pub proof fn appending_stays_dense(items: Seq<PlaylistItem>, added: PlaylistItem)
    requires
        dense(items),
        added.position == end_position(items),
    ensures
        dense(items.push(added)),
{
    if items.len() > 0 {
        assert(items[items.len() - 1].position == items.len() - 1);
    }
}

proof fn lemma_without_track(items: Seq<PlaylistItem>, track_id: Seq<char>)
    ensures
        without_track(items, track_id).len() <= items.len(),
        ordered_items(items) ==> ordered_items(without_track(items, track_id)),
        forall|k: int|
            0 <= k < without_track(items, track_id).len() ==> items.contains(
                #[trigger] without_track(items, track_id)[k],
            ) && without_track(items, track_id)[k].track_id@ != track_id,
    decreases items.len(),
{
    reveal(Seq::filter);
    let left = without_track(items, track_id);
    if items.len() > 0 {
        let front = items.drop_last();
        lemma_without_track(front, track_id);
        let before = without_track(front, track_id);
        assert forall|k: int| 0 <= k < left.len() implies items.contains(#[trigger] left[k])
            && left[k].track_id@ != track_id by {
            if k < before.len() {
                assert(left[k] == before[k]);
                assert(front.contains(before[k]));
                let n = choose|n: int| 0 <= n < front.len() && front[n] == before[k];
                assert(items[n] == left[k]);
            } else {
                assert(items[items.len() - 1] == left[k]);
            }
        }
        if ordered_items(items) {
            assert(ordered_items(front)) by {
                assert forall|i: int, j: int| 0 <= i < j < front.len() implies (
                #[trigger] front[i]).position < (#[trigger] front[j]).position by {
                    assert(items[i].position < items[j].position);
                }
            }
            assert forall|i: int, j: int| 0 <= i < j < left.len() implies (
            #[trigger] left[i]).position < (#[trigger] left[j]).position by {
                assert(left[i] == before[i]);
                if j < before.len() {
                    assert(left[j] == before[j]);
                } else {
                    let n = choose|n: int| 0 <= n < front.len() && front[n] == before[i];
                    assert(items[n].position < items[items.len() - 1].position);
                }
            }
        }
    }
}

/// The moments of a head read as such.
pub open spec fn head_readable(h: PlaylistHead) -> bool {
    clock::rfc3339_moment(h.created_at@) is Some && clock::rfc3339_moment(h.updated_at@) is Some
}

/// A playlist shows what a head stores.
pub open spec fn shows_head(h: PlaylistHead, p: Playlist) -> bool {
    &&& p.id == h.id
    &&& p.name == h.name
    &&& p.description == h.description
    &&& Some(p.created_at) == clock::rfc3339_moment(h.created_at@)
    &&& Some(p.updated_at) == clock::rfc3339_moment(h.updated_at@)
}

/// The error for a head that does not read: its first bad moment.
pub open spec fn head_error(h: PlaylistHead, e: CrabError) -> bool {
    &&& !head_readable(h)
    &&& e matches CrabError::Integrity { table, id, field, value } && table@ == "playlists"@ && id@
        == h.id@ && (if clock::rfc3339_moment(h.created_at@) is None {
        field@ == "created_at"@ && value@ == h.created_at@
    } else {
        field@ == "updated_at"@ && value@ == h.updated_at@
    })
}

/// Listing fails at a head that does not read, all heads ahead of it do.
pub open spec fn heads_fail_at(heads: Seq<PlaylistHead>, e: CrabError, i: int) -> bool {
    &&& 0 <= i < heads.len()
    &&& head_error(heads[i], e)
    &&& forall|j: int| 0 <= j < i ==> head_readable(#[trigger] heads[j])
}

/// The heads of stored playlists.
pub open spec fn heads(lists: Seq<StoredPlaylist>) -> Seq<PlaylistHead> {
    lists.map_values(|p: StoredPlaylist| p.head)
}

/// Some stored playlist has this id.
pub open spec fn has_list(lists: Seq<StoredPlaylist>, id: Seq<char>) -> bool {
    exists|i: int| 0 <= i < lists.len() && (#[trigger] lists[i]).head.id@ == id
}

/// One playlist was touched: it holds these entries and a new moment of its
/// last change, and nothing else differs.
pub open spec fn touched(
    before: Seq<StoredPlaylist>,
    after: Seq<StoredPlaylist>,
    k: int,
    items: Seq<PlaylistItem>,
) -> bool {
    &&& 0 <= k < before.len()
    &&& after.len() == before.len()
    &&& forall|j: int| 0 <= j < before.len() && j != k ==> #[trigger] after[j] == before[j]
    &&& after[k].items@ == items
    &&& after[k].head == (PlaylistHead { updated_at: after[k].head.updated_at, ..before[k].head })
    &&& clock::writes_a_moment(after[k].head.updated_at@)
}

/// Read a stored moment, or fail with the context of its row.
fn parse_stamp(id: &str, field: &'static str, raw: &String) -> (r: Result<Stamp, CrabError>)
    ensures
        match r {
            Ok(t) => clock::rfc3339_moment(raw@) == Some(t),
            Err(e) => clock::rfc3339_moment(raw@) is None && e == (CrabError::Integrity {
                table: e->table,
                id: e->Integrity_id,
                field,
                value: *raw,
            }) && e->table@ == "playlists"@ && e->Integrity_id@ == id@,
        },
{
    match read_rfc3339(raw.as_str()) {
        Some(t) => Ok(t),
        None => Err(
            CrabError::Integrity {
                table: "playlists",
                id: id.to_owned(),
                field,
                value: raw.clone(),
            },
        ),
    }
}

/// The playlist that a head stands for, still without entries.
fn read_head(h: &PlaylistHead) -> (r: Result<Playlist, CrabError>)
    ensures
        match r {
            Ok(p) => head_readable(*h) && shows_head(*h, p) && p.items@.len() == 0,
            Err(e) => head_error(*h, e),
        },
{
    let created_at = match parse_stamp(h.id.as_str(), "created_at", &h.created_at) {
        Ok(t) => t,
        Err(e) => {
            return Err(e);
        },
    };
    let updated_at = match parse_stamp(h.id.as_str(), "updated_at", &h.updated_at) {
        Ok(t) => t,
        Err(e) => {
            return Err(e);
        },
    };
    let h2 = h.clone();
    Ok(
        Playlist {
            id: h2.id,
            name: h2.name,
            description: h2.description,
            created_at,
            updated_at,
            items: Vec::new(),
        },
    )
}

/// The entries once more.
fn copy_items(items: &Vec<PlaylistItem>) -> (r: Vec<PlaylistItem>)
    ensures
        r@ == items@,
{
    let mut out: Vec<PlaylistItem> = Vec::new();
    let mut i: usize = 0;
    while i < items.len()
        invariant
            i <= items.len(),
            out@ == items@.subrange(0, i as int),
        decreases items.len() - i,
    {
        out.push(items[i].clone());
        i = i + 1;
        assert(out@ =~= items@.subrange(0, i as int));
    }
    assert(out@ =~= items@);
    out
}

/// The entries, each at the position of its index.
fn renumber(items: Vec<PlaylistItem>) -> (r: Vec<PlaylistItem>)
    requires
        items@.len() <= i32::MAX,
    ensures
        r@ == renumbered(items@),
{
    let mut out: Vec<PlaylistItem> = Vec::new();
    let mut i: usize = 0;
    while i < items.len()
        invariant
            i <= items.len(),
            items@.len() <= i32::MAX,
            out@ == renumbered(items@).subrange(0, i as int),
        decreases items.len() - i,
    {
        let mut it = items[i].clone();
        it.position = i as i32;
        out.push(it);
        i = i + 1;
        assert(out@ =~= renumbered(items@).subrange(0, i as int));
    }
    assert(out@ =~= renumbered(items@));
    out
}

/// The stored playlists, and the tracks that their entries may refer to.
#[derive(Debug)]
pub struct PlaylistManager {
    pub lists: Vec<StoredPlaylist>,
    pub tracks: Vec<TrackId>,
}

impl PlaylistManager {
    /// Ids are unique, positions of each list strictly increase, and every
    /// entry refers to a track that is there.
    pub open spec fn wf(self) -> bool {
        &&& forall|i: int, j: int|
            0 <= i < j < self.lists@.len() ==> (#[trigger] self.lists@[i]).head.id@ != (
            #[trigger] self.lists@[j]).head.id@
        &&& forall|i: int|
            0 <= i < self.lists@.len() ==> ordered_items((#[trigger] self.lists@[i]).items@)
        &&& forall|i: int, k: int|
            0 <= i < self.lists@.len() && 0 <= k < self.lists@[i].items@.len() ==> table::has_key(
                self.tracks@,
                (#[trigger] self.lists@[i].items@[k]).track_id@,
            )
    }

    /// An empty store.
    pub fn new() -> (m: Self)
        ensures
            m.wf(),
            m.lists@ == Seq::<StoredPlaylist>::empty(),
            m.tracks@ == Seq::<TrackId>::empty(),
    {
        PlaylistManager { lists: Vec::new(), tracks: Vec::new() }
    }

    /// The index of a playlist.
    fn find(&self, id: &str) -> (r: Option<usize>)
        ensures
            match r {
                Some(i) => i < self.lists@.len() && self.lists@[i as int].head.id@ == id@,
                None => !has_list(self.lists@, id@),
            },
    {
        let mut i: usize = 0;
        while i < self.lists.len()
            invariant
                i <= self.lists.len(),
                forall|j: int| 0 <= j < i ==> (#[trigger] self.lists@[j]).head.id@ != id@,
            decreases self.lists.len() - i,
        {
            if same_text(self.lists[i].head.id.as_str(), id) {
                return Some(i);
            }
            i = i + 1;
        }
        None
    }

    /// A track is there from now on.
    pub fn note_track(&mut self, track_id: &str)
        requires
            old(self).wf(),
        ensures
            final(self).wf(),
            final(self).lists == old(self).lists,
            final(self).tracks@.len() == old(self).tracks@.len() + 1,
            final(self).tracks@.drop_last() == old(self).tracks@,
            final(self).tracks@.last()@ == track_id@,
    {
        self.tracks.push(track_id.to_owned());
        assert(self.tracks@.drop_last() =~= old(self).tracks@);
        assert forall|i: int, k: int|
            0 <= i < self.lists@.len() && 0 <= k < self.lists@[i].items@.len() implies table::has_key(
            self.tracks@,
            (#[trigger] self.lists@[i].items@[k]).track_id@,
        ) by {
            let n = choose|n: int|
                0 <= n < old(self).tracks@.len() && old(self).tracks@[n].key()
                    == self.lists@[i].items@[k].track_id@;
            assert(self.tracks@[n].key() == self.lists@[i].items@[k].track_id@);
        }
    }

    /// A track is gone: every entry of it goes with it, the playlists stay.
    pub fn forget_track(&mut self, track_id: &str)
        requires
            old(self).wf(),
        ensures
            final(self).wf(),
            final(self).tracks@ == table::without_key(old(self).tracks@, track_id@),
            final(self).lists@.len() == old(self).lists@.len(),
            forall|i: int|
                0 <= i < old(self).lists@.len() ==> (#[trigger] final(self).lists@[i]).head == old(self).lists@[i].head
                    && final(self).lists@[i].items@ == without_track(
                    old(self).lists@[i].items@,
                    track_id@,
                ),
    {
        let ghost before = self.lists@;
        let ghost known = self.tracks@;
        let mut i: usize = 0;
        while i < self.lists.len()
            invariant
                i <= self.lists.len(),
                self.lists@.len() == before.len(),
                self.tracks@ == known,
                forall|j: int| i <= j < before.len() ==> #[trigger] self.lists@[j] == before[j],
                forall|j: int|
                    0 <= j < i ==> (#[trigger] self.lists@[j]).head == before[j].head
                        && self.lists@[j].items@ == without_track(before[j].items@, track_id@),
            decreases self.lists.len() - i,
        {
            let kept = Self::keep_others(&self.lists[i].items, track_id);
            let head = self.lists[i].head.clone();
            self.lists.set(i, StoredPlaylist { head, items: kept });
            i = i + 1;
        }
        remove_key(&mut self.tracks, track_id);
        proof {
            table::removal_leaves_the_rest(known, track_id@);
            assert forall|i: int| 0 <= i < self.lists@.len() implies ordered_items(
                (#[trigger] self.lists@[i]).items@,
            ) by {
                lemma_without_track(before[i].items@, track_id@);
                assert(ordered_items(before[i].items@));
            }
            assert forall|i: int, k: int|
                0 <= i < self.lists@.len() && 0 <= k < self.lists@[i].items@.len() implies table::has_key(
                self.tracks@,
                (#[trigger] self.lists@[i].items@[k]).track_id@,
            ) by {
                lemma_without_track(before[i].items@, track_id@);
                let it = self.lists@[i].items@[k];
                assert(before[i].items@.contains(it));
                let n = choose|n: int| 0 <= n < before[i].items@.len() && before[i].items@[n] == it;
                assert(table::has_key(known, before[i].items@[n].track_id@));
                let t = choose|t: int| 0 <= t < known.len() && known[t].key() == it.track_id@;
                assert(known.contains(known[t]));
                assert(table::without_key(known, track_id@).contains(known[t]));
                let u = choose|u: int|
                    0 <= u < table::without_key(known, track_id@).len() && table::without_key(
                        known,
                        track_id@,
                    )[u] == known[t];
                assert(self.tracks@[u].key() == it.track_id@);
            }
            assert forall|i: int, j: int| 0 <= i < j < self.lists@.len() implies (
            #[trigger] self.lists@[i]).head.id@ != (#[trigger] self.lists@[j]).head.id@ by {
                assert(before[i].head.id@ != before[j].head.id@);
            }
        }
    }

    /// The entries of other tracks.
    fn keep_others(items: &Vec<PlaylistItem>, track_id: &str) -> (r: Vec<PlaylistItem>)
        ensures
            r@ == without_track(items@, track_id@),
    {
        let ghost keep = |it: PlaylistItem| it.track_id@ != track_id@;
        let mut kept: Vec<PlaylistItem> = Vec::new();
        let mut i: usize = 0;
        proof {
            reveal(Seq::filter);
            assert(items@.subrange(0, 0).filter(keep) =~= kept@);
        }
        while i < items.len()
            invariant
                i <= items.len(),
                keep == (|it: PlaylistItem| it.track_id@ != track_id@),
                kept@ == items@.subrange(0, i as int).filter(keep),
            decreases items.len() - i,
        {
            proof {
                reveal(Seq::filter);
                assert(items@.subrange(0, i + 1).drop_last() =~= items@.subrange(0, i as int));
            }
            if !same_text(items[i].track_id.as_str(), track_id) {
                kept.push(items[i].clone());
            }
            i = i + 1;
        }
        assert(items@.subrange(0, i as int) =~= items@);
        kept
    }

    /// Store an empty playlist as it stands; ids are unique.
    pub fn insert_row(&mut self, head: PlaylistHead) -> (r: Result<(), CrabError>)
        requires
            old(self).wf(),
        ensures
            final(self).wf(),
            final(self).tracks == old(self).tracks,
            match r {
                Ok(_) => {
                    &&& !has_list(old(self).lists@, head.id@)
                    &&& final(self).lists@.len() == old(self).lists@.len() + 1
                    &&& final(self).lists@.drop_last() == old(self).lists@
                    &&& final(self).lists@.last().head == head
                    &&& final(self).lists@.last().items@.len() == 0
                },
                Err(CrabError::Database(m)) => has_list(old(self).lists@, head.id@)
                    && final(self).lists@ == old(self).lists@
                    && m@ == "UNIQUE constraint failed: playlists.id"@,
                Err(_) => false,
            },
    {
        if self.find(head.id.as_str()).is_some() {
            return Err(
                CrabError::Database(String::from_str("UNIQUE constraint failed: playlists.id")),
            );
        }
        self.lists.push(StoredPlaylist { head, items: Vec::new() });
        assert(self.lists@.drop_last() =~= old(self).lists@);
        Ok(())
    }

    /// Store an entry of a playlist as it stands, at its position. An unknown
    /// track or playlist is refused, and so is a position that is taken.
    pub fn insert_item(&mut self, playlist_id: &str, item: PlaylistItem) -> (r: Result<(), CrabError>)
        requires
            old(self).wf(),
            forall|i: int|
                0 <= i < old(self).lists@.len() ==> (#[trigger] old(self).lists@[i]).items@.len()
                    < i32::MAX,
        ensures
            final(self).wf(),
            final(self).tracks == old(self).tracks,
            final(self).lists@.len() == old(self).lists@.len(),
            match r {
                Ok(_) => table::has_key(old(self).tracks@, item.track_id@) && exists|k: int|
                    0 <= k < old(self).lists@.len() && (#[trigger] old(self).lists@[k]).head.id@
                        == playlist_id@ && !position_taken(old(self).lists@[k].items@, item.position)
                        && takes_in(old(self).lists@, final(self).lists@, k, item),
                Err(CrabError::Database(m)) => final(self).lists@ == old(self).lists@ && (if !table::has_key(
                    old(self).tracks@,
                    item.track_id@,
                ) || !has_list(old(self).lists@, playlist_id@) {
                    m@ == "FOREIGN KEY constraint failed"@
                } else {
                    m@
                        == "UNIQUE constraint failed: playlist_items.playlist_id, playlist_items.position"@
                        && exists|k: int|
                        0 <= k < old(self).lists@.len() && (#[trigger] old(self).lists@[k]).head.id@
                            == playlist_id@ && position_taken(
                            old(self).lists@[k].items@,
                            item.position,
                        )
                }),
                Err(_) => false,
            },
    {
        let k: usize = match self.find(playlist_id) {
            Some(k) => k,
            None => {
                return Err(CrabError::Database(String::from_str("FOREIGN KEY constraint failed")));
            },
        };
        if find_key(&self.tracks, item.track_id.as_str()).is_none() {
            return Err(CrabError::Database(String::from_str("FOREIGN KEY constraint failed")));
        }
        let ghost before = self.lists@;
        let ghost was = before[k as int].items@;
        assert(before[k as int].head.id@ == playlist_id@);
        assert(ordered_items(was));
        let mut items = copy_items(&self.lists[k].items);
        let mut at: usize = 0;
        while at < items.len() && items[at].position < item.position
            invariant
                at <= items@.len(),
                items@ == was,
                forall|j: int| 0 <= j < at ==> (#[trigger] was[j]).position < item.position,
            decreases items.len() - at,
        {
            at = at + 1;
        }
        if at < items.len() && items[at].position == item.position {
            assert(position_taken(was, item.position));
            return Err(
                CrabError::Database(
                    String::from_str(
                        "UNIQUE constraint failed: playlist_items.playlist_id, playlist_items.position",
                    ),
                ),
            );
        }
        let ghost kept = item;
        items.insert(at, item);
        let head = self.lists[k].head.clone();
        let ghost all = items@;
        self.lists.set(k, StoredPlaylist { head, items });
        proof {
            assert forall|j: int| at <= j < was.len() implies (#[trigger] was[j]).position
                > kept.position by {
                if j > at {
                    assert(was[at as int].position < was[j].position);
                }
            }
            lemma_place(was, kept.position, at as int);
            assert(!position_taken(was, kept.position));
            assert(ordered_items(all)) by {
                assert forall|i: int, j: int| 0 <= i < j < all.len() implies (
                #[trigger] all[i]).position < (#[trigger] all[j]).position by {
                    let x = if i < at {
                        i
                    } else {
                        i - 1
                    };
                    let y = if j < at {
                        j
                    } else {
                        j - 1
                    };
                    if i != at {
                        assert(all[i] == was[x]);
                    }
                    if j != at {
                        assert(all[j] == was[y]);
                    }
                }
            }
            assert forall|i: int| 0 <= i < self.lists@.len() implies ordered_items(
                (#[trigger] self.lists@[i]).items@,
            ) by {
                if i != k {
                    assert(ordered_items(before[i].items@));
                }
            }
            assert forall|i: int, n: int|
                0 <= i < self.lists@.len() && 0 <= n < self.lists@[i].items@.len() implies table::has_key(
                self.tracks@,
                (#[trigger] self.lists@[i].items@[n]).track_id@,
            ) by {
                if i != k {
                    assert(self.lists@[i] == before[i]);
                    assert(table::has_key(self.tracks@, before[i].items@[n].track_id@));
                } else if n != at {
                    let x = if n < at {
                        n
                    } else {
                        n - 1
                    };
                    assert(all[n] == was[x]);
                    assert(table::has_key(self.tracks@, before[i].items@[x].track_id@));
                }
            }
        }
        Ok(())
    }

    /// Create an empty playlist with a given id at a given moment.
    pub fn create_with(
        &mut self,
        id: String,
        at: Stamp,
        name: &str,
        description: Option<&str>,
    ) -> (r: Result<Playlist, CrabError>)
        requires
            old(self).wf(),
            at.valid(),
        ensures
            final(self).wf(),
            final(self).tracks == old(self).tracks,
            match r {
                Ok(p) => {
                    &&& !has_list(old(self).lists@, id@)
                    &&& final(self).lists@.len() == old(self).lists@.len() + 1
                    &&& final(self).lists@.drop_last() == old(self).lists@
                    &&& final(self).lists@.last().items@.len() == 0
                    &&& final(self).lists@.last().head.id@ == id@
                    &&& final(self).lists@.last().head.name@ == name@
                    &&& text::opt_text(final(self).lists@.last().head.description) == text::opt_str(description)
                    &&& final(self).lists@.last().head.created_at@ == clock::rfc3339_text(
                        at.secs as int,
                        at.nanos as int,
                    )
                    &&& final(self).lists@.last().head.updated_at@ == clock::rfc3339_text(
                        at.secs as int,
                        at.nanos as int,
                    )
                    &&& p.id@ == id@
                    &&& p.name@ == name@
                    &&& text::opt_text(p.description) == text::opt_str(description)
                    &&& p.created_at == at
                    &&& p.updated_at == at
                    &&& p.items@.len() == 0
                    &&& at.four_digit_year() ==> head_readable(final(self).lists@.last().head)
                        && shows_head(final(self).lists@.last().head, p)
                },
                Err(CrabError::Database(m)) => has_list(old(self).lists@, id@) && final(self).lists@
                    == old(self).lists@ && m@ == "UNIQUE constraint failed: playlists.id"@,
                Err(_) => false,
            },
    {
        let head = PlaylistHead {
            id,
            name: name.to_owned(),
            description: match description {
                Some(d) => Some(d.to_owned()),
                None => None,
            },
            created_at: write_rfc3339(at),
            updated_at: write_rfc3339(at),
        };
        let h = head.clone();
        match self.insert_row(head) {
            Ok(_) => {},
            Err(e) => {
                return Err(e);
            },
        }
        Ok(
            Playlist {
                id: h.id,
                name: h.name,
                description: h.description,
                created_at: at,
                updated_at: at,
                items: Vec::new(),
            },
        )
    }

    /// Create an empty playlist now, under a fresh id.
    pub fn create(&mut self, name: &str, description: Option<&str>) -> (r: Result<
        Playlist,
        CrabError,
    >)
        requires
            old(self).wf(),
        ensures
            final(self).wf(),
            final(self).tracks == old(self).tracks,
            match r {
                Ok(p) => {
                    &&& !has_list(old(self).lists@, p.id@)
                    &&& final(self).lists@.len() == old(self).lists@.len() + 1
                    &&& final(self).lists@.drop_last() == old(self).lists@
                    &&& final(self).lists@.last().items@.len() == 0
                    &&& final(self).lists@.last().head.id@ == p.id@
                    &&& final(self).lists@.last().head.name@ == name@
                    &&& text::opt_text(final(self).lists@.last().head.description) == text::opt_str(description)
                    &&& p.created_at.valid()
                    &&& final(self).lists@.last().head.created_at@ == clock::rfc3339_text(
                        p.created_at.secs as int,
                        p.created_at.nanos as int,
                    )
                    &&& final(self).lists@.last().head.updated_at@ == final(self).lists@.last().head.created_at@
                    &&& p.name@ == name@
                    &&& text::opt_text(p.description) == text::opt_str(description)
                    &&& p.updated_at == p.created_at
                    &&& p.created_at.four_digit_year() ==> head_readable(
                        final(self).lists@.last().head,
                    ) && shows_head(final(self).lists@.last().head, p)
                    &&& p.items@.len() == 0
                },
                Err(CrabError::Database(_)) => old(self).lists@.len() > 0 && final(self).lists@
                    == old(self).lists@,
                Err(_) => false,
            },
    {
        self.create_with(fresh_id(), now(), name, description)
    }

    /// All playlists by name, without their entries.
    pub fn list_all(&self) -> (r: Result<Vec<Playlist>, CrabError>)
        ensures
            match r {
                Ok(v) => v@.len() == self.lists@.len() && forall|i: int|
                    0 <= i < v@.len() ==> head_readable(rank::ranked(ByName, heads(self.lists@))[i])
                        && shows_head(
                        rank::ranked(ByName, heads(self.lists@))[i],
                        #[trigger] v@[i],
                    ) && v@[i].items@.len() == 0,
                Err(e) => exists|i: int| heads_fail_at(rank::ranked(ByName, heads(self.lists@)), e, i),
            },
    {
        let mut all: Vec<PlaylistHead> = Vec::new();
        let mut i: usize = 0;
        while i < self.lists.len()
            invariant
                i <= self.lists.len(),
                all@ == heads(self.lists@).subrange(0, i as int),
            decreases self.lists.len() - i,
        {
            all.push(self.lists[i].head.clone());
            i = i + 1;
            assert(all@ =~= heads(self.lists@).subrange(0, i as int));
        }
        assert(all@ =~= heads(self.lists@));
        let sorted = rank(ByName, all);
        proof {
            rank::ranking_orders(ByName, heads(self.lists@));
        }
        let mut out: Vec<Playlist> = Vec::new();
        let mut k: usize = 0;
        while k < sorted.len()
            invariant
                k <= sorted.len(),
                sorted@ == rank::ranked(ByName, heads(self.lists@)),
                out@.len() == k,
                forall|j: int| 0 <= j < k ==> head_readable(#[trigger] sorted@[j]),
                forall|j: int|
                    0 <= j < k ==> shows_head(sorted@[j], #[trigger] out@[j]) && out@[j].items@.len()
                        == 0,
            decreases sorted.len() - k,
        {
            match read_head(&sorted[k]) {
                Ok(p) => {
                    out.push(p);
                },
                Err(e) => {
                    assert(heads_fail_at(rank::ranked(ByName, heads(self.lists@)), e, k as int));
                    return Err(e);
                },
            }
            k = k + 1;
        }
        Ok(out)
    }

    /// A playlist with all its entries.
    pub fn get_with_items(&self, playlist_id: &str) -> (r: Result<Option<Playlist>, CrabError>)
        requires
            self.wf(),
        ensures
            match r {
                Ok(Some(p)) => exists|k: int|
                    0 <= k < self.lists@.len() && (#[trigger] self.lists@[k]).head.id@
                        == playlist_id@ && head_readable(self.lists@[k].head) && shows_head(
                        self.lists@[k].head,
                        p,
                    ) && p.items@ == self.lists@[k].items@,
                Ok(None) => !has_list(self.lists@, playlist_id@),
                Err(e) => exists|k: int|
                    0 <= k < self.lists@.len() && (#[trigger] self.lists@[k]).head.id@
                        == playlist_id@ && head_error(self.lists@[k].head, e),
            },
    {
        let k: usize = match self.find(playlist_id) {
            Some(k) => k,
            None => {
                return Ok(None);
            },
        };
        let mut p = match read_head(&self.lists[k].head) {
            Ok(p) => p,
            Err(e) => {
                return Err(e);
            },
        };
        p.items = copy_items(&self.lists[k].items);
        Ok(Some(p))
    }

    /// Put new entries into a playlist and mark it changed now.
    fn store_items(&mut self, k: usize, items: Vec<PlaylistItem>)
        requires
            k < old(self).lists@.len(),
        ensures
            final(self).tracks == old(self).tracks,
            touched(old(self).lists@, final(self).lists@, k as int, items@),
    {
        let mut head = self.lists[k].head.clone();
        let at = now();
        head.updated_at = write_rfc3339(at);
        self.lists.set(k, StoredPlaylist { head, items });
    }

    /// Add a track at the end of a playlist. An unknown track or playlist is
    /// refused.
    pub fn add_track(&mut self, playlist_id: &str, track_id: &str, is_jingle: bool, is_ad: bool) -> (r:
        Result<(), CrabError>)
        requires
            old(self).wf(),
            forall|i: int|
                0 <= i < old(self).lists@.len() ==> end_position(
                    (#[trigger] old(self).lists@[i]).items@,
                ) <= i32::MAX && old(self).lists@[i].items@.len() < i32::MAX,
        ensures
            final(self).wf(),
            final(self).tracks == old(self).tracks,
            match r {
                Ok(_) => table::has_key(old(self).tracks@, track_id@) && exists|k: int|
                    0 <= k < old(self).lists@.len() && (#[trigger] old(self).lists@[k]).head.id@
                        == playlist_id@ && touched(
                        old(self).lists@,
                        final(self).lists@,
                        k,
                        final(self).lists@[k].items@,
                    ) && final(self).lists@[k].items@.len() == old(self).lists@[k].items@.len() + 1
                        && final(self).lists@[k].items@.drop_last() == old(self).lists@[k].items@
                        && final(self).lists@[k].items@.last().track_id@ == track_id@
                            && final(self).lists@[k].items@.last().position == end_position(old(self).lists@[k].items@)
                        && final(self).lists@[k].items@.last().is_jingle == is_jingle
                            && final(self).lists@[k].items@.last().is_ad == is_ad,
                Err(CrabError::Database(m)) => (!table::has_key(old(self).tracks@, track_id@) || !has_list(
                    old(self).lists@,
                    playlist_id@,
                )) && m@ == "FOREIGN KEY constraint failed"@ && final(self).lists@ == old(self).lists@,
                Err(_) => false,
            },
    {
        let k: usize = match self.find(playlist_id) {
            Some(k) => k,
            None => {
                return Err(CrabError::Database(String::from_str("FOREIGN KEY constraint failed")));
            },
        };
        if find_key(&self.tracks, track_id).is_none() {
            return Err(CrabError::Database(String::from_str("FOREIGN KEY constraint failed")));
        }
        let ghost before = self.lists@;
        assert(end_position(before[k as int].items@) <= i32::MAX);
        let mut items = copy_items(&self.lists[k].items);
        let position: i32 = if items.len() == 0 {
            0
        } else {
            items[items.len() - 1].position + 1
        };
        items.push(PlaylistItem { track_id: track_id.to_owned(), position, is_jingle, is_ad });
        let ghost all = items@;
        self.store_items(k, items);
        proof {
            assert(all.drop_last() =~= before[k as int].items@);
            let was = before[k as int].items@;
            assert(ordered_items(all)) by {
                assert forall|i: int, j: int| 0 <= i < j < all.len() implies (
                #[trigger] all[i]).position < (#[trigger] all[j]).position by {
                    assert(all[i] == was[i]);
                    if j < was.len() {
                        assert(all[j] == was[j]);
                    } else if i < was.len() - 1 {
                        assert(was[i].position < was[was.len() - 1].position);
                    }
                }
            }
            assert forall|i: int| 0 <= i < self.lists@.len() implies ordered_items(
                (#[trigger] self.lists@[i]).items@,
            ) by {
                if i != k {
                    assert(ordered_items(before[i].items@));
                }
            }
            assert forall|i: int, n: int|
                0 <= i < self.lists@.len() && 0 <= n < self.lists@[i].items@.len() implies table::has_key(
                self.tracks@,
                (#[trigger] self.lists@[i].items@[n]).track_id@,
            ) by {
                if i != k {
                    assert(self.lists@[i] == before[i]);
                    assert(table::has_key(self.tracks@, before[i].items@[n].track_id@));
                } else if n < was.len() {
                    assert(all[n] == was[n]);
                    assert(table::has_key(self.tracks@, before[i].items@[n].track_id@));
                }
            }
            assert(before[k as int].head.id@ == playlist_id@);
        }
        Ok(())
    }

    /// Rename a playlist; the name is trimmed and must not be blank.
    pub fn rename(&mut self, playlist_id: &str, name: &str) -> (r: Result<(), CrabError>)
        requires
            old(self).wf(),
        ensures
            final(self).wf(),
            final(self).tracks == old(self).tracks,
            match r {
                Ok(_) => text::trimmed(name@).len() > 0 && exists|k: int|
                    0 <= k < old(self).lists@.len() && (#[trigger] old(self).lists@[k]).head.id@
                        == playlist_id@ && renamed(
                        old(self).lists@,
                        final(self).lists@,
                        k,
                        text::trimmed(name@),
                    ),
                Err(CrabError::Playlist(m)) => final(self).lists@ == old(self).lists@ && (if text::trimmed(
                    name@,
                ).len() == 0 {
                    m@ == "name is empty"@
                } else {
                    !has_list(old(self).lists@, playlist_id@) && m@ == "playlist not found"@
                }),
                Err(_) => false,
            },
    {
        let t = trim(name);
        if t.as_str().is_empty() {
            return Err(CrabError::Playlist(String::from_str("name is empty")));
        }
        let k: usize = match self.find(playlist_id) {
            Some(k) => k,
            None => {
                return Err(CrabError::Playlist(String::from_str("playlist not found")));
            },
        };
        let ghost before = self.lists@;
        let mut p = self.lists.remove(k);
        let at = now();
        p.head.name = t;
        p.head.updated_at = write_rfc3339(at);
        self.lists.insert(k, p);
        proof {
            assert(self.lists@ =~= before.update(k as int, p));
            assert(before[k as int].head.id@ == playlist_id@);
            assert(renamed(before, self.lists@, k as int, text::trimmed(name@)));
            assert forall|i: int, n: int|
                0 <= i < self.lists@.len() && 0 <= n < self.lists@[i].items@.len() implies table::has_key(
                self.tracks@,
                (#[trigger] self.lists@[i].items@[n]).track_id@,
            ) by {
                assert(table::has_key(self.tracks@, before[i].items@[n].track_id@));
            }
            assert forall|i: int| 0 <= i < self.lists@.len() implies ordered_items(
                (#[trigger] self.lists@[i]).items@,
            ) by {
                assert(ordered_items(before[i].items@));
            }
            assert forall|i: int, j: int| 0 <= i < j < self.lists@.len() implies (
            #[trigger] self.lists@[i]).head.id@ != (#[trigger] self.lists@[j]).head.id@ by {
                assert(before[i].head.id@ != before[j].head.id@);
            }
        }
        Ok(())
    }

    /// Remove the entry at a position and number the rest from zero without
    /// gaps.
    pub fn remove_at(&mut self, playlist_id: &str, position: i32) -> (r: Result<(), CrabError>)
        requires
            old(self).wf(),
        ensures
            final(self).wf(),
            final(self).tracks == old(self).tracks,
            match r {
                Ok(_) => exists|k: int, n: int|
                    0 <= k < old(self).lists@.len() && (#[trigger] old(self).lists@[k]).head.id@
                        == playlist_id@ && 0 <= n < old(self).lists@[k].items@.len() && (
                    #[trigger] old(self).lists@[k].items@[n]).position == position && touched(
                        old(self).lists@,
                        final(self).lists@,
                        k,
                        renumbered(old(self).lists@[k].items@.remove(n)),
                    ),
                Err(CrabError::Playlist(m)) => m@ == "item not found"@
                    && final(self).lists@ == old(self).lists@ && forall|k: int|
                    0 <= k < old(self).lists@.len() && (#[trigger] old(self).lists@[k]).head.id@
                        == playlist_id@ ==> !has_position(old(self).lists@[k].items@, position),
                Err(_) => false,
            },
    {
        let k: usize = match self.find(playlist_id) {
            Some(k) => k,
            None => {
                return Err(CrabError::Playlist(String::from_str("item not found")));
            },
        };
        let ghost before = self.lists@;
        let ghost was = before[k as int].items@;
        assert(ordered_items(was));
        let mut items = copy_items(&self.lists[k].items);
        let mut found: Option<usize> = None;
        let mut i: usize = 0;
        while i < items.len()
            invariant
                i <= items.len(),
                items@ == was,
                match found {
                    Some(n) => n < i && was[n as int].position == position,
                    None => forall|j: int| 0 <= j < i ==> (#[trigger] was[j]).position != position,
                },
            decreases items.len() - i,
        {
            if items[i].position == position {
                found = Some(i);
            }
            i = i + 1;
        }
        let n: usize = match found {
            Some(n) => n,
            None => {
                assert forall|q: int|
                    0 <= q < before.len() && (#[trigger] before[q]).head.id@
                        == playlist_id@ implies !has_position(before[q].items@, position) by {
                    assert(q == k) by {
                        if q < k {
                            assert(before[q].head.id@ != before[k as int].head.id@);
                        } else if q > k {
                            assert(before[k as int].head.id@ != before[q].head.id@);
                        }
                    }
                }
                return Err(CrabError::Playlist(String::from_str("item not found")));
            },
        };
        let _gone = items.remove(n);
        let dense_items = renumber(items);
        let ghost all = dense_items@;
        self.store_items(k, dense_items);
        proof {
            assert(before[k as int].head.id@ == playlist_id@);
            assert(before[k as int].items@[n as int].position == position);
            renumbering_is_dense(was.remove(n as int));
            self.lemma_still_wf(before, k as int, was.remove(n as int));
        }
        Ok(())
    }

    /// Move an entry from one index to another. Indices count entries in their
    /// order, so gaps in the positions do not matter; the result is numbered
    /// without gaps. Nothing happens when the two are the same.
    pub fn move_item(&mut self, playlist_id: &str, from: usize, to: usize) -> (r: Result<
        (),
        CrabError,
    >)
        requires
            old(self).wf(),
        ensures
            final(self).wf(),
            final(self).tracks == old(self).tracks,
            match r {
                Ok(_) => if from == to {
                    final(self).lists@ == old(self).lists@
                } else {
                    exists|k: int|
                        0 <= k < old(self).lists@.len() && (#[trigger] old(self).lists@[k]).head.id@
                            == playlist_id@ && from < old(self).lists@[k].items@.len()
                                && to < old(self).lists@[k].items@.len() && touched(
                            old(self).lists@,
                            final(self).lists@,
                            k,
                            renumbered(moved(old(self).lists@[k].items@, from as int, to as int)),
                        )
                },
                Err(CrabError::Playlist(m)) => from != to && m@ == "item index out of range"@
                    && final(self).lists@ == old(self).lists@ && forall|k: int|
                    0 <= k < old(self).lists@.len() && (#[trigger] old(self).lists@[k]).head.id@
                        == playlist_id@ ==> from >= old(self).lists@[k].items@.len() || to >= old(self).lists@[k].items@.len(),
                Err(_) => false,
            },
    {
        if from == to {
            return Ok(());
        }
        let k: usize = match self.find(playlist_id) {
            Some(k) => k,
            None => {
                return Err(CrabError::Playlist(String::from_str("item index out of range")));
            },
        };
        let ghost before = self.lists@;
        let ghost was = before[k as int].items@;
        assert(ordered_items(was));
        if from >= self.lists[k].items.len() || to >= self.lists[k].items.len() {
            assert forall|q: int|
                0 <= q < before.len() && (#[trigger] before[q]).head.id@
                    == playlist_id@ implies from >= before[q].items@.len() || to
                >= before[q].items@.len() by {
                assert(q == k) by {
                    if q < k {
                        assert(before[q].head.id@ != before[k as int].head.id@);
                    } else if q > k {
                        assert(before[k as int].head.id@ != before[q].head.id@);
                    }
                }
            }
            return Err(CrabError::Playlist(String::from_str("item index out of range")));
        }
        let mut items = copy_items(&self.lists[k].items);
        let it = items.remove(from);
        items.insert(to, it);
        assert(items@ =~= moved(was, from as int, to as int));
        let dense_items = renumber(items);
        self.store_items(k, dense_items);
        proof {
            assert(before[k as int].head.id@ == playlist_id@);
            let next = moved(was, from as int, to as int);
            renumbering_is_dense(next);
            moving_keeps_the_entries(was, from as int, to as int);
            self.lemma_still_wf(before, k as int, next);
        }
        Ok(())
    }

    proof fn lemma_still_wf(self, before: Seq<StoredPlaylist>, k: int, items: Seq<PlaylistItem>)
        requires
            0 <= k < before.len(),
            touched(before, self.lists@, k, renumbered(items)),
            items.len() <= i32::MAX,
            forall|n: int|
                0 <= n < items.len() ==> exists|m: int|
                    0 <= m < before[k].items@.len() && (#[trigger] items[n]).track_id
                        == before[k].items@[m].track_id,
            forall|i: int, j: int|
                0 <= i < j < before.len() ==> (#[trigger] before[i]).head.id@ != (
                #[trigger] before[j]).head.id@,
            forall|i: int| 0 <= i < before.len() ==> ordered_items((#[trigger] before[i]).items@),
            forall|i: int, n: int|
                0 <= i < before.len() && 0 <= n < before[i].items@.len() ==> table::has_key(
                    self.tracks@,
                    (#[trigger] before[i].items@[n]).track_id@,
                ),
        ensures
            self.wf(),
    {
        renumbering_is_dense(items);
        assert forall|i: int| 0 <= i < self.lists@.len() implies ordered_items(
            (#[trigger] self.lists@[i]).items@,
        ) by {
            if i != k {
                assert(ordered_items(before[i].items@));
            }
        }
        assert forall|i: int, n: int|
            0 <= i < self.lists@.len() && 0 <= n < self.lists@[i].items@.len() implies table::has_key(
            self.tracks@,
            (#[trigger] self.lists@[i].items@[n]).track_id@,
        ) by {
            if i != k {
                assert(self.lists@[i] == before[i]);
                assert(table::has_key(self.tracks@, before[i].items@[n].track_id@));
            } else {
                assert(renumbered(items)[n].track_id == items[n].track_id);
                let m = choose|m: int|
                    0 <= m < before[k].items@.len() && items[n].track_id
                        == before[k].items@[m].track_id;
                assert(table::has_key(self.tracks@, before[k].items@[m].track_id@));
            }
        }
        assert forall|i: int, j: int| 0 <= i < j < self.lists@.len() implies (
        #[trigger] self.lists@[i]).head.id@ != (#[trigger] self.lists@[j]).head.id@ by {
            assert(before[i].head.id@ != before[j].head.id@);
        }
    }

    /// Delete a playlist with its entries; an unknown id changes nothing.
    pub fn delete(&mut self, playlist_id: &str) -> (r: Result<(), CrabError>)
        requires
            old(self).wf(),
        ensures
            r is Ok,
            final(self).wf(),
            final(self).tracks == old(self).tracks,
            !has_list(final(self).lists@, playlist_id@),
            if has_list(old(self).lists@, playlist_id@) {
                exists|k: int|
                    0 <= k < old(self).lists@.len() && (#[trigger] old(self).lists@[k]).head.id@
                        == playlist_id@ && final(self).lists@ == old(self).lists@.remove(k)
            } else {
                final(self).lists@ == old(self).lists@
            },
    {
        let k: usize = match self.find(playlist_id) {
            Some(k) => k,
            None => {
                return Ok(());
            },
        };
        let ghost before = self.lists@;
        let _gone = self.lists.remove(k);
        proof {
            assert(before[k as int].head.id@ == playlist_id@);
            assert(self.lists@ =~= before.remove(k as int));
            assert forall|i: int| 0 <= i < self.lists@.len() implies (
            #[trigger] self.lists@[i]).head.id@ != playlist_id@ && ordered_items(
                self.lists@[i].items@,
            ) by {
                let j = if i < k {
                    i
                } else {
                    i + 1
                };
                assert(self.lists@[i] == before[j]);
                assert(ordered_items(before[j].items@));
                if j < k {
                    assert(before[j].head.id@ != before[k as int].head.id@);
                } else {
                    assert(before[k as int].head.id@ != before[j].head.id@);
                }
            }
            assert forall|i: int, n: int|
                0 <= i < self.lists@.len() && 0 <= n < self.lists@[i].items@.len() implies table::has_key(
                self.tracks@,
                (#[trigger] self.lists@[i].items@[n]).track_id@,
            ) by {
                let j = if i < k {
                    i
                } else {
                    i + 1
                };
                assert(table::has_key(self.tracks@, before[j].items@[n].track_id@));
            }
            assert forall|i: int, j: int| 0 <= i < j < self.lists@.len() implies (
            #[trigger] self.lists@[i]).head.id@ != (#[trigger] self.lists@[j]).head.id@ by {
                let a = if i < k {
                    i
                } else {
                    i + 1
                };
                let b = if j < k {
                    j
                } else {
                    j + 1
                };
                assert(before[a].head.id@ != before[b].head.id@);
            }
        }
        Ok(())
    }
}

/// One playlist has a new name and a new moment of its last change, and
/// nothing else differs.
pub open spec fn renamed(
    before: Seq<StoredPlaylist>,
    after: Seq<StoredPlaylist>,
    k: int,
    name: Seq<char>,
) -> bool {
    &&& 0 <= k < before.len()
    &&& after.len() == before.len()
    &&& forall|j: int| 0 <= j < before.len() && j != k ==> #[trigger] after[j] == before[j]
    &&& after[k].items@ == before[k].items@
    &&& after[k].head.name@ == name
    &&& after[k].head == (PlaylistHead {
        name: after[k].head.name,
        updated_at: after[k].head.updated_at,
        ..before[k].head
    })
    &&& clock::writes_a_moment(after[k].head.updated_at@)
}

/// Delete a track everywhere: from the library, with the log of its plays and
/// its tags, and from every playlist. The playlists stay, and nothing is left
/// that refers to it.
pub fn remove_everywhere(lib: &mut Library, lists: &mut PlaylistManager, id: &str)
    requires
        old(lib).wf(),
        old(lists).wf(),
    ensures
        final(lib).wf(),
        final(lists).wf(),
        final(lib).tracks@ == table::without_key(old(lib).tracks@, id@),
        final(lib).log@ == table::without_key(old(lib).log@, id@),
        final(lib).tags@ == table::without_key(old(lib).tags@, id@),
        final(lists).tracks@ == table::without_key(old(lists).tracks@, id@),
        final(lists).lists@.len() == old(lists).lists@.len(),
        forall|i: int|
            0 <= i < old(lists).lists@.len() ==> (#[trigger] final(lists).lists@[i]).head == old(lists).lists@[i].head && final(lists).lists@[i].items@ == without_track(
                old(lists).lists@[i].items@,
                id@,
            ),
        !table::has_key(final(lib).tracks@, id@),
        !table::has_key(final(lib).log@, id@),
        !table::has_key(final(lib).tags@, id@),
        !table::has_key(final(lists).tracks@, id@),
        forall|i: int, k: int|
            0 <= i < final(lists).lists@.len() && 0 <= k < final(lists).lists@[i].items@.len() ==> (
            #[trigger] final(lists).lists@[i].items@[k]).track_id@ != id@,
{
    let _ = lib.remove_track(id);
    lists.forget_track(id);
    proof {
        table::removal_leaves_the_rest(old(lists).tracks@, id@);
        assert forall|i: int, k: int|
            0 <= i < lists.lists@.len() && 0 <= k < lists.lists@[i].items@.len() implies (
        #[trigger] lists.lists@[i].items@[k]).track_id@ != id@ by {
            assert(table::has_key(lists.tracks@, lists.lists@[i].items@[k].track_id@));
        }
    }
}

/// A moved entry stands where it was moved to; those that it passed move up by
/// one place the other way, and all others stay.
pub proof fn moved_entries_land_in_place<T>(items: Seq<T>, from: int, to: int, k: int)
    requires
        0 <= from < items.len(),
        0 <= to < items.len(),
        0 <= k < items.len(),
    ensures
        moved(items, from, to).len() == items.len(),
        moved(items, from, to)[to] == items[from],
        k < from && k < to || k > from && k > to ==> moved(items, from, to)[k] == items[k],
        from <= k < to ==> moved(items, from, to)[k] == items[k + 1],
        to < k <= from ==> moved(items, from, to)[k] == items[k - 1],
{
}

proof fn lemma_parted(items: Seq<PlaylistItem>, position: i32, i: int)
    requires
        ordered_items(items),
        0 <= i < items.len(),
    ensures
        0 <= place(items, position) <= items.len(),
        i < place(items, position) ==> items[i].position < position,
        i >= place(items, position) ==> items[i].position >= position,
    decreases items.len(),
{
    let front = items.drop_last();
    lemma_place_bounds(items, position);
    if items.last().position >= position {
        if i < front.len() {
            assert forall|a: int, b: int| 0 <= a < b < front.len() implies (
            #[trigger] front[a]).position < (#[trigger] front[b]).position by {
                assert(items[a].position < items[b].position);
            }
            lemma_parted(front, position, i);
            assert(front[i] == items[i]);
        } else {
            lemma_place_bounds(front, position);
        }
    } else if i < items.len() - 1 {
        assert(items[i].position < items[items.len() - 1].position);
    }
}

proof fn lemma_place_bounds(items: Seq<PlaylistItem>, position: i32)
    ensures
        0 <= place(items, position) <= items.len(),
    decreases items.len(),
{
    if items.len() > 0 {
        lemma_place_bounds(items.drop_last(), position);
    }
}

/// An entry goes behind all that stand before its position and in front of the
/// rest, so that a list whose position is free stays in order.
pub proof fn entries_go_to_their_position(items: Seq<PlaylistItem>, item: PlaylistItem, i: int)
    requires
        ordered_items(items),
        items.len() < i32::MAX,
        !position_taken(items, item.position),
        0 <= i < items.len(),
    ensures
        i < place(items, item.position) <==> items[i].position < item.position,
        ordered_items(items.insert(place(items, item.position), item)),
        items.insert(place(items, item.position), item).contains(item),
        items.insert(place(items, item.position), item).contains(items[i]),
{
    let p = place(items, item.position);
    let after = items.insert(p, item);
    lemma_parted(items, item.position, i);
    assert forall|a: int| 0 <= a < items.len() implies (a < p ==> (#[trigger] items[a]).position
        < item.position) && (a >= p ==> items[a].position > item.position) by {
        lemma_parted(items, item.position, a);
        if items[a].position == item.position {
            assert(position_taken(items, item.position));
        }
    }
    assert(after[p] == item);
    assert forall|a: int, b: int| 0 <= a < b < after.len() implies (#[trigger] after[a]).position < (
    #[trigger] after[b]).position by {
        let x = if a < p {
            a
        } else {
            a - 1
        };
        let y = if b < p {
            b
        } else {
            b - 1
        };
        if a != p {
            assert(after[a] == items[x]);
        }
        if b != p {
            assert(after[b] == items[y]);
        }
        if a != p && b != p {
            assert(items[x].position < items[y].position);
        }
    }
    if i < p {
        assert(after[i] == items[i]);
    } else {
        assert(after[i + 1] == items[i]);
    }
}

/// The end of a list lies behind all its entries, and an empty list starts at
/// nothing.
pub proof fn ends_lie_behind_all(items: Seq<PlaylistItem>, i: int)
    requires
        ordered_items(items),
    ensures
        items.len() == 0 ==> end_position(items) == 0,
        0 <= i < items.len() ==> items[i].position < end_position(items),
        items.len() > 0 ==> has_position(items, items.last().position) && end_position(items)
            == items.last().position + 1,
{
    if 0 <= i < items.len() - 1 {
        assert(items[i].position < items[items.len() - 1].position);
    }
    if items.len() > 0 {
        assert(items[items.len() - 1].position == items.last().position);
    }
}

/// Taking a track out of a list takes every entry of it, and no other.
pub proof fn tracks_leave_a_list_whole(items: Seq<PlaylistItem>, id: Seq<char>, it: PlaylistItem)
    ensures
        without_track(items, id).contains(it) <==> items.contains(it) && it.track_id@ != id,
    decreases items.len(),
{
    reveal(Seq::filter);
    let left = without_track(items, id);
    lemma_without_track(items, id);
    if items.contains(it) && it.track_id@ != id {
        let front = items.drop_last();
        let before = without_track(front, id);
        tracks_leave_a_list_whole(front, id, it);
        let i = choose|i: int| 0 <= i < items.len() && items[i] == it;
        if i < front.len() {
            assert(front[i] == it);
            let k = choose|k: int| 0 <= k < before.len() && before[k] == it;
            assert(left[k] == it);
        } else {
            assert(left == before.push(it));
            assert(left[before.len() as int] == it);
        }
    }
}

} // verus!
