//! The cart wall: pads with a label and an audio file, fired instantly.

use vstd::prelude::*;
use vstd::string::*;

use crate::clock::{fresh_id, now, read_rfc3339, write_rfc3339, Stamp};
use crate::error::CrabError;
use crate::rank::{rank, Order};
use crate::table::{copy_all, find_key, remove_key, Keyed};
use crate::text::same_text;
use crate::clock;
use crate::rank;
use crate::table;

verus! {

/// Size of the wall: a fixed grid of pads.
pub const WALL_SIZE: usize = 8;

/// One cart pad.
#[derive(Debug, Clone)]
pub struct Cart {
    pub id: String,
    pub label: String,
    pub file_path: String,
    pub position: i32,
    pub created_at: Stamp,
}

/// A pad as it is stored: the moment of its creation is text.
#[derive(Debug)]
pub struct StoredCart {
    pub id: String,
    pub label: String,
    pub file_path: String,
    pub position: i32,
    pub created_at: String,
}

/// The contents of a stored pad.
pub ghost struct CartView {
    pub id: Seq<char>,
    pub label: Seq<char>,
    pub file_path: Seq<char>,
    pub position: i32,
    pub created_at: Seq<char>,
}

impl View for StoredCart {
    type V = CartView;

    open spec fn view(&self) -> CartView {
        CartView {
            id: self.id@,
            label: self.label@,
            file_path: self.file_path@,
            position: self.position,
            created_at: self.created_at@,
        }
    }
}

impl Clone for StoredCart {
    fn clone(&self) -> (r: Self)
        ensures
            r == *self,
    {
        StoredCart {
            id: self.id.clone(),
            label: self.label.clone(),
            file_path: self.file_path.clone(),
            position: self.position,
            created_at: self.created_at.clone(),
        }
    }
}

impl Keyed for StoredCart {
    open spec fn key(self) -> Seq<char> {
        self.id@
    }

    fn key_is(&self, id: &str) -> (r: bool) {
        same_text(self.id.as_str(), id)
    }

    fn duplicate(&self) -> (r: Self) {
        self.clone()
    }
}

/// Listed by position.
pub struct ByPosition;

impl Order<StoredCart> for ByPosition {
    open spec fn before(self, a: StoredCart, b: StoredCart) -> bool {
        a.position < b.position
    }

    proof fn is_weak_order(self, a: StoredCart, b: StoredCart, c: StoredCart) {
    }

    fn is_ahead(&self, a: &StoredCart, b: &StoredCart) -> (r: bool) {
        a.position < b.position
    }
}

/// Some pad stands at this position.
pub open spec fn taken(rows: Seq<StoredCart>, position: i32) -> bool {
    exists|i: int| 0 <= i < rows.len() && (#[trigger] rows[i]).position == position
}

/// No two pads share a position.
pub open spec fn distinct_positions(rows: Seq<StoredCart>) -> bool {
    forall|i: int, j: int|
        0 <= i < j < rows.len() ==> (#[trigger] rows[i]).position != (#[trigger] rows[j]).position
}

/// The pads at other positions, in their order.
pub open spec fn off_position(rows: Seq<StoredCart>, position: i32) -> Seq<StoredCart> {
    rows.filter(|c: StoredCart| c.position != position)
}

/// The largest position in use, and minus one on an empty wall.
pub open spec fn top_position(rows: Seq<StoredCart>) -> int
    decreases rows.len(),
{
    if rows.len() == 0 {
        -1
    } else if rows.len() == 1 || rows.last().position > top_position(rows.drop_last()) {
        rows.last().position as int
    } else {
        top_position(rows.drop_last())
    }
}

/// The position of the next pad: behind the largest in use, and the first
/// where there is none left behind it.
pub open spec fn next_position(rows: Seq<StoredCart>) -> int {
    if top_position(rows) >= i32::MAX {
        0
    } else {
        top_position(rows) + 1
    }
}

/// A place on the wall.
pub open spec fn on_wall(position: i32) -> bool {
    0 <= position < WALL_SIZE
}

/// The pad that a readable row stands for.
pub open spec fn cart_from(row: StoredCart) -> Cart {
    Cart {
        id: row.id,
        label: row.label,
        file_path: row.file_path,
        position: row.position,
        created_at: clock::rfc3339_moment(row.created_at@)->0,
    }
}

/// The moment of creation reads as one.
pub open spec fn cart_readable(row: StoredCart) -> bool {
    clock::rfc3339_moment(row.created_at@) is Some
}

/// The stored pads in listing order.
pub open spec fn listed_carts(rows: Seq<StoredCart>) -> Seq<Cart> {
    rank::ranked(ByPosition, rows).map_values(|r: StoredCart| cart_from(r))
}

/// Listing fails at a row that does not read, all rows ahead of it do.
pub open spec fn cart_fails_at(rows: Seq<StoredCart>, e: CrabError, i: int) -> bool {
    &&& 0 <= i < rows.len()
    &&& !cart_readable(rows[i])
    &&& forall|j: int| 0 <= j < i ==> cart_readable(#[trigger] rows[j])
    &&& e matches CrabError::Integrity { table, id, field, value } && table@ == "carts"@ && id@
        == rows[i].id@ && field@ == "created_at"@ && value@ == rows[i].created_at@
}

proof fn lemma_top_position(rows: Seq<StoredCart>)
    ensures
        forall|i: int| 0 <= i < rows.len() ==> (#[trigger] rows[i]).position <= top_position(rows),
        i32::MIN <= top_position(rows) <= i32::MAX,
    decreases rows.len(),
{
    if rows.len() > 0 {
        let front = rows.drop_last();
        lemma_top_position(front);
        assert forall|i: int| 0 <= i < rows.len() implies (#[trigger] rows[i]).position
            <= top_position(rows) by {
            if i < front.len() {
                assert(rows[i] == front[i]);
            }
        }
    }
}

proof fn lemma_off_position(rows: Seq<StoredCart>, position: i32)
    ensures
        !taken(off_position(rows, position), position),
        forall|k: int|
            0 <= k < off_position(rows, position).len() ==> rows.contains(
                #[trigger] off_position(rows, position)[k],
            ),
        distinct_positions(rows) ==> distinct_positions(off_position(rows, position)),
        table::distinct_keys(rows) ==> table::distinct_keys(off_position(rows, position)),
        !taken(rows, position) ==> off_position(rows, position) == rows,
    decreases rows.len(),
{
    reveal(Seq::filter);
    let left = off_position(rows, position);
    if rows.len() > 0 {
        let front = rows.drop_last();
        lemma_off_position(front, position);
        let before = off_position(front, position);
        assert(rows =~= front.push(rows.last()));
        assert forall|k: int| 0 <= k < left.len() implies rows.contains(#[trigger] left[k])
            && left[k].position != position by {
            if k < before.len() {
                assert(left[k] == before[k]);
                assert(front.contains(before[k]));
                let n = choose|n: int| 0 <= n < front.len() && front[n] == before[k];
                assert(rows[n] == left[k]);
            } else {
                assert(rows[rows.len() - 1] == left[k]);
            }
        }
        if distinct_positions(rows) {
            assert(distinct_positions(front)) by {
                assert forall|i: int, j: int| 0 <= i < j < front.len() implies (
                #[trigger] front[i]).position != (#[trigger] front[j]).position by {
                    assert(rows[i].position != rows[j].position);
                }
            }
            assert forall|i: int, j: int| 0 <= i < j < left.len() implies (
            #[trigger] left[i]).position != (#[trigger] left[j]).position by {
                assert(left[i] == before[i]);
                if j < before.len() {
                    assert(left[j] == before[j]);
                } else {
                    let n = choose|n: int| 0 <= n < front.len() && front[n] == before[i];
                    assert(rows[n].position != rows[rows.len() - 1].position);
                }
            }
        }
        if table::distinct_keys(rows) {
            assert(table::distinct_keys(front)) by {
                assert forall|i: int, j: int| 0 <= i < j < front.len() implies (
                #[trigger] front[i]).key() != (#[trigger] front[j]).key() by {
                    assert(rows[i].key() != rows[j].key());
                }
            }
            assert forall|i: int, j: int| 0 <= i < j < left.len() implies (
            #[trigger] left[i]).key() != (#[trigger] left[j]).key() by {
                assert(left[i] == before[i]);
                if j < before.len() {
                    assert(left[j] == before[j]);
                } else {
                    let n = choose|n: int| 0 <= n < front.len() && front[n] == before[i];
                    assert(rows[n].key() != rows[rows.len() - 1].key());
                }
            }
        }
        if !taken(rows, position) {
            assert(rows[rows.len() - 1].position != position);
            assert forall|i: int| 0 <= i < front.len() implies (#[trigger] front[i]).position
                != position by {
                assert(rows[i].position != position);
            }
        }
    } else {
        assert(left =~= rows);
    }
}

/// The stored pads of the wall.
#[derive(Debug)]
pub struct CartManager {
    pub rows: Vec<StoredCart>,
}

impl CartManager {
    /// Ids and positions are unique.
    pub open spec fn wf(self) -> bool {
        table::distinct_keys(self.rows@) && distinct_positions(self.rows@)
    }

    /// An empty wall.
    pub fn new() -> (m: Self)
        ensures
            m.wf(),
            m.rows@ == Seq::<StoredCart>::empty(),
    {
        CartManager { rows: Vec::new() }
    }

    /// Whether a pad stands at this position.
    pub fn is_taken(&self, position: i32) -> (r: bool)
        ensures
            r == taken(self.rows@, position),
    {
        let mut i: usize = 0;
        while i < self.rows.len()
            invariant
                i <= self.rows.len(),
                forall|j: int| 0 <= j < i ==> (#[trigger] self.rows@[j]).position != position,
            decreases self.rows.len() - i,
        {
            if self.rows[i].position == position {
                assert(self.rows@[i as int].position == position);
                return true;
            }
            i = i + 1;
        }
        false
    }

    /// Store a row as it stands; a second row with its id or at its position
    /// is refused.
    pub fn insert_row(&mut self, row: StoredCart) -> (r: Result<(), CrabError>)
        requires
            old(self).wf(),
        ensures
            final(self).wf(),
            match r {
                Ok(_) => !table::has_key(old(self).rows@, row.id@) && !taken(old(self).rows@, row.position)
                    && final(self).rows@ == old(self).rows@.push(row),
                Err(CrabError::Database(m)) => final(self).rows@ == old(self).rows@ && (if table::has_key(
                    old(self).rows@,
                    row.id@,
                ) {
                    m@ == "UNIQUE constraint failed: carts.id"@
                } else {
                    taken(old(self).rows@, row.position) && m@
                        == "UNIQUE constraint failed: carts.position"@
                }),
                Err(_) => false,
            },
    {
        if find_key(&self.rows, row.id.as_str()).is_some() {
            return Err(
                CrabError::Database(String::from_str("UNIQUE constraint failed: carts.id")),
            );
        }
        if self.is_taken(row.position) {
            return Err(
                CrabError::Database(String::from_str("UNIQUE constraint failed: carts.position")),
            );
        }
        self.rows.push(row);
        Ok(())
    }

    /// The position of the next pad.
    fn free_position(&self) -> (p: i32)
        ensures
            p == next_position(self.rows@),
    {
        if self.rows.len() == 0 {
            return 0;
        }
        let mut top: i32 = self.rows[0].position;
        let mut i: usize = 1;
        assert(self.rows@.subrange(0, 1).drop_last() =~= Seq::empty());
        assert(top == top_position(self.rows@.subrange(0, 1)));
        while i < self.rows.len()
            invariant
                1 <= i <= self.rows.len(),
                top == top_position(self.rows@.subrange(0, i as int)),
            decreases self.rows.len() - i,
        {
            assert(self.rows@.subrange(0, i + 1).drop_last() =~= self.rows@.subrange(0, i as int));
            if self.rows[i].position > top {
                top = self.rows[i].position;
            }
            i = i + 1;
        }
        assert(self.rows@.subrange(0, i as int) =~= self.rows@);
        if top == i32::MAX {
            0
        } else {
            top + 1
        }
    }

    /// Append a pad with a given id at a given moment.
    pub fn create_with(&mut self, id: String, at: Stamp, label: &str, file_path: &str) -> (r: Result<
        Cart,
        CrabError,
    >)
        requires
            old(self).wf(),
            at.valid(),
        ensures
            final(self).wf(),
            match r {
                Ok(c) => {
                    &&& !table::has_key(old(self).rows@, id@)
                    &&& final(self).rows@.len() == old(self).rows@.len() + 1
                    &&& final(self).rows@.drop_last() == old(self).rows@
                    &&& final(self).rows@.last()@ == (CartView {
                        id: id@,
                        label: label@,
                        file_path: file_path@,
                        position: next_position(old(self).rows@) as i32,
                        created_at: clock::rfc3339_text(at.secs as int, at.nanos as int),
                    })
                    &&& c == (Cart { created_at: at, ..cart_from(final(self).rows@.last()) })
                    &&& at.four_digit_year() ==> c == cart_from(final(self).rows@.last())
                        && cart_readable(final(self).rows@.last())
                },
                Err(CrabError::Database(_)) => final(self).rows@ == old(self).rows@ && (table::has_key(
                    old(self).rows@,
                    id@,
                ) || taken(old(self).rows@, next_position(old(self).rows@) as i32)),
                Err(_) => false,
            },
            !table::has_key(old(self).rows@, id@) && top_position(old(self).rows@) < i32::MAX ==> r is Ok,
    {
        proof {
            lemma_top_position(self.rows@);
        }
        let position: i32 = self.free_position();
        let row = StoredCart {
            id,
            label: label.to_owned(),
            file_path: file_path.to_owned(),
            position,
            created_at: write_rfc3339(at),
        };
        let kept = row.clone();
        match self.insert_row(row) {
            Ok(_) => {},
            Err(e) => {
                return Err(e);
            },
        }
        assert(self.rows@.drop_last() =~= old(self).rows@);
        Ok(
            Cart {
                id: kept.id,
                label: kept.label,
                file_path: kept.file_path,
                position: kept.position,
                created_at: at,
            },
        )
    }

    /// Append a pad now, under a fresh id.
    pub fn create(&mut self, label: &str, file_path: &str) -> (r: Result<Cart, CrabError>)
        requires
            old(self).wf(),
        ensures
            final(self).wf(),
            match r {
                Ok(c) => {
                    &&& !table::has_key(old(self).rows@, c.id@)
                    &&& c.created_at.valid()
                    &&& final(self).rows@.len() == old(self).rows@.len() + 1
                    &&& final(self).rows@.drop_last() == old(self).rows@
                    &&& final(self).rows@.last()@ == (CartView {
                        id: c.id@,
                        label: label@,
                        file_path: file_path@,
                        position: next_position(old(self).rows@) as i32,
                        created_at: clock::rfc3339_text(
                            c.created_at.secs as int,
                            c.created_at.nanos as int,
                        ),
                    })
                    &&& c == (Cart {
                        created_at: c.created_at,
                        ..cart_from(final(self).rows@.last())
                    })
                },
                Err(CrabError::Database(_)) => final(self).rows@ == old(self).rows@
                    && old(self).rows@.len() > 0,
                Err(_) => false,
            },
    {
        self.create_with(fresh_id(), now(), label, file_path)
    }

    /// All pads by position. A row whose moment of creation does not read
    /// fails the listing with the row's context.
    pub fn list_all(&self) -> (r: Result<Vec<Cart>, CrabError>)
        ensures
            match r {
                Ok(v) => (forall|i: int|
                    0 <= i < self.rows@.len() ==> cart_readable(#[trigger] rank::ranked(ByPosition, self.rows@)[i]))
                    && v@ == listed_carts(self.rows@),
                Err(e) => exists|i: int| cart_fails_at(rank::ranked(ByPosition, self.rows@), e, i),
            },
    {
        let sorted = rank(ByPosition, copy_all(&self.rows));
        proof {
            rank::ranking_orders(ByPosition, self.rows@);
        }
        let mut out: Vec<Cart> = Vec::new();
        let mut k: usize = 0;
        while k < sorted.len()
            invariant
                k <= sorted.len(),
                sorted@ == rank::ranked(ByPosition, self.rows@),
                sorted@.len() == self.rows@.len(),
                forall|j: int| 0 <= j < k ==> cart_readable(#[trigger] sorted@[j]),
                out@ == listed_carts(self.rows@).subrange(0, k as int),
            decreases sorted.len() - k,
        {
            let row = sorted[k].clone();
            match read_rfc3339(row.created_at.as_str()) {
                Some(at) => {
                    out.push(
                        Cart {
                            id: row.id,
                            label: row.label,
                            file_path: row.file_path,
                            position: row.position,
                            created_at: at,
                        },
                    );
                },
                None => {
                    let e = CrabError::Integrity {
                        table: "carts",
                        id: row.id,
                        field: "created_at",
                        value: row.created_at,
                    };
                    assert(cart_fails_at(rank::ranked(ByPosition, self.rows@), e, k as int));
                    return Err(e);
                },
            }
            k = k + 1;
            assert(out@ =~= listed_carts(self.rows@).subrange(0, k as int));
        }
        assert(out@ =~= listed_carts(self.rows@));
        Ok(out)
    }

    /// Delete a pad; an unknown id changes nothing.
    pub fn delete(&mut self, id: &str) -> (r: Result<(), CrabError>)
        requires
            old(self).wf(),
        ensures
            r is Ok,
            final(self).wf(),
            final(self).rows@ == table::without_key(old(self).rows@, id@),
            !table::has_key(final(self).rows@, id@),
    {
        remove_key(&mut self.rows, id);
        proof {
            table::removal_leaves_the_rest(old(self).rows@, id@);
            lemma_without_positions(old(self).rows@, id@);
        }
        Ok(())
    }

    /// Take away the pad at a position, if there is one.
    fn clear_position(&mut self, position: i32)
        requires
            old(self).wf(),
        ensures
            final(self).wf(),
            final(self).rows@ == off_position(old(self).rows@, position),
            !taken(final(self).rows@, position),
    {
        let ghost keep = |c: StoredCart| c.position != position;
        let mut kept: Vec<StoredCart> = Vec::new();
        let mut i: usize = 0;
        proof {
            reveal(Seq::filter);
            assert(self.rows@.subrange(0, 0).filter(keep) =~= kept@);
        }
        while i < self.rows.len()
            invariant
                i <= self.rows.len(),
                self.rows@ == old(self).rows@,
                keep == (|c: StoredCart| c.position != position),
                kept@ == self.rows@.subrange(0, i as int).filter(keep),
            decreases self.rows.len() - i,
        {
            proof {
                reveal(Seq::filter);
                assert(self.rows@.subrange(0, i + 1).drop_last() =~= self.rows@.subrange(
                    0,
                    i as int,
                ));
            }
            if self.rows[i].position != position {
                kept.push(self.rows[i].clone());
            }
            i = i + 1;
        }
        assert(self.rows@.subrange(0, i as int) =~= old(self).rows@);
        proof {
            lemma_off_position(old(self).rows@, position);
        }
        self.rows = kept;
    }

    /// Put a pad with a given id at a position, replacing whatever was there.
    pub fn assign_with(
        &mut self,
        id: String,
        at: Stamp,
        position: i32,
        label: &str,
        file_path: &str,
    ) -> (r: Result<(), CrabError>)
        requires
            old(self).wf(),
            at.valid(),
        ensures
            final(self).wf(),
            match r {
                Ok(_) => {
                    &&& on_wall(position)
                    &&& !table::has_key(off_position(old(self).rows@, position), id@)
                    &&& final(self).rows@.len() > 0
                    &&& final(self).rows@.drop_last() == off_position(old(self).rows@, position)
                    &&& final(self).rows@.last()@ == (CartView {
                        id: id@,
                        label: label@,
                        file_path: file_path@,
                        position,
                        created_at: clock::rfc3339_text(at.secs as int, at.nanos as int),
                    })
                },
                Err(CrabError::InvalidCartPosition(p)) => p == position && !on_wall(position)
                    && final(self).rows@ == old(self).rows@,
                Err(CrabError::Database(_)) => on_wall(position) && table::has_key(
                    off_position(old(self).rows@, position),
                    id@,
                ) && final(self).rows@ == old(self).rows@,
                Err(_) => false,
            },
    {
        if position < 0 || position >= 8 {
            return Err(CrabError::InvalidCartPosition(position));
        }
        let mut next = CartManager { rows: copy_all(&self.rows) };
        next.clear_position(position);
        let row = StoredCart {
            id,
            label: label.to_owned(),
            file_path: file_path.to_owned(),
            position,
            created_at: write_rfc3339(at),
        };
        match next.insert_row(row) {
            Ok(_) => {},
            Err(e) => {
                return Err(e);
            },
        }
        assert(next.rows@.drop_last() =~= off_position(self.rows@, position));
        self.rows = next.rows;
        Ok(())
    }

    /// Assign a track to a pad (counted from zero), replacing whatever was
    /// there. A position off the wall is an error and changes nothing.
    pub fn assign_at(&mut self, position: i32, label: &str, file_path: &str) -> (r: Result<
        (),
        CrabError,
    >)
        requires
            old(self).wf(),
        ensures
            final(self).wf(),
            match r {
                Ok(_) => {
                    &&& on_wall(position)
                    &&& final(self).rows@.len() > 0
                    &&& final(self).rows@.drop_last() == off_position(old(self).rows@, position)
                    &&& final(self).rows@.last().position == position
                    &&& final(self).rows@.last().label@ == label@
                    &&& final(self).rows@.last().file_path@ == file_path@
                    &&& clock::writes_a_moment(final(self).rows@.last().created_at@)
                    &&& !table::has_key(
                        off_position(old(self).rows@, position),
                        final(self).rows@.last().id@,
                    )
                },
                Err(CrabError::InvalidCartPosition(p)) => p == position && !on_wall(position)
                    && final(self).rows@ == old(self).rows@,
                Err(CrabError::Database(_)) => on_wall(position) && off_position(
                    old(self).rows@,
                    position,
                ).len() > 0 && final(self).rows@ == old(self).rows@,
                Err(_) => false,
            },
    {
        self.assign_with(fresh_id(), now(), position, label, file_path)
    }

    /// Overwrite label and file of the pad at a position; nothing happens
    /// where there is none.
    pub fn update(&mut self, position: i32, label: &str, file_path: &str) -> (r: Result<
        (),
        CrabError,
    >)
        requires
            old(self).wf(),
        ensures
            r is Ok,
            final(self).wf(),
            final(self).rows@.len() == old(self).rows@.len(),
            forall|i: int|
                0 <= i < old(self).rows@.len() ==> if old(self).rows@[i].position == position {
                    (#[trigger] final(self).rows@[i])@ == (CartView {
                        label: label@,
                        file_path: file_path@,
                        ..old(self).rows@[i]@
                    })
                } else {
                    final(self).rows@[i] == old(self).rows@[i]
                },
    {
        let mut i: usize = 0;
        while i < self.rows.len()
            invariant
                i <= self.rows.len(),
                self.rows@.len() == old(self).rows@.len(),
                forall|j: int|
                    i <= j < old(self).rows@.len() ==> #[trigger] self.rows@[j] == old(self).rows@[j],
                forall|j: int|
                    0 <= j < i ==> if old(self).rows@[j].position == position {
                        (#[trigger] self.rows@[j])@ == (CartView {
                            label: label@,
                            file_path: file_path@,
                            ..old(self).rows@[j]@
                        })
                    } else {
                        self.rows@[j] == old(self).rows@[j]
                    },
            decreases self.rows.len() - i,
        {
            if self.rows[i].position == position {
                let row = self.rows[i].clone();
                self.rows.set(
                    i,
                    StoredCart {
                        id: row.id,
                        label: label.to_owned(),
                        file_path: file_path.to_owned(),
                        position: row.position,
                        created_at: row.created_at,
                    },
                );
            }
            i = i + 1;
        }
        assert forall|i: int, j: int| 0 <= i < j < self.rows@.len() implies (
        #[trigger] self.rows@[i]).key() != (#[trigger] self.rows@[j]).key()
            && self.rows@[i].position != self.rows@[j].position by {
            assert(old(self).rows@[i].key() != old(self).rows@[j].key());
            assert(old(self).rows@[i].position != old(self).rows@[j].position);
            assert(self.rows@[i]@.id == old(self).rows@[i]@.id);
            assert(self.rows@[j]@.id == old(self).rows@[j]@.id);
            assert(self.rows@[i]@.position == old(self).rows@[i]@.position);
            assert(self.rows@[j]@.position == old(self).rows@[j]@.position);
        }
        Ok(())
    }
}

proof fn lemma_without_positions(rows: Seq<StoredCart>, id: Seq<char>)
    ensures
        distinct_positions(rows) ==> distinct_positions(table::without_key(rows, id)),
    decreases rows.len(),
{
    reveal(Seq::filter);
    let left = table::without_key(rows, id);
    if rows.len() > 0 {
        let front = rows.drop_last();
        lemma_without_positions(front, id);
        table::removal_leaves_the_rest(front, id);
        let before = table::without_key(front, id);
        if distinct_positions(rows) {
            assert(distinct_positions(front)) by {
                assert forall|i: int, j: int| 0 <= i < j < front.len() implies (
                #[trigger] front[i]).position != (#[trigger] front[j]).position by {
                    assert(rows[i].position != rows[j].position);
                }
            }
            assert forall|i: int, j: int| 0 <= i < j < left.len() implies (
            #[trigger] left[i]).position != (#[trigger] left[j]).position by {
                assert(left[i] == before[i]);
                if j < before.len() {
                    assert(left[j] == before[j]);
                } else {
                    assert(front.contains(before[i]));
                    let n = choose|n: int| 0 <= n < front.len() && front[n] == before[i];
                    assert(rows[n].position != rows[rows.len() - 1].position);
                }
            }
        }
    }
}

/// A pad holds what was assigned to it last: of two assignments to one
/// position the earlier leaves no trace.
pub proof fn last_assignment_wins(
    start: Seq<StoredCart>,
    first: StoredCart,
    second: StoredCart,
)
    requires
        first.position == second.position,
    ensures
        off_position(
            off_position(start, first.position).push(first),
            second.position,
        ).push(second) == off_position(start, second.position).push(second),
{
    reveal(Seq::filter);
    let a = off_position(start, first.position);
    assert(a.push(first).drop_last() =~= a);
    lemma_off_position(start, first.position);
    lemma_off_position(a, first.position);
}

/// The wall has eight places.
pub proof fn the_wall_has_eight_places(position: i32)
    ensures
        on_wall(position) <==> 0 <= position && position < 8,
{
}

/// A pad that is appended stands behind all others, and first on an empty wall.
pub proof fn new_pads_come_last(rows: Seq<StoredCart>)
    requires
        forall|i: int| 0 <= i < rows.len() ==> (#[trigger] rows[i]).position < i32::MAX,
    ensures
        rows.len() == 0 ==> next_position(rows) == 0,
        top_position(rows) < i32::MAX,
        forall|i: int| 0 <= i < rows.len() ==> (#[trigger] rows[i]).position < next_position(rows),
        rows.len() > 0 ==> exists|i: int|
            0 <= i < rows.len() && (#[trigger] rows[i]).position + 1 == next_position(rows),
    decreases rows.len(),
{
    if rows.len() > 0 {
        let front = rows.drop_last();
        assert forall|i: int| 0 <= i < front.len() implies (#[trigger] front[i]).position < i32::MAX by {
            assert(front[i] == rows[i]);
        }
        new_pads_come_last(front);
        assert(rows.last() == rows[rows.len() - 1]);
        assert forall|i: int| 0 <= i < rows.len() implies (#[trigger] rows[i]).position
            <= top_position(rows) by {
            if i < front.len() {
                assert(front[i] == rows[i]);
            }
        }
        if top_position(rows) != rows.last().position {
            let i = choose|i: int|
                0 <= i < front.len() && (#[trigger] front[i]).position + 1 == next_position(front);
            assert(rows[i].position == top_position(rows));
        } else {
            assert(rows[rows.len() - 1].position == top_position(rows));
        }
    }
}

/// Pads are listed from the lowest position to the highest, each of them once.
pub proof fn pads_are_listed_by_position(rows: Seq<StoredCart>, i: int, j: int)
    requires
        0 <= i < j < listed_carts(rows).len(),
    ensures
        listed_carts(rows).len() == rows.len(),
        listed_carts(rows)[i].position <= listed_carts(rows)[j].position,
        rank::ranked(ByPosition, rows).to_multiset() == rows.to_multiset(),
        listed_carts(rows)[i].label == rank::ranked(ByPosition, rows)[i].label,
        listed_carts(rows)[i].file_path == rank::ranked(ByPosition, rows)[i].file_path,
{
    rank::ranking_orders(ByPosition, rows);
    let r = rank::ranked(ByPosition, rows);
    assert(!ByPosition.before(r[j], r[i]));
}

/// Clearing a position takes away exactly the pads that stand at it.
pub proof fn clearing_takes_one_position(rows: Seq<StoredCart>, position: i32, c: StoredCart)
    ensures
        off_position(rows, position).contains(c) <==> rows.contains(c) && c.position != position,
{
    let other = |c: StoredCart| c.position != position;
    let left = rows.filter(other);
    if left.contains(c) {
        rows.lemma_filter_contains_rev(other, c);
        let i = choose|i: int| 0 <= i < left.len() && left[i] == c;
        rows.lemma_filter_pred(other, i);
    }
    if rows.contains(c) && c.position != position {
        let i = choose|i: int| 0 <= i < rows.len() && rows[i] == c;
        rows.lemma_filter_contains(other, i);
    }
}

} // verus!
