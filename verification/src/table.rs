//! Tables of records under unique keys.

use vstd::prelude::*;

verus! {

/// A record that is found by its key.
pub trait Keyed: Sized {
    /// The key of the record.
    spec fn key(self) -> Seq<char>;

    /// Whether the record has this key.
    fn key_is(&self, id: &str) -> (r: bool)
        ensures
            r == (self.key() == id@),
    ;

    /// The same record once more.
    fn duplicate(&self) -> (r: Self)
        ensures
            r == *self,
    ;
}

/// Some record has this key.
pub open spec fn has_key<T: Keyed>(rows: Seq<T>, id: Seq<char>) -> bool {
    exists|i: int| 0 <= i < rows.len() && (#[trigger] rows[i]).key() == id
}

/// No two records share a key.
pub open spec fn distinct_keys<T: Keyed>(rows: Seq<T>) -> bool {
    forall|i: int, j: int|
        0 <= i < j < rows.len() ==> (#[trigger] rows[i]).key() != (#[trigger] rows[j]).key()
}

/// The records with another key, in their order.
pub open spec fn without_key<T: Keyed>(rows: Seq<T>, id: Seq<char>) -> Seq<T> {
    rows.filter(|row: T| row.key() != id)
}

/// The index of the first record with this key.
pub fn find_key<T: Keyed>(rows: &Vec<T>, id: &str) -> (r: Option<usize>)
    ensures
        match r {
            Some(i) => i < rows@.len() && rows@[i as int].key() == id@ && (forall|j: int|
                0 <= j < i ==> (#[trigger] rows@[j]).key() != id@),
            None => !has_key(rows@, id@),
        },
{
    let mut i: usize = 0;
    while i < rows.len()
        invariant
            i <= rows.len(),
            forall|j: int| 0 <= j < i ==> (#[trigger] rows@[j]).key() != id@,
        decreases rows.len() - i,
    {
        if rows[i].key_is(id) {
            return Some(i);
        }
        i = i + 1;
    }
    None
}

/// All records once more.
pub fn copy_all<T: Keyed>(rows: &Vec<T>) -> (r: Vec<T>)
    ensures
        r@ == rows@,
{
    let mut out: Vec<T> = Vec::new();
    let mut i: usize = 0;
    while i < rows.len()
        invariant
            i <= rows.len(),
            out@ == rows@.subrange(0, i as int),
        decreases rows.len() - i,
    {
        out.push(rows[i].duplicate());
        i = i + 1;
        assert(out@ =~= rows@.subrange(0, i as int));
    }
    assert(out@ =~= rows@);
    out
}

/// What is left of a table after the removal of a key: every record left was
/// there before, the key is gone, and keys stay distinct.
pub proof fn removal_leaves_the_rest<T: Keyed>(rows: Seq<T>, id: Seq<char>)
    ensures
        !has_key(without_key(rows, id), id),
        forall|k: int|
            0 <= k < without_key(rows, id).len() ==> rows.contains(
                #[trigger] without_key(rows, id)[k],
            ),
        forall|row: T|
            #[trigger] rows.contains(row) && row.key() != id ==> without_key(rows, id).contains(row),
        distinct_keys(rows) ==> distinct_keys(without_key(rows, id)),
        !has_key(rows, id) ==> without_key(rows, id) == rows,
    decreases rows.len(),
{
    reveal(Seq::filter);
    let left = without_key(rows, id);
    if rows.len() > 0 {
        let front = rows.drop_last();
        let last = rows.last();
        removal_leaves_the_rest(front, id);
        let before = without_key(front, id);
        assert(rows =~= front.push(last));
        assert forall|k: int| 0 <= k < left.len() implies rows.contains(#[trigger] left[k])
            && left[k].key() != id by {
            if k < before.len() {
                assert(left[k] == before[k]);
                assert(front.contains(before[k]));
                let n = choose|n: int| 0 <= n < front.len() && front[n] == before[k];
                assert(rows[n] == left[k]);
            } else {
                assert(rows[rows.len() - 1] == left[k]);
            }
        }
        assert forall|row: T| #[trigger] rows.contains(row) && row.key() != id implies left.contains(
            row,
        ) by {
            let n = choose|n: int| 0 <= n < rows.len() && rows[n] == row;
            if n < front.len() {
                assert(front[n] == row);
                assert(front.contains(row));
                let k = choose|k: int| 0 <= k < before.len() && before[k] == row;
                assert(left[k] == row);
            } else {
                assert(left[left.len() - 1] == row);
            }
        }
        if distinct_keys(rows) {
            assert(distinct_keys(front)) by {
                assert forall|i: int, j: int| 0 <= i < j < front.len() implies (
                #[trigger] front[i]).key() != (#[trigger] front[j]).key() by {
                    assert(rows[i].key() != rows[j].key());
                }
            }
            assert forall|i: int, j: int| 0 <= i < j < left.len() implies (
            #[trigger] left[i]).key() != (#[trigger] left[j]).key() by {
                if j < before.len() {
                    assert(left[i] == before[i] && left[j] == before[j]);
                } else {
                    assert(left[i] == before[i]);
                    let n = choose|n: int| 0 <= n < front.len() && front[n] == before[i];
                    assert(rows[n].key() != rows[rows.len() - 1].key());
                }
            }
        }
        if !has_key(rows, id) {
            assert(rows[rows.len() - 1].key() != id);
            assert forall|i: int| 0 <= i < front.len() implies (#[trigger] front[i]).key() != id by {
                assert(rows[i].key() != id);
            }
        }
    } else {
        assert(left =~= rows);
    }
}

/// Remove every record with a key.
pub fn remove_key<T: Keyed>(rows: &mut Vec<T>, id: &str)
    ensures
        final(rows)@ == without_key(old(rows)@, id@),
{
    let ghost keep = |row: T| row.key() != id@;
    let mut kept: Vec<T> = Vec::new();
    let mut i: usize = 0;
    proof {
        reveal(Seq::filter);
        assert(rows@.subrange(0, 0).filter(keep) =~= kept@);
    }
    while i < rows.len()
        invariant
            i <= rows.len(),
            rows@ == old(rows)@,
            keep == (|row: T| row.key() != id@),
            kept@ == rows@.subrange(0, i as int).filter(keep),
        decreases rows.len() - i,
    {
        proof {
            reveal(Seq::filter);
            assert(rows@.subrange(0, i + 1).drop_last() =~= rows@.subrange(0, i as int));
        }
        if !rows[i].key_is(id) {
            kept.push(rows[i].duplicate());
        }
        i = i + 1;
    }
    assert(rows@.subrange(0, i as int) =~= old(rows)@);
    *rows = kept;
}

/// The records that pass a test, moved out in their order.
pub open spec fn chosen<T>(rows: Seq<T>, test: Seq<bool>) -> Seq<T>
    decreases rows.len(),
{
    if rows.len() == 0 {
        rows
    } else if test[rows.len() - 1] {
        chosen(rows.drop_last(), test).push(rows.last())
    } else {
        chosen(rows.drop_last(), test)
    }
}

proof fn lemma_chosen_is_filter<T>(rows: Seq<T>, test: Seq<bool>, pred: spec_fn(T) -> bool, n: int)
    requires
        0 <= n <= rows.len() <= test.len(),
        forall|i: int| 0 <= i < rows.len() ==> #[trigger] test[i] == pred(rows[i]),
    ensures
        chosen(rows.subrange(0, n), test) == rows.subrange(0, n).filter(pred),
    decreases n,
{
    reveal(Seq::filter);
    if n > 0 {
        lemma_chosen_is_filter(rows, test, pred, n - 1);
        assert(rows.subrange(0, n).drop_last() =~= rows.subrange(0, n - 1));
    } else {
        assert(rows.subrange(0, n) =~= Seq::empty());
    }
}

/// Choosing by the outcomes of a test is filtering by the test.
pub proof fn choosing_is_filtering<T>(rows: Seq<T>, test: Seq<bool>, pred: spec_fn(T) -> bool)
    requires
        rows.len() == test.len(),
        forall|i: int| 0 <= i < rows.len() ==> #[trigger] test[i] == pred(rows[i]),
    ensures
        chosen(rows, test) == rows.filter(pred),
{
    lemma_chosen_is_filter(rows, test, pred, rows.len() as int);
    assert(rows.subrange(0, rows.len() as int) =~= rows);
}

/// Move the records that pass a test out of a vector, in their order.
pub fn choose_rows<T>(v: Vec<T>, test: &Vec<bool>) -> (r: Vec<T>)
    requires
        v@.len() == test@.len(),
    ensures
        r@ == chosen(v@, test@),
{
    let mut rest = v;
    let ghost all = rest@;
    let mut back: Vec<T> = Vec::new();
    while rest.len() > 0
        invariant
            rest@.len() <= all.len() == test@.len(),
            rest@ == all.subrange(0, rest@.len() as int),
            chosen(rest@, test@) + back@.reverse() == chosen(all, test@),
        decreases rest.len(),
    {
        let ghost was = rest@;
        let ghost tail = back@;
        let n: usize = rest.len() - 1;
        let x = rest.pop();
        assert(was.drop_last() =~= rest@);
        assert(rest@ =~= all.subrange(0, rest@.len() as int));
        match x {
            Some(t) => {
                if test[n] {
                    back.push(t);
                    assert(back@.reverse() =~= seq![t] + tail.reverse());
                    assert(chosen(rest@, test@) + back@.reverse() =~= chosen(was, test@)
                        + tail.reverse());
                }
            },
            None => {},
        }
    }
    assert(back@.reverse() =~= chosen(all, test@));
    assert(all =~= v@);
    turned(back)
}

/// The records in reverse order.
pub(crate) fn turned<T>(v: Vec<T>) -> (r: Vec<T>)
    ensures
        r@ == v@.reverse(),
{
    let mut rest = v;
    let mut out: Vec<T> = Vec::new();
    let ghost whole = rest@.reverse();
    while rest.len() > 0
        invariant
            out@ + rest@.reverse() == whole,
        decreases rest.len(),
    {
        let ghost was = rest@;
        let ghost head = out@;
        let x = rest.pop();
        match x {
            Some(t) => {
                out.push(t);
                assert(was.reverse() =~= seq![t] + rest@.reverse());
                assert(out@ + rest@.reverse() =~= head + was.reverse());
            },
            None => {},
        }
    }
    assert(out@ =~= whole);
    out
}

} // verus!
