//! Stable ordering of records.

use vstd::prelude::*;

verus! {

/// An order of records: some come before others, ties are allowed.
pub trait Order<T>: Sized {
    /// The first record is strictly ahead of the second.
    spec fn before(self, a: T, b: T) -> bool;

    /// The relation is a strict weak order.
    proof fn is_weak_order(self, a: T, b: T, c: T)
        ensures
            !self.before(a, a),
            self.before(a, b) ==> !self.before(b, a),
            !self.before(b, a) && !self.before(c, b) ==> !self.before(c, a),
    ;

    /// Whether the first record is ahead of the second.
    fn is_ahead(&self, a: &T, b: &T) -> (r: bool)
        ensures
            r == self.before(*a, *b),
    ;
}

/// A ranked sequence with one more record, behind all that it is not ahead of.
pub open spec fn placed<T, O: Order<T>>(o: O, s: Seq<T>, x: T) -> Seq<T>
    decreases s.len(),
{
    if s.len() == 0 || !o.before(x, s.last()) {
        s.push(x)
    } else {
        placed(o, s.drop_last(), x).push(s.last())
    }
}

/// The records in order; those of equal rank stay as they came.
pub open spec fn ranked<T, O: Order<T>>(o: O, s: Seq<T>) -> Seq<T>
    decreases s.len(),
{
    if s.len() == 0 {
        s
    } else {
        placed(o, ranked(o, s.drop_last()), s.last())
    }
}

/// No record stands behind one that it is ahead of.
pub open spec fn in_order<T, O: Order<T>>(o: O, s: Seq<T>) -> bool {
    forall|i: int, j: int| 0 <= i < j < s.len() ==> !o.before(#[trigger] s[j], #[trigger] s[i])
}

proof fn lemma_placed<T, O: Order<T>>(o: O, s: Seq<T>, x: T)
    ensures
        placed(o, s, x).len() == s.len() + 1,
        placed(o, s, x).to_multiset() == s.to_multiset().insert(x),
        in_order(o, s) ==> in_order(o, placed(o, s, x)),
    decreases s.len(),
{
    broadcast use vstd::seq_lib::group_to_multiset_ensures;

    let p = placed(o, s, x);
    if s.len() == 0 || !o.before(x, s.last()) {
        if in_order(o, s) {
            assert forall|i: int, j: int| 0 <= i < j < p.len() implies !o.before(
                #[trigger] p[j],
                #[trigger] p[i],
            ) by {
                if j == s.len() {
                    o.is_weak_order(s[i], s.last(), x);
                    if i < s.len() - 1 {
                        assert(!o.before(s[s.len() - 1], s[i]));
                    }
                    o.is_weak_order(s.last(), x, x);
                }
            }
        }
    } else {
        let front = s.drop_last();
        lemma_placed(o, front, x);
        assert(s =~= front.push(s.last()));
        assert(p.to_multiset() =~= s.to_multiset().insert(x));
        if in_order(o, s) {
            assert(in_order(o, front)) by {
                assert forall|i: int, j: int| 0 <= i < j < front.len() implies !o.before(
                    #[trigger] front[j],
                    #[trigger] front[i],
                ) by {
                    assert(front[i] == s[i] && front[j] == s[j]);
                }
            }
            let q = placed(o, front, x);
            lemma_placed_members(o, front, x);
            assert forall|i: int, j: int| 0 <= i < j < p.len() implies !o.before(
                #[trigger] p[j],
                #[trigger] p[i],
            ) by {
                if j == p.len() - 1 {
                    assert(p[j] == s.last());
                    if q[i] == x {
                        o.is_weak_order(x, s.last(), x);
                    } else {
                        let k = choose|k: int| 0 <= k < front.len() && front[k] == q[i];
                        assert(s[k] == p[i]);
                        assert(!o.before(s[s.len() - 1], s[k]));
                    }
                } else {
                    assert(p[i] == q[i] && p[j] == q[j]);
                }
            }
        }
    }
}

proof fn lemma_placed_members<T, O: Order<T>>(o: O, s: Seq<T>, x: T)
    ensures
        placed(o, s, x).len() == s.len() + 1,
        forall|i: int|
            0 <= i < placed(o, s, x).len() ==> placed(o, s, x)[i] == x || exists|k: int|
                0 <= k < s.len() && s[k] == #[trigger] placed(o, s, x)[i],
    decreases s.len(),
{
    if s.len() == 0 || !o.before(x, s.last()) {
        let p = placed(o, s, x);
        assert forall|i: int| 0 <= i < p.len() implies p[i] == x || exists|k: int|
            0 <= k < s.len() && s[k] == #[trigger] p[i] by {
            if i < s.len() {
                assert(s[i] == p[i]);
            }
        }
    } else {
        let front = s.drop_last();
        lemma_placed_members(o, front, x);
        let p = placed(o, s, x);
        let q = placed(o, front, x);
        assert forall|i: int| 0 <= i < p.len() implies p[i] == x || exists|k: int|
            0 <= k < s.len() && s[k] == #[trigger] p[i] by {
            if i < q.len() {
                assert(p[i] == q[i]);
                if q[i] != x {
                    let k = choose|k: int| 0 <= k < front.len() && front[k] == q[i];
                    assert(s[k] == p[i]);
                }
            } else {
                assert(s[s.len() - 1] == p[i]);
            }
        }
    }
}

/// Ordering loses and adds no record, and leaves none behind one that it is
/// ahead of.
pub proof fn ranking_orders<T, O: Order<T>>(o: O, s: Seq<T>)
    ensures
        ranked(o, s).len() == s.len(),
        ranked(o, s).to_multiset() == s.to_multiset(),
        in_order(o, ranked(o, s)),
    decreases s.len(),
{
    broadcast use vstd::seq_lib::group_to_multiset_ensures;

    if s.len() > 0 {
        ranking_orders(o, s.drop_last());
        lemma_placed(o, ranked(o, s.drop_last()), s.last());
        assert(s =~= s.drop_last().push(s.last()));
    }
}

/// Records that are in order already stay where they are.
pub proof fn ranking_keeps_order<T, O: Order<T>>(o: O, s: Seq<T>)
    requires
        in_order(o, s),
    ensures
        ranked(o, s) == s,
    decreases s.len(),
{
    if s.len() > 0 {
        let front = s.drop_last();
        assert forall|i: int, j: int| 0 <= i < j < front.len() implies !o.before(
            #[trigger] front[j],
            #[trigger] front[i],
        ) by {
            assert(front[i] == s[i] && front[j] == s[j]);
        }
        ranking_keeps_order(o, front);
        assert(s =~= front.push(s.last()));
        if front.len() > 0 {
            assert(!o.before(s[s.len() - 1], s[s.len() - 2]));
        }
    }
}

/// A record of an ordered sequence is a record of the sequence, and the other
/// way round.
pub proof fn ranking_keeps_members<T, O: Order<T>>(o: O, s: Seq<T>, x: T)
    ensures
        ranked(o, s).contains(x) == s.contains(x),
{
    ranking_orders(o, s);
    broadcast use vstd::seq_lib::group_to_multiset_ensures;

    assert(ranked(o, s).to_multiset().count(x) > 0 <==> s.to_multiset().count(x) > 0);
}

/// Neither record is ahead of the other.
pub open spec fn level<T, O: Order<T>>(o: O, a: T, b: T) -> bool {
    !o.before(a, b) && !o.before(b, a)
}

/// Two orderings of the same records hold records of equal rank at each place.
pub proof fn orderings_are_level<T, O: Order<T>>(o: O, a: Seq<T>, b: Seq<T>, i: int)
    requires
        in_order(o, a),
        in_order(o, b),
        a.to_multiset() == b.to_multiset(),
        0 <= i < a.len(),
    ensures
        a.len() == b.len(),
        level(o, a[i], b[i]),
    decreases a.len(),
{
    broadcast use vstd::seq_lib::group_to_multiset_ensures;

    let n = a.len();
    assert(a.len() == a.to_multiset().len() && b.len() == b.to_multiset().len());
    let x = a.last();
    assert(a[n - 1] == x);
    assert(a.contains(x));
    assert(b.to_multiset().count(x) > 0);
    let k = choose|k: int| 0 <= k < n && b[k] == x;
    // The last record of the one is ahead of none in the other.
    assert forall|j: int| 0 <= j < n implies !o.before(x, #[trigger] b[j]) by {
        assert(b.contains(b[j]));
        assert(a.to_multiset().count(b[j]) > 0);
        let m = choose|m: int| 0 <= m < n && a[m] == b[j];
        o.is_weak_order(x, x, x);
        if m < n - 1 {
            assert(!o.before(a[n - 1], a[m]));
        }
    }
    if i == n - 1 {
        o.is_weak_order(x, x, x);
        if k < n - 1 {
            assert(!o.before(b[n - 1], b[k]));
        }
    } else {
        let front = a.drop_last();
        let rest = b.remove(k);
        assert(a =~= front.push(x));
        assert(a.to_multiset() == front.to_multiset().insert(x));
        assert(rest.to_multiset() == b.to_multiset().remove(b[k]));
        assert(front.to_multiset() =~= rest.to_multiset());
        assert forall|p: int, q: int| 0 <= p < q < front.len() implies !o.before(
            #[trigger] front[q],
            #[trigger] front[p],
        ) by {
            assert(front[p] == a[p] && front[q] == a[q]);
        }
        assert forall|p: int, q: int| 0 <= p < q < rest.len() implies !o.before(
            #[trigger] rest[q],
            #[trigger] rest[p],
        ) by {
            let u = if p < k { p } else { p + 1 };
            let v = if q < k { q } else { q + 1 };
            assert(rest[p] == b[u] && rest[q] == b[v]);
        }
        orderings_are_level(o, front, rest, i);
        assert(front[i] == a[i]);
        if i < k {
            assert(rest[i] == b[i]);
        } else {
            assert(rest[i] == b[i + 1]);
            assert(!o.before(b[i + 1], b[i]));
            o.is_weak_order(x, x, x);
            if k < i {
                assert(!o.before(b[i], b[k]));
            }
            o.is_weak_order(b[i + 1], x, b[i]);
            o.is_weak_order(a[i], b[i + 1], b[i]);
            o.is_weak_order(b[i], b[i + 1], a[i]);
        }
    }
}

/// Records of which no two are of equal rank have one order.
pub proof fn strict_order_is_unique<T, O: Order<T>>(o: O, a: Seq<T>, b: Seq<T>)
    requires
        in_order(o, a),
        in_order(o, b),
        a.to_multiset() == b.to_multiset(),
        forall|i: int, j: int|
            0 <= i < a.len() && 0 <= j < a.len() && level(o, #[trigger] a[i], #[trigger] a[j]) ==> a[i]
                == a[j],
    ensures
        a == b,
{
    broadcast use vstd::seq_lib::group_to_multiset_ensures;

    assert(a.len() == a.to_multiset().len() && b.len() == b.to_multiset().len());
    assert forall|i: int| 0 <= i < a.len() implies a[i] == b[i] by {
        orderings_are_level(o, a, b, i);
        assert(b.contains(b[i]));
        assert(a.to_multiset().count(b[i]) > 0);
        let j = choose|j: int| 0 <= j < a.len() && a[j] == b[i];
        assert(level(o, a[i], a[j]));
    }
    assert(a =~= b);
}

/// Cut where the rank changes, two orderings of the same records have the same
/// records in front.
pub proof fn fronts_are_the_same<T, O: Order<T>>(o: O, a: Seq<T>, b: Seq<T>, c: int)
    requires
        in_order(o, a),
        in_order(o, b),
        a.to_multiset() == b.to_multiset(),
        0 <= c <= a.len(),
        0 < c < a.len() ==> o.before(a[c - 1], a[c]),
    ensures
        a.len() == b.len(),
        a.take(c).to_multiset() == b.take(c).to_multiset(),
{
    broadcast use vstd::seq_lib::group_to_multiset_ensures;

    let n = a.len();
    assert(a.len() == a.to_multiset().len() && b.len() == b.to_multiset().len());
    if c == 0 {
        assert(a.take(c) =~= b.take(c));
    } else if c == n {
        assert(a.take(c) =~= a);
        assert(b.take(c) =~= b);
    } else {
        let p = a[c - 1];
        vstd::seq_lib::lemma_multiset_commutative(a.take(c), a.skip(c));
        vstd::seq_lib::lemma_multiset_commutative(b.take(c), b.skip(c));
        assert(a =~= a.take(c) + a.skip(c));
        assert(b =~= b.take(c) + b.skip(c));
        assert forall|i: int| 0 <= i < c implies !o.before(p, #[trigger] a[i]) && !o.before(
            p,
            #[trigger] b[i],
        ) by {
            o.is_weak_order(p, p, p);
            if i < c - 1 {
                assert(!o.before(a[c - 1], a[i]));
            }
            orderings_are_level(o, a, b, i);
            o.is_weak_order(b[i], a[i], p);
        }
        assert forall|j: int| c <= j < n implies o.before(p, #[trigger] a[j]) && o.before(
            p,
            #[trigger] b[j],
        ) by {
            o.is_weak_order(a[c], a[c], a[c]);
            if c < j {
                assert(!o.before(a[j], a[c]));
            }
            o.is_weak_order(a[c], a[j], p);
            orderings_are_level(o, a, b, j);
            o.is_weak_order(a[j], b[j], p);
        }
        assert forall|x: T| a.take(c).to_multiset().count(x) == b.take(c).to_multiset().count(x) by {
            if o.before(p, x) {
                if a.take(c).contains(x) {
                    let i = choose|i: int| 0 <= i < c && a.take(c)[i] == x;
                    assert(a[i] == x && !o.before(p, b[i]));
                }
                if b.take(c).contains(x) {
                    let i = choose|i: int| 0 <= i < c && b.take(c)[i] == x;
                    assert(b[i] == x && !o.before(p, a[i]));
                }
            } else {
                if a.skip(c).contains(x) {
                    let j = choose|j: int| 0 <= j < n - c && a.skip(c)[j] == x;
                    assert(a[c + j] == x && o.before(p, b[c + j]));
                }
                if b.skip(c).contains(x) {
                    let j = choose|j: int| 0 <= j < n - c && b.skip(c)[j] == x;
                    assert(b[c + j] == x && o.before(p, a[c + j]));
                }
                assert(a.skip(c).to_multiset().count(x) == 0);
                assert(b.skip(c).to_multiset().count(x) == 0);
            }
            assert(a.to_multiset().count(x) == a.take(c).to_multiset().count(x)
                + a.skip(c).to_multiset().count(x));
            assert(b.to_multiset().count(x) == b.take(c).to_multiset().count(x)
                + b.skip(c).to_multiset().count(x));
        }
        assert(a.take(c).to_multiset() =~= b.take(c).to_multiset());
    }
}

proof fn lemma_placed_at<T, O: Order<T>>(o: O, s: Seq<T>, x: T, at: int)
    requires
        0 <= at <= s.len(),
        at == 0 || !o.before(x, s[at - 1]),
        forall|k: int| at <= k < s.len() ==> o.before(x, #[trigger] s[k]),
    ensures
        placed(o, s, x) == s.insert(at, x),
    decreases s.len(),
{
    if at == s.len() {
        assert(s.insert(at, x) =~= s.push(x));
    } else {
        assert(o.before(x, s[s.len() - 1]));
        let front = s.drop_last();
        lemma_placed_at(o, front, x, at);
        assert(s.insert(at, x) =~= front.insert(at, x).push(s.last()));
    }
}

/// Put the records in order; those of equal rank stay as they came.
pub fn rank<T, O: Order<T>>(o: O, v: Vec<T>) -> (r: Vec<T>)
    ensures
        r@ == ranked(o, v@),
{
    let mut rest = v;
    let mut back: Vec<T> = Vec::new();
    let ghost all = rest@;
    while rest.len() > 0
        invariant
            rest@ + back@.reverse() == all,
        decreases rest.len(),
    {
        let ghost was = rest@;
        let x = rest.pop();
        match x {
            Some(t) => {
                let ghost tail = back@;
                back.push(t);
                assert(back@.reverse() =~= seq![t] + tail.reverse());
                assert(was =~= rest@.push(t));
                assert(rest@ + back@.reverse() =~= was + tail.reverse());
            },
            None => {},
        }
    }
    assert(back@.reverse() =~= all);
    assert(all =~= v@);
    let mut out: Vec<T> = Vec::new();
    let ghost mut taken: int = 0;
    assert(all.subrange(0, 0) =~= out@);
    while back.len() > 0
        invariant
            0 <= taken <= all.len(),
            back.len() == all.len() - taken,
            back@.reverse() == all.skip(taken),
            out@ == ranked(o, all.subrange(0, taken)),
        decreases back.len(),
    {
        let ghost tail = back@;
        let x = back.pop();
        match x {
            Some(t) => {
                assert(t == all[taken]) by {
                    assert(tail.reverse()[0] == t);
                    assert(all.skip(taken)[0] == all[taken]);
                }
                assert(back@.reverse() =~= all.skip(taken + 1)) by {
                    assert forall|k: int| 0 <= k < back.len() implies back@.reverse()[k] == all.skip(
                        taken + 1,
                    )[k] by {
                        assert(tail.reverse()[k + 1] == all.skip(taken)[k + 1]);
                    }
                }
                let mut at: usize = out.len();
                while at > 0 && o.is_ahead(&t, &out[at - 1])
                    invariant
                        at <= out.len(),
                        forall|k: int| at <= k < out.len() ==> o.before(t, #[trigger] out@[k]),
                    decreases at,
                {
                    at = at - 1;
                }
                proof {
                    lemma_placed_at(o, out@, t, at as int);
                    assert(all.subrange(0, taken + 1).drop_last() =~= all.subrange(0, taken));
                    taken = taken + 1;
                }
                out.insert(at, t);
            },
            None => {},
        }
    }
    assert(all.subrange(0, taken) =~= v@);
    out
}

} // verus!
