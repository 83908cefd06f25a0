//! Interleaved stereo and its two channels.

use vstd::prelude::*;

verus! {

/// The samples at even places of an interleaved chunk.
pub open spec fn evens<T>(s: Seq<T>) -> Seq<T>
    decreases s.len(),
{
    if s.len() == 0 {
        s
    } else if (s.len() - 1) % 2 == 0 {
        evens(s.drop_last()).push(s.last())
    } else {
        evens(s.drop_last())
    }
}

/// The samples at odd places of an interleaved chunk.
pub open spec fn odds<T>(s: Seq<T>) -> Seq<T>
    decreases s.len(),
{
    if s.len() == 0 {
        s
    } else if (s.len() - 1) % 2 == 1 {
        odds(s.drop_last()).push(s.last())
    } else {
        odds(s.drop_last())
    }
}

/// Two channels, one sample of each in turn.
pub open spec fn woven<T>(left: Seq<T>, right: Seq<T>, n: nat) -> Seq<T>
    decreases n,
{
    if n == 0 {
        Seq::empty()
    } else {
        woven(left, right, (n - 1) as nat).push(left[n - 1]).push(right[n - 1])
    }
}

/// Staging a chunk and then another is staging both together, as long as the
/// first does not break a pair: however the program is cut up, no sample is
/// lost or moved to the other channel.
pub proof fn chunks_add_up<T>(a: Seq<T>, b: Seq<T>)
    requires
        a.len() % 2 == 0,
    ensures
        evens(a + b) == evens(a) + evens(b),
        odds(a + b) == odds(a) + odds(b),
        evens(a).len() == a.len() / 2,
        odds(a).len() == a.len() / 2,
    decreases b.len(),
{
    lemma_halves(a);
    if b.len() == 0 {
        assert(a + b =~= a);
        assert(evens(a) + evens(b) =~= evens(a));
        assert(odds(a) + odds(b) =~= odds(a));
    } else {
        chunks_add_up(a, b.drop_last());
        assert((a + b).drop_last() =~= a + b.drop_last());
        assert(evens(a + b) =~= evens(a) + evens(b));
        assert(odds(a + b) =~= odds(a) + odds(b));
    }
}

proof fn lemma_halves<T>(s: Seq<T>)
    ensures
        evens(s).len() == (s.len() + 1) / 2,
        odds(s).len() == s.len() / 2,
    decreases s.len(),
{
    if s.len() > 0 {
        lemma_halves(s.drop_last());
    }
}

proof fn lemma_woven_front<T>(left: Seq<T>, right: Seq<T>, a: T, b: T, n: nat)
    requires
        n <= left.len(),
        n <= right.len(),
    ensures
        woven(left.push(a), right.push(b), n) == woven(left, right, n),
    decreases n,
{
    if n > 0 {
        lemma_woven_front(left, right, a, b, (n - 1) as nat);
    }
}

/// What was dealt to two channels and is interleaved again is the program as
/// it came.
pub proof fn channels_weave_back<T>(s: Seq<T>)
    requires
        s.len() % 2 == 0,
    ensures
        woven(evens(s), odds(s), s.len() / 2) == s,
    decreases s.len(),
{
    if s.len() >= 2 {
        let u = s.drop_last();
        let t = u.drop_last();
        channels_weave_back(t);
        lemma_halves(t);
        assert(s.len() >= 2);
        assert(evens(s) == evens(u) && odds(s) == odds(u).push(s.last()));
        assert(evens(u) == evens(t).push(u.last()) && odds(u) == odds(t));
        assert(evens(s) == evens(t).push(u.last()));
        assert(odds(s) == odds(t).push(s.last()));
        lemma_woven_front(evens(t), odds(t), u.last(), s.last(), t.len() / 2);
        assert(t.push(u.last()).push(s.last()) =~= s);
    }
}

/// Deal interleaved samples to two channels.
pub fn deal<T: Copy>(left: &mut Vec<T>, right: &mut Vec<T>, interleaved: &[T])
    ensures
        final(left)@ == old(left)@ + evens(interleaved@),
        final(right)@ == old(right)@ + odds(interleaved@),
{
    let mut i: usize = 0;
    assert(interleaved@.subrange(0, 0) =~= Seq::empty());
    assert(left@ + evens(interleaved@.subrange(0, 0)) =~= left@);
    assert(right@ + odds(interleaved@.subrange(0, 0)) =~= right@);
    while i < interleaved.len()
        invariant
            i <= interleaved@.len(),
            left@ == old(left)@ + evens(interleaved@.subrange(0, i as int)),
            right@ == old(right)@ + odds(interleaved@.subrange(0, i as int)),
        decreases interleaved@.len() - i,
    {
        assert(interleaved@.subrange(0, i + 1).drop_last() =~= interleaved@.subrange(0, i as int));
        if i % 2 == 0 {
            left.push(interleaved[i]);
        } else {
            right.push(interleaved[i]);
        }
        i = i + 1;
        assert(left@ =~= old(left)@ + evens(interleaved@.subrange(0, i as int)));
        assert(right@ =~= old(right)@ + odds(interleaved@.subrange(0, i as int)));
    }
    assert(interleaved@.subrange(0, i as int) =~= interleaved@);
}

/// Take the first items of a queue.
pub fn take_front<T>(v: &mut Vec<T>, n: usize) -> (front: Vec<T>)
    requires
        n <= old(v)@.len(),
    ensures
        front@.len() == n,
        front@ + final(v)@ == old(v)@,
{
    let rest = v.split_off(n);
    let mut front: Vec<T> = Vec::new();
    front.append(v);
    *v = rest;
    assert(front@ + v@ =~= old(v)@);
    front
}

/// The left channel is every second sample from the first on, the right one
/// every second from the second on, and weaving puts them back there.
pub proof fn samples_take_turns<T>(s: Seq<T>, left: Seq<T>, right: Seq<T>, n: nat, i: int)
    requires
        0 <= i,
    ensures
        2 * i < s.len() ==> i < evens(s).len() && evens(s)[i] == s[2 * i],
        2 * i + 1 < s.len() ==> i < odds(s).len() && odds(s)[i] == s[2 * i + 1],
        evens(s).len() == (s.len() + 1) / 2,
        odds(s).len() == s.len() / 2,
        woven(left, right, n).len() == 2 * n,
        i < n ==> woven(left, right, n)[2 * i] == left[i] && woven(left, right, n)[2 * i + 1] == right[i],
    decreases s.len() + n,
{
    if s.len() > 0 {
        samples_take_turns(s.drop_last(), left, right, n, i);
    } else if n > 0 {
        samples_take_turns(s, left, right, (n - 1) as nat, i);
    }
}

} // verus!
