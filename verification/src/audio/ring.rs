//! Samples on their way between two threads. A sample is the bit pattern of a
//! 32-bit float.

use vstd::prelude::*;

use crate::audio::capture::excess;
use crate::audio::mic::MIC_RING_SAMPLES;
use crate::stream::sender::{batch_frames, DRAIN_FRAMES};

verus! {

/// The end of a ring that samples go in at.
#[verifier::external_type_specification]
#[verifier::external_body]
#[verifier::reject_recursive_types(T)]
pub struct ExProducer<T>(rtrb::Producer<T>);

/// The end of a ring that samples come out at.
#[verifier::external_type_specification]
#[verifier::external_body]
#[verifier::reject_recursive_types(T)]
pub struct ExConsumer<T>(rtrb::Consumer<T>);

/// Everything that went in at one end, in order.
pub uninterp spec fn sent(p: rtrb::Producer<u32>) -> Seq<u32>;

/// Everything that came out at one end, in order.
pub uninterp spec fn taken(c: rtrb::Consumer<u32>) -> Seq<u32>;

/// The free slots that one end knows of: those of its last look, less what
/// went in since.
pub uninterp spec fn room(p: rtrb::Producer<u32>) -> nat;

/// The waiting samples that one end knows of: those of its last look, less
/// what came out since.
pub uninterp spec fn ready(c: rtrb::Consumer<u32>) -> nat;

/// Look for free slots: `rtrb::Producer::slots`. The other end may free more
/// at any time, so nothing is said of the number but that it is known from
/// then on.
#[verifier::external_body]
fn free_slots(p: &mut rtrb::Producer<u32>) -> (n: usize)
    ensures
        room(*final(p)) == n,
        sent(*final(p)) == sent(*old(p)),
{
    p.slots()
}

/// Put samples in, all of them or none: `rtrb::Producer::push_entire_slice`.
/// What fits into the known room goes in; where more is asked, whether it fits
/// depends on what the other end has taken, and a refusal is a look that found
/// too little room.
#[verifier::external_body]
fn push_all(p: &mut rtrb::Producer<u32>, samples: &[u32]) -> (r: bool)
    ensures
        r ==> sent(*final(p)) == sent(*old(p)) + samples@,
        !r ==> sent(*final(p)) == sent(*old(p)),
        !r ==> room(*final(p)) < samples@.len(),
        samples@.len() <= room(*old(p)) ==> r && room(*final(p)) == room(*old(p))
            - samples@.len(),
{
    p.push_entire_slice(samples).is_ok()
}

/// Look for waiting samples: `rtrb::Consumer::slots`. The other end may put
/// more in at any time, so nothing is said of the number but that it is known
/// from then on.
#[verifier::external_body]
fn waiting(c: &mut rtrb::Consumer<u32>) -> (n: usize)
    ensures
        ready(*final(c)) == n,
        taken(*final(c)) == taken(*old(c)),
{
    c.slots()
}

/// Take one sample out, where one waits: `rtrb::Consumer::pop`. One that is
/// known to wait is there; which one it is, is up to the other end. A refusal
/// is a look that found nothing.
#[verifier::external_body]
fn pop_one(c: &mut rtrb::Consumer<u32>) -> (r: Option<u32>)
    ensures
        r matches Some(v) ==> taken(*final(c)) == taken(*old(c)).push(v),
        r is None ==> taken(*final(c)) == taken(*old(c)),
        r is None ==> ready(*final(c)) == 0,
        ready(*old(c)) > 0 ==> r is Some && ready(*final(c)) == ready(*old(c)) - 1,
{
    c.pop().ok()
}

/// Samples to put in of a chunk, given the room that is left: as many as fit
/// in whole stereo pairs.
pub fn fitting(samples: usize, room: usize) -> (n: usize)
    ensures
        n == (if samples <= room - room % 2 {
            samples as int
        } else {
            room - room % 2
        }),
        n <= samples,
        n <= room,
        samples % 2 == 0 ==> n % 2 == 0,
{
    let even: usize = room - room % 2;
    if samples <= even {
        samples
    } else {
        even
    }
}

/// Put in a whole chunk, or drop it where there is too little room.
pub fn push_chunk(p: &mut rtrb::Producer<u32>, interleaved: &[u32]) -> (r: bool)
    ensures
        interleaved@.len() <= room(*old(p)) ==> r,
        !r ==> room(*final(p)) < interleaved@.len(),
        sent(*final(p)) == (if r {
            sent(*old(p)) + interleaved@
        } else {
            sent(*old(p))
        }),
{
    push_all(p, interleaved)
}

/// Put in as much of a chunk as fits in whole pairs, and drop the rest, which
/// there is only where less than a pair fits in behind. Gives the number of
/// samples that went in.
pub fn push_fitting(p: &mut rtrb::Producer<u32>, interleaved: &[u32]) -> (n: usize)
    ensures
        n <= interleaved@.len(),
        sent(*final(p)) == sent(*old(p)) + interleaved@.take(n as int),
        interleaved@.len() % 2 == 0 ==> n % 2 == 0,
        n < interleaved@.len() ==> n % 2 == 0 && room(*final(p)) < 2,
{
    let free: usize = free_slots(p);
    let n: usize = fitting(interleaved.len(), free);
    let part = vstd::slice::slice_subrange(interleaved, 0, n);
    assert(part@ =~= interleaved@.take(n as int));
    push_all(p, part);
    n
}

/// The samples of stereo frames.
pub open spec fn flat(frames: Seq<(u32, u32)>) -> Seq<u32>
    decreases frames.len(),
{
    if frames.len() == 0 {
        Seq::empty()
    } else {
        flat(frames.drop_last()).push(frames.last().0).push(frames.last().1)
    }
}

/// Put in stereo frames until the ring is full; the newest are dropped, and no
/// frame goes in by half. Gives the number of frames that went in.
pub fn push_frames(p: &mut rtrb::Producer<u32>, frames: &Vec<(u32, u32)>) -> (n: usize)
    ensures
        n <= frames@.len(),
        n < frames@.len() ==> room(*final(p)) < 2,
        sent(*final(p)) == sent(*old(p)) + flat(frames@.take(n as int)),
{
    let mut i: usize = 0;
    assert(sent(*p) + flat(frames@.take(0)) =~= sent(*p));
    while i < frames.len()
        invariant
            i <= frames@.len(),
            sent(*p) == sent(*old(p)) + flat(frames@.take(i as int)),
        decreases frames@.len() - i,
    {
        let (l, r) = frames[i];
        let pair: Vec<u32> = vec![l, r];
        let ghost before = sent(*p);
        if !push_all(p, pair.as_slice()) {
            return i;
        }
        assert(frames@.take(i + 1).drop_last() =~= frames@.take(i as int));
        assert(sent(*p) =~= sent(*old(p)) + flat(frames@.take(i + 1)));
        i = i + 1;
    }
    i
}

/// Take out a number of samples that are known to wait.
fn pop_many(c: &mut rtrb::Consumer<u32>, count: usize) -> (r: Vec<u32>)
    requires
        count <= ready(*old(c)),
    ensures
        r@.len() == count,
        taken(*final(c)) == taken(*old(c)) + r@,
        ready(*final(c)) == ready(*old(c)) - count,
{
    let mut r: Vec<u32> = Vec::new();
    assert(taken(*c) + r@ =~= taken(*c));
    while r.len() < count
        invariant
            r@.len() <= count <= ready(*old(c)),
            taken(*c) == taken(*old(c)) + r@,
            ready(*c) == ready(*old(c)) - r@.len(),
        decreases count - r@.len(),
    {
        if let Some(v) = pop_one(c) {
            r.push(v);
            assert(taken(*c) =~= taken(*old(c)) + r@);
        }
    }
    r
}

/// Take out the next batch for an encoder: whole frames as far as they wait,
/// and no more than a batch holds. A short batch leaves less than a frame.
pub fn drain_batch(c: &mut rtrb::Consumer<u32>) -> (r: Vec<u32>)
    ensures
        r@.len() <= DRAIN_FRAMES * 2,
        r@.len() % 2 == 0,
        taken(*final(c)) == taken(*old(c)) + r@,
        r@.len() < DRAIN_FRAMES * 2 ==> ready(*final(c)) < 2,
{
    let n: usize = waiting(c);
    pop_many(c, batch_frames(n) * 2)
}

/// Discard everything that waits. Gives what was discarded.
pub fn drop_backlog(c: &mut rtrb::Consumer<u32>) -> (r: Vec<u32>)
    ensures
        taken(*final(c)) == taken(*old(c)) + r@,
        ready(*final(c)) == 0,
{
    let n: usize = waiting(c);
    pop_many(c, n)
}

/// Discard what makes the microphone lag behind: whole frames, down to a
/// quarter of the ring, once more than half of it is taken. Gives what was
/// discarded.
pub fn drop_excess(c: &mut rtrb::Consumer<u32>) -> (r: Vec<u32>)
    ensures
        taken(*final(c)) == taken(*old(c)) + r@,
        r@.len() % 2 == 0,
        ready(*final(c)) <= MIC_RING_SAMPLES / 2,
        r@.len() > 0 ==> MIC_RING_SAMPLES / 4 <= ready(*final(c)) <= MIC_RING_SAMPLES / 4 + 1,
{
    let n: usize = waiting(c);
    pop_many(c, excess(n))
}

/// Take one stereo frame out. A lone sample is heard on both sides.
pub fn pop_frame(c: &mut rtrb::Consumer<u32>) -> (r: Option<(u32, u32)>)
    ensures
        match r {
            Some((a, b)) => taken(*final(c)) == taken(*old(c)).push(a).push(b) || (taken(*final(c))
                == taken(*old(c)).push(a) && a == b && ready(*final(c)) == 0),
            None => taken(*final(c)) == taken(*old(c)) && ready(*final(c)) == 0,
        },
        ready(*old(c)) > 0 ==> r is Some,
        ready(*old(c)) >= 2 ==> taken(*final(c)).len() == taken(*old(c)).len() + 2
            && ready(*final(c)) == ready(*old(c)) - 2,
{
    match pop_one(c) {
        Some(l) => match pop_one(c) {
            Some(r) => Some((l, r)),
            None => Some((l, l)),
        },
        None => None,
    }
}

/// Frames lie in a ring one after the other, each with its left sample in front
/// of its right one.
pub proof fn frames_lie_side_by_side(frames: Seq<(u32, u32)>, i: int)
    ensures
        flat(frames).len() == 2 * frames.len(),
        0 <= i < frames.len() ==> flat(frames)[2 * i] == frames[i].0 && flat(frames)[2 * i + 1]
            == frames[i].1,
    decreases frames.len(),
{
    if frames.len() > 0 {
        frames_lie_side_by_side(frames.drop_last(), i);
    }
}

} // verus!
