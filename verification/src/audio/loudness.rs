//! Loudness measurement: which stretches of a program count. Levels are
//! millionths of a loudness unit.

use vstd::prelude::*;
use vstd::string::*;

use crate::audio::level::clamp;
use crate::audio::level;
use crate::error::CrabError;

verus! {

/// Hops in a block.
pub const BLOCK_HOPS: usize = 4;

/// Blocks at or below this level never count.
pub const SILENCE_GATE: i64 = -70_000_000;

/// Blocks so much below the others do not count either.
pub const RELATIVE_GATE: i64 = 10_000_000;

/// The level that programs are corrected toward.
pub const TARGET_UDB: i64 = -23_000_000;

/// The largest correction in either direction: 24 dB.
pub const MAX_GAIN_UDB: i64 = 24_000_000;

/// The correction of a measured level toward a target.
pub open spec fn correction(lufs: i64, target: int) -> int {
    level::clamped(target - lufs, -(MAX_GAIN_UDB as int), MAX_GAIN_UDB as int)
}

/// A correction never exceeds the largest one, and brings a program exactly to
/// the target where it stays below it.
pub proof fn corrections_are_bounded(lufs: i64, target: int)
    ensures
        -MAX_GAIN_UDB <= correction(lufs, target) <= MAX_GAIN_UDB,
        -MAX_GAIN_UDB <= target - lufs <= MAX_GAIN_UDB ==> lufs + correction(lufs, target) == target,
{
}

/// Frames in a tenth of a second, and at least one.
pub open spec fn hop_of(rate: int) -> int {
    if rate < 5 {
        1
    } else {
        (rate + 5) / 10
    }
}

/// The block that a hop completes: the last four hops.
pub open spec fn block_at<T>(hops: Seq<T>) -> Option<Seq<T>> {
    if hops.len() < BLOCK_HOPS {
        None
    } else {
        Some(hops.subrange(hops.len() - BLOCK_HOPS, hops.len() as int))
    }
}

/// The last hops, as far as a block goes.
pub open spec fn latest<T>(hops: Seq<T>) -> Seq<T> {
    if hops.len() < BLOCK_HOPS {
        hops
    } else {
        hops.subrange(hops.len() - BLOCK_HOPS, hops.len() as int)
    }
}

/// Cuts a program into overlapping blocks.
#[derive(Debug)]
pub struct BlockWindow<T> {
    /// Frames in a hop.
    pub hop_frames: u32,
    pub frames_in_hop: u32,
    /// The latest hops.
    pub recent: Vec<T>,
}

impl<T: Copy> BlockWindow<T> {
    /// Counts within a hop and keeps at most a block.
    pub open spec fn wf(self) -> bool {
        self.hop_frames >= 1 && self.frames_in_hop < self.hop_frames && self.recent@.len()
            <= BLOCK_HOPS
    }

    /// A window at the start of a program.
    pub fn new(rate: u32) -> (w: Self)
        ensures
            w.wf(),
            w.hop_frames == hop_of(rate as int),
            w.frames_in_hop == 0,
            w.recent@ == Seq::<T>::empty(),
    {
        let hop: u64 = (rate as u64 + 5) / 10;
        let hop_frames: u32 = if hop < 1 {
            1
        } else {
            hop as u32
        };
        BlockWindow { hop_frames, frames_in_hop: 0, recent: Vec::new() }
    }

    /// Count a frame. Tells whether it completes a hop.
    pub fn push_frame(&mut self) -> (r: bool)
        requires
            old(self).wf(),
        ensures
            final(self).wf(),
            final(self).hop_frames == old(self).hop_frames,
            final(self).recent == old(self).recent,
            r == (old(self).frames_in_hop + 1 == old(self).hop_frames),
            final(self).frames_in_hop == (if r {
                0
            } else {
                old(self).frames_in_hop + 1
            }),
    {
        if self.frames_in_hop + 1 >= self.hop_frames {
            self.frames_in_hop = 0;
            true
        } else {
            self.frames_in_hop = self.frames_in_hop + 1;
            false
        }
    }

    /// Take the sum over a hop. Gives the hops of the block that it completes.
    pub fn push_hop(&mut self, sum: T) -> (r: Option<Vec<T>>)
        requires
            old(self).wf(),
        ensures
            final(self).wf(),
            final(self).hop_frames == old(self).hop_frames,
            final(self).frames_in_hop == old(self).frames_in_hop,
            final(self).recent@ == latest(old(self).recent@.push(sum)),
            match r {
                Some(b) => block_at(old(self).recent@.push(sum)) == Some(b@),
                None => block_at(old(self).recent@.push(sum)) is None,
            },
    {
        self.recent.push(sum);
        let ghost all = self.recent@;
        if self.recent.len() > BLOCK_HOPS {
            let _ = self.recent.remove(0);
            assert(self.recent@ =~= latest(all));
        } else {
            assert(latest(all) =~= all);
        }
        if self.recent.len() < BLOCK_HOPS {
            return None;
        }
        let mut b: Vec<T> = Vec::new();
        let mut i: usize = 0;
        while i < self.recent.len()
            invariant
                i <= self.recent@.len(),
                b@ == self.recent@.subrange(0, i as int),
            decreases self.recent@.len() - i,
        {
            b.push(self.recent[i]);
            i = i + 1;
            assert(b@ =~= self.recent@.subrange(0, i as int));
        }
        assert(b@ =~= self.recent@);
        Some(b)
    }
}

/// What a window keeps is enough to tell every block: the same comes of it as
/// of the whole program, and each block shares all but one hop with the next.
pub proof fn blocks_overlap<T>(hops: Seq<T>, next: T)
    ensures
        block_at(latest(hops).push(next)) == block_at(hops.push(next)),
        latest(latest(hops).push(next)) == latest(hops.push(next)),
        hops.len() >= BLOCK_HOPS ==> block_at(hops.push(next)) == Some(
            block_at(hops)->0.subrange(1, BLOCK_HOPS as int).push(next),
        ),
{
    let a = latest(hops).push(next);
    let b = hops.push(next);
    assert(latest(a) =~= latest(b));
    if hops.len() >= BLOCK_HOPS {
        assert(a.subrange(a.len() - BLOCK_HOPS, a.len() as int) =~= b.subrange(
            b.len() - BLOCK_HOPS,
            b.len() as int,
        ));
        assert(b.subrange(b.len() - BLOCK_HOPS, b.len() as int) =~= block_at(hops)->0.subrange(
            1,
            BLOCK_HOPS as int,
        ).push(next));
    } else {
        assert(a =~= b);
    }
}

/// The blocks above a level, by their places.
pub open spec fn above(levels: Seq<i64>, gate: int) -> Seq<usize>
    decreases levels.len(),
{
    if levels.len() == 0 {
        Seq::empty()
    } else {
        let front = above(levels.drop_last(), gate);
        if levels.last() > gate {
            front.push((levels.len() - 1) as usize)
        } else {
            front
        }
    }
}

/// The blocks above a level, by their places.
fn pick_above(levels: &Vec<i64>, gate: i64) -> (r: Vec<usize>)
    ensures
        r@ == above(levels@, gate as int),
{
    let mut r: Vec<usize> = Vec::new();
    let mut i: usize = 0;
    assert(levels@.subrange(0, 0) =~= Seq::empty());
    while i < levels.len()
        invariant
            i <= levels@.len(),
            r@ == above(levels@.subrange(0, i as int), gate as int),
        decreases levels@.len() - i,
    {
        assert(levels@.subrange(0, i + 1).drop_last() =~= levels@.subrange(0, i as int));
        if levels[i] > gate {
            r.push(i);
        }
        i = i + 1;
    }
    assert(levels@.subrange(0, i as int) =~= levels@);
    r
}

/// The blocks that are no silence.
pub fn audible_blocks(levels: &Vec<i64>) -> (r: Vec<usize>)
    ensures
        r@ == above(levels@, SILENCE_GATE as int),
{
    pick_above(levels, SILENCE_GATE)
}

/// The level below which blocks do not count, given the level of all audible
/// blocks together.
pub open spec fn relative_gate(mean: int) -> int {
    if mean - RELATIVE_GATE > SILENCE_GATE {
        mean - RELATIVE_GATE
    } else {
        SILENCE_GATE as int
    }
}

/// The audible blocks that count, given the level of all audible blocks
/// together.
pub fn counting_blocks(levels: &Vec<i64>, mean: i64) -> (r: Vec<usize>)
    ensures
        r@ == above(levels@, relative_gate(mean as int)),
{
    let gate: i64 = if mean > SILENCE_GATE + RELATIVE_GATE {
        mean - RELATIVE_GATE
    } else {
        SILENCE_GATE
    };
    pick_above(levels, gate)
}

/// Silence at the end of a program does not change which of its blocks count.
pub proof fn silence_does_not_count(levels: Seq<i64>, quiet: Seq<i64>, mean: int)
    requires
        forall|i: int| 0 <= i < quiet.len() ==> #[trigger] quiet[i] <= SILENCE_GATE,
    ensures
        above(levels + quiet, SILENCE_GATE as int) == above(levels, SILENCE_GATE as int),
        above(levels + quiet, relative_gate(mean)) == above(levels, relative_gate(mean)),
    decreases quiet.len(),
{
    if quiet.len() == 0 {
        assert(levels + quiet =~= levels);
    } else {
        let front = quiet.drop_last();
        assert forall|i: int| 0 <= i < front.len() implies #[trigger] front[i] <= SILENCE_GATE by {
            assert(front[i] == quiet[i]);
        }
        silence_does_not_count(levels, front, mean);
        assert((levels + quiet).drop_last() =~= levels + front);
        assert((levels + quiet).last() == quiet.last());
    }
}

/// What a program measures and the correction toward the target.
#[derive(Debug, Clone, Copy, PartialEq, Eq, Structural)]
pub struct LoudnessAnalysis {
    pub integrated_udb: i64,
    pub gain_udb: i64,
}

/// The verdict on a program: its level, where one could be measured, and its
/// correction.
pub fn judge_loudness(integrated: Option<i64>) -> (r: Result<LoudnessAnalysis, CrabError>)
    ensures
        match r {
            Ok(a) => integrated == Some(a.integrated_udb) && a.gain_udb == correction(
                a.integrated_udb,
                TARGET_UDB as int,
            ) && a.gain_udb == correction(a.integrated_udb, -23_000_000),
            Err(CrabError::Audio(m)) => integrated is None && m@ == "clip too short to measure"@,
            Err(_) => false,
        },
{
    match integrated {
        Some(x) => {
            let near: i64 = clamp(x, TARGET_UDB - MAX_GAIN_UDB, TARGET_UDB + MAX_GAIN_UDB);
            Ok(LoudnessAnalysis { integrated_udb: x, gain_udb: TARGET_UDB - near })
        },
        None => Err(CrabError::Audio(String::from_str("clip too short to measure"))),
    }
}

/// A hop is a tenth of a second, to the nearest frame, and never empty.
pub proof fn hops_are_tenths(rate: int)
    requires
        0 <= rate,
    ensures
        hop_of(rate) >= 1,
        rate >= 5 ==> rate - 5 < 10 * hop_of(rate) <= rate + 5,
{
}

/// A block is the last four hops, and there is none before the fourth.
pub proof fn blocks_are_four_hops<T>(hops: Seq<T>, i: int)
    ensures
        hops.len() < 4 ==> block_at(hops) is None && latest(hops) == hops,
        hops.len() >= 4 ==> block_at(hops) is Some && block_at(hops)->0.len() == 4 && latest(hops)
            == block_at(hops)->0,
        hops.len() >= 4 && 0 <= i < 4 ==> block_at(hops)->0[i] == hops[hops.len() - 4 + i],
{
}

/// The blocks above a level are exactly those that are louder, each once and in
/// their order.
pub proof fn louder_blocks_are_picked(levels: Seq<i64>, gate: int, k: usize)
    requires
        levels.len() <= usize::MAX,
    ensures
        above(levels, gate).contains(k) <==> k < levels.len() && levels[k as int] > gate,
        forall|i: int, j: int|
            0 <= i < j < above(levels, gate).len() ==> #[trigger] above(levels, gate)[i]
                < #[trigger] above(levels, gate)[j],
        forall|i: int|
            0 <= i < above(levels, gate).len() ==> (#[trigger] above(levels, gate)[i]) < levels.len(),
    decreases levels.len(),
{
    let all = above(levels, gate);
    if levels.len() > 0 {
        let front = above(levels.drop_last(), gate);
        louder_blocks_are_picked(levels.drop_last(), gate, k);
        if levels.last() > gate {
            let last = (levels.len() - 1) as usize;
            assert(all == front.push(last));
            assert(all[front.len() as int] == last);
            if front.contains(k) {
                let i = choose|i: int| 0 <= i < front.len() && front[i] == k;
                assert(all[i] == k);
            }
            if all.contains(k) && k != last {
                let i = choose|i: int| 0 <= i < all.len() && all[i] == k;
                assert(front[i] == k);
            }
        }
    }
}

/// Blocks count where they are above seventy below full scale and no more than
/// ten below the mean of the audible ones.
pub proof fn gates_are_absolute_and_relative(levels: Seq<i64>, mean: int, k: usize)
    requires
        levels.len() <= usize::MAX,
        k < levels.len(),
    ensures
        above(levels, SILENCE_GATE as int).contains(k) <==> levels[k as int] > -70_000_000,
        above(levels, relative_gate(mean)).contains(k) <==> levels[k as int] > -70_000_000
            && levels[k as int] > mean - 10_000_000,
{
    louder_blocks_are_picked(levels, SILENCE_GATE as int, k);
    louder_blocks_are_picked(levels, relative_gate(mean), k);
}

/// A correction brings a program to the target, as far as twenty-four decibels
/// either way go, and what is left of the way is as short as it can be.
pub proof fn corrections_reach_the_target(lufs: i64, target: int)
    ensures
        -24_000_000 <= target - lufs <= 24_000_000 ==> lufs + correction(lufs, target) == target,
        target - lufs > 24_000_000 ==> correction(lufs, target) == 24_000_000,
        target - lufs < -24_000_000 ==> correction(lufs, target) == -24_000_000,
{
}

} // verus!
