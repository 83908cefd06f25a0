//! Dead-air monitor: counts output frames that are silent in a row.

use vstd::prelude::*;

use crate::audio::level::clamp;
use crate::audio::level;

verus! {

/// Counts silent frames and tells when there are too many.
#[derive(Debug)]
pub struct SilenceMonitor {
    pub silent_frames: u64,
    /// Silence that trips the alarm, in microseconds.
    pub threshold_us: i64,
    /// Frames per second.
    pub rate: u32,
}

/// Frames that last long enough to trip the alarm.
pub open spec fn too_long(frames: int, rate: int, threshold_us: int) -> bool {
    rate > 0 && frames * 1_000_000 >= threshold_us * rate
}

/// The count after one more frame.
pub open spec fn after_frame(count: int, playing: bool, quiet: bool) -> int {
    if playing && quiet {
        count + 1
    } else {
        0
    }
}

impl SilenceMonitor {
    /// A monitor that has heard no silence.
    pub fn new(rate: u32, threshold_us: i64) -> (m: Self)
        ensures
            m == (SilenceMonitor { silent_frames: 0, threshold_us, rate }),
    {
        SilenceMonitor { silent_frames: 0, threshold_us, rate }
    }

    /// Set the silence that trips the alarm, between a second and two minutes.
    pub fn set_threshold_us(&mut self, us: i64)
        ensures
            *final(self) == (SilenceMonitor {
                threshold_us: level::clamped(us as int, 1_000_000, 120_000_000) as i64,
                ..*old(self)
            }),
    {
        self.threshold_us = clamp(us, 1_000_000, 120_000_000);
    }

    /// Hear one frame. Only a silent frame of a running program counts;
    /// anything else starts the count anew.
    pub fn push_frame(&mut self, playing: bool, quiet: bool)
        requires
            old(self).silent_frames < u64::MAX,
        ensures
            *final(self) == (SilenceMonitor {
                silent_frames: after_frame(
                    old(self).silent_frames as int,
                    playing,
                    quiet,
                ) as u64,
                ..*old(self)
            }),
    {
        if playing && quiet {
            self.silent_frames = self.silent_frames + 1;
        } else {
            self.silent_frames = 0;
        }
    }

    /// Start the count anew.
    pub fn reset(&mut self)
        ensures
            *final(self) == (SilenceMonitor { silent_frames: 0, ..*old(self) }),
    {
        self.silent_frames = 0;
    }

    /// The silence so far, in whole microseconds.
    pub fn silent_us(&self) -> (r: u128)
        ensures
            r == self.silent_frames * 1_000_000 / (if self.rate == 0 {
                1
            } else {
                self.rate as int
            }),
    {
        let rate: u128 = if self.rate == 0 {
            1
        } else {
            self.rate as u128
        };
        self.silent_frames as u128 * 1_000_000 / rate
    }

    /// Whether the silence has lasted too long.
    pub fn alarm(&self) -> (r: bool)
        ensures
            r == too_long(self.silent_frames as int, self.rate as int, self.threshold_us as int),
    {
        if self.rate == 0 {
            return false;
        }
        let rate: i128 = self.rate as i128;
        let need: i128 = self.threshold_us as i128;
        assert(-0x8000_0000_0000_0000int * 0x1_0000_0000 <= need * rate <= 0x7fff_ffff_ffff_ffffint
            * 0x1_0000_0000) by (nonlinear_arith)
            requires
                1 <= rate < 0x1_0000_0000,
                -0x8000_0000_0000_0000int <= need <= 0x7fff_ffff_ffff_ffffint,
        ;
        self.silent_frames as i128 * 1_000_000 >= need * rate
    }
}

/// The count after a number of frames, each with whether the program runs
/// and whether the frame is silent.
pub open spec fn counted(frames: Seq<(bool, bool)>) -> int
    decreases frames.len(),
{
    if frames.len() == 0 {
        0
    } else {
        after_frame(counted(frames.drop_last()), frames.last().0, frames.last().1)
    }
}

/// The monitor counts exactly the silence at the end: what came before the
/// last sound or pause is forgotten, and the next sound or pause forgets the
/// rest.
pub proof fn sound_forgets_silence(before: Seq<(bool, bool)>, silence: nat, next: (bool, bool))
    requires
        before.len() > 0 ==> !(before.last().0 && before.last().1),
        !(next.0 && next.1),
    ensures
        counted(before + Seq::new(silence, |i: int| (true, true))) == silence,
        counted((before + Seq::new(silence, |i: int| (true, true))).push(next)) == 0,
    decreases silence,
{
    let all = before + Seq::new(silence, |i: int| (true, true));
    assert(all.push(next).drop_last() =~= all);
    if silence == 0 {
        assert(all =~= before);
    } else {
        sound_forgets_silence(before, (silence - 1) as nat, next);
        assert(all.drop_last() =~= before + Seq::new((silence - 1) as nat, |i: int| (true, true)));
    }
}

/// The alarm goes by time: a stretch of frames is too long exactly where it
/// lasts for the threshold or longer, at any rate, and never at none.
pub proof fn alarms_go_by_time(seconds: int, rate: int, threshold_us: int)
    requires
        0 <= seconds,
        0 < rate,
    ensures
        too_long(seconds * rate, rate, threshold_us) <==> seconds * 1_000_000 >= threshold_us,
        !too_long(seconds, 0, threshold_us),
{
    let f = seconds * rate;
    assert(f * 1_000_000 == (seconds * 1_000_000) * rate) by (nonlinear_arith)
        requires
            f == seconds * rate,
    ;
    let a = seconds * 1_000_000;
    assert(a >= threshold_us <==> a * rate >= threshold_us * rate) by (nonlinear_arith)
        requires
            rate > 0,
    ;
}

/// More silence never ends an alarm, and a longer threshold never starts one.
pub proof fn alarms_last(frames: int, more: int, rate: int, threshold_us: int, shorter: int)
    requires
        0 <= frames <= more,
        0 < rate,
        shorter <= threshold_us,
        too_long(frames, rate, threshold_us),
    ensures
        too_long(more, rate, shorter),
{
    assert(shorter * rate <= threshold_us * rate) by (nonlinear_arith)
        requires
            shorter <= threshold_us,
            0 < rate,
    ;
}

} // verus!
