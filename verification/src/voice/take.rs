//! One take: its budget, its names, and what the recording tap stages.

use vstd::prelude::*;
use vstd::string::*;

use crate::audio::ring::push_fitting;
use crate::clock::{write_compact, write_minute, Stamp};
use crate::audio::ring;
use crate::clock;

verus! {

/// Seconds after which a take is stopped.
pub const VOICE_MAX_RECORD_SECS: u64 = 600;

/// Suggested file name for a take that starts at a moment of the wall clock.
pub fn suggest_filename(now: Stamp) -> (r: String)
    requires
        now.valid(),
        now.nanos < 1_000_000_000,
    ensures
        r@ == "voice-"@ + clock::compact_text(now.secs as int) + ".wav"@,
{
    let t = write_compact(now);
    let mut s = String::from_str("voice-");
    s.append(t.as_str());
    s.append(".wav");
    s
}

/// Suggested display name for a take that starts at a moment of the wall
/// clock.
pub fn suggest_name(now: Stamp) -> (r: String)
    requires
        now.valid(),
    ensures
        r@ == "Voice "@ + clock::minute_text(now.secs as int),
{
    let t = write_minute(now);
    let mut s = String::from_str("Voice ");
    s.append(t.as_str());
    s
}

/// Where a take is fed from the microphone.
pub struct VoiceTap {
    pub producer: rtrb::Producer<u32>,
}

impl VoiceTap {
    /// Feed interleaved stereo samples: what fits in whole pairs goes in, and
    /// the rest is dropped. Gives the number of samples that went in.
    pub fn push_slice(&mut self, interleaved: &[u32]) -> (n: usize)
        ensures
            n <= interleaved@.len(),
            ring::sent(final(self).producer) == ring::sent(old(self).producer)
                + interleaved@.take(n as int),
            interleaved@.len() % 2 == 0 ==> n % 2 == 0,
            n < interleaved@.len() ==> n % 2 == 0 && ring::room(final(self).producer) < 2,
    {
        push_fitting(&mut self.producer, interleaved)
    }
}

/// A finished take.
#[derive(Debug, Clone, Copy, PartialEq, Eq, Structural)]
pub struct VoiceTake {
    pub duration_nanos: u64,
    pub sample_rate: u32,
}

} // verus!
