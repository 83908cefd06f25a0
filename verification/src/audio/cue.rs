//! The private audition bus of the operator.

use vstd::prelude::*;
use vstd::string::*;

use crate::audio::level::clamp;
use crate::audio::level;
use crate::text::copy_opt;

verus! {

/// Highest gain of the audition bus, in millionths.
pub const MAX_VOLUME: i64 = 1_500_000;

/// Preferences of the audition bus.
#[derive(Debug)]
pub struct CueConfig {
    /// Output device; without one there is no audition.
    pub device: Option<String>,
    /// Gain in millionths.
    pub volume: i64,
}

impl Clone for CueConfig {
    fn clone(&self) -> (r: Self)
        ensures
            r == *self,
    {
        CueConfig { device: copy_opt(&self.device), volume: self.volume }
    }
}

impl CueConfig {
    /// The configuration of a first run.
    pub open spec fn is_default(self) -> bool {
        &&& self.device is None
        &&& self.volume == 800_000
    }
}

impl Default for CueConfig {
    fn default() -> (r: Self)
        ensures
            r.is_default(),
    {
        CueConfig { device: None, volume: 800_000 }
    }
}

impl CueConfig {
    /// This configuration in the form that is used.
    pub open spec fn cleaned(self) -> CueConfig {
        CueConfig { volume: level::clamped(self.volume as int, 0, MAX_VOLUME as int) as i64, ..self }
    }

    /// Move the gain into its range.
    pub fn sanitized(self) -> (r: Self)
        ensures
            r == self.cleaned(),
            0 <= r.volume <= MAX_VOLUME,
    {
        let mut c = self;
        c.volume = clamp(c.volume, 0, MAX_VOLUME);
        c
    }
}

/// Live state of the audition bus.
#[derive(Debug, Clone, PartialEq)]
pub enum CueState {
    /// No device, or the bus is not running.
    Unavailable,
    /// Ready, nothing playing.
    Stopped,
    /// Auditioning; the program is untouched.
    Playing,
    /// The last start failed.
    Error(String),
}

/// The one-line status of a state.
pub open spec fn cue_text(s: CueState) -> Seq<char> {
    match s {
        CueState::Unavailable => "Cue: no device"@,
        CueState::Stopped => "Cue: ready"@,
        CueState::Playing => "Cue: playing"@,
        CueState::Error(e) => "Cue error: "@ + e@,
    }
}

impl CueState {
    /// Short one-line status.
    pub fn label(&self) -> (r: String)
        ensures
            r@ == cue_text(*self),
    {
        match self {
            CueState::Unavailable => String::from_str("Cue: no device"),
            CueState::Stopped => String::from_str("Cue: ready"),
            CueState::Playing => String::from_str("Cue: playing"),
            CueState::Error(e) => {
                let mut s = String::from_str("Cue error: ");
                s.append(e.as_str());
                s
            },
        }
    }

    /// Whether something is being auditioned.
    pub fn is_playing(&self) -> (r: bool)
        ensures
            r == (*self is Playing),
    {
        match self {
            CueState::Playing => true,
            _ => false,
        }
    }
}

/// The volume of the audition ends up between nothing and one and a half; one
/// in range stays, and so does the device.
pub proof fn volumes_end_in_range(c: CueConfig)
    ensures
        0 <= c.cleaned().volume <= 1_500_000,
        0 <= c.volume <= 1_500_000 ==> c.cleaned() == c,
        c.volume < 0 ==> c.cleaned().volume == 0,
        c.volume > 1_500_000 ==> c.cleaned().volume == 1_500_000,
        c.cleaned().device == c.device,
{
}

} // verus!
