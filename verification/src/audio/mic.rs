//! Microphone preferences and the state that is shown of it.

use vstd::prelude::*;
use vstd::string::*;

use crate::audio::level::clamp;
use crate::audio::level;
use crate::text::copy_opt;

verus! {

/// Samples that are kept between the input and the output.
pub const MIC_RING_SAMPLES: usize = 131072;

/// Preferences of the microphone.
#[derive(Debug)]
pub struct MicConfig {
    /// Master switch.
    pub enabled: bool,
    /// Input device, or nothing for the system's own.
    pub device: Option<String>,
    /// Gain in millionths.
    pub level: i64,
    /// Lower the music while the microphone is active.
    pub duck_enabled: bool,
    /// Level above which someone is talking, in millionths of a decibel.
    pub duck_threshold_udb: i64,
    /// How far the music is lowered, in millionths of a decibel.
    pub duck_depth_udb: i64,
    /// Time to lower the music, in microseconds.
    pub attack_us: i64,
    /// Time to raise the music again, in microseconds.
    pub release_us: i64,
}

impl Clone for MicConfig {
    fn clone(&self) -> (r: Self)
        ensures
            r == *self,
    {
        MicConfig {
            enabled: self.enabled,
            device: copy_opt(&self.device),
            level: self.level,
            duck_enabled: self.duck_enabled,
            duck_threshold_udb: self.duck_threshold_udb,
            duck_depth_udb: self.duck_depth_udb,
            attack_us: self.attack_us,
            release_us: self.release_us,
        }
    }
}

impl MicConfig {
    /// The configuration of a first run.
    pub open spec fn is_default(self) -> bool {
        &&& !self.enabled
        &&& self.device is None
        &&& self.level == 1_000_000
        &&& self.duck_enabled
        &&& self.duck_threshold_udb == -30_000_000
        &&& self.duck_depth_udb == 12_000_000
        &&& self.attack_us == 10_000
        &&& self.release_us == 400_000
    }
}

impl Default for MicConfig {
    fn default() -> (r: Self)
        ensures
            r.is_default(),
    {
        MicConfig {
            enabled: false,
            device: None,
            level: 1_000_000,
            duck_enabled: true,
            duck_threshold_udb: -30_000_000,
            duck_depth_udb: 12_000_000,
            attack_us: 10_000,
            release_us: 400_000,
        }
    }
}

impl MicConfig {
    /// This configuration in the form that is used. Lowering by nothing is no
    /// lowering.
    pub open spec fn cleaned(self) -> MicConfig {
        let depth = level::clamped(self.duck_depth_udb as int, 0, 24_000_000);
        MicConfig {
            level: level::clamped(self.level as int, 0, 1_500_000) as i64,
            duck_enabled: self.duck_enabled && depth != 0,
            duck_threshold_udb: level::clamped(self.duck_threshold_udb as int, -60_000_000, 0) as i64,
            duck_depth_udb: depth as i64,
            attack_us: level::clamped(self.attack_us as int, 1_000, 500_000) as i64,
            release_us: level::clamped(self.release_us as int, 10_000, 3_000_000) as i64,
            ..self
        }
    }

    /// Move every number into its range.
    pub fn sanitized(self) -> (r: Self)
        ensures
            r == self.cleaned(),
    {
        let mut c = self;
        c.level = clamp(c.level, 0, 1_500_000);
        c.duck_threshold_udb = clamp(c.duck_threshold_udb, -60_000_000, 0);
        c.duck_depth_udb = clamp(c.duck_depth_udb, 0, 24_000_000);
        c.attack_us = clamp(c.attack_us, 1_000, 500_000);
        c.release_us = clamp(c.release_us, 10_000, 3_000_000);
        if c.duck_depth_udb == 0 {
            c.duck_enabled = false;
        }
        c
    }
}

/// Live state of the microphone.
#[derive(Debug, Clone, PartialEq)]
pub enum MicState {
    /// Off, or never started.
    Off,
    /// Running and feeding the program.
    Live,
    /// The last start failed.
    Error(String),
}

/// The one-line status of a state.
pub open spec fn mic_text(s: MicState) -> Seq<char> {
    match s {
        MicState::Off => "⏸ Off"@,
        MicState::Live => "🎙 Live"@,
        MicState::Error(e) => "⚠ "@ + e@,
    }
}

impl MicState {
    /// Short one-line status.
    pub fn label(&self) -> (r: String)
        ensures
            r@ == mic_text(*self),
    {
        match self {
            MicState::Off => String::from_str("⏸ Off"),
            MicState::Live => String::from_str("🎙 Live"),
            MicState::Error(e) => {
                let mut s = String::from_str("⚠ ");
                s.append(e.as_str());
                s
            },
        }
    }

    /// Whether the microphone feeds the program.
    pub fn is_live(&self) -> (r: bool)
        ensures
            r == (*self is Live),
    {
        match self {
            MicState::Live => true,
            _ => false,
        }
    }
}

/// Preferences of the microphone end up in their ranges, and those that are in
/// range stay. The music is not lowered by nothing.
pub proof fn preferences_end_in_range(c: MicConfig)
    ensures
        0 <= c.cleaned().level <= 1_500_000,
        -60_000_000 <= c.cleaned().duck_threshold_udb <= 0,
        0 <= c.cleaned().duck_depth_udb <= 24_000_000,
        1_000 <= c.cleaned().attack_us <= 500_000,
        10_000 <= c.cleaned().release_us <= 3_000_000,
        0 <= c.level <= 1_500_000 ==> c.cleaned().level == c.level,
        -60_000_000 <= c.duck_threshold_udb <= 0 ==> c.cleaned().duck_threshold_udb
            == c.duck_threshold_udb,
        0 <= c.duck_depth_udb <= 24_000_000 ==> c.cleaned().duck_depth_udb == c.duck_depth_udb,
        1_000 <= c.attack_us <= 500_000 ==> c.cleaned().attack_us == c.attack_us,
        10_000 <= c.release_us <= 3_000_000 ==> c.cleaned().release_us == c.release_us,
        c.cleaned().duck_enabled <==> c.duck_enabled && c.duck_depth_udb > 0,
        c.cleaned().enabled == c.enabled,
        c.cleaned().device == c.device,
        c.cleaned().cleaned() == c.cleaned(),
{
}

} // verus!
