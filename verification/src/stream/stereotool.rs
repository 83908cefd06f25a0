//! Settings and answers around the operator's own on-air processor.

use vstd::prelude::*;
use vstd::string::*;

use crate::error::CrabError;
use crate::text::{quote, trim, truth_word};
use crate::text;

verus! {

/// Settings of the processor. Their debug form leaves the key out.
#[derive(Clone, PartialEq, Eq)]
pub struct StereoToolConfig {
    pub enabled: bool,
    /// Path of the operator's library.
    pub lib_path: String,
    pub license_key: String,
    /// Path of the preset.
    pub preset_path: String,
    /// Load everything but leave the audio alone.
    pub bypass: bool,
}

impl Default for StereoToolConfig {
    fn default() -> (r: Self)
        ensures
            !r.enabled,
            r.lib_path@ == Seq::<char>::empty(),
            r.license_key@ == Seq::<char>::empty(),
            r.preset_path@ == Seq::<char>::empty(),
            !r.bypass,
    {
        StereoToolConfig {
            enabled: false,
            lib_path: String::new(),
            license_key: String::new(),
            preset_path: String::new(),
            bypass: false,
        }
    }
}

/// Two settings that differ in nothing but the key read the same in logs.
pub proof fn logs_do_not_tell_the_key(a: StereoToolConfig, b: StereoToolConfig)
    requires
        a == (StereoToolConfig { license_key: a.license_key, ..b }),
    ensures
        a.debug_form() == b.debug_form(),
{
}

impl StereoToolConfig {
    /// How the settings read in logs, with the secret left out.
    pub open spec fn debug_form(self) -> Seq<char> {
        "StereoToolConfig { enabled: "@ + text::truth(self.enabled)
            + ", lib_path: "@ + text::quoted(self.lib_path@)
            + ", license_key: \"<redacted>\""@
            + ", preset_path: "@ + text::quoted(self.preset_path@)
            + ", bypass: "@ + text::truth(self.bypass)
            + " }"@
    }

    /// How the settings read in logs, with the secret left out.
    pub fn debug_text(&self) -> (s: String)
        ensures
            s@ == self.debug_form(),
    {
        let mut s = String::from_str("StereoToolConfig { enabled: ");
        s.append(truth_word(self.enabled));
        s.append(", lib_path: ");
        s.append(quote(self.lib_path.as_str()).as_str());
        s.append(", license_key: \"<redacted>\"");
        s.append(", preset_path: ");
        s.append(quote(self.preset_path.as_str()).as_str());
        s.append(", bypass: ");
        s.append(truth_word(self.bypass));
        s.append(" }");
        s
    }

    /// Trim the paths.
    pub fn sanitized(self) -> (r: Self)
        ensures
            r.lib_path@ == text::trimmed(self.lib_path@),
            r.preset_path@ == text::trimmed(self.preset_path@),
            r == (StereoToolConfig { lib_path: r.lib_path, preset_path: r.preset_path, ..self }),
    {
        let mut c = self;
        c.lib_path = trim(c.lib_path.as_str());
        c.preset_path = trim(c.preset_path.as_str());
        c
    }

    /// Whether the library is to be loaded.
    pub fn wants_processing(&self) -> (r: bool)
        ensures
            r == (self.enabled && self.lib_path@.len() > 0 && self.preset_path@.len() > 0),
    {
        self.enabled && !self.lib_path.as_str().is_empty() && !self.preset_path.as_str().is_empty()
    }
}

/// Whether the files of the processor are there, the library first.
pub fn open_check(
    lib_path: &str,
    lib_there: bool,
    preset_path: &str,
    preset_there: bool,
) -> (r: Result<(), CrabError>)
    ensures
        match r {
            Ok(_) => lib_there && preset_there,
            Err(CrabError::Audio(m)) => if !lib_there {
                m@ == "Stereo Tool library not found: "@ + lib_path@
                    + " — point Settings at your own copy from Thimeo's plugin SDK"@
            } else {
                !preset_there && m@ == "Stereo Tool preset not found: "@ + preset_path@
            },
            Err(_) => false,
        },
{
    if !lib_there {
        let mut s = String::from_str("Stereo Tool library not found: ");
        s.append(lib_path);
        s.append(" — point Settings at your own copy from Thimeo's plugin SDK");
        return Err(CrabError::Audio(s));
    }
    if !preset_there {
        let mut s = String::from_str("Stereo Tool preset not found: ");
        s.append(preset_path);
        return Err(CrabError::Audio(s));
    }
    Ok(())
}

/// Frames to process in an interleaved block; none where there is no whole
/// frame.
pub fn process_frames(samples: usize, channels: u32) -> (r: Option<i32>)
    requires
        samples <= i32::MAX,
    ensures
        match r {
            Some(n) => channels > 0 && n > 0 && n == samples as int / channels as int,
            None => channels == 0 || samples < channels,
        },
{
    if samples == 0 || channels == 0 {
        return None;
    }
    let c: u64 = channels as u64;
    let n: u64 = samples as u64 / c;
    assert(n <= samples && (n == 0) == (samples < c)) by (nonlinear_arith)
        requires
            n == samples as int / c as int,
            c > 0,
    ;
    if n == 0 {
        return None;
    }
    Some(n as i32)
}

/// License health for the display. What the library says counts only once
/// audio has flowed.
pub fn license_check(audio_flowed: bool, valid: bool, features: Option<String>) -> (r: (bool, String))
    ensures
        !audio_flowed ==> !r.0 && r.1@ == "verifying…"@,
        audio_flowed && valid ==> r.0 && r.1@ == Seq::<char>::empty(),
        audio_flowed && !valid ==> !r.0 && r.1@ == (match features {
            Some(t) => if t@.len() == 0 {
                "unlicensed features in use"@
            } else {
                t@
            },
            None => "unlicensed features in use"@,
        }),
{
    if !audio_flowed {
        return (false, String::from_str("verifying…"));
    }
    if valid {
        return (true, String::new());
    }
    match features {
        Some(t) => if t.as_str().is_empty() {
            (false, String::from_str("unlicensed features in use"))
        } else {
            (false, t)
        },
        None => (false, String::from_str("unlicensed features in use")),
    }
}

} // verus!
