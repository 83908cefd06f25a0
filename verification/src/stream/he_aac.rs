//! HE-AAC output around the codec: its settings, the staging of samples into
//! frames, and the draining of its tail.

use vstd::prelude::*;
use vstd::string::*;

use crate::error::CrabError;
use crate::stream::config::StreamConfig;
use crate::text::push_decimal;
use crate::text;

verus! {

/// Bitrate in kbps up to which parametric stereo is used.
pub const V2_MAX_KBPS: u32 = 48;

/// Lowest bitrate in kbps.
pub const MIN_KBPS: u32 = 16;

/// Highest bitrate in kbps.
pub const MAX_KBPS: u32 = 160;

/// Audio object type of spectral band replication.
pub const AOT_SBR: u32 = 5;

/// Audio object type of parametric stereo.
pub const AOT_PS: u32 = 29;

/// Most rounds that drain the codec.
pub const FLUSH_ROUNDS: u32 = 8;

/// The audio object type for a bitrate, and its name: parametric stereo at low
/// rates, band replication above.
pub fn select_aot(kbps: u32) -> (r: (u32, &'static str))
    ensures
        kbps <= V2_MAX_KBPS ==> r.0 == AOT_PS && r.1@ == "HE-AAC v2"@,
        kbps > V2_MAX_KBPS ==> r.0 == AOT_SBR && r.1@ == "HE-AAC v1"@,
        kbps <= 48 <==> r.0 == 29,
        kbps > 48 <==> r.0 == 5,
{
    if kbps <= V2_MAX_KBPS {
        (AOT_PS, "HE-AAC v2")
    } else {
        (AOT_SBR, "HE-AAC v1")
    }
}

/// The bitrate that is used for a wanted one.
pub open spec fn used_kbps(kbps: u32) -> u32 {
    if kbps < MIN_KBPS {
        MIN_KBPS
    } else if kbps > MAX_KBPS {
        MAX_KBPS
    } else {
        kbps
    }
}

/// What the codec is set to.
#[derive(Debug, Clone, Copy)]
pub struct HeAacPlan {
    pub kbps: u32,
    pub aot: u32,
    pub label: &'static str,
    pub sample_rate: u32,
    /// Bits per second.
    pub bitrate: u32,
}

impl HeAacPlan {
    /// The settings for a configuration and an input rate; a rate of zero is
    /// refused.
    pub fn new(config: &StreamConfig, sample_rate: u32) -> (r: Result<Self, CrabError>)
        ensures
            match r {
                Ok(p) => {
                    &&& sample_rate != 0
                    &&& p.kbps == used_kbps(config.bitrate_kbps)
                    &&& p.bitrate == p.kbps * 1000
                    &&& p.sample_rate == sample_rate
                    &&& p.kbps <= V2_MAX_KBPS ==> p.aot == AOT_PS && p.label@ == "HE-AAC v2"@
                    &&& p.kbps > V2_MAX_KBPS ==> p.aot == AOT_SBR && p.label@ == "HE-AAC v1"@
                },
                Err(CrabError::Audio(m)) => sample_rate == 0 && m@ == "HE-AAC: device rate is 0"@,
                Err(_) => false,
            },
    {
        if sample_rate == 0 {
            return Err(CrabError::Audio(String::from_str("HE-AAC: device rate is 0")));
        }
        let kbps: u32 = if config.bitrate_kbps < MIN_KBPS {
            MIN_KBPS
        } else if config.bitrate_kbps > MAX_KBPS {
            MAX_KBPS
        } else {
            config.bitrate_kbps
        };
        let (aot, label) = select_aot(kbps);
        Ok(HeAacPlan { kbps, aot, label, sample_rate, bitrate: kbps * 1000 })
    }
}

/// One setting of the codec.
#[derive(Debug, Clone, Copy, PartialEq, Eq, Structural)]
pub enum CodecSetting {
    ObjectType(u32),
    SampleRate(u32),
    Stereo,
    /// Bits per second.
    Bitrate(u32),
    ConstantBitrate,
    /// Frames that carry their own header.
    AdtsTransport,
    Afterburner,
}

impl CodecSetting {
    /// What an error calls the setting.
    pub open spec fn called(self) -> Seq<char> {
        match self {
            CodecSetting::ObjectType(_) => "AOT"@,
            CodecSetting::SampleRate(_) => "sample rate"@,
            CodecSetting::Stereo => "stereo channel mode"@,
            CodecSetting::Bitrate(_) => "bitrate"@,
            CodecSetting::ConstantBitrate => "CBR"@,
            CodecSetting::AdtsTransport => "ADTS transport"@,
            CodecSetting::Afterburner => "afterburner"@,
        }
    }

    /// What an error calls the setting.
    pub fn name(self) -> (r: &'static str)
        ensures
            r@ == self.called(),
    {
        match self {
            CodecSetting::ObjectType(_) => "AOT",
            CodecSetting::SampleRate(_) => "sample rate",
            CodecSetting::Stereo => "stereo channel mode",
            CodecSetting::Bitrate(_) => "bitrate",
            CodecSetting::ConstantBitrate => "CBR",
            CodecSetting::AdtsTransport => "ADTS transport",
            CodecSetting::Afterburner => "afterburner",
        }
    }
}

impl HeAacPlan {
    /// The settings in the order in which the codec gets them: the object type
    /// first, since the others depend on it.
    pub fn settings(&self) -> (v: Vec<CodecSetting>)
        ensures
            v@ == seq![
                CodecSetting::ObjectType(self.aot),
                CodecSetting::SampleRate(self.sample_rate),
                CodecSetting::Stereo,
                CodecSetting::Bitrate(self.bitrate),
                CodecSetting::ConstantBitrate,
                CodecSetting::AdtsTransport,
                CodecSetting::Afterburner,
            ],
    {
        let mut v: Vec<CodecSetting> = Vec::new();
        v.push(CodecSetting::ObjectType(self.aot));
        v.push(CodecSetting::SampleRate(self.sample_rate));
        v.push(CodecSetting::Stereo);
        v.push(CodecSetting::Bitrate(self.bitrate));
        v.push(CodecSetting::ConstantBitrate);
        v.push(CodecSetting::AdtsTransport);
        v.push(CodecSetting::Afterburner);
        v
    }
}

/// The error for a setting that the codec refuses.
pub fn setting_error(what: &str, code: u32) -> (e: CrabError)
    ensures
        e matches CrabError::Audio(m) && m@ == "HE-AAC "@ + what@
            + ": FDK rejected the setting (error "@ + text::decimal(code as nat) + ")"@,
{
    let mut s = String::from_str("HE-AAC ");
    s.append(what);
    s.append(": FDK rejected the setting (error ");
    push_decimal(&mut s, code as u64);
    s.append(")");
    CrabError::Audio(s)
}

/// The error for a failed step of the codec.
pub fn codec_error(what: &str, code: u32) -> (e: CrabError)
    ensures
        e matches CrabError::Audio(m) && m@ == "HE-AAC "@ + what@ + " (error "@ + text::decimal(
            code as nat,
        ) + ")"@,
{
    let mut s = String::from_str("HE-AAC ");
    s.append(what);
    s.append(" (error ");
    push_decimal(&mut s, code as u64);
    s.append(")");
    CrabError::Audio(s)
}

/// What one draining round of the codec came to.
#[derive(Debug)]
pub enum FlushEvent {
    /// Nothing is left.
    Eof,
    /// It failed with a code.
    Failed(u32),
    /// These bytes came out.
    Bytes(Vec<u8>),
}

/// The staging around the codec.
#[derive(Debug)]
pub struct HeAacEncoder {
    /// Samples per channel that the codec takes at once.
    pub frame_len: usize,
    /// Interleaved samples that wait.
    pub staging: Vec<i16>,
    /// Bytes to send.
    pub out: Vec<u8>,
}

impl HeAacEncoder {
    /// A frame holds something, and its samples can be counted.
    pub open spec fn wf(self) -> bool {
        0 < self.frame_len && self.frame_len * 2 <= usize::MAX
    }

    /// Staging for the frame layout that the codec reports.
    pub fn with_layout(frame_length: u32, max_out_bytes: u32) -> (r: Result<Self, CrabError>)
        requires
            frame_length <= 0x7fff_ffff,
        ensures
            match r {
                Ok(e) => frame_length != 0 && max_out_bytes != 0 && e.wf() && e.frame_len
                    == frame_length && e.staging@.len() == 0 && e.out@.len() == 0,
                Err(CrabError::Audio(m)) => (frame_length == 0 || max_out_bytes == 0) && m@
                    == "HE-AAC init: FDK reported an unusable frame layout"@,
                Err(_) => false,
            },
    {
        if frame_length == 0 || max_out_bytes == 0 {
            return Err(
                CrabError::Audio(
                    String::from_str("HE-AAC init: FDK reported an unusable frame layout"),
                ),
            );
        }
        Ok(HeAacEncoder { frame_len: frame_length as usize, staging: Vec::new(), out: Vec::new() })
    }

    /// Begin a batch: forget the bytes of the last one and stage new samples.
    pub fn stage(&mut self, samples: &[i16])
        ensures
            final(self).frame_len == old(self).frame_len,
            final(self).staging@ == old(self).staging@ + samples@,
            final(self).out@.len() == 0,
    {
        self.out.clear();
        self.staging.extend_from_slice(samples);
        assert(self.staging@ =~= old(self).staging@ + samples@);
    }

    /// Take the next full frame, if one waits.
    pub fn take_frame(&mut self) -> (f: Option<Vec<i16>>)
        requires
            old(self).wf(),
        ensures
            final(self).frame_len == old(self).frame_len,
            final(self).out == old(self).out,
            match f {
                Some(v) => old(self).staging@.len() >= old(self).frame_len * 2
                    && v@ + final(self).staging@ == old(self).staging@
                    && v@.len() == old(self).frame_len * 2,
                None => old(self).staging@.len() < old(self).frame_len * 2 && final(self).staging@
                    == old(self).staging@,
            },
    {
        let n: usize = self.frame_len * 2;
        if self.staging.len() < n {
            return None;
        }
        let rest = self.staging.split_off(n);
        let mut frame: Vec<i16> = Vec::new();
        frame.append(&mut self.staging);
        self.staging = rest;
        assert(frame@ + self.staging@ =~= old(self).staging@);
        Some(frame)
    }

    /// Append what the codec made of a frame.
    pub fn push_bytes(&mut self, bytes: &[u8])
        ensures
            final(self).out@ == old(self).out@ + bytes@,
            final(self).frame_len == old(self).frame_len,
            final(self).staging == old(self).staging,
    {
        self.out.extend_from_slice(bytes);
        assert(self.out@ =~= old(self).out@ + bytes@);
    }

    /// Begin to drain the codec. Samples that fill no frame are not encoded.
    pub fn begin_flush(&mut self)
        ensures
            final(self).out@.len() == 0,
            final(self).frame_len == old(self).frame_len,
            final(self).staging == old(self).staging,
    {
        self.out.clear();
    }

    /// Take the outcome of a draining round, the number of rounds done with
    /// it, and say whether another is due.
    pub fn flush_round(&mut self, rounds_done: u32, e: FlushEvent) -> (r: Result<bool, CrabError>)
        ensures
            final(self).frame_len == old(self).frame_len,
            final(self).staging == old(self).staging,
            match e {
                FlushEvent::Eof => r == Ok::<bool, CrabError>(false) && final(self).out@ == old(self).out@,
                FlushEvent::Failed(code) => (r matches Err(CrabError::Audio(m)) && m@
                    == "HE-AAC "@ + "flush failed"@ + " (error "@ + text::decimal(code as nat) + ")"@)
                    && final(self).out@ == old(self).out@,
                FlushEvent::Bytes(b) => r == Ok::<bool, CrabError>(
                    b@.len() > 0 && rounds_done < FLUSH_ROUNDS,
                ) && r == Ok::<bool, CrabError>(b@.len() > 0 && rounds_done < 8) && final(self).out@
                    == old(self).out@ + b@,
            },
    {
        match e {
            FlushEvent::Eof => Ok(false),
            FlushEvent::Failed(code) => Err(codec_error("flush failed", code)),
            FlushEvent::Bytes(b) => {
                self.out.extend_from_slice(b.as_slice());
                assert(self.out@ =~= old(self).out@ + b@);
                Ok(b.len() > 0 && rounds_done < FLUSH_ROUNDS)
            },
        }
    }
}

/// The rate of the codec is the one asked for, from sixteen to a hundred and
/// sixty.
pub proof fn codec_rates_are_in_range(kbps: u32)
    ensures
        16 <= used_kbps(kbps) <= 160,
        16 <= kbps <= 160 ==> used_kbps(kbps) == kbps,
        kbps < 16 ==> used_kbps(kbps) == 16,
        kbps > 160 ==> used_kbps(kbps) == 160,
{
}

} // verus!
