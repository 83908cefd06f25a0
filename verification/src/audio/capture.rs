//! The microphone path: which input is opened, how its frames become stereo
//! at the output's rate, and whether it is on air.

use vstd::prelude::*;
use vstd::string::*;

use crate::audio::mic::{MicConfig, MicState, MIC_RING_SAMPLES};
use crate::error::CrabError;
use crate::text::{copy_opt, same_opt};
use crate::text;

verus! {

/// One way in which a device can record.
#[derive(Debug, Clone, Copy)]
pub struct InputConfig {
    /// Samples are 32-bit floats.
    pub is_f32: bool,
    pub channels: u16,
    pub min_rate: u32,
    pub max_rate: u32,
}

impl InputConfig {
    /// Can record at a rate without resampling.
    pub open spec fn fits(self, rate: u32) -> bool {
        self.is_f32 && self.channels >= 1 && self.min_rate <= rate <= self.max_rate
    }
}

/// The first way that needs no resampling, and the channels to open it with.
pub fn pick_input(supported: &Vec<InputConfig>, rate: u32) -> (r: Option<(usize, u16)>)
    ensures
        match r {
            Some((i, channels)) => {
                &&& i < supported@.len()
                &&& supported@[i as int].fits(rate)
                &&& forall|j: int| 0 <= j < i ==> !(#[trigger] supported@[j]).fits(rate)
                &&& channels == (if supported@[i as int].channels <= 8 {
                    supported@[i as int].channels
                } else {
                    8
                })
            },
            None => forall|j: int|
                0 <= j < supported@.len() ==> !(#[trigger] supported@[j]).fits(rate),
        },
{
    let mut i: usize = 0;
    while i < supported.len()
        invariant
            i <= supported@.len(),
            forall|j: int| 0 <= j < i ==> !(#[trigger] supported@[j]).fits(rate),
        decreases supported@.len() - i,
    {
        let c = supported[i];
        if c.is_f32 && c.channels >= 1 && c.min_rate <= rate && rate <= c.max_rate {
            let channels: u16 = if c.channels <= 8 {
                c.channels
            } else {
                8
            };
            return Some((i, channels));
        }
        i = i + 1;
    }
    None
}

/// Whether the usual way of a device can be used. Only floats are.
pub fn check_usual_input(is_f32: bool, name: &str) -> (r: Result<(), String>)
    ensures
        match r {
            Ok(_) => is_f32,
            Err(m) => !is_f32 && m@ == "input '"@ + name@ + "' offers no f32 capture config"@,
        },
{
    if is_f32 {
        return Ok(());
    }
    let mut m = String::from_str("input '");
    m.append(name);
    m.append("' offers no f32 capture config");
    Err(m)
}

/// The stereo frame that starts at a place of a chunk with a number of
/// channels. One channel is heard on both sides, and channels beyond the
/// second are not heard.
pub open spec fn frame_at<T>(data: Seq<T>, channels: int, i: int) -> (T, T) {
    let start = i * channels;
    (
        data[start],
        if channels >= 2 && start + 1 < data.len() {
            data[start + 1]
        } else {
            data[start]
        },
    )
}

/// The frames of a chunk, and one more for what is left over.
pub open spec fn frames_in(samples: int, channels: int) -> int {
    (samples + channels - 1) / channels
}

/// Every frame of a chunk as stereo.
pub open spec fn as_stereo<T>(data: Seq<T>, channels: int) -> Seq<(T, T)> {
    Seq::new(
        frames_in(data.len() as int, channels) as nat,
        |i: int| frame_at(data, channels, i),
    )
}

/// Turn interleaved input into stereo frames.
pub fn fold_channels<T: Copy>(data: &[T], channels: usize) -> (r: Vec<(T, T)>)
    ensures
        r@ == as_stereo(
            data@,
            if channels == 0 {
                1
            } else {
                channels as int
            },
        ),
{
    let n: usize = if channels == 0 {
        1
    } else {
        channels
    };
    let mut out: Vec<(T, T)> = Vec::new();
    let mut start: usize = 0;
    assert(0 == out@.len() * n) by (nonlinear_arith)
        requires
            out@.len() == 0,
    ;
    assert(frames_in(0, n as int) == 0) by (nonlinear_arith)
        requires
            n >= 1,
            frames_in(0, n as int) == (0 + n - 1) / n as int,
    ;
    while start < data.len()
        invariant
            n >= 1,
            start <= data@.len(),
            start == out@.len() * n || start == data@.len(),
            start == data@.len() ==> out@.len() == frames_in(data@.len() as int, n as int),
            forall|i: int|
                0 <= i < out@.len() ==> #[trigger] out@[i] == frame_at(data@, n as int, i),
        decreases data@.len() - start,
    {
        let ghost k = out@.len() as int;
        let room: usize = data.len() - start;
        if n >= 2 && room >= 2 {
            out.push((data[start], data[start + 1]));
        } else {
            out.push((data[start], data[start]));
        }
        assert(out@[k] == frame_at(data@, n as int, k));
        let ghost total = data@.len() as int;
        proof {
            assert(k * n + n == (k + 1) * n) by (nonlinear_arith);
            if room <= n {
                assert(frames_in(total, n as int) == k + 1) by (nonlinear_arith)
                    requires
                        n >= 1,
                        k * n < total <= k * n + n,
                        frames_in(total, n as int) == (total + n - 1) / n as int,
                ;
            }
        }
        if room <= n {
            start = data.len();
        } else {
            start = start + n;
        }
    }
    assert(out@ =~= as_stereo(data@, n as int));
    out
}

/// Samples to discard so that the microphone does not lag behind: whole
/// frames, down to a quarter of the ring, once more than half of it is taken.
pub fn excess(buffered: usize) -> (r: usize)
    ensures
        r <= buffered,
        buffered <= 65536 ==> r == 0,
        buffered > 65536 ==> 32768 <= buffered - r <= 32769 && r % 2 == 0,
        r == (if buffered > MIC_RING_SAMPLES / 2 {
            (buffered - MIC_RING_SAMPLES / 4) / 2 * 2
        } else {
            0
        }),
{
    if buffered > MIC_RING_SAMPLES / 2 {
        (buffered - MIC_RING_SAMPLES / 4) / 2 * 2
    } else {
        0
    }
}

/// Converts frames from one rate to another by going from each frame to the
/// next in even steps.
#[derive(Debug, Clone)]
pub struct MicResampler<T> {
    pub from: u32,
    pub to: u32,
    /// Output that is owed, in parts of a frame.
    pub credit: u64,
    pub prev: Option<(T, T)>,
}

/// A rate that is not nothing.
pub open spec fn rate_of(r: u32) -> u32 {
    if r == 0 {
        1
    } else {
        r
    }
}

/// Frames of output that one frame of input brings, given what was owed.
pub open spec fn due(credit: int, from: int, to: int) -> int {
    (credit + to) / from
}

/// What is owed afterwards.
pub open spec fn carried(credit: int, from: int, to: int) -> int {
    (credit + to) % from
}

impl<T: Copy> MicResampler<T> {
    /// Rates are at least one and less than a frame is owed.
    pub open spec fn wf(self) -> bool {
        self.from >= 1 && self.to >= 1 && self.credit < self.from
    }

    /// A converter that has heard nothing.
    pub fn new(from: u32, to: u32) -> (r: Self)
        ensures
            r.wf(),
            r.from == rate_of(from),
            r.to == rate_of(to),
            r.credit == 0,
            r.prev is None,
    {
        let f: u32 = if from == 0 {
            1
        } else {
            from
        };
        let t: u32 = if to == 0 {
            1
        } else {
            to
        };
        MicResampler { from: f, to: t, credit: 0, prev: None }
    }

    /// Hear one frame. Gives the frame before it, and for each frame of output
    /// how far it lies between the two, in parts of the input rate. The very
    /// first frame counts as its own predecessor.
    pub fn feed(&mut self, l: T, r: T) -> (s: (Vec<i64>, (T, T)))
        requires
            old(self).wf(),
        ensures
            final(self).wf(),
            final(self).from == old(self).from,
            final(self).to == old(self).to,
            final(self).prev == Some((l, r)),
            s.1 == (match old(self).prev {
                Some(p) => p,
                None => (l, r),
            }),
            s.0@.len() == due(old(self).credit as int, old(self).from as int, old(self).to as int),
            final(self).credit == carried(
                old(self).credit as int,
                old(self).from as int,
                old(self).to as int,
            ),
            forall|i: int|
                0 <= i < s.0@.len() ==> #[trigger] s.0@[i] == old(self).from - (old(self).credit
                    + old(self).to - (i + 1) * old(self).from),
    {
        let before = match self.prev {
            Some(p) => p,
            None => (l, r),
        };
        let from: u64 = self.from as u64;
        let owed: u64 = self.credit + self.to as u64;
        let mut left: u64 = owed;
        let mut out: Vec<i64> = Vec::new();
        assert(0 * from == 0) by (nonlinear_arith);
        while left >= from
            invariant
                from >= 1,
                from == old(self).from,
                owed == old(self).credit + old(self).to,
                owed < 0x2_0000_0000,
                left <= owed,
                left == owed - out@.len() * from,
                forall|i: int|
                    0 <= i < out@.len() ==> #[trigger] out@[i] == from - (owed - (i + 1) * from),
            decreases left,
        {
            let ghost k = out@.len() as int;
            assert((k + 1) * from == k * from + from) by (nonlinear_arith);
            left = left - from;
            out.push(from as i64 - left as i64);
        }
        proof {
            vstd::arithmetic::div_mod::lemma_fundamental_div_mod_converse(
                owed as int,
                from as int,
                out@.len() as int,
                left as int,
            );
        }
        self.credit = left;
        self.prev = Some((l, r));
        (out, before)
    }

    /// Forget everything heard.
    pub fn reset(&mut self)
        requires
            old(self).wf(),
        ensures
            final(self).wf(),
            *final(self) == (MicResampler { credit: 0, prev: None, ..*old(self) }),
    {
        self.credit = 0;
        self.prev = None;
    }
}

/// What is owed after a number of frames.
pub open spec fn owed_after(from: int, to: int, frames: nat) -> int
    decreases frames,
{
    if frames == 0 {
        0
    } else {
        carried(owed_after(from, to, (frames - 1) as nat), from, to)
    }
}

/// The frames that come out for a number of frames that go in.
pub open spec fn emitted(from: int, to: int, frames: nat) -> int
    decreases frames,
{
    if frames == 0 {
        0
    } else {
        emitted(from, to, (frames - 1) as nat) + due(
            owed_after(from, to, (frames - 1) as nat),
            from,
            to,
        )
    }
}

/// The converter keeps time: whatever went in, as many frames have come out as
/// the output plays in the same time, to within the one that is still owed.
pub proof fn rates_are_kept(from: int, to: int, frames: nat)
    requires
        from >= 1,
        to >= 1,
    ensures
        emitted(from, to, frames) * from + owed_after(from, to, frames) == frames * to,
        0 <= owed_after(from, to, frames) < from,
        emitted(from, to, frames) == frames * to / from,
        from == to ==> emitted(from, to, frames) == frames,
    decreases frames,
{
    if frames > 0 {
        let n = (frames - 1) as nat;
        rates_are_kept(from, to, n);
        let o = owed_after(from, to, n) + to;
        let e = emitted(from, to, n);
        vstd::arithmetic::div_mod::lemma_fundamental_div_mod(o, from);
        vstd::arithmetic::div_mod::lemma_mod_bound(o, from);
        assert((e + o / from) * from == e * from + from * (o / from)) by (nonlinear_arith);
        assert(n * to + to == frames * to) by (nonlinear_arith)
            requires
                n == frames - 1,
        ;
    } else {
        assert(0 * to == 0 && 0 * from == 0) by (nonlinear_arith);
    }
    vstd::arithmetic::div_mod::lemma_fundamental_div_mod_converse(
        frames * to,
        from,
        emitted(from, to, frames),
        owed_after(from, to, frames),
    );
    if from == to {
        assert(emitted(from, to, frames) == frames) by (nonlinear_arith)
            requires
                from >= 1,
                from == to,
                emitted(from, to, frames) * from + owed_after(from, to, frames) == frames * to,
                0 <= owed_after(from, to, frames) < from,
        ;
    }
}

/// The microphone as the player sees it.
#[derive(Debug)]
pub struct MicInput {
    pub config: MicConfig,
    pub live: bool,
    pub last: MicState,
}

impl MicInput {
    /// A microphone that is off.
    pub fn new() -> (r: Self)
        ensures
            !r.live,
            r.last is Off,
            call_ensures(<MicConfig as Default>::default, (), r.config),
    {
        MicInput { config: MicConfig::default(), live: false, last: MicState::Off }
    }

    /// Set the preferences. Tells whether the input has to be opened anew:
    /// a live microphone follows a change of its device.
    pub fn set_config(&mut self, config: MicConfig) -> (restart: bool)
        ensures
            final(self).config == config.cleaned(),
            final(self).live == old(self).live,
            final(self).last == old(self).last,
            restart == (old(self).live && text::opt_text(old(self).config.device)
                != text::opt_text(config.device)),
    {
        let clean = config.sanitized();
        let same = same_opt(&self.config.device, &clean.device);
        self.config = clean;
        !same && self.live
    }

    /// Go off air.
    pub fn stop(&mut self)
        ensures
            *final(self) == (MicInput { live: false, last: MicState::Off, ..*old(self) }),
    {
        self.live = false;
        self.last = MicState::Off;
    }

    /// Go off air in order to open the input anew. Gives the device to open.
    pub fn begin_start(&mut self) -> (device: Option<String>)
        ensures
            *final(self) == (MicInput { live: false, last: MicState::Off, ..*old(self) }),
            device == old(self).config.device,
    {
        self.stop();
        copy_opt(&self.config.device)
    }

    /// The input was opened, or was not.
    pub fn finish_start(&mut self, outcome: Result<(), String>) -> (r: Result<(), CrabError>)
        ensures
            final(self).config == old(self).config,
            match outcome {
                Ok(_) => r is Ok && final(self).live && final(self).last is Live,
                Err(m) => {
                    &&& r matches Err(CrabError::Audio(e)) && e@ == m@
                    &&& final(self).live == old(self).live
                    &&& final(self).last matches MicState::Error(e) && e@ == m@
                },
            },
    {
        match outcome {
            Ok(_) => {
                self.live = true;
                self.last = MicState::Live;
                Ok(())
            },
            Err(m) => {
                self.last = MicState::Error(m.clone());
                Err(CrabError::Audio(m))
            },
        }
    }

    /// The state that is shown.
    pub fn state(&self) -> (r: MicState)
        ensures
            r == (if self.live {
                MicState::Live
            } else {
                self.last
            }),
    {
        if self.live {
            return MicState::Live;
        }
        match &self.last {
            MicState::Off => MicState::Off,
            MicState::Live => MicState::Live,
            MicState::Error(m) => MicState::Error(m.clone()),
        }
    }

    /// The level that is shown, in millionths of a decibel.
    pub fn shown_level(&self, measured_udb: i64) -> (r: i64)
        ensures
            r == (if self.live {
                measured_udb as int
            } else {
                -99_000_000
            }),
    {
        if self.live {
            measured_udb
        } else {
            -99_000_000
        }
    }
}

/// Every frame of the input becomes one of the program: its first two channels,
/// or its only one twice. A last frame that is cut off is heard on both sides
/// where only its first sample is there.
pub proof fn frames_take_two_channels<T>(data: Seq<T>, channels: int, i: int)
    requires
        channels >= 1,
        0 <= i,
        i * channels < data.len(),
    ensures
        i < as_stereo(data, channels).len(),
        as_stereo(data, channels)[i].0 == data[i * channels],
        channels == 1 ==> as_stereo(data, channels)[i].1 == data[i * channels],
        channels >= 2 && i * channels + 1 < data.len() ==> as_stereo(data, channels)[i].1 == data[i
            * channels + 1],
        channels >= 2 && i * channels + 1 >= data.len() ==> as_stereo(data, channels)[i].1 == data[i
            * channels],
        (as_stereo(data, channels).len() - 1) * channels < data.len(),
        as_stereo(data, channels).len() * channels >= data.len(),
{
    let n = data.len() as int;
    let q = (n + channels - 1) / channels;
    assert(q * channels <= n + channels - 1 < q * channels + channels) by (nonlinear_arith)
        requires
            q == (n + channels - 1) / channels,
            channels >= 1,
    ;
    assert(0 <= q) by (nonlinear_arith)
        requires
            q == (n + channels - 1) / channels,
            channels >= 1,
            n >= 0,
    ;
    assert((q - 1) * channels == q * channels - channels) by (nonlinear_arith);
    assert(i < q) by (nonlinear_arith)
        requires
            i * channels < n,
            n + channels - 1 < q * channels + channels,
            channels >= 1,
    ;
}

/// An input is taken for a rate exactly where it gives samples of the right
/// sort, has a channel, and runs at that rate.
pub proof fn inputs_run_at_the_rate(c: InputConfig, rate: u32)
    ensures
        c.fits(rate) ==> c.is_f32 && c.channels > 0 && c.min_rate <= rate && rate <= c.max_rate,
        c.is_f32 && c.channels > 0 && c.min_rate <= rate && rate <= c.max_rate ==> c.fits(rate),
{
}

/// A rate of nothing counts as one, and every other as itself.
pub proof fn rates_are_never_nothing(r: u32)
    ensures
        rate_of(r) >= 1,
        r >= 1 ==> rate_of(r) == r,
        r == 0 ==> rate_of(r) == 1,
{
}

} // verus!
