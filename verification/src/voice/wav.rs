//! Recorded takes as files of 16-bit samples.

use vstd::bytes::{u16_to_le_bytes, u32_to_le_bytes};
use vstd::prelude::*;
use vstd::string::*;

use crate::error::CrabError;
use crate::text::push_decimal;
use crate::text;

verus! {

/// What a finished file holds.
#[derive(Debug, Clone, Copy, PartialEq, Eq, Structural)]
pub struct WavMeta {
    /// Samples per channel.
    pub samples: u64,
    pub channels: u16,
    pub sample_rate: u32,
}

impl WavMeta {
    /// The length in nanoseconds, to the nearest one; nothing at a rate of
    /// zero.
    pub fn duration_nanos(&self) -> (r: u64)
        requires
            self.samples < 0x4_0000_0000,
        ensures
            r == (if self.sample_rate == 0 {
                0
            } else {
                (2 * self.samples * 1_000_000_000 + self.sample_rate) / (2 * self.sample_rate)
            }),
    {
        if self.sample_rate == 0 {
            return 0;
        }
        let n: u128 = 2 * self.samples as u128 * 1_000_000_000 + self.sample_rate as u128;
        let d: u128 = 2 * self.sample_rate as u128;
        assert(n / d <= 0x4_0000_0000 * 1_000_000_000) by (nonlinear_arith)
            requires
                n == 2 * self.samples * 1_000_000_000 + self.sample_rate,
                d == 2 * self.sample_rate,
                self.sample_rate >= 1,
                self.samples < 0x4_0000_0000,
        ;
        (n / d) as u64
    }
}

/// The header of a file.
pub open spec fn header_bytes(channels: u16, rate: u32, data: u32) -> Seq<u8> {
    seq![0x52u8, 0x49u8, 0x46u8, 0x46u8] + vstd::bytes::spec_u32_to_le_bytes((36 + data) as u32)
        + seq![0x57u8, 0x41u8, 0x56u8, 0x45u8, 0x66u8, 0x6du8, 0x74u8, 0x20u8]
        + vstd::bytes::spec_u32_to_le_bytes(16) + vstd::bytes::spec_u16_to_le_bytes(1)
        + vstd::bytes::spec_u16_to_le_bytes(channels) + vstd::bytes::spec_u32_to_le_bytes(rate)
        + vstd::bytes::spec_u32_to_le_bytes((rate * channels * 2) as u32)
        + vstd::bytes::spec_u16_to_le_bytes((channels * 2) as u16)
        + vstd::bytes::spec_u16_to_le_bytes(16) + seq![0x64u8, 0x61u8, 0x74u8, 0x61u8]
        + vstd::bytes::spec_u32_to_le_bytes(data)
}

/// The header of a file.
pub fn header(channels: u16, rate: u32, data: u32) -> (h: Vec<u8>)
    requires
        1 <= channels <= 2,
        rate * channels * 2 <= u32::MAX,
        36 + data <= u32::MAX,
    ensures
        h@ == header_bytes(channels, rate, data),
        h@.len() == 44,
{
    proof {
        vstd::bytes::lemma_auto_spec_u16_to_from_le_bytes();
        vstd::bytes::lemma_auto_spec_u32_to_from_le_bytes();
        assert(rate * channels * 2 == (rate * channels) * 2 && rate * channels <= u32::MAX)
            by (nonlinear_arith)
            requires
                rate * channels * 2 <= u32::MAX,
        ;
    }
    let mut h: Vec<u8> = vec![0x52u8, 0x49u8, 0x46u8, 0x46u8];
    let mut riff = u32_to_le_bytes(36 + data);
    h.append(&mut riff);
    let mut wave: Vec<u8> = vec![0x57u8, 0x41u8, 0x56u8, 0x45u8, 0x66u8, 0x6du8, 0x74u8, 0x20u8];
    h.append(&mut wave);
    let mut size = u32_to_le_bytes(16);
    h.append(&mut size);
    let mut pcm = u16_to_le_bytes(1);
    h.append(&mut pcm);
    let mut count = u16_to_le_bytes(channels);
    h.append(&mut count);
    let mut per_second = u32_to_le_bytes(rate);
    h.append(&mut per_second);
    let mut byte_rate = u32_to_le_bytes(rate * channels as u32 * 2);
    h.append(&mut byte_rate);
    let mut align = u16_to_le_bytes(channels * 2);
    h.append(&mut align);
    let mut bits = u16_to_le_bytes(16);
    h.append(&mut bits);
    let mut tag: Vec<u8> = vec![0x64u8, 0x61u8, 0x74u8, 0x61u8];
    h.append(&mut tag);
    let mut length = u32_to_le_bytes(data);
    h.append(&mut length);
    assert(h@ =~= header_bytes(channels, rate, data));
    h
}

/// The bytes of samples.
pub open spec fn sample_bytes(s: Seq<i16>) -> Seq<u8>
    decreases s.len(),
{
    if s.len() == 0 {
        Seq::empty()
    } else {
        sample_bytes(s.drop_last()) + vstd::bytes::spec_u16_to_le_bytes(s.last() as u16)
    }
}

/// A file that is being recorded, as far as its header remembers it.
#[derive(Debug)]
pub struct WavWriter {
    pub channels: u16,
    pub sample_rate: u32,
    /// Samples per channel written.
    pub samples: u64,
}

/// Why a file cannot be made.
pub open spec fn refusal(channels: u16, rate: u32) -> Option<Seq<char>> {
    if channels == 0 || channels > 2 {
        Some(
            "WAV writer supports mono/stereo, got "@ + text::decimal(channels as nat)
                + " channels"@,
        )
    } else if rate == 0 {
        Some("WAV writer needs a nonzero rate"@)
    } else {
        None
    }
}

/// Whole frames in a chunk.
pub open spec fn whole_frames(len: int, channels: u16) -> int {
    len / channels as int
}

/// The bytes of audio behind a header.
pub open spec fn data_size(samples: u64, channels: u16) -> int {
    samples * channels * 2
}

impl WavWriter {
    /// Mono or stereo, at a rate.
    pub open spec fn wf(self) -> bool {
        1 <= self.channels <= 2 && self.sample_rate > 0
    }

    /// Begin a file. Its header comes first, with sizes of nothing.
    pub fn create(channels: u16, sample_rate: u32) -> (r: Result<Self, CrabError>)
        ensures
            match r {
                Ok(w) => refusal(channels, sample_rate) is None && w.wf() && w.channels == channels
                    && w.sample_rate == sample_rate && w.samples == 0,
                Err(CrabError::Audio(m)) => refusal(channels, sample_rate) == Some(m@),
                Err(_) => false,
            },
    {
        if channels == 0 || channels > 2 {
            let mut s = String::from_str("WAV writer supports mono/stereo, got ");
            push_decimal(&mut s, channels as u64);
            s.append(" channels");
            return Err(CrabError::Audio(s));
        }
        if sample_rate == 0 {
            return Err(CrabError::Audio(String::from_str("WAV writer needs a nonzero rate")));
        }
        Ok(WavWriter { channels, sample_rate, samples: 0 })
    }

    /// The bytes of interleaved samples. A partial frame at the end is
    /// dropped.
    pub fn write_frames(&mut self, interleaved: &[i16]) -> (out: Vec<u8>)
        requires
            old(self).wf(),
            old(self).samples + interleaved@.len() <= u64::MAX,
        ensures
            final(self).wf(),
            final(self).channels == old(self).channels,
            final(self).sample_rate == old(self).sample_rate,
            final(self).samples == old(self).samples + whole_frames(
                interleaved@.len() as int,
                old(self).channels,
            ),
            out@ == sample_bytes(
                interleaved@.take(
                    whole_frames(interleaved@.len() as int, old(self).channels) * old(self).channels,
                ),
            ),
    {
        let c: usize = self.channels as usize;
        let frames: usize = interleaved.len() / c;
        assert(frames * c <= interleaved@.len() && frames <= interleaved@.len()) by (nonlinear_arith)
            requires
                frames == interleaved@.len() as int / c as int,
                1 <= c,
        ;
        let n: usize = frames * c;
        let mut out: Vec<u8> = Vec::new();
        let mut i: usize = 0;
        assert(interleaved@.take(0) =~= Seq::empty());
        while i < n
            invariant
                i <= n <= interleaved@.len(),
                out@ == sample_bytes(interleaved@.take(i as int)),
            decreases n - i,
        {
            assert(interleaved@.take(i + 1).drop_last() =~= interleaved@.take(i as int));
            let mut b = u16_to_le_bytes(interleaved[i] as u16);
            out.append(&mut b);
            i = i + 1;
        }
        self.samples = self.samples + frames as u64;
        out
    }

    /// What the file holds at its end, and the sizes that go into its header,
    /// the whole behind byte four and the audio behind byte forty.
    pub fn finalize(self) -> (r: (WavMeta, Vec<u8>, Vec<u8>))
        requires
            self.wf(),
            data_size(self.samples, self.channels) <= u64::MAX,
            36 + data_size(self.samples, self.channels) % 0x1_0000_0000 <= u32::MAX,
        ensures
            r.0 == (WavMeta {
                samples: self.samples,
                channels: self.channels,
                sample_rate: self.sample_rate,
            }),
            r.1@ == vstd::bytes::spec_u32_to_le_bytes(
                (36 + data_size(self.samples, self.channels) % 0x1_0000_0000) as u32,
            ),
            r.2@ == vstd::bytes::spec_u32_to_le_bytes(
                (data_size(self.samples, self.channels) % 0x1_0000_0000) as u32,
            ),
    {
        assert(self.samples * self.channels <= u64::MAX && self.samples * self.channels * 2 == (
        self.samples * self.channels) * 2) by (nonlinear_arith)
            requires
                self.samples * self.channels * 2 <= u64::MAX,
        ;
        let data: u64 = self.samples * self.channels as u64 * 2;
        let low: u32 = (data % 0x1_0000_0000) as u32;
        let meta = WavMeta {
            samples: self.samples,
            channels: self.channels,
            sample_rate: self.sample_rate,
        };
        (meta, u32_to_le_bytes(36 + low), u32_to_le_bytes(low))
    }
}

proof fn lemma_sample_bytes(s: Seq<i16>)
    ensures
        sample_bytes(s).len() == 2 * s.len(),
    decreases s.len(),
{
    vstd::bytes::lemma_auto_spec_u16_to_from_le_bytes();
    if s.len() > 0 {
        lemma_sample_bytes(s.drop_last());
    }
}

/// The size that a header states is the size of the audio behind it: every
/// frame that is counted puts exactly its bytes into the file.
pub proof fn sizes_add_up(samples: u64, channels: u16, chunk: Seq<i16>)
    requires
        1 <= channels <= 2,
        samples + chunk.len() <= u64::MAX,
    ensures
        ({
            let frames = whole_frames(chunk.len() as int, channels);
            data_size((samples + frames) as u64, channels) == data_size(samples, channels)
                + sample_bytes(chunk.take(frames * channels)).len()
        }),
{
    let frames = whole_frames(chunk.len() as int, channels);
    assert(0 <= frames * channels <= chunk.len() && 0 <= frames <= chunk.len()) by (nonlinear_arith)
        requires
            frames == chunk.len() as int / channels as int,
            1 <= channels,
    ;
    lemma_sample_bytes(chunk.take(frames * channels));
    assert((samples + frames) * channels * 2 == samples * channels * 2 + frames * channels * 2)
        by (nonlinear_arith);
}

/// A header states the channels, the rate and the sizes that it was made for.
pub proof fn headers_read_back(channels: u16, rate: u32, data: u32)
    requires
        1 <= channels <= 2,
        36 + data <= u32::MAX,
    ensures
        header_bytes(channels, rate, data).len() == 44,
        vstd::bytes::spec_u32_from_le_bytes(header_bytes(channels, rate, data).subrange(4, 8)) == 36
            + data,
        vstd::bytes::spec_u16_from_le_bytes(header_bytes(channels, rate, data).subrange(22, 24))
            == channels,
        vstd::bytes::spec_u32_from_le_bytes(header_bytes(channels, rate, data).subrange(24, 28))
            == rate,
        vstd::bytes::spec_u32_from_le_bytes(header_bytes(channels, rate, data).subrange(40, 44))
            == data,
        vstd::bytes::spec_u16_from_le_bytes(header_bytes(channels, rate, data).subrange(20, 22)) == 1,
        vstd::bytes::spec_u32_from_le_bytes(header_bytes(channels, rate, data).subrange(16, 20)) == 16,
        rate * channels * 2 <= u32::MAX ==> vstd::bytes::spec_u32_from_le_bytes(
            header_bytes(channels, rate, data).subrange(28, 32),
        ) == rate * channels * 2,
        vstd::bytes::spec_u16_from_le_bytes(header_bytes(channels, rate, data).subrange(32, 34))
            == channels * 2,
        vstd::bytes::spec_u16_from_le_bytes(header_bytes(channels, rate, data).subrange(34, 36)) == 16,
        header_bytes(channels, rate, data).take(4) == seq!['R', 'I', 'F', 'F'].map_values(
            |c: char| c as u8,
        ),
        header_bytes(channels, rate, data).subrange(8, 16) == seq![
            'W',
            'A',
            'V',
            'E',
            'f',
            'm',
            't',
            ' ',
        ].map_values(|c: char| c as u8),
        header_bytes(channels, rate, data).subrange(36, 40) == seq!['d', 'a', 't', 'a'].map_values(
            |c: char| c as u8,
        ),
{
    vstd::bytes::lemma_auto_spec_u16_to_from_le_bytes();
    vstd::bytes::lemma_auto_spec_u32_to_from_le_bytes();
    let h = header_bytes(channels, rate, data);
    assert(vstd::bytes::spec_u32_to_le_bytes((36 + data) as u32).len() == 4);
    assert(vstd::bytes::spec_u32_to_le_bytes(16).len() == 4);
    assert(vstd::bytes::spec_u16_to_le_bytes(1).len() == 2);
    assert(vstd::bytes::spec_u16_to_le_bytes(channels).len() == 2);
    assert(vstd::bytes::spec_u32_to_le_bytes(rate).len() == 4);
    assert(vstd::bytes::spec_u32_to_le_bytes((rate * channels * 2) as u32).len() == 4);
    assert(vstd::bytes::spec_u16_to_le_bytes((channels * 2) as u16).len() == 2);
    assert(vstd::bytes::spec_u16_to_le_bytes(16).len() == 2);
    assert(vstd::bytes::spec_u32_to_le_bytes(data).len() == 4);
    assert(h.subrange(4, 8) =~= vstd::bytes::spec_u32_to_le_bytes((36 + data) as u32));
    assert(h.subrange(22, 24) =~= vstd::bytes::spec_u16_to_le_bytes(channels));
    assert(h.subrange(24, 28) =~= vstd::bytes::spec_u32_to_le_bytes(rate));
    assert(h.subrange(40, 44) =~= vstd::bytes::spec_u32_to_le_bytes(data));
    assert(h.subrange(20, 22) =~= vstd::bytes::spec_u16_to_le_bytes(1));
    assert(h.subrange(16, 20) =~= vstd::bytes::spec_u32_to_le_bytes(16));
    assert(h.subrange(28, 32) =~= vstd::bytes::spec_u32_to_le_bytes((rate * channels * 2) as u32));
    assert(h.subrange(32, 34) =~= vstd::bytes::spec_u16_to_le_bytes((channels * 2) as u16));
    assert(h.subrange(34, 36) =~= vstd::bytes::spec_u16_to_le_bytes(16));
    assert(0 <= rate * channels * 2) by (nonlinear_arith)
        requires
            0 <= rate,
            0 <= channels,
    ;
    assert(h.take(4) =~= seq!['R', 'I', 'F', 'F'].map_values(|c: char| c as u8));
    assert(h.subrange(8, 16) =~= seq!['W', 'A', 'V', 'E', 'f', 'm', 't', ' '].map_values(
        |c: char| c as u8,
    ));
    assert(h.subrange(36, 40) =~= seq!['d', 'a', 't', 'a'].map_values(|c: char| c as u8));
}

/// Every sample takes two bytes, in its place, and reads back from them.
pub proof fn samples_read_back(s: Seq<i16>, i: int)
    requires
        0 <= i < s.len(),
    ensures
        sample_bytes(s).len() == 2 * s.len(),
        vstd::bytes::spec_u16_from_le_bytes(sample_bytes(s).subrange(2 * i, 2 * i + 2)) == s[i] as u16,
    decreases s.len(),
{
    vstd::bytes::lemma_auto_spec_u16_to_from_le_bytes();
    let front = s.drop_last();
    let one = vstd::bytes::spec_u16_to_le_bytes(s.last() as u16);
    assert(one.len() == 2);
    lemma_sample_bytes(front);
    lemma_sample_bytes(s);
    if i < front.len() {
        samples_read_back(front, i);
        assert(sample_bytes(s).subrange(2 * i, 2 * i + 2) =~= sample_bytes(front).subrange(
            2 * i,
            2 * i + 2,
        ));
    } else {
        assert(sample_bytes(s).subrange(2 * i, 2 * i + 2) =~= one);
    }
}

/// A file is refused exactly where it has no channel, more than two, or no
/// rate.
pub proof fn files_are_mono_or_stereo(channels: u16, rate: u32)
    ensures
        refusal(channels, rate) is None <==> (channels == 1 || channels == 2) && rate > 0,
{
}

} // verus!
