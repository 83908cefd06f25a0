//! Decoded material on its way to a deck: gathering it as stereo, and cutting
//! it up for a resampler.

use vstd::prelude::*;
use vstd::string::*;

use crate::audio::channels::deal;
use crate::audio::channels;
use crate::error::CrabError;

verus! {

/// The rate of a file that does not say.
pub const USUAL_RATE: u32 = 44100;

/// One channel twice, or two side by side as far as the shorter one goes.
pub open spec fn stereo_of<T>(first: Seq<T>, second: Option<Seq<T>>) -> Seq<T> {
    match second {
        Some(s) => channels::woven(
            first,
            s,
            if first.len() <= s.len() {
                first.len()
            } else {
                s.len()
            },
        ),
        None => channels::woven(first, first, first.len()),
    }
}

/// Interleave two channels, as far as a number of frames.
pub fn weave<T: Copy>(out: &mut Vec<T>, left: &[T], right: &[T], frames: usize)
    requires
        frames <= left@.len(),
        frames <= right@.len(),
    ensures
        final(out)@ == old(out)@ + channels::woven(left@, right@, frames as nat),
{
    let mut i: usize = 0;
    assert(out@ + channels::woven(left@, right@, 0) =~= out@);
    while i < frames
        invariant
            i <= frames,
            frames <= left@.len(),
            frames <= right@.len(),
            out@ == old(out)@ + channels::woven(left@, right@, i as nat),
        decreases frames - i,
    {
        out.push(left[i]);
        out.push(right[i]);
        i = i + 1;
        assert(out@ =~= old(out)@ + channels::woven(left@, right@, i as nat));
    }
}

/// The track to decode: the first one with a known codec.
pub fn pick_track(known_codec: &Vec<bool>) -> (r: Result<usize, CrabError>)
    ensures
        match r {
            Ok(i) => i < known_codec@.len() && known_codec@[i as int] && forall|j: int|
                0 <= j < i ==> !#[trigger] known_codec@[j],
            Err(CrabError::Audio(m)) => m@ == "no audio track"@ && !known_codec@.contains(true),
            Err(_) => false,
        },
{
    let mut i: usize = 0;
    while i < known_codec.len()
        invariant
            i <= known_codec@.len(),
            forall|j: int| 0 <= j < i ==> !#[trigger] known_codec@[j],
        decreases known_codec@.len() - i,
    {
        if known_codec[i] {
            return Ok(i);
        }
        i = i + 1;
    }
    Err(CrabError::Audio(String::from_str("no audio track")))
}

/// What a buffer in a format that cannot be read fails with.
pub fn format_error() -> (r: CrabError)
    ensures
        r matches CrabError::Audio(m) && m@ == "unsupported sample format (scaffold)"@,
{
    CrabError::Audio(String::from_str("unsupported sample format (scaffold)"))
}

/// Gathers decoded buffers as one interleaved stereo program.
#[derive(Debug)]
pub struct DecodeSink<T> {
    pub stereo: Vec<T>,
    /// Rate of the first buffer.
    pub rate: Option<u32>,
}

impl<T: Copy> DecodeSink<T> {
    /// Nothing yet.
    pub fn new() -> (s: Self)
        ensures
            s.stereo@ == Seq::<T>::empty(),
            s.rate is None,
    {
        DecodeSink { stereo: Vec::new(), rate: None }
    }

    /// Add a buffer: its first channel, and its second where it has one.
    /// Further channels are not heard.
    pub fn push_buffer(&mut self, rate: u32, first: &[T], second: Option<&[T]>)
        ensures
            final(self).stereo@ == old(self).stereo@ + stereo_of(
                first@,
                match second {
                    Some(s) => Some(s@),
                    None => None,
                },
            ),
            final(self).rate == (if old(self).rate is Some {
                old(self).rate
            } else {
                Some(rate)
            }),
    {
        if self.rate.is_none() {
            self.rate = Some(rate);
        }
        match second {
            Some(s) => {
                let n: usize = if first.len() <= s.len() {
                    first.len()
                } else {
                    s.len()
                };
                weave(&mut self.stereo, first, s, n);
            },
            None => weave(&mut self.stereo, first, first, first.len()),
        }
    }

    /// The program and its rate. A file without sound is an error.
    pub fn finish(self) -> (r: Result<(Vec<T>, u32), CrabError>)
        ensures
            match r {
                Ok((samples, rate)) => self.stereo@.len() > 0 && samples@ == self.stereo@ && rate
                    == (match self.rate {
                    Some(x) => x,
                    None => USUAL_RATE,
                }),
                Err(CrabError::Audio(m)) => self.stereo@.len() == 0 && m@ == "decoded 0 samples"@,
                Err(_) => false,
            },
    {
        if self.stereo.len() == 0 {
            return Err(CrabError::Audio(String::from_str("decoded 0 samples")));
        }
        let rate: u32 = match self.rate {
            Some(x) => x,
            None => USUAL_RATE,
        };
        Ok((self.stereo, rate))
    }
}

/// Frames that a program has at another rate, to the nearest whole one.
pub open spec fn scaled_frames(frames: int, from: int, to: int) -> int {
    (2 * frames * to + from) / (2 * from)
}

/// Whether a program has to be resampled.
pub fn needs_resampling(samples: usize, from: u32, to: u32) -> (r: bool)
    ensures
        r == (from != to && samples > 0),
{
    from != to && samples > 0
}

/// A stereo program that is being resampled.
#[derive(Debug)]
pub struct ResampleRun<T> {
    /// What is still to be handed to the resampler.
    pub left: Vec<T>,
    pub right: Vec<T>,
    /// What came back.
    pub out_left: Vec<T>,
    pub out_right: Vec<T>,
    /// Frames that are kept of it.
    pub want: usize,
}

/// The first samples of a queue, filled up with silence.
pub open spec fn padded<T>(s: Seq<T>, need: int, zero: T) -> Seq<T> {
    if s.len() >= need {
        s.subrange(0, need)
    } else {
        s + Seq::new((need - s.len()) as nat, |i: int| zero)
    }
}

/// A queue without its first samples.
pub open spec fn rest_of<T>(s: Seq<T>, need: int) -> Seq<T> {
    if s.len() >= need {
        s.subrange(need, s.len() as int)
    } else {
        Seq::empty()
    }
}

/// The first samples of a sequence, or all of them.
pub open spec fn at_most<T>(s: Seq<T>, n: int) -> Seq<T> {
    if s.len() <= n {
        s
    } else {
        s.subrange(0, n)
    }
}

fn take_padded<T: Copy>(v: &mut Vec<T>, need: usize, zero: T) -> (r: Vec<T>)
    ensures
        r@ == padded(old(v)@, need as int, zero),
        final(v)@ == rest_of(old(v)@, need as int),
{
    let mut r: Vec<T> = Vec::new();
    let mut i: usize = 0;
    let n: usize = if v.len() < need {
        v.len()
    } else {
        need
    };
    while i < n
        invariant
            i <= n,
            n <= v@.len(),
            r@ == v@.subrange(0, i as int),
            v@ == old(v)@,
        decreases n - i,
    {
        r.push(v[i]);
        i = i + 1;
        assert(r@ =~= v@.subrange(0, i as int));
    }
    while i < need
        invariant
            n <= i <= need || i == n,
            n <= v@.len(),
            n == v@.len() || n == need,
            n <= need,
            r@ == v@.subrange(0, n as int) + Seq::new((i - n) as nat, |j: int| zero),
            v@ == old(v)@,
        decreases need - i,
    {
        r.push(zero);
        i = i + 1;
        assert(r@ =~= v@.subrange(0, n as int) + Seq::new((i - n) as nat, |j: int| zero));
    }
    assert(r@ =~= padded(v@, need as int, zero));
    let rest = v.split_off(n);
    *v = rest;
    assert(v@ =~= rest_of(old(v)@, need as int));
    r
}

/// Whether a program can be resampled: it has a rate, and what it has at the
/// new one fits in memory.
pub fn resampled_fits(samples: usize, from: u32, to: u32) -> (r: bool)
    ensures
        r == (from > 0 && scaled_frames(samples as int / 2, from as int, to as int) <= usize::MAX),
{
    if from == 0 {
        return false;
    }
    let f: u128 = (samples / 2) as u128;
    let t: u128 = to as u128;
    assert(0 <= f * t <= 0xffff_ffff_ffff_ffff * 0xffff_ffff) by (nonlinear_arith)
        requires
            f <= 0xffff_ffff_ffff_ffff,
            t <= 0xffff_ffff,
    ;
    assert(2 * f * t == 2 * (f * t)) by (nonlinear_arith);
    let want: u128 = (2 * f * t + from as u128) / (2 * from as u128);
    want <= usize::MAX as u128
}

impl<T: Copy> ResampleRun<T> {
    /// Prepare to resample an interleaved program. What it has at the new
    /// rate must fit in memory.
    pub fn new(interleaved: &[T], from: u32, to: u32) -> (r: Self)
        requires
            from > 0,
            scaled_frames(interleaved@.len() as int / 2, from as int, to as int) <= usize::MAX,
        ensures
            r.left@ == channels::evens(interleaved@.subrange(0, interleaved@.len() as int / 2 * 2)),
            r.right@ == channels::odds(interleaved@.subrange(0, interleaved@.len() as int / 2 * 2)),
            r.out_left@ == Seq::<T>::empty(),
            r.out_right@ == Seq::<T>::empty(),
            r.want == scaled_frames(interleaved@.len() as int / 2, from as int, to as int),
    {
        let frames: usize = interleaved.len() / 2;
        let mut left: Vec<T> = Vec::new();
        let mut right: Vec<T> = Vec::new();
        let pairs = vstd::slice::slice_subrange(interleaved, 0, frames * 2);
        deal(&mut left, &mut right, pairs);
        assert(left@ =~= channels::evens(pairs@));
        assert(right@ =~= channels::odds(pairs@));
        let f: u128 = frames as u128;
        let t: u128 = to as u128;
        assert(0 <= f * t <= 0xffff_ffff_ffff_ffff * 0xffff_ffff) by (nonlinear_arith)
            requires
                f <= 0xffff_ffff_ffff_ffff,
                t <= 0xffff_ffff,
        ;
        assert(2 * f * t == 2 * (f * t)) by (nonlinear_arith);
        let want: u128 = (2 * f * t + from as u128) / (2 * from as u128);
        ResampleRun {
            left,
            right,
            out_left: Vec::new(),
            out_right: Vec::new(),
            want: want as usize,
        }
    }

    /// The next chunk for the resampler, filled up with silence at the end.
    pub fn next_chunk(&mut self, need: usize, zero: T) -> (r: Option<(Vec<T>, Vec<T>)>)
        requires
            old(self).left@.len() == old(self).right@.len(),
        ensures
            final(self).left@.len() == final(self).right@.len(),
            final(self).out_left == old(self).out_left,
            final(self).out_right == old(self).out_right,
            final(self).want == old(self).want,
            match r {
                Some((a, b)) => {
                    &&& old(self).left@.len() > 0
                    &&& a@ == padded(old(self).left@, need as int, zero)
                    &&& b@ == padded(old(self).right@, need as int, zero)
                    &&& final(self).left@ == rest_of(old(self).left@, need as int)
                    &&& final(self).right@ == rest_of(old(self).right@, need as int)
                },
                None => old(self).left@.len() == 0 && *final(self) == *old(self),
            },
    {
        if self.left.len() == 0 {
            return None;
        }
        let a = take_padded(&mut self.left, need, zero);
        let b = take_padded(&mut self.right, need, zero);
        Some((a, b))
    }

    /// Take what came back.
    pub fn push_rendered(&mut self, left: &[T], right: &[T])
        ensures
            final(self).out_left@ == old(self).out_left@ + left@,
            final(self).out_right@ == old(self).out_right@ + right@,
            final(self).left == old(self).left,
            final(self).right == old(self).right,
            final(self).want == old(self).want,
    {
        append_all(&mut self.out_left, left);
        append_all(&mut self.out_right, right);
    }

    /// The resampled program, cut to its exact length.
    pub fn finish(self) -> (r: Vec<T>)
        ensures
            r@ == stereo_of(
                at_most(self.out_left@, self.want as int),
                Some(at_most(self.out_right@, self.want as int)),
            ),
    {
        let mut left = self.out_left;
        let mut right = self.out_right;
        if left.len() > self.want {
            left.truncate(self.want);
        }
        if right.len() > self.want {
            right.truncate(self.want);
        }
        assert(left@ =~= at_most(self.out_left@, self.want as int));
        assert(right@ =~= at_most(self.out_right@, self.want as int));
        let n: usize = if left.len() <= right.len() {
            left.len()
        } else {
            right.len()
        };
        let mut out: Vec<T> = Vec::new();
        weave(&mut out, left.as_slice(), right.as_slice(), n);
        assert(out@ =~= channels::woven(left@, right@, n as nat));
        out
    }
}

fn append_all<T: Copy>(v: &mut Vec<T>, s: &[T])
    ensures
        final(v)@ == old(v)@ + s@,
{
    let mut i: usize = 0;
    assert(v@ =~= v@ + s@.subrange(0, 0));
    while i < s.len()
        invariant
            i <= s@.len(),
            v@ == old(v)@ + s@.subrange(0, i as int),
        decreases s@.len() - i,
    {
        v.push(s[i]);
        i = i + 1;
        assert(v@ =~= old(v)@ + s@.subrange(0, i as int));
    }
    assert(s@.subrange(0, i as int) =~= s@);
}

/// The chunks that a resampler is handed, one after another.
pub open spec fn handed<T>(s: Seq<T>, need: int, zero: T) -> Seq<T>
    decreases s.len(),
{
    if s.len() == 0 || need <= 0 {
        Seq::empty()
    } else {
        padded(s, need, zero) + handed(rest_of(s, need), need, zero)
    }
}

/// No sample is lost on the way to the resampler: the chunks one after
/// another start with the whole program, and only silence follows it.
pub proof fn chunks_hold_the_program<T>(s: Seq<T>, need: int, zero: T)
    requires
        need > 0,
    ensures
        handed(s, need, zero).len() >= s.len(),
        handed(s, need, zero).len() as int % need == 0,
        handed(s, need, zero).subrange(0, s.len() as int) == s,
        forall|i: int|
            s.len() <= i < handed(s, need, zero).len() ==> handed(s, need, zero)[i] == zero,
    decreases s.len(),
{
    let h = handed(s, need, zero);
    if s.len() > 0 {
        let r = rest_of(s, need);
        chunks_hold_the_program(r, need, zero);
        let t = handed(r, need, zero);
        assert(h == padded(s, need, zero) + t);
        assert(padded(s, need, zero).len() == need);
        vstd::arithmetic::div_mod::lemma_mod_add_multiples_vanish(t.len() as int, need);
        assert((need + t.len()) % need == 0);
        if s.len() <= need {
            assert(r.len() == 0);
            assert(t =~= Seq::empty());
        } else {
            assert(t.subrange(0, r.len() as int) == r);
            assert forall|i: int| 0 <= i < s.len() implies h[i] == s[i] by {
                if i >= need {
                    assert(h[i] == t[i - need]);
                    assert(t.subrange(0, r.len() as int)[i - need] == t[i - need]);
                    assert(r[i - need] == s[i]);
                }
            }
        }
        assert(h.subrange(0, s.len() as int) =~= s);
    } else {
        assert(h.subrange(0, 0) =~= s);
        assert(0int % need == 0) by (nonlinear_arith)
            requires
                need > 0,
        ;
    }
}

/// Decoded audio is stereo: one channel is heard on both sides, two are heard
/// one each, as long as both last, and further ones not at all.
pub proof fn decoded_audio_is_stereo<T>(first: Seq<T>, second: Option<Seq<T>>, i: int)
    requires
        0 <= i,
    ensures
        second is None ==> stereo_of(first, second).len() == 2 * first.len(),
        second is Some ==> stereo_of(first, second).len() == 2 * (if first.len() <= second->0.len() {
            first.len()
        } else {
            second->0.len()
        }),
        second is None && i < first.len() ==> stereo_of(first, second)[2 * i] == first[i] && stereo_of(
            first,
            second,
        )[2 * i + 1] == first[i],
        second is Some && i < first.len() && i < second->0.len() ==> stereo_of(first, second)[2 * i]
            == first[i] && stereo_of(first, second)[2 * i + 1] == second->0[i],
{
    match second {
        Some(s) => {
            channels::samples_take_turns(
                Seq::<T>::empty(),
                first,
                s,
                if first.len() <= s.len() {
                    first.len()
                } else {
                    s.len()
                },
                i,
            );
        },
        None => {
            channels::samples_take_turns(Seq::<T>::empty(), first, first, first.len(), i);
        },
    }
}

/// A change of rate keeps the time: as many frames as there are at the new rate
/// in the time of the old ones, to the nearest.
pub proof fn rates_keep_the_time(frames: int, from: int, to: int)
    requires
        0 <= frames,
        0 < from,
        0 < to,
    ensures
        2 * scaled_frames(frames, from, to) * from <= 2 * frames * to + from,
        2 * frames * to < 2 * scaled_frames(frames, from, to) * from + from,
        from == to ==> scaled_frames(frames, from, to) == frames,
{
    let a = 2 * frames * to + from;
    let b = 2 * from;
    let q = a / b;
    assert(q * b <= a < q * b + b) by (nonlinear_arith)
        requires
            q == a / b,
            b > 0,
    ;
    assert(q * b == 2 * q * from) by (nonlinear_arith)
        requires
            b == 2 * from,
    ;
    if from == to {
        assert(q == frames) by (nonlinear_arith)
            requires
                q * (2 * from) <= 2 * frames * from + from,
                2 * frames * from + from < q * (2 * from) + 2 * from,
                from > 0,
        ;
    }
}

} // verus!
