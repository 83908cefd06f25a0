//! One buffer of the output device: the frames that are pulled for it, what
//! the stream's tap is handed of them, their places in the buffer, and what
//! the transport makes of it afterwards.

use vstd::prelude::*;

use crate::audio::deck::Frame;
use crate::audio::engine::PlayerState;
use crate::audio::transport::Transport;
use crate::audio::deck;
use crate::audio::ring;
use crate::audio::silence;
use crate::audio::transport;

verus! {

/// Samples that the tap is handed at once.
pub const TAP_SAMPLES: usize = 8192;

/// A pulled frame is what is heard.
pub open spec fn gives<T>(
    r: Option<(Frame<T>, Option<Frame<T>>, (usize, usize))>,
    h: Option<deck::Heard<T>>,
) -> bool {
    match r {
        Some((a, b, x)) => h == Some(
            deck::Heard { live: a, incoming: b, blend: (x.0 as int, x.1 as int) },
        ),
        None => h is None,
    }
}

proof fn lemma_one_more_pull<T>(m: deck::Mix<T>, n: nat)
    ensures
        deck::pulls(m, n + 1) == deck::pulls(m, n).after_pull(),
    decreases n,
{
    if n > 0 {
        lemma_one_more_pull(m.after_pull(), (n - 1) as nat);
    } else {
        assert(deck::pulls(m.after_pull(), 0) == m.after_pull());
    }
}

/// Pull the frames of a buffer. A program that does not play gives none.
pub fn pull_block<T: Copy>(t: &mut Transport<T>, frames: usize) -> (r: Vec<
    Option<(Frame<T>, Option<Frame<T>>, (usize, usize))>,
>)
    requires
        old(t).wf(),
    ensures
        final(t).wf(),
        final(t).same_settings(*old(t)),
        r@.len() == frames,
        old(t).state == PlayerState::Playing ==> {
            &&& final(t).desk() == (transport::Desk {
                mix: deck::pulls(old(t).desk().mix, frames as nat),
                ..old(t).desk()
            })
            &&& forall|i: int|
                0 <= i < frames ==> gives(
                    #[trigger] r@[i],
                    deck::pulls(old(t).desk().mix, i as nat).heard(),
                )
        },
        old(t).state != PlayerState::Playing ==> {
            &&& final(t).desk() == old(t).desk()
            &&& forall|i: int| 0 <= i < frames ==> #[trigger] r@[i] is None
        },
{
    let ghost start = t.desk();
    let ghost playing = start.state == PlayerState::Playing;
    let mut r: Vec<Option<(Frame<T>, Option<Frame<T>>, (usize, usize))>> = Vec::new();
    while r.len() < frames
        invariant
            t.wf(),
            t.same_settings(*old(t)),
            start == old(t).desk(),
            playing == (start.state == PlayerState::Playing),
            r@.len() <= frames,
            playing ==> t.desk() == (transport::Desk {
                mix: deck::pulls(start.mix, r@.len()),
                ..start
            }),
            !playing ==> t.desk() == start,
            forall|i: int|
                0 <= i < r@.len() ==> if playing {
                    gives(#[trigger] r@[i], deck::pulls(start.mix, i as nat).heard())
                } else {
                    r@[i] is None
                },
        decreases frames - r@.len(),
    {
        proof {
            lemma_one_more_pull(start.mix, r@.len());
        }
        let f = t.next_frame();
        r.push(f);
    }
    r
}

/// The silence after the frames of a buffer.
pub open spec fn silence_after(count: int, playing: bool, quiet: Seq<bool>) -> int
    decreases quiet.len(),
{
    if quiet.len() == 0 {
        count
    } else {
        silence::after_frame(
            silence_after(count, playing, quiet.drop_last()),
            playing,
            quiet.last(),
        )
    }
}

/// A buffer went out, and its frames were quiet or not: count the silence, and
/// stop at the end of the program.
pub fn finish_block<T: Copy>(t: &mut Transport<T>, quiet: &Vec<bool>)
    requires
        old(t).wf(),
        old(t).silence.silent_frames + quiet@.len() <= u64::MAX,
    ensures
        final(t).wf(),
        final(t).same_settings(*old(t)),
        final(t).desk() == (transport::Desk {
            silent_frames: silence_after(
                old(t).silence.silent_frames as int,
                old(t).state == PlayerState::Playing,
                quiet@,
            ),
            state: if old(t).state == PlayerState::Playing && old(t).desk().played_out() {
                PlayerState::Stopped
            } else {
                old(t).state
            },
            ..old(t).desk()
        }),
{
    let playing = t.state == PlayerState::Playing;
    let ghost count = t.silence.silent_frames as int;
    let mut i: usize = 0;
    assert(quiet@.take(0) =~= Seq::empty());
    while i < quiet.len()
        invariant
            i <= quiet@.len(),
            t.wf(),
            t.same_settings(*old(t)),
            count == old(t).silence.silent_frames,
            count + quiet@.len() <= u64::MAX,
            playing == (old(t).state == PlayerState::Playing),
            t.silence.silent_frames == silence_after(count, playing, quiet@.take(i as int)),
            t.silence.silent_frames <= count + i,
            t.desk() == (transport::Desk {
                silent_frames: t.silence.silent_frames as int,
                ..old(t).desk()
            }),
        decreases quiet@.len() - i,
    {
        assert(quiet@.take(i + 1).drop_last() =~= quiet@.take(i as int));
        t.silence.push_frame(playing, quiet[i]);
        i = i + 1;
    }
    assert(quiet@.take(i as int) =~= quiet@);
    t.settle();
}

/// A channel of a frame: one channel carries both sides, and beyond two there
/// is nothing to hear.
pub open spec fn channel_of<T>(f: (Frame<T>, T), channels: int, c: int, nothing: T) -> T {
    if channels == 1 {
        f.1
    } else if c == 0 {
        f.0.l
    } else if c == 1 {
        f.0.r
    } else {
        nothing
    }
}

/// Frames as the device wants them, each with what one channel would carry of
/// it.
pub fn lay_out<T: Copy>(channels: usize, frames: &Vec<(Frame<T>, T)>, nothing: T) -> (r: Vec<T>)
    requires
        channels >= 1,
    ensures
        r@ == Seq::new(
            (frames@.len() * channels) as nat,
            |i: int|
                channel_of(
                    frames@[i / channels as int],
                    channels as int,
                    i % channels as int,
                    nothing,
                ),
        ),
{
    let mut r: Vec<T> = Vec::new();
    let mut k: usize = 0;
    let ghost wide = channels as int;
    assert(0 * wide == 0) by (nonlinear_arith);
    while k < frames.len()
        invariant
            k <= frames@.len(),
            wide == channels >= 1,
            r@.len() == k * wide,
            forall|i: int|
                0 <= i < r@.len() ==> #[trigger] r@[i] == channel_of(
                    frames@[i / wide],
                    wide,
                    i % wide,
                    nothing,
                ),
        decreases frames@.len() - k,
    {
        let (f, both) = frames[k];
        let mut c: usize = 0;
        while c < channels
            invariant
                c <= channels,
                k < frames@.len(),
                frames@[k as int] == (f, both),
                wide == channels >= 1,
                r@.len() == k * wide + c,
                forall|i: int|
                    0 <= i < r@.len() ==> #[trigger] r@[i] == channel_of(
                        frames@[i / wide],
                        wide,
                        i % wide,
                        nothing,
                    ),
            decreases channels - c,
        {
            proof {
                vstd::arithmetic::div_mod::lemma_fundamental_div_mod_converse(
                    k * wide + c,
                    wide,
                    k as int,
                    c as int,
                );
            }
            r.push(
                if channels == 1 {
                    both
                } else if c == 0 {
                    f.l
                } else if c == 1 {
                    f.r
                } else {
                    nothing
                },
            );
            c = c + 1;
        }
        assert(k * wide + wide == (k + 1) * wide) by (nonlinear_arith);
        k = k + 1;
    }
    r
}

/// Frames on their way to the tap, which is handed many at once.
#[derive(Debug)]
pub struct TapBuffer {
    pub staged: Vec<u32>,
}

impl TapBuffer {
    /// Whole frames, and no more than the tap is handed at once.
    pub open spec fn wf(self) -> bool {
        self.staged@.len() <= TAP_SAMPLES && self.staged@.len() % 2 == 0
    }

    /// Nothing staged.
    pub fn new() -> (b: Self)
        ensures
            b.wf(),
            b.staged@.len() == 0,
    {
        TapBuffer { staged: Vec::new() }
    }

    /// Stage a frame. Gives what is to be handed on first, where there is no
    /// room.
    pub fn push(&mut self, l: u32, r: u32) -> (chunk: Option<Vec<u32>>)
        requires
            old(self).wf(),
        ensures
            final(self).wf(),
            match chunk {
                Some(v) => old(self).staged@.len() + 2 > TAP_SAMPLES && v@ == old(self).staged@
                    && final(self).staged@ == seq![l, r],
                None => old(self).staged@.len() + 2 <= TAP_SAMPLES && final(self).staged@
                    == old(self).staged@ + seq![l, r],
            },
    {
        if self.staged.len() + 2 > TAP_SAMPLES {
            let mut chunk: Vec<u32> = vec![l, r];
            assert(chunk@ =~= seq![l, r]);
            std::mem::swap(&mut self.staged, &mut chunk);
            return Some(chunk);
        }
        self.staged.push(l);
        self.staged.push(r);
        assert(self.staged@ =~= old(self).staged@ + seq![l, r]);
        None
    }
}

/// What the tap was handed and what is staged, after frames.
pub open spec fn tapped(staged: Seq<u32>, frames: Seq<(u32, u32)>) -> (Seq<u32>, Seq<u32>)
    decreases frames.len(),
{
    if frames.len() == 0 {
        (Seq::empty(), staged)
    } else {
        let (handed, rest) = tapped(staged, frames.drop_last());
        let f = frames.last();
        if rest.len() + 2 > TAP_SAMPLES {
            (handed + rest, seq![f.0, f.1])
        } else {
            (handed, rest + seq![f.0, f.1])
        }
    }
}

/// The tap misses nothing: what it was handed, followed by what is staged, is
/// every frame once, in order, and never more than one chunk is staged.
pub proof fn taps_miss_nothing(staged: Seq<u32>, frames: Seq<(u32, u32)>)
    requires
        staged.len() <= TAP_SAMPLES,
    ensures
        tapped(staged, frames).0 + tapped(staged, frames).1 == staged + ring::flat(frames),
        tapped(staged, frames).1.len() <= TAP_SAMPLES,
    decreases frames.len(),
{
    if frames.len() == 0 {
        assert(Seq::<u32>::empty() + staged =~= staged + ring::flat(frames));
    } else {
        taps_miss_nothing(staged, frames.drop_last());
        let (handed, rest) = tapped(staged, frames.drop_last());
        let f = frames.last();
        assert(staged + ring::flat(frames) =~= handed + rest + seq![f.0, f.1]);
        assert(handed + (rest + seq![f.0, f.1]) =~= handed + rest + seq![f.0, f.1]);
    }
}

/// One channel plays the mix of both sides; of more, the first plays the left
/// side, the second the right one, and the others nothing.
pub proof fn sides_go_to_their_channels<T>(f: (Frame<T>, T), channels: int, c: int, nothing: T)
    requires
        1 <= channels,
        0 <= c < channels,
    ensures
        channels == 1 ==> channel_of(f, channels, c, nothing) == f.1,
        channels > 1 ==> channel_of(f, channels, 0, nothing) == f.0.l && channel_of(
            f,
            channels,
            1,
            nothing,
        ) == f.0.r,
        c >= 2 ==> channel_of(f, channels, c, nothing) == nothing,
{
}

/// Silence is counted over the end of a stretch: all of it where every frame
/// was quiet, and only what follows the last sound otherwise. A program that
/// does not play is not silent.
pub proof fn silence_is_counted_from_the_last_sound(count: int, quiet: Seq<bool>, last: int)
    requires
        -1 <= last < quiet.len(),
        last >= 0 ==> !quiet[last],
        forall|i: int| last < i < quiet.len() ==> #[trigger] quiet[i],
    ensures
        silence_after(count, true, quiet) == (if last < 0 {
            count + quiet.len()
        } else {
            quiet.len() - 1 - last
        }),
        quiet.len() > 0 ==> silence_after(count, false, quiet) == 0,
    decreases quiet.len(),
{
    if quiet.len() > 0 {
        let front = quiet.drop_last();
        if last < quiet.len() - 1 {
            assert(quiet[quiet.len() - 1]);
            assert forall|i: int| last < i < front.len() implies #[trigger] front[i] by {
                assert(front[i] == quiet[i]);
            }
            if last >= 0 {
                assert(front[last] == quiet[last]);
            }
            silence_is_counted_from_the_last_sound(count, front, last);
        }
    }
}

} // verus!
