//! Decks and the blend from one to the next.

use std::collections::VecDeque;

use vstd::prelude::*;

verus! {

/// A stereo frame.
#[derive(Debug, Clone, Copy)]
pub struct Frame<T> {
    pub l: T,
    pub r: T,
}

/// Decoded material and the place up to which it was played.
#[derive(Debug)]
pub struct PlaybackCursor<T> {
    /// Interleaved stereo.
    pub samples: Vec<T>,
    /// Frames that were played.
    pub pos_frames: usize,
}

/// What a deck holds, and the frames of it that were played.
pub ghost struct Deck<T> {
    pub samples: Seq<T>,
    pub pos: int,
}

impl<T> Deck<T> {
    /// Frames that are still to be played.
    pub open spec fn left(self) -> int {
        self.samples.len() as int / 2 - self.pos
    }

    /// The frame that comes next.
    pub open spec fn frame(self) -> Frame<T> {
        Frame { l: self.samples[2 * self.pos], r: self.samples[2 * self.pos + 1] }
    }

    /// The deck one frame further.
    pub open spec fn stepped(self) -> Deck<T> {
        Deck { pos: self.pos + 1, ..self }
    }

    /// The frames that are still to be played.
    pub open spec fn rest(self) -> Seq<Frame<T>> {
        Seq::new(
            self.left() as nat,
            |i: int|
                Frame {
                    l: self.samples[2 * (self.pos + i)],
                    r: self.samples[2 * (self.pos + i) + 1],
                },
        )
    }

    /// No more was played than there is.
    pub open spec fn wf(self) -> bool {
        0 <= self.pos && 0 <= self.left()
    }
}

impl<T: Copy> PlaybackCursor<T> {
    /// What this deck holds.
    pub open spec fn deck(self) -> Deck<T> {
        Deck { samples: self.samples@, pos: self.pos_frames as int }
    }

    /// A deck at its start.
    pub fn new(samples: Vec<T>) -> (c: Self)
        ensures
            c.deck() == (Deck { samples: samples@, pos: 0 }),
            c.deck().wf(),
    {
        PlaybackCursor { samples, pos_frames: 0 }
    }

    /// Play the next frame, if there is one.
    pub fn next_stereo(&mut self) -> (r: Option<(T, T)>)
        requires
            old(self).deck().wf(),
        ensures
            final(self).deck().wf(),
            match r {
                Some((l, r)) => old(self).deck().left() > 0
                    && final(self).deck() == old(self).deck().stepped()
                    && old(self).deck().frame() == (Frame { l, r }),
                None => old(self).deck().left() == 0 && *final(self) == *old(self),
            },
    {
        if self.pos_frames >= self.samples.len() / 2 {
            return None;
        }
        let i: usize = self.pos_frames * 2;
        self.pos_frames = self.pos_frames + 1;
        Some((self.samples[i], self.samples[i + 1]))
    }

    /// Frames that are still to be played.
    pub fn remaining_frames(&self) -> (n: usize)
        requires
            self.deck().wf(),
        ensures
            n == self.deck().left(),
    {
        self.samples.len() / 2 - self.pos_frames
    }

    /// Whether the deck is played out.
    pub fn is_done(&self) -> (r: bool)
        requires
            self.deck().wf(),
        ensures
            r == (self.deck().left() == 0),
    {
        self.remaining_frames() == 0
    }
}

/// The live deck, the decks behind it, and the blend between the first two.
#[derive(Debug)]
pub struct XfadeState<T> {
    pub current: Option<PlaybackCursor<T>>,
    /// Decks in the order in which they play.
    pub next: VecDeque<PlaybackCursor<T>>,
    /// Frames into the blend.
    pub pos: usize,
    /// Frames that the blend lasts; none for no blend.
    pub len: usize,
    /// Frames before its end at which a deck starts to blend into the next;
    /// none for a hard takeover.
    pub auto_len: usize,
}

/// The state of the decks.
pub ghost struct Mix<T> {
    pub current: Option<Deck<T>>,
    pub next: Seq<Deck<T>>,
    pub pos: int,
    pub len: int,
    pub auto_len: int,
}

/// What one pull gives: a frame of the live deck, a frame of the incoming one
/// during a blend, and how far the blend is, as a fraction.
pub ghost struct Heard<T> {
    pub live: Frame<T>,
    pub incoming: Option<Frame<T>>,
    pub blend: (int, int),
}

/// Nothing of this deck is left.
pub open spec fn over<T>(d: Option<Deck<T>>) -> bool {
    match d {
        Some(c) => c.left() == 0,
        None => true,
    }
}

impl<T> Mix<T> {
    /// No deck was played beyond its end, and a blend is not over.
    pub open spec fn wf(self) -> bool {
        &&& self.current matches Some(c) ==> c.wf()
        &&& forall|i: int| 0 <= i < self.next.len() ==> (#[trigger] self.next[i]).wf()
        &&& 0 <= self.pos
        &&& self.len > 0 ==> self.pos < self.len
    }

    /// The next deck takes over, without a blend.
    pub open spec fn promoted(self) -> Mix<T> {
        Mix {
            current: Some(self.next[0]),
            next: self.next.drop_first(),
            pos: 0,
            len: 0,
            ..self
        }
    }

    /// A blend starts where the live deck nears its end and another waits.
    pub open spec fn armed(self) -> Mix<T> {
        if self.len == 0 && self.auto_len > 0 && self.current is Some && self.next.len() > 0 {
            let here = self.current->0.left();
            let there = self.next[0].left();
            if 0 < here <= self.auto_len && there > 0 {
                Mix {
                    len: if here <= there {
                        here
                    } else {
                        there
                    },
                    pos: 0,
                    ..self
                }
            } else {
                self
            }
        } else {
            self
        }
    }

    /// The state after the blend took its frame of the incoming deck.
    pub open spec fn after_blend(self) -> Mix<T> {
        if self.len <= 0 {
            self
        } else if self.next.len() == 0 {
            Mix { len: 0, ..self }
        } else if self.next[0].left() == 0 {
            Mix { next: self.next.drop_first(), pos: 0, len: 0, ..self }
        } else if self.pos + 1 >= self.len {
            Mix {
                current: Some(self.next[0].stepped()),
                next: self.next.drop_first(),
                pos: 0,
                len: 0,
                ..self
            }
        } else {
            Mix {
                next: seq![self.next[0].stepped()] + self.next.drop_first(),
                pos: self.pos + 1,
                ..self
            }
        }
    }

    /// What is heard of the blend.
    pub open spec fn blend_heard(self, live: Frame<T>) -> Heard<T> {
        if self.len > 0 && self.next.len() > 0 && self.next[0].left() > 0 {
            Heard {
                live,
                incoming: Some(self.next[0].frame()),
                blend: (self.pos, self.len),
            }
        } else {
            Heard { live, incoming: None, blend: (0, 1) }
        }
    }

    /// The live deck has played its frame, and a blend may have started.
    pub open spec fn moved(self) -> Mix<T> {
        Mix { current: Some(self.current->0.stepped()), ..self }.armed()
    }

    /// The decks from which a pull takes its frame: the next one takes over
    /// where the live one is played out, and once more where that is empty.
    pub open spec fn ready(self) -> Mix<T> {
        if !over(self.current) || self.next.len() == 0 {
            self
        } else {
            let first = self.promoted();
            if over(first.current) && first.next.len() > 0 {
                first.promoted()
            } else {
                first
            }
        }
    }

    /// The state after a pull.
    pub open spec fn after_pull(self) -> Mix<T> {
        let m = self.ready();
        if over(m.current) {
            m
        } else {
            m.moved().after_blend()
        }
    }

    /// What a pull gives; nothing where there is nothing to play.
    pub open spec fn heard(self) -> Option<Heard<T>> {
        let m = self.ready();
        if over(m.current) {
            None
        } else {
            Some(m.moved().blend_heard(m.current->0.frame()))
        }
    }
}

impl<T: Copy> XfadeState<T> {
    /// The state of the decks.
    pub open spec fn mix(self) -> Mix<T> {
        Mix {
            current: match self.current {
                Some(c) => Some(c.deck()),
                None => None,
            },
            next: self.next@.map_values(|c: PlaybackCursor<T>| c.deck()),
            pos: self.pos as int,
            len: self.len as int,
            auto_len: self.auto_len as int,
        }
    }

    /// No deck at all.
    pub fn new() -> (x: Self)
        ensures
            x.mix().wf(),
            x.mix() == (Mix::<T> {
                current: None,
                next: Seq::empty(),
                pos: 0,
                len: 0,
                auto_len: 0,
            }),
    {
        let x = XfadeState { current: None, next: VecDeque::new(), pos: 0, len: 0, auto_len: 0 };
        assert(x.mix().next =~= Seq::empty());
        x
    }

    /// Whether the live deck is played out or missing.
    fn live_over(&self) -> (r: bool)
        requires
            self.mix().wf(),
        ensures
            r == over(self.mix().current),
    {
        match &self.current {
            Some(c) => c.is_done(),
            None => true,
        }
    }

    /// Let the next deck take over, if there is one.
    fn promote(&mut self) -> (r: bool)
        requires
            old(self).mix().wf(),
        ensures
            final(self).mix().wf(),
            r == (old(self).mix().next.len() > 0),
            final(self).mix() == (if r {
                old(self).mix().promoted()
            } else {
                old(self).mix()
            }),
    {
        let ghost before = self.next@;
        match self.next.pop_front() {
            Some(n) => {
                proof {
                    let decks = before.map_values(|c: PlaybackCursor<T>| c.deck());
                    assert(self.next@.map_values(|c: PlaybackCursor<T>| c.deck())
                        =~= decks.drop_first());
                    assert(decks[0] == n.deck());
                }
                self.current = Some(n);
                self.pos = 0;
                self.len = 0;
                true
            },
            None => {
                assert(self.mix().next =~= old(self).mix().next);
                false
            },
        }
    }

    /// Pull one frame: of the live deck, of the incoming deck during a blend,
    /// and how far the blend is, as a fraction. Nothing where there is nothing
    /// to play.
    pub fn pull(&mut self) -> (r: Option<(Frame<T>, Option<Frame<T>>, (usize, usize))>)
        requires
            old(self).mix().wf(),
        ensures
            final(self).mix().wf(),
            final(self).mix() == old(self).mix().after_pull(),
            match r {
                Some((a, b, x)) => old(self).mix().heard() == Some(
                    Heard { live: a, incoming: b, blend: (x.0 as int, x.1 as int) },
                ),
                None => old(self).mix().heard() is None,
            },
    {
        if self.live_over() {
            if !self.promote() {
                return None;
            }
            if self.live_over() {
                if !self.promote() {
                    return None;
                }
            }
        }
        assert(self.mix() == old(self).mix().ready());
        let ghost ready = self.mix();
        let mut cur = match self.current.take() {
            Some(c) => c,
            None => {
                return None;
            },
        };
        let a = match cur.next_stereo() {
            Some((l, r)) => Frame { l, r },
            None => {
                self.current = Some(cur);
                return None;
            },
        };
        let remaining: usize = cur.remaining_frames();
        self.current = Some(cur);
        assert(self.mix() == (Mix { current: Some(ready.current->0.stepped()), ..ready }));
        self.arm(remaining);
        let ghost moved = self.mix();
        if self.len > 0 {
            let ghost before = self.next@;
            match self.next.pop_front() {
                Some(n) => {
                    let mut n = n;
                    proof {
                        let decks = before.map_values(|c: PlaybackCursor<T>| c.deck());
                        assert(decks[0] == n.deck());
                        assert(self.next@.map_values(|c: PlaybackCursor<T>| c.deck())
                            =~= decks.drop_first());
                    }
                    let ghost tail = self.next@;
                    match n.next_stereo() {
                        Some((l, r)) => {
                            let x = (self.pos, self.len);
                            self.pos = self.pos + 1;
                            if self.pos >= self.len {
                                self.current = Some(n);
                                self.pos = 0;
                                self.len = 0;
                            } else {
                                self.next.push_front(n);
                                assert(self.next@.map_values(|c: PlaybackCursor<T>| c.deck())
                                    =~= seq![n.deck()] + tail.map_values(
                                    |c: PlaybackCursor<T>| c.deck(),
                                ));
                            }
                            assert(self.mix() == moved.after_blend());
                            return Some((a, Some(Frame { l, r }), x));
                        },
                        None => {
                            self.pos = 0;
                            self.len = 0;
                            assert(self.mix() == moved.after_blend());
                        },
                    }
                },
                None => {
                    self.len = 0;
                    assert(self.mix().next =~= moved.next);
                    assert(self.mix() == moved.after_blend());
                },
            }
        }
        Some((a, None, (0, 1)))
    }

    /// Start a blend where one is due, the live deck having so many frames
    /// left.
    fn arm(&mut self, remaining: usize)
        requires
            old(self).mix().wf(),
            old(self).mix().current matches Some(c) && c.left() == remaining,
        ensures
            final(self).mix().wf(),
            final(self).mix() == old(self).mix().armed(),
    {
        if self.len == 0 && self.auto_len > 0 && self.next.len() > 0 {
            assert(self.mix().next[0] == self.next@[0].deck());
            let there: usize = self.next[0].remaining_frames();
            if remaining > 0 && remaining <= self.auto_len && there > 0 {
                self.len = if remaining <= there {
                    remaining
                } else {
                    there
                };
                self.pos = 0;
            }
        }
    }

    /// Whether there is nothing left to play.
    pub fn is_done(&self) -> (r: bool)
        requires
            self.mix().wf(),
        ensures
            r == (over(self.mix().current) && self.mix().next.len() == 0),
    {
        self.live_over() && self.next.len() == 0
    }
}

/// The frames of decks, one deck after the other.
pub open spec fn in_turn<T>(decks: Seq<Deck<T>>) -> Seq<Frame<T>>
    decreases decks.len(),
{
    if decks.len() == 0 {
        Seq::empty()
    } else {
        decks[0].rest() + in_turn(decks.drop_first())
    }
}

/// Everything that is still to be played, in the order of the decks.
pub open spec fn lineup<T>(m: Mix<T>) -> Seq<Frame<T>> {
    (match m.current {
        Some(c) => c.rest(),
        None => Seq::empty(),
    }) + in_turn(m.next)
}

/// Hard takeovers only, and no empty deck in the queue.
pub open spec fn plain<T>(m: Mix<T>) -> bool {
    &&& m.wf()
    &&& m.len == 0
    &&& m.auto_len == 0
    &&& forall|i: int| 0 <= i < m.next.len() ==> (#[trigger] m.next[i]).left() > 0
}

/// The state after so many pulls.
pub open spec fn pulls<T>(m: Mix<T>, n: nat) -> Mix<T>
    decreases n,
{
    if n == 0 {
        m
    } else {
        pulls(m.after_pull(), (n - 1) as nat)
    }
}

/// The live frames of so many pulls.
pub open spec fn played<T>(m: Mix<T>, n: nat) -> Seq<Frame<T>>
    decreases n,
{
    if n == 0 {
        Seq::empty()
    } else {
        match m.heard() {
            Some(h) => seq![h.live] + played(m.after_pull(), (n - 1) as nat),
            None => Seq::empty(),
        }
    }
}

proof fn lemma_rest<T>(d: Deck<T>)
    requires
        d.wf(),
        d.left() > 0,
    ensures
        d.rest() == seq![d.frame()] + d.stepped().rest(),
        d.stepped().wf(),
{
    assert(d.rest() =~= seq![d.frame()] + d.stepped().rest());
}

proof fn lemma_plain_pull<T>(m: Mix<T>)
    requires
        plain(m),
    ensures
        plain(m.after_pull()),
        lineup(m).len() == 0 <==> m.heard() is None,
        m.heard() matches Some(h) ==> h.incoming is None && lineup(m) == seq![h.live] + lineup(
            m.after_pull(),
        ),
{
    let r = m.ready();
    if over(m.current) {
        if m.next.len() == 0 {
            match m.current {
                Some(c) => {
                    assert(c.rest() =~= Seq::empty());
                },
                None => {},
            }
            assert(lineup(m) =~= Seq::empty());
        } else {
            assert(m.next[0].left() > 0);
            assert(r == m.promoted());
            match m.current {
                Some(c) => {
                    assert(c.rest() =~= Seq::empty());
                },
                None => {},
            }
            assert(lineup(m) =~= m.next[0].rest() + in_turn(m.next.drop_first()));
            assert(lineup(m) == lineup(r));
        }
    }
    if !over(r.current) {
        let c = r.current->0;
        assert forall|i: int| 0 <= i < r.next.len() implies (#[trigger] r.next[i]).left() > 0
            && r.next[i].wf() by {
            if over(m.current) {
                assert(r.next[i] == m.next[i + 1]);
            }
        }
        lemma_rest(c);
        let after = m.after_pull();
        assert(after == (Mix { current: Some(c.stepped()), ..r }));
        assert(lineup(r) =~= seq![c.frame()] + (c.stepped().rest() + in_turn(r.next)));
        assert(lineup(r) == seq![c.frame()] + lineup(after));
    }
}

/// Decks that are queued play in their order: without blends, what is heard
/// is every frame of every deck, once, from the first to the last.
pub proof fn queued_decks_play_in_order<T>(m: Mix<T>, n: nat)
    requires
        plain(m),
        n <= lineup(m).len(),
    ensures
        played(m, n) == lineup(m).take(n as int),
    decreases n,
{
    if n > 0 {
        lemma_plain_pull(m);
        let h = m.heard()->0;
        let after = m.after_pull();
        assert(lineup(m).len() == 1 + lineup(after).len());
        queued_decks_play_in_order(after, (n - 1) as nat);
        assert(played(m, n) =~= lineup(m).take(n as int));
    } else {
        assert(lineup(m).take(0) =~= Seq::empty());
    }
}

/// A frame of interleaved stereo.
pub open spec fn frame_at<T>(samples: Seq<T>, i: int) -> Frame<T> {
    Frame { l: samples[2 * i], r: samples[2 * i + 1] }
}

/// A deck so many frames further.
pub open spec fn further<T>(d: Deck<T>, k: int) -> Deck<T> {
    Deck { pos: d.pos + k, ..d }
}

/// A blend runs its length: with enough of both decks left, every pull is one
/// step further into it, and after the last step the incoming deck is live,
/// exactly as far as it was heard.
pub proof fn blends_run_their_length<T>(m: Mix<T>, k: nat)
    requires
        m.wf(),
        m.len > 0,
        m.next.len() > 0,
        m.current is Some,
        m.current->0.left() >= m.len - m.pos,
        m.next[0].left() >= m.len - m.pos,
        k <= m.len - m.pos,
    ensures
        k < m.len - m.pos ==> {
            &&& pulls(m, k).pos == m.pos + k
            &&& pulls(m, k).len == m.len
            &&& pulls(m, k).current == Some(further(m.current->0, k as int))
            &&& pulls(m, k).next.len() > 0
            &&& pulls(m, k).next[0] == further(m.next[0], k as int)
            &&& pulls(m, k).heard() matches Some(h) && h.blend == (m.pos + k, m.len) && h.live
                == frame_at(m.current->0.samples, m.current->0.pos + k) && h.incoming == Some(
                frame_at(m.next[0].samples, m.next[0].pos + k),
            )
        },
        k == m.len - m.pos ==> {
            &&& pulls(m, k).len == 0
            &&& pulls(m, k).current == Some(further(m.next[0], k as int))
            &&& pulls(m, k).next == m.next.drop_first()
        },
    decreases k,
{
    let c = m.current->0;
    let d = m.next[0];
    if k == 0 {
        assert(further(c, 0) == c && further(d, 0) == d);
    } else {
        let m1 = m.after_pull();
        assert(m.ready() == m);
        assert(m.moved() == (Mix { current: Some(c.stepped()), ..m }));
        if m.pos + 1 >= m.len {
            assert(k == 1);
            assert(pulls(m1, 0) == m1);
            assert(further(d, 1) == d.stepped());
        } else {
            assert(m1.next[0] == d.stepped());
            assert(m1.next.drop_first() =~= m.next.drop_first());
            assert forall|i: int| 0 <= i < m1.next.len() implies (#[trigger] m1.next[i]).wf() by {
                if i > 0 {
                    assert(m1.next[i] == m.next[i]);
                }
            }
            blends_run_their_length(m1, (k - 1) as nat);
            assert(further(c.stepped(), k - 1) == further(c, k as int));
            assert(further(d.stepped(), k - 1) == further(d, k as int));
        }
    }
}

/// A blend starts on time: where none runs and blends are on, the pull that
/// leaves the live deck no more frames than a blend should last is the first
/// step of one, if the first deck that waits holds anything, whatever waits
/// behind it. The blend lasts as long as both decks do. A pull that leaves more
/// frames, or none, is heard alone.
pub proof fn blends_start_on_time<T>(m: Mix<T>)
    requires
        m.wf(),
        m.len == 0,
        m.current is Some,
        m.current->0.pos < m.current->0.samples.len() as int / 2,
    ensures
        ({
            let c = m.current->0;
            let after = c.samples.len() as int / 2 - c.pos - 1;
            let there = if m.next.len() > 0 {
                m.next[0].samples.len() as int / 2 - m.next[0].pos
            } else {
                0
            };
            let shorter = if after <= there {
                after
            } else {
                there
            };
            &&& m.heard() is Some
            &&& m.heard()->0.live == frame_at(c.samples, c.pos)
            &&& 0 < after <= m.auto_len && there > 0 ==> {
                &&& m.heard()->0.incoming == Some(frame_at(m.next[0].samples, m.next[0].pos))
                &&& m.heard()->0.blend == (0int, shorter)
                &&& shorter > 1 ==> m.after_pull() == (Mix {
                    current: Some(Deck { pos: c.pos + 1, ..c }),
                    next: m.next.update(0, Deck { pos: m.next[0].pos + 1, ..m.next[0] }),
                    pos: 1,
                    len: shorter,
                    auto_len: m.auto_len,
                })
                &&& shorter == 1 ==> m.after_pull() == (Mix {
                    current: Some(Deck { pos: m.next[0].pos + 1, ..m.next[0] }),
                    next: m.next.skip(1),
                    pos: 0,
                    len: 0,
                    auto_len: m.auto_len,
                })
            }
            &&& (after == 0 || after > m.auto_len || m.auto_len <= 0 || there == 0) ==> {
                &&& m.heard()->0.incoming is None
                &&& m.heard()->0.blend == (0int, 1int)
                &&& m.after_pull() == (Mix { current: Some(Deck { pos: c.pos + 1, ..c }), ..m })
            }
        }),
{
    let c = m.current->0;
    let moved = m.moved();
    assert(m.ready() == m);
    if m.next.len() > 0 {
        assert(m.next[0].wf());
        assert(seq![m.next[0].stepped()] + m.next.drop_first() =~= m.next.update(
            0,
            Deck { pos: m.next[0].pos + 1, ..m.next[0] },
        ));
        assert(m.next.drop_first() =~= m.next.skip(1));
    }
}

/// Takeovers leave no gap: once the live deck is played out, the same pull
/// gives the first frame of the deck that waits, and of the one behind it where
/// that is empty. A pull gives nothing only where none of them holds anything.
pub proof fn takeovers_leave_no_gap<T>(m: Mix<T>)
    requires
        m.wf(),
        m.current matches Some(c) ==> c.pos == c.samples.len() as int / 2,
    ensures
        m.next.len() == 0 ==> m.heard() is None && m.after_pull() == m,
        m.next.len() > 0 && m.next[0].pos < m.next[0].samples.len() as int / 2 ==> m.heard() is Some
            && m.heard()->0.live == frame_at(m.next[0].samples, m.next[0].pos),
        m.next.len() == 1 && m.next[0].pos == m.next[0].samples.len() as int / 2 ==> m.heard() is None,
        m.next.len() > 1 && m.next[0].pos == m.next[0].samples.len() as int / 2 ==> (
        if m.next[1].pos < m.next[1].samples.len() as int / 2 {
            m.heard() is Some && m.heard()->0.live == frame_at(m.next[1].samples, m.next[1].pos)
        } else {
            m.heard() is None
        }),
{
    if m.next.len() > 0 {
        assert(m.next[0].wf());
        if m.next.len() > 1 {
            assert(m.next[1].wf());
            assert(m.next.drop_first()[0] == m.next[1]);
        }
    }
}

/// Every pull that gives something plays exactly one frame of the live deck,
/// and one of the incoming deck where there is one: no frame is skipped, and
/// none comes twice.
pub proof fn pulls_play_frame_by_frame<T>(m: Mix<T>)
    requires
        m.wf(),
        m.current is Some,
        m.current->0.pos < m.current->0.samples.len() as int / 2,
    ensures
        ({
            let c = m.current->0;
            let after = m.after_pull();
            &&& m.heard() is Some
            &&& m.heard()->0.live == frame_at(c.samples, c.pos)
            &&& m.heard()->0.incoming is None ==> after.current == Some(Deck { pos: c.pos + 1, ..c })
                && (after.next == m.next || (m.next.len() > 0 && m.next[0].pos
                == m.next[0].samples.len() as int / 2 && after.next == m.next.skip(1)))
            &&& m.heard()->0.incoming is Some ==> {
                let d = m.next[0];
                let stepped = Deck { pos: d.pos + 1, ..d };
                &&& m.next.len() > 0
                &&& d.pos < d.samples.len() as int / 2
                &&& m.heard()->0.incoming == Some(frame_at(d.samples, d.pos))
                &&& (after.current == Some(Deck { pos: c.pos + 1, ..c }) && after.next
                    == m.next.update(0, stepped)) || (after.current == Some(stepped) && after.next
                    == m.next.skip(1))
            }
        }),
{
    assert(m.ready() == m);
    if m.next.len() > 0 {
        let d = m.next[0];
        assert(d.wf());
        assert(seq![d.stepped()] + m.next.drop_first() =~= m.next.update(0, d.stepped()));
        assert(m.next.drop_first() =~= m.next.skip(1));
    }
}

/// A deck that takes over starts afresh: whatever was left of a blend is
/// forgotten, and the program goes on as if the new deck had been alone.
pub proof fn takeovers_start_afresh<T>(m: Mix<T>)
    requires
        m.wf(),
        m.current matches Some(c) ==> c.pos == c.samples.len() as int / 2,
        m.next.len() > 0,
        m.next[0].pos < m.next[0].samples.len() as int / 2,
    ensures
        ({
            let alone = Mix {
                current: Some(m.next[0]),
                next: m.next.skip(1),
                pos: 0,
                len: 0,
                auto_len: m.auto_len,
            };
            m.heard() == alone.heard() && m.after_pull() == alone.after_pull()
        }),
{
    assert(m.next.skip(1) =~= m.next.drop_first());
}

/// A blend counts its frames one by one and ends as it should; where nothing
/// blends, none is left behind.
pub proof fn blends_count_their_frames<T>(m: Mix<T>)
    requires
        m.wf(),
        0 <= m.len,
        m.current is Some,
        m.current->0.pos < m.current->0.samples.len() as int / 2,
    ensures
        ({
            let h = m.heard()->0;
            let after = m.after_pull();
            &&& h.incoming is None ==> after.len == 0
            &&& h.incoming is Some && h.blend.0 + 1 < h.blend.1 ==> after.len == h.blend.1 && after.pos
                == h.blend.0 + 1 && after.current == Some(
                Deck { pos: m.current->0.pos + 1, ..m.current->0 },
            )
            &&& h.incoming is Some && h.blend.0 + 1 >= h.blend.1 ==> after.len == 0 && after.pos == 0
                && after.current == Some(Deck { pos: m.next[0].pos + 1, ..m.next[0] })
            &&& m.len > 0 && h.incoming is Some ==> h.blend == (m.pos, m.len)
            &&& after.auto_len == m.auto_len
        }),
{
}

/// A track is over with its last whole frame, and what is left of it goes down
/// frame by frame.
pub proof fn decks_run_down<T>(d: Deck<T>)
    requires
        d.wf(),
    ensures
        over(Some(d)) <==> 2 * (d.pos + 1) > d.samples.len(),
        d.left() > 0 ==> d.stepped().left() == d.left() - 1 && d.rest().drop_first() =~= d.stepped().rest()
            && d.rest()[0] == d.frame(),
        d.rest().len() == d.left(),
        over(None::<Deck<T>>),
{
    if d.left() > 0 {
        let a = d.rest().drop_first();
        let b = d.stepped().rest();
        assert forall|i: int| 0 <= i < b.len() implies a[i] == b[i] by {
            assert(d.pos + (i + 1) == d.stepped().pos + i);
        }
        assert(a =~= b);
    }
}

} // verus!
