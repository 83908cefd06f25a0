//! The transport: what play, queue, pause and stop do, and what happens when
//! decoded material arrives later.

use std::collections::VecDeque;

use vstd::prelude::*;
use vstd::string::*;

use crate::audio::deck::{Frame, PlaybackCursor, XfadeState};
use crate::audio::engine::{PlayerState, TrackInfo};
use crate::audio::level::clamp;
use crate::audio::loudness::MAX_GAIN_UDB;
use crate::audio::silence::SilenceMonitor;
use crate::error::CrabError;
use crate::audio::deck;
use crate::audio::level;
use crate::audio::silence;
use crate::text;

verus! {

/// Something to decode. The generation tells whether it is still wanted.
#[derive(Debug)]
pub enum LoadJob {
    /// Play now, as a blend where something was live when it was asked for.
    Play { path: String, gen: u64, was_live: bool, gain_udb: i64 },
    /// Play behind everything else.
    Queue { path: String, gen: u64, gain_udb: i64 },
}

impl LoadJob {
    /// The generation of this job.
    pub open spec fn generation(self) -> u64 {
        match self {
            LoadJob::Play { path, gen, was_live, gain_udb } => gen,
            LoadJob::Queue { path, gen, gain_udb } => gen,
        }
    }

    /// The path of this job.
    pub open spec fn file(self) -> Seq<char> {
        match self {
            LoadJob::Play { path, gen, was_live, gain_udb } => path@,
            LoadJob::Queue { path, gen, gain_udb } => path@,
        }
    }

    /// The generation of this job.
    pub fn gen(&self) -> (r: u64)
        ensures
            r == self.generation(),
    {
        match self {
            LoadJob::Play { gen, .. } => *gen,
            LoadJob::Queue { gen, .. } => *gen,
        }
    }
}

/// What is shown of the loaded track.
pub ghost struct Shown {
    pub path: Seq<char>,
    pub title: Option<Seq<char>>,
    pub artist: Option<Seq<char>>,
    pub duration_nanos: Option<u64>,
}

/// A track of which only the path and perhaps the length are known.
pub open spec fn untagged(path: Seq<char>, duration_nanos: Option<u64>) -> Shown {
    Shown { path, title: None, artist: None, duration_nanos }
}

/// The transport as it stands.
pub ghost struct Desk<T> {
    pub mix: deck::Mix<T>,
    pub state: PlayerState,
    /// The loaded track.
    pub track: Option<Shown>,
    pub load_gen: u64,
    pub loading: bool,
    pub silent_frames: int,
    /// Frames that a blend should last.
    pub blend: int,
}

/// The generation after another.
pub open spec fn next_gen(g: u64) -> u64 {
    if g == u64::MAX {
        0
    } else {
        (g + 1) as u64
    }
}

/// Frames that a blend of some microseconds lasts at a rate.
pub open spec fn blend_frames(us: int, rate: int) -> int {
    let n = us * rate / 1_000_000;
    if n > usize::MAX {
        usize::MAX as int
    } else {
        n
    }
}

/// The smaller of two numbers.
pub open spec fn least(a: int, b: int) -> int {
    if a <= b {
        a
    } else {
        b
    }
}

impl<T> Desk<T> {
    /// Something is on air.
    pub open spec fn live(self) -> bool {
        self.state == PlayerState::Playing && !deck::over(self.mix.current)
    }

    /// Nothing is left to play.
    pub open spec fn played_out(self) -> bool {
        deck::over(self.mix.current) && self.mix.next.len() == 0
    }

    /// A track was asked for, to play at once.
    pub open spec fn asked(self, path: Seq<char>) -> Desk<T> {
        let d = Desk {
            load_gen: next_gen(self.load_gen),
            loading: true,
            silent_frames: 0,
            ..self
        };
        if self.live() {
            d
        } else {
            Desk { track: Some(untagged(path, None)), state: PlayerState::Buffering, ..d }
        }
    }

    /// A deck arrived that is to play at once.
    pub open spec fn with_play(
        self,
        path: Seq<char>,
        gen: u64,
        d: deck::Deck<T>,
        duration: Option<u64>,
        was_live: bool,
    ) -> Desk<T> {
        let here = match self.mix.current {
            Some(c) => c.left(),
            None => 0,
        };
        let shortest = least(least(self.blend, here), d.left());
        Desk {
            mix: if was_live {
                deck::Mix {
                    current: self.mix.current,
                    next: seq![d],
                    pos: 0,
                    len: if shortest < 1 {
                        1
                    } else {
                        shortest
                    },
                    auto_len: self.blend,
                }
            } else {
                deck::Mix {
                    current: Some(d),
                    next: Seq::empty(),
                    pos: 0,
                    len: 0,
                    auto_len: self.blend,
                }
            },
            loading: self.loading && self.load_gen != gen,
            silent_frames: 0,
            track: Some(untagged(path, duration)),
            state: if self.state == PlayerState::Paused {
                PlayerState::Paused
            } else {
                PlayerState::Playing
            },
            ..self
        }
    }

    /// A deck arrived that is to play behind everything else.
    pub open spec fn with_queue(
        self,
        path: Seq<char>,
        d: deck::Deck<T>,
        duration: Option<u64>,
    ) -> Desk<T> {
        Desk {
            mix: if !self.played_out() {
                deck::Mix { next: self.mix.next.push(d), auto_len: self.blend, ..self.mix }
            } else {
                deck::Mix {
                    current: Some(d),
                    pos: 0,
                    len: 0,
                    auto_len: self.blend,
                    ..self.mix
                }
            },
            silent_frames: 0,
            state: PlayerState::Playing,
            track: Some(untagged(path, duration)),
            ..self
        }
    }

    /// A load failed.
    pub open spec fn load_failed(self, gen: u64, was_live: bool) -> Desk<T> {
        if self.load_gen != gen {
            self
        } else if was_live || self.state != PlayerState::Buffering {
            Desk { loading: false, ..self }
        } else {
            Desk { loading: false, state: PlayerState::Stopped, track: None, ..self }
        }
    }

    /// A job came to an end, with its deck or without. What is no longer
    /// wanted changes nothing.
    pub open spec fn loaded(self, job: LoadJob, deck: Option<(deck::Deck<T>, Option<u64>)>) -> Desk<T> {
        if job.generation() != self.load_gen {
            self
        } else {
            match (job, deck) {
                (LoadJob::Play { path, gen, was_live, gain_udb }, Some((d, duration))) => self.with_play(
                    path@,
                    gen,
                    d,
                    duration,
                    was_live,
                ),
                (LoadJob::Queue { path, gen, gain_udb }, Some((d, duration))) => self.with_queue(
                    path@,
                    d,
                    duration,
                ),
                (LoadJob::Play { path, gen, was_live, gain_udb }, None) => self.load_failed(
                    gen,
                    was_live,
                ),
                (LoadJob::Queue { path, gen, gain_udb }, None) => self.load_failed(gen, true),
            }
        }
    }

    /// Paused.
    pub open spec fn paused(self) -> Desk<T> {
        Desk { state: PlayerState::Paused, ..self }
    }

    /// Resumed, as far as there is something to play or to wait for.
    pub open spec fn resumed(self) -> Desk<T> {
        if !self.played_out() {
            Desk { state: PlayerState::Playing, ..self }
        } else if self.loading {
            Desk { state: PlayerState::Buffering, ..self }
        } else {
            self
        }
    }

    /// Stopped: nothing is loaded, and nothing that is being decoded is
    /// wanted.
    pub open spec fn stopped(self) -> Desk<T> {
        Desk {
            mix: deck::Mix { current: None, next: Seq::empty(), pos: 0, len: 0, ..self.mix },
            state: PlayerState::Stopped,
            track: None,
            load_gen: next_gen(self.load_gen),
            loading: false,
            silent_frames: 0,
            ..self
        }
    }
}

/// The transport.
#[derive(Debug)]
pub struct Transport<T> {
    pub xfade: XfadeState<T>,
    pub state: PlayerState,
    pub current_track: Option<TrackInfo>,
    /// Counts up with every play and every stop.
    pub load_gen: u64,
    /// A track to play at once is being decoded.
    pub loading: bool,
    pub silence: SilenceMonitor,
    /// Length of blends, in microseconds.
    pub crossfade_us: i64,
    pub device_rate: u32,
    /// Monitor volume, in millionths.
    pub volume: i64,
    pub loudness_enabled: bool,
}

impl<T: Copy> Transport<T> {
    /// The transport as it stands.
    pub open spec fn desk(self) -> Desk<T> {
        Desk {
            mix: self.xfade.mix(),
            state: self.state,
            track: match self.current_track {
                Some(t) => Some(
                    Shown {
                        path: t.path@,
                        title: text::opt_text(t.title),
                        artist: text::opt_text(t.artist),
                        duration_nanos: t.duration_nanos,
                    },
                ),
                None => None,
            },
            load_gen: self.load_gen,
            loading: self.loading,
            silent_frames: self.silence.silent_frames as int,
            blend: blend_frames(self.crossfade_us as int, self.device_rate as int),
        }
    }

    /// What only the settings change.
    pub open spec fn same_settings(self, other: Self) -> bool {
        &&& self.crossfade_us == other.crossfade_us
        &&& self.device_rate == other.device_rate
        &&& self.volume == other.volume
        &&& self.loudness_enabled == other.loudness_enabled
        &&& self.silence.threshold_us == other.silence.threshold_us
        &&& self.silence.rate == other.silence.rate
    }

    /// The decks are in order and blends have a legal length.
    pub open spec fn wf(self) -> bool {
        self.xfade.mix().wf() && 0 <= self.crossfade_us <= 30_000_000
    }

    /// A transport at rest, for a device.
    pub fn new(device_rate: u32) -> (t: Self)
        ensures
            t.wf(),
            t.desk().state == PlayerState::Stopped,
            t.desk().track is None,
            t.desk().played_out(),
            t.load_gen == 0,
            !t.loading,
            t.crossfade_us == 3_000_000,
            t.device_rate == device_rate,
            t.volume == 1_000_000,
            !t.loudness_enabled,
            t.silence == (SilenceMonitor {
                silent_frames: 0,
                threshold_us: 10_000_000,
                rate: device_rate,
            }),
    {
        Transport {
            xfade: XfadeState::new(),
            state: PlayerState::Stopped,
            current_track: None,
            load_gen: 0,
            loading: false,
            silence: SilenceMonitor::new(device_rate, 10_000_000),
            crossfade_us: 3_000_000,
            device_rate,
            volume: 1_000_000,
            loudness_enabled: false,
        }
    }

    /// Frames that a blend should last.
    fn blend(&self) -> (r: usize)
        requires
            self.wf(),
        ensures
            r == self.desk().blend,
    {
        let us: u64 = self.crossfade_us as u64;
        let rate: u64 = self.device_rate as u64;
        assert(0 <= us * rate <= 30_000_000 * 0xffff_ffff) by (nonlinear_arith)
            requires
                us <= 30_000_000,
                rate <= 0xffff_ffff,
        ;
        let n: u64 = us * rate / 1_000_000;
        if n > usize::MAX as u64 {
            usize::MAX
        } else {
            n as usize
        }
    }

    /// The correction of a track, by what the library knows of its loudness.
    pub fn gain_for(&self, known: Option<i64>) -> (r: i64)
        ensures
            r == (if !self.loudness_enabled {
                0
            } else {
                match known {
                    Some(g) => level::clamped(g as int, -(MAX_GAIN_UDB as int), MAX_GAIN_UDB as int),
                    None => 0,
                }
            }),
    {
        if !self.loudness_enabled {
            return 0;
        }
        match known {
            Some(g) => clamp(g, -MAX_GAIN_UDB, MAX_GAIN_UDB),
            None => 0,
        }
    }

    /// Ask for a track. It plays once it is decoded: as a blend where
    /// something is live, which stays on air meanwhile, and otherwise it is
    /// announced at once. A file that is not there is refused.
    pub fn play(&mut self, path: &str, there: bool, known_gain: Option<i64>) -> (r: Result<
        LoadJob,
        CrabError,
    >)
        requires
            old(self).wf(),
        ensures
            final(self).wf(),
            final(self).same_settings(*old(self)),
            match r {
                Ok(LoadJob::Play { path: p, gen, was_live, gain_udb }) => {
                    &&& there
                    &&& p@ == path@
                    &&& gen == next_gen(old(self).load_gen)
                    &&& was_live == old(self).desk().live()
                    &&& final(self).desk() == old(self).desk().asked(path@)
                    &&& gain_udb == (if old(self).loudness_enabled && known_gain is Some {
                        level::clamped(
                            known_gain->0 as int,
                            -(MAX_GAIN_UDB as int),
                            MAX_GAIN_UDB as int,
                        )
                    } else {
                        0
                    })
                },
                Ok(_) => false,
                Err(CrabError::FileNotFound { path: p }) => !there && p@ == path@
                    && final(self).desk() == old(self).desk(),
                Err(_) => false,
            },
    {
        if !there {
            return Err(CrabError::FileNotFound { path: String::from_str(path) });
        }
        let gen: u64 = self.load_gen.wrapping_add(1);
        let was_live = self.state == PlayerState::Playing && match &self.xfade.current {
            Some(c) => !c.is_done(),
            None => false,
        };
        let gain_udb: i64 = self.gain_for(known_gain);
        self.load_gen = gen;
        self.loading = true;
        self.silence.reset();
        if !was_live {
            self.current_track = Some(
                TrackInfo {
                    path: String::from_str(path),
                    title: None,
                    artist: None,
                    duration_nanos: None,
                },
            );
            self.state = PlayerState::Buffering;
        }
        Ok(LoadJob::Play { path: String::from_str(path), gen, was_live, gain_udb })
    }

    /// Ask for a track behind everything else. A file that is not there is
    /// refused.
    pub fn queue_file(&self, path: &str, there: bool, known_gain: Option<i64>) -> (r: Result<
        LoadJob,
        CrabError,
    >)
        ensures
            match r {
                Ok(LoadJob::Queue { path: p, gen, gain_udb }) => there && p@ == path@ && gen
                    == self.load_gen && gain_udb == (if self.loudness_enabled && known_gain is Some {
                    level::clamped(
                        known_gain->0 as int,
                        -(MAX_GAIN_UDB as int),
                        MAX_GAIN_UDB as int,
                    )
                } else {
                    0
                }),
                Ok(_) => false,
                Err(CrabError::FileNotFound { path: p }) => !there && p@ == path@,
                Err(_) => false,
            },
    {
        if !there {
            return Err(CrabError::FileNotFound { path: String::from_str(path) });
        }
        Ok(
            LoadJob::Queue {
                path: String::from_str(path),
                gen: self.load_gen,
                gain_udb: self.gain_for(known_gain),
            },
        )
    }

    /// Whether a job is still wanted.
    pub fn is_wanted(&self, job: &LoadJob) -> (r: bool)
        ensures
            r == (job.generation() == self.load_gen),
    {
        job.gen() == self.load_gen
    }

    /// Install a deck that is to play at once.
    fn install_play(
        &mut self,
        path: String,
        gen: u64,
        cursor: PlaybackCursor<T>,
        duration_nanos: Option<u64>,
        was_live: bool,
    )
        requires
            old(self).wf(),
            cursor.deck().wf(),
        ensures
            final(self).wf(),
            final(self).same_settings(*old(self)),
            final(self).desk() == old(self).desk().with_play(
                path@,
                gen,
                cursor.deck(),
                duration_nanos,
                was_live,
            ),
    {
        let want: usize = self.blend();
        self.xfade.auto_len = want;
        if was_live {
            let here: usize = match &self.xfade.current {
                Some(c) => c.remaining_frames(),
                None => 0,
            };
            let there: usize = cursor.remaining_frames();
            let mut len: usize = want;
            if here < len {
                len = here;
            }
            if there < len {
                len = there;
            }
            if len < 1 {
                len = 1;
            }
            self.xfade.len = len;
            self.xfade.pos = 0;
            let mut next: VecDeque<PlaybackCursor<T>> = VecDeque::new();
            next.push_back(cursor);
            self.xfade.next = next;
            assert(self.xfade.mix().next =~= seq![cursor.deck()]);
        } else {
            self.xfade.current = Some(cursor);
            self.xfade.next = VecDeque::new();
            self.xfade.pos = 0;
            self.xfade.len = 0;
            assert(self.xfade.mix().next =~= Seq::empty());
        }
        if self.load_gen == gen {
            self.loading = false;
        }
        self.silence.reset();
        self.current_track = Some(
            TrackInfo { path, title: None, artist: None, duration_nanos },
        );
        if self.state != PlayerState::Paused {
            self.state = PlayerState::Playing;
        }
    }

    /// Install a deck that is to play behind everything else.
    fn install_queue(
        &mut self,
        path: String,
        cursor: PlaybackCursor<T>,
        duration_nanos: Option<u64>,
    )
        requires
            old(self).wf(),
            cursor.deck().wf(),
        ensures
            final(self).wf(),
            final(self).same_settings(*old(self)),
            final(self).desk() == old(self).desk().with_queue(path@, cursor.deck(), duration_nanos),
    {
        let want: usize = self.blend();
        let done = self.xfade.is_done();
        self.xfade.auto_len = want;
        if !done {
            let ghost before = self.xfade.next@;
            self.xfade.next.push_back(cursor);
            proof {
                let decks = before.map_values(|c: PlaybackCursor<T>| c.deck());
                assert(self.xfade.mix().next =~= decks.push(cursor.deck()));
            }
        } else {
            self.xfade.current = Some(cursor);
            self.xfade.pos = 0;
            self.xfade.len = 0;
        }
        self.silence.reset();
        self.state = PlayerState::Playing;
        self.current_track = Some(
            TrackInfo { path, title: None, artist: None, duration_nanos },
        );
    }

    /// A load failed: park the transport, unless something newer took over or
    /// something is on air.
    fn fail_load(&mut self, gen: u64, was_live: bool)
        requires
            old(self).wf(),
        ensures
            final(self).wf(),
            final(self).same_settings(*old(self)),
            final(self).desk() == old(self).desk().load_failed(gen, was_live),
    {
        if self.load_gen != gen {
            return;
        }
        self.loading = false;
        if was_live {
            return;
        }
        if self.state == PlayerState::Buffering {
            self.state = PlayerState::Stopped;
            self.current_track = None;
        }
    }

    /// A job came to an end, with its deck and the length of its track, or
    /// without.
    pub fn finish_load(&mut self, job: LoadJob, outcome: Option<(PlaybackCursor<T>, Option<u64>)>)
        requires
            old(self).wf(),
            outcome matches Some((c, _)) ==> c.deck().wf(),
        ensures
            final(self).wf(),
            final(self).same_settings(*old(self)),
            final(self).desk() == old(self).desk().loaded(
                job,
                match outcome {
                    Some((c, d)) => Some((c.deck(), d)),
                    None => None,
                },
            ),
    {
        if job.gen() != self.load_gen {
            return;
        }
        match outcome {
            Some((cursor, duration)) => match job {
                LoadJob::Play { path, gen, was_live, .. } => {
                    self.install_play(path, gen, cursor, duration, was_live)
                },
                LoadJob::Queue { path, .. } => self.install_queue(path, cursor, duration),
            },
            None => match job {
                LoadJob::Play { gen, was_live, .. } => self.fail_load(gen, was_live),
                LoadJob::Queue { gen, .. } => self.fail_load(gen, true),
            },
        }
    }

    /// Pause.
    pub fn pause(&mut self)
        requires
            old(self).wf(),
        ensures
            final(self).wf(),
            final(self).same_settings(*old(self)),
            final(self).desk() == old(self).desk().paused(),
    {
        self.state = PlayerState::Paused;
    }

    /// Resume, where something is loaded or still being decoded.
    pub fn resume(&mut self)
        requires
            old(self).wf(),
        ensures
            final(self).wf(),
            final(self).same_settings(*old(self)),
            final(self).desk() == old(self).desk().resumed(),
    {
        if !self.xfade.is_done() {
            self.state = PlayerState::Playing;
        } else if self.loading {
            self.state = PlayerState::Buffering;
        }
    }

    /// Stop. What is still being decoded is no longer wanted.
    pub fn stop(&mut self)
        requires
            old(self).wf(),
        ensures
            final(self).wf(),
            final(self).same_settings(*old(self)),
            final(self).desk() == old(self).desk().stopped(),
    {
        self.load_gen = self.load_gen.wrapping_add(1);
        self.loading = false;
        self.xfade.current = None;
        self.xfade.next = VecDeque::new();
        self.xfade.pos = 0;
        self.xfade.len = 0;
        assert(self.xfade.mix().next =~= Seq::empty());
        self.silence.reset();
        self.state = PlayerState::Stopped;
        self.current_track = None;
    }

    /// Pause what plays or is about to, resume what is paused.
    pub fn toggle_play_pause(&mut self)
        requires
            old(self).wf(),
        ensures
            final(self).wf(),
            final(self).same_settings(*old(self)),
            final(self).desk() == (match old(self).state {
                PlayerState::Playing => old(self).desk().paused(),
                PlayerState::Paused => old(self).desk().resumed(),
                PlayerState::Stopped => old(self).desk(),
                PlayerState::Buffering => old(self).desk().paused(),
            }),
    {
        match self.state {
            PlayerState::Playing => self.pause(),
            PlayerState::Paused => self.resume(),
            PlayerState::Stopped => {},
            PlayerState::Buffering => self.pause(),
        }
    }

    /// The next frame of the program; nothing while it does not play.
    pub fn next_frame(&mut self) -> (r: Option<(Frame<T>, Option<Frame<T>>, (usize, usize))>)
        requires
            old(self).wf(),
        ensures
            final(self).wf(),
            final(self).same_settings(*old(self)),
            old(self).state == PlayerState::Playing ==> {
                &&& final(self).desk() == (Desk {
                    mix: old(self).desk().mix.after_pull(),
                    ..old(self).desk()
                })
                &&& match r {
                    Some((a, b, x)) => old(self).desk().mix.heard() == Some(
                        deck::Heard { live: a, incoming: b, blend: (x.0 as int, x.1 as int) },
                    ),
                    None => old(self).desk().mix.heard() is None,
                }
            },
            old(self).state != PlayerState::Playing ==> r is None && final(self).desk() == old(self).desk(),
    {
        if self.state == PlayerState::Playing {
            self.xfade.pull()
        } else {
            None
        }
    }

    /// Stop by itself at the end of the program.
    pub fn settle(&mut self)
        requires
            old(self).wf(),
        ensures
            final(self).wf(),
            final(self).same_settings(*old(self)),
            final(self).desk() == (if old(self).state == PlayerState::Playing
                && old(self).desk().played_out() {
                Desk { state: PlayerState::Stopped, ..old(self).desk() }
            } else {
                old(self).desk()
            }),
    {
        if self.state == PlayerState::Playing && self.xfade.is_done() {
            self.state = PlayerState::Stopped;
        }
    }

    /// Whether the program is over. A track that is being decoded is not.
    pub fn is_finished(&self) -> (r: bool)
        requires
            self.wf(),
        ensures
            r == (self.state == PlayerState::Stopped || (self.state != PlayerState::Buffering
                && self.desk().played_out())),
    {
        match self.state {
            PlayerState::Buffering => false,
            PlayerState::Stopped => true,
            _ => self.xfade.is_done(),
        }
    }

    /// How far the current track is, in whole nanoseconds.
    pub fn position_nanos(&self) -> (r: u128)
        ensures
            r == (match self.xfade.current {
                Some(c) => c.pos_frames * 1_000_000_000 / (if self.device_rate == 0 {
                    1
                } else {
                    self.device_rate as int
                }),
                None => 0,
            }),
    {
        let rate: u128 = if self.device_rate == 0 {
            1
        } else {
            self.device_rate as u128
        };
        match &self.xfade.current {
            Some(c) => c.pos_frames as u128 * 1_000_000_000 / rate,
            None => 0,
        }
    }

    /// Decks that wait.
    pub fn pending_count(&self) -> (r: usize)
        ensures
            r == self.desk().mix.next.len(),
    {
        self.xfade.next.len()
    }

    /// Whether a running program has been silent for too long.
    pub fn silence_alarm(&self) -> (r: bool)
        ensures
            r == (self.state == PlayerState::Playing && silence::too_long(
                self.silence.silent_frames as int,
                self.silence.rate as int,
                self.silence.threshold_us as int,
            )),
    {
        self.state == PlayerState::Playing && self.silence.alarm()
    }

    /// Set the length of blends, up to half a minute.
    pub fn set_crossfade_us(&mut self, us: i64)
        requires
            old(self).wf(),
        ensures
            final(self).wf(),
            *final(self) == (Transport {
                crossfade_us: level::clamped(us as int, 0, 30_000_000) as i64,
                ..*old(self)
            }),
    {
        self.crossfade_us = clamp(us, 0, 30_000_000);
    }

    /// Set the monitor volume, up to one and a half.
    pub fn set_volume(&mut self, volume: i64)
        requires
            old(self).wf(),
        ensures
            final(self).wf(),
            *final(self) == (Transport {
                volume: level::clamped(volume as int, 0, 1_500_000) as i64,
                ..*old(self)
            }),
    {
        self.volume = clamp(volume, 0, 1_500_000);
    }
}

/// What is no longer wanted never sounds: after a stop, no job that was asked
/// for before it changes anything, and the transport stays stopped.
pub proof fn stop_is_final<T>(
    d: Desk<T>,
    job: LoadJob,
    outcome: Option<(deck::Deck<T>, Option<u64>)>,
)
    requires
        job.generation() == d.load_gen,
    ensures
        d.stopped().loaded(job, outcome) == d.stopped(),
        d.stopped().state == PlayerState::Stopped,
        d.stopped().track is None,
        d.stopped().played_out(),
{
}

/// The latest pick wins: once another track was asked for, the job of the one
/// before changes nothing, and the job of the latest shows its track.
pub proof fn latest_pick_wins<T>(
    d: Desk<T>,
    first: Seq<char>,
    second: Seq<char>,
    older: LoadJob,
    newer: LoadJob,
    deck: deck::Deck<T>,
    length: Option<u64>,
    outcome: Option<(deck::Deck<T>, Option<u64>)>,
)
    requires
        older.generation() == d.asked(first).load_gen,
        newer.generation() == d.asked(first).asked(second).load_gen,
        newer is Play,
        newer.file() == second,
    ensures
        d.asked(first).asked(second).loaded(older, outcome) == d.asked(first).asked(second),
        d.asked(first).asked(second).loaded(newer, Some((deck, length))).track == Some(
            untagged(second, length),
        ),
        d.asked(first).asked(second).loaded(newer, Some((deck, length))).state
            == PlayerState::Playing || d.state == PlayerState::Paused,
{
}

/// While something is on air, asking for another track changes nothing that
/// is heard or shown, and neither does its failure.
pub proof fn failures_keep_the_program<T>(d: Desk<T>, path: Seq<char>, job: LoadJob)
    requires
        d.live(),
        job.generation() == d.asked(path).load_gen,
        job matches LoadJob::Play { path: p, gen, was_live, gain_udb } ==> was_live,
    ensures
        d.asked(path).mix == d.mix,
        d.asked(path).state == PlayerState::Playing,
        d.asked(path).track == d.track,
        d.asked(path).loaded(job, None).mix == d.mix,
        d.asked(path).loaded(job, None).state == PlayerState::Playing,
        d.asked(path).loaded(job, None).track == d.track,
{
}

/// A pause during decoding does not strand the transport: resuming waits
/// again, and the track then plays.
pub proof fn resuming_waits_again<T>(
    d: Desk<T>,
    path: Seq<char>,
    job: LoadJob,
    deck: deck::Deck<T>,
    length: Option<u64>,
)
    requires
        d.played_out(),
        job is Play,
        job.generation() == d.asked(path).load_gen,
        job.file() == path,
    ensures
        d.asked(path).state == PlayerState::Buffering,
        d.asked(path).paused().resumed().state == PlayerState::Buffering,
        d.asked(path).paused().resumed().loaded(job, Some((deck, length))).state
            == PlayerState::Playing,
        d.asked(path).paused().loaded(job, Some((deck, length))).state == PlayerState::Paused,
{
}

/// A blend lasts as long as it should, unless one of the two tracks is over
/// sooner, and at least a frame. What is on air stays there meanwhile, and the
/// new track is the only one that waits.
pub proof fn blends_fit_both_tracks<T>(
    d: Desk<T>,
    path: Seq<char>,
    gen: u64,
    next: deck::Deck<T>,
    length: Option<u64>,
)
    requires
        d.mix.current is Some,
    ensures
        ({
            let after = d.with_play(path, gen, next, length, true);
            let here = d.mix.current->0.left();
            &&& after.mix.current == d.mix.current
            &&& after.mix.next == seq![next]
            &&& after.mix.pos == 0
            &&& after.mix.len >= 1
            &&& after.mix.len <= d.blend || after.mix.len == 1
            &&& after.mix.len <= here || after.mix.len == 1
            &&& after.mix.len <= next.left() || after.mix.len == 1
            &&& d.blend >= 1 && here >= 1 && next.left() >= 1 ==> (after.mix.len == d.blend
                || after.mix.len == here || after.mix.len == next.left())
            &&& after.track == Some(untagged(path, length))
            &&& after.mix.auto_len == d.blend
        }),
{
}

/// A track that arrives while nothing is live starts at once, and what waited
/// is forgotten. A program that was paused meanwhile stays paused; any other
/// plays.
pub proof fn first_tracks_start_at_once<T>(
    d: Desk<T>,
    path: Seq<char>,
    gen: u64,
    next: deck::Deck<T>,
    length: Option<u64>,
    was_live: bool,
)
    ensures
        d.with_play(path, gen, next, length, false).mix.current == Some(next),
        d.with_play(path, gen, next, length, false).mix.next.len() == 0,
        d.with_play(path, gen, next, length, false).mix.len == 0,
        d.state == PlayerState::Paused ==> d.with_play(path, gen, next, length, was_live).state
            == PlayerState::Paused,
        d.state != PlayerState::Paused ==> d.with_play(path, gen, next, length, was_live).state
            == PlayerState::Playing,
        d.load_gen == gen ==> !d.with_play(path, gen, next, length, was_live).loading,
        d.with_play(path, gen, next, length, was_live).load_gen == d.load_gen,
        d.with_play(path, gen, next, length, was_live).silent_frames == 0,
{
}

/// A queued track plays behind all that wait, or at once where nothing is left
/// to play.
pub proof fn queued_tracks_play_last<T>(
    d: Desk<T>,
    path: Seq<char>,
    next: deck::Deck<T>,
    length: Option<u64>,
)
    ensures
        !d.played_out() ==> d.with_queue(path, next, length).mix.next == d.mix.next.push(next)
            && d.with_queue(path, next, length).mix.current == d.mix.current
            && d.with_queue(path, next, length).mix.pos == d.mix.pos
            && d.with_queue(path, next, length).mix.len == d.mix.len,
        d.played_out() ==> d.with_queue(path, next, length).mix.current == Some(next)
            && d.with_queue(path, next, length).mix.next.len() == 0 && d.with_queue(
            path,
            next,
            length,
        ).mix.pos == 0 && d.with_queue(path, next, length).mix.len == 0,
        d.with_queue(path, next, length).mix.auto_len == d.blend,
        d.with_queue(path, next, length).track == Some(untagged(path, length)),
        d.with_queue(path, next, length).silent_frames == 0,
        d.with_queue(path, next, length).state == PlayerState::Playing,
        d.with_queue(path, next, length).load_gen == d.load_gen,
        d.with_queue(path, next, length).loading == d.loading,
{
}

/// Pausing and resuming gives back a program that has something to play, and
/// neither touches what is loaded. With nothing to play and nothing to wait for,
/// resuming changes nothing.
pub proof fn pauses_end_where_they_began<T>(d: Desk<T>)
    ensures
        d.paused().mix == d.mix,
        d.paused().track == d.track,
        d.paused().load_gen == d.load_gen,
        d.paused().state == PlayerState::Paused,
        d.state == PlayerState::Playing && !d.played_out() ==> d.paused().resumed() == d,
        d.state == PlayerState::Buffering && d.played_out() && d.loading ==> d.paused().resumed() == d,
        d.played_out() && !d.loading ==> d.resumed() == d,
        d.resumed().mix == d.mix,
{
}

/// A failed load stops the transport only where it was waited for: nothing is
/// shown any more, and nothing is loading. Otherwise nothing but the waiting
/// ends.
pub proof fn failed_loads_end_the_wait<T>(d: Desk<T>, was_live: bool)
    ensures
        !d.load_failed(d.load_gen, was_live).loading,
        d.load_failed(d.load_gen, was_live).mix == d.mix,
        d.state == PlayerState::Buffering && !was_live ==> d.load_failed(d.load_gen, was_live).state
            == PlayerState::Stopped && d.load_failed(d.load_gen, was_live).track is None,
        d.state != PlayerState::Buffering || was_live ==> d.load_failed(d.load_gen, was_live).state
            == d.state && d.load_failed(d.load_gen, was_live).track == d.track,
        d.load_failed(next_gen(d.load_gen), was_live) == d,
{
}

/// A blend counts the whole frames of its time, and no generation is that
/// before it.
pub proof fn blends_count_whole_frames(us: int, rate: int, g: u64)
    requires
        0 <= us,
        0 <= rate,
        us * rate < 1_000_000 * usize::MAX,
    ensures
        blend_frames(us, rate) * 1_000_000 <= us * rate,
        us * rate < (blend_frames(us, rate) + 1) * 1_000_000,
        next_gen(g) != g,
{
    let n = us * rate;
    assert(0 <= n) by (nonlinear_arith)
        requires
            0 <= us,
            0 <= rate,
            n == us * rate,
    ;
}

} // verus!
