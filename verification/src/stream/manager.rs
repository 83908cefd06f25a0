//! The streaming switchboard: configuration, runs and what is shown of them.

use vstd::prelude::*;
use vstd::string::*;

use crate::audio::ring::push_chunk;
use crate::stream::config::{StreamConfig, StreamState, StreamStats};
use crate::stream::sender::StreamSender;
use crate::text::one_line;
use crate::audio::ring;
use crate::stream::config;
use crate::text;

verus! {

/// The audio side of a run. A tap of a stopped or restarted stream takes
/// nothing.
#[derive(Debug, Clone, Copy, PartialEq, Eq, Structural)]
pub struct StreamTap {
    /// The run that this tap feeds.
    pub my_gen: u64,
}

impl StreamTap {
    /// Whether this tap belongs to the current run.
    pub fn is_current(&self, generation: u64) -> (r: bool)
        ensures
            r == (generation == self.my_gen),
    {
        generation == self.my_gen
    }

    /// Feed interleaved stereo samples, all of them or none. A tap of an
    /// earlier run feeds nothing.
    pub fn push(&self, generation: u64, producer: &mut rtrb::Producer<u32>, interleaved: &[u32]) -> (r:
        bool)
        ensures
            r ==> generation == self.my_gen,
            generation == self.my_gen && interleaved@.len() <= ring::room(*old(producer)) ==> r,
            generation == self.my_gen && !r ==> ring::room(*final(producer)) < interleaved@.len(),
            ring::sent(*final(producer)) == (if r {
                ring::sent(*old(producer)) + interleaved@
            } else {
                ring::sent(*old(producer))
            }),
    {
        if !self.is_current(generation) {
            return false;
        }
        push_chunk(producer, interleaved)
    }
}

/// Owns the streaming configuration and the current run.
pub struct StreamManager {
    pub config: StreamConfig,
    pub state: StreamState,
    /// The title that is wanted.
    pub title: String,
    pub stats: StreamStats,
    /// Number of the current run; every start and every stop counts it up.
    pub generation: u64,
    /// The tap of the current run.
    pub tap: Option<StreamTap>,
}

/// The number of the run after another.
pub open spec fn next_run(g: u64) -> u64 {
    if g == u64::MAX {
        0
    } else {
        (g + 1) as u64
    }
}

/// A stream that is connecting or live.
pub open spec fn is_running(s: StreamState) -> bool {
    s is Connecting || s is Live
}

impl StreamManager {
    /// A manager that is off.
    pub fn new(config: StreamConfig) -> (m: Self)
        ensures
            config::cleaned(config, m.config),
            m.state == StreamState::Off,
            m.title@ == Seq::<char>::empty(),
            m.stats == (StreamStats { bytes_sent: 0, stream_secs: 0, reconnects: 0 }),
            m.generation == 0,
            m.tap is None,
    {
        StreamManager {
            config: config.sanitized(),
            state: StreamState::Off,
            title: String::new(),
            stats: StreamStats { bytes_sent: 0, stream_secs: 0, reconnects: 0 },
            generation: 0,
            tap: None,
        }
    }

    /// The configuration.
    pub fn config(&self) -> (c: StreamConfig)
        ensures
            c == self.config,
    {
        self.config.clone()
    }

    /// Change the configuration; a running stream keeps the one it started
    /// with.
    pub fn set_config(&mut self, config: StreamConfig)
        ensures
            config::cleaned(config, final(self).config),
            *final(self) == (StreamManager { config: final(self).config, ..*old(self) }),
    {
        self.config = config.sanitized();
    }

    /// The state that is shown.
    pub fn state(&self) -> (s: StreamState)
        ensures
            s == self.state,
    {
        match &self.state {
            StreamState::Off => StreamState::Off,
            StreamState::Connecting => StreamState::Connecting,
            StreamState::Live => StreamState::Live,
            StreamState::Error(e) => StreamState::Error(e.clone()),
        }
    }

    /// The counters of the current run.
    pub fn stats(&self) -> (s: StreamStats)
        ensures
            s == self.stats,
    {
        self.stats
    }

    /// Want a title to be sent.
    pub fn set_title(&mut self, title: &str)
        ensures
            final(self).title@ == text::on_one_line(title@),
            *final(self) == (StreamManager { title: final(self).title, ..*old(self) }),
    {
        self.title = one_line(title);
    }

    /// Whether the manager wants audio.
    pub fn running(&self) -> (r: bool)
        ensures
            r == is_running(self.state),
    {
        match &self.state {
            StreamState::Connecting => true,
            StreamState::Live => true,
            _ => false,
        }
    }

    /// Start a run and get its tap. Nothing happens, and there is no tap, where
    /// the switch is off or a run is on.
    pub fn start(&mut self) -> (r: Option<StreamTap>)
        ensures
            !old(self).config.enabled ==> r is None && *final(self) == *old(self),
            old(self).config.enabled && is_running(old(self).state) ==> r is None
                && *final(self) == *old(self),
            old(self).config.enabled && !is_running(old(self).state) ==> {
                &&& final(self).generation == next_run(old(self).generation)
                &&& r == Some(StreamTap { my_gen: final(self).generation })
                &&& final(self).tap == r
                &&& final(self).state == StreamState::Connecting
                &&& final(self).title@ == Seq::<char>::empty()
                &&& final(self).stats == (StreamStats {
                    bytes_sent: 0,
                    stream_secs: 0,
                    reconnects: 0,
                })
                &&& final(self).config == old(self).config
            },
    {
        if !self.config.enabled || self.running() {
            return None;
        }
        self.generation = self.generation.wrapping_add(1);
        self.state = StreamState::Connecting;
        self.title = String::new();
        self.stats = StreamStats { bytes_sent: 0, stream_secs: 0, reconnects: 0 };
        let tap = StreamTap { my_gen: self.generation };
        self.tap = Some(tap);
        Some(tap)
    }

    /// Stop, or take back a start whose sender could not be set going: the
    /// current tap goes stale.
    pub fn stop(&mut self)
        ensures
            final(self).generation == next_run(old(self).generation),
            final(self).state == StreamState::Off,
            final(self).tap is None,
            *final(self) == (StreamManager {
                generation: final(self).generation,
                state: final(self).state,
                tap: final(self).tap,
                ..*old(self)
            }),
    {
        self.generation = self.generation.wrapping_add(1);
        self.state = StreamState::Off;
        self.tap = None;
    }

    /// Show what a sender says of its run; a sender of another run is not
    /// heard.
    pub fn report(&mut self, generation: u64, sender: &StreamSender)
        ensures
            if generation == old(self).generation {
                final(self).state == sender.state && final(self).stats == sender.stats
            } else {
                final(self).state == old(self).state && final(self).stats == old(self).stats
            },
            *final(self) == (StreamManager {
                state: final(self).state,
                stats: final(self).stats,
                ..*old(self)
            }),
    {
        if generation == self.generation {
            self.state = match &sender.state {
                StreamState::Off => StreamState::Off,
                StreamState::Connecting => StreamState::Connecting,
                StreamState::Live => StreamState::Live,
                StreamState::Error(e) => StreamState::Error(e.clone()),
            };
            self.stats = sender.stats;
        }
    }
}

/// A tap of the current run takes nothing once the stream was stopped or
/// started anew.
pub proof fn taps_go_stale(tap: StreamTap, generation: u64)
    requires
        tap.my_gen == generation,
    ensures
        tap.my_gen != next_run(generation),
{
}

} // verus!
