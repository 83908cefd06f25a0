//! The life of a stream connection: connecting, going live, dropping, waiting
//! and giving up; and the pace at which audio is sent.

use vstd::prelude::*;
use vstd::string::*;

use crate::stream::config::{StreamState, StreamStats};
use crate::text::same_text;

verus! {

/// Samples that are kept between the audio callback and the sender.
pub const RING_SAMPLES: usize = 2097152;

/// Most frames that are encoded at once.
pub const DRAIN_FRAMES: usize = 1152;

/// Milliseconds to wait when there is nothing to send.
pub const STARVE_SLEEP_MS: u64 = 20;

/// Milliseconds between looks at whether a wait was cut short.
pub const WAIT_STEP_MS: u64 = 100;

/// Retries after which a stream is given up.
pub const MAX_RECONNECTS: u32 = 5;

/// Nanoseconds in a second.
pub const SECOND_NANOS: u64 = 1_000_000_000;

/// Seconds to wait before a retry, by the number of retries so far.
pub open spec fn delay_before(retries: u32) -> u64 {
    if retries == 0 {
        2
    } else if retries == 1 {
        5
    } else if retries == 2 {
        10
    } else if retries == 3 {
        20
    } else {
        30
    }
}

/// Seconds to wait before a retry, by the number of retries so far.
pub fn retry_delay_secs(retries: u32) -> (r: u64)
    ensures
        r == delay_before(retries),
{
    if retries == 0 {
        2
    } else if retries == 1 {
        5
    } else if retries == 2 {
        10
    } else if retries == 3 {
        20
    } else {
        30
    }
}

/// Where a sender stands.
#[derive(Debug, Clone, Copy, PartialEq, Eq, Structural)]
pub enum Phase {
    /// A connection is being made.
    Connecting,
    /// Connected; the encoder is being made.
    Building,
    /// Audio is flowing.
    Live,
    /// Waiting before a retry.
    Waiting,
    /// Over.
    Stopped,
}

/// What happened to a sender.
#[derive(Debug)]
pub enum SenderEvent {
    Connected,
    ConnectFailed(String),
    Built,
    BuildFailed(String),
    /// So many bytes went out; the connection is so many seconds old.
    Sent { bytes: u64, secs: u64 },
    SendFailed(String),
    EncodeFailed(String),
    /// The wait is over.
    Waited,
    /// The stream was stopped or restarted.
    Cancelled,
}

/// What a sender has to do next.
#[derive(Debug, Clone, Copy, PartialEq, Eq, Structural)]
pub enum SenderAction {
    Connect,
    BuildEncoder,
    /// Drop what was buffered before, then send from the live edge.
    GoLive,
    /// Send the next batch.
    SendOn,
    /// Wait so many seconds, or until cancelled.
    Wait(u64),
    /// Nothing any more.
    Stop,
}

/// The sender of one stream run.
#[derive(Debug)]
pub struct StreamSender {
    pub phase: Phase,
    pub reconnects: u32,
    /// The title that was sent last.
    pub last_title: String,
    pub state: StreamState,
    pub stats: StreamStats,
}

/// Which events a phase can see.
pub open spec fn can_see(p: Phase, e: SenderEvent) -> bool {
    match e {
        SenderEvent::Connected | SenderEvent::ConnectFailed(_) => p == Phase::Connecting,
        SenderEvent::Built | SenderEvent::BuildFailed(_) => p == Phase::Building,
        SenderEvent::Sent { .. } | SenderEvent::SendFailed(_) | SenderEvent::EncodeFailed(_) => p
            == Phase::Live,
        SenderEvent::Waited => p == Phase::Waiting,
        SenderEvent::Cancelled => p != Phase::Stopped,
    }
}

/// The phase after an event.
pub open spec fn next_phase(retries: u32, e: SenderEvent) -> Phase {
    match e {
        SenderEvent::Connected => Phase::Building,
        SenderEvent::ConnectFailed(_) => if retries >= MAX_RECONNECTS {
            Phase::Stopped
        } else {
            Phase::Waiting
        },
        SenderEvent::Built => Phase::Live,
        SenderEvent::BuildFailed(_) => Phase::Stopped,
        SenderEvent::Sent { .. } => Phase::Live,
        SenderEvent::SendFailed(_) => Phase::Waiting,
        SenderEvent::EncodeFailed(_) => Phase::Stopped,
        SenderEvent::Waited => Phase::Connecting,
        SenderEvent::Cancelled => Phase::Stopped,
    }
}

/// The number of retries after an event: going live forgets them.
pub open spec fn next_retries(retries: u32, e: SenderEvent) -> u32 {
    match e {
        SenderEvent::Built => 0,
        SenderEvent::Waited => (retries + 1) as u32,
        _ => retries,
    }
}

/// What is to be done after an event.
pub open spec fn next_action(retries: u32, e: SenderEvent) -> SenderAction {
    match e {
        SenderEvent::Connected => SenderAction::BuildEncoder,
        SenderEvent::ConnectFailed(_) => if retries >= MAX_RECONNECTS {
            SenderAction::Stop
        } else {
            SenderAction::Wait(delay_before(retries))
        },
        SenderEvent::Built => SenderAction::GoLive,
        SenderEvent::BuildFailed(_) => SenderAction::Stop,
        SenderEvent::Sent { .. } => SenderAction::SendOn,
        SenderEvent::SendFailed(_) => SenderAction::Wait(delay_before(retries)),
        SenderEvent::EncodeFailed(_) => SenderAction::Stop,
        SenderEvent::Waited => SenderAction::Connect,
        SenderEvent::Cancelled => SenderAction::Stop,
    }
}

/// The state shown after an event.
pub open spec fn next_state(s: StreamState, e: SenderEvent) -> StreamState {
    match e {
        SenderEvent::Connected => s,
        SenderEvent::ConnectFailed(m) => StreamState::Error(m),
        SenderEvent::Built => StreamState::Live,
        SenderEvent::BuildFailed(m) => StreamState::Error(m),
        SenderEvent::Sent { .. } => s,
        SenderEvent::SendFailed(m) => StreamState::Error(m),
        SenderEvent::EncodeFailed(m) => StreamState::Error(m),
        SenderEvent::Waited => StreamState::Connecting,
        SenderEvent::Cancelled => s,
    }
}

/// The counters after an event.
pub open spec fn next_stats(s: StreamStats, retries: u32, e: SenderEvent) -> StreamStats {
    match e {
        SenderEvent::Built => StreamStats { reconnects: 0, ..s },
        SenderEvent::Sent { bytes, secs } => StreamStats {
            bytes_sent: ((s.bytes_sent + bytes) % 0x1_0000_0000_0000_0000) as u64,
            stream_secs: secs,
            ..s
        },
        SenderEvent::Waited => StreamStats { reconnects: (retries + 1) as u32, ..s },
        _ => s,
    }
}

impl StreamSender {
    /// Retries stay within their bound, and a live stream has none behind it.
    pub open spec fn wf(self) -> bool {
        &&& self.reconnects <= MAX_RECONNECTS
        &&& self.phase == Phase::Live ==> self.reconnects == 0
        &&& self.phase == Phase::Waiting ==> self.reconnects < MAX_RECONNECTS
    }

    /// A sender that is about to connect for the first time.
    pub fn new() -> (s: Self)
        ensures
            s.wf(),
            s.phase == Phase::Connecting,
            s.reconnects == 0,
            s.last_title@ == Seq::<char>::empty(),
            s.state == StreamState::Connecting,
            s.stats == (StreamStats { bytes_sent: 0, stream_secs: 0, reconnects: 0 }),
    {
        StreamSender {
            phase: Phase::Connecting,
            reconnects: 0,
            last_title: String::new(),
            state: StreamState::Connecting,
            stats: StreamStats { bytes_sent: 0, stream_secs: 0, reconnects: 0 },
        }
    }

    /// Take an event and say what is to be done.
    pub fn step(&mut self, e: SenderEvent) -> (a: SenderAction)
        requires
            old(self).wf(),
            can_see(old(self).phase, e),
        ensures
            final(self).wf(),
            final(self).phase == next_phase(old(self).reconnects, e),
            final(self).reconnects == next_retries(old(self).reconnects, e),
            final(self).state == next_state(old(self).state, e),
            final(self).stats == next_stats(old(self).stats, old(self).reconnects, e),
            final(self).last_title == old(self).last_title,
            a == next_action(old(self).reconnects, e),
    {
        match e {
            SenderEvent::Connected => {
                self.phase = Phase::Building;
                SenderAction::BuildEncoder
            },
            SenderEvent::ConnectFailed(m) => {
                self.state = StreamState::Error(m);
                if self.reconnects >= MAX_RECONNECTS {
                    self.phase = Phase::Stopped;
                    return SenderAction::Stop;
                }
                self.phase = Phase::Waiting;
                SenderAction::Wait(retry_delay_secs(self.reconnects))
            },
            SenderEvent::Built => {
                self.phase = Phase::Live;
                self.state = StreamState::Live;
                self.reconnects = 0;
                self.stats.reconnects = 0;
                SenderAction::GoLive
            },
            SenderEvent::BuildFailed(m) => {
                self.state = StreamState::Error(m);
                self.phase = Phase::Stopped;
                SenderAction::Stop
            },
            SenderEvent::Sent { bytes, secs } => {
                self.stats.bytes_sent = self.stats.bytes_sent.wrapping_add(bytes);
                self.stats.stream_secs = secs;
                SenderAction::SendOn
            },
            SenderEvent::SendFailed(m) => {
                self.state = StreamState::Error(m);
                self.phase = Phase::Waiting;
                SenderAction::Wait(retry_delay_secs(self.reconnects))
            },
            SenderEvent::EncodeFailed(m) => {
                self.state = StreamState::Error(m);
                self.phase = Phase::Stopped;
                SenderAction::Stop
            },
            SenderEvent::Waited => {
                self.reconnects = self.reconnects + 1;
                self.stats.reconnects = self.reconnects;
                self.state = StreamState::Connecting;
                self.phase = Phase::Connecting;
                SenderAction::Connect
            },
            SenderEvent::Cancelled => {
                self.phase = Phase::Stopped;
                SenderAction::Stop
            },
        }
    }

    /// The title to send now: one that is wanted and was not the last sent.
    pub fn title_update(&mut self, want: &str) -> (r: Option<String>)
        ensures
            match r {
                Some(t) => t@ == want@ && want@.len() > 0 && want@ != old(self).last_title@
                    && final(self).last_title@ == want@,
                None => (want@.len() == 0 || want@ == old(self).last_title@)
                    && final(self).last_title == old(self).last_title,
            },
            final(self).phase == old(self).phase,
            final(self).reconnects == old(self).reconnects,
            final(self).state == old(self).state,
            final(self).stats == old(self).stats,
    {
        if want.is_empty() || same_text(want, self.last_title.as_str()) {
            return None;
        }
        self.last_title = String::from_str(want);
        Some(String::from_str(want))
    }
}

/// The retries after failed attempts to connect, each with its reason and
/// followed by its wait; past the bound, none.
pub open spec fn after_failures(retries: u32, reasons: Seq<String>) -> Option<u32>
    decreases reasons.len(),
{
    if reasons.len() == 0 {
        Some(retries)
    } else if next_phase(retries, SenderEvent::ConnectFailed(reasons[0])) == Phase::Stopped {
        None
    } else {
        after_failures(next_retries(retries, SenderEvent::Waited), reasons.drop_first())
    }
}

/// A server that never answers is given up: from any number of retries, as
/// many failures as are left to the bound keep the sender trying, and one more
/// stops it for good.
pub proof fn retries_are_bounded(retries: u32, reasons: Seq<String>)
    requires
        retries <= MAX_RECONNECTS,
    ensures
        after_failures(retries, reasons) == (if reasons.len() <= MAX_RECONNECTS - retries {
            Some((retries + reasons.len()) as u32)
        } else {
            None
        }),
    decreases reasons.len(),
{
    if reasons.len() > 0 && retries < MAX_RECONNECTS {
        retries_are_bounded((retries + 1) as u32, reasons.drop_first());
    }
}

/// Retries wait longer and longer.
pub proof fn waits_grow(a: u32, b: u32)
    requires
        a <= b,
    ensures
        2 <= delay_before(a) <= delay_before(b) <= 30,
{
}

/// Going live forgets the retries, so that a drop is answered with all of them
/// again.
pub proof fn going_live_forgets(retries: u32, drop: String, reasons: Seq<String>)
    requires
        reasons.len() <= MAX_RECONNECTS,
    ensures
        next_retries(retries, SenderEvent::Built) == 0,
        next_action(next_retries(retries, SenderEvent::Built), SenderEvent::SendFailed(drop))
            == SenderAction::Wait(delay_before(0)),
        after_failures(next_retries(retries, SenderEvent::Built), reasons) is Some,
{
    retries_are_bounded(0, reasons);
}

/// Frames to take for the next batch, by the samples that wait: whole stereo
/// frames, at most one batch.
pub fn batch_frames(waiting_samples: usize) -> (r: usize)
    ensures
        r == (if waiting_samples / 2 < DRAIN_FRAMES {
            waiting_samples / 2
        } else {
            DRAIN_FRAMES
        }),
        r * 2 <= waiting_samples,
        r <= 1152,
        r < 1152 ==> waiting_samples < 2 * r + 2,
{
    let avail: usize = waiting_samples / 2;
    if avail < DRAIN_FRAMES {
        avail
    } else {
        DRAIN_FRAMES
    }
}

/// The time that frames last at a rate, to the nearest nanosecond.
pub open spec fn air_nanos(frames: nat, rate: nat) -> nat {
    (2 * frames * 1_000_000_000 + rate) / (2 * rate)
}

/// The time that a batch lasts at a rate, to the nearest nanosecond.
pub fn air_time(frames: usize, rate: u32) -> (r: u64)
    requires
        frames <= DRAIN_FRAMES,
        rate > 0,
    ensures
        r == air_nanos(frames as nat, rate as nat),
        r <= 1152 * SECOND_NANOS,
{
    let n: u64 = 2 * frames as u64 * 1_000_000_000 + rate as u64;
    let d: u64 = 2 * rate as u64;
    assert(n / d <= 1152 * 1_000_000_000) by (nonlinear_arith)
        requires
            n == 2 * frames * 1_000_000_000 + rate,
            d == 2 * rate,
            rate >= 1,
            frames <= 1152,
    ;
    n / d
}

/// When the next batch is due and how long to wait for that, after a batch.
/// A sender that fell behind by more than a second starts afresh from now
/// instead of catching up in a burst.
pub fn pace(deadline: u64, air: u64, now: u64) -> (r: (u64, u64))
    requires
        deadline + air <= u64::MAX,
    ensures
        ({
            let due = deadline + air;
            if due > now {
                r.0 == due && r.1 == due - now
            } else if now - due > SECOND_NANOS {
                r.0 == now && r.1 == 0
            } else {
                r.0 == due && r.1 == 0
            }
        }),
        r.0 <= now + r.1,
        now + r.1 - r.0 <= SECOND_NANOS,
        r.0 != deadline + air <==> now - (deadline + air) > 1_000_000_000,
{
    let due: u64 = deadline + air;
    if due > now {
        (due, due - now)
    } else if now - due > SECOND_NANOS {
        (now, 0)
    } else {
        (due, 0)
    }
}

/// Retries wait two, five, ten, twenty and then thirty seconds.
pub proof fn waits_follow_their_steps(retries: u32)
    ensures
        retries <= 4 ==> delay_before(retries) == seq![2u64, 5u64, 10u64, 20u64, 30u64][retries as int],
        retries > 4 ==> delay_before(retries) == 30,
{
}

/// What fails is shown with its reason, and no other reason is. A drop is
/// followed by a wait, a failed encoder by nothing any more, and a failed
/// connection by a wait up to the fifth retry.
pub proof fn failures_show_their_reason(retries: u32, s: StreamState, reason: String)
    ensures
        next_state(s, SenderEvent::ConnectFailed(reason)) == StreamState::Error(reason),
        next_state(s, SenderEvent::BuildFailed(reason)) == StreamState::Error(reason),
        next_state(s, SenderEvent::SendFailed(reason)) == StreamState::Error(reason),
        next_state(s, SenderEvent::EncodeFailed(reason)) == StreamState::Error(reason),
        next_action(retries, SenderEvent::BuildFailed(reason)) == SenderAction::Stop,
        next_action(retries, SenderEvent::EncodeFailed(reason)) == SenderAction::Stop,
        next_action(retries, SenderEvent::SendFailed(reason)) == SenderAction::Wait(
            delay_before(retries),
        ),
        retries < 5 ==> next_action(retries, SenderEvent::ConnectFailed(reason))
            == SenderAction::Wait(delay_before(retries)),
        retries >= 5 ==> next_action(retries, SenderEvent::ConnectFailed(reason))
            == SenderAction::Stop,
        next_phase(retries, SenderEvent::SendFailed(reason)) == Phase::Waiting,
        next_phase(retries, SenderEvent::EncodeFailed(reason)) == Phase::Stopped,
        next_phase(retries, SenderEvent::BuildFailed(reason)) == Phase::Stopped,
{
}

/// A sender that connects, builds and sends is live, counts its bytes and
/// forgets its retries; a wait counts one more, and stopping stops.
pub proof fn sending_is_counted(
    retries: u32,
    s: StreamState,
    stats: StreamStats,
    bytes: u64,
    secs: u64,
)
    requires
        retries < 5,
        stats.bytes_sent + bytes <= u64::MAX,
    ensures
        next_phase(retries, SenderEvent::Connected) == Phase::Building,
        next_action(retries, SenderEvent::Connected) == SenderAction::BuildEncoder,
        next_phase(retries, SenderEvent::Built) == Phase::Live,
        next_action(retries, SenderEvent::Built) == SenderAction::GoLive,
        next_state(s, SenderEvent::Built) == StreamState::Live,
        next_state(s, SenderEvent::Waited) == StreamState::Connecting,
        next_stats(stats, retries, SenderEvent::Built) == (StreamStats { reconnects: 0, ..stats }),
        next_stats(stats, retries, SenderEvent::Sent { bytes, secs }).bytes_sent == stats.bytes_sent
            + bytes,
        next_stats(stats, retries, SenderEvent::Sent { bytes, secs }).stream_secs == secs,
        next_stats(stats, retries, SenderEvent::Sent { bytes, secs }).reconnects == stats.reconnects,
        next_stats(stats, retries, SenderEvent::Waited).reconnects == next_retries(
            retries,
            SenderEvent::Waited,
        ),
        next_retries(retries, SenderEvent::Waited) == retries + 1,
        next_action(retries, SenderEvent::Waited) == SenderAction::Connect,
        next_action(retries, SenderEvent::Cancelled) == SenderAction::Stop,
        next_phase(retries, SenderEvent::Cancelled) == Phase::Stopped,
{
}

/// The time on air is that of the frames, to the nearest nanosecond.
pub proof fn air_time_is_that_of_the_frames(frames: nat, rate: nat)
    requires
        0 < rate,
    ensures
        2 * air_nanos(frames, rate) * rate <= 2 * frames * 1_000_000_000 + rate,
        2 * frames * 1_000_000_000 < 2 * air_nanos(frames, rate) * rate + rate,
{
    let a = 2 * frames * 1_000_000_000 + rate;
    let b = 2 * rate;
    let q = a / b;
    assert(q * b <= a < q * b + b) by (nonlinear_arith)
        requires
            q == a / b,
            b > 0,
    ;
    assert(q * b == 2 * q * rate) by (nonlinear_arith)
        requires
            b == 2 * rate,
    ;
}

} // verus!
