use std::collections::VecDeque;

use crabcore::audio::capture::{
    check_usual_input, excess, fold_channels, pick_input, InputConfig, MicInput, MicResampler,
};
use crabcore::audio::channels::{deal, take_front};
use crabcore::audio::cue::{CueConfig, CueState};
use crabcore::audio::deck::{Frame, PlaybackCursor, XfadeState};
use crabcore::audio::decode::{
    format_error, needs_resampling, pick_track, resampled_fits, weave, DecodeSink, ResampleRun,
    USUAL_RATE,
};
use crabcore::audio::engine::{needs_prefetch, pick_device, PlayerState};
use crabcore::audio::loudness::{
    audible_blocks, counting_blocks, judge_loudness, BlockWindow, MAX_GAIN_UDB,
};
use crabcore::audio::mic::{MicConfig, MicState, MIC_RING_SAMPLES};
use crabcore::audio::mixer::{CrossfadeCurve, EqChain, Mixer, EQ_BAND_COUNT};
use crabcore::audio::output::{finish_block, lay_out, pull_block, TapBuffer, TAP_SAMPLES};
use crabcore::audio::ring::{
    drain_batch, drop_backlog, drop_excess, fitting, pop_frame, push_chunk, push_fitting, push_frames,
};
use crabcore::audio::silence::SilenceMonitor;
use crabcore::audio::transport::{LoadJob, Transport};
use crabcore::error::CrabError;
use rubato::{
    Resampler, SincFixedIn, SincInterpolationParameters, SincInterpolationType, WindowFunction,
};

fn at(x: (usize, usize)) -> f32 {
    if x.1 == 0 {
        0.0
    } else {
        x.0 as f32 / x.1 as f32
    }
}

fn cursor(samples: Vec<f32>) -> PlaybackCursor<f32> {
    PlaybackCursor { samples, pos_frames: 0 }
}

fn ramp_stereo(frames: usize) -> Vec<f32> {
    let mut v = Vec::with_capacity(frames * 2);
    for i in 0..frames {
        let t = i as f32 / frames as f32;
        v.push(t);
        v.push(1.0 - t);
    }
    v
}

fn resample_stereo(interleaved: Vec<f32>, from: u32, to: u32) -> Vec<f32> {
    if !needs_resampling(interleaved.len(), from, to) {
        return interleaved;
    }
    let params = SincInterpolationParameters {
        sinc_len: 64,
        f_cutoff: 0.95,
        interpolation: SincInterpolationType::Linear,
        oversampling_factor: 128,
        window: WindowFunction::BlackmanHarris2,
    };
    let ratio = to as f64 / from as f64;
    let mut resampler = SincFixedIn::<f32>::new(ratio, 2.0, params, 1024, 2).unwrap();
    let mut run = ResampleRun::new(&interleaved, from, to);
    while let Some((l, r)) = run.next_chunk(resampler.input_frames_next(), 0.0) {
        let rendered = resampler.process(&[l, r], None).unwrap();
        run.push_rendered(&rendered[0], &rendered[1]);
    }
    run.finish()
}

#[test]
fn resample_passthrough_when_rates_match() {
    let v = ramp_stereo(100);
    assert_eq!(resample_stereo(v.clone(), 48000, 48000), v);
}

#[test]
fn resample_up_produces_expected_frame_count() {
    let out = resample_stereo(ramp_stereo(4410), 44100, 48000);
    assert_eq!(out.len(), 4800 * 2);
    assert!(out[200] > 0.0 && out[200] < 0.2);
    assert!(out[out.len() - 200] > 0.8);
}

#[test]
fn resample_down_produces_expected_frame_count() {
    let out = resample_stereo(ramp_stereo(4800), 48000, 44100);
    assert_eq!(out.len(), 4410 * 2);
}

#[test]
fn xfade_pull_blends_and_promotes() {
    let mut xf = XfadeState {
        current: Some(cursor(vec![1.0, 1.0, 1.0, 1.0])),
        next: VecDeque::from([cursor(vec![0.0, 0.0, 0.0, 0.0, 0.0, 0.0])]),
        pos: 0,
        len: 2,
        auto_len: 0,
    };
    let (a, b, x) = xf.pull().unwrap();
    assert_eq!((a.l, at(x)), (1.0, 0.0));
    assert!(b.is_some());
    let (_a, b, x) = xf.pull().unwrap();
    assert_eq!(at(x), 0.5);
    assert!(b.is_some());
    assert!(xf.next.is_empty(), "blend finished, deck promoted");
    let (a, _, x) = xf.pull().unwrap();
    assert_eq!((a.l, at(x)), (0.0, 0.0));
}

#[test]
fn xfade_short_incoming_keeps_current() {
    let mut xf = XfadeState {
        current: Some(cursor(vec![1.0, 1.0, 1.0, 1.0, 1.0, 1.0, 1.0, 1.0])),
        next: VecDeque::from([cursor(vec![0.0, 0.0])]),
        pos: 0,
        len: 4,
        auto_len: 0,
    };
    xf.pull().unwrap();
    let (_, b, _) = xf.pull().unwrap();
    assert!(b.is_none());
    assert!(xf.next.is_empty());
    assert!(!xf.is_done(), "current deck keeps playing");
}

#[test]
fn queued_deck_promotes_at_eof_without_blend() {
    let mut xf = XfadeState {
        current: Some(cursor(vec![1.0, 1.0, 1.0, 1.0])),
        next: VecDeque::from([cursor(vec![2.0, 2.0, 2.0, 2.0])]),
        pos: 0,
        len: 0,
        auto_len: 0,
    };
    assert_eq!(xf.pull().unwrap().0.l, 1.0);
    assert_eq!(xf.pull().unwrap().0.l, 1.0);
    let (a, b, x) = xf.pull().unwrap();
    assert_eq!((a.l, at(x)), (2.0, 0.0));
    assert!(b.is_none());
}

#[test]
fn queued_deck_auto_blends_at_track_end() {
    let mut xf = XfadeState {
        current: Some(cursor(vec![1.0, 1.0, 1.0, 1.0, 1.0, 1.0, 1.0, 1.0])),
        next: VecDeque::from([cursor(vec![0.0, 0.0, 0.0, 0.0, 0.0, 0.0, 0.0, 0.0])]),
        pos: 0,
        len: 0,
        auto_len: 2,
    };
    assert_eq!(at(xf.pull().unwrap().2), 0.0);
    let (_, b, x) = xf.pull().unwrap();
    assert!(b.is_some() && at(x) == 0.0);
    let (_, b, x) = xf.pull().unwrap();
    assert!(b.is_some() && at(x) == 0.5);
    assert!(xf.next.is_empty(), "blend finished, queued deck promoted");
    assert!(!xf.is_done());
}

#[test]
fn pending_chain_plays_in_order() {
    let mut xf = XfadeState {
        current: Some(cursor(vec![1.0, 1.0])),
        next: VecDeque::from([cursor(vec![2.0, 2.0]), cursor(vec![3.0, 3.0])]),
        pos: 0,
        len: 0,
        auto_len: 0,
    };
    let heard: Vec<f32> = (0..3).map(|_| xf.pull().unwrap().0.l).collect();
    assert_eq!(heard, vec![1.0, 2.0, 3.0]);
    assert!(xf.is_done());
}

fn path_of(t: &Transport<f32>) -> Option<String> {
    t.current_track.as_ref().map(|t| t.path.clone())
}

#[test]
fn play_announces_instantly_and_starts_after_decode() {
    let mut t: Transport<f32> = Transport::new(44100);
    let job = t.play("a.wav", true, None).unwrap();
    assert_eq!(path_of(&t).unwrap(), "a.wav");
    assert!(matches!(t.state, PlayerState::Buffering | PlayerState::Playing));
    assert!(!t.is_finished(), "in-flight decode is not an EOF");
    t.finish_load(job, Some((cursor(vec![0.4; 44100]), Some(500_000_000))));
    assert_eq!(t.state, PlayerState::Playing);
    let shown = t.current_track.as_ref().unwrap();
    assert_eq!(shown.duration_nanos, Some(500_000_000));
    assert!(shown.title.is_none() && shown.artist.is_none());
    t.stop();
    assert_eq!(t.state, PlayerState::Stopped);
}

#[test]
fn rapid_replay_supersedes_the_older_load() {
    let mut t: Transport<f32> = Transport::new(44100);
    let a = t.play("a.wav", true, None).unwrap();
    let b = t.play("b.wav", true, None).unwrap();
    assert!(!t.is_wanted(&a));
    assert!(t.is_wanted(&b));
    t.finish_load(a, Some((cursor(vec![0.1; 8]), None)));
    assert_eq!(t.state, PlayerState::Buffering);
    t.finish_load(b, Some((cursor(vec![0.2; 8]), None)));
    assert_eq!(t.state, PlayerState::Playing);
    assert_eq!(path_of(&t).unwrap(), "b.wav");
}

#[test]
fn stop_during_load_never_resurrects_playback() {
    let mut t: Transport<f32> = Transport::new(44100);
    let job = t.play("a.wav", true, None).unwrap();
    t.stop();
    t.finish_load(job, Some((cursor(vec![0.1; 8]), None)));
    assert_eq!(t.state, PlayerState::Stopped);
    assert!(t.current_track.is_none());
}

#[test]
fn idle_queue_starts_playback_after_decode() {
    let mut t: Transport<f32> = Transport::new(48000);
    let job = t.queue_file("q.wav", true, None).unwrap();
    t.finish_load(job, Some((cursor(vec![0.1; 8]), None)));
    assert_eq!(t.state, PlayerState::Playing);
    assert_eq!(path_of(&t).unwrap(), "q.wav");
}

#[test]
fn live_play_keeps_old_deck_until_handoff() {
    let mut t: Transport<f32> = Transport::new(44100);
    let a = t.play("a.wav", true, None).unwrap();
    t.finish_load(a, Some((cursor(vec![0.1; 800]), None)));
    let b = t.play("b.wav", true, None).unwrap();
    assert_eq!(t.state, PlayerState::Playing);
    assert_eq!(path_of(&t).unwrap(), "a.wav");
    assert!(!t.is_finished(), "old deck still live through the decode");
    t.finish_load(b, Some((cursor(vec![0.2; 80]), None)));
    assert_eq!(t.state, PlayerState::Playing);
    assert_eq!(path_of(&t).unwrap(), "b.wav");
    assert_eq!(t.xfade.len, 40);
    assert_eq!(t.pending_count(), 1);
    t.stop();
    assert_eq!(t.pending_count(), 0);
}

#[test]
fn live_load_failure_keeps_old_deck_playing() {
    let mut t: Transport<f32> = Transport::new(44100);
    let a = t.play("a.wav", true, None).unwrap();
    t.finish_load(a, Some((cursor(vec![0.1; 800]), None)));
    let bad = t.play("bad.wav", true, None).unwrap();
    assert_eq!(t.state, PlayerState::Playing);
    t.finish_load(bad, None);
    assert_eq!(t.state, PlayerState::Playing);
    assert_eq!(path_of(&t).unwrap(), "a.wav");
    assert!(!t.is_finished());
    t.stop();
}

#[test]
fn pause_then_resume_mid_load_still_starts() {
    let mut t: Transport<f32> = Transport::new(48000);
    let job = t.play("a.wav", true, None).unwrap();
    t.pause();
    t.resume();
    assert!(matches!(t.state, PlayerState::Playing | PlayerState::Buffering));
    t.finish_load(job, Some((cursor(vec![0.1; 8]), None)));
    assert_eq!(t.state, PlayerState::Playing);
    assert_eq!(path_of(&t).unwrap(), "a.wav");
    t.stop();
}

#[test]
fn loudness_toggle_gates_decode_gain() {
    let mut t: Transport<f32> = Transport::new(48000);
    assert!(!t.loudness_enabled);
    assert_eq!(t.gain_for(Some(6_000_000)), 0);
    t.loudness_enabled = true;
    assert_eq!(t.gain_for(Some(6_000_000)), 6_000_000);
    assert_eq!(t.gain_for(Some(99_000_000)), MAX_GAIN_UDB);
    assert_eq!(t.gain_for(None), 0);
    t.loudness_enabled = false;
    assert_eq!(t.gain_for(Some(99_000_000)), 0);
}

#[test]
fn missing_files_are_refused() {
    let mut t: Transport<f32> = Transport::new(48000);
    assert!(matches!(t.play("x.wav", false, None), Err(CrabError::FileNotFound { .. })));
    assert!(matches!(t.queue_file("x.wav", false, None), Err(CrabError::FileNotFound { .. })));
    assert_eq!(t.state, PlayerState::Stopped);
    assert_eq!(t.load_gen, 0);
}

#[test]
fn idle_failures_park_the_transport() {
    let mut t: Transport<f32> = Transport::new(48000);
    let job = t.play("bad.wav", true, None).unwrap();
    t.finish_load(job, None);
    assert_eq!(t.state, PlayerState::Stopped);
    assert!(t.current_track.is_none());
    assert!(t.is_finished());
}

#[test]
fn paused_transports_stay_paused_when_the_deck_lands() {
    let mut t: Transport<f32> = Transport::new(48000);
    let job = t.play("a.wav", true, None).unwrap();
    t.toggle_play_pause();
    assert_eq!(t.state, PlayerState::Paused);
    t.finish_load(job, Some((cursor(vec![0.1; 8]), None)));
    assert_eq!(t.state, PlayerState::Paused);
    assert!(t.next_frame().is_none());
    t.toggle_play_pause();
    assert_eq!(t.state, PlayerState::Playing);
    assert_eq!(t.next_frame().unwrap().0.l, 0.1);
    assert_eq!(t.position_nanos(), 20_833);
}

#[test]
fn programs_stop_by_themselves() {
    let mut t: Transport<f32> = Transport::new(48000);
    let job = t.play("a.wav", true, None).unwrap();
    t.finish_load(job, Some((cursor(vec![0.1, 0.1]), None)));
    t.settle();
    assert_eq!(t.state, PlayerState::Playing);
    t.next_frame().unwrap();
    t.settle();
    assert_eq!(t.state, PlayerState::Stopped);
}

#[test]
fn queued_decks_wait_behind_the_live_one() {
    let mut t: Transport<f32> = Transport::new(48000);
    t.set_crossfade_us(0);
    let a = t.play("a.wav", true, None).unwrap();
    t.finish_load(a, Some((cursor(vec![1.0, 1.0]), None)));
    let q = t.queue_file("q.wav", true, Some(3_000_000)).unwrap();
    assert!(matches!(q, LoadJob::Queue { gain_udb: 0, .. }));
    t.finish_load(q, Some((cursor(vec![2.0, 2.0]), None)));
    assert_eq!(t.pending_count(), 1);
    assert_eq!(t.next_frame().unwrap().0.l, 1.0);
    assert_eq!(t.next_frame().unwrap().0.l, 2.0);
    assert!(t.next_frame().is_none());
}

#[test]
fn transport_settings_are_held_in_range() {
    let mut t: Transport<f32> = Transport::new(48000);
    t.set_crossfade_us(99_000_000);
    assert_eq!(t.crossfade_us, 30_000_000);
    t.set_crossfade_us(-5);
    assert_eq!(t.crossfade_us, 0);
    t.set_volume(2_000_000);
    assert_eq!(t.volume, 1_500_000);
    t.set_volume(-1);
    assert_eq!(t.volume, 0);
}

#[test]
fn silence_alarms_only_while_playing() {
    let mut t: Transport<f32> = Transport::new(10);
    t.silence.set_threshold_us(1_000_000);
    for _ in 0..10 {
        t.silence.push_frame(true, true);
    }
    assert!(!t.silence_alarm());
    t.state = PlayerState::Playing;
    assert!(t.silence_alarm());
}

#[test]
fn trips_after_threshold() {
    let mut m = SilenceMonitor::new(10, 1_000_000);
    for _ in 0..9 {
        m.push_frame(true, true);
    }
    assert!(!m.alarm());
    m.push_frame(true, true);
    assert!(m.alarm());
    assert_eq!(m.silent_us(), 1_000_000);
}

#[test]
fn audio_and_pause_reset() {
    let mut m = SilenceMonitor::new(10, 1_000_000);
    for _ in 0..8 {
        m.push_frame(true, true);
    }
    m.push_frame(true, false);
    assert!(!m.alarm());
    assert_eq!(m.silent_us(), 0);
    for _ in 0..20 {
        m.push_frame(true, true);
    }
    assert!(m.alarm());
    m.push_frame(false, true);
    assert!(!m.alarm(), "paused silence is intentional");
}

#[test]
fn thresholds_are_held_in_range() {
    let mut m = SilenceMonitor::new(0, 1);
    m.set_threshold_us(0);
    assert_eq!(m.threshold_us, 1_000_000);
    m.set_threshold_us(i64::MAX);
    assert_eq!(m.threshold_us, 120_000_000);
    m.push_frame(true, true);
    assert_eq!(m.silent_us(), 1_000_000);
    assert!(!m.alarm(), "no rate, no alarm");
    m.reset();
    assert_eq!(m.silent_frames, 0);
}

#[test]
fn prefetch_only_when_useful() {
    let s = 1_000_000_000u64;
    assert!(needs_prefetch(50 * s, Some(55 * s), 0, true, 8 * s));
    assert!(!needs_prefetch(10 * s, Some(55 * s), 0, true, 8 * s));
    assert!(!needs_prefetch(50 * s, Some(55 * s), 1, true, 8 * s));
    assert!(!needs_prefetch(50 * s, Some(55 * s), 0, false, 8 * s));
    assert!(!needs_prefetch(0, None, 0, true, 8 * s));
    assert!(!needs_prefetch(0, Some(0), 0, true, 8 * s));
    assert!(needs_prefetch(60 * s, Some(55 * s), 0, true, 8 * s));
}

#[test]
fn named_devices_come_first() {
    let names = vec!["A".to_string(), "B".to_string(), "B".to_string()];
    assert_eq!(pick_device(&names, Some("B"), Some(0)), (Some(1), false));
    assert_eq!(pick_device(&names, Some("C"), Some(0)), (Some(0), true));
    assert_eq!(pick_device(&names, None, Some(2)), (Some(2), false));
    assert_eq!(pick_device(&names, Some("C"), None), (None, true));
}

#[test]
fn defaults_are_quiet_and_unavailable() {
    let c = CueConfig::default();
    assert!(c.device.is_none());
    assert_eq!(c.volume, 800_000);
    assert_eq!(CueState::Unavailable.label(), "Cue: no device");
    assert!(!CueState::Unavailable.is_playing());
    assert!(CueState::Playing.is_playing());
}

#[test]
fn volume_clamps() {
    assert_eq!(CueConfig { device: None, volume: 9_000_000 }.sanitized().volume, 1_500_000);
    assert_eq!(CueConfig { device: None, volume: -2_000_000 }.sanitized().volume, 0);
}

#[test]
fn cue_states_have_labels() {
    assert_eq!(CueState::Stopped.label(), "Cue: ready");
    assert_eq!(CueState::Playing.label(), "Cue: playing");
    assert_eq!(CueState::Error("x".to_string()).label(), "Cue error: x");
}

#[test]
fn config_sanitizes_ranges() {
    let c = MicConfig {
        level: 9_000_000,
        duck_threshold_udb: 5_000_000,
        duck_depth_udb: 99_000_000,
        attack_us: 0,
        release_us: 99_999_000,
        ..Default::default()
    }
    .sanitized();
    assert_eq!(c.level, 1_500_000);
    assert_eq!(c.duck_threshold_udb, 0);
    assert_eq!(c.duck_depth_udb, 24_000_000);
    assert_eq!(c.attack_us, 1_000);
    assert_eq!(c.release_us, 3_000_000);
}

#[test]
fn lowering_by_nothing_is_no_lowering() {
    let c = MicConfig { duck_depth_udb: -1, ..Default::default() }.sanitized();
    assert_eq!(c.duck_depth_udb, 0);
    assert!(!c.duck_enabled);
}

#[test]
fn mic_state_labels() {
    assert_eq!(MicState::Off.label(), "⏸ Off");
    assert_eq!(MicState::Live.label(), "🎙 Live");
    assert!(MicState::Error("boom".into()).label().contains("boom"));
    assert!(MicState::Live.is_live());
    assert!(!MicState::Off.is_live());
}

fn feed(r: &mut MicResampler<f32>, l: f32, right: f32, out: &mut Vec<(f32, f32)>) {
    let whole = r.from as f32;
    let (places, before) = r.feed(l, right);
    for p in places {
        let t = p as f32 / whole;
        out.push((before.0 + (l - before.0) * t, before.1 + (right - before.1) * t));
    }
}

#[test]
fn resampler_passthrough_at_matching_rates() {
    let mut r = MicResampler::new(48_000, 48_000);
    let mut out = Vec::new();
    for i in 0..100 {
        feed(&mut r, i as f32, -(i as f32), &mut out);
    }
    assert_eq!(out.len(), 100);
    assert_eq!(out[50], (50.0, -50.0));
}

#[test]
fn resampler_upsample_produces_expected_frame_count() {
    let mut r = MicResampler::new(24_000, 48_000);
    let mut out = Vec::new();
    for _ in 0..240 {
        feed(&mut r, 1.0, 1.0, &mut out);
    }
    assert_eq!(out.len(), 480);
}

#[test]
fn resampler_downsample_produces_expected_frame_count() {
    let mut r = MicResampler::new(48_000, 24_000);
    let mut out = Vec::new();
    for _ in 0..480 {
        feed(&mut r, 1.0, 1.0, &mut out);
    }
    assert_eq!(out.len(), 240);
}

#[test]
fn resampler_steps_evenly_between_frames() {
    let mut r = MicResampler::new(1, 4);
    let mut out = Vec::new();
    feed(&mut r, 0.0, 0.0, &mut out);
    feed(&mut r, 1.0, 2.0, &mut out);
    assert_eq!(out.len(), 8);
    assert_eq!(out[7], (1.0, 2.0).clone());
    r.reset();
    assert_eq!(r.credit, 0);
    assert!(r.prev.is_none());
}

#[test]
fn odd_rates_keep_time() {
    let mut r = MicResampler::new(44_100, 48_000);
    let mut out = Vec::new();
    for _ in 0..44_100 {
        feed(&mut r, 1.0, 1.0, &mut out);
    }
    assert_eq!(out.len(), 48_000);
}

#[test]
fn inputs_without_resampling_come_first() {
    let c = |is_f32, channels, min_rate, max_rate| InputConfig { is_f32, channels, min_rate, max_rate };
    let all = vec![c(false, 2, 8000, 96000), c(true, 0, 8000, 96000), c(true, 12, 44100, 48000)];
    assert_eq!(pick_input(&all, 48000), Some((2, 8)));
    assert_eq!(pick_input(&all, 96000), None);
    assert!(check_usual_input(true, "Mic").is_ok());
    assert_eq!(
        check_usual_input(false, "Mic").unwrap_err(),
        "input 'Mic' offers no f32 capture config"
    );
}

#[test]
fn channels_fold_to_stereo() {
    assert_eq!(fold_channels(&[1, 2, 3], 1), vec![(1, 1), (2, 2), (3, 3)]);
    assert_eq!(fold_channels(&[1, 2, 3], 0), vec![(1, 1), (2, 2), (3, 3)]);
    assert_eq!(fold_channels(&[1, 2, 3, 4], 2), vec![(1, 2), (3, 4)]);
    assert_eq!(fold_channels(&[1, 2, 3, 4, 5, 6, 7], 3), vec![(1, 2), (4, 5), (7, 7)]);
    assert!(fold_channels::<i32>(&[], 2).is_empty());
}

#[test]
fn the_microphone_never_lags_far_behind() {
    assert_eq!(excess(MIC_RING_SAMPLES / 2), 0);
    assert_eq!(excess(MIC_RING_SAMPLES / 2 + 3), MIC_RING_SAMPLES / 4 + 2);
}

#[test]
fn the_microphone_follows_its_device() {
    let mut m = MicInput::new();
    let usb = MicConfig { device: Some("USB".to_string()), ..Default::default() };
    assert!(!m.set_config(usb.clone()), "not live yet");
    assert_eq!(m.begin_start().as_deref(), Some("USB"));
    m.finish_start(Ok(())).unwrap();
    assert!(m.state().is_live());
    assert_eq!(m.shown_level(-12_000_000), -12_000_000);
    assert!(!m.set_config(usb));
    assert!(m.set_config(MicConfig::default()));
    assert!(m.begin_start().is_none());
    assert!(!m.state().is_live());
    let e = m.finish_start(Err("gone".to_string()));
    assert!(matches!(e, Err(CrabError::Audio(s)) if s == "gone"));
    assert_eq!(m.state().label(), "⚠ gone");
    assert_eq!(m.shown_level(-12_000_000), -99_000_000);
    m.stop();
    assert_eq!(m.state().label(), "⏸ Off");
}

#[test]
fn decoded_buffers_become_stereo() {
    let mut s: DecodeSink<i32> = DecodeSink::new();
    s.push_buffer(22050, &[1, 2], None);
    s.push_buffer(48000, &[3, 4, 5], Some(&[6, 7]));
    assert_eq!(s.finish().unwrap(), (vec![1, 1, 2, 2, 3, 6, 4, 7], 22050));
    let none: DecodeSink<i32> = DecodeSink::new();
    assert!(matches!(none.finish(), Err(CrabError::Audio(m)) if m == "decoded 0 samples"));
    let unnamed = DecodeSink { stereo: vec![1, 1], rate: None };
    assert_eq!(unnamed.finish().unwrap().1, USUAL_RATE);
}

#[test]
fn the_first_known_track_is_decoded() {
    assert_eq!(pick_track(&vec![false, true, true]).unwrap(), 1);
    assert!(matches!(pick_track(&vec![false]), Err(CrabError::Audio(m)) if m == "no audio track"));
    assert!(format_error().message().contains("unsupported sample format"));
}

#[test]
fn resampling_hands_out_every_sample() {
    let mut run = ResampleRun::new(&[1, 2, 3, 4, 5, 6, 7], 3, 4);
    assert_eq!(run.want, 4);
    assert_eq!(run.next_chunk(2, 0).unwrap(), (vec![1, 3], vec![2, 4]));
    assert_eq!(run.next_chunk(2, 0).unwrap(), (vec![5, 0], vec![6, 0]));
    assert!(run.next_chunk(2, 0).is_none());
    run.push_rendered(&[1, 2, 3], &[4, 5, 6]);
    run.push_rendered(&[7, 8], &[9]);
    assert_eq!(run.finish(), vec![1, 4, 2, 5, 3, 6, 7, 9]);
}

#[test]
fn channels_deal_and_weave() {
    let (mut l, mut r) = (vec![], vec![]);
    deal(&mut l, &mut r, &[1, 2, 3, 4]);
    deal(&mut l, &mut r, &[5, 6]);
    assert_eq!((l.clone(), r.clone()), (vec![1, 3, 5], vec![2, 4, 6]));
    let mut out = vec![];
    weave(&mut out, &l, &r, 3);
    assert_eq!(out, vec![1, 2, 3, 4, 5, 6]);
    assert_eq!(take_front(&mut out, 2), vec![1, 2]);
    assert_eq!(out, vec![3, 4, 5, 6]);
}

#[test]
fn equalizers_are_bypassed_when_flat_or_off() {
    let mut eq = EqChain::new(48_000);
    assert!(eq.is_bypassed());
    eq.set_enabled(true);
    assert!(eq.is_bypassed(), "all-flat chain should bypass");
    assert!(eq.set_band(6, 99_000_000));
    assert_eq!(eq.bands[6].gain_udb, 12_000_000);
    assert!(!eq.is_bypassed());
    assert!(!eq.set_band(EQ_BAND_COUNT, 1_000_000));
    eq.reset();
    assert!(eq.is_bypassed());
    assert!(eq.set_band(0, 49_999));
    assert!(eq.is_bypassed(), "inaudible");
    assert!(!eq.set_rate(48_000));
    assert!(eq.set_rate(44_100));
}

#[test]
fn bus_settings_are_held_in_range() {
    let mut m = Mixer::new(2_000_000);
    assert_eq!(m.gain, 1_500_000);
    assert_eq!(m.ceiling, 990_000);
    assert_eq!(m.curve, CrossfadeCurve::default());
    m.set_gain(-1);
    m.set_crossfade(2_000_000);
    m.set_ceiling(0);
    m.set_curve(CrossfadeCurve::Linear);
    assert_eq!((m.gain, m.crossfade, m.ceiling), (0, 1_000_000, 100_000));
    assert_eq!(m.curve, CrossfadeCurve::Linear);
}

#[test]
fn blocks_are_four_hops_long() {
    let mut w: BlockWindow<u32> = BlockWindow::new(48_000);
    assert_eq!(w.hop_frames, 4800);
    let done: usize = (0..9600).filter(|_| w.push_frame()).count();
    assert_eq!(done, 2);
    assert!(w.push_hop(1).is_none());
    assert!(w.push_hop(2).is_none());
    assert!(w.push_hop(3).is_none());
    assert_eq!(w.push_hop(4).unwrap(), vec![1, 2, 3, 4]);
    assert_eq!(w.push_hop(5).unwrap(), vec![2, 3, 4, 5]);
    let tiny: BlockWindow<u32> = BlockWindow::new(1);
    assert_eq!(tiny.hop_frames, 1);
}

#[test]
fn quiet_blocks_do_not_count() {
    let levels = vec![-20_000_000, -70_000_000, -25_000_000, -69_999_999, -31_000_000];
    assert_eq!(audible_blocks(&levels), vec![0, 2, 3, 4]);
    assert_eq!(counting_blocks(&levels, -21_000_000), vec![0, 2]);
    assert_eq!(counting_blocks(&levels, -90_000_000), vec![0, 2, 3, 4]);
}

#[test]
fn gain_points_at_target() {
    let a = judge_loudness(Some(-33_000_000)).unwrap();
    assert_eq!(a.gain_udb, 10_000_000);
    let hot = judge_loudness(Some(-3_000_000)).unwrap();
    assert_eq!(hot.gain_udb, -20_000_000);
    assert_eq!(judge_loudness(Some(-60_000_000)).unwrap().gain_udb, 24_000_000);
}

#[test]
fn too_short_clip_reports_none() {
    assert!(matches!(
        judge_loudness(None),
        Err(CrabError::Audio(m)) if m == "clip too short to measure"
    ));
    assert!(audible_blocks(&vec![]).is_empty());
}

#[test]
fn rings_keep_pairs_and_order() {
    let (mut p, mut c) = rtrb::RingBuffer::new(6);
    assert!(push_chunk(&mut p, &[1, 2]));
    assert!(!push_chunk(&mut p, &[3, 4, 5, 6, 7]), "all or nothing");
    assert_eq!(push_fitting(&mut p, &[3, 4, 5, 6, 7, 8]), 4);
    assert_eq!(push_frames(&mut p, &vec![(9, 9)]), 0);
    assert_eq!(pop_frame(&mut c), Some((1, 2)));
    assert_eq!(push_frames(&mut p, &vec![(9, 10), (11, 12)]), 1);
    assert_eq!(drain_batch(&mut c), vec![3, 4, 5, 6, 9, 10]);
    assert_eq!(pop_frame(&mut c), None);
    assert!(push_chunk(&mut p, &[7]));
    assert_eq!(pop_frame(&mut c), Some((7, 7)), "a lone sample");
    assert!(push_chunk(&mut p, &[1, 2, 3]));
    assert!(drop_excess(&mut c).is_empty());
    assert_eq!(drop_backlog(&mut c), vec![1, 2, 3]);
    assert_eq!((fitting(10, 7), fitting(4, 7)), (6, 4));
}

#[test]
fn the_microphone_ring_is_cut_down() {
    let (mut p, mut c) = rtrb::RingBuffer::new(MIC_RING_SAMPLES);
    let n = MIC_RING_SAMPLES / 2 + 2;
    assert!(push_chunk(&mut p, &vec![5; n]));
    assert_eq!(drop_excess(&mut c).len(), MIC_RING_SAMPLES / 4 + 2);
    assert_eq!(c.slots(), MIC_RING_SAMPLES / 4);
}

#[test]
fn buffers_pull_count_and_stop() {
    let mut t: Transport<f32> = Transport::new(48000);
    assert!(pull_block(&mut t, 2).iter().all(|f| f.is_none()));
    let job = t.play("a.wav", true, None).unwrap();
    t.finish_load(job, Some((cursor(vec![0.1, 0.2, 0.3, 0.4, 0.5, 0.6]), None)));
    let got = pull_block(&mut t, 2);
    assert_eq!(got.len(), 2);
    let (f, incoming, _) = got[1].unwrap();
    assert_eq!((f.l, f.r), (0.3, 0.4));
    assert!(incoming.is_none());
    finish_block(&mut t, &vec![true, true]);
    assert_eq!(t.silence.silent_frames, 2);
    assert_eq!(t.state, PlayerState::Playing);
    let got = pull_block(&mut t, 2);
    assert!(got[0].is_some() && got[1].is_none());
    finish_block(&mut t, &vec![false, true]);
    assert_eq!(t.silence.silent_frames, 1);
    assert_eq!(t.state, PlayerState::Stopped);
}

#[test]
fn frames_fill_any_number_of_channels() {
    let frames = vec![(Frame { l: 1, r: 2 }, 9), (Frame { l: 3, r: 4 }, 8)];
    assert_eq!(lay_out(1, &frames, 0), vec![9, 8]);
    assert_eq!(lay_out(2, &frames, 0), vec![1, 2, 3, 4]);
    assert_eq!(lay_out(4, &frames, 0), vec![1, 2, 0, 0, 3, 4, 0, 0]);
}

#[test]
fn taps_are_handed_every_frame_once() {
    let mut b = TapBuffer::new();
    let mut heard = Vec::new();
    let mut chunks = 0;
    for i in 0..5000u32 {
        if let Some(chunk) = b.push(2 * i, 2 * i + 1) {
            assert_eq!(chunk.len(), TAP_SAMPLES);
            heard.extend(chunk);
            chunks += 1;
        }
    }
    heard.extend(b.staged);
    assert_eq!(chunks, 1);
    assert_eq!(heard, (0..10000).collect::<Vec<u32>>());
}

#[test]
fn only_programs_with_a_rate_and_a_size_are_resampled() {
    assert!(resampled_fits(88_200, 44_100, 48_000));
    assert!(!resampled_fits(88_200, 0, 48_000));
    assert!(!resampled_fits(usize::MAX, 1, 48_000));
}
