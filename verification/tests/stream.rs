use crabcore::audio::channels::take_front;
use crabcore::error::CrabError;
use crabcore::stream::config::{StreamConfig, StreamFormat, StreamProtocol, StreamState};
use crabcore::stream::encoder::build_encoder;
use crabcore::stream::he_aac::{
    codec_error, select_aot, setting_error, CodecSetting, FlushEvent, HeAacEncoder, HeAacPlan,
    AOT_PS, AOT_SBR,
};
use crabcore::stream::listeners::{
    fetch_listener_count, listeners_in, parse_listener_count, parse_shoutcast_listeners,
    poll_request, read_json, response_body, Json,
};
use crabcore::stream::manager::StreamManager;
use crabcore::stream::ogg::{
    build_crc_table, ogg_crc32, opus_bitrate, opus_head, opus_tags, write_page, OpusOggEncoder,
    FRAME_SAMPLES, RES_CHUNK,
};
use crabcore::stream::sender::{
    air_time, batch_frames, pace, retry_delay_secs, SenderAction, SenderEvent, StreamSender,
    DRAIN_FRAMES, MAX_RECONNECTS, RING_SAMPLES,
};
use crabcore::stream::shoutcast::{
    after_grace, block_part, judge_admin_reply, judge_reply, line_byte, login_error,
    login_password, percent_encode, sanitize_field, BlockStep, LineStep, ShoutcastAdmin,
    ShoutcastSource, MAX_HANDSHAKE,
};
use crabcore::stream::source::{
    basic_auth, flood_error, hangup_error, judge_write, metadata_block, next_header_block,
    HandshakeProtocol, HeaderStep, IcecastSource, WriteEvent, HANDSHAKE_GRACE_MS, MAX_HEADER_BYTES,
};
use crabcore::stream::stereotool::{license_check, open_check, process_frames, StereoToolConfig};
use rubato::{FftFixedIn, Resampler};

#[test]
fn sanitize_normalizes_mount_and_fields() {
    let cfg = StreamConfig {
        host: " radio.example.com ".into(),
        mount: "live.mp3".into(),
        username: "  ".into(),
        bitrate_kbps: 9999,
        ..Default::default()
    }
    .sanitized();
    assert_eq!(cfg.host, "radio.example.com");
    assert_eq!(cfg.mount, "/live.mp3");
    assert_eq!(cfg.username, "source");
    assert_eq!(cfg.bitrate_kbps, 128);

    let cfg = StreamConfig { mount: "".into(), bitrate_kbps: 0, ..Default::default() }.sanitized();
    assert_eq!(cfg.mount, "/stream");
    assert_eq!(cfg.bitrate_kbps, 128);
}

#[test]
fn content_type_for_mp3() {
    assert_eq!(StreamFormat::Mp3.content_type(), "audio/mpeg");
}

#[test]
fn opus_format_has_its_type_and_label() {
    assert_eq!(StreamFormat::Opus.content_type(), "audio/ogg; codecs=opus");
    assert_eq!(StreamFormat::Opus.label(), "Opus");
    assert_eq!(StreamFormat::default(), StreamFormat::Mp3);
}

#[test]
fn stream_states_have_labels() {
    assert!(StreamState::Live.is_live());
    assert!(!StreamState::Connecting.is_live());
    assert!(StreamState::Error("boom".to_string()).label().contains("boom"));
    let labels = [StreamState::Off.label(), StreamState::Connecting.label(), StreamState::Live.label()];
    assert!(labels[0] != labels[1] && labels[1] != labels[2]);
}

fn cfg() -> StreamConfig {
    StreamConfig { enabled: true, ..Default::default() }
}

fn is_off(m: &StreamManager) -> bool {
    matches!(m.state(), StreamState::Off)
}

#[test]
fn start_returns_tap_and_stop_kills_it() {
    let mut mgr = StreamManager::new(cfg());
    let tap = mgr.start();
    assert!(tap.is_some(), "enabled config yields a tap");
    assert!(mgr.running());
    let live = mgr.generation;
    mgr.stop();
    assert!(!mgr.running());
    assert!(is_off(&mgr));
    let stale = tap.unwrap();
    let (mut p, c) = rtrb::RingBuffer::new(RING_SAMPLES);
    assert!(stale.push(live, &mut p, &[0; 128]));
    assert!(!stale.push(mgr.generation, &mut p, &[0; 128]));
    assert_eq!(c.slots(), 128);
}

#[test]
fn disabled_config_yields_no_tap() {
    let mut mgr = StreamManager::new(StreamConfig { enabled: false, ..Default::default() });
    assert!(mgr.start().is_none());
    assert!(is_off(&mgr));
}

#[test]
fn restart_generates_fresh_tap() {
    let mut mgr = StreamManager::new(cfg());
    let t1 = mgr.start().unwrap();
    assert!(mgr.start().is_none(), "running already");
    assert!(t1.is_current(mgr.generation));
    mgr.stop();
    let t2 = mgr.start().unwrap();
    let (mut p, _c) = rtrb::RingBuffer::new(RING_SAMPLES);
    assert!(!t1.push(mgr.generation, &mut p, &[0; 64]));
    assert!(t2.push(mgr.generation, &mut p, &[0; 64]));
    assert!(!t1.is_current(mgr.generation) && t2.is_current(mgr.generation));
    assert!(mgr.running());
    mgr.stop();
}

#[test]
fn stats_start_zeroed() {
    let mut mgr = StreamManager::new(cfg());
    let _ = mgr.start();
    let s = mgr.stats();
    assert_eq!(s.bytes_sent, 0);
    assert_eq!(s.stream_secs, 0);
    mgr.stop();
}

#[test]
fn set_title_sanitizes_newlines() {
    let mut mgr = StreamManager::new(cfg());
    mgr.set_title("Artist\r\nTitle");
    assert!(is_off(&mgr));
    assert!(!mgr.title.contains('\n') && !mgr.title.contains('\r'), "{:?}", mgr.title);
    assert!(mgr.title.starts_with("Artist") && mgr.title.ends_with("Title"));
}

#[test]
fn tap_overfill_does_not_block_or_panic() {
    let mut mgr = StreamManager::new(cfg());
    let tap = mgr.start().unwrap();
    let (mut p, c) = rtrb::RingBuffer::new(RING_SAMPLES);
    assert!(!tap.push(mgr.generation, &mut p, &vec![0; RING_SAMPLES + 4096]));
    assert_eq!(c.slots(), 0);
    mgr.stop();
}

#[test]
fn reports_of_an_older_run_are_ignored() {
    let mut mgr = StreamManager::new(cfg());
    mgr.start().unwrap();
    let old = mgr.generation;
    let mut sender = StreamSender::new();
    sender.step(SenderEvent::ConnectFailed("refused".to_string()));
    mgr.report(old, &sender);
    assert!(matches!(mgr.state(), StreamState::Error(_)));
    mgr.stop();
    mgr.report(old, &sender);
    assert!(is_off(&mgr));
}

const SINGLE: &str = r#"{"icestats":{"source":{"listenurl":"http://cast:8000/stream","listeners":3,"listener_peak":9}}}"#;
const MULTI: &str = r#"{"icestats":{"source":[{"listenurl":"http://cast:8000/stream","listeners":2},{"listenurl":"http://cast:8000/live","listeners":7}]}}"#;

#[test]
fn parse_reads_single_object_form() {
    assert_eq!(parse_listener_count(SINGLE, "/stream"), Some(3));
    assert_eq!(parse_listener_count(SINGLE, "stream"), Some(3));
}

#[test]
fn parse_picks_the_right_mount_from_arrays() {
    assert_eq!(parse_listener_count(MULTI, "/stream"), Some(2));
    assert_eq!(parse_listener_count(MULTI, "/live"), Some(7));
}

#[test]
fn parse_degrades_to_none() {
    assert_eq!(parse_listener_count(SINGLE, "/missing"), None);
    assert_eq!(parse_listener_count("not json", "/stream"), None);
    assert_eq!(parse_listener_count(r#"{"icestats":{}}"#, "/stream"), None);
    assert_eq!(parse_listener_count(r#"{"icestats":{"source":[]}}"#, "/stream"), None);
}

fn answer(body: &str, status: &str) -> Option<Vec<u8>> {
    let text = format!(
        "{status}\r\nContent-Type: application/json\r\nContent-Length: {}\r\nConnection: close\r\n\r\n{body}",
        body.len()
    );
    Some(text.into_bytes())
}

fn poll_cfg() -> StreamConfig {
    StreamConfig { host: "127.0.0.1".into(), mount: "/stream".into(), ..Default::default() }
}

#[test]
fn fetch_reads_canned_status_json() {
    assert_eq!(fetch_listener_count(&poll_cfg(), answer(SINGLE, "HTTP/1.0 200 OK")), Some(3));
}

#[test]
fn fetch_degrades_on_rejection_and_garbage() {
    assert_eq!(fetch_listener_count(&poll_cfg(), answer(SINGLE, "HTTP/1.0 403 Forbidden")), None);
    assert_eq!(fetch_listener_count(&poll_cfg(), answer("nope", "HTTP/1.0 200 OK")), None);
    assert_eq!(fetch_listener_count(&poll_cfg(), None), None);
    assert!(response_body(vec![0xFF, 0xFE]).is_err());
}

#[test]
fn shoutcast_parse_reads_current_listeners() {
    let body = r#"{"shoutcast":{"source":{"sid":1,"currentlisteners":12,"peaklisteners":40}}}"#;
    assert_eq!(parse_shoutcast_listeners(body), Some(12));
    assert_eq!(parse_shoutcast_listeners(r#"{"a":1}"#), None);
    assert_eq!(parse_shoutcast_listeners("not json"), None);
}

#[test]
fn shoutcast_fetch_hits_admin_cgi_with_sid() {
    let cfg = StreamConfig {
        host: "127.0.0.1".into(),
        password: "secret".into(),
        protocol: StreamProtocol::ShoutcastV2,
        sid: 2,
        ..Default::default()
    };
    let got = fetch_listener_count(&cfg, answer(r#"{"currentlisteners": 7}"#, "HTTP/1.0 200 OK"));
    assert_eq!(got, Some(7));
    let req = poll_request(&cfg);
    assert!(
        req.contains("GET /admin.cgi?sid=2&mode=viewjson&pass=secret HTTP/1.0"),
        "{req}"
    );
}

#[test]
fn documents_are_read_into_plain_values() {
    let doc = read_json(r#"{"b":[1,-1,null,true,"x"]}"#).unwrap();
    match doc {
        Json::Object(fields) => {
            assert_eq!(fields[0].0, "b");
            match &fields[0].1 {
                Json::Array(items) => {
                    assert!(matches!(items[0], Json::Number(Some(1))));
                    assert!(matches!(items[1], Json::Number(None)));
                    assert!(matches!(items[2], Json::Null));
                    assert!(matches!(items[3], Json::Bool(true)));
                    assert!(matches!(&items[4], Json::Text(t) if t == "x"));
                }
                _ => panic!("no array"),
            }
        }
        _ => panic!("no object"),
    }
    assert!(read_json("{").is_none());
    assert_eq!(listeners_in(&Json::Null, "/x"), None);
}

/// Pages back to back: type, granule, body.
fn pages(bytes: &[u8]) -> Vec<(u8, u64, Vec<u8>)> {
    let mut out = Vec::new();
    let mut i = 0;
    while i + 27 <= bytes.len() {
        assert_eq!(&bytes[i..i + 4], b"OggS", "page sync at {i}");
        let granule = u64::from_le_bytes(bytes[i + 6..i + 14].try_into().unwrap());
        let nseg = bytes[i + 26] as usize;
        let lace_end = i + 27 + nseg;
        let body: usize = bytes[i + 27..lace_end].iter().map(|&b| b as usize).sum();
        let mut page = bytes[i..lace_end + body].to_vec();
        let crc = u32::from_le_bytes(page[22..26].try_into().unwrap());
        page[22..26].copy_from_slice(&[0, 0, 0, 0]);
        assert_eq!(ogg_crc32(&page), crc, "checksum at {i}");
        out.push((bytes[i + 5], granule, bytes[lace_end..lace_end + body].to_vec()));
        i = lace_end + body;
    }
    out
}

/// Encode with packets of 240 bytes, as many as twenty milliseconds take.
fn encode(enc: &mut OpusOggEncoder<f32>, chunk: &[f32], res: &mut Option<FftFixedIn<f32>>) -> Vec<u8> {
    enc.begin();
    enc.stage(chunk);
    if let Some(r) = res {
        while let Some((l, right)) = enc.take_chunk() {
            let out = r.process(&[l, right], None).unwrap();
            enc.push_resampled(&out[0], &out[1]);
        }
    }
    while let Some(frame) = enc.take_frame() {
        assert_eq!(frame.len(), FRAME_SAMPLES * 2);
        enc.push_packet(&[7u8; 240]);
    }
    std::mem::take(&mut enc.out)
}

fn run_all(enc: &mut OpusOggEncoder<f32>, frames: usize, rate: u32) -> Vec<u8> {
    let mut res = if enc.needs_resampling() {
        Some(FftFixedIn::<f32>::new(rate as usize, 48_000, RES_CHUNK, 2, 2).unwrap())
    } else {
        None
    };
    let mut all = Vec::new();
    let mut left = frames;
    let mut chunk_frames = 511;
    while left > 0 {
        let take = chunk_frames.min(left);
        all.extend_from_slice(&encode(enc, &vec![0.1f32; take * 2], &mut res));
        left -= take;
        chunk_frames = if chunk_frames == 511 { 2048 } else { 511 };
    }
    enc.flush();
    all.extend_from_slice(&enc.out);
    all
}

#[test]
fn opus_stream_parses_with_headers_first() {
    let mut enc = OpusOggEncoder::new(48_000, 1, 312).expect("encoder builds");
    let bytes = run_all(&mut enc, 48_000, 48_000);
    assert!(bytes.starts_with(b"OggS"), "must start with an Ogg page");
    let pages = pages(&bytes);
    let packets: Vec<_> = pages.iter().filter(|p| p.0 & 0x04 == 0).collect();
    assert_eq!(packets.len(), 52, "headers + 50 audio packets");
    assert!(packets[0].2.starts_with(b"OpusHead"), "first packet is OpusHead");
    assert_eq!(packets[0].2.len(), 19);
    assert!(packets[1].2.starts_with(b"OpusTags"), "second packet is OpusTags");
    for (i, p) in packets.iter().enumerate().skip(2) {
        assert!(!p.2.is_empty(), "audio packet {i} carries bytes");
    }
    assert_eq!(pages[0].0 & 0x02, 0x02, "first page has BOS");
    assert_eq!(pages[pages.len() - 1].0 & 0x04, 0x04, "last page has EOS");
    assert_eq!(pages[pages.len() - 2].1, 48_000);
    let audio_bytes: usize = packets.iter().skip(2).map(|p| p.2.len()).sum();
    assert!((8_000..20_000).contains(&audio_bytes), "suspicious audio size: {audio_bytes}");
}

#[test]
fn resample_path_tracks_44k1() {
    let mut enc = OpusOggEncoder::new(44_100, 1, 312).expect("encoder builds");
    let bytes = run_all(&mut enc, 44_100, 44_100);
    let pages = pages(&bytes);
    let audio = pages.len() - 3;
    assert!((49..=51).contains(&audio), "expected ~50 audio packets, got {audio}");
    let mut last = 0u64;
    for p in pages.iter().skip(2).take(audio) {
        assert!(p.1 > last, "granules increase");
        last = p.1;
    }
}

#[test]
fn odd_chunks_never_lose_samples() {
    let mut enc = OpusOggEncoder::new(48_000, 1, 312).expect("encoder builds");
    let mut bytes = Vec::new();
    for _ in 0..7 {
        let b = encode(&mut enc, &[0.1f32; 6], &mut None);
        assert!(b.is_empty() || b.starts_with(b"OggS"));
        bytes.extend_from_slice(&b);
    }
    bytes.extend_from_slice(&run_all(&mut enc, 48_000, 48_000));
    let packets = pages(&bytes).iter().filter(|p| p.0 & 0x04 == 0).count();
    assert_eq!(packets, 52, "got {packets} packets");
}

#[test]
fn long_packets_are_laced() {
    let mut out = Vec::new();
    write_page(&mut out, 9, 3, 0, 77, &[5u8; 600]);
    let p = pages(&out);
    assert_eq!(p.len(), 1);
    assert_eq!((p[0].1, p[0].2.len()), (77, 600));
    assert_eq!(out[26], 3);
    let table = build_crc_table();
    assert_eq!(table.len(), 256);
    assert_eq!(table[1], 0x04C1_1DB7);
    assert_eq!(opus_head(312, 44_100).len(), 19);
    assert!(opus_tags().starts_with(b"OpusTags"));
    assert_eq!((opus_bitrate(0), opus_bitrate(96)), (16_000, 96_000));
    let mut v = vec![1, 2, 3];
    assert_eq!(take_front(&mut v, 1), vec![1]);
}

fn cfg_heaac(kbps: u32) -> StreamConfig {
    StreamConfig {
        enabled: true,
        bitrate_kbps: kbps,
        format: StreamFormat::HeAac,
        ..Default::default()
    }
}

#[test]
fn aot_selection_prefers_v2_at_low_rates() {
    assert_eq!(select_aot(16).1, "HE-AAC v2");
    assert_eq!(select_aot(32).1, "HE-AAC v2");
    assert_eq!(select_aot(48).1, "HE-AAC v2");
    assert_eq!(select_aot(56).1, "HE-AAC v1");
    assert_eq!(select_aot(64).1, "HE-AAC v1");
    assert_eq!(select_aot(128).1, "HE-AAC v1");
    assert_eq!((select_aot(48).0, select_aot(49).0), (AOT_PS, AOT_SBR));
}

#[test]
fn rejects_zero_device_rate() {
    let err = HeAacPlan::new(&cfg_heaac(48), 0).unwrap_err();
    assert!(err.message().contains("rate is 0"), "{}", err.message());
}

#[test]
fn builds_through_build_encoder_and_rejected_for_shoutcast() {
    let cfg = cfg_heaac(48);
    assert!(build_encoder(&cfg).is_ok());
    let mut sc = cfg.clone();
    sc.protocol = StreamProtocol::ShoutcastV2;
    assert!(build_encoder(&sc).is_err());
    let mut sc1 = cfg.clone();
    sc1.protocol = StreamProtocol::ShoutcastV1;
    assert!(build_encoder(&sc1).is_err());
}

#[test]
fn small_chunks_buffer_until_a_frame_fills() {
    let mut enc = HeAacEncoder::with_layout(1024, 8192).expect("encoder builds");
    enc.stage(&[0i16; 64]);
    assert!(enc.take_frame().is_none());
    enc.stage(&[1i16; 3 * 2048]);
    let mut frames = 0;
    while let Some(f) = enc.take_frame() {
        assert_eq!(f.len(), 2048);
        enc.push_bytes(&[0xFF, 0xF1]);
        frames += 1;
    }
    assert_eq!(frames, 3);
    assert_eq!(enc.staging.len(), 64);
    assert_eq!(enc.out.len(), 6);
}

#[test]
fn flushing_ends_with_the_codec() {
    let mut enc = HeAacEncoder::with_layout(1024, 8192).unwrap();
    enc.begin_flush();
    assert!(enc.flush_round(0, FlushEvent::Bytes(vec![1, 2])).unwrap());
    assert!(!enc.flush_round(1, FlushEvent::Eof).unwrap());
    assert_eq!(enc.out, vec![1, 2]);
    assert!(enc.flush_round(0, FlushEvent::Failed(5)).is_err());
    assert!(setting_error("bitrate", 32).message().contains("bitrate"));
    assert!(codec_error("encode", 96).message().contains("encode"));
}

fn sc_cfg() -> StreamConfig {
    StreamConfig {
        host: "127.0.0.1".into(),
        password: "secret".into(),
        protocol: StreamProtocol::ShoutcastV1,
        ..Default::default()
    }
}

#[test]
fn v1_handshake_sends_password_then_icy_headers() {
    let src = ShoutcastSource::prepare(&sc_cfg()).expect("v1 must connect");
    assert_eq!(src.login_line().trim_end(), "secret");
    assert!(judge_reply("OK2").is_ok());
    let head = ShoutcastSource::station_headers(&sc_cfg());
    assert!(head.contains("icy-name:"), "{head}");
    assert!(head.contains("icy-pub:"), "{head}");
    assert!(head.contains("icy-br:128"), "{head}");
    assert!(head.contains("Content-Type: audio/mpeg"), "{head}");
}

#[test]
fn v2_mangles_password_with_sid() {
    let mut c = sc_cfg();
    c.protocol = StreamProtocol::ShoutcastV2;
    c.sid = 2;
    let src = ShoutcastSource::prepare(&c).expect("v2 must connect");
    assert_eq!(src.login_line().trim_end(), "secret:#2");
}

#[test]
fn v2_sid1_sends_password_verbatim() {
    let mut c = sc_cfg();
    c.protocol = StreamProtocol::ShoutcastV2;
    c.sid = 1;
    let src = ShoutcastSource::prepare(&c).expect("v2 sid 1 must connect");
    assert_eq!(src.login_line().trim_end(), "secret");
}

#[test]
fn rejects_wrong_password_reply() {
    let err = judge_reply("invalid password").unwrap_err();
    assert!(err.message().contains("rejected"), "{}", err.message());
}

#[test]
fn closed_login_hints_at_password_or_port() {
    let err = login_error(true, "connection reset");
    assert!(err.message().contains("wrong password"), "{}", err.message());
    assert!(!login_error(false, "timed out").message().contains("wrong password"));
}

#[test]
fn opus_is_rejected_for_shoutcast() {
    let mut c = sc_cfg();
    c.format = StreamFormat::Opus;
    match ShoutcastSource::prepare(&c) {
        Err(e) => assert!(e.message().contains("MP3 only"), "{}", e.message()),
        Ok(_) => panic!("must be refused"),
    }
}

#[test]
fn login_password_rules() {
    assert_eq!(login_password("pw", 1, false), "pw");
    assert_eq!(login_password("pw", 3, false), "pw");
    assert_eq!(login_password("pw", 1, true), "pw");
    assert_eq!(login_password("pw", 2, true), "pw:#2");
    assert_eq!(login_password("dj:pw:#2", 1, false), "dj:pw:#2");
}

#[test]
fn percent_encode_covers_query_values() {
    assert_eq!(percent_encode("abc-_.~09"), "abc-_.~09");
    assert_eq!(percent_encode("Artist - Title & More?"), "Artist%20-%20Title%20%26%20More%3F");
    assert_eq!(percent_encode("100%"), "100%25");
    assert_eq!(percent_encode("é"), "%C3%A9");
}

#[test]
fn metadata_poke_hits_admin_cgi() {
    let admin = ShoutcastAdmin {
        host: "127.0.0.1".into(),
        port: 8000,
        tls: false,
        pass: "secret".into(),
        sid: 1,
    };
    let req = admin.request(false, "Artist - Title");
    assert!(
        req.contains("GET /admin.cgi?pass=secret&mode=updinfo&song=Artist%20-%20Title HTTP/1.0"),
        "{req}"
    );
    assert!(judge_admin_reply(b"HTTP/1.0 200 OK\r\nContent-Length: 0\r\n\r\n").is_ok());
    assert!(judge_admin_reply(b"HTTP/1.0 403 Forbidden\r\n\r\n").is_err());
}

#[test]
fn metadata_poke_v2_carries_sid() {
    let admin = ShoutcastAdmin {
        host: "127.0.0.1".into(),
        port: 8000,
        tls: false,
        pass: "secret:#3".into(),
        sid: 3,
    };
    let req = admin.request(true, "X");
    assert!(
        req.contains("GET /admin.cgi?sid=3&pass=secret%3A%233&mode=updinfo&song=X HTTP/1.0"),
        "{req}"
    );
}

#[test]
fn replies_are_read_byte_by_byte() {
    let mut line = Vec::new();
    for b in b"OK2\r" {
        assert!(matches!(line_byte(&mut line, *b), LineStep::More));
    }
    assert!(matches!(line_byte(&mut line, b'\n'), LineStep::Line(s) if s.trim_end() == "OK2"));
    let mut buf = Vec::new();
    assert!(matches!(block_part(&mut buf, b"OK2\r\n"), BlockStep::Grace(_)));
    assert_eq!(after_grace(&buf, b"icy-caps:11\r\n"), "OK2\r\nicy-caps:11\r\n");
    assert!(matches!(block_part(&mut buf, b"icy-caps:11\r\n\r\n"), BlockStep::Block(_)));
    let mut flood = vec![b'x'; MAX_HANDSHAKE];
    assert!(matches!(block_part(&mut flood, b"x"), BlockStep::Flood));
    let mut odd = Vec::new();
    match block_part(&mut odd, &[0xFF, b'\n', b'\n']) {
        BlockStep::Block(s) => assert_eq!(s, "\u{FFFD}\n\n"),
        _ => panic!("block ends"),
    }
    assert_eq!(sanitize_field("  ", "x"), "x");
    assert!(!sanitize_field("a\r\nb", "x").contains('\n'));
}

fn ok_response(meta_interval: u32) -> String {
    format!(
        "HTTP/1.0 200 OK\r\nServer: FakeIce/2.5\r\nice-metadata-interval: {meta_interval}\r\n\r\n"
    )
}

fn put_request(cfg: &StreamConfig) -> String {
    let headers = IcecastSource::request_headers(cfg);
    IcecastSource::request("127.0.0.1:8000", "PUT", &cfg.mount, &headers, true)
}

#[test]
fn handshake_put_ok_and_interval_parsed() {
    let cfg = StreamConfig {
        username: "source".into(),
        password: String::new(),
        ..Default::default()
    };
    let req = put_request(&cfg);
    assert!(req.starts_with("PUT /stream HTTP/1.1"), "{req}");
    assert!(req.contains("Authorization: Basic c291cmNlOg=="), "{req}");
    assert!(req.contains("Content-Type: audio/mpeg"));
    assert!(req.contains("Expect: 100-continue"));
    let put = IcecastSource::handshake(Ok(ok_response(8192)), 10, "/stream");
    let (src, proto) = IcecastSource::after_put(put).unwrap();
    assert_eq!(proto, HandshakeProtocol::Put);
    assert_eq!(src.meta_interval, 8192);
}

#[test]
fn handshake_split_100_continue_then_200() {
    let mut pending = b"HTTP/1.1 100 Continue\r\n\r\n".to_vec();
    let first = match next_header_block(&mut pending) {
        HeaderStep::Block(s) => s,
        _ => panic!("a whole block"),
    };
    assert!(pending.is_empty());
    let put = IcecastSource::handshake(Ok(first), 10, "/stream");
    let (_src, proto) = IcecastSource::after_put(put).unwrap();
    assert_eq!(proto, HandshakeProtocol::Put);
    pending.extend_from_slice(ok_response(0).as_bytes());
    match next_header_block(&mut pending) {
        HeaderStep::Block(s) => assert_eq!(IcecastSource::judge_reply(&s, "/stream").unwrap(), 0),
        _ => panic!("a whole block"),
    }
}

#[test]
fn handshake_lone_100_is_enough() {
    let put =
        IcecastSource::handshake(Ok("HTTP/1.1 100 Continue\r\n\r\n".to_string()), 10, "/stream");
    let (_src, proto) = IcecastSource::after_put(put).unwrap();
    assert_eq!(proto, HandshakeProtocol::Put);
}

#[test]
fn handshake_silence_proceeds_optimistically() {
    let put = IcecastSource::handshake(Err(hangup_error()), HANDSHAKE_GRACE_MS, "/stream");
    let (_src, proto) = IcecastSource::after_put(put).unwrap();
    assert_eq!(proto, HandshakeProtocol::Put);
    assert!(HANDSHAKE_GRACE_MS >= 4000);
}

#[test]
fn handshake_eof_is_rejection_not_optimism() {
    let put = IcecastSource::handshake(Err(hangup_error()), 10, "/stream");
    let put_err = IcecastSource::after_put(put).map(|_| ()).unwrap_err();
    let source = IcecastSource::handshake(Err(hangup_error()), 10, "/stream");
    let err = IcecastSource::after_source(&put_err, source).map(|_| ()).unwrap_err();
    assert!(err.message().contains("SOURCE"), "{}", err.message());
}

#[test]
fn handshake_source_fallback_carries_mount() {
    let cfg = StreamConfig::default();
    let put = IcecastSource::handshake(Err(hangup_error()), 10, "/stream");
    let put_err = IcecastSource::after_put(put).map(|_| ()).unwrap_err();
    let source = IcecastSource::handshake(Ok(ok_response(0)), 10, "/stream");
    let (_src, proto) = IcecastSource::after_source(&put_err, source).unwrap();
    assert_eq!(proto, HandshakeProtocol::Source);
    let headers = IcecastSource::request_headers(&cfg);
    let req = IcecastSource::request("127.0.0.1:8000", "SOURCE", &cfg.mount, &headers, false);
    assert!(req.starts_with("SOURCE /stream "), "{req}");
}

#[test]
fn handshake_rejects_401_with_message() {
    let reply = "HTTP/1.0 401 You need to authenticate\r\n\r\n".to_string();
    let put = IcecastSource::handshake(Ok(reply.clone()), 10, "/stream");
    let put_err = IcecastSource::after_put(put).map(|_| ()).unwrap_err();
    let source = IcecastSource::handshake(Ok(reply), 10, "/stream");
    let err = IcecastSource::after_source(&put_err, source).map(|_| ()).unwrap_err();
    let msg = err.message();
    assert!(msg.contains("401"), "{msg}");
    assert!(msg.contains("SOURCE"), "should mention both attempts: {msg}");
}

#[test]
fn metadata_block_is_length_prefixed() {
    let payload = "StreamTitle='Artist - Title';";
    let padded = payload.len().div_ceil(16) * 16;
    assert_eq!(padded % 16, 0);
    assert_eq!((padded / 16) as u8, payload.len().div_ceil(16) as u8);
    let block = metadata_block(payload);
    assert_eq!(block.len(), padded + 1);
    assert_eq!(block[0], (padded / 16) as u8);
    assert_eq!(&block[1..1 + payload.len()], payload.as_bytes());
    assert!(block[1 + payload.len()..].iter().all(|b| *b == 0));
}

#[test]
fn auth_is_base64_of_user_pass() {
    assert_eq!(basic_auth("source", "hackme"), "c291cmNlOmhhY2ttZQ==");
    assert_eq!(basic_auth("source", ""), "c291cmNlOg==");
    assert_eq!(basic_auth("a", "b"), "YTpi");
    assert_eq!(basic_auth("a", "é?~"), "YTrDqT9+");
}

#[test]
fn metadata_comes_after_every_interval() {
    let (mut src, _) = IcecastSource::after_put(Ok(4)).unwrap();
    assert_eq!(src.send(&[1, 2, 3]), vec![1, 2, 3]);
    assert_eq!(src.send(&[4, 5, 6]), vec![4, 0, 5, 6]);
    assert_eq!(src.send(&[7, 8, 9]), vec![7, 8, 0, 9]);
    let mut plain = IcecastSource::finish(0);
    assert_eq!(plain.send(&[1; 100]), vec![1; 100]);
    let block = src.set_metadata("A'B");
    assert_eq!((block[0], block.len()), (2, 33));
    assert!(block[1..].starts_with(b"StreamTitle='A'B';"));
}

#[test]
fn missing_mounts_are_explained() {
    let e = IcecastSource::judge_reply("HTTP/1.0 404 Not Found\r\n\r\n", "/x").unwrap_err();
    assert!(e.message().contains("'/x'"));
    let mut flood = vec![b'x'; MAX_HEADER_BYTES + 1];
    assert!(matches!(next_header_block(&mut flood), HeaderStep::Flood));
    assert!(!flood_error().message().is_empty());
    assert_eq!(judge_write("Icecast", WriteEvent::Wrote(9)).unwrap(), 9);
    assert!(judge_write("Icecast", WriteEvent::Wrote(0)).is_err());
    assert!(judge_write("Icecast", WriteEvent::Stalled).unwrap_err().message().contains("Icecast"));
    assert!(judge_write("Icecast", WriteEvent::Failed("x".to_string())).is_err());
}

#[test]
fn senders_give_up_after_some_retries() {
    let mut s = StreamSender::new();
    let mut waits = Vec::new();
    for _ in 0..MAX_RECONNECTS {
        match s.step(SenderEvent::ConnectFailed("refused".to_string())) {
            SenderAction::Wait(n) => waits.push(n),
            _ => panic!("waits"),
        }
        assert!(matches!(s.step(SenderEvent::Waited), SenderAction::Connect));
    }
    assert!(waits.windows(2).all(|w| w[0] <= w[1]), "{waits:?}");
    assert!(matches!(
        s.step(SenderEvent::ConnectFailed("refused".to_string())),
        SenderAction::Stop
    ));
    assert_eq!(retry_delay_secs(0), waits[0]);
}

#[test]
fn going_live_starts_the_count_anew() {
    let mut s = StreamSender::new();
    s.step(SenderEvent::ConnectFailed("x".to_string()));
    s.step(SenderEvent::Waited);
    assert_eq!(s.stats.reconnects, 1);
    assert!(matches!(s.step(SenderEvent::Connected), SenderAction::BuildEncoder));
    assert!(matches!(s.step(SenderEvent::Built), SenderAction::GoLive));
    assert_eq!(s.reconnects, 0);
    assert!(s.state.is_live());
    s.step(SenderEvent::Sent { bytes: 10, secs: 1 });
    assert_eq!((s.stats.bytes_sent, s.stats.stream_secs), (10, 1));
    assert!(matches!(s.step(SenderEvent::SendFailed("y".to_string())), SenderAction::Wait(_)));
    assert!(matches!(s.step(SenderEvent::Cancelled), SenderAction::Stop));
}

#[test]
fn titles_are_sent_once() {
    let mut s = StreamSender::new();
    assert_eq!(s.title_update("A - B").as_deref(), Some("A - B"));
    assert!(s.title_update("A - B").is_none());
    assert!(s.title_update("C").is_some());
}

#[test]
fn senders_keep_real_time() {
    assert_eq!(batch_frames(10), 5);
    assert_eq!(batch_frames(100_000), DRAIN_FRAMES);
    assert_eq!(air_time(480, 48_000), 10_000_000);
    assert_eq!(pace(100, 50, 120), (150, 30));
    assert_eq!(pace(100, 50, 1_000), (150, 0));
    assert_eq!(pace(100, 50, 1_000_000_000_000), (1_000_000_000_000, 0));
}

#[test]
fn bogus_library_path_fails_cleanly() {
    let err = open_check("definitely/not/here.dll", false, "nope.sts", false).unwrap_err();
    assert!(err.message().contains("not found"), "{}", err.message());
}

#[test]
fn missing_preset_fails_before_touching_audio() {
    let err = open_check("Cargo.toml", true, "definitely/missing.sts", false).unwrap_err();
    assert!(err.message().contains("preset not found"), "{}", err.message());
    assert!(open_check("lib.so", true, "p.sts", true).is_ok());
}

#[test]
fn config_defaults_are_inert() {
    let cfg = StereoToolConfig::default();
    assert!(!cfg.enabled);
    assert!(!cfg.wants_processing());
}

#[test]
fn processor_settings_are_trimmed() {
    let cfg = StereoToolConfig {
        enabled: true,
        lib_path: "  C:/st/lib.dll  ".into(),
        license_key: "k".into(),
        preset_path: " p.sts ".into(),
        bypass: true,
    }
    .sanitized();
    assert_eq!(cfg.lib_path, "C:/st/lib.dll");
    assert_eq!(cfg.preset_path, "p.sts");
    assert!(cfg.wants_processing());
}

#[test]
fn processors_take_whole_frames() {
    assert_eq!(process_frames(9, 2), Some(4));
    assert_eq!(process_frames(1, 2), None);
    assert_eq!(process_frames(8, 0), None);
    assert_eq!(license_check(false, true, None), (false, "verifying…".to_string()));
    assert_eq!(license_check(true, true, None), (true, String::new()));
    assert_eq!(
        license_check(true, false, Some(String::new())).1,
        "unlicensed features in use"
    );
    assert_eq!(license_check(true, false, Some("FM".to_string())).1, "FM");
}

#[test]
fn audio_errors_are_audio_errors() {
    assert!(matches!(hangup_error(), CrabError::Audio(_)));
}

#[test]
fn debug_redacts_password_but_keeps_other_fields() {
    let cfg = StreamConfig {
        password: "hunter2".into(),
        host: "cast.example.com".into(),
        ..Default::default()
    };
    let dbg = cfg.debug_text();
    assert!(!dbg.contains("hunter2"), "secret leaked: {dbg}");
    assert!(dbg.contains("<redacted>"));
    assert!(dbg.contains("cast.example.com"));
    assert_eq!(
        dbg,
        "StreamConfig { enabled: false, host: \"cast.example.com\", port: 8000, \
         mount: \"/stream\", username: \"source\", password: \"<redacted>\", tls: false, \
         name: \"CrabBoss FM\", genre: \"\", description: \"\", public: false, \
         bitrate_kbps: 128, format: Mp3 }"
    );
    let tricky = StreamConfig { name: "say \"hi\"".into(), ..cfg.clone() };
    assert!(tricky.debug_text().contains("name: \"say \\\"hi\\\"\""));
    assert!(tricky != cfg);
}

#[test]
fn debug_redacts_the_key() {
    let cfg = StereoToolConfig { license_key: "super-secret".into(), ..Default::default() };
    let dbg = cfg.debug_text();
    assert!(!dbg.contains("super-secret"), "key leaked: {dbg}");
    assert!(dbg.contains("<redacted>"));
    assert_eq!(
        dbg,
        "StereoToolConfig { enabled: false, lib_path: \"\", license_key: \"<redacted>\", \
         preset_path: \"\", bypass: false }"
    );
}

#[test]
fn codec_settings_come_in_order() {
    let cfg = StreamConfig { bitrate_kbps: 32, ..cfg() };
    let plan = HeAacPlan::new(&cfg, 44_100).unwrap();
    assert_eq!(
        plan.settings(),
        vec![
            CodecSetting::ObjectType(AOT_PS),
            CodecSetting::SampleRate(44_100),
            CodecSetting::Stereo,
            CodecSetting::Bitrate(32_000),
            CodecSetting::ConstantBitrate,
            CodecSetting::AdtsTransport,
            CodecSetting::Afterburner,
        ]
    );
    let names: Vec<_> = plan.settings().into_iter().map(|s| s.name()).collect();
    assert_eq!(names[0], "AOT");
    assert_eq!(names[6], "afterburner");
}
