//! Stream server and mount configuration, and the state that is shown.

use vstd::prelude::*;
use vstd::string::*;

use crate::text::{blank, chars_of, push_decimal, quote, trim, truth_word};
use crate::text;

verus! {

/// Encoder and container of the stream.
#[derive(Debug, Clone, Copy, PartialEq, Eq, Structural)]
pub enum StreamFormat {
    Mp3,
    Opus,
    /// HE-AAC in ADTS frames.
    HeAac,
}

impl Default for StreamFormat {
    fn default() -> (r: Self)
        ensures
            r == StreamFormat::Mp3,
    {
        StreamFormat::Mp3
    }
}

impl StreamFormat {
    /// The name of the variant.
    pub open spec fn variant(self) -> Seq<char> {
        match self {
            StreamFormat::Mp3 => "Mp3"@,
            StreamFormat::Opus => "Opus"@,
            StreamFormat::HeAac => "HeAac"@,
        }
    }

    /// The name of the variant.
    fn variant_name(self) -> (r: &'static str)
        ensures
            r@ == self.variant(),
    {
        match self {
            StreamFormat::Mp3 => "Mp3",
            StreamFormat::Opus => "Opus",
            StreamFormat::HeAac => "HeAac",
        }
    }

    /// MIME type sent to the server.
    pub open spec fn mime(self) -> Seq<char> {
        match self {
            StreamFormat::Mp3 => "audio/mpeg"@,
            StreamFormat::Opus => "audio/ogg; codecs=opus"@,
            StreamFormat::HeAac => "audio/aac"@,
        }
    }

    /// MIME type sent to the server.
    pub fn content_type(self) -> (r: &'static str)
        ensures
            r@ == self.mime(),
    {
        match self {
            StreamFormat::Mp3 => "audio/mpeg",
            StreamFormat::Opus => "audio/ogg; codecs=opus",
            StreamFormat::HeAac => "audio/aac",
        }
    }

    /// Short label.
    pub fn label(self) -> (r: &'static str)
        ensures
            r@ == (match self {
                StreamFormat::Mp3 => "MP3"@,
                StreamFormat::Opus => "Opus"@,
                StreamFormat::HeAac => "HE-AAC"@,
            }),
    {
        match self {
            StreamFormat::Mp3 => "MP3",
            StreamFormat::Opus => "Opus",
            StreamFormat::HeAac => "HE-AAC",
        }
    }
}

/// Source protocol of the server.
#[derive(Debug, Clone, Copy, PartialEq, Eq, Structural)]
pub enum StreamProtocol {
    Icecast,
    ShoutcastV1,
    ShoutcastV2,
}

impl Default for StreamProtocol {
    fn default() -> (r: Self)
        ensures
            r == StreamProtocol::Icecast,
    {
        StreamProtocol::Icecast
    }
}

impl StreamProtocol {
    /// Whether this is one of the Shoutcast protocols.
    pub fn is_shoutcast(self) -> (r: bool)
        ensures
            r == (self != StreamProtocol::Icecast),
    {
        match self {
            StreamProtocol::Icecast => false,
            StreamProtocol::ShoutcastV1 | StreamProtocol::ShoutcastV2 => true,
        }
    }
}

/// Stream server and mount configuration. Its debug form leaves the password
/// out.
#[derive(PartialEq, Eq)]
pub struct StreamConfig {
    /// Master switch.
    pub enabled: bool,
    pub host: String,
    pub port: u16,
    /// Mount path, normalized to start with `/`.
    pub mount: String,
    /// Source user name.
    pub username: String,
    /// Source password.
    pub password: String,
    /// Wrap the connection in TLS.
    pub tls: bool,
    /// Name shown in directories and players.
    pub name: String,
    pub genre: String,
    pub description: String,
    /// Advertise in directories.
    pub public: bool,
    /// Constant bitrate in kbps.
    pub bitrate_kbps: u32,
    pub format: StreamFormat,
    pub protocol: StreamProtocol,
    /// Stream selected on a Shoutcast v2 server.
    pub sid: u32,
}

impl StreamConfig {
    /// How the configuration reads in logs, with the secret left out.
    pub open spec fn debug_form(self) -> Seq<char> {
        "StreamConfig { enabled: "@ + text::truth(self.enabled)
            + ", host: "@ + text::quoted(self.host@)
            + ", port: "@ + text::decimal(self.port as nat)
            + ", mount: "@ + text::quoted(self.mount@)
            + ", username: "@ + text::quoted(self.username@)
            + ", password: \"<redacted>\""@
            + ", tls: "@ + text::truth(self.tls)
            + ", name: "@ + text::quoted(self.name@)
            + ", genre: "@ + text::quoted(self.genre@)
            + ", description: "@ + text::quoted(self.description@)
            + ", public: "@ + text::truth(self.public)
            + ", bitrate_kbps: "@ + text::decimal(self.bitrate_kbps as nat)
            + ", format: "@ + self.format.variant()
            + " }"@
    }

    /// How the configuration reads in logs, with the secret left out.
    pub fn debug_text(&self) -> (s: String)
        ensures
            s@ == self.debug_form(),
    {
        let mut s = String::from_str("StreamConfig { enabled: ");
        s.append(truth_word(self.enabled));
        s.append(", host: ");
        s.append(quote(self.host.as_str()).as_str());
        s.append(", port: ");
        push_decimal(&mut s, self.port as u64);
        s.append(", mount: ");
        s.append(quote(self.mount.as_str()).as_str());
        s.append(", username: ");
        s.append(quote(self.username.as_str()).as_str());
        s.append(", password: \"<redacted>\"");
        s.append(", tls: ");
        s.append(truth_word(self.tls));
        s.append(", name: ");
        s.append(quote(self.name.as_str()).as_str());
        s.append(", genre: ");
        s.append(quote(self.genre.as_str()).as_str());
        s.append(", description: ");
        s.append(quote(self.description.as_str()).as_str());
        s.append(", public: ");
        s.append(truth_word(self.public));
        s.append(", bitrate_kbps: ");
        push_decimal(&mut s, self.bitrate_kbps as u64);
        s.append(", format: ");
        s.append(self.format.variant_name());
        s.append(" }");
        s
    }
}

/// Two configurations that differ in nothing but the password read the same in
/// logs.
pub proof fn logs_do_not_tell_the_password(a: StreamConfig, b: StreamConfig)
    requires
        a == (StreamConfig { password: a.password, ..b }),
    ensures
        a.debug_form() == b.debug_form(),
{
}

impl Clone for StreamConfig {
    fn clone(&self) -> (r: Self)
        ensures
            r == *self,
    {
        StreamConfig {
            enabled: self.enabled,
            host: self.host.clone(),
            port: self.port,
            mount: self.mount.clone(),
            username: self.username.clone(),
            password: self.password.clone(),
            tls: self.tls,
            name: self.name.clone(),
            genre: self.genre.clone(),
            description: self.description.clone(),
            public: self.public,
            bitrate_kbps: self.bitrate_kbps,
            format: self.format,
            protocol: self.protocol,
            sid: self.sid,
        }
    }
}

impl StreamConfig {
    /// The configuration of a first run.
    pub open spec fn is_default(self) -> bool {
        &&& !self.enabled
        &&& self.host@ == "127.0.0.1"@
        &&& self.port == 8000
        &&& self.mount@ == "/stream"@
        &&& self.username@ == "source"@
        &&& self.password@ == Seq::<char>::empty()
        &&& !self.tls
        &&& self.name@ == "CrabBoss FM"@
        &&& self.genre@ == Seq::<char>::empty()
        &&& self.description@ == Seq::<char>::empty()
        &&& !self.public
        &&& self.bitrate_kbps == 128
        &&& self.format == StreamFormat::Mp3
        &&& self.protocol == StreamProtocol::Icecast
        &&& self.sid == 1
    }
}

impl Default for StreamConfig {
    fn default() -> (r: Self)
        ensures
            r.is_default(),
    {
        StreamConfig {
            enabled: false,
            host: String::from_str("127.0.0.1"),
            port: 8000,
            mount: String::from_str("/stream"),
            username: String::from_str("source"),
            password: String::new(),
            tls: false,
            name: String::from_str("CrabBoss FM"),
            genre: String::new(),
            description: String::new(),
            public: false,
            bitrate_kbps: 128,
            format: StreamFormat::Mp3,
            protocol: StreamProtocol::Icecast,
            sid: 1,
        }
    }
}

/// A host as it is used: trimmed, the local one where blank.
pub open spec fn clean_host(s: Seq<char>) -> Seq<char> {
    if text::is_blank(s) {
        "127.0.0.1"@
    } else {
        text::trimmed(s)
    }
}

/// A mount as it is used: trimmed, with a slash in front, `/stream` where
/// blank.
pub open spec fn clean_mount(s: Seq<char>) -> Seq<char> {
    if text::is_blank(s) {
        "/stream"@
    } else if text::trimmed(s)[0] == '/' {
        text::trimmed(s)
    } else {
        seq!['/'] + text::trimmed(s)
    }
}

/// A user as it is used: `source` where blank.
pub open spec fn clean_user(s: Seq<char>) -> Seq<char> {
    if text::is_blank(s) {
        "source"@
    } else {
        s
    }
}

/// A bitrate as it is used: 128 where out of range.
pub open spec fn clean_bitrate(kbps: u32) -> u32 {
    if 1 <= kbps <= 320 {
        kbps
    } else {
        128
    }
}

/// The second configuration is the first in the form that is used.
pub open spec fn cleaned(a: StreamConfig, b: StreamConfig) -> bool {
    &&& b.host@ == clean_host(a.host@)
    &&& b.mount@ == clean_mount(a.mount@)
    &&& b.username@ == clean_user(a.username@)
    &&& b.bitrate_kbps == clean_bitrate(a.bitrate_kbps)
    &&& b == (StreamConfig {
        host: b.host,
        mount: b.mount,
        username: b.username,
        bitrate_kbps: b.bitrate_kbps,
        ..a
    })
}

impl StreamConfig {
    /// Normalize user input: trim, default the mount, validate ranges.
    pub fn sanitized(self) -> (r: Self)
        ensures
            cleaned(self, r),
    {
        let mut c = self;
        let h = trim(c.host.as_str());
        c.host = if h.as_str().is_empty() {
            String::from_str("127.0.0.1")
        } else {
            h
        };
        let m = trim(c.mount.as_str());
        let v = chars_of(m.as_str());
        c.mount = if v.len() == 0 {
            String::from_str("/stream")
        } else if v[0] == '/' {
            m
        } else {
            let mut s = String::from_str("/");
            s.append(m.as_str());
            proof {
                reveal_strlit("/");
                assert("/"@ =~= seq!['/']);
            }
            s
        };
        if blank(c.username.as_str()) {
            c.username = String::from_str("source");
        }
        if c.bitrate_kbps < 1 || c.bitrate_kbps > 320 {
            c.bitrate_kbps = 128;
        }
        c
    }
}

/// Normalizing settles: what was normalized once is not changed again. A
/// mount then starts with a slash and a host is not blank.
pub proof fn cleaning_settles(a: StreamConfig, b: StreamConfig, c: StreamConfig)
    requires
        cleaned(a, b),
        cleaned(b, c),
    ensures
        c.host@ == b.host@,
        c.mount@ == b.mount@,
        c.username@ == b.username@,
        c.bitrate_kbps == b.bitrate_kbps,
        b.mount@.len() > 0 && b.mount@[0] == '/',
        !text::is_blank(b.host@),
        !text::is_blank(b.username@),
        1 <= b.bitrate_kbps <= 320,
{
    reveal_strlit("127.0.0.1");
    reveal_strlit("/stream");
    reveal_strlit("source");
    text::trimming_settles(a.host@);
    text::trimming_settles(a.mount@);
    let h = "127.0.0.1"@;
    assert(crate::text::trim_start(h) == h && crate::text::trim_end(h) == h);
    let m = "/stream"@;
    assert(crate::text::trim_start(m) == m && crate::text::trim_end(m) == m);
    let u = "source"@;
    assert(crate::text::trim_start(u) == u && crate::text::trim_end(u) == u);
    let t = text::trimmed(a.mount@);
    if t.len() > 0 && t[0] != '/' {
        let s = seq!['/'] + t;
        assert(crate::text::trim_start(s) == s);
        assert(s.last() == t.last());
        assert(crate::text::trim_end(s) == s);
    }
}

/// Live state of the streaming pipeline.
#[derive(Debug, Clone, PartialEq, Eq)]
pub enum StreamState {
    /// Switched off.
    Off,
    /// Trying to connect or reconnect.
    Connecting,
    /// Connected and sending audio.
    Live,
    /// The last attempt failed.
    Error(String),
}

/// The one-line status of a state.
pub open spec fn state_text(s: StreamState) -> Seq<char> {
    match s {
        StreamState::Off => "⏸ Off"@,
        StreamState::Connecting => "⏳ Connecting…"@,
        StreamState::Live => "🔴 Live"@,
        StreamState::Error(e) => "⚠ "@ + e@,
    }
}

impl StreamState {
    /// Short one-line status.
    pub fn label(&self) -> (r: String)
        ensures
            r@ == state_text(*self),
    {
        match self {
            StreamState::Off => String::from_str("⏸ Off"),
            StreamState::Connecting => String::from_str("⏳ Connecting…"),
            StreamState::Live => String::from_str("🔴 Live"),
            StreamState::Error(e) => {
                let mut s = String::from_str("⚠ ");
                s.append(e.as_str());
                s
            },
        }
    }

    /// Whether audio is actually flowing.
    pub fn is_live(&self) -> (r: bool)
        ensures
            r == (*self is Live),
    {
        match self {
            StreamState::Live => true,
            _ => false,
        }
    }
}

/// Counters since the stream started running.
#[derive(Debug, Clone, Copy, PartialEq, Eq, Structural)]
pub struct StreamStats {
    /// Encoded bytes handed to the server.
    pub bytes_sent: u64,
    /// Seconds of audio sent since this connection started.
    pub stream_secs: u64,
    /// Reconnects after drops.
    pub reconnects: u32,
}

impl Default for StreamStats {
    fn default() -> (r: Self)
        ensures
            r == (StreamStats { bytes_sent: 0, stream_secs: 0, reconnects: 0 }),
    {
        StreamStats { bytes_sent: 0, stream_secs: 0, reconnects: 0 }
    }
}

/// A configuration is completed where it says nothing, and otherwise kept: the
/// host and the mount without blanks around them, the mount behind a slash, a
/// bit rate between one and three hundred and twenty.
pub proof fn configurations_are_completed(a: StreamConfig, b: StreamConfig)
    requires
        cleaned(a, b),
    ensures
        text::is_blank(a.host@) ==> b.host@ == "127.0.0.1"@,
        !text::is_blank(a.host@) ==> b.host@ == text::trimmed(a.host@),
        text::is_blank(a.mount@) ==> b.mount@ == "/stream"@,
        !text::is_blank(a.mount@) ==> b.mount@ == text::trimmed(a.mount@) || b.mount@ == seq!['/']
            + text::trimmed(a.mount@),
        !text::is_blank(a.mount@) && text::trimmed(a.mount@).len() > 0 && text::trimmed(a.mount@)[0]
            == '/' ==> b.mount@ == text::trimmed(a.mount@),
        b.mount@.len() > 0 && b.mount@[0] == '/',
        text::is_blank(a.username@) ==> b.username@ == "source"@,
        !text::is_blank(a.username@) ==> b.username@ == a.username@,
        a.bitrate_kbps == 0 || a.bitrate_kbps > 320 ==> b.bitrate_kbps == 128,
        1 <= a.bitrate_kbps <= 320 ==> b.bitrate_kbps == a.bitrate_kbps,
        b.password@ == a.password@,
        b.port == a.port,
        b.tls == a.tls,
        b.name@ == a.name@,
        b.genre@ == a.genre@,
        b.description@ == a.description@,
        b.public == a.public,
        b.enabled == a.enabled,
        b.format == a.format,
        b.protocol == a.protocol,
        b.sid == a.sid,
{
    reveal_strlit("/stream");
}

/// Every format is announced by its own type.
pub proof fn formats_have_their_types(a: StreamFormat, b: StreamFormat)
    ensures
        a.mime() == b.mime() ==> a == b,
        a.variant() == b.variant() ==> a == b,
        text::begins(a.mime(), "audio/"@),
{
    reveal_strlit("audio/mpeg");
    reveal_strlit("audio/ogg; codecs=opus");
    reveal_strlit("audio/aac");
    reveal_strlit("audio/");
    reveal_strlit("Mp3");
    reveal_strlit("Opus");
    reveal_strlit("HeAac");
    assert("audio/mpeg"@.len() == 10 && "audio/ogg; codecs=opus"@.len() == 22 && "audio/aac"@.len() == 9);
    assert("Mp3"@.len() == 3 && "Opus"@.len() == 4 && "HeAac"@.len() == 5);
    assert("audio/mpeg"@.subrange(0, 6) =~= "audio/"@);
    assert("audio/ogg; codecs=opus"@.subrange(0, 6) =~= "audio/"@);
    assert("audio/aac"@.subrange(0, 6) =~= "audio/"@);
}

} // verus!
