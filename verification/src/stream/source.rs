//! Icecast source protocol: what is sent to a server, how its replies are
//! judged, and how audio and metadata share one connection.

use base64::Engine;
use vstd::prelude::*;
use vstd::string::*;

use crate::error::CrabError;
use crate::stream::config::{StreamConfig, StreamFormat};
use crate::text::{contains_text, cut, lossy_text, one_line, parse_up_to, push_decimal, same_folded, split, starts_text, trim};
use crate::error;
use crate::text;

verus! {

/// Seconds to wait for the server while connecting.
pub const HANDSHAKE_TIMEOUT_SECS: u64 = 20;

/// Milliseconds to wait for a handshake reply once connected. After that
/// much silence the stream starts anyway.
pub const HANDSHAKE_GRACE_MS: u64 = 5000;

/// Seconds after which a stalled send is given up.
pub const SEND_TIMEOUT_SECS: u64 = 15;

/// Most bytes of a reply that are read without finding its end.
pub const MAX_HEADER_BYTES: usize = 65536;

/// Which protocol variant the server accepted.
#[derive(Debug, Clone, Copy, PartialEq, Eq, Structural)]
pub enum HandshakeProtocol {
    Put,
    Source,
}

/// The character for a six-bit value.
pub open spec fn sextet(v: int) -> char {
    if v < 26 {
        ((65 + v) as u8) as char
    } else if v < 52 {
        ((71 + v) as u8) as char
    } else if v < 62 {
        ((v - 4) as u8) as char
    } else if v == 62 {
        '+'
    } else {
        '/'
    }
}

/// Bytes in base 64 with the standard alphabet, padded.
pub open spec fn base64(b: Seq<u8>) -> Seq<char>
    decreases b.len(),
{
    if b.len() == 0 {
        Seq::empty()
    } else if b.len() == 1 {
        seq![sextet(b[0] as int / 4), sextet(b[0] as int % 4 * 16), '=', '=']
    } else if b.len() == 2 {
        seq![
            sextet(b[0] as int / 4),
            sextet(b[0] as int % 4 * 16 + b[1] as int / 16),
            sextet(b[1] as int % 16 * 4),
            '=',
        ]
    } else {
        seq![
            sextet(b[0] as int / 4),
            sextet(b[0] as int % 4 * 16 + b[1] as int / 16),
            sextet(b[1] as int % 16 * 4 + b[2] as int / 64),
            sextet(b[2] as int % 64),
        ] + base64(b.skip(3))
    }
}

/// `base64::Engine::encode` on the engine `STANDARD`: the bytes in base 64
/// with the standard alphabet and padding.
#[verifier::external_body]
pub(crate) fn encode_base64(b: &[u8]) -> (r: String)
    ensures
        r@ == base64(b@),
{
    base64::engine::general_purpose::STANDARD.encode(b)
}

/// The credential of a user, as the basic scheme sends it.
pub open spec fn credential(user: Seq<char>, pass: Seq<char>) -> Seq<char> {
    base64(vstd::utf8::encode_utf8(user + ":"@ + pass))
}

/// The credential of a user, as the basic scheme sends it.
pub fn basic_auth(user: &str, pass: &str) -> (r: String)
    ensures
        r@ == credential(user@, pass@),
{
    let mut s = String::from_str(user);
    s.append(":");
    s.append(pass);
    encode_base64(s.as_str().as_bytes())
}

/// The header lines of a source request for a configuration.
pub open spec fn header_lines(c: StreamConfig) -> Seq<char> {
    "Authorization: Basic "@ + credential(c.username@, c.password@)
        + "\r\nUser-Agent: CrabBoss/0.1\r\nContent-Type: "@ + c.format.mime() + "\r\nIce-Public: "@ + (
    if c.public {
        "1"@
    } else {
        "0"@
    }) + "\r\nIce-Name: "@ + text::on_one_line(c.name@) + "\r\nIce-Genre: "@ + text::on_one_line(
        c.genre@,
    ) + "\r\nIce-Description: "@ + text::on_one_line(c.description@)
        + "\r\nIce-Audio-Info: samplerate=48000;channels=2;bitrate="@ + text::decimal(
        c.bitrate_kbps as nat,
    ) + "\r\n"@
}

/// The host of an address: what stands before its first colon.
pub open spec fn host_of(addr: Seq<char>) -> Seq<char> {
    match text::cut_at(addr, ':') {
        Some((h, _)) => h,
        None => addr,
    }
}

/// A whole source request.
pub open spec fn request_text(
    addr: Seq<char>,
    method: Seq<char>,
    mount: Seq<char>,
    headers: Seq<char>,
    expect_continue: bool,
) -> Seq<char> {
    method + " "@ + mount + " HTTP/1.1\r\nHost: "@ + host_of(addr) + "\r\n"@ + headers + (
    if expect_continue {
        "Expect: 100-continue\r\n"@
    } else {
        Seq::empty()
    }) + "Ice-Metadata: 1\r\n\r\n"@
}

/// The number in a metadata interval line, where the line is one.
pub open spec fn interval_line(line: Seq<char>) -> Option<nat> {
    match text::cut_at(line, ':') {
        Some((k, v)) => if text::fold(text::trimmed(k)) == text::fold("ice-metadata-interval"@) {
            text::parsed_up_to(text::trimmed(v), usize::MAX as nat)
        } else {
            None
        },
        None => None,
    }
}

/// The number in the first metadata interval line, zero where there is none.
pub open spec fn interval_in(lines: Seq<Seq<char>>) -> nat
    decreases lines.len(),
{
    if lines.len() == 0 {
        0
    } else {
        match interval_line(lines[0]) {
            Some(n) => n,
            None => interval_in(lines.drop_first()),
        }
    }
}

/// The metadata interval that a reply announces, zero where it announces none.
pub open spec fn announced_interval(response: Seq<char>) -> nat {
    interval_in(text::split_at(response, '\n'))
}

/// The status line of a reply.
pub open spec fn status_of(response: Seq<char>) -> Seq<char> {
    text::trimmed(text::split_at(response, '\n')[0])
}

/// The server asks for the body.
pub open spec fn is_go_ahead(status: Seq<char>) -> bool {
    text::begins(status, "HTTP/1.1 100"@) || text::begins(status, "HTTP/1.0 100"@)
}

/// The server accepts the source.
pub open spec fn is_accepted(status: Seq<char>) -> bool {
    text::begins(status, "HTTP/1.0 200"@) || text::begins(status, "HTTP/1.1 200"@)
}

/// Why a reply that accepts nothing was a refusal.
pub open spec fn refusal(status: Seq<char>, mount: Seq<char>) -> Seq<char> {
    if text::holds(status, "404"@) {
        "Icecast 404 for mount '"@ + mount
            + "': mountpoint not found — check the mount name and the server's mount configuration"@
    } else {
        "Icecast rejected: "@ + status
    }
}

/// Whether a handshake ended as a reply demands.
pub open spec fn judged(response: Seq<char>, mount: Seq<char>, r: Result<usize, CrabError>) -> bool {
    let status = status_of(response);
    match r {
        Ok(n) => (is_go_ahead(status) || is_accepted(status)) && n == announced_interval(response),
        Err(CrabError::Audio(m)) => !is_go_ahead(status) && !is_accepted(status) && m@ == refusal(
            status,
            mount,
        ),
        Err(_) => false,
    }
}

/// A blank line ends the header block at this place.
pub open spec fn ends_at(b: Seq<u8>, i: int) -> bool {
    0 <= i && i + 4 <= b.len() && b[i] == 13 && b[i + 1] == 10 && b[i + 2] == 13 && b[i + 3] == 10
}

/// The first blank line is at this place.
pub open spec fn first_end(b: Seq<u8>, i: int) -> bool {
    ends_at(b, i) && forall|j: int| 0 <= j < i ==> !#[trigger] ends_at(b, j)
}

/// No blank line yet.
pub open spec fn no_end(b: Seq<u8>) -> bool {
    forall|j: int| !#[trigger] ends_at(b, j)
}

/// Find the first blank line.
fn find_end(b: &[u8]) -> (r: Option<usize>)
    ensures
        match r {
            Some(i) => first_end(b@, i as int),
            None => no_end(b@),
        },
{
    let n: usize = b.len();
    let mut i: usize = 0;
    while i < n && n - i >= 4
        invariant
            i <= n,
            n == b@.len(),
            forall|j: int| 0 <= j < i ==> !#[trigger] ends_at(b@, j),
        decreases n - i,
    {
        if b[i] == 13 && b[i + 1] == 10 && b[i + 2] == 13 && b[i + 3] == 10 {
            assert(ends_at(b@, i as int));
            return Some(i);
        }
        i = i + 1;
    }
    None
}

/// What is to be done about the bytes of a reply read so far.
#[derive(Debug)]
pub enum HeaderStep {
    /// A whole header block.
    Block(String),
    /// Too much without an end.
    Flood,
    /// Read on.
    More,
}

/// Take the first header block, through its blank line, from the bytes read
/// so far; what follows stays for later.
pub fn next_header_block(pending: &mut Vec<u8>) -> (r: HeaderStep)
    ensures
        match r {
            HeaderStep::Block(s) => exists|i: int| #[trigger]
                first_end(old(pending)@, i) && s@ == text::lossy(old(pending)@.subrange(0, i + 4))
                    && final(pending)@ == old(pending)@.skip(i + 4),
            HeaderStep::Flood => no_end(old(pending)@) && old(pending)@.len() > 65536
                && old(pending)@.len() > MAX_HEADER_BYTES
                && final(pending)@ == old(pending)@,
            HeaderStep::More => no_end(old(pending)@) && old(pending)@.len() <= 65536
                && old(pending)@.len() <= MAX_HEADER_BYTES
                && final(pending)@ == old(pending)@,
        },
{
    let size: usize = pending.len();
    match find_end(pending.as_slice()) {
        Some(i) => {
            assert(i + 4 <= size);
            let rest = pending.split_off(i + 4);
            let s = lossy_text(pending.as_slice());
            *pending = rest;
            assert(first_end(old(pending)@, i as int));
            assert(rest@ =~= old(pending)@.skip(i + 4));
            HeaderStep::Block(s)
        },
        None => if pending.len() > MAX_HEADER_BYTES {
            HeaderStep::Flood
        } else {
            HeaderStep::More
        },
    }
}

/// The error for a reply without an end.
pub fn flood_error() -> (e: CrabError)
    ensures
        e matches CrabError::Audio(m) && m@ == "Icecast handshake header flood"@,
{
    CrabError::Audio(String::from_str("Icecast handshake header flood"))
}

/// The error for a server that hangs up without a reply.
pub fn hangup_error() -> (e: CrabError)
    ensures
        e matches CrabError::Audio(m) && m@
            == "Icecast closed the connection during handshake (server may not support this method)"@,
{
    CrabError::Audio(
        String::from_str(
            "Icecast closed the connection during handshake (server may not support this method)",
        ),
    )
}

/// What one write to the connection came to.
#[derive(Debug)]
pub enum WriteEvent {
    /// So many bytes were taken.
    Wrote(usize),
    /// The send timed out.
    Stalled,
    /// It failed, with the reason.
    Failed(String),
}

/// How many bytes are done after a write, or why sending has to stop. The
/// service names the protocol.
pub fn judge_write(service: &str, e: WriteEvent) -> (r: Result<usize, CrabError>)
    ensures
        match r {
            Ok(n) => e == WriteEvent::Wrote(n) && n > 0,
            Err(CrabError::Audio(m)) => match e {
                WriteEvent::Wrote(n) => n == 0 && m@ == service@ + " write made no progress"@,
                WriteEvent::Stalled => m@ == service@ + " send stalled (>"@ + text::decimal(
                    SEND_TIMEOUT_SECS as nat,
                ) + "s)"@,
                WriteEvent::Failed(why) => m@ == service@ + " send: "@ + why@,
            },
            Err(_) => false,
        },
{
    let mut s = String::from_str(service);
    match e {
        WriteEvent::Wrote(n) => if n == 0 {
            s.append(" write made no progress");
            Err(CrabError::Audio(s))
        } else {
            Ok(n)
        },
        WriteEvent::Stalled => {
            s.append(" send stalled (>");
            push_decimal(&mut s, SEND_TIMEOUT_SECS);
            s.append("s)");
            Err(CrabError::Audio(s))
        },
        WriteEvent::Failed(why) => {
            s.append(" send: ");
            s.append(why.as_str());
            Err(CrabError::Audio(s))
        },
    }
}

/// The words of a metadata block with a title.
pub open spec fn title_payload(title: Seq<char>) -> Seq<char> {
    "StreamTitle='"@ + text::on_one_line(title) + "';"@
}

/// Blocks of sixteen bytes that hold so many bytes.
pub open spec fn blocks_for(len: nat) -> nat {
    (len + 15) / 16
}

/// A metadata block: the number of sixteen-byte blocks in one byte, the words,
/// and zeros up to the end of the last block.
pub open spec fn metadata_bytes(words: Seq<char>) -> Seq<u8> {
    let b = vstd::utf8::encode_utf8(words);
    let n = blocks_for(b.len());
    seq![(n % 256) as u8] + b + Seq::new((16 * n - b.len()) as nat, |i: int| 0u8)
}

/// Frame the words of a metadata block.
pub fn metadata_block(words: &str) -> (r: Vec<u8>)
    requires
        vstd::utf8::encode_utf8(words@).len() + 16 <= usize::MAX,
    ensures
        r@ == metadata_bytes(words@),
{
    let b = words.as_bytes();
    let n: usize = (b.len() + 15) / 16;
    assert(n as u8 as int == n as int % 256) by {
        assert((n as u8) as usize == n % 256) by (bit_vector);
    }
    let mut r: Vec<u8> = Vec::new();
    r.push(n as u8);
    r.extend_from_slice(b);
    let ghost head = r@;
    let want: usize = n * 16 - b.len();
    let mut i: usize = 0;
    while i < want
        invariant
            i <= want,
            r@ == head + Seq::new(i as nat, |k: int| 0u8),
        decreases want - i,
    {
        r.push(0);
        i = i + 1;
        assert(r@ =~= head + Seq::new(i as nat, |k: int| 0u8));
    }
    assert(r@ =~= metadata_bytes(words@));
    r
}

/// An accepted source connection, as far as the protocol remembers it.
#[derive(Debug, Clone, Copy, PartialEq, Eq, Structural)]
pub struct IcecastSource {
    /// Bytes of audio between metadata blocks; zero for none.
    pub meta_interval: usize,
    /// Bytes of audio up to the next metadata block.
    pub bytes_until_meta: usize,
}

/// What goes over the wire for some audio: an empty metadata block after every
/// interval.
pub open spec fn wire(audio: Seq<u8>, until: int, interval: int) -> Seq<u8>
    decreases audio.len(),
{
    if interval <= 0 || until <= 0 || audio.len() < until {
        audio
    } else {
        audio.take(until) + seq![0u8] + wire(audio.skip(until), interval, interval)
    }
}

/// Bytes of audio up to the next metadata block after so many were sent.
pub open spec fn left_after(len: int, until: int, interval: int) -> int
    decreases len,
{
    if interval <= 0 || until <= 0 || len < until {
        until - len
    } else {
        left_after(len - until, interval, interval)
    }
}

/// What a listener hears: the audio between the metadata blocks.
pub open spec fn heard(bytes: Seq<u8>, until: int, interval: int) -> Seq<u8>
    decreases bytes.len(),
{
    if interval <= 0 || until <= 0 || bytes.len() <= until {
        bytes
    } else {
        let size = 1 + 16 * bytes[until] as int;
        bytes.take(until) + (if until + size > bytes.len() {
            Seq::empty()
        } else {
            heard(bytes.skip(until + size), interval, interval)
        })
    }
}

impl IcecastSource {
    /// The next metadata block is due within the interval.
    pub open spec fn wf(self) -> bool {
        self.meta_interval > 0 ==> 1 <= self.bytes_until_meta <= self.meta_interval
    }

    /// A connection that was just accepted.
    pub fn finish(meta_interval: usize) -> (s: Self)
        ensures
            s.wf(),
            s.meta_interval == meta_interval,
            s.bytes_until_meta == meta_interval,
    {
        IcecastSource { meta_interval, bytes_until_meta: meta_interval }
    }

    /// The header lines of a source request.
    pub fn request_headers(config: &StreamConfig) -> (r: String)
        ensures
            r@ == header_lines(*config),
    {
        let mut s = String::from_str("Authorization: Basic ");
        let auth = basic_auth(config.username.as_str(), config.password.as_str());
        s.append(auth.as_str());
        s.append("\r\nUser-Agent: CrabBoss/0.1\r\nContent-Type: ");
        s.append(config.format.content_type());
        s.append("\r\nIce-Public: ");
        if config.public {
            s.append("1");
        } else {
            s.append("0");
        }
        s.append("\r\nIce-Name: ");
        let name = one_line(config.name.as_str());
        s.append(name.as_str());
        s.append("\r\nIce-Genre: ");
        let genre = one_line(config.genre.as_str());
        s.append(genre.as_str());
        s.append("\r\nIce-Description: ");
        let description = one_line(config.description.as_str());
        s.append(description.as_str());
        s.append("\r\nIce-Audio-Info: samplerate=48000;channels=2;bitrate=");
        push_decimal(&mut s, config.bitrate_kbps as u64);
        s.append("\r\n");
        s
    }

    /// The request that opens a source connection. The mount travels in the
    /// request line.
    pub fn request(
        addr: &str,
        method: &str,
        mount: &str,
        headers: &str,
        expect_continue: bool,
    ) -> (r: String)
        ensures
            r@ == request_text(addr@, method@, mount@, headers@, expect_continue),
    {
        let mut s = String::from_str(method);
        s.append(" ");
        s.append(mount);
        s.append(" HTTP/1.1\r\nHost: ");
        match cut(addr, ':') {
            Some((h, _)) => s.append(h.as_str()),
            None => s.append(addr),
        }
        s.append("\r\n");
        s.append(headers);
        if expect_continue {
            s.append("Expect: 100-continue\r\n");
        } else {
            s.append("");
            proof {
                reveal_strlit("");
                assert(""@ =~= Seq::empty());
            }
        }
        s.append("Ice-Metadata: 1\r\n\r\n");
        s
    }

    /// The metadata interval that a reply announces, zero where it announces
    /// none.
    pub fn meta_interval(response: &str) -> (r: usize)
        ensures
            r == announced_interval(response@),
    {
        let lines = split(response, '\n');
        let ghost all = text::texts(lines@);
        let mut i: usize = 0;
        assert(all.skip(0) =~= all);
        while i < lines.len()
            invariant
                i <= lines.len(),
                all == text::texts(lines@),
                all == text::split_at(response@, '\n'),
                interval_in(all) == interval_in(all.skip(i as int)),
            decreases lines.len() - i,
        {
            assert(all.skip(i as int)[0] == lines@[i as int]@);
            assert(all.skip(i as int).drop_first() =~= all.skip(i + 1));
            if let Some((k, v)) = cut(lines[i].as_str(), ':') {
                let key = trim(k.as_str());
                if same_folded(key.as_str(), "ice-metadata-interval") {
                    let value = trim(v.as_str());
                    if let Some(n) = parse_up_to(value.as_str(), usize::MAX as u64) {
                        assert(usize::MAX as u64 as nat == usize::MAX as nat);
                        assert(interval_line(all.skip(i as int)[0]) == Some(n as nat));
                        return n as usize;
                    }
                }
            }
            i = i + 1;
        }
        assert(all.skip(i as int) =~= Seq::empty());
        0
    }

    /// Judge a reply: the announced interval where the server wants the
    /// stream, otherwise why it does not.
    pub fn judge_reply(response: &str, mount: &str) -> (r: Result<usize, CrabError>)
        ensures
            judged(response@, mount@, r),
    {
        let lines = split(response, '\n');
        proof {
            text::splitting_keeps_the_text(response@, '\n');
            assert(text::texts(lines@)[0] == lines@[0]@);
        }
        let status = trim(lines[0].as_str());
        if starts_text(status.as_str(), "HTTP/1.1 100") || starts_text(
            status.as_str(),
            "HTTP/1.0 100",
        ) {
            return Ok(Self::meta_interval(response));
        }
        if !starts_text(status.as_str(), "HTTP/1.0 200") && !starts_text(
            status.as_str(),
            "HTTP/1.1 200",
        ) {
            if contains_text(status.as_str(), "404") {
                let mut s = String::from_str("Icecast 404 for mount '");
                s.append(mount);
                s.append(
                    "': mountpoint not found — check the mount name and the server's mount configuration",
                );
                return Err(CrabError::Audio(s));
            }
            let mut s = String::from_str("Icecast rejected: ");
            s.append(status.as_str());
            return Err(CrabError::Audio(s));
        }
        Ok(Self::meta_interval(response))
    }

    /// Settle a handshake by what was read after so many milliseconds of
    /// waiting. Silence for the whole grace time counts as consent.
    pub fn handshake(
        reply: Result<String, CrabError>,
        waited_ms: u64,
        mount: &str,
    ) -> (r: Result<usize, CrabError>)
        ensures
            match reply {
                Ok(response) => judged(response@, mount@, r),
                Err(e) => r == (if waited_ms >= HANDSHAKE_GRACE_MS {
                    Ok(0usize)
                } else {
                    Err(e)
                }),
            },
    {
        match reply {
            Ok(response) => Self::judge_reply(response.as_str(), mount),
            Err(e) => if waited_ms >= HANDSHAKE_GRACE_MS {
                Ok(0)
            } else {
                Err(e)
            },
        }
    }

    /// After the first attempt: the connection, or the reason to try the old
    /// method on a new connection.
    pub fn after_put(put: Result<usize, CrabError>) -> (r: Result<
        (Self, HandshakeProtocol),
        CrabError,
    >)
        ensures
            match put {
                Ok(n) => r matches Ok((s, p)) && s.wf() && s.meta_interval == n
                    && s.bytes_until_meta == n && p == HandshakeProtocol::Put,
                Err(e) => r == Err::<(Self, HandshakeProtocol), CrabError>(e),
            },
    {
        match put {
            Ok(n) => Ok((Self::finish(n), HandshakeProtocol::Put)),
            Err(e) => Err(e),
        }
    }

    /// After the second attempt: the connection, or an error that tells of
    /// both.
    pub fn after_source(put_err: &CrabError, source: Result<usize, CrabError>) -> (r: Result<
        (Self, HandshakeProtocol),
        CrabError,
    >)
        ensures
            match source {
                Ok(n) => r matches Ok((s, p)) && s.wf() && s.meta_interval == n
                    && s.bytes_until_meta == n && p == HandshakeProtocol::Source,
                Err(e) => r matches Err(CrabError::Audio(m)) && m@
                    == "Icecast handshake failed — PUT: "@ + error::error_text(*put_err)
                    + "; SOURCE: "@ + error::error_text(e),
            },
    {
        match source {
            Ok(n) => Ok((Self::finish(n), HandshakeProtocol::Source)),
            Err(e) => {
                let mut s = String::from_str("Icecast handshake failed — PUT: ");
                let a = put_err.message();
                s.append(a.as_str());
                s.append("; SOURCE: ");
                let b = e.message();
                s.append(b.as_str());
                Err(CrabError::Audio(s))
            },
        }
    }

    /// The bytes to send for some audio: the audio with an empty metadata
    /// block after every interval.
    pub fn send(&mut self, audio: &[u8]) -> (out: Vec<u8>)
        requires
            old(self).wf(),
        ensures
            final(self).wf(),
            final(self).meta_interval == old(self).meta_interval,
            out@ == wire(
                audio@,
                old(self).bytes_until_meta as int,
                old(self).meta_interval as int,
            ),
            old(self).meta_interval == 0 ==> final(self).bytes_until_meta == old(self).bytes_until_meta,
            old(self).meta_interval > 0 ==> final(self).bytes_until_meta == left_after(
                audio@.len() as int,
                old(self).bytes_until_meta as int,
                old(self).meta_interval as int,
            ),
    {
        let mut out: Vec<u8> = Vec::new();
        if self.meta_interval == 0 {
            out.extend_from_slice(audio);
            return out;
        }
        let mut sent: usize = 0;
        let ghost until = self.bytes_until_meta as int;
        let ghost interval = self.meta_interval as int;
        assert(audio@.skip(0) =~= audio@);
        assert(out@ + wire(audio@.skip(0), until, interval) =~= wire(audio@, until, interval));
        while audio.len() - sent >= self.bytes_until_meta
            invariant
                sent <= audio@.len(),
                self.wf(),
                self.meta_interval == interval,
                interval > 0,
                out@ + wire(audio@.skip(sent as int), self.bytes_until_meta as int, interval) == wire(
                    audio@,
                    until,
                    interval,
                ),
                left_after(audio@.len() - sent, self.bytes_until_meta as int, interval) == left_after(
                    audio@.len() as int,
                    until,
                    interval,
                ),
            decreases audio@.len() - sent,
        {
            let take: usize = self.bytes_until_meta;
            let ghost rest = audio@.skip(sent as int);
            let ghost before = out@;
            out.extend_from_slice(vstd::slice::slice_subrange(audio, sent, sent + take));
            out.push(0);
            assert(audio@.subrange(sent as int, sent + take) =~= rest.take(take as int));
            assert(rest.skip(take as int) =~= audio@.skip(sent + take));
            assert(out@ + wire(audio@.skip(sent + take), interval, interval) =~= before + wire(
                rest,
                take as int,
                interval,
            ));
            sent = sent + take;
            self.bytes_until_meta = self.meta_interval;
        }
        out.extend_from_slice(vstd::slice::slice_subrange(audio, sent, audio.len()));
        assert(audio@.subrange(sent as int, audio@.len() as int) =~= audio@.skip(sent as int));
        self.bytes_until_meta = self.bytes_until_meta - (audio.len() - sent);
        out
    }

    /// The bytes that push a title to the listeners; none where the server
    /// wants no metadata.
    pub fn set_metadata(&self, title: &str) -> (r: Vec<u8>)
        requires
            vstd::utf8::encode_utf8(title_payload(title@)).len() + 16 <= usize::MAX,
        ensures
            r@ == (if self.meta_interval == 0 {
                Seq::empty()
            } else {
                metadata_bytes(title_payload(title@))
            }),
    {
        if self.meta_interval == 0 {
            return Vec::new();
        }
        let mut s = String::from_str("StreamTitle='");
        let safe = one_line(title);
        s.append(safe.as_str());
        s.append("';");
        metadata_block(s.as_str())
    }
}

/// A listener hears exactly the audio that was sent, whatever the interval.
pub proof fn listeners_hear_the_audio(audio: Seq<u8>, until: int, interval: int)
    requires
        1 <= until <= interval,
    ensures
        heard(wire(audio, until, interval), until, interval) == audio,
    decreases audio.len(),
{
    let w = wire(audio, until, interval);
    if audio.len() >= until {
        let rest = wire(audio.skip(until), interval, interval);
        listeners_hear_the_audio(audio.skip(until), interval, interval);
        assert(w[until] == 0);
        assert(w.take(until) =~= audio.take(until));
        assert(w.skip(until + 1) =~= rest);
        assert(w.len() == until + 1 + rest.len());
        assert(audio.take(until) + audio.skip(until) =~= audio);
    }
}

/// Sending audio in two pieces puts the same bytes on the wire as sending it
/// at once.
pub proof fn pieces_join_on_the_wire(a: Seq<u8>, b: Seq<u8>, until: int, interval: int)
    requires
        1 <= until <= interval,
    ensures
        wire(a, until, interval) + wire(b, left_after(a.len() as int, until, interval), interval)
            == wire(a + b, until, interval),
        1 <= left_after(a.len() as int, until, interval) <= interval,
        left_after(b.len() as int, left_after(a.len() as int, until, interval), interval) == left_after(
            (a + b).len() as int,
            until,
            interval,
        ),
    decreases a.len(),
{
    if a.len() >= until {
        pieces_join_on_the_wire(a.skip(until), b, interval, interval);
        assert((a + b).take(until) =~= a.take(until));
        assert((a + b).skip(until) =~= a.skip(until) + b);
        assert(wire(a, until, interval) + wire(
            b,
            left_after(a.len() as int, until, interval),
            interval,
        ) =~= wire(a + b, until, interval));
    } else {
        let left = until - a.len();
        if b.len() >= left {
            assert((a + b).take(until) =~= a + b.take(left));
            assert((a + b).skip(until) =~= b.skip(left));
            assert(a + (b.take(left) + seq![0u8] + wire(b.skip(left), interval, interval)) =~= (a
                + b).take(until) + seq![0u8] + wire(b.skip(left), interval, interval));
        }
    }
}

/// A metadata block is as long as its first byte says, as long as the words
/// fit into what one byte can count.
pub proof fn metadata_is_length_prefixed(words: Seq<char>)
    requires
        vstd::utf8::encode_utf8(words).len() <= 4080,
    ensures
        metadata_bytes(words).len() == 1 + 16 * metadata_bytes(words)[0] as int,
        metadata_bytes(words).skip(1).take(vstd::utf8::encode_utf8(words).len() as int) == vstd::utf8::encode_utf8(
            words,
        ),
{
    assert(metadata_bytes(words).skip(1).take(vstd::utf8::encode_utf8(words).len() as int)
        =~= vstd::utf8::encode_utf8(words));
}

/// The value of a header line: what stands behind the colon and its blank, up
/// to the carriage return.
pub open spec fn line_value(rest: Seq<char>) -> Seq<char> {
    rest.subrange(1, rest.len() - 1)
}

/// The value that the first line with a key gives it; lines end at line feeds,
/// and the key stands before the first colon.
pub open spec fn value_in(lines: Seq<Seq<char>>, key: Seq<char>) -> Option<Seq<char>>
    decreases lines.len(),
{
    if lines.len() == 0 {
        None
    } else {
        match text::cut_at(lines[0], ':') {
            Some((k, rest)) => if k == key {
                Some(line_value(rest))
            } else {
                value_in(lines.skip(1), key)
            },
            None => value_in(lines.skip(1), key),
        }
    }
}

/// The value of a key in a block of header lines.
pub open spec fn value_of(block: Seq<char>, key: Seq<char>) -> Option<Seq<char>> {
    value_in(text::split_at(block, '\n'), key)
}

/// A header line without its line feed.
spec fn line_of(key: Seq<char>, value: Seq<char>) -> Seq<char> {
    key + seq![':', ' '] + value + seq!['\r']
}

proof fn lemma_line(key: Seq<char>, value: Seq<char>)
    requires
        !key.contains(':') && !key.contains('\n') && !value.contains('\n'),
    ensures
        !line_of(key, value).contains('\n'),
        text::cut_at(line_of(key, value), ':') == Some((key, seq![' '] + value + seq!['\r'])),
        line_value(seq![' '] + value + seq!['\r']) == value,
{
    let l = line_of(key, value);
    if l.contains('\n') {
        let k = choose|k: int| 0 <= k < l.len() && l[k] == '\n';
        if k < key.len() {
            assert(key[k] == '\n');
        } else if k >= key.len() + 2 && k < l.len() - 1 {
            assert(value[k - key.len() - 2] == '\n');
        }
    }
    assert forall|j: int| 0 <= j < key.len() implies l[j] != ':' by {
        assert(key.contains(key[j]));
    }
    text::cutting_at_the_first(l, ':', key.len() as int);
    assert(l.subrange(0, key.len() as int) =~= key);
    assert(l.skip(key.len() as int + 1) =~= seq![' '] + value + seq!['\r']);
    assert(line_value(seq![' '] + value + seq!['\r']) =~= value);
}

/// Lines with these keys and values, and nothing behind the last.
spec fn block_lines(keys: Seq<Seq<char>>, values: Seq<Seq<char>>) -> Seq<Seq<char>> {
    Seq::new(keys.len(), |i: int| line_of(keys[i], values[i])).push(Seq::empty())
}

proof fn lemma_block(keys: Seq<Seq<char>>, values: Seq<Seq<char>>)
    requires
        keys.len() == values.len(),
        forall|i: int|
            0 <= i < keys.len() ==> !(#[trigger] keys[i]).contains(':') && !keys[i].contains('\n')
                && !values[i].contains('\n'),
    ensures
        text::split_at(text::join(block_lines(keys, values), seq!['\n']), '\n') == block_lines(
            keys,
            values,
        ),
{
    let l = block_lines(keys, values);
    assert forall|i: int| 0 <= i < l.len() implies !(#[trigger] l[i]).contains('\n') by {
        if i < keys.len() {
            lemma_line(keys[i], values[i]);
        }
    }
    text::joining_keeps_the_pieces(l, '\n');
}

proof fn lemma_value_in(keys: Seq<Seq<char>>, values: Seq<Seq<char>>, n: int, i: int)
    requires
        keys.len() == values.len(),
        forall|k: int|
            0 <= k < keys.len() ==> !(#[trigger] keys[k]).contains(':') && !keys[k].contains('\n')
                && !values[k].contains('\n'),
        0 <= n <= i < keys.len(),
        forall|k: int| 0 <= k < i ==> #[trigger] keys[k] != keys[i],
    ensures
        value_in(block_lines(keys, values).skip(n), keys[i]) == Some(values[i]),
    decreases i - n,
{
    let l = block_lines(keys, values);
    let s = l.skip(n);
    assert(s[0] == line_of(keys[n], values[n]));
    lemma_line(keys[n], values[n]);
    if n < i {
        assert(keys[n] != keys[i]);
        assert(s.skip(1) =~= l.skip(n + 1));
        lemma_value_in(keys, values, n + 1, i);
    }
}

proof fn lemma_base64_line(b: Seq<u8>)
    ensures
        !base64(b).contains('\n'),
    decreases b.len(),
{
    let s = base64(b);
    assert forall|v: int| 0 <= v < 64 implies #[trigger] sextet(v) != '\n' by {}
    if b.len() >= 3 {
        lemma_base64_line(b.skip(3));
    }
    if s.contains('\n') {
        let k = choose|k: int| 0 <= k < s.len() && s[k] == '\n';
        if b.len() >= 3 && k >= 4 {
            assert(base64(b.skip(3))[k - 4] == '\n');
        }
    }
}

proof fn lemma_no_feed(s: Seq<char>)
    ensures
        !text::on_one_line(s).contains('\n'),
        !text::on_one_line(s).contains('\r'),
{
}

/// The keys of a source request, in their order.
spec fn header_keys() -> Seq<Seq<char>> {
    seq![
        "Authorization"@,
        "User-Agent"@,
        "Content-Type"@,
        "Ice-Public"@,
        "Ice-Name"@,
        "Ice-Genre"@,
        "Ice-Description"@,
        "Ice-Audio-Info"@,
    ]
}

/// What a server reads from the header lines of a source request: the switch of
/// the directories as one or zero, the station's texts on one line each, the
/// type of the format, the bitrate, and the credential.
pub proof fn headers_tell_the_configuration(c: StreamConfig)
    ensures
        c.public ==> value_of(header_lines(c), "Ice-Public"@) == Some(seq!['1']),
        !c.public ==> value_of(header_lines(c), "Ice-Public"@) == Some(seq!['0']),
        value_of(header_lines(c), "Ice-Name"@) == Some(
            c.name@.map_values(|x: char| if x == '\r' || x == '\n' { ' ' } else { x }),
        ),
        value_of(header_lines(c), "Ice-Genre"@) == Some(
            c.genre@.map_values(|x: char| if x == '\r' || x == '\n' { ' ' } else { x }),
        ),
        value_of(header_lines(c), "Ice-Description"@) == Some(
            c.description@.map_values(|x: char| if x == '\r' || x == '\n' { ' ' } else { x }),
        ),
        c.format == StreamFormat::Mp3 ==> value_of(header_lines(c), "Content-Type"@) == Some(
            "audio/mpeg"@,
        ),
        c.format == StreamFormat::Opus ==> value_of(header_lines(c), "Content-Type"@) == Some(
            "audio/ogg; codecs=opus"@,
        ),
        c.format == StreamFormat::HeAac ==> value_of(header_lines(c), "Content-Type"@) == Some(
            "audio/aac"@,
        ),
        value_of(header_lines(c), "Authorization"@) == Some(
            "Basic "@ + base64(vstd::utf8::encode_utf8(c.username@ + seq![':'] + c.password@)),
        ),
        value_of(header_lines(c), "Ice-Audio-Info"@) == Some(
            "samplerate=48000;channels=2;bitrate="@ + text::decimal(c.bitrate_kbps as nat),
        ),
{
    reveal_strlit("Authorization: Basic ");
    reveal_strlit("Authorization");
    reveal_strlit("Basic ");
    reveal_strlit("\r\nUser-Agent: CrabBoss/0.1\r\nContent-Type: ");
    reveal_strlit("User-Agent");
    reveal_strlit("CrabBoss/0.1");
    reveal_strlit("Content-Type");
    reveal_strlit("\r\nIce-Public: ");
    reveal_strlit("Ice-Public");
    reveal_strlit("\r\nIce-Name: ");
    reveal_strlit("Ice-Name");
    reveal_strlit("\r\nIce-Genre: ");
    reveal_strlit("Ice-Genre");
    reveal_strlit("\r\nIce-Description: ");
    reveal_strlit("Ice-Description");
    reveal_strlit("\r\nIce-Audio-Info: samplerate=48000;channels=2;bitrate=");
    reveal_strlit("Ice-Audio-Info");
    reveal_strlit("samplerate=48000;channels=2;bitrate=");
    reveal_strlit("\r\n");
    reveal_strlit("1");
    reveal_strlit("0");
    reveal_strlit(":");
    reveal_strlit("audio/mpeg");
    reveal_strlit("audio/ogg; codecs=opus");
    reveal_strlit("audio/aac");
    let bits = text::decimal(c.bitrate_kbps as nat);
    let auth = credential(c.username@, c.password@);
    let public = if c.public {
        "1"@
    } else {
        "0"@
    };
    let keys = header_keys();
    let values = seq![
        "Basic "@ + auth,
        "CrabBoss/0.1"@,
        c.format.mime(),
        public,
        text::on_one_line(c.name@),
        text::on_one_line(c.genre@),
        text::on_one_line(c.description@),
        "samplerate=48000;channels=2;bitrate="@ + bits,
    ];
    text::decimal_reads_back(c.bitrate_kbps as nat);
    lemma_base64_line(vstd::utf8::encode_utf8(c.username@ + ":"@ + c.password@));
    lemma_no_feed(c.name@);
    lemma_no_feed(c.genre@);
    lemma_no_feed(c.description@);
    assert(!bits.contains('\n')) by {
        if bits.contains('\n') {
            let k = choose|k: int| 0 <= k < bits.len() && bits[k] == '\n';
            assert(text::is_digit(bits[k]));
        }
    }
    assert(!values[0].contains('\n')) by {
        if values[0].contains('\n') {
            let k = choose|k: int| 0 <= k < values[0].len() && values[0][k] == '\n';
            if k >= 6 {
                assert(auth[k - 6] == '\n');
            }
        }
    }
    assert(!values[7].contains('\n')) by {
        if values[7].contains('\n') {
            let n = "samplerate=48000;channels=2;bitrate="@.len() as int;
            let k = choose|k: int| 0 <= k < values[7].len() && values[7][k] == '\n';
            if k >= n {
                assert(bits[k - n] == '\n');
            }
        }
    }
    assert(!c.format.mime().contains('\n'));
    assert(!keys[0].contains(':') && !keys[0].contains('\n'));
    assert(!keys[1].contains(':') && !keys[1].contains('\n'));
    assert(!keys[2].contains(':') && !keys[2].contains('\n'));
    assert(!keys[3].contains(':') && !keys[3].contains('\n'));
    assert(!keys[4].contains(':') && !keys[4].contains('\n'));
    assert(!keys[5].contains(':') && !keys[5].contains('\n'));
    assert(!keys[6].contains(':') && !keys[6].contains('\n'));
    assert(!keys[7].contains(':') && !keys[7].contains('\n'));
    assert forall|i: int| 0 <= i < keys.len() implies !(#[trigger] keys[i]).contains(':')
        && !keys[i].contains('\n') && !values[i].contains('\n') by {
        assert(i == 0 || i == 1 || i == 2 || i == 3 || i == 4 || i == 5 || i == 6 || i == 7);
    }
    lemma_block(keys, values);
    lemma_header_text(c, values);
    let l = block_lines(keys, values);
    assert(l.skip(0) =~= l);
    assert("Ice-Public"@[4] != "Ice-Name"@[4]);
    assert(keys[0].len() != keys[3].len());
    assert(keys[4][4] != keys[3][4] && keys[5][4] != keys[3][4] && keys[5][4] != keys[4][4]);
    assert(keys[6][4] != keys[3][4] && keys[6][4] != keys[4][4] && keys[6][4] != keys[5][4]);
    assert(keys[7][4] != keys[3][4] && keys[7][4] != keys[4][4] && keys[7][4] != keys[5][4]
        && keys[7][4] != keys[6][4]);
    assert(keys[0][0] == 'A' && keys[1][0] == 'U' && keys[2][0] == 'C');
    assert(keys[3][0] == 'I' && keys[4][0] == 'I' && keys[5][0] == 'I' && keys[6][0] == 'I'
        && keys[7][0] == 'I');
    assert forall|i: int, k: int| 0 <= k < i < 8 implies #[trigger] keys[k] != #[trigger] keys[i] by {
        assert(i == 1 || i == 2 || i == 3 || i == 4 || i == 5 || i == 6 || i == 7);
        assert(k == 0 || k == 1 || k == 2 || k == 3 || k == 4 || k == 5 || k == 6);
    }
    lemma_value_in(keys, values, 0, 0);
    lemma_value_in(keys, values, 0, 2);
    lemma_value_in(keys, values, 0, 3);
    lemma_value_in(keys, values, 0, 4);
    lemma_value_in(keys, values, 0, 5);
    lemma_value_in(keys, values, 0, 6);
    lemma_value_in(keys, values, 0, 7);
    assert("1"@ =~= seq!['1']);
    assert("0"@ =~= seq!['0']);
    assert(":"@ =~= seq![':']);
}

proof fn lemma_join_step(parts: Seq<Seq<char>>, n: int)
    requires
        1 <= n < parts.len(),
    ensures
        text::join(parts.take(n + 1), seq!['\n']) == text::join(parts.take(n), seq!['\n']) + seq!['\n']
            + parts[n],
{
    assert(parts.take(n + 1).drop_last() =~= parts.take(n));
}

#[verifier::rlimit(60)]
proof fn lemma_header_text(c: StreamConfig, values: Seq<Seq<char>>)
    requires
        values == seq![
            "Basic "@ + credential(c.username@, c.password@),
            "CrabBoss/0.1"@,
            c.format.mime(),
            if c.public {
                "1"@
            } else {
                "0"@
            },
            text::on_one_line(c.name@),
            text::on_one_line(c.genre@),
            text::on_one_line(c.description@),
            "samplerate=48000;channels=2;bitrate="@ + text::decimal(c.bitrate_kbps as nat),
        ],
    ensures
        header_lines(c) == text::join(block_lines(header_keys(), values), seq!['\n']),
{
    let l = block_lines(header_keys(), values);
    let feed = seq!['\n'];
    let k = header_keys();
    let a = "Authorization: Basic "@ + credential(c.username@, c.password@);
    assert(l.take(1) =~= seq![l[0]]);
    assert(text::join(l.take(1), feed) == l[0]);
    lemma_join_step(l, 1);
    lemma_join_step(l, 2);
    lemma_join_step(l, 3);
    lemma_join_step(l, 4);
    lemma_join_step(l, 5);
    lemma_join_step(l, 6);
    lemma_join_step(l, 7);
    lemma_join_step(l, 8);
    assert(l.take(9) =~= l);
    assert(l[0] == a + seq!['\r']) by {
        reveal_strlit("Authorization: Basic ");
        reveal_strlit("Authorization");
        reveal_strlit("Basic ");
        assert(l[0] =~= a + seq!['\r']);
    }
    let ua = lead(k[1]);
    let ct = lead(k[2]);
    lemma_next_line(a, k[1], values[1]);
    lemma_next_line(a + ua + values[1], k[2], values[2]);
    let both = "\r\nUser-Agent: CrabBoss/0.1\r\nContent-Type: "@;
    assert(both == ua + values[1] + ct) by {
        reveal_strlit("\r\nUser-Agent: CrabBoss/0.1\r\nContent-Type: ");
        reveal_strlit("User-Agent");
        reveal_strlit("CrabBoss/0.1");
        reveal_strlit("Content-Type");
        assert(both =~= ua + values[1] + ct);
    }
    let b = a + both + values[2];
    lemma_regroup(a, ua, values[1], ct, values[2]);
    assert(lead(k[3]) == "\r\nIce-Public: "@) by {
        reveal_strlit("\r\nIce-Public: ");
        reveal_strlit("Ice-Public");
        assert(lead(k[3]) =~= "\r\nIce-Public: "@);
    }
    let d = b + "\r\nIce-Public: "@ + values[3];
    lemma_next_line(b, k[3], values[3]);
    assert(lead(k[4]) == "\r\nIce-Name: "@) by {
        reveal_strlit("\r\nIce-Name: ");
        reveal_strlit("Ice-Name");
        assert(lead(k[4]) =~= "\r\nIce-Name: "@);
    }
    let e = d + "\r\nIce-Name: "@ + values[4];
    lemma_next_line(d, k[4], values[4]);
    assert(lead(k[5]) == "\r\nIce-Genre: "@) by {
        reveal_strlit("\r\nIce-Genre: ");
        reveal_strlit("Ice-Genre");
        assert(lead(k[5]) =~= "\r\nIce-Genre: "@);
    }
    let f = e + "\r\nIce-Genre: "@ + values[5];
    lemma_next_line(e, k[5], values[5]);
    assert(lead(k[6]) == "\r\nIce-Description: "@) by {
        reveal_strlit("\r\nIce-Description: ");
        reveal_strlit("Ice-Description");
        assert(lead(k[6]) =~= "\r\nIce-Description: "@);
    }
    let g = f + "\r\nIce-Description: "@ + values[6];
    lemma_next_line(f, k[6], values[6]);
    let info = "\r\nIce-Audio-Info: samplerate=48000;channels=2;bitrate="@;
    let head = "samplerate=48000;channels=2;bitrate="@;
    assert(info == lead(k[7]) + head) by {
        reveal_strlit("\r\nIce-Audio-Info: samplerate=48000;channels=2;bitrate=");
        reveal_strlit("Ice-Audio-Info");
        reveal_strlit("samplerate=48000;channels=2;bitrate=");
        assert(info =~= lead(k[7]) + head);
    }
    let bits = text::decimal(c.bitrate_kbps as nat);
    let h = g + info + bits;
    lemma_next_line(g, k[7], values[7]);
    lemma_flat_group(g, lead(k[7]), head, bits);
    lemma_last_line(h);
}

proof fn lemma_regroup(a: Seq<char>, b: Seq<char>, c: Seq<char>, d: Seq<char>, e: Seq<char>)
    ensures
        a + b + c + d + e == a + (b + c + d) + e,
{
    assert(a + b + c + d + e =~= a + (b + c + d) + e);
}

proof fn lemma_flat_group(a: Seq<char>, b: Seq<char>, c: Seq<char>, d: Seq<char>)
    ensures
        a + b + (c + d) == a + (b + c) + d,
{
    assert(a + b + (c + d) =~= a + (b + c) + d);
}

proof fn lemma_last_line(h: Seq<char>)
    ensures
        h + seq!['\r'] + seq!['\n'] + Seq::<char>::empty() == h + "\r\n"@,
{
    reveal_strlit("\r\n");
    assert(h + seq!['\r'] + seq!['\n'] + Seq::<char>::empty() =~= h + "\r\n"@);
}

/// The end of a line, and the key of the next.
spec fn lead(key: Seq<char>) -> Seq<char> {
    seq!['\r', '\n'] + key + seq![':', ' ']
}

proof fn lemma_next_line(t: Seq<char>, key: Seq<char>, value: Seq<char>)
    ensures
        t + seq!['\r'] + seq!['\n'] + line_of(key, value) == t + lead(key) + value + seq!['\r'],
{
    assert(t + seq!['\r'] + seq!['\n'] + line_of(key, value) =~= t + lead(key) + value + seq!['\r']);
}

/// The number that a letter of a credential stands for.
pub open spec fn sextet_value(c: char) -> int {
    if 'A' <= c <= 'Z' {
        c as int - 65
    } else if 'a' <= c <= 'z' {
        c as int - 71
    } else if '0' <= c <= '9' {
        c as int + 4
    } else if c == '+' {
        62
    } else {
        63
    }
}

/// The bytes that a credential stands for, four letters at a time.
pub open spec fn unbase64(s: Seq<char>) -> Seq<u8>
    decreases s.len(),
{
    if s.len() < 4 {
        Seq::empty()
    } else {
        let first = (sextet_value(s[0]) * 4 + sextet_value(s[1]) / 16) as u8;
        let second = (sextet_value(s[1]) % 16 * 16 + sextet_value(s[2]) / 4) as u8;
        let third = (sextet_value(s[2]) % 4 * 64 + sextet_value(s[3])) as u8;
        if s[2] == '=' {
            seq![first]
        } else if s[3] == '=' {
            seq![first, second]
        } else {
            seq![first, second, third] + unbase64(s.skip(4))
        }
    }
}

proof fn lemma_sextet(v: int)
    requires
        0 <= v < 64,
    ensures
        sextet_value(sextet(v)) == v,
        sextet(v) != '=',
{
}

/// A credential reads back as the bytes that it was made of.
pub proof fn credentials_read_back(b: Seq<u8>)
    ensures
        unbase64(base64(b)) == b,
        base64(b).len() % 4 == 0,
    decreases b.len(),
{
    let s = base64(b);
    if b.len() == 1 {
        lemma_sextet(b[0] as int / 4);
        lemma_sextet(b[0] as int % 4 * 16);
        assert(unbase64(s) =~= b);
    } else if b.len() == 2 {
        lemma_sextet(b[0] as int / 4);
        lemma_sextet(b[0] as int % 4 * 16 + b[1] as int / 16);
        lemma_sextet(b[1] as int % 16 * 4);
        assert(unbase64(s) =~= b);
    } else if b.len() > 2 {
        lemma_sextet(b[0] as int / 4);
        lemma_sextet(b[0] as int % 4 * 16 + b[1] as int / 16);
        lemma_sextet(b[1] as int % 16 * 4 + b[2] as int / 64);
        lemma_sextet(b[2] as int % 64);
        credentials_read_back(b.skip(3));
        assert(s.skip(4) =~= base64(b.skip(3)));
        assert(unbase64(s) =~= seq![b[0], b[1], b[2]] + b.skip(3));
        assert(seq![b[0], b[1], b[2]] + b.skip(3) =~= b);
    } else {
        assert(b =~= Seq::empty());
    }
}

/// A request opens with its method and its mount, names the host without its
/// port on the next line, and goes on with the headers; it waits for a go-ahead
/// exactly where it should, and an empty line ends it.
pub proof fn requests_are_written_line_by_line(
    host: Seq<char>,
    port: Seq<char>,
    method: Seq<char>,
    mount: Seq<char>,
    headers: Seq<char>,
    expect: bool,
)
    requires
        !host.contains(':'),
        !host.contains('\n'),
        !method.contains('\n'),
        !mount.contains('\n'),
    ensures
        host_of(host + seq![':'] + port) == host,
        ({
            let r = request_text(host + seq![':'] + port, method, mount, headers, expect);
            let first = method + seq![' '] + mount + seq![
                ' ',
                'H',
                'T',
                'T',
                'P',
                '/',
                '1',
                '.',
                '1',
                '\r',
            ];
            let second = seq!['H', 'o', 's', 't', ':', ' '] + host + seq!['\r'];
            let rest = headers + (if expect {
                "Expect: 100-continue\r\n"@
            } else {
                Seq::empty()
            }) + "Ice-Metadata: 1\r\n\r\n"@;
            &&& text::cut_at(r, '\n') == Some((first, second + seq!['\n'] + rest))
            &&& text::cut_at(second + seq!['\n'] + rest, '\n') == Some((second, rest))
        }),
{
    reveal_strlit(" ");
    reveal_strlit(" HTTP/1.1\r\nHost: ");
    reveal_strlit("\r\n");
    let addr = host + seq![':'] + port;
    assert(addr[host.len() as int] == ':');
    assert forall|j: int| 0 <= j < host.len() implies addr[j] != ':' by {
        assert(addr[j] == host[j]);
        assert(host.contains(host[j]));
    }
    text::cutting_at_the_first(addr, ':', host.len() as int);
    assert(addr.subrange(0, host.len() as int) =~= host);
    let tail = if expect {
        "Expect: 100-continue\r\n"@
    } else {
        Seq::empty()
    };
    let rest = headers + tail + "Ice-Metadata: 1\r\n\r\n"@;
    let first = method + seq![' '] + mount + seq![' ', 'H', 'T', 'T', 'P', '/', '1', '.', '1', '\r'];
    let second = seq!['H', 'o', 's', 't', ':', ' '] + host + seq!['\r'];
    let below = second + seq!['\n'] + rest;
    let r = request_text(addr, method, mount, headers, expect);
    assert(" HTTP/1.1\r\nHost: "@ =~= seq![' ', 'H', 'T', 'T', 'P', '/', '1', '.', '1', '\r'] + seq!['\n']
        + seq!['H', 'o', 's', 't', ':', ' ']);
    assert("\r\n"@ =~= seq!['\r'] + seq!['\n']);
    assert(" "@ =~= seq![' ']);
    assert(r =~= first + seq!['\n'] + below);
    lemma_cut_line(first, below);
    lemma_cut_line(second, rest);
}

proof fn lemma_cut_line(line: Seq<char>, rest: Seq<char>)
    requires
        forall|i: int| 0 <= i < line.len() ==> #[trigger] line[i] != '\n',
    ensures
        text::cut_at(line + seq!['\n'] + rest, '\n') == Some((line, rest)),
{
    let s = line + seq!['\n'] + rest;
    assert(s[line.len() as int] == '\n');
    assert forall|j: int| 0 <= j < line.len() implies s[j] != '\n' by {
        assert(s[j] == line[j]);
    }
    text::cutting_at_the_first(s, '\n', line.len() as int);
    assert(s.subrange(0, line.len() as int) =~= line);
    assert(s.skip(line.len() as int + 1) =~= rest);
}

/// The interval is the one on the first line that announces one, and none where
/// no line does. A line announces it by name, in any case, behind a colon.
pub proof fn intervals_are_announced_by_name(
    lines: Seq<Seq<char>>,
    i: int,
    key: Seq<char>,
    value: Seq<char>,
    n: nat,
)
    requires
        0 <= i <= lines.len(),
        forall|j: int| 0 <= j < i ==> interval_line(#[trigger] lines[j]) is None,
        !key.contains(':'),
        n <= usize::MAX,
        text::trimmed(value) == text::decimal(n),
    ensures
        i == lines.len() ==> interval_in(lines) == 0,
        i < lines.len() && interval_line(lines[i]) == Some(n) ==> interval_in(lines) == n,
        text::fold(text::trimmed(key)) == "ice-metadata-interval"@ ==> interval_line(
            key + seq![':'] + value,
        ) == Some(n),
        text::fold(text::trimmed(key)) != "ice-metadata-interval"@ ==> interval_line(
            key + seq![':'] + value,
        ) is None,
    decreases i,
{
    if i > 0 {
        let rest = lines.drop_first();
        assert(interval_line(lines[0]) is None);
        assert forall|j: int| 0 <= j < i - 1 implies interval_line(#[trigger] rest[j]) is None by {
            assert(rest[j] == lines[j + 1]);
        }
        intervals_are_announced_by_name(rest, i - 1, key, value, n);
        if i < lines.len() {
            assert(rest[i - 1] == lines[i]);
        }
    }
    reveal_strlit("ice-metadata-interval");
    assert(text::fold("ice-metadata-interval"@) =~= "ice-metadata-interval"@);
    let line = key + seq![':'] + value;
    assert forall|j: int| 0 <= j < key.len() implies line[j] != ':' by {
        assert(line[j] == key[j]);
        assert(key.contains(key[j]));
    }
    text::cutting_at_the_first(line, ':', key.len() as int);
    assert(line.subrange(0, key.len() as int) =~= key);
    assert(line.skip(key.len() as int + 1) =~= value);
    text::decimal_reads_back(n);
}

/// A server accepts a source with the status two hundred, or lets it go ahead
/// with one hundred, in either version of the protocol; every other answer is a
/// refusal. One that says that nothing was found names the mount.
pub proof fn answers_are_told_by_status(response: Seq<char>, mount: Seq<char>, r: Result<usize, CrabError>)
    requires
        judged(response, mount, r),
    ensures
        ({
            let s = status_of(response);
            let spoken = s.len() >= 12 && s.subrange(0, 7) == seq!['H', 'T', 'T', 'P', '/', '1', '.'] && (
            s[7] == '0' || s[7] == '1') && s[8] == ' ' && (s[9] == '1' || s[9] == '2') && s[10] == '0' && s[11]
                == '0';
            &&& r is Ok <==> spoken
            &&& r is Ok ==> r->Ok_0 == announced_interval(response)
            &&& !spoken ==> r is Err
            &&& !spoken && text::holds(s, "404"@) ==> (r matches Err(CrabError::Audio(m))
                && text::holds(m@, mount))
            &&& !spoken && !text::holds(s, "404"@) ==> (r matches Err(CrabError::Audio(m))
                && text::ends(m@, s))
        }),
{
    reveal_strlit("HTTP/1.1 100");
    reveal_strlit("HTTP/1.0 100");
    reveal_strlit("HTTP/1.1 200");
    reveal_strlit("HTTP/1.0 200");
    let s = status_of(response);
    if s.len() >= 12 {
        lemma_twelve(s, "HTTP/1.1 100"@);
        lemma_twelve(s, "HTTP/1.0 100"@);
        lemma_twelve(s, "HTTP/1.1 200"@);
        lemma_twelve(s, "HTTP/1.0 200"@);
        let h = seq!['H', 'T', 'T', 'P', '/', '1', '.'];
        assert(s.subrange(0, 7) == h <==> s[0] == 'H' && s[1] == 'T' && s[2] == 'T' && s[3] == 'P' && s[4]
            == '/' && s[5] == '1' && s[6] == '.') by {
            if s.subrange(0, 7) == h {
                assert(s.subrange(0, 7)[0] == s[0] && s.subrange(0, 7)[1] == s[1] && s.subrange(0, 7)[2]
                    == s[2] && s.subrange(0, 7)[3] == s[3] && s.subrange(0, 7)[4] == s[4] && s.subrange(
                    0,
                    7,
                )[5] == s[5] && s.subrange(0, 7)[6] == s[6]);
            }
            if s[0] == 'H' && s[1] == 'T' && s[2] == 'T' && s[3] == 'P' && s[4] == '/' && s[5] == '1' && s[6]
                == '.' {
                assert(s.subrange(0, 7) =~= h);
            }
        }
    }
    match r {
        Err(CrabError::Audio(m)) => {
            if text::holds(s, "404"@) {
                let a = "Icecast 404 for mount '"@;
                assert(m@.subrange(a.len() as int, (a.len() + mount.len()) as int) =~= mount);
                assert(text::occurs_at(m@, mount, a.len() as int));
            } else {
                assert(m@.skip(m@.len() - s.len()) =~= s);
            }
        },
        _ => {},
    }
}

proof fn lemma_twelve(s: Seq<char>, h: Seq<char>)
    requires
        s.len() >= 12,
        h.len() == 12,
    ensures
        text::begins(s, h) <==> s[0] == h[0] && s[1] == h[1] && s[2] == h[2] && s[3] == h[3] && s[4]
            == h[4] && s[5] == h[5] && s[6] == h[6] && s[7] == h[7] && s[8] == h[8] && s[9] == h[9] && s[10]
            == h[10] && s[11] == h[11],
{
    let t = s.subrange(0, 12);
    if t == h {
        assert(t[0] == s[0] && t[1] == s[1] && t[2] == s[2] && t[3] == s[3] && t[4] == s[4] && t[5] == s[5]
            && t[6] == s[6] && t[7] == s[7] && t[8] == s[8] && t[9] == s[9] && t[10] == s[10] && t[11]
            == s[11]);
    }
    if s[0] == h[0] && s[1] == h[1] && s[2] == h[2] && s[3] == h[3] && s[4] == h[4] && s[5] == h[5] && s[6]
        == h[6] && s[7] == h[7] && s[8] == h[8] && s[9] == h[9] && s[10] == h[10] && s[11] == h[11] {
        assert(t =~= h);
    }
}

/// A title is announced between quotes, on one line and otherwise as it is.
pub proof fn titles_are_announced_in_quotes(title: Seq<char>)
    ensures
        title_payload(title).len() == title.len() + 15,
        text::begins(title_payload(title), "StreamTitle='"@),
        text::ends(title_payload(title), "';"@),
        title_payload(title).subrange(13, (13 + title.len()) as int) == text::on_one_line(title),
{
    reveal_strlit("StreamTitle='");
    reveal_strlit("';");
    let p = title_payload(title);
    assert(p.subrange(0, 13) =~= "StreamTitle='"@);
    assert(p.skip(p.len() - 2) =~= "';"@);
    assert(p.subrange(13, (13 + title.len()) as int) =~= text::on_one_line(title));
}

} // verus!
