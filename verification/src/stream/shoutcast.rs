//! Shoutcast source protocol: login, station headers and title updates.

use vstd::prelude::*;
use vstd::string::*;

use crate::error::CrabError;
use crate::stream::config::{StreamConfig, StreamFormat, StreamProtocol};
use crate::text::{chars_of, contains_text, ends_text, first_line, lossy_text, one_line, push_decimal, text_of, trim, trim_tail};
use crate::stream::config;
use crate::text;

verus! {

/// Seconds a title update may take.
pub const META_TIMEOUT_SECS: u64 = 8;

/// Milliseconds to wait for what may follow a bare reply.
pub const CAPS_GRACE_MS: u64 = 500;

/// Most bytes of a handshake reply.
pub const MAX_HANDSHAKE: usize = 65536;

/// Most bytes that are read of the answer to a title update.
pub const MAX_ADMIN_REPLY: usize = 16384;

/// The password as it is sent: on version 2, streams past the first are
/// selected in it.
pub open spec fn password_text(password: Seq<char>, sid: u32, v2: bool) -> Seq<char> {
    if v2 && sid > 1 {
        password + ":#"@ + text::decimal(sid as nat)
    } else {
        password
    }
}

/// The password as it is sent: on version 2, streams past the first are
/// selected in it.
pub fn login_password(password: &str, sid: u32, v2: bool) -> (r: String)
    ensures
        r@ == password_text(password@, sid, v2),
{
    let mut s = String::from_str(password);
    if v2 && sid > 1 {
        s.append(":#");
        push_decimal(&mut s, sid as u64);
    }
    s
}

/// A field as a header carries it: on one line, trimmed, with a fallback where
/// nothing is left.
pub open spec fn field_text(value: Seq<char>, fallback: Seq<char>) -> Seq<char> {
    let clean = text::trimmed(text::on_one_line(value));
    if clean.len() == 0 {
        fallback
    } else {
        clean
    }
}

/// A field as a header carries it: on one line, trimmed, with a fallback where
/// nothing is left.
pub fn sanitize_field(value: &str, fallback: &str) -> (r: String)
    ensures
        r@ == field_text(value@, fallback@),
{
    let line = one_line(value);
    let clean = trim(line.as_str());
    if clean.as_str().is_empty() {
        String::from_str(fallback)
    } else {
        clean
    }
}

/// The bytes that a query value carries as they are.
pub open spec fn is_unreserved(b: u8) -> bool {
    ||| 65 <= b <= 90
    ||| 97 <= b <= 122
    ||| 48 <= b <= 57
    ||| b == 45
    ||| b == 95
    ||| b == 46
    ||| b == 126
}

/// A digit in base sixteen, with capital letters.
pub open spec fn hex_char(d: int) -> char {
    if d < 10 {
        ((48 + d) as u8) as char
    } else {
        ((55 + d) as u8) as char
    }
}

/// One byte of a query value.
pub open spec fn escape_byte(b: u8) -> Seq<char> {
    if is_unreserved(b) {
        seq![b as char]
    } else {
        seq!['%', hex_char(b as int / 16), hex_char(b as int % 16)]
    }
}

/// Bytes as a query value.
pub open spec fn escaped(b: Seq<u8>) -> Seq<char>
    decreases b.len(),
{
    if b.len() == 0 {
        Seq::empty()
    } else {
        escape_byte(b[0]) + escaped(b.drop_first())
    }
}

/// A digit in base sixteen, with capital letters.
fn hex_digit(d: u8) -> (c: char)
    requires
        d < 16,
    ensures
        c == hex_char(d as int),
{
    if d < 10 {
        (48 + d) as char
    } else {
        (55 + d) as char
    }
}

/// Escape a text for a query value.
pub fn percent_encode(input: &str) -> (r: String)
    ensures
        r@ == escaped(vstd::utf8::encode_utf8(input@)),
{
    let b = input.as_bytes();
    let mut out = String::new();
    let mut i: usize = 0;
    assert(b@.skip(0) =~= b@);
    assert(out@ + escaped(b@) =~= escaped(b@));
    while i < b.len()
        invariant
            i <= b@.len(),
            out@ + escaped(b@.skip(i as int)) == escaped(b@),
        decreases b@.len() - i,
    {
        let x: u8 = b[i];
        let ghost before = out@;
        if (65 <= x && x <= 90) || (97 <= x && x <= 122) || (48 <= x && x <= 57) || x == 45 || x == 95
            || x == 46 || x == 126 {
            out.push(x as char);
        } else {
            out.push('%');
            out.push(hex_digit(x / 16));
            out.push(hex_digit(x % 16));
        }
        assert(b@.skip(i as int).drop_first() =~= b@.skip(i + 1));
        assert(out@ =~= before + escape_byte(x));
        assert(out@ + escaped(b@.skip(i + 1)) =~= before + escaped(b@.skip(i as int)));
        i = i + 1;
    }
    assert(b@.skip(i as int) =~= Seq::empty());
    assert(out@ + Seq::<char>::empty() =~= out@);
    out
}

/// The value of a digit in base sixteen.
pub open spec fn hex_value(c: char) -> int {
    if '0' <= c <= '9' {
        c as int - 48
    } else {
        c as int - 55
    }
}

/// Read a query value.
pub open spec fn unescaped(s: Seq<char>) -> Seq<u8>
    decreases s.len(),
{
    if s.len() == 0 {
        Seq::empty()
    } else if s[0] == '%' && s.len() >= 3 {
        seq![(16 * hex_value(s[1]) + hex_value(s[2])) as u8] + unescaped(s.skip(3))
    } else {
        seq![s[0] as u8] + unescaped(s.drop_first())
    }
}

/// A query value reads back as the bytes that it was made of.
pub proof fn query_values_read_back(b: Seq<u8>)
    ensures
        unescaped(escaped(b)) == b,
    decreases b.len(),
{
    if b.len() > 0 {
        let e = escaped(b);
        let rest = escaped(b.drop_first());
        query_values_read_back(b.drop_first());
        let x = b[0];
        if is_unreserved(x) {
            assert(e[0] == x as char);
            assert(e.drop_first() =~= rest);
            assert(e[0] as u8 == x);
            assert(unescaped(e) == seq![e[0] as u8] + unescaped(rest));
        } else {
            assert(e[0] == '%');
            assert(e[1] == hex_char(x as int / 16));
            assert(e[2] == hex_char(x as int % 16));
            assert(e.skip(3) =~= rest);
            assert(hex_value(e[1]) == x as int / 16);
            assert(hex_value(e[2]) == x as int % 16);
        }
        assert(seq![b[0]] + b.drop_first() =~= b);
    } else {
        assert(escaped(b) =~= Seq::empty());
    }
}

/// Whether a reply says yes.
pub open spec fn says_ok(reply: Seq<char>) -> bool {
    text::holds(reply, "OK"@)
}

/// Judge a reply of the login or of the headers.
pub fn judge_reply(reply: &str) -> (r: Result<(), CrabError>)
    ensures
        match r {
            Ok(_) => says_ok(reply@),
            Err(CrabError::Audio(m)) => !says_ok(reply@) && m@ == "Shoutcast rejected: "@ + reply@,
            Err(_) => false,
        },
{
    if contains_text(reply, "OK") {
        Ok(())
    } else {
        let mut s = String::from_str("Shoutcast rejected: ");
        s.append(reply);
        Err(CrabError::Audio(s))
    }
}

/// The error of a login that got no reply. A dropped connection is what a
/// wrong password looks like.
pub fn login_error(dropped: bool, why: &str) -> (e: CrabError)
    ensures
        e matches CrabError::Audio(m) && m@ == (if dropped || text::holds(why@, "closed"@) {
            "Shoutcast closed the connection during login — wrong password, or wrong port (v1 needs the source port, usually listener port + 1; v2 needs portbase)"@
        } else {
            "Shoutcast login: "@ + why@
        }),
{
    if dropped || contains_text(why, "closed") {
        CrabError::Audio(
            String::from_str(
                "Shoutcast closed the connection during login — wrong password, or wrong port (v1 needs the source port, usually listener port + 1; v2 needs portbase)",
            ),
        )
    } else {
        let mut s = String::from_str("Shoutcast login: ");
        s.append(why);
        CrabError::Audio(s)
    }
}

/// A text without the carriage returns at its end.
pub open spec fn chomped(s: Seq<char>) -> Seq<char>
    decreases s.len(),
{
    if s.len() > 0 && s.last() == '\r' {
        chomped(s.drop_last())
    } else {
        s
    }
}

/// Drop the carriage returns at the end of a text.
fn chomp(s: &str) -> (r: String)
    ensures
        r@ == chomped(s@),
{
    let v = chars_of(s);
    let mut n: usize = v.len();
    assert(v@.subrange(0, n as int) =~= v@);
    while n > 0 && v[n - 1] == '\r'
        invariant
            n <= v.len(),
            chomped(v@.subrange(0, n as int)) == chomped(v@),
        decreases n,
    {
        assert(v@.subrange(0, n as int).drop_last() =~= v@.subrange(0, n - 1));
        n = n - 1;
    }
    text_of(vstd::slice::slice_subrange(v.as_slice(), 0, n))
}

/// What is to be done after a byte of a reply line.
#[derive(Debug)]
pub enum LineStep {
    /// The line is whole.
    Line(String),
    /// Too much without an end.
    TooLong,
    /// Read on.
    More,
}

/// Take one byte of a reply line.
pub fn line_byte(line: &mut Vec<u8>, byte: u8) -> (r: LineStep)
    ensures
        final(line)@ == (if byte == 10 {
            old(line)@
        } else {
            old(line)@.push(byte)
        }),
        match r {
            LineStep::Line(s) => byte == 10 && s@ == chomped(text::lossy(old(line)@)),
            LineStep::TooLong => byte != 10 && old(line)@.len() + 1 > MAX_HANDSHAKE,
            LineStep::More => byte != 10 && old(line)@.len() + 1 <= MAX_HANDSHAKE && old(line)@.len()
                < 65536,
        },
{
    if byte == 10 {
        let s = lossy_text(line.as_slice());
        return LineStep::Line(chomp(s.as_str()));
    }
    line.push(byte);
    if line.len() > MAX_HANDSHAKE {
        LineStep::TooLong
    } else {
        LineStep::More
    }
}

/// What is to be done after a part of a reply block.
#[derive(Debug)]
pub enum BlockStep {
    /// The block is whole.
    Block(String),
    /// A bare reply: take it, unless more follows within the grace time.
    Grace(String),
    /// Too much without an end.
    Flood,
    /// Read on.
    More,
}

/// A blank line ends a block.
pub open spec fn block_ended(s: Seq<char>) -> bool {
    text::holds(s, "\n\n"@) || text::holds(s, "\r\n\r\n"@)
}

/// A block that is a bare reply so far.
pub open spec fn bare_reply(s: Seq<char>) -> bool {
    text::ends(text::trim_end(s), "OK2"@)
}

/// Take one part of a reply block.
pub fn block_part(buf: &mut Vec<u8>, part: &[u8]) -> (r: BlockStep)
    ensures
        final(buf)@ == old(buf)@ + part@,
        ({
            let b = old(buf)@ + part@;
            let s = text::lossy(b);
            match r {
                BlockStep::Block(t) => t@ == s && block_ended(s),
                BlockStep::Grace(t) => t@ == s && !block_ended(s) && bare_reply(s) && b.len() >= 3,
                BlockStep::Flood => !block_ended(s) && !(bare_reply(s) && b.len() >= 3) && b.len()
                    > MAX_HANDSHAKE,
                BlockStep::More => !block_ended(s) && !(bare_reply(s) && b.len() >= 3) && b.len()
                    <= MAX_HANDSHAKE && b.len() <= 65536,
            }
        }),
{
    buf.extend_from_slice(part);
    assert(buf@ =~= old(buf)@ + part@);
    let s = lossy_text(buf.as_slice());
    if contains_text(s.as_str(), "\n\n") || contains_text(s.as_str(), "\r\n\r\n") {
        return BlockStep::Block(s);
    }
    let t = trim_tail(s.as_str());
    if ends_text(t.as_str(), "OK2") && buf.len() >= 3 {
        return BlockStep::Grace(s);
    }
    if buf.len() > MAX_HANDSHAKE {
        BlockStep::Flood
    } else {
        BlockStep::More
    }
}

/// The block after the grace time, with the part that came in it.
pub fn after_grace(buf: &Vec<u8>, part: &[u8]) -> (r: String)
    ensures
        r@ == text::lossy(buf@ + part@),
{
    let mut b: Vec<u8> = Vec::new();
    b.extend_from_slice(buf.as_slice());
    b.extend_from_slice(part);
    assert(b@ =~= buf@ + part@);
    lossy_text(b.as_slice())
}

/// What a title update needs on a connection of its own.
#[derive(Debug)]
pub struct ShoutcastAdmin {
    pub host: String,
    pub port: u16,
    pub tls: bool,
    /// The password as it is sent.
    pub pass: String,
    pub sid: u32,
}

/// The path that updates the title.
pub open spec fn admin_path(a: ShoutcastAdmin, v2: bool, title: Seq<char>) -> Seq<char> {
    let pass = escaped(vstd::utf8::encode_utf8(a.pass@));
    let song = escaped(vstd::utf8::encode_utf8(title));
    if v2 {
        "/admin.cgi?sid="@ + text::decimal(a.sid as nat) + "&pass="@ + pass + "&mode=updinfo&song="@
            + song
    } else {
        "/admin.cgi?pass="@ + pass + "&mode=updinfo&song="@ + song
    }
}

/// The request that updates the title.
pub open spec fn admin_text(a: ShoutcastAdmin, v2: bool, title: Seq<char>) -> Seq<char> {
    "GET "@ + admin_path(a, v2, title) + " HTTP/1.0\r\nHost: "@ + a.host@
        + "\r\nUser-Agent: CrabBoss/0.1\r\nConnection: close\r\n\r\n"@
}

impl ShoutcastAdmin {
    /// The path that updates the title.
    pub fn path(&self, v2: bool, title: &str) -> (r: String)
        ensures
            r@ == admin_path(*self, v2, title@),
    {
        let pass = percent_encode(self.pass.as_str());
        let song = percent_encode(title);
        if v2 {
            let mut s = String::from_str("/admin.cgi?sid=");
            push_decimal(&mut s, self.sid as u64);
            s.append("&pass=");
            s.append(pass.as_str());
            s.append("&mode=updinfo&song=");
            s.append(song.as_str());
            s
        } else {
            let mut s = String::from_str("/admin.cgi?pass=");
            s.append(pass.as_str());
            s.append("&mode=updinfo&song=");
            s.append(song.as_str());
            s
        }
    }

    /// The request that updates the title.
    pub fn request(&self, v2: bool, title: &str) -> (r: String)
        ensures
            r@ == admin_text(*self, v2, title@),
    {
        let path = self.path(v2, title);
        let mut s = String::from_str("GET ");
        s.append(path.as_str());
        s.append(" HTTP/1.0\r\nHost: ");
        s.append(self.host.as_str());
        s.append("\r\nUser-Agent: CrabBoss/0.1\r\nConnection: close\r\n\r\n");
        s
    }
}

/// Judge the answer to a title update.
pub fn judge_admin_reply(raw: &[u8]) -> (r: Result<(), CrabError>)
    ensures
        ({
            let status = text::first_line_of(text::lossy(raw@));
            match r {
                Ok(_) => text::holds(status, " 200 "@),
                Err(CrabError::Audio(m)) => !text::holds(status, " 200 "@) && m@
                    == "Shoutcast metadata rejected: "@ + status,
                Err(_) => false,
            }
        }),
{
    let head = lossy_text(raw);
    let status = first_line(head.as_str());
    if contains_text(status.as_str(), " 200 ") {
        Ok(())
    } else {
        let mut s = String::from_str("Shoutcast metadata rejected: ");
        s.append(status.as_str());
        Err(CrabError::Audio(s))
    }
}

/// A source connection, as far as the protocol remembers it.
#[derive(Debug)]
pub struct ShoutcastSource {
    pub admin: ShoutcastAdmin,
    pub v2: bool,
}

/// The station headers of a configuration.
pub open spec fn station_text(c: StreamConfig) -> Seq<char> {
    "icy-name:"@ + field_text(c.name@, "CrabBoss"@) + "\nicy-genre:"@ + field_text(c.genre@, ""@)
        + "\nicy-pub:"@ + (if c.public {
        "1"@
    } else {
        "0"@
    }) + "\nicy-br:"@ + text::decimal(config::clean_bitrate(c.bitrate_kbps) as nat)
        + "\nicy-irc:\nicy-icq:\nicy-aim:\nContent-Type: audio/mpeg\n\n"@
}

impl ShoutcastSource {
    /// Prepare a connection for a configuration. The protocol carries MP3
    /// only.
    pub fn prepare(config: &StreamConfig) -> (r: Result<Self, CrabError>)
        ensures
            match r {
                Ok(s) => {
                    &&& config.format == StreamFormat::Mp3
                    &&& s.v2 == (config.protocol == StreamProtocol::ShoutcastV2)
                    &&& s.admin.host@ == config::clean_host(config.host@)
                    &&& s.admin.port == config.port
                    &&& s.admin.tls == config.tls
                    &&& s.admin.sid == config.sid
                    &&& s.admin.pass@ == password_text(config.password@, config.sid, s.v2)
                },
                Err(CrabError::Audio(m)) => config.format != StreamFormat::Mp3 && m@
                    == "Shoutcast output supports MP3 only — switch Format to MP3 (or Protocol to Icecast for Opus/HE-AAC)"@,
                Err(_) => false,
            },
    {
        let c = config.clone().sanitized();
        if c.format != StreamFormat::Mp3 {
            return Err(
                CrabError::Audio(
                    String::from_str(
                        "Shoutcast output supports MP3 only — switch Format to MP3 (or Protocol to Icecast for Opus/HE-AAC)",
                    ),
                ),
            );
        }
        let v2 = c.protocol == StreamProtocol::ShoutcastV2;
        let pass = login_password(c.password.as_str(), c.sid, v2);
        Ok(
            ShoutcastSource {
                admin: ShoutcastAdmin { host: c.host, port: c.port, tls: c.tls, pass, sid: c.sid },
                v2,
            },
        )
    }

    /// The line that logs in.
    pub fn login_line(&self) -> (r: String)
        ensures
            r@ == self.admin.pass@ + "\n"@,
    {
        let mut s = self.admin.pass.clone();
        s.append("\n");
        s
    }

    /// The station headers that follow the login.
    pub fn station_headers(config: &StreamConfig) -> (r: String)
        ensures
            r@ == station_text(*config),
    {
        let c = config.clone().sanitized();
        let mut s = String::from_str("icy-name:");
        let name = sanitize_field(c.name.as_str(), "CrabBoss");
        s.append(name.as_str());
        s.append("\nicy-genre:");
        let genre = sanitize_field(c.genre.as_str(), "");
        s.append(genre.as_str());
        s.append("\nicy-pub:");
        if c.public {
            s.append("1");
        } else {
            s.append("0");
        }
        s.append("\nicy-br:");
        push_decimal(&mut s, c.bitrate_kbps as u64);
        s.append("\nicy-irc:\nicy-icq:\nicy-aim:\nContent-Type: audio/mpeg\n\n");
        s
    }

    /// The request that pushes a title; it goes over a connection of its own.
    pub fn set_metadata(&self, title: &str) -> (r: String)
        ensures
            r@ == admin_text(self.admin, self.v2, text::on_one_line(title@)),
    {
        let t = one_line(title);
        self.admin.request(self.v2, t.as_str())
    }
}

/// What may stand in a query value: the unreserved characters, and what marks
/// and spells an escape.
pub open spec fn query_char(c: char) -> bool {
    'A' <= c <= 'Z' || 'a' <= c <= 'z' || '0' <= c <= '9' || c == '-' || c == '_' || c == '.' || c == '~' || c
        == '%'
}

/// A query value never holds what parts a query: unreserved characters stand
/// for themselves, everything else is a percent sign and two digits.
pub proof fn query_values_are_plain(b: Seq<u8>, i: int)
    requires
        0 <= i < escaped(b).len(),
    ensures
        query_char(escaped(b)[i]),
    decreases b.len(),
{
    if b.len() > 0 {
        let one = escape_byte(b[0]);
        if i >= one.len() {
            query_values_are_plain(b.drop_first(), i - one.len());
        }
    }
}

proof fn lemma_free(s: Seq<char>, c: char)
    requires
        forall|i: int| 0 <= i < s.len() ==> query_char(#[trigger] s[i]) || s[i] == '=',
        !query_char(c),
        c != '=',
    ensures
        !s.contains(c),
{
}

/// A title update names the stream, the password and the title in this order,
/// each behind its key; the first only on version two. The password and the
/// title read back as they are.
pub proof fn updates_tell_password_and_title(a: ShoutcastAdmin, title: Seq<char>)
    ensures
        text::begins(admin_path(a, true, title), "/admin.cgi?"@),
        text::begins(admin_path(a, false, title), "/admin.cgi?"@),
        ({
            let pass = escaped(vstd::utf8::encode_utf8(a.pass@));
            let song = escaped(vstd::utf8::encode_utf8(title));
            let sid = seq!['s', 'i', 'd', '='] + text::decimal(a.sid as nat);
            let key = seq!['p', 'a', 's', 's', '='] + pass;
            let mode = seq!['m', 'o', 'd', 'e', '=', 'u', 'p', 'd', 'i', 'n', 'f', 'o'];
            let name = seq!['s', 'o', 'n', 'g', '='] + song;
            &&& text::split_at(admin_path(a, true, title).skip(11), '&') == seq![sid, key, mode, name]
            &&& text::split_at(admin_path(a, false, title).skip(11), '&') == seq![key, mode, name]
            &&& unescaped(pass) == vstd::utf8::encode_utf8(a.pass@)
            &&& unescaped(song) == vstd::utf8::encode_utf8(title)
        }),
{
    reveal_strlit("/admin.cgi?");
    reveal_strlit("/admin.cgi?sid=");
    reveal_strlit("/admin.cgi?pass=");
    reveal_strlit("&pass=");
    reveal_strlit("&mode=updinfo&song=");
    let pass = escaped(vstd::utf8::encode_utf8(a.pass@));
    let song = escaped(vstd::utf8::encode_utf8(title));
    let sid = seq!['s', 'i', 'd', '='] + text::decimal(a.sid as nat);
    let key = seq!['p', 'a', 's', 's', '='] + pass;
    let mode = seq!['m', 'o', 'd', 'e', '=', 'u', 'p', 'd', 'i', 'n', 'f', 'o'];
    let name = seq!['s', 'o', 'n', 'g', '='] + song;
    query_values_read_back(vstd::utf8::encode_utf8(a.pass@));
    query_values_read_back(vstd::utf8::encode_utf8(title));
    text::decimal_reads_back(a.sid as nat);
    assert forall|i: int| 0 <= i < pass.len() implies query_char(#[trigger] pass[i]) by {
        query_values_are_plain(vstd::utf8::encode_utf8(a.pass@), i);
    }
    assert forall|i: int| 0 <= i < song.len() implies query_char(#[trigger] song[i]) by {
        query_values_are_plain(vstd::utf8::encode_utf8(title), i);
    }
    assert forall|i: int| 0 <= i < sid.len() implies query_char(#[trigger] sid[i]) || sid[i] == '=' by {
        if i >= 4 {
            assert(sid[i] == text::decimal(a.sid as nat)[i - 4]);
            assert(text::is_digit(text::decimal(a.sid as nat)[i - 4]));
        }
    }
    assert forall|i: int| 0 <= i < key.len() implies query_char(#[trigger] key[i]) || key[i] == '=' by {
        if i >= 5 {
            assert(key[i] == pass[i - 5]);
        }
    }
    assert forall|i: int| 0 <= i < name.len() implies query_char(#[trigger] name[i]) || name[i] == '=' by {
        if i >= 5 {
            assert(name[i] == song[i - 5]);
        }
    }
    lemma_free(sid, '&');
    lemma_free(key, '&');
    lemma_free(mode, '&');
    lemma_free(name, '&');
    lemma_four(sid, key, mode, name);
    let p = admin_path(a, true, title);
    let q = admin_path(a, false, title);
    assert(p.subrange(0, 11) =~= "/admin.cgi?"@);
    assert(q.subrange(0, 11) =~= "/admin.cgi?"@);
    assert(p.skip(11) =~= sid + seq!['&'] + key + seq!['&'] + mode + seq!['&'] + name);
    assert(q.skip(11) =~= key + seq!['&'] + mode + seq!['&'] + name);
}

proof fn lemma_four(a: Seq<char>, b: Seq<char>, c: Seq<char>, d: Seq<char>)
    requires
        !a.contains('&'),
        !b.contains('&'),
        !c.contains('&'),
        !d.contains('&'),
    ensures
        text::split_at(a + seq!['&'] + b + seq!['&'] + c + seq!['&'] + d, '&') == seq![a, b, c, d],
        text::split_at(b + seq!['&'] + c + seq!['&'] + d, '&') == seq![b, c, d],
{
    let sep = seq!['&'];
    let four = seq![a, b, c, d];
    let three = seq![b, c, d];
    text::joining_keeps_the_pieces(four, '&');
    text::joining_keeps_the_pieces(three, '&');
    assert(seq![a, b, c, d].drop_last() =~= seq![a, b, c]);
    assert(seq![a, b, c].drop_last() =~= seq![a, b]);
    assert(seq![a, b].drop_last() =~= seq![a]);
    assert(text::join(seq![a], sep) =~= a);
    assert(text::join(seq![a, b], sep) == a + sep + b);
    assert(text::join(seq![a, b, c], sep) == a + sep + b + sep + c);
    assert(text::join(four, sep) == a + sep + b + sep + c + sep + d);
    assert(seq![b, c, d].drop_last() =~= seq![b, c]);
    assert(seq![b, c].drop_last() =~= seq![b]);
    assert(text::join(seq![b], sep) =~= b);
    assert(text::join(seq![b, c], sep) == b + sep + c);
    assert(text::join(three, sep) == b + sep + c + sep + d);
}

/// The station field of a text: its words on one line without blanks around
/// them, or what stands for none.
pub proof fn fields_are_one_line(value: Seq<char>, fallback: Seq<char>)
    ensures
        !text::is_blank(text::on_one_line(value)) ==> field_text(value, fallback) == text::trimmed(
            text::on_one_line(value),
        ),
        text::is_blank(text::on_one_line(value)) ==> field_text(value, fallback) == fallback,
{
}

/// On version one the password is sent as it is, and on version two too for the
/// first stream; another stream is selected behind it.
pub proof fn passwords_select_the_stream(password: Seq<char>, sid: u32)
    ensures
        password_text(password, sid, false) == password,
        sid <= 1 ==> password_text(password, sid, true) == password,
        sid > 1 ==> text::begins(password_text(password, sid, true), password)
            && password_text(password, sid, true).skip(password.len() as int) == seq![':', '#']
            + text::decimal(sid as nat),
{
    reveal_strlit(":#");
    if sid > 1 {
        let p = password_text(password, sid, true);
        assert(p.subrange(0, password.len() as int) =~= password);
        assert(p.skip(password.len() as int) =~= seq![':', '#'] + text::decimal(sid as nat));
    }
}

} // verus!
