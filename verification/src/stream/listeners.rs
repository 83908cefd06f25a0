//! Listener counts out of what stream servers publish. Nothing here is an
//! error: whatever cannot be read is simply not known.

use vstd::prelude::*;
use vstd::string::*;

use crate::stream::config::{StreamConfig, StreamProtocol};
use crate::stream::shoutcast::percent_encode;
use crate::text::{chars_of, contains_text, cut, cut_text, digits_of, first_line, parse_up_to, push_decimal, same_text, text_of, trim, trim_head, utf8_text};
use crate::stream::config;
use crate::stream::shoutcast;
use crate::text;

verus! {

/// Seconds between listener polls while live.
pub const LISTENER_POLL_SECS: u64 = 30;

/// Seconds that one poll may take.
pub const POLL_TIMEOUT_SECS: u64 = 8;

/// Most bytes that are read of an answer.
pub const MAX_BODY: u64 = 262144;

/// A JSON value.
#[derive(Debug)]
pub enum Json {
    Null,
    Bool(bool),
    /// A number, with its value where it is an unsigned integer.
    Number(Option<u64>),
    Text(String),
    Array(Vec<Json>),
    Object(Vec<(String, Json)>),
}

/// What a JSON value says.
pub ghost enum JsonView {
    Null,
    Bool(bool),
    Number(Option<u64>),
    Text(Seq<char>),
    Array(Seq<JsonView>),
    Object(Seq<(Seq<char>, JsonView)>),
}

impl Json {
    /// What this value says.
    pub open spec fn said(self) -> JsonView
        decreases self,
    {
        match self {
            Json::Null => JsonView::Null,
            Json::Bool(b) => JsonView::Bool(b),
            Json::Number(n) => JsonView::Number(n),
            Json::Text(s) => JsonView::Text(s@),
            Json::Array(v) => JsonView::Array(
                Seq::new(
                    v@.len(),
                    |i: int|
                        if 0 <= i < v@.len() {
                            v@[i].said()
                        } else {
                            JsonView::Null
                        },
                ),
            ),
            Json::Object(v) => JsonView::Object(
                Seq::new(
                    v@.len(),
                    |i: int|
                        if 0 <= i < v@.len() {
                            (v@[i].0@, v@[i].1.said())
                        } else {
                            (Seq::empty(), JsonView::Null)
                        },
                ),
            ),
        }
    }
}

/// `serde_json::Value`, a parsed JSON document.
#[verifier::external_type_specification]
#[verifier::external_body]
pub struct ExValue(serde_json::Value);

/// What a parsed JSON document says.
pub uninterp spec fn document(v: serde_json::Value) -> JsonView;

/// What a text says as JSON, where it is JSON.
pub uninterp spec fn json_text(s: Seq<char>) -> Option<JsonView>;

/// `serde_json::from_str` to a `serde_json::Value`: whether the text is a JSON
/// document, and what it says, depends on the text alone.
#[verifier::external_body]
fn parse_value(s: &str) -> (r: Option<serde_json::Value>)
    ensures
        match r {
            Some(v) => json_text(s@) == Some(document(v)),
            None => json_text(s@) is None,
        },
{
    serde_json::from_str(s).ok()
}

/// The variants of a `serde_json::Value`, one for one, with
/// `serde_json::Number::as_u64` for a number.
#[verifier::external_body]
fn json_of(v: &serde_json::Value) -> (r: Json)
    ensures
        r.said() == document(*v),
{
    match v {
        serde_json::Value::Null => Json::Null,
        serde_json::Value::Bool(b) => Json::Bool(*b),
        serde_json::Value::Number(n) => Json::Number(n.as_u64()),
        serde_json::Value::String(s) => Json::Text(s.clone()),
        serde_json::Value::Array(a) => Json::Array(a.iter().map(|x| json_of(x)).collect()),
        serde_json::Value::Object(m) => {
            Json::Object(m.iter().map(|(k, x)| (k.clone(), json_of(x))).collect())
        },
    }
}

/// Read a JSON text.
pub fn read_json(s: &str) -> (r: Option<Json>)
    ensures
        match r {
            Some(j) => json_text(s@) == Some(j.said()),
            None => json_text(s@) is None,
        },
{
    match parse_value(s) {
        Some(v) => Some(json_of(&v)),
        None => None,
    }
}

/// The value of a key in an object, where it has one.
pub open spec fn member(v: JsonView, key: Seq<char>) -> Option<JsonView> {
    match v {
        JsonView::Object(pairs) => lookup(pairs, key),
        _ => None,
    }
}

/// The value of the first pair with a key.
pub open spec fn lookup(pairs: Seq<(Seq<char>, JsonView)>, key: Seq<char>) -> Option<JsonView>
    decreases pairs.len(),
{
    if pairs.len() == 0 {
        None
    } else if pairs[0].0 == key {
        Some(pairs[0].1)
    } else {
        lookup(pairs.drop_first(), key)
    }
}

/// A text without the slashes at its front.
pub open spec fn unslashed(s: Seq<char>) -> Seq<char>
    decreases s.len(),
{
    if s.len() > 0 && s[0] == '/' {
        unslashed(s.drop_first())
    } else {
        s
    }
}

/// A mount with exactly one slash in front.
pub open spec fn wanted(mount: Seq<char>) -> Seq<char> {
    "/"@ + unslashed(text::trimmed(mount))
}

/// The path of a listening address, where it has one: what starts with the
/// first slash behind the scheme.
pub open spec fn path_of(url: Seq<char>) -> Option<Seq<char>> {
    match text::cut_by(url, "://"@) {
        Some((_, rest)) => {
            let part = match text::cut_by(rest, "://"@) {
                Some((a, _)) => a,
                None => rest,
            };
            match text::cut_at(part, '/') {
                Some((_, path)) => Some("/"@ + path),
                None => None,
            }
        },
        None => None,
    }
}

/// The count that one source entry gives for a mount.
pub open spec fn entry_count(entry: JsonView, want: Seq<char>) -> Option<u64> {
    match member(entry, "listenurl"@) {
        Some(JsonView::Text(url)) => if path_of(url) == Some(want) {
            match member(entry, "listeners"@) {
                Some(JsonView::Number(n)) => n,
                _ => None,
            }
        } else {
            None
        },
        _ => None,
    }
}

/// The first count that the entries give for a mount.
pub open spec fn first_count(entries: Seq<JsonView>, want: Seq<char>) -> Option<u64>
    decreases entries.len(),
{
    if entries.len() == 0 {
        None
    } else {
        match entry_count(entries[0], want) {
            Some(n) => Some(n),
            None => first_count(entries.drop_first(), want),
        }
    }
}

/// The count that a status document gives for a mount. A single mount is one
/// object, several are an array.
pub open spec fn count_in(doc: JsonView, mount: Seq<char>) -> Option<u64> {
    match member(doc, "icestats"@) {
        Some(stats) => match member(stats, "source"@) {
            Some(JsonView::Array(a)) => first_count(a, wanted(mount)),
            Some(JsonView::Object(o)) => entry_count(JsonView::Object(o), wanted(mount)),
            _ => None,
        },
        None => None,
    }
}

/// The value of a key in an object.
fn get<'a>(v: &'a Json, key: &str) -> (r: Option<&'a Json>)
    ensures
        match r {
            Some(x) => member(v.said(), key@) == Some(x.said()),
            None => member(v.said(), key@) is None,
        },
{
    match v {
        Json::Object(pairs) => {
            let ghost all = v.said()->Object_0;
            let mut i: usize = 0;
            assert(all.skip(0) =~= all);
            while i < pairs.len()
                invariant
                    i <= pairs.len(),
                    v.said() == JsonView::Object(all),
                    v == Json::Object(*pairs),
                    all.len() == pairs@.len(),
                    lookup(all, key@) == lookup(all.skip(i as int), key@),
                decreases pairs.len() - i,
            {
                assert(all[i as int] == (pairs@[i as int].0@, pairs@[i as int].1.said()));
                assert(all.skip(i as int)[0] == all[i as int]);
                assert(all.skip(i as int).drop_first() =~= all.skip(i + 1));
                if same_text(pairs[i].0.as_str(), key) {
                    return Some(&pairs[i].1);
                }
                i = i + 1;
            }
            assert(all.skip(i as int) =~= Seq::empty());
            None
        },
        _ => None,
    }
}

/// Drop the slashes at the front of a text.
fn unslash(s: &str) -> (r: String)
    ensures
        r@ == unslashed(s@),
{
    let v = chars_of(s);
    let mut i: usize = 0;
    assert(v@.skip(0) =~= v@);
    while i < v.len() && v[i] == '/'
        invariant
            i <= v.len(),
            unslashed(v@.skip(i as int)) == unslashed(v@),
        decreases v.len() - i,
    {
        assert(v@.skip(i as int).drop_first() =~= v@.skip(i + 1));
        i = i + 1;
    }
    let t = text_of(vstd::slice::slice_subrange(v.as_slice(), i, v.len()));
    assert(t@ =~= v@.skip(i as int));
    t
}

/// The path of a listening address.
fn listen_path(url: &str) -> (r: Option<String>)
    ensures
        text::opt_text(r) == path_of(url@),
{
    match cut_text(url, "://") {
        Some((_, rest)) => {
            let part = match cut_text(rest.as_str(), "://") {
                Some((a, _)) => a,
                None => rest,
            };
            match cut(part.as_str(), '/') {
                Some((_, path)) => {
                    let mut s = String::from_str("/");
                    s.append(path.as_str());
                    Some(s)
                },
                None => None,
            }
        },
        None => None,
    }
}

/// The count that one source entry gives for a mount.
fn count_of_entry(entry: &Json, want: &str) -> (r: Option<u64>)
    ensures
        r == entry_count(entry.said(), want@),
{
    match get(entry, "listenurl") {
        Some(Json::Text(url)) => match listen_path(url.as_str()) {
            Some(path) => if same_text(path.as_str(), want) {
                match get(entry, "listeners") {
                    Some(Json::Number(n)) => *n,
                    _ => None,
                }
            } else {
                None
            },
            None => None,
        },
        _ => None,
    }
}

/// Listeners on a mount in a status document.
pub fn listeners_in(doc: &Json, mount: &str) -> (r: Option<u64>)
    ensures
        r == count_in(doc.said(), mount@),
{
    let stats = match get(doc, "icestats") {
        Some(s) => s,
        None => {
            return None;
        },
    };
    let sources = match get(stats, "source") {
        Some(s) => s,
        None => {
            return None;
        },
    };
    let name = trim(mount);
    let bare = unslash(name.as_str());
    let mut want = String::from_str("/");
    want.append(bare.as_str());
    match sources {
        Json::Array(list) => {
            let ghost all = sources.said()->Array_0;
            let mut i: usize = 0;
            assert(all.skip(0) =~= all);
            while i < list.len()
                invariant
                    i <= list.len(),
                    sources.said() == JsonView::Array(all),
                    sources == Json::Array(*list),
                    all.len() == list@.len(),
                    first_count(all, want@) == first_count(all.skip(i as int), want@),
                    count_in(doc.said(), mount@) == first_count(all, want@),
                decreases list.len() - i,
            {
                assert(all[i as int] == list@[i as int].said());
                assert(all.skip(i as int)[0] == all[i as int]);
                assert(all.skip(i as int).drop_first() =~= all.skip(i + 1));
                if let Some(n) = count_of_entry(&list[i], want.as_str()) {
                    return Some(n);
                }
                i = i + 1;
            }
            assert(all.skip(i as int) =~= Seq::empty());
            None
        },
        Json::Object(_) => count_of_entry(sources, want.as_str()),
        _ => None,
    }
}

/// The count that a status text gives for a mount.
pub open spec fn count_in_text(body: Seq<char>, mount: Seq<char>) -> Option<u64> {
    match json_text(body) {
        Some(doc) => count_in(doc, mount),
        None => None,
    }
}

/// Listeners on a mount in a status text; nothing where it cannot be read or
/// the mount is not in it.
pub fn parse_listener_count(body: &str, mount: &str) -> (r: Option<u64>)
    ensures
        r == count_in_text(body@, mount@),
{
    match read_json(body) {
        Some(doc) => listeners_in(&doc, mount),
        None => None,
    }
}

/// The number behind the first key of the current listeners, wherever in the
/// text it stands.
pub open spec fn shoutcast_count(body: Seq<char>) -> Option<nat> {
    match text::cut_by(body, "\"currentlisteners\""@) {
        Some((_, rest)) => match text::cut_at(rest, ':') {
            Some((_, value)) => text::parsed_up_to(
                text::leading_digits(text::trim_start(value)),
                u64::MAX as nat,
            ),
            None => None,
        },
        None => None,
    }
}

/// Listeners in the status text of a Shoutcast server.
pub fn parse_shoutcast_listeners(body: &str) -> (r: Option<u64>)
    ensures
        match r {
            Some(n) => shoutcast_count(body@) == Some(n as nat),
            None => shoutcast_count(body@) is None,
        },
{
    match cut_text(body, "\"currentlisteners\"") {
        Some((_, rest)) => match cut(rest.as_str(), ':') {
            Some((_, value)) => {
                let v = trim_head(value.as_str());
                let d = digits_of(v.as_str());
                parse_up_to(d.as_str(), u64::MAX)
            },
            None => None,
        },
        None => None,
    }
}

/// The path that a poll asks for.
pub open spec fn poll_path(c: StreamConfig) -> Seq<char> {
    if c.protocol != StreamProtocol::Icecast {
        "/admin.cgi?sid="@ + text::decimal(c.sid as nat) + "&mode=viewjson&pass="@ + shoutcast::escaped(
            vstd::utf8::encode_utf8(c.password@),
        )
    } else {
        "/status-json.xsl"@
    }
}

/// The request of a poll.
pub fn poll_request(config: &StreamConfig) -> (r: String)
    ensures
        r@ == "GET "@ + poll_path(*config) + " HTTP/1.0\r\nHost: "@ + config::clean_host(config.host@)
            + "\r\nUser-Agent: CrabBoss/0.1\r\nConnection: close\r\n\r\n"@,
{
    let c = config.clone().sanitized();
    let path = if c.protocol.is_shoutcast() {
        let mut p = String::from_str("/admin.cgi?sid=");
        push_decimal(&mut p, c.sid as u64);
        p.append("&mode=viewjson&pass=");
        let pass = percent_encode(c.password.as_str());
        p.append(pass.as_str());
        p
    } else {
        String::from_str("/status-json.xsl")
    };
    let mut s = String::from_str("GET ");
    s.append(path.as_str());
    s.append(" HTTP/1.0\r\nHost: ");
    s.append(c.host.as_str());
    s.append("\r\nUser-Agent: CrabBoss/0.1\r\nConnection: close\r\n\r\n");
    s
}

/// The body of an answer, or why there is none.
pub open spec fn body_of(raw: Seq<u8>) -> Result<Seq<char>, Seq<char>> {
    if !vstd::utf8::valid_utf8(raw) {
        Err("non-UTF8 response"@)
    } else {
        match text::cut_by(vstd::utf8::decode_utf8(raw), "\r\n\r\n"@) {
            Some((head, body)) => if text::holds(text::first_line_of(head), " 200 "@) {
                Ok(body)
            } else {
                Err("server said: "@ + text::first_line_of(head))
            },
            None => Err("no header/body split"@),
        }
    }
}

/// The body of an answer, or why there is none.
pub fn response_body(raw: Vec<u8>) -> (r: Result<String, String>)
    ensures
        match r {
            Ok(b) => body_of(raw@) == Ok::<Seq<char>, Seq<char>>(b@),
            Err(e) => body_of(raw@) == Err::<Seq<char>, Seq<char>>(e@),
        },
{
    match utf8_text(raw) {
        Some(t) => match cut_text(t.as_str(), "\r\n\r\n") {
            Some((head, body)) => {
                let status = first_line(head.as_str());
                if contains_text(status.as_str(), " 200 ") {
                    Ok(body)
                } else {
                    let mut s = String::from_str("server said: ");
                    s.append(status.as_str());
                    Err(s)
                }
            },
            None => Err(String::from_str("no header/body split")),
        },
        None => Err(String::from_str("non-UTF8 response")),
    }
}

/// The listener count that a poll came to, from the answer to its request;
/// nothing where no answer came or it cannot be read.
pub fn fetch_listener_count(config: &StreamConfig, answer: Option<Vec<u8>>) -> (r: Option<u64>)
    ensures
        match answer {
            Some(raw) => match body_of(raw@) {
                Ok(body) => if config.protocol != StreamProtocol::Icecast {
                    match r {
                        Some(n) => shoutcast_count(body) == Some(n as nat),
                        None => shoutcast_count(body) is None,
                    }
                } else {
                    r == count_in_text(body, config::clean_mount(config.mount@))
                },
                Err(_) => r is None,
            },
            None => r is None,
        },
{
    let c = config.clone().sanitized();
    match answer {
        Some(raw) => match response_body(raw) {
            Ok(body) => if c.protocol.is_shoutcast() {
                parse_shoutcast_listeners(body.as_str())
            } else {
                parse_listener_count(body.as_str(), c.mount.as_str())
            },
            Err(_) => None,
        },
        None => None,
    }
}

/// A value of an object is that of the first pair with its key.
pub proof fn the_first_pair_counts(pairs: Seq<(Seq<char>, JsonView)>, key: Seq<char>, i: int)
    requires
        0 <= i <= pairs.len(),
        forall|j: int| 0 <= j < i ==> (#[trigger] pairs[j]).0 != key,
    ensures
        i == pairs.len() ==> lookup(pairs, key) is None,
        i < pairs.len() && pairs[i].0 == key ==> lookup(pairs, key) == Some(pairs[i].1),
    decreases i,
{
    if i > 0 {
        let rest = pairs.drop_first();
        assert(pairs[0].0 != key);
        assert forall|j: int| 0 <= j < i - 1 implies (#[trigger] rest[j]).0 != key by {
            assert(rest[j] == pairs[j + 1]);
        }
        the_first_pair_counts(rest, key, i - 1);
        if i < pairs.len() {
            assert(rest[i - 1] == pairs[i]);
        }
    }
}

/// The count of several streams is that of the first whose address has the
/// mount and which tells one.
pub proof fn the_first_stream_counts(entries: Seq<JsonView>, want: Seq<char>, i: int)
    requires
        0 <= i <= entries.len(),
        forall|j: int| 0 <= j < i ==> entry_count(#[trigger] entries[j], want) is None,
    ensures
        i == entries.len() ==> first_count(entries, want) is None,
        i < entries.len() && entry_count(entries[i], want) is Some ==> first_count(entries, want)
            == entry_count(entries[i], want),
    decreases i,
{
    if i > 0 {
        let rest = entries.drop_first();
        assert(entry_count(entries[0], want) is None);
        assert forall|j: int| 0 <= j < i - 1 implies entry_count(#[trigger] rest[j], want) is None by {
            assert(rest[j] == entries[j + 1]);
        }
        the_first_stream_counts(rest, want, i - 1);
        if i < entries.len() {
            assert(rest[i - 1] == entries[i]);
        }
    }
}

/// The path of an address is what follows its host, from the slash on.
pub proof fn addresses_tell_their_path(scheme: Seq<char>, host: Seq<char>, path: Seq<char>)
    requires
        !scheme.contains(':'),
        !host.contains('/'),
        !text::holds(host + seq!['/'] + path, "://"@),
    ensures
        path_of(scheme + "://"@ + host + seq!['/'] + path) == Some(seq!['/'] + path),
{
    reveal_strlit("://");
    reveal_strlit("/");
    let key = "://"@;
    let rest = host + seq!['/'] + path;
    let url = scheme + key + host + seq!['/'] + path;
    let n = scheme.len() as int;
    assert(url.subrange(n, n + 3) =~= key);
    assert(text::occurs_at(url, key, n));
    assert forall|j: int| 0 <= j < n implies !#[trigger] text::occurs_at(url, key, j) by {
        if text::occurs_at(url, key, j) {
            assert(url.subrange(j, j + 3)[0] == ':');
            assert(url[j] == scheme[j]);
            assert(scheme.contains(scheme[j]));
        }
    }
    text::cutting_by_the_first(url, key, n);
    assert(url.skip(n + 3) =~= rest);
    text::cutting_needs_a_place(rest, key);
    assert(rest[host.len() as int] == '/');
    assert forall|j: int| 0 <= j < host.len() implies rest[j] != '/' by {
        assert(rest[j] == host[j]);
        assert(host.contains(host[j]));
    }
    text::cutting_at_the_first(rest, '/', host.len() as int);
    assert(rest.skip(host.len() as int + 1) =~= path);
    assert("/"@ + path =~= seq!['/'] + path);
}

/// A mount is looked for behind exactly one slash, however many it has and
/// whatever blanks are around it.
pub proof fn mounts_have_one_slash(mount: Seq<char>, slashes: nat, name: Seq<char>)
    requires
        name.len() > 0 ==> name[0] != '/',
        text::trimmed(mount) == Seq::new(slashes, |i: int| '/') + name,
    ensures
        wanted(mount) == seq!['/'] + name,
{
    reveal_strlit("/");
    lemma_unslashed(slashes, name);
    assert(wanted(mount) =~= seq!['/'] + name);
}

proof fn lemma_unslashed(n: nat, name: Seq<char>)
    requires
        name.len() > 0 ==> name[0] != '/',
    ensures
        unslashed(Seq::new(n, |i: int| '/') + name) == name,
    decreases n,
{
    let s = Seq::new(n, |i: int| '/') + name;
    if n == 0 {
        assert(s =~= name);
    } else {
        lemma_unslashed((n - 1) as nat, name);
        assert(s[0] == '/');
        assert(s.drop_first() =~= Seq::new((n - 1) as nat, |i: int| '/') + name);
    }
}

/// The count of a Shoutcast server is the number behind the first key of its
/// name, up to what is no digit.
pub proof fn counts_stand_behind_their_key(front: Seq<char>, n: nat, rest: Seq<char>)
    requires
        n <= u64::MAX,
        rest.len() > 0 ==> !text::is_digit(rest[0]),
        forall|j: int|
            0 <= j < front.len() ==> !#[trigger] text::occurs_at(
                front + "\"currentlisteners\""@ + seq![':'] + text::decimal(n) + rest,
                "\"currentlisteners\""@,
                j,
            ),
    ensures
        shoutcast_count(front + "\"currentlisteners\""@ + seq![':'] + text::decimal(n) + rest) == Some(n),
{
    let key = "\"currentlisteners\""@;
    let body = front + key + seq![':'] + text::decimal(n) + rest;
    let at = front.len() as int;
    assert(body.subrange(at, at + key.len()) =~= key);
    assert(text::occurs_at(body, key, at));
    text::cutting_by_the_first(body, key, at);
    let tail = seq![':'] + text::decimal(n) + rest;
    assert(body.skip(at + key.len()) =~= tail);
    assert(tail[0] == ':');
    text::cutting_at_the_first(tail, ':', 0);
    let value = text::decimal(n) + rest;
    assert(tail.skip(1) =~= value);
    text::decimal_reads_back(n);
    assert(value[0] == text::decimal(n)[0]);
    assert(text::is_digit(value[0]));
    assert(text::trim_start(value) == value);
    text::leading_digits_stop(text::decimal(n), rest);
}

/// A stream tells its listeners exactly where its address has the mount that is
/// looked for and its count is a whole number.
pub proof fn streams_tell_their_listeners(entry: JsonView, url: Seq<char>, want: Seq<char>)
    requires
        member(entry, "listenurl"@) == Some(JsonView::Text(url)),
    ensures
        path_of(url) != Some(want) ==> entry_count(entry, want) is None,
        path_of(url) == Some(want) ==> (forall|n: u64|
            entry_count(entry, want) == Some(n) <==> #[trigger] member(entry, "listeners"@) == Some(
                JsonView::Number(Some(n)),
            )),
        member(entry, "listeners"@) is None ==> entry_count(entry, want) is None,
{
}

/// The count of a document is that of its only stream, or of the first that
/// fits, where it lists several; without any there is none.
pub proof fn documents_list_their_streams(doc: JsonView, stats: JsonView, mount: Seq<char>)
    requires
        member(doc, "icestats"@) == Some(stats),
    ensures
        member(stats, "source"@) is None ==> count_in(doc, mount) is None,
        member(stats, "source"@) matches Some(JsonView::Array(a)) ==> count_in(doc, mount) == first_count(
            a,
            wanted(mount),
        ),
        member(stats, "source"@) matches Some(JsonView::Array(a)) ==> (a.len() == 0 ==> count_in(
            doc,
            mount,
        ) is None),
        member(stats, "source"@) matches Some(JsonView::Object(o)) ==> count_in(doc, mount)
            == entry_count(JsonView::Object(o), wanted(mount)),
{
}

} // verus!
