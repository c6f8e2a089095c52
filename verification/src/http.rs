//! A deliberately small HTTP server: static UI and JSON endpoints, beside a
//! server-sent-events stream carrying packets, verdicts, and stats.
//! `Connection: close` everywhere except the stream.

use crate::capture::CaptureStats;
use crate::engine::{newer_verdicts, Engine, PnpEvent};
use crate::json::{array_text, object_text, str_field, Obj};
use crate::report::{
    engine_fields, engine_json, packet_fields, packets_json, status_fields, status_json,
    verdict_fields, verdicts_json,
};
use crate::ring::{newer, Packet, Ring};
use crate::text::{
    bytes_text, chars_of, decimal, find_char, first_at, has_prefix, parse_nat, parse_u64,
    push_decimal, same_text, second_word, spaces_end, split, split_text, starts_with, text_from,
    text_of, texts, word, word_end,
};
use std::sync::Arc;
use vstd::prelude::*;
use vstd::slice::slice_subrange;
use vstd::string::StringExecFns;
use vstd::utf8::encode_utf8;

verus! {

// ---------------------------------------------------------------------------
// URL decoding
// ---------------------------------------------------------------------------
/// The value of a hexadecimal digit, if the byte is one.
pub open spec fn hex_digit(b: u8) -> Option<u8> {
    if 48 <= b <= 57 {
        Some((b - 48) as u8)
    } else if 65 <= b <= 70 {
        Some((b - 55) as u8)
    } else if 97 <= b <= 102 {
        Some((b - 87) as u8)
    } else {
        None
    }
}

/// The byte that two characters behind a percent sign write: two hexadecimal
/// digits, or a plus sign and one.
pub open spec fn hex_pair(a: u8, b: u8) -> Option<u8> {
    match (hex_digit(a), hex_digit(b)) {
        (Some(h), Some(l)) => Some((h * 16 + l) as u8),
        (None, Some(l)) => if a == 43 {
            Some(l)
        } else {
            None
        },
        _ => None,
    }
}

/// A byte string with its percent escapes and plus signs decoded. A percent
/// sign that starts no escape stands for itself.
pub open spec fn url_bytes(s: Seq<u8>) -> Seq<u8>
    decreases s.len(),
{
    if s.len() == 0 {
        seq![]
    } else if s[0] == 37 {
        if s.len() >= 3 && hex_pair(s[1], s[2]) is Some {
            seq![hex_pair(s[1], s[2])->0] + url_bytes(s.skip(3))
        } else {
            seq![37u8] + url_bytes(s.skip(1))
        }
    } else if s[0] == 43 {
        seq![32u8] + url_bytes(s.skip(1))
    } else {
        seq![s[0]] + url_bytes(s.skip(1))
    }
}

/// The text that a URL-encoded text stands for.
pub open spec fn url_text(s: Seq<char>) -> Seq<char> {
    bytes_text(url_bytes(encode_utf8(s)))
}

fn hex_digit_of(b: u8) -> (r: Option<u8>)
    ensures
        r == hex_digit(b),
        r matches Some(v) ==> v < 16,
{
    if 48 <= b && b <= 57 {
        Some(b - 48)
    } else if 65 <= b && b <= 70 {
        Some(b - 55)
    } else if 97 <= b && b <= 102 {
        Some(b - 87)
    } else {
        None
    }
}

fn hex_pair_of(a: u8, b: u8) -> (r: Option<u8>)
    ensures
        r == hex_pair(a, b),
{
    match (hex_digit_of(a), hex_digit_of(b)) {
        (Some(h), Some(l)) => Some(h * 16 + l),
        (None, Some(l)) => if a == 43 {
            Some(l)
        } else {
            None
        },
        _ => None,
    }
}

/// Decodes the percent escapes and plus signs of a byte string.
pub fn url_decode_bytes(s: &[u8]) -> (out: Vec<u8>)
    ensures
        out@ == url_bytes(s@),
{
    let mut out: Vec<u8> = Vec::new();
    let mut i: usize = 0;
    assert(s@.skip(0) == s@);
    assert(s.len() == s@.len());
    while i < s.len()
        invariant
            i <= s@.len() <= usize::MAX,
            out@ + url_bytes(s@.skip(i as int)) == url_bytes(s@),
        decreases s@.len() - i,
    {
        let b = s[i];
        let ghost rest = s@.skip(i as int);
        let ghost before = out@;
        assert(rest[0] == b);
        assert(rest.skip(1) == s@.skip(i + 1));
        if b == 37 {
            if s.len() - i >= 3 {
                assert(rest[1] == s@[i + 1] && rest[2] == s@[i + 2]);
                if let Some(v) = hex_pair_of(s[i + 1], s[i + 2]) {
                    out.push(v);
                    assert(rest.skip(3) == s@.skip(i + 3));
                    assert(out@ + url_bytes(s@.skip(i + 3)) == before + (seq![v] + url_bytes(
                        rest.skip(3),
                    )));
                    i += 3;
                    continue;
                }
            }
            out.push(37);
            assert(out@ + url_bytes(s@.skip(i + 1)) == before + (seq![37u8] + url_bytes(
                rest.skip(1),
            )));
            i += 1;
        } else if b == 43 {
            out.push(32);
            assert(out@ + url_bytes(s@.skip(i + 1)) == before + (seq![32u8] + url_bytes(
                rest.skip(1),
            )));
            i += 1;
        } else {
            out.push(b);
            assert(out@ + url_bytes(s@.skip(i + 1)) == before + (seq![b] + url_bytes(
                rest.skip(1),
            )));
            i += 1;
        }
    }
    assert(s@.skip(i as int) == Seq::<u8>::empty());
    assert(out@ + Seq::<u8>::empty() == out@);
    out
}

/// Decodes a URL-encoded text.
pub fn url_decode(s: &str) -> (r: String)
    ensures
        r@ == url_text(s@),
{
    let out = url_decode_bytes(s.as_bytes());
    text_from(out.as_slice())
}

// ---------------------------------------------------------------------------
// Queries
// ---------------------------------------------------------------------------
/// What stands behind `name=` in the first piece that starts so.
pub open spec fn value_in(pieces: Seq<Seq<char>>, name: Seq<char>) -> Option<Seq<char>>
    decreases pieces.len(),
{
    if pieces.len() == 0 {
        None
    } else if starts_with(pieces[0], name + seq!['=']) {
        Some(pieces[0].skip(name.len() as int + 1))
    } else {
        value_in(pieces.skip(1), name)
    }
}

/// The number that a query gives a name: the value of the first piece with that
/// name, where it is a number of 64 bits.
pub open spec fn query_number(query: Seq<char>, name: Seq<char>) -> Option<nat> {
    match value_in(split(query, '&'), name) {
        Some(v) => parse_nat(v, u64::MAX as nat),
        None => None,
    }
}

/// The number that a query gives a name.
pub fn query_u64(query: &str, name: &str) -> (r: Option<u64>)
    ensures
        match query_number(query@, name@) {
            Some(n) => r == Some(n as u64),
            None => r is None,
        },
{
    let chars = chars_of(query);
    let parts = split_text(chars.as_slice(), '&');
    let mut prefix = String::new();
    prefix.append(name);
    prefix.push('=');
    assert(prefix@ == name@ + seq!['=']);
    let skip: usize = chars_of(prefix.as_str()).len();
    let ghost pieces = split(query@, '&');
    let mut i: usize = 0;
    assert(pieces.skip(0) == pieces);
    while i < parts.len()
        invariant
            i <= parts@.len(),
            pieces == split(query@, '&'),
            parts@.map_values(|p: Vec<char>| p@) == pieces,
            prefix@ == name@ + seq!['='],
            skip == prefix@.len(),
            value_in(pieces.skip(i as int), name@) == value_in(pieces, name@),
        decreases parts@.len() - i,
    {
        let p = parts[i].as_slice();
        assert(pieces[i as int] == p@);
        assert(pieces.skip(i as int)[0] == p@);
        assert(pieces.skip(i as int).skip(1) == pieces.skip(i + 1));
        assert(p@.skip(0) == p@);
        if has_prefix(p, 0, prefix.as_str()) {
            let v = slice_subrange(p, skip, p.len());
            assert(v@ == p@.skip(name@.len() as int + 1));
            return parse_u64(v);
        }
        i += 1;
    }
    None
}

/// A rule to write or delete, as an authoring request gives it: the segments of
/// its path relative to the Rules key, and its values as authored.
pub struct Mutation {
    pub path: Vec<String>,
    pub values: Vec<(String, String)>,
}

/// A mutation as texts.
#[verifier::ext_equal]
pub struct MutationView {
    pub path: Seq<Seq<char>>,
    pub values: Seq<(Seq<char>, Seq<char>)>,
}

/// Pairs of strings as pairs of texts.
pub open spec fn pairs(v: Seq<(String, String)>) -> Seq<(Seq<char>, Seq<char>)> {
    v.map_values(|p: (String, String)| (p.0@, p.1@))
}

impl View for Mutation {
    type V = MutationView;

    open spec fn view(&self) -> MutationView {
        MutationView { path: texts(self.path@), values: pairs(self.values@) }
    }
}

/// The pieces of a path between its slashes, without the empty ones.
pub open spec fn segments(path: Seq<char>) -> Seq<Seq<char>> {
    split(path, '/').filter(|s: Seq<char>| s.len() > 0)
}

/// A mutation after one more piece of the query: `path=` sets the path,
/// `v.<ValueName>=` adds a value, and anything else says nothing.
pub open spec fn mutation_after(m: MutationView, piece: Seq<char>) -> MutationView {
    let eq = first_at(piece, '=');
    if eq == piece.len() {
        m
    } else {
        let k = piece.take(eq);
        let v = url_text(piece.skip(eq + 1));
        if k == "path"@ {
            MutationView { path: segments(v), values: m.values }
        } else if starts_with(k, "v."@) {
            MutationView { path: m.path, values: m.values.push((url_text(k.skip(2)), v)) }
        } else {
            m
        }
    }
}

/// The mutation that the pieces of a query describe.
pub open spec fn mutation_of(pieces: Seq<Seq<char>>) -> MutationView
    decreases pieces.len(),
{
    if pieces.len() == 0 {
        MutationView { path: seq![], values: seq![] }
    } else {
        mutation_after(mutation_of(pieces.drop_last()), pieces.last())
    }
}

fn segments_of(path: &str) -> (r: Vec<String>)
    ensures
        texts(r@) == segments(path@),
{
    let chars = chars_of(path);
    let parts = split_text(chars.as_slice(), '/');
    let ghost pieces = split(path@, '/');
    let ghost full = |s: Seq<char>| s.len() > 0;
    let mut r: Vec<String> = Vec::new();
    let mut i: usize = 0;
    proof {
        reveal(Seq::filter);
        assert(pieces.take(0) == Seq::<Seq<char>>::empty());
        assert(texts(r@) == pieces.take(0).filter(full));
    }
    while i < parts.len()
        invariant
            i <= parts@.len(),
            pieces == split(path@, '/'),
            parts@.map_values(|p: Vec<char>| p@) == pieces,
            full == (|s: Seq<char>| s.len() > 0),
            texts(r@) == pieces.take(i as int).filter(full),
        decreases parts@.len() - i,
    {
        let p = parts[i].as_slice();
        let ghost before = texts(r@);
        proof {
            reveal(Seq::filter);
            assert(pieces.take(i + 1).drop_last() == pieces.take(i as int));
            assert(pieces.take(i + 1).last() == p@);
        }
        if p.len() > 0 {
            let s = text_of(p, 0, p.len());
            assert(s@ == p@);
            r.push(s);
            assert(texts(r@) == before.push(p@));
        }
        i += 1;
    }
    assert(pieces.take(i as int) == pieces);
    r
}

/// Reads an authoring request. Query shape:
///   path=Packet/no-inbound/ssh   (segments relative to the Rules key)
///   v.<ValueName>=<value>        (set only)
pub fn parse_mutation(query: &str) -> (r: Mutation)
    ensures
        r@ == mutation_of(split(query@, '&')),
{
    let chars = chars_of(query);
    let parts = split_text(chars.as_slice(), '&');
    let ghost pieces = split(query@, '&');
    let mut path: Vec<String> = Vec::new();
    let mut values: Vec<(String, String)> = Vec::new();
    let mut i: usize = 0;
    proof {
        assert(pieces.take(0) == Seq::<Seq<char>>::empty());
        assert(texts(path@) == Seq::<Seq<char>>::empty());
        assert(pairs(values@) == Seq::<(Seq<char>, Seq<char>)>::empty());
    }
    while i < parts.len()
        invariant
            i <= parts@.len(),
            pieces == split(query@, '&'),
            parts@.map_values(|p: Vec<char>| p@) == pieces,
            mutation_of(pieces.take(i as int)) == (MutationView {
                path: texts(path@),
                values: pairs(values@),
            }),
        decreases parts@.len() - i,
    {
        let p = parts[i].as_slice();
        assert(pieces.take(i + 1).drop_last() == pieces.take(i as int));
        assert(pieces.take(i + 1).last() == p@);
        i += 1;
        assert(p@.skip(0) == p@);
        let eq = find_char(p, 0, '=');
        if eq < p.len() {
            let k = slice_subrange(p, 0, eq);
            assert(k@ == p@.take(eq as int));
            assert(k@.skip(0) == k@);
            let raw = text_of(p, eq + 1, p.len());
            assert(raw@ == p@.skip(eq + 1));
            let v = url_decode(raw.as_str());
            if same_text(text_of(k, 0, k.len()).as_str(), "path") {
                path = segments_of(v.as_str());
            } else if has_prefix(k, 0, "v.") {
                proof {
                    reveal_strlit("v.");
                }
                let name = text_of(k, 2, k.len());
                assert(name@ == k@.skip(2));
                let ghost before = pairs(values@);
                values.push((url_decode(name.as_str()), v));
                assert(pairs(values@) == before.push((url_text(k@.skip(2)), v@)));
            }
        }
    }
    assert(pieces.take(i as int) == pieces);
    Mutation { path, values }
}

// ---------------------------------------------------------------------------
// Requests
// ---------------------------------------------------------------------------
/// The path that a request line asks for.
pub open spec fn path_asked(line: Seq<char>) -> Option<Seq<char>> {
    second_word(line)
}

/// The path that a request line asks for: its second word. There is none on a
/// line that is not a request.
pub fn request_path(line: &str) -> (r: Option<String>)
    ensures
        match path_asked(line@) {
            Some(path) => r matches Some(text) && text@ == path,
            None => r is None,
        },
{
    let chars = chars_of(line);
    let c = chars.as_slice();
    assert(c@.skip(0) == c@);
    let first = spaces_end(c, 0);
    let after = word_end(c, first);
    assert(c@.skip(first as int).skip(after - first) == c@.skip(after as int));
    let from = spaces_end(c, after);
    if from == c.len() {
        return None;
    }
    let to = word_end(c, from);
    Some(text_of(c, from, to))
}

/// Whether the headers of a request end with a line as read: at the end of the
/// input, or at an empty line.
pub open spec fn headers_over(read: usize, line: Seq<char>) -> bool {
    read == 0 || line == seq!['\r', '\n'] || line == seq!['\n']
}

/// Whether the headers of a request end with a line as read. Nothing in them
/// steers this server.
pub fn headers_end(read: usize, line: &str) -> (r: bool)
    ensures
        r == headers_over(read, line@),
{
    proof {
        reveal_strlit("\r\n");
        reveal_strlit("\n");
        assert("\r\n"@ == seq!['\r', '\n']);
        assert("\n"@ == seq!['\n']);
    }
    read == 0 || same_text(line, "\r\n") || same_text(line, "\n")
}

/// The part of a path before its question mark.
pub open spec fn route_part(path: Seq<char>) -> Seq<char> {
    path.take(first_at(path, '?'))
}

/// The part of a path behind its question mark; nothing where it has none.
pub open spec fn query_part(path: Seq<char>) -> Seq<char> {
    if first_at(path, '?') == path.len() {
        seq![]
    } else {
        path.skip(first_at(path, '?') + 1)
    }
}

/// Splits a path into its route and its query.
pub fn split_path(path: &str) -> (r: (String, String))
    ensures
        r.0@ == route_part(path@),
        r.1@ == query_part(path@),
{
    let chars = chars_of(path);
    let c = chars.as_slice();
    assert(c@.skip(0) == c@);
    let at = find_char(c, 0, '?');
    let route = text_of(c, 0, at);
    assert(route@ == route_part(path@));
    if at == c.len() {
        let query = String::new();
        assert(query@ == query_part(path@));
        return (route, query);
    }
    let query = text_of(c, at + 1, c.len());
    assert(query@ == query_part(path@));
    (route, query)
}

/// What a route leads to.
#[derive(Clone, Copy, PartialEq, Eq, Structural, Debug)]
pub enum Route {
    Page,
    Status,
    Engine,
    Packets,
    Verdicts,
    Counters,
    Flows,
    Policy,
    PolicySet,
    PolicyDelete,
    Stream,
    NotFound,
}

/// What a route leads to.
pub open spec fn route_named(route: Seq<char>) -> Route {
    if route == "/"@ {
        Route::Page
    } else if route == "/api/status"@ {
        Route::Status
    } else if route == "/api/engine"@ {
        Route::Engine
    } else if route == "/api/packets"@ {
        Route::Packets
    } else if route == "/api/verdicts"@ {
        Route::Verdicts
    } else if route == "/api/counters"@ {
        Route::Counters
    } else if route == "/api/flows"@ {
        Route::Flows
    } else if route == "/api/policy"@ {
        Route::Policy
    } else if route == "/api/policy/set"@ {
        Route::PolicySet
    } else if route == "/api/policy/delete"@ {
        Route::PolicyDelete
    } else if route == "/api/stream"@ {
        Route::Stream
    } else {
        Route::NotFound
    }
}

/// What a route leads to.
pub fn route_of(route: &str) -> (r: Route)
    ensures
        r == route_named(route@),
{
    if same_text(route, "/") {
        Route::Page
    } else if same_text(route, "/api/status") {
        Route::Status
    } else if same_text(route, "/api/engine") {
        Route::Engine
    } else if same_text(route, "/api/packets") {
        Route::Packets
    } else if same_text(route, "/api/verdicts") {
        Route::Verdicts
    } else if same_text(route, "/api/counters") {
        Route::Counters
    } else if same_text(route, "/api/flows") {
        Route::Flows
    } else if same_text(route, "/api/policy") {
        Route::Policy
    } else if same_text(route, "/api/policy/set") {
        Route::PolicySet
    } else if same_text(route, "/api/policy/delete") {
        Route::PolicyDelete
    } else if same_text(route, "/api/stream") {
        Route::Stream
    } else {
        Route::NotFound
    }
}

// ---------------------------------------------------------------------------
// Replies
// ---------------------------------------------------------------------------
/// A whole reply.
pub struct Reply {
    pub code: &'static str,
    pub ctype: &'static str,
    pub body: String,
}

/// A reply as texts.
#[verifier::ext_equal]
pub struct ReplyView {
    pub code: Seq<char>,
    pub ctype: Seq<char>,
    pub body: Seq<char>,
}

impl View for Reply {
    type V = ReplyView;

    open spec fn view(&self) -> ReplyView {
        ReplyView { code: self.code@, ctype: self.ctype@, body: self.body@ }
    }
}

/// A successful reply that carries JSON.
pub open spec fn json_view(body: Seq<char>) -> ReplyView {
    ReplyView { code: "200 OK"@, ctype: "application/json"@, body }
}

/// A successful reply that carries JSON.
pub fn json_reply(body: String) -> (r: Reply)
    ensures
        r@ == json_view(body@),
{
    Reply { code: "200 OK", ctype: "application/json", body }
}

/// The lines before the body of a reply.
pub open spec fn head_text(code: Seq<char>, ctype: Seq<char>, length: nat) -> Seq<char> {
    "HTTP/1.1 "@ + code + "\r\nContent-Type: "@ + ctype + "\r\nContent-Length: "@ + decimal(length)
        + "\r\nCache-Control: no-store\r\nConnection: close\r\n\r\n"@
}

/// A whole reply as it is sent.
pub open spec fn reply_text(r: ReplyView) -> Seq<char> {
    head_text(r.code, r.ctype, encode_utf8(r.body).len()) + r.body
}

/// A whole reply as it is sent: the head, with the length of the body in bytes,
/// and the body.
pub fn respond(reply: &Reply) -> (r: String)
    ensures
        r@ == reply_text(reply@),
{
    let mut r = String::new();
    r.append("HTTP/1.1 ");
    r.append(reply.code);
    r.append("\r\nContent-Type: ");
    r.append(reply.ctype);
    r.append("\r\nContent-Length: ");
    push_decimal(&mut r, reply.body.as_str().as_bytes().len() as u128);
    r.append("\r\nCache-Control: no-store\r\nConnection: close\r\n\r\n");
    assert(r@ == head_text(reply@.code, reply@.ctype, encode_utf8(reply@.body).len()));
    r.append(reply.body.as_str());
    r
}

/// The reply to an authoring request: done, or refused for a reason.
pub open spec fn mutation_view(result: Result<(), String>) -> ReplyView {
    match result {
        Ok(_) => json_view("{\"ok\":true}"@),
        Err(err) => ReplyView {
            code: "400 Bad Request"@,
            ctype: "application/json"@,
            body: object_text(seq![str_field("error"@, err@)]),
        },
    }
}

/// The reply to an authoring request.
pub fn mutation_reply(result: &Result<(), String>) -> (r: Reply)
    ensures
        r@ == mutation_view(*result),
{
    match result {
        Ok(_) => json_reply("{\"ok\":true}".to_owned()),
        Err(err) => {
            let o = Obj::new().str("error", err.as_str());
            assert(o@ == seq![str_field("error"@, err@)]);
            Reply { code: "400 Bad Request", ctype: "application/json", body: o.finish() }
        },
    }
}

/// What the daemon serves from.
pub struct Server {
    pub ring: Ring,
    pub stats: CaptureStats,
    pub engine: Engine,
}

/// What is to be done about a request.
pub enum Answer {
    /// Send this.
    Reply(Reply),
    /// Dump the engine's counters and send them.
    Counters,
    /// Dump the engine's flows and send them.
    Flows,
    /// Read the policy and send it.
    Policy,
    /// Write a rule.
    SetRule(Mutation),
    /// Delete a rule.
    DeleteRule(Mutation),
    /// Open the event stream.
    Stream,
}

/// The number behind `since=` in a query, or zero.
pub open spec fn since_in(query: Seq<char>) -> u64 {
    match query_number(query, "since"@) {
        Some(n) => n as u64,
        None => 0,
    }
}

/// The packets that a server holds from behind a sequence number on, as JSON.
pub open spec fn packets_shown(server: Server, since: u64) -> Seq<char> {
    array_text(
        newer(server.ring.held(), since).map_values(
            |p: Arc<Packet>| object_text(packet_fields(*p)),
        ),
    )
}

/// The verdicts that a server holds from behind a sequence number on, as JSON.
pub open spec fn verdicts_shown(server: Server, since: u64) -> Seq<char> {
    array_text(
        newer_verdicts(server.engine@.events, since).map_values(
            |e: PnpEvent| object_text(verdict_fields(e)),
        ),
    )
}

/// What is to be done about a request, as texts.
#[verifier::ext_equal]
pub enum AnswerView {
    Reply(ReplyView),
    Counters,
    Flows,
    Policy,
    SetRule(MutationView),
    DeleteRule(MutationView),
    Stream,
}

impl View for Answer {
    type V = AnswerView;

    open spec fn view(&self) -> AnswerView {
        match self {
            Answer::Reply(reply) => AnswerView::Reply(reply@),
            Answer::Counters => AnswerView::Counters,
            Answer::Flows => AnswerView::Flows,
            Answer::Policy => AnswerView::Policy,
            Answer::SetRule(m) => AnswerView::SetRule(m@),
            Answer::DeleteRule(m) => AnswerView::DeleteRule(m@),
            Answer::Stream => AnswerView::Stream,
        }
    }
}

/// What is to be done about a request for a path.
pub open spec fn answer_to(
    server: Server,
    path: Seq<char>,
    page: Seq<char>,
    version: Seq<char>,
    uptime_s: int,
) -> AnswerView {
    match route_named(route_part(path)) {
        Route::Page => AnswerView::Reply(
            ReplyView { code: "200 OK"@, ctype: "text/html; charset=utf-8"@, body: page },
        ),
        Route::Status => AnswerView::Reply(
            json_view(
                object_text(
                    status_fields(version, uptime_s, server.stats, server.ring.cap() as int),
                ),
            ),
        ),
        Route::Engine => AnswerView::Reply(json_view(object_text(engine_fields(server.engine@)))),
        Route::Packets => AnswerView::Reply(
            json_view(packets_shown(server, since_in(query_part(path)))),
        ),
        Route::Verdicts => AnswerView::Reply(
            json_view(verdicts_shown(server, since_in(query_part(path)))),
        ),
        Route::Counters => AnswerView::Counters,
        Route::Flows => AnswerView::Flows,
        Route::Policy => AnswerView::Policy,
        Route::PolicySet => AnswerView::SetRule(mutation_of(split(query_part(path), '&'))),
        Route::PolicyDelete => AnswerView::DeleteRule(mutation_of(split(query_part(path), '&'))),
        Route::Stream => AnswerView::Stream,
        Route::NotFound => AnswerView::Reply(
            ReplyView { code: "404 Not Found"@, ctype: "text/plain"@, body: "not found\n"@ },
        ),
    }
}

/// Decides what is to be done about a request for a path.
pub fn handle(server: &Server, path: &str, page: &str, version: &str, uptime_s: i64) -> (r: Answer)
    ensures
        r@ == answer_to(*server, path@, page@, version@, uptime_s as int),
{
    let (route, query) = split_path(path);
    match route_of(route.as_str()) {
        Route::Page => Answer::Reply(
            Reply {
                code: "200 OK",
                ctype: "text/html; charset=utf-8",
                body: page.to_owned(),
            },
        ),
        Route::Status => Answer::Reply(
            json_reply(status_json(version, uptime_s, &server.stats, &server.ring)),
        ),
        Route::Engine => Answer::Reply(json_reply(engine_json(&server.engine))),
        Route::Packets => {
            let since: u64 = query_u64(query.as_str(), "since").unwrap_or(0);
            Answer::Reply(json_reply(packets_json(server.ring.since(since).as_slice())))
        },
        Route::Verdicts => {
            let since: u64 = query_u64(query.as_str(), "since").unwrap_or(0);
            Answer::Reply(json_reply(verdicts_json(server.engine.since(since).as_slice())))
        },
        Route::Counters => Answer::Counters,
        Route::Flows => Answer::Flows,
        Route::Policy => Answer::Policy,
        Route::PolicySet => Answer::SetRule(parse_mutation(query.as_str())),
        Route::PolicyDelete => Answer::DeleteRule(parse_mutation(query.as_str())),
        Route::Stream => Answer::Stream,
        Route::NotFound => Answer::Reply(
            Reply { code: "404 Not Found", ctype: "text/plain", body: "not found\n".to_owned() },
        ),
    }
}

} // verus!
