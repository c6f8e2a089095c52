//! What requests and replies promise: a request leads where its line says, and a
//! reply reads back line by line.

use crate::engine::{newer_verdicts, PnpEvent};
use crate::http::{
    answer_to, head_text, headers_over, hex_digit, mutation_of, mutation_view, packets_shown,
    path_asked, query_number, query_part, reply_text, route_named, route_part, segments, since_in,
    url_bytes, value_in, verdicts_shown, AnswerView, ReplyView, Route, Server,
};
use crate::json::{object_text, str_field};
use crate::json_read::{
    closes, elements, law_arrays_read_back, law_objects_read_back, lemma_plain_closes,
    lemma_string_value, members, says_text, whole,
};
use crate::report::{engine_fields, packet_fields, status_fields, verdict_fields};
use crate::ring::{newer, Packet};
use crate::shown_laws::{lemma_packet_reads_back, lemma_verdict_reads_back};
use crate::text::{
    decimal, is_space, join, law_decimals_read_back, law_join_splits_back, lemma_decimal_value,
    lemma_first_at_behind, lemma_first_at_contains, parse_nat, split, starts_with,
};
use crate::text_laws::{law_second_words, solid};
use std::sync::Arc;
use vstd::prelude::*;
use vstd::utf8::encode_utf8;

verus! {

// ---------------------------------------------------------------------------
// Decoding
// ---------------------------------------------------------------------------
/// A byte is a hexadecimal digit of a value exactly where it is that digit, in
/// lowercase or in uppercase.
pub proof fn law_hex_digits_by_value(b: u8, v: u8)
    ensures
        hex_digit(b) == Some(v) <==> {
            ||| v < 10 && b == '0' as u8 + v
            ||| 10 <= v < 16 && (b == 'a' as u8 + v - 10 || b == 'A' as u8 + v - 10)
        },
{
}

/// Decoding goes from left to right: a percent sign and two hexadecimal digits
/// are one byte, a plus sign is a space, and every other byte stands for itself,
/// a percent sign that starts no escape too.
pub proof fn law_decoding_goes_byte_by_byte(b: u8, h: u8, l: u8, hi: u8, lo: u8, rest: Seq<u8>)
    requires
        hex_digit(h) == Some(hi),
        hex_digit(l) == Some(lo),
    ensures
        url_bytes(seq![]) == Seq::<u8>::empty(),
        url_bytes(seq!['%' as u8, h, l] + rest) == seq![(16 * hi + lo) as u8] + url_bytes(rest),
        url_bytes(seq!['+' as u8] + rest) == seq![' ' as u8] + url_bytes(rest),
        b != '%' as u8 && b != '+' as u8 ==> url_bytes(seq![b] + rest) == seq![b] + url_bytes(rest),
        rest.len() < 2 || hex_digit(rest[1]) is None || (hex_digit(rest[0]) is None && rest[0]
            != '+' as u8) ==> url_bytes(seq!['%' as u8] + rest) == seq!['%' as u8] + url_bytes(rest),
{
    let s = seq!['%' as u8, h, l] + rest;
    assert(s[0] == 37 && s[1] == h && s[2] == l);
    assert(s.skip(3) == rest);
    lemma_hex_range(h);
    lemma_hex_range(l);
    assert((seq!['+' as u8] + rest).skip(1) == rest);
    assert((seq![b] + rest).skip(1) == rest);
    assert((seq![b] + rest)[0] == b);
    let t = seq!['%' as u8] + rest;
    assert(t.skip(1) == rest);
    assert(t[0] == 37);
    if rest.len() >= 2 {
        assert(t[1] == rest[0] && t[2] == rest[1]);
    }
}

proof fn lemma_hex_range(b: u8)
    ensures
        hex_digit(b) matches Some(v) ==> v < 16,
{
}

// ---------------------------------------------------------------------------
// Queries
// ---------------------------------------------------------------------------
/// A query gives a name the number behind the first piece that starts with the
/// name and an equals sign; and none where no piece does.
pub proof fn law_first_piece_of_a_name_counts(pieces: Seq<Seq<char>>, name: Seq<char>, i: int)
    requires
        pieces.len() > 0,
        0 <= i <= pieces.len(),
        forall|k: int| 0 <= k < pieces.len() ==> !(#[trigger] pieces[k]).contains('&'),
        forall|k: int| 0 <= k < i ==> !starts_with(#[trigger] pieces[k], name + seq!['=']),
        i < pieces.len() ==> starts_with(pieces[i], name + seq!['=']),
    ensures
        i < pieces.len() ==> query_number(join(pieces, seq!['&']), name) == parse_nat(
            pieces[i].skip(name.len() as int + 1),
            0xffff_ffff_ffff_ffff,
        ),
        i == pieces.len() ==> query_number(join(pieces, seq!['&']), name) is None,
{
    law_join_splits_back(pieces, '&');
    lemma_value_in(pieces, name, i);
}

proof fn lemma_value_in(pieces: Seq<Seq<char>>, name: Seq<char>, i: int)
    requires
        0 <= i <= pieces.len(),
        forall|k: int| 0 <= k < i ==> !starts_with(#[trigger] pieces[k], name + seq!['=']),
        i < pieces.len() ==> starts_with(pieces[i], name + seq!['=']),
    ensures
        value_in(pieces, name) == if i < pieces.len() {
            Some(pieces[i].skip(name.len() as int + 1))
        } else {
            None
        },
    decreases pieces.len(),
{
    if i > 0 {
        let rest = pieces.skip(1);
        assert(!starts_with(pieces[0], name + seq!['=']));
        assert forall|k: int| 0 <= k < i - 1 implies !starts_with(
            #[trigger] rest[k],
            name + seq!['='],
        ) by {
            assert(rest[k] == pieces[k + 1]);
        }
        lemma_value_in(rest, name, i - 1);
    }
}

/// A query that gives `since` a number is answered from that number on, and one
/// that does not, from the start.
pub proof fn law_since_comes_from_the_query(n: u64, query: Seq<char>)
    ensures
        since_in("since="@ + decimal(n as nat)) == n,
        query_number(query, "since"@) is None ==> since_in(query) == 0,
        query_number(query, "since"@) matches Some(k) ==> since_in(query) == k,
{
    reveal_strlit("since=");
    reveal_strlit("since");
    let d = decimal(n as nat);
    let piece = "since="@ + d;
    lemma_decimal_value(n as nat);
    law_decimals_read_back(n as nat, u64::MAX as nat);
    assert(piece.take(6) == "since"@ + seq!['=']);
    assert(piece.skip(6) == d);
    assert(!piece.contains('&')) by {
        assert forall|i: int| 0 <= i < piece.len() implies #[trigger] piece[i] != '&' by {
            if i >= 6 {
                assert(piece[i] == d[i - 6]);
            }
        }
    }
    law_first_piece_of_a_name_counts(seq![piece], "since"@, 0);
    assert(join(seq![piece], seq!['&']) == piece);
    lemma_query_number_bound(query, "since"@);
}

proof fn lemma_query_number_bound(query: Seq<char>, name: Seq<char>)
    ensures
        query_number(query, name) matches Some(k) ==> k <= u64::MAX,
{
}

/// A path's segments are what stands between its slashes, empty ones left out:
/// more slashes between, before or behind them make no difference.
pub proof fn law_slashes_only_separate(a: Seq<char>, b: Seq<char>, seg: Seq<char>)
    requires
        !seg.contains('/'),
    ensures
        segments(a + seq!['/'] + b) == segments(a) + segments(b),
        segments(seg) == if seg.len() > 0 {
            seq![seg]
        } else {
            seq![]
        },
{
    broadcast use vstd::seq_lib::group_filter_ensures;

    let full = |s: Seq<char>| s.len() > 0;
    lemma_split_sum(a, b, '/');
    lemma_filter_sum(split(a, '/'), split(b, '/'), full);
    law_join_splits_back(seq![seg], '/');
    assert(join(seq![seg], seq!['/']) == seg);
    reveal(Seq::filter);
    assert(seq![seg].drop_last() == Seq::<Seq<char>>::empty());
    assert(Seq::<Seq<char>>::empty().filter(full) == Seq::<Seq<char>>::empty());
    assert(seq![seg].filter(full) == if seg.len() > 0 {
        seq![seg]
    } else {
        seq![]
    });
}

/// A separator between two texts separates their pieces.
pub proof fn lemma_split_sum(a: Seq<char>, b: Seq<char>, sep: char)
    ensures
        split(a + seq![sep] + b, sep) == split(a, sep) + split(b, sep),
    decreases b.len(),
{
    let s = a + seq![sep] + b;
    if b.len() > 0 {
        let t = b.drop_last();
        lemma_split_sum(a, t, sep);
        crate::text::lemma_split_nonempty(t, sep);
        assert(s.drop_last() == a + seq![sep] + t);
        assert(s.last() == b.last());
        let before = split(a, sep) + split(t, sep);
        assert(before.last() == split(t, sep).last());
        assert(before.drop_last() == split(a, sep) + split(t, sep).drop_last());
        assert(split(s, sep) == split(a, sep) + split(b, sep));
    } else {
        assert(s.drop_last() == a);
        assert(split(b, sep) == seq![Seq::<char>::empty()]);
        assert(split(s, sep) == split(a, sep) + split(b, sep));
    }
}

proof fn lemma_filter_sum<A>(a: Seq<A>, b: Seq<A>, p: spec_fn(A) -> bool)
    ensures
        (a + b).filter(p) == a.filter(p) + b.filter(p),
    decreases b.len(),
{
    reveal(Seq::filter);
    if b.len() > 0 {
        lemma_filter_sum(a, b.drop_last(), p);
        assert((a + b).drop_last() == a + b.drop_last());
        assert((a + b).last() == b.last());
        assert((a + b).filter(p) == a.filter(p) + b.filter(p));
    } else {
        assert(a + b == a);
        assert(b.filter(p) == Seq::<A>::empty());
        assert(a.filter(p) + b.filter(p) == a.filter(p));
    }
}

// ---------------------------------------------------------------------------
// Requests
// ---------------------------------------------------------------------------
/// The route of a request is what stands before the first question mark, and the
/// query all that stands behind it.
pub proof fn law_the_first_question_mark_separates(route: Seq<char>, query: Seq<char>)
    requires
        !route.contains('?'),
    ensures
        route_part(route + seq!['?'] + query) == route,
        query_part(route + seq!['?'] + query) == query,
        route_part(route) == route,
        query_part(route) == Seq::<char>::empty(),
{
    let path = route + seq!['?'] + query;
    lemma_first_at_behind(route, '?', query);
    lemma_first_at_contains(route, '?');
    assert(path.take(route.len() as int) == route);
    assert(path.skip((route.len() + 1) as int) == query);
    assert(route.take(route.len() as int) == route);
}

/// The headers of a request end at the end of the input or at an empty line, and
/// nowhere else.
pub proof fn law_headers_end_at_an_empty_line(read: usize, line: Seq<char>)
    ensures
        headers_over(read, line) <==> read == 0 || (line.len() == 1 && line[0] == '\n') || (
        line.len() == 2 && line[0] == '\r' && line[1] == '\n'),
{
    if line.len() == 1 && line[0] == '\n' {
        assert(line == seq!['\n']);
    }
    if line.len() == 2 && line[0] == '\r' && line[1] == '\n' {
        assert(line == seq!['\r', '\n']);
    }
}

/// Each route leads to one thing, and each thing is reached by one route; every
/// other route leads nowhere.
pub proof fn law_routes_by_name(route: Seq<char>)
    ensures
        route_named(route) == Route::Page <==> route == "/"@,
        route_named(route) == Route::Status <==> route == "/api/status"@,
        route_named(route) == Route::Engine <==> route == "/api/engine"@,
        route_named(route) == Route::Packets <==> route == "/api/packets"@,
        route_named(route) == Route::Verdicts <==> route == "/api/verdicts"@,
        route_named(route) == Route::Counters <==> route == "/api/counters"@,
        route_named(route) == Route::Flows <==> route == "/api/flows"@,
        route_named(route) == Route::Policy <==> route == "/api/policy"@,
        route_named(route) == Route::PolicySet <==> route == "/api/policy/set"@,
        route_named(route) == Route::PolicyDelete <==> route == "/api/policy/delete"@,
        route_named(route) == Route::Stream <==> route == "/api/stream"@,
{
    reveal_strlit("/");
    reveal_strlit("/api/status");
    reveal_strlit("/api/engine");
    reveal_strlit("/api/packets");
    reveal_strlit("/api/verdicts");
    reveal_strlit("/api/counters");
    reveal_strlit("/api/flows");
    reveal_strlit("/api/policy");
    reveal_strlit("/api/policy/set");
    reveal_strlit("/api/policy/delete");
    reveal_strlit("/api/stream");
    let names = (
        "/"@,
        "/api/status"@,
        "/api/engine"@,
        "/api/packets"@,
        "/api/verdicts"@,
        "/api/counters"@,
        "/api/flows"@,
        "/api/policy"@,
        "/api/policy/set"@,
        "/api/policy/delete"@,
        "/api/stream"@,
    );
    assert(names.0.len() == 1 && names.1.len() == 11 && names.2.len() == 11 && names.3.len() == 12
        && names.4.len() == 13 && names.5.len() == 13 && names.6.len() == 10 && names.7.len() == 11
        && names.8.len() == 15 && names.9.len() == 18 && names.10.len() == 11);
    assert(names.1[5] == 's' && names.2[5] == 'e' && names.7[5] == 'p' && names.10[5] == 's');
    assert(names.1[7] == 'a' && names.10[7] == 'r');
    assert(names.4[5] == 'v' && names.5[5] == 'c');
}

// ---------------------------------------------------------------------------
// Replies
// ---------------------------------------------------------------------------
/// The head of a reply, line by line: what came of the request, what the body
/// is, how long it is, that it is not to be stored and that the connection is
/// closed; and an empty line.
pub proof fn law_heads_read_line_by_line(code: Seq<char>, ctype: Seq<char>, length: nat)
    requires
        !code.contains('\n'),
        !ctype.contains('\n'),
    ensures
        ({
            let lines = split(head_text(code, ctype, length), '\n');
            &&& lines.len() == 7
            &&& lines[0] == "HTTP/1.1 "@ + code + seq!['\r']
            &&& lines[1] == "Content-Type: "@ + ctype + seq!['\r']
            &&& starts_with(lines[2], "Content-Length: "@)
            &&& lines[2].last() == '\r'
            &&& parse_nat(lines[2].subrange(16, lines[2].len() - 1), length) == Some(length)
            &&& lines[3] == "Cache-Control: no-store"@ + seq!['\r']
            &&& lines[4] == "Connection: close"@ + seq!['\r']
            &&& lines[5] == seq!['\r']
            &&& lines[6].len() == 0
        }),
{
    let d = decimal(length);
    lemma_decimal_value(length);
    law_decimals_read_back(length, length);
    let (a, b, c, e, f) = (
        "HTTP/1.1 "@ + code + seq!['\r'],
        "Content-Type: "@ + ctype + seq!['\r'],
        "Content-Length: "@ + d + seq!['\r'],
        "Cache-Control: no-store"@ + seq!['\r'],
        "Connection: close"@ + seq!['\r'],
    );
    let lines = seq![a, b, c, e, f, seq!['\r'], seq![]];
    lemma_head_lines(code, ctype, d);
    assert(!a.contains('\n')) by {
        reveal_strlit("HTTP/1.1 ");
        lemma_no_newline("HTTP/1.1 "@, code);
    }
    assert(!b.contains('\n')) by {
        reveal_strlit("Content-Type: ");
        lemma_no_newline("Content-Type: "@, ctype);
    }
    assert(!c.contains('\n')) by {
        reveal_strlit("Content-Length: ");
        lemma_no_newline("Content-Length: "@, d);
    }
    assert(!e.contains('\n')) by {
        reveal_strlit("Cache-Control: no-store");
        lemma_no_newline("Cache-Control: no-store"@, seq![]);
        assert("Cache-Control: no-store"@ + Seq::<char>::empty() == "Cache-Control: no-store"@);
    }
    assert(!f.contains('\n')) by {
        reveal_strlit("Connection: close");
        lemma_no_newline("Connection: close"@, seq![]);
        assert("Connection: close"@ + Seq::<char>::empty() == "Connection: close"@);
    }
    assert forall|i: int| 0 <= i < lines.len() implies !(#[trigger] lines[i]).contains('\n') by {
        if i == 5 {
            assert(!seq!['\r'].contains('\n'));
        } else if i == 6 {
            assert(!Seq::<char>::empty().contains('\n'));
        }
    }
    law_join_splits_back(lines, '\n');
    assert("Content-Length: "@.len() == 16) by {
        reveal_strlit("Content-Length: ");
    }
    assert(c.take(16) == "Content-Length: "@);
    assert(c.subrange(16, c.len() - 1) == d);
}

proof fn lemma_no_newline(a: Seq<char>, b: Seq<char>)
    requires
        !a.contains('\n'),
        !b.contains('\n'),
    ensures
        !(a + b + seq!['\r']).contains('\n'),
{
    let s = a + b + seq!['\r'];
    if s.contains('\n') {
        let i = s.index_of('\n');
        if i < a.len() {
            assert(a[i] == '\n');
        } else if i < a.len() + b.len() {
            assert(b[i - a.len()] == '\n');
        }
    }
}

proof fn lemma_head_lines(code: Seq<char>, ctype: Seq<char>, d: Seq<char>)
    ensures
        join(
            seq![
                "HTTP/1.1 "@ + code + seq!['\r'],
                "Content-Type: "@ + ctype + seq!['\r'],
                "Content-Length: "@ + d + seq!['\r'],
                "Cache-Control: no-store"@ + seq!['\r'],
                "Connection: close"@ + seq!['\r'],
                seq!['\r'],
                seq![],
            ],
            seq!['\n'],
        ) == "HTTP/1.1 "@ + code + "\r\nContent-Type: "@ + ctype + "\r\nContent-Length: "@ + d
            + "\r\nCache-Control: no-store\r\nConnection: close\r\n\r\n"@,
{
    let (h, t, l, s, k) = (
        "HTTP/1.1 "@,
        "Content-Type: "@,
        "Content-Length: "@,
        "Cache-Control: no-store"@,
        "Connection: close"@,
    );
    let nl = seq!['\n'];
    let cr = seq!['\r'];
    let crlf = seq!['\r', '\n'];
    let lines = seq![h + code + cr, t + ctype + cr, l + d + cr, s + cr, k + cr, cr, seq![]];
    assert("\r\nContent-Type: "@ == crlf + t) by {
        reveal_strlit("\r\nContent-Type: ");
        reveal_strlit("Content-Type: ");
    }
    assert("\r\nContent-Length: "@ == crlf + l) by {
        reveal_strlit("\r\nContent-Length: ");
        reveal_strlit("Content-Length: ");
    }
    assert("\r\nCache-Control: no-store\r\nConnection: close\r\n\r\n"@ == crlf + s + crlf + k + crlf
        + crlf) by {
        reveal_strlit("\r\nCache-Control: no-store\r\nConnection: close\r\n\r\n");
        reveal_strlit("Cache-Control: no-store");
        reveal_strlit("Connection: close");
    }
    lemma_join_seven(lines, nl);
    lemma_head_pieces(h, code, t, ctype, l, d, s, k);
}

proof fn lemma_join_seven(p: Seq<Seq<char>>, sep: Seq<char>)
    requires
        p.len() == 7,
    ensures
        join(p, sep) == p[0] + sep + p[1] + sep + p[2] + sep + p[3] + sep + p[4] + sep + p[5] + sep
            + p[6],
{
    let p6 = p.drop_last();
    let p5 = p6.drop_last();
    let p4 = p5.drop_last();
    let p3 = p4.drop_last();
    let p2 = p3.drop_last();
    assert(join(p2.drop_last(), sep) == p[0]);
    assert(join(p2, sep) == p[0] + sep + p[1]);
    assert(join(p3, sep) == p[0] + sep + p[1] + sep + p[2]);
    assert(join(p4, sep) == p[0] + sep + p[1] + sep + p[2] + sep + p[3]);
    assert(join(p5, sep) == p[0] + sep + p[1] + sep + p[2] + sep + p[3] + sep + p[4]);
    assert(join(p6, sep) == p[0] + sep + p[1] + sep + p[2] + sep + p[3] + sep + p[4] + sep + p[5]);
}

proof fn lemma_head_pieces(
    h: Seq<char>,
    code: Seq<char>,
    t: Seq<char>,
    ctype: Seq<char>,
    l: Seq<char>,
    d: Seq<char>,
    s: Seq<char>,
    k: Seq<char>,
)
    ensures
        ({
            let nl = seq!['\n'];
            let cr = seq!['\r'];
            let crlf = seq!['\r', '\n'];
            (h + code + cr) + nl + (t + ctype + cr) + nl + (l + d + cr) + nl + (s + cr) + nl + (k
                + cr) + nl + cr + nl + Seq::<char>::empty() == h + code + (crlf + t) + ctype + (crlf
                + l) + d + (crlf + s + crlf + k + crlf + crlf)
        }),
{
}

/// The reply to an authoring request: done, with nothing else; or refused, and
/// the body gives the reason back.
pub proof fn law_authoring_replies_read_back(result: Result<(), String>)
    ensures
        mutation_view(result).ctype == "application/json"@,
        result is Ok <==> mutation_view(result).code == "200 OK"@,
        result is Err <==> mutation_view(result).code == "400 Bad Request"@,
        result is Ok ==> mutation_view(result).body == "{\"ok\":true}"@,
        result matches Err(why) ==> {
            let m = members(mutation_view(result).body);
            m.len() == 1 && says_text(m[0], "error"@, why@)
        },
{
    reveal_strlit("200 OK");
    reveal_strlit("400 Bad Request");
    assert("200 OK"@.len() != "400 Bad Request"@.len());
    if let Err(why) = result {
        assert(closes("error"@)) by {
            reveal_strlit("error");
            lemma_plain_closes("error"@);
        }
        lemma_string_value(why@);
        let f = seq![str_field("error"@, why@)];
        assert(closes(f[0].key) && whole(f[0].value));
        law_objects_read_back(f);
    }
}

/// What a reply with JSON says of itself.
pub open spec fn answers_json(a: AnswerView, body: Seq<char>) -> bool {
    a matches AnswerView::Reply(r) && r.code == "200 OK"@ && r.ctype == "application/json"@
        && r.body == body
}

/// Every request is answered by what its route names and nothing else: the page
/// as it is, the state of the daemon and of the engine, the packets and verdicts
/// after the number that the query gives, what only the engine or the registry
/// can tell, an edit as the query describes it, the event stream; and any other
/// route is not found.
pub proof fn law_requests_are_answered_by_their_route(
    server: Server,
    route: Seq<char>,
    query: Seq<char>,
    page: Seq<char>,
    version: Seq<char>,
    uptime_s: int,
)
    requires
        !route.contains('?'),
    ensures
        ({
            let a = answer_to(server, route + seq!['?'] + query, page, version, uptime_s);
            let since = since_in(query);
            let edit = mutation_of(split(query, '&'));
            &&& route == "/"@ ==> a == AnswerView::Reply(
                (ReplyView { code: "200 OK"@, ctype: "text/html; charset=utf-8"@, body: page }),
            )
            &&& route == "/api/status"@ ==> answers_json(
                a,
                object_text(
                    status_fields(version, uptime_s, server.stats, server.ring.cap() as int),
                ),
            )
            &&& route == "/api/engine"@ ==> answers_json(
                a,
                object_text(engine_fields(server.engine@)),
            )
            &&& route == "/api/packets"@ ==> answers_json(a, packets_shown(server, since))
            &&& route == "/api/verdicts"@ ==> answers_json(a, verdicts_shown(server, since))
            &&& route == "/api/counters"@ <==> a == AnswerView::Counters
            &&& route == "/api/flows"@ <==> a == AnswerView::Flows
            &&& route == "/api/policy"@ <==> a == AnswerView::Policy
            &&& route == "/api/policy/set"@ <==> a is SetRule
            &&& route == "/api/policy/set"@ ==> a == AnswerView::SetRule(edit)
            &&& route == "/api/policy/delete"@ <==> a is DeleteRule
            &&& route == "/api/policy/delete"@ ==> a == AnswerView::DeleteRule(edit)
            &&& route == "/api/stream"@ <==> a == AnswerView::Stream
            &&& route != "/"@ && route != "/api/status"@ && route != "/api/engine"@ && route
                != "/api/packets"@ && route != "/api/verdicts"@ && a is Reply ==> a
                == AnswerView::Reply(
                (ReplyView { code: "404 Not Found"@, ctype: "text/plain"@, body: "not found\n"@ }),
            )
        }),
        answer_to(server, route, page, version, uptime_s) == answer_to(
            server,
            route + seq!['?'],
            page,
            version,
            uptime_s,
        ),
{
    law_the_first_question_mark_separates(route, query);
    law_the_first_question_mark_separates(route, seq![]);
    assert(route + seq!['?'] + Seq::<char>::empty() == route + seq!['?']);
    law_routes_by_name(route);
}

/// What is shown after a number: one more packet is shown behind the others
/// exactly where its number is greater, and nothing else decides.
pub proof fn law_newer_packets_are_shown(held: Seq<Arc<Packet>>, p: Arc<Packet>, since: u64)
    ensures
        newer(held.push(p), since) == if p.seq > since {
            newer(held, since).push(p)
        } else {
            newer(held, since)
        },
        newer(seq![], since) == Seq::<Arc<Packet>>::empty(),
        forall|i: int| 0 <= i < newer(held, since).len() ==> newer(held, since)[i].seq > since,
{
    broadcast use vstd::seq_lib::group_filter_ensures;

    reveal(Seq::filter);
    assert(held.push(p).drop_last() == held);
}

/// What is shown after a number: one more verdict is shown behind the others
/// exactly where its number is greater, and nothing else decides.
pub proof fn law_newer_verdicts_are_shown(held: Seq<PnpEvent>, e: PnpEvent, since: u64)
    ensures
        newer_verdicts(held.push(e), since) == if e.seq > since {
            newer_verdicts(held, since).push(e)
        } else {
            newer_verdicts(held, since)
        },
        newer_verdicts(seq![], since) == Seq::<PnpEvent>::empty(),
        forall|i: int|
            0 <= i < newer_verdicts(held, since).len() ==> newer_verdicts(held, since)[i].seq
                > since,
{
    broadcast use vstd::seq_lib::group_filter_ensures;

    reveal(Seq::filter);
    assert(held.push(e).drop_last() == held);
}

/// The list of packets gives back, each as a text of its own, the packets that
/// the server holds from behind the number on.
pub proof fn law_shown_packets_are_the_newer_ones(server: Server, since: u64)
    ensures
        elements(packets_shown(server, since)) == newer(server.ring.held(), since).map_values(
            |p: Arc<Packet>| object_text(packet_fields(*p)),
        ),
{
    let shown = newer(server.ring.held(), since).map_values(
        |p: Arc<Packet>| object_text(packet_fields(*p)),
    );
    assert forall|i: int| 0 <= i < shown.len() implies whole(#[trigger] shown[i]) && shown[i].len()
        > 0 by {
        lemma_packet_reads_back(packet_in(newer(server.ring.held(), since)[i]));
    }
    law_arrays_read_back(shown);
}

spec fn packet_in(p: Arc<Packet>) -> Packet {
    *p
}

/// The list of verdicts gives back, each as a text of its own, the verdicts that
/// the server holds from behind the number on.
pub proof fn law_shown_verdicts_are_the_newer_ones(server: Server, since: u64)
    ensures
        elements(verdicts_shown(server, since)) == newer_verdicts(
            server.engine@.events,
            since,
        ).map_values(|e: PnpEvent| object_text(verdict_fields(e))),
{
    let shown = newer_verdicts(server.engine@.events, since).map_values(
        |e: PnpEvent| object_text(verdict_fields(e)),
    );
    assert forall|i: int| 0 <= i < shown.len() implies whole(#[trigger] shown[i]) && shown[i].len()
        > 0 by {
        lemma_verdict_reads_back(newer_verdicts(server.engine@.events, since)[i]);
    }
    law_arrays_read_back(shown);
}

/// A reply is its head and its body as it is; and the head gives the length of
/// the body in bytes.
pub proof fn law_replies_end_with_their_body(r: ReplyView)
    requires
        !r.code.contains('\n'),
        !r.ctype.contains('\n'),
    ensures
        ({
            let t = reply_text(r);
            let n = t.len() - r.body.len();
            let lines = split(t.take(n), '\n');
            &&& n > 0
            &&& t.skip(n) == r.body
            &&& lines.len() == 7
            &&& lines[0] == "HTTP/1.1 "@ + r.code + seq!['\r']
            &&& lines[1] == "Content-Type: "@ + r.ctype + seq!['\r']
            &&& parse_nat(
                lines[2].subrange(16, lines[2].len() - 1),
                encode_utf8(r.body).len(),
            ) == Some(encode_utf8(r.body).len())
            &&& lines[5] == seq!['\r']
            &&& lines[6].len() == 0
        }),
{
    let head = head_text(r.code, r.ctype, encode_utf8(r.body).len());
    let t = reply_text(r);
    law_heads_read_line_by_line(r.code, r.ctype, encode_utf8(r.body).len());
    assert(t.take(head.len() as int) == head);
    assert(t.skip(head.len() as int) == r.body);
    assert(head.len() > 0) by {
        reveal_strlit("HTTP/1.1 ");
    }
}

/// A percent sign, a plus sign and one hexadecimal digit are one byte too: the
/// sign of the number counts for nothing.
pub proof fn law_signed_escapes(l: u8, lo: u8, rest: Seq<u8>)
    requires
        hex_digit(l) == Some(lo),
    ensures
        url_bytes(seq!['%' as u8, '+' as u8, l] + rest) == seq![lo] + url_bytes(rest),
{
    let s = seq!['%' as u8, '+' as u8, l] + rest;
    assert(s[0] == 37 && s[1] == 43 && s[2] == l);
    assert(s.skip(3) == rest);
}

/// A request line asks for its second word: what stands behind the method and
/// before the next white space.
pub proof fn law_request_lines_ask_for_a_path(method: Seq<char>, path: Seq<char>, rest: Seq<char>)
    requires
        solid(method),
        method.len() > 0,
        solid(path),
        path.len() > 0,
        rest.len() > 0 ==> is_space(rest[0]),
    ensures
        path_asked(method + seq![' '] + path + rest) == Some(path),
        path_asked(method) is None,
        path_asked(method + seq![' ']) is None,
{
    let none = Seq::<char>::empty();
    law_second_words(none, method, seq![' '], path, rest);
    assert(none + method == method);
}

} // verus!
