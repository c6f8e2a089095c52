//! Texts, requests and replies.

use pnpd::capture::CaptureStats;
use pnpd::engine::{
    CountersDump, Engine, FlowsDump, PnpCounterRec, PnpEvent, PnpFlowRec, PnpStatus, EV_F_BACKSTOP,
    EV_F_FAIL_CLOSED, EV_F_REJECT_DEGRADED, EV_F_REJUDGED, VERDICT_DROP, VERDICT_PASS,
    VERDICT_REJECT,
};
use pnpd::http::{
    handle, headers_end, mutation_reply, parse_mutation, query_u64, request_path, respond, route_of,
    split_path, url_decode, url_decode_bytes, Answer, Reply, Route, Server,
};
use pnpd::json::{escape, hex, Obj};
use pnpd::log::{error, info};
use pnpd::report::{
    counters_json, engine_json, flows_json, fmt_addr, keyspec_json, packet_json, packets_json,
    sentence_json, status_json, verdict_json, verdict_name, verdicts_json,
};
use pnpd::ring::{Direction, Packet, Ring};
use pnpd::text::is_whitespace;
use std::sync::Arc;

fn packet(seq: u64) -> Packet {
    Packet {
        seq,
        ts_sec: 100,
        ts_nsec: 5,
        ifindex: 2,
        ifname: "eth0".into(),
        dir: Direction::In,
        wire_len: 3,
        data: vec![0xde, 0xad, 0xbe],
    }
}

fn server() -> Server {
    Server { ring: Ring::new(4), stats: CaptureStats::new(), engine: Engine::new(8081) }
}

fn reply(answer: Answer) -> Reply {
    match answer {
        Answer::Reply(reply) => reply,
        _ => panic!("no reply"),
    }
}

fn ask(server: &Server, path: &str) -> Answer {
    handle(server, path, "<page>", "1.2.3", 77)
}

#[test]
fn packet_json_shape() {
    let p = Packet {
        seq: 7,
        ts_sec: 100,
        ts_nsec: 5,
        ifindex: 2,
        ifname: "eth0".into(),
        dir: Direction::In,
        wire_len: 3,
        data: vec![0xde, 0xad, 0xbe],
    };
    assert_eq!(
        packet_json(&p),
        r#"{"seq":7,"ts_sec":100,"ts_nsec":5,"ifindex":2,"ifname":"eth0","dir":"in","wire_len":3,"data":"deadbe"}"#
    );
}

#[test]
fn verdict_json_shape() {
    let mut ev: PnpEvent = PnpEvent::zeroed();
    ev.seq = 9;
    ev.seat = 3;
    ev.verdict = VERDICT_DROP;
    ev.flags = EV_F_BACKSTOP;
    ev.addr_family = 4;
    ev.src_addr[..4].copy_from_slice(&[10, 0, 0, 7]);
    ev.dst_addr[..4].copy_from_slice(&[10, 0, 0, 5]);
    ev.src_port = 4444;
    ev.dst_port = 23;
    ev.attributed[..8].copy_from_slice(b"backstop");
    let j = verdict_json(&ev);
    assert!(j.contains("\"verdict\":\"drop\""));
    assert!(j.contains("\"backstop\":1"));
    assert!(j.contains("\"src\":\"10.0.0.7\""));
    assert!(j.contains("\"by\":\"backstop\""));
}

#[test]
fn url_decoding() {
    assert_eq!(url_decode("PASS%2CREPORT(3)"), "PASS,REPORT(3)");
    assert_eq!(url_decode("a+b%20c"), "a b c");
    assert_eq!(url_decode("plain"), "plain");
}

#[test]
fn objects_encode() {
    let s = Obj::new().num("a", 1u32).str("b", "x\"y").finish();
    assert_eq!(s, r#"{"a":1,"b":"x\"y"}"#);
}

#[test]
fn hex_encodes() {
    assert_eq!(hex(&[0x00, 0xff, 0x0a]), "00ff0a");
}

#[test]
fn url_decoding_leaves_broken_escapes_alone() {
    assert_eq!(url_decode("%"), "%");
    assert_eq!(url_decode("%4"), "%4");
    assert_eq!(url_decode("%4g"), "%4g");
    assert_eq!(url_decode("%zz"), "%zz");
    assert_eq!(url_decode("%%41"), "%A");
    assert_eq!(url_decode("100%25"), "100%");
    assert_eq!(url_decode("%+f"), "\u{f}");
    assert_eq!(url_decode("%2b%2B"), "++");
    assert_eq!(url_decode("%\u{e4}"), "%\u{e4}");
}

#[test]
fn url_decoding_replaces_bytes_that_are_no_text() {
    assert_eq!(url_decode("%ff"), "\u{fffd}");
    assert_eq!(url_decode("a%C3%A4b"), "a\u{e4}b");
    assert_eq!(url_decode_bytes(b"%ff+%00"), vec![0xff, 0x20, 0x00]);
}

fn percent(s: &str) -> String {
    s.bytes().map(|b| format!("%{b:02X}")).collect()
}

#[test]
fn escaped_text_decodes_back() {
    for s in ["", "PASS", "a&b=c/d %+\u{e4}\u{1f600}\0"] {
        assert_eq!(url_decode(&percent(s)), s);
        assert_eq!(url_decode(&percent(s).to_lowercase()), s);
        let mixed: String = s.bytes().map(|b| format!("%{:X}{:x}", b / 16, b % 16)).collect();
        assert_eq!(url_decode(&mixed), s);
    }
    for s in ["plain", "a&b=c/d", "\u{e4}\u{1f600}"] {
        assert_eq!(url_decode(s), s);
    }
}

#[test]
fn authoring_requests_read_back() {
    let path = ["Packet", "no&inbound", "s=h%+"];
    let values = [("Act&ions", "PASS,DROP"), ("P", ""), ("\u{e4}", "=&")];
    let mut query = format!("path={}", percent(&path.join("/")));
    for (n, v) in values {
        query.push_str(&format!("&v.{}={}", percent(n), percent(v)));
    }
    for query in [query.clone(), query.to_lowercase()] {
        let m = parse_mutation(&query);
        assert_eq!(m.path, path);
        let got: Vec<(&str, &str)> =
            m.values.iter().map(|(n, v)| (n.as_str(), v.as_str())).collect();
        assert_eq!(got, values);
    }
}

#[test]
fn authoring_requests_ignore_what_they_do_not_know() {
    let m = parse_mutation("x=1&path&v.a=b&=c&path=//Packet//r/&v.=n&V.a=z");
    assert_eq!(m.path, ["Packet", "r"]);
    assert_eq!(
        m.values,
        [("a".to_string(), "b".to_string()), ("".to_string(), "n".to_string())]
    );
    let last = parse_mutation("path=a/b&path=c");
    assert_eq!(last.path, ["c"]);
    let none = parse_mutation("");
    assert_eq!((none.path.len(), none.values.len()), (0, 0));
    let later = parse_mutation("v.x=a=b");
    assert_eq!(later.values, [("x".to_string(), "a=b".to_string())]);
}

#[test]
fn queries_give_numbers() {
    assert_eq!(query_u64("since=5", "since"), Some(5));
    assert_eq!(query_u64("a=1&since=+7&since=9", "since"), Some(7));
    assert_eq!(query_u64("sinc=5&since5", "since"), None);
    assert_eq!(query_u64("since=x&since=9", "since"), None);
    assert_eq!(query_u64("since=", "since"), None);
    assert_eq!(query_u64("since=-1", "since"), None);
    assert_eq!(query_u64("since=18446744073709551615", "since"), Some(u64::MAX));
    assert_eq!(query_u64("since=18446744073709551616", "since"), None);
    assert_eq!(query_u64("since=00018446744073709551615", "since"), Some(u64::MAX));
    assert_eq!(query_u64("", "since"), None);
    for n in [0, 1, 9, 10, 12345678901234567890u64] {
        assert_eq!(query_u64(&format!("since={n}"), "since"), Some(n));
    }
}

#[test]
fn strings_are_escaped() {
    assert_eq!(escape(""), "\"\"");
    assert_eq!(escape("a\"\\\n\r\t"), "\"a\\\"\\\\\\n\\r\\t\"");
    assert_eq!(escape("\0\u{1}\u{1f} \u{7f}"), "\"\\u0000\\u0001\\u001f \u{7f}\"");
    assert_eq!(escape("\u{e4}\u{1f600}"), "\"\u{e4}\u{1f600}\"");
}

/// The text that a JSON string at the start of a text stands for, and what
/// follows it.
fn unescape(t: &str) -> (String, String) {
    let mut chars = t.chars();
    assert_eq!(chars.next(), Some('"'));
    let mut out = String::new();
    loop {
        match chars.next().unwrap() {
            '"' => return (out, chars.collect()),
            '\\' => match chars.next().unwrap() {
                'n' => out.push('\n'),
                'r' => out.push('\r'),
                't' => out.push('\t'),
                'u' => {
                    let code: String = (&mut chars).take(4).collect();
                    out.push(char::from_u32(u32::from_str_radix(&code, 16).unwrap()).unwrap());
                }
                c => out.push(c),
            },
            c => {
                assert!(c >= ' ');
                out.push(c);
            }
        }
    }
}

#[test]
fn escaped_strings_read_back_and_end_at_their_mark() {
    let all: String = (0..0x250u32).filter_map(char::from_u32).collect();
    for s in ["", "\"", "\\", "\\\"\\", "\\u0041", all.as_str()] {
        let text = format!("{}\",x", escape(s));
        assert_eq!(unescape(&text), (s.to_string(), "\",x".to_string()));
    }
}

#[test]
fn hex_tells_bytes_apart() {
    let mut seen = Vec::new();
    for b in 0..=255u8 {
        let h = hex(&[b]);
        assert_eq!(h.len(), 2);
        assert_eq!(u8::from_str_radix(&h, 16), Ok(b));
        assert!(!seen.contains(&h));
        seen.push(h);
    }
    assert_eq!(hex(&[]), "");
}

#[test]
fn objects_hold_numbers_strings_and_raw_text() {
    assert_eq!(Obj::new().finish(), "{}");
    let s = Obj::new()
        .num("a", -1i64)
        .num("b", u64::MAX)
        .num("c", i128::MIN)
        .num("d", i128::MAX)
        .num("e", 0u8)
        .num("f", true)
        .num("g", -128i8)
        .raw("h", "[1]")
        .finish();
    assert_eq!(
        s,
        "{\"a\":-1,\"b\":18446744073709551615,\"c\":-170141183460469231731687303715884105728,\
         \"d\":170141183460469231731687303715884105727,\"e\":0,\"f\":1,\"g\":-128,\"h\":[1]}"
    );
}

#[test]
fn white_space_is_what_the_standard_says() {
    for n in 0..=0x10_ffffu32 {
        if let Some(c) = char::from_u32(n) {
            assert_eq!(is_whitespace(c), c.is_whitespace(), "{n:x}");
        }
    }
}

#[test]
fn log_lines_name_their_level() {
    assert_eq!(info("up"), "pnpd: info: up");
    assert_eq!(error("down"), "pnpd: error: down");
}

#[test]
fn addresses_have_texts() {
    let mut a = [0u8; 16];
    a[..4].copy_from_slice(&[192, 168, 0, 255]);
    assert_eq!(fmt_addr(4, &a), "192.168.0.255");
    assert_eq!(fmt_addr(0, &a), "");
    let b: [u8; 16] = [0x20, 0x01, 0x0d, 0xb8, 0, 0, 0, 0x0f, 0, 0, 0, 0, 0, 0, 0xff, 0x00];
    assert_eq!(fmt_addr(6, &b), "2001:db8:0:f:0:0:0:ff00");
}

#[test]
fn verdicts_have_names() {
    assert_eq!(verdict_name(VERDICT_PASS), "pass");
    assert_eq!(verdict_name(VERDICT_REJECT), "reject");
    assert_eq!(verdict_name(VERDICT_DROP), "drop");
    assert_eq!(verdict_name(200), "drop");
}

#[test]
fn a_verdict_is_shown_whole() {
    let mut ev = PnpEvent::zeroed();
    ev.seq = 1;
    ev.t_ns = 2;
    ev.seat = 4;
    ev.layer = 2;
    ev.verdict = VERDICT_REJECT;
    ev.reject_kind = 1;
    ev.flags = EV_F_FAIL_CLOSED | EV_F_REJECT_DEGRADED | EV_F_REJUDGED;
    ev.direction = 1;
    ev.addr_family = 4;
    ev.protocol = 6;
    ev.flow_state = 3;
    ev.ifindex = 5;
    ev.src_port = 6;
    ev.dst_port = 7;
    ev.ether_type = 2048;
    ev.length = 60;
    ev.effects = 0x0403_0201;
    ev.attributed = [b'x'; 96];
    let by = "x".repeat(96);
    assert_eq!(
        verdict_json(&ev),
        format!(
            "{{\"seq\":1,\"t_ns\":2,\"seat\":\"local-out\",\"layer\":\"Flow\",\"verdict\":\"reject\",\
             \"reject_kind\":\"Prohibited\",\"backstop\":0,\"fail_closed\":1,\"reject_degraded\":1,\
             \"rejudged\":1,\"dir\":\"out\",\"family\":4,\"protocol\":6,\"flow_state\":3,\"ifindex\":5,\
             \"src\":\"0.0.0.0\",\"dst\":\"0.0.0.0\",\"src_port\":6,\"dst_port\":7,\"ether_type\":2048,\
             \"length\":60,\"fx_tags\":1,\"fx_counts\":2,\"fx_reports\":3,\"fx_prompts\":4,\"by\":\"{by}\"}}"
        )
    );
}

#[test]
fn seats_layers_and_reject_kinds_have_names() {
    let mut ev = PnpEvent::zeroed();
    for (seat, name) in [(1, "ingress"), (2, "egress"), (3, "local-in"), (4, "local-out"), (0, "local-in")] {
        ev.seat = seat;
        assert!(verdict_json(&ev).contains(&format!("\"seat\":\"{name}\"")));
    }
    for (layer, name) in [(0, "Packet"), (1, "RawPacket"), (2, "Flow"), (9, "Packet")] {
        ev.layer = layer;
        assert!(verdict_json(&ev).contains(&format!("\"layer\":\"{name}\"")));
    }
    assert!(verdict_json(&ev).contains("\"reject_kind\":\"\""));
    ev.verdict = VERDICT_REJECT;
    assert!(verdict_json(&ev).contains("\"reject_kind\":\"Refused\""));
    assert!(verdict_json(&ev).contains("\"dir\":\"in\""));
}

#[test]
fn runs_are_shown_as_arrays() {
    assert_eq!(packets_json(&[]), "[]");
    let one = packets_json(&[Arc::new(packet(1)), Arc::new(packet(2))]);
    assert_eq!(one, format!("[{},{}]", packet_json(&packet(1)), packet_json(&packet(2))));
    assert_eq!(verdicts_json(&[]), "[]");
    let ev = PnpEvent::zeroed();
    assert_eq!(verdicts_json(&[ev, ev]), format!("[{},{}]", verdict_json(&ev), verdict_json(&ev)));
}

#[test]
fn the_status_is_shown() {
    let stats = CaptureStats { captured: 1, dropped: 2, suppressed: u64::MAX };
    assert_eq!(
        status_json("0.1.0", 3, &stats, &Ring::new(4)),
        "{\"daemon\":\"pnpd 0.1.0\",\"uptime_s\":3,\"captured\":1,\"dropped\":2,\
         \"suppressed\":18446744073709551615,\"ring_capacity\":4}"
    );
}

#[test]
fn the_engine_is_shown() {
    let mut e = Engine::new(8081);
    let mut s = PnpStatus::default();
    s.abi = 2;
    s.generation = 9;
    s.reporting_level = 4;
    s.teardowns_emitted = 8;
    e.set_status(s, true);
    let j = engine_json(&e);
    assert!(j.starts_with("{\"connected\":1,\"own_verdicts_hidden\":0,\"abi\":2,\"generation\":9,\"enforcing\":0,"));
    assert!(j.contains("\"counter_cells\":0,\"reporting_level\":4,\"seen_local_out\":0,\"flow_judged\":0,"));
    assert!(j.ends_with("\"refusals_bypassed\":0,\"teardowns_emitted\":8}"));
    assert_eq!(j.matches(':').count(), 43);
}

fn counter() -> PnpCounterRec {
    let mut name = [0u8; 64];
    name[..3].copy_from_slice(b"dns");
    let mut src = [0u8; 16];
    src[0] = 10;
    PnpCounterRec {
        name,
        hash: 1,
        keyspec: 5,
        family: 4,
        _pad0: [0; 2],
        ifindex: -1,
        src_addr: src,
        dst_addr: [0; 16],
        total: 7,
        last_secs: 8,
        n_windows: 2,
        _pad1: 0,
        window_secs: [60, 3600, 0, 0, 0, 0, 0, 0],
        window_value: [3, 4, 0, 0, 0, 0, 0, 0],
    }
}

#[test]
fn counters_are_shown() {
    let dump = CountersDump { records: vec![counter()], total_cells: 5 };
    assert_eq!(
        counters_json(&Ok(dump)),
        "{\"connected\":1,\"total_cells\":5,\"records\":[{\"name\":\"dns\",\
         \"keyspec\":[\"SrcAddr\",\"Interface\"],\"family\":4,\"ifindex\":-1,\"src\":\"10.0.0.0\",\
         \"dst\":\"0.0.0.0\",\"total\":7,\"last_secs\":8,\
         \"windows\":[{\"secs\":60,\"value\":3},{\"secs\":3600,\"value\":4}]}]}"
    );
    assert_eq!(
        counters_json(&Err("engine not connected".to_string())),
        "{\"connected\":0,\"error\":\"engine not connected\"}"
    );
    let mut full = counter();
    full.n_windows = 100;
    let j = counters_json(&Ok(CountersDump { records: vec![full], total_cells: 1 }));
    assert_eq!(j.matches("\"secs\"").count(), 8);
}

#[test]
fn keys_are_named() {
    assert_eq!(keyspec_json(0), "[]");
    assert_eq!(keyspec_json(2), "[\"DstAddr\"]");
    assert_eq!(keyspec_json(7), "[\"SrcAddr\",\"DstAddr\",\"Interface\"]");
    assert_eq!(keyspec_json(0xf8), "[]");
}

fn flow() -> PnpFlowRec {
    PnpFlowRec {
        id: 1,
        family: 4,
        protocol: 6,
        direction: 1,
        loopback: 0,
        seen_reply: 1,
        assured: 1,
        related: 0,
        judged: 1,
        ifindex: 2,
        timeout_secs: 30,
        src_addr: [1; 16],
        dst_addr: [2; 16],
        src_port: 3,
        dst_port: 4,
        icmp_type: 0,
        icmp_code: 0,
        start_secs: 9,
        packets: [10, 11],
        bytes: [12, 13],
        sentence_generation: [0, 5],
        sentence_expires_at: [0, 6],
        sentence_rule_hash: [0, 0xabc],
        sentence_verdict: [0, VERDICT_REJECT],
        sentence_reject_kind: [0, 0],
        n_tags: 1,
        tags: vec![(0xff, 21), (1, 2)],
    }
}

#[test]
fn flows_are_shown() {
    assert_eq!(
        flows_json(&Ok(FlowsDump { records: vec![flow()], total: 3 })),
        "{\"connected\":1,\"total\":3,\"records\":[{\"id\":1,\"family\":4,\"protocol\":6,\"dir\":\"out\",\
         \"loopback\":0,\"seen_reply\":1,\"assured\":1,\"related\":0,\"judged\":1,\"ifindex\":2,\
         \"timeout_secs\":30,\"src\":\"1.1.1.1\",\"dst\":\"2.2.2.2\",\"src_port\":3,\"dst_port\":4,\
         \"icmp_type\":0,\"icmp_code\":0,\"start_secs\":9,\"packets\":[10,11],\"bytes\":[12,13],\
         \"sentences\":[{\"slot\":1,\"generation\":5,\"expires_at\":6,\"rule_hash\":\"0000000000000abc\",\
         \"verdict\":\"reject\",\"reject_kind\":\"Refused\"}],\
         \"tags\":[{\"hash\":\"00000000000000ff\",\"value\":21}]}]}"
    );
    assert_eq!(
        flows_json(&Err("x".to_string())),
        "{\"connected\":0,\"error\":\"x\"}"
    );
    let mut all = flow();
    all.n_tags = 99;
    let j = flows_json(&Ok(FlowsDump { records: vec![all], total: 1 }));
    assert_eq!(j.matches("\"hash\"").count(), 2);
    assert!(sentence_json(&flow(), 0).contains("\"verdict\":\"pass\",\"reject_kind\":\"\""));
}

#[test]
fn request_lines_give_a_path() {
    assert_eq!(request_path("GET /api/status HTTP/1.1\r\n").as_deref(), Some("/api/status"));
    assert_eq!(request_path("  GET\t/x\u{a0}y").as_deref(), Some("/x"));
    assert_eq!(request_path("GET\r\n"), None);
    assert_eq!(request_path(""), None);
    assert_eq!(request_path("   "), None);
}

#[test]
fn headers_end_at_an_empty_line_or_at_the_end() {
    assert!(headers_end(2, "\r\n"));
    assert!(headers_end(1, "\n"));
    assert!(headers_end(0, ""));
    assert!(!headers_end(9, "Host: a\r\n"));
    assert!(!headers_end(3, " \r\n"));
}

#[test]
fn paths_split_at_the_first_question_mark() {
    let both = |a: &str, b: &str| (a.to_string(), b.to_string());
    assert_eq!(split_path("/a?b?c"), both("/a", "b?c"));
    assert_eq!(split_path("/a"), both("/a", ""));
    assert_eq!(split_path("?x"), both("", "x"));
    assert_eq!(split_path("/a?"), both("/a", ""));
}

#[test]
fn routes_are_told_apart() {
    let all = [
        ("/", Route::Page),
        ("/api/status", Route::Status),
        ("/api/engine", Route::Engine),
        ("/api/packets", Route::Packets),
        ("/api/verdicts", Route::Verdicts),
        ("/api/counters", Route::Counters),
        ("/api/flows", Route::Flows),
        ("/api/policy", Route::Policy),
        ("/api/policy/set", Route::PolicySet),
        ("/api/policy/delete", Route::PolicyDelete),
        ("/api/stream", Route::Stream),
        ("/api/", Route::NotFound),
        ("", Route::NotFound),
    ];
    for (path, route) in all {
        assert_eq!(route_of(path), route);
    }
}

#[test]
fn requests_are_answered() {
    let mut s = server();
    s.ring.push(packet(0));
    s.ring.push(packet(0));
    let mut ev = PnpEvent::zeroed();
    ev.seq = 4;
    s.engine.push(ev);

    let page = reply(ask(&s, "/"));
    assert_eq!((page.code, page.ctype, page.body.as_str()), ("200 OK", "text/html; charset=utf-8", "<page>"));
    let status = reply(ask(&s, "/api/status?x"));
    assert_eq!((status.code, status.ctype), ("200 OK", "application/json"));
    assert_eq!(status.body, status_json("1.2.3", 77, &s.stats, &s.ring));
    assert_eq!(reply(ask(&s, "/api/engine")).body, engine_json(&s.engine));
    let held = s.ring.since(0);
    assert_eq!(reply(ask(&s, "/api/packets")).body, packets_json(&held));
    assert_eq!(reply(ask(&s, "/api/packets?since=1")).body, packets_json(&held[1..]));
    assert_eq!(reply(ask(&s, "/api/packets?since=x")).body, packets_json(&held));
    assert_eq!(reply(ask(&s, "/api/packets?since=2")).body, "[]");
    assert_eq!(reply(ask(&s, "/api/verdicts?since=3")).body, verdicts_json(&[ev]));
    assert_eq!(reply(ask(&s, "/api/verdicts?since=4")).body, "[]");
    let none = reply(ask(&s, "/nowhere"));
    assert_eq!((none.code, none.ctype, none.body.as_str()), ("404 Not Found", "text/plain", "not found\n"));
    assert!(matches!(ask(&s, "/api/counters"), Answer::Counters));
    assert!(matches!(ask(&s, "/api/flows"), Answer::Flows));
    assert!(matches!(ask(&s, "/api/policy"), Answer::Policy));
    assert!(matches!(ask(&s, "/api/stream"), Answer::Stream));
    match ask(&s, "/api/policy/set?path=Packet/r&v.Actions=PASS") {
        Answer::SetRule(m) => {
            assert_eq!(m.path, ["Packet", "r"]);
            assert_eq!(m.values, [("Actions".to_string(), "PASS".to_string())]);
        }
        _ => panic!("not a rule to write"),
    }
    match ask(&s, "/api/policy/delete?path=Packet%2Fr") {
        Answer::DeleteRule(m) => assert_eq!(m.path, ["Packet", "r"]),
        _ => panic!("not a rule to delete"),
    }
}

#[test]
fn replies_are_sent_with_their_length_in_bytes() {
    let r = Reply { code: "200 OK", ctype: "text/plain", body: "h\u{e4}".to_string() };
    assert_eq!(
        respond(&r),
        "HTTP/1.1 200 OK\r\nContent-Type: text/plain\r\nContent-Length: 3\r\n\
         Cache-Control: no-store\r\nConnection: close\r\n\r\nh\u{e4}"
    );
}

#[test]
fn authoring_requests_are_answered() {
    let ok = mutation_reply(&Ok(()));
    assert_eq!((ok.code, ok.ctype, ok.body.as_str()), ("200 OK", "application/json", "{\"ok\":true}"));
    let refused = mutation_reply(&Err("bad \"x\"".to_string()));
    assert_eq!((refused.code, refused.ctype), ("400 Bad Request", "application/json"));
    assert_eq!(refused.body, "{\"error\":\"bad \\\"x\\\"\"}");
}
