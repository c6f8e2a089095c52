//! The event stream.

use pnpd::capture::CaptureStats;
use pnpd::engine::{Engine, PnpEvent};
use pnpd::fanout::{Received, QUEUE};
use pnpd::http::Server;
use pnpd::report::{engine_json, packet_json, status_json, verdict_json};
use pnpd::ring::{Direction, Packet, Ring};
use pnpd::stream::{stream_head, EventStream, Moment, Phase, PACKET_WAIT_MS, REPORT_EVERY};

fn packet() -> Packet {
    Packet {
        seq: 0,
        ts_sec: 100,
        ts_nsec: 5,
        ifindex: 2,
        ifname: "eth0".into(),
        dir: Direction::In,
        wire_len: 3,
        data: vec![0xde, 0xad, 0xbe],
    }
}

fn event(seq: u64) -> PnpEvent {
    let mut ev = PnpEvent::zeroed();
    ev.seq = seq;
    ev
}

fn server() -> Server {
    Server { ring: Ring::new(4), stats: CaptureStats::new(), engine: Engine::new(8081) }
}

fn at(now: u64, waited: bool) -> Moment {
    Moment { now, uptime_s: 77, waited }
}

/// A stream past its head, which went out at a time.
fn begun(server: &mut Server, now: u64) -> EventStream {
    let mut s = EventStream::open(server);
    assert_eq!(s.step(server, "1.2.3", &at(now, false)), stream_head());
    assert_eq!(s.phase, Phase::Reported);
    assert_eq!(s.step(server, "1.2.3", &at(now, false)), "");
    assert_eq!((s.phase, s.last_report), (Phase::Verdicts, now));
    s
}

/// Steps a stream until it has reported or found that no report is due.
fn one_round(s: &mut EventStream, server: &mut Server, now: u64) -> String {
    let mut text = String::new();
    loop {
        let phase = s.phase;
        text.push_str(&s.step(server, "1.2.3", &at(now, true)));
        if phase == Phase::Report || s.phase == Phase::Done {
            return text;
        }
    }
}

fn shown(name: &str, data: &str) -> String {
    format!("event: {name}\ndata: {data}\n\n")
}

fn report(server: &Server) -> String {
    shown("stats", &status_json("1.2.3", 77, &server.stats, &server.ring))
        + &shown("engine", &engine_json(&server.engine))
}

#[test]
fn the_stream_opens_with_its_head() {
    assert_eq!(
        stream_head(),
        "HTTP/1.1 200 OK\r\nContent-Type: text/event-stream\r\nCache-Control: no-store\r\n\
         Connection: keep-alive\r\n\r\n"
    );
    let mut server = server();
    let s = EventStream::open(&mut server);
    assert_eq!((s.phase, s.last_report), (Phase::Head, 0));
    begun(&mut server, 5);
    assert_eq!((PACKET_WAIT_MS, REPORT_EVERY), (150, 2_000_000_000));
}

#[test]
fn the_stream_sends_what_it_receives_in_order() {
    let mut server = server();
    let mut s = begun(&mut server, 0);
    server.engine.push(event(1));
    server.ring.push(packet());
    server.engine.push(event(2));
    server.ring.push(packet());
    let held = server.ring.since(0);
    let expected = shown("verdict", &verdict_json(&event(1)))
        + &shown("verdict", &verdict_json(&event(2)))
        + &shown("packet", &packet_json(&held[0]))
        + &shown("packet", &packet_json(&held[1]));
    assert_eq!(one_round(&mut s, &mut server, 1), expected);
    assert_eq!(s.phase, Phase::Verdicts);
    assert_eq!(one_round(&mut s, &mut server, 2), "", "each is sent once");
}

#[test]
fn verdicts_are_taken_until_none_waits() {
    let mut server = server();
    let mut s = begun(&mut server, 0);
    server.engine.push(event(1));
    server.ring.push(packet());
    assert!(s.step(&mut server, "1", &at(0, false)).starts_with("event: verdict\n"));
    assert_eq!(s.phase, Phase::Verdicts);
    server.engine.push(event(2));
    assert!(s.step(&mut server, "1", &at(0, false)).starts_with("event: verdict\n"));
    assert_eq!(s.step(&mut server, "1", &at(0, false)), "");
    assert_eq!(s.phase, Phase::FirstPacket);
    assert!(s.step(&mut server, "1", &at(0, false)).starts_with("event: packet\n"));
    assert_eq!(s.phase, Phase::MorePackets);
    assert_eq!(s.step(&mut server, "1", &at(0, false)), "");
    assert_eq!(s.phase, Phase::Report);
}

#[test]
fn the_stream_waits_for_a_first_packet_only() {
    let mut server = server();
    let mut s = begun(&mut server, 0);
    s.step(&mut server, "1", &at(0, false));
    for _ in 0..3 {
        assert_eq!(s.step(&mut server, "1", &at(0, false)), "");
        assert_eq!(s.phase, Phase::FirstPacket);
    }
    assert_eq!(s.step(&mut server, "1", &at(0, true)), "");
    assert_eq!(s.phase, Phase::Report);
}

#[test]
fn reports_come_every_two_seconds() {
    let mut server = server();
    let mut s = begun(&mut server, 1_000);
    assert_eq!(one_round(&mut s, &mut server, 1_000 + REPORT_EVERY - 1), "");
    let due = one_round(&mut s, &mut server, 1_000 + REPORT_EVERY);
    assert_eq!(due, report(&server));
    assert_eq!(s.phase, Phase::Reported);
    let out = 1_000 + REPORT_EVERY + 500;
    assert_eq!(s.step(&mut server, "1.2.3", &at(out, false)), "");
    assert_eq!(s.last_report, out, "the time counts from when it was out");
    assert_eq!(one_round(&mut s, &mut server, out + REPORT_EVERY - 1), "");
    assert_eq!(one_round(&mut s, &mut server, out + REPORT_EVERY), report(&server));
}

#[test]
fn a_clock_that_lags_behind_gives_no_report() {
    let mut server = server();
    let mut s = begun(&mut server, REPORT_EVERY);
    assert_eq!(one_round(&mut s, &mut server, 0), "");
    assert_eq!(s.phase, Phase::Verdicts);
}

#[test]
fn the_stream_ends_where_a_queue_was_cut_off() {
    let mut server = server();
    let mut s = begun(&mut server, 0);
    for seq in 1..=(QUEUE as u64 + 1) {
        server.engine.push(event(seq));
    }
    let text = one_round(&mut s, &mut server, 1);
    assert_eq!(text.matches("event: verdict\n").count(), QUEUE, "what waited still goes out");
    assert_eq!(s.phase, Phase::Done);
    assert_eq!(s.step(&mut server, "1", &at(9, true)), "");
    assert_eq!(s.phase, Phase::Done);

    let mut s = begun(&mut server, 0);
    for _ in 0..QUEUE + 1 {
        server.ring.push(packet());
    }
    let text = one_round(&mut s, &mut server, 1);
    assert_eq!(text.matches("event: packet\n").count(), QUEUE);
    assert_eq!(s.phase, Phase::Done);
}

#[test]
fn closing_leaves_both_queues() {
    let mut server = server();
    let s = begun(&mut server, 0);
    let (packets, verdicts) = (s.packets, s.verdicts);
    assert!(matches!(server.ring.recv(packets), Received::Empty));
    assert!(matches!(server.engine.recv(verdicts), Received::Empty));
    s.close(&mut server);
    assert!(matches!(server.ring.recv(packets), Received::Disconnected));
    assert!(matches!(server.engine.recv(verdicts), Received::Disconnected));
}

#[test]
fn a_client_reads_the_events_and_nothing_else() {
    let mut server = server();
    let mut s = begun(&mut server, 0);
    let mut p = packet();
    p.ifname = "a\n\nevent: x\r\n\u{1}".to_string();
    server.ring.push(p);
    let mut ev = event(1);
    ev.attributed[..4].copy_from_slice(b"\n\n\r\n");
    server.engine.push(ev);
    let text = one_round(&mut s, &mut server, REPORT_EVERY);
    assert!(!text.contains('\r'));
    let frames: Vec<&str> = text.split_terminator("\n\n").collect();
    let names: Vec<&str> = frames.iter().map(|f| f.lines().next().unwrap()).collect();
    assert_eq!(names, ["event: verdict", "event: packet", "event: stats", "event: engine"]);
    for frame in frames {
        let lines: Vec<&str> = frame.split('\n').collect();
        assert_eq!(lines.len(), 2);
        assert!(lines[1].starts_with("data: {") && lines[1].ends_with('}'));
    }
}
