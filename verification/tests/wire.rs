//! The tap, the ring and the fan-out.

use pnpd::capture::{
    after_receive, direction_of, frame_of, is_own_flow, packet_of, take_frame, Arrival, Capture,
    CaptureStats, ReceiveStep, PACKET_BROADCAST, PACKET_MULTICAST, PACKET_OTHERHOST,
    PACKET_OUTGOING,
};
use pnpd::fanout::{Received, QUEUE};
use pnpd::ring::{Direction, Packet, Ring};

fn tcp4_frame(src: u16, dst: u16) -> Vec<u8> {
    let mut f = vec![0u8; 54];
    f[12] = 0x08;
    f[13] = 0x00; // IPv4
    f[14] = 0x45; // v4, IHL 5
    f[14 + 9] = 6; // TCP
    f[34..36].copy_from_slice(&src.to_be_bytes());
    f[36..38].copy_from_slice(&dst.to_be_bytes());
    f
}

fn tcp6_frame(src: u16, dst: u16) -> Vec<u8> {
    let mut f = vec![0u8; 74];
    f[12] = 0x86;
    f[13] = 0xdd;
    f[14 + 6] = 6;
    f[54..56].copy_from_slice(&src.to_be_bytes());
    f[56..58].copy_from_slice(&dst.to_be_bytes());
    f
}

fn tagged(frame: &[u8]) -> Vec<u8> {
    let mut f = frame[..12].to_vec();
    f.extend_from_slice(&[0x81, 0x00, 0x00, 0x05]);
    f.extend_from_slice(&frame[12..]);
    f
}

fn packet() -> Packet {
    Packet {
        seq: 0,
        ts_sec: 0,
        ts_nsec: 0,
        ifindex: 2,
        ifname: "eth0".into(),
        dir: Direction::In,
        wire_len: 60,
        data: vec![0; 60],
    }
}

fn arrival(pkttype: u8, wire_len: usize) -> Arrival {
    Arrival { ts_sec: 11, ts_nsec: 22, ifindex: 3, pkttype, wire_len }
}

#[test]
fn own_flow_is_recognised_and_only_own_flow() {
    assert!(is_own_flow(&tcp4_frame(7370, 40000), 7370));
    assert!(is_own_flow(&tcp4_frame(40000, 7370), 7370));
    assert!(!is_own_flow(&tcp4_frame(80, 40000), 7370));
    assert!(
        !is_own_flow(&[0u8; 10], 7370),
        "runt frames are not own flow"
    );
}

#[test]
fn non_tcp_is_never_suppressed() {
    let mut arp = vec![0u8; 42];
    arp[12] = 0x08;
    arp[13] = 0x06;
    assert!(!is_own_flow(&arp, 7370));
}

#[test]
fn own_flow_over_ipv6_and_behind_a_vlan_tag() {
    assert!(is_own_flow(&tcp6_frame(7370, 40000), 7370));
    assert!(is_own_flow(&tcp6_frame(40000, 7370), 7370));
    assert!(!is_own_flow(&tcp6_frame(80, 40000), 7370));
    assert!(is_own_flow(&tagged(&tcp4_frame(7370, 40000)), 7370));
    assert!(is_own_flow(&tagged(&tcp6_frame(40000, 7370)), 7370));
    assert!(!is_own_flow(&tagged(&tcp4_frame(80, 40000)), 7370));
}

#[test]
fn own_flow_honours_the_header_length() {
    let mut f = vec![0u8; 60];
    f[12] = 0x08;
    f[14] = 0x46; // IHL 6: four bytes of options
    f[14 + 9] = 6;
    f[38..40].copy_from_slice(&7370u16.to_be_bytes());
    assert!(is_own_flow(&f, 7370));
    f[14] = 0x45;
    assert!(!is_own_flow(&f, 7370));
}

#[test]
fn truncated_frames_are_not_own_flow() {
    let whole = tcp4_frame(7370, 40000);
    for n in 0..38 {
        assert!(!is_own_flow(&whole[..n], 7370), "{n} bytes");
    }
    assert!(is_own_flow(&whole[..38], 7370));
    let six = tcp6_frame(7370, 40000);
    for n in 0..58 {
        assert!(!is_own_flow(&six[..n], 7370), "{n} bytes");
    }
    assert!(is_own_flow(&six[..58], 7370));
    let tag = tagged(&whole);
    for n in 0..42 {
        assert!(!is_own_flow(&tag[..n], 7370), "{n} bytes");
    }
    assert!(is_own_flow(&tag[..42], 7370));
}

#[test]
fn udp_with_the_port_is_not_own_flow() {
    let mut f = tcp4_frame(7370, 7370);
    f[14 + 9] = 17;
    assert!(!is_own_flow(&f, 7370));
    let mut g = tcp6_frame(7370, 7370);
    g[14 + 6] = 17;
    assert!(!is_own_flow(&g, 7370));
}

#[test]
fn directions_follow_the_packet_type() {
    assert_eq!(direction_of(PACKET_OUTGOING), Direction::Out);
    assert_eq!(direction_of(PACKET_BROADCAST), Direction::Broadcast);
    assert_eq!(direction_of(PACKET_MULTICAST), Direction::Multicast);
    assert_eq!(direction_of(PACKET_OTHERHOST), Direction::Other);
    assert_eq!(direction_of(0), Direction::In);
    assert_eq!(direction_of(9), Direction::In);
    assert_eq!(
        (PACKET_BROADCAST, PACKET_MULTICAST, PACKET_OTHERHOST, PACKET_OUTGOING),
        (1, 2, 3, 4)
    );
}

#[test]
fn directions_have_names() {
    assert_eq!(Direction::In.as_str(), "in");
    assert_eq!(Direction::Out.as_str(), "out");
    assert_eq!(Direction::Broadcast.as_str(), "bcast");
    assert_eq!(Direction::Multicast.as_str(), "mcast");
    assert_eq!(Direction::Other.as_str(), "other");
}

#[test]
fn a_frame_keeps_its_wire_length_and_loses_its_excess() {
    let buf = [1u8, 2, 3, 4];
    assert_eq!(frame_of(&buf, 3), &[1, 2, 3]);
    assert_eq!(frame_of(&buf, 4), &[1, 2, 3, 4]);
    assert_eq!(frame_of(&buf, 9000), &[1, 2, 3, 4]);
    let p = packet_of(&arrival(PACKET_OUTGOING, 9000), "eth1".to_string(), &buf);
    assert_eq!(p.seq, 0);
    assert_eq!((p.ts_sec, p.ts_nsec, p.ifindex), (11, 22, 3));
    assert_eq!(p.ifname, "eth1");
    assert_eq!(p.dir, Direction::Out);
    assert_eq!(p.wire_len, 9000);
    assert_eq!(p.data, vec![1, 2, 3, 4]);
}

#[test]
fn every_frame_moves_one_counter() {
    let mut stats = CaptureStats::new();
    assert!(stats.count_frame(&tcp4_frame(80, 81), 7370));
    assert_eq!((stats.captured, stats.dropped, stats.suppressed), (1, 0, 0));
    assert!(!stats.count_frame(&tcp4_frame(7370, 81), 7370));
    assert_eq!((stats.captured, stats.dropped, stats.suppressed), (1, 0, 1));
}

#[test]
fn kernel_drops_add_up_unless_the_query_failed() {
    let mut stats = CaptureStats::new();
    stats.harvest_kernel_drops(0, 7);
    stats.harvest_kernel_drops(0, 0);
    stats.harvest_kernel_drops(0, 5);
    stats.harvest_kernel_drops(-1, 100);
    assert_eq!((stats.captured, stats.dropped, stats.suppressed), (0, 12, 0));
}

#[test]
fn captured_frames_enter_the_ring_and_suppressed_ones_do_not() {
    let mut stats = CaptureStats::new();
    let mut ring = Ring::new(4);
    let foreign = tcp4_frame(80, 81);
    let own = tcp4_frame(7370, 81);
    assert!(take_frame(&mut stats, &mut ring, 7370, &arrival(0, 54), "eth0".to_string(), &foreign));
    assert!(!take_frame(&mut stats, &mut ring, 7370, &arrival(0, 54), "eth0".to_string(), &own));
    assert!(take_frame(&mut stats, &mut ring, 7370, &arrival(4, 54), "eth0".to_string(), &foreign));
    assert_eq!(stats.captured, ring.next_seq() - 1);
    assert_eq!(stats.suppressed, 1);
    let held = ring.since(0);
    assert_eq!(held.len(), 2);
    assert_eq!((held[0].seq, held[1].seq), (1, 2));
    assert_eq!(held[1].dir, Direction::Out);
    assert_eq!(held[0].data, foreign);
}

#[test]
fn what_to_do_after_an_attempt_to_receive() {
    assert_eq!(after_receive(Some(60), false), ReceiveStep::Take(60));
    assert_eq!(after_receive(None, true), ReceiveStep::Again);
    assert_eq!(after_receive(None, false), ReceiveStep::Pause(100));
}

#[test]
fn interface_names_are_learnt_once() {
    let mut cap = Capture::open(7370);
    assert_eq!(cap.own_port, 7370);
    assert_eq!(cap.name_of(2), None);
    assert_eq!(cap.learn_name(2, Some(b"eth0\0junk")), "eth0");
    assert_eq!(cap.name_of(2).as_deref(), Some("eth0"));
    assert_eq!(cap.learn_name(9, None), "if9");
    assert_eq!(cap.name_of(9).as_deref(), Some("if9"));
    assert_eq!(cap.name_of(2).as_deref(), Some("eth0"));
    assert_eq!(cap.learn_name(4, Some(b"no-zero-byte")), "no-zero-byte");
    assert_eq!(cap.learn_name(5, Some(b"bad\xff\0")), "bad\u{fffd}");
}

#[test]
fn ring_wraps_and_sequences_stay_monotonic() {
    let mut ring = Ring::new(3);
    for _ in 0..5 {
        ring.push(packet());
    }
    let held: Vec<u64> = ring.since(0).iter().map(|p| p.seq).collect();
    assert_eq!(held, vec![3, 4, 5], "oldest two fell off, seqs unchanged");
    assert_eq!(ring.since(4).len(), 1);
}

#[test]
fn subscribers_get_live_packets() {
    let mut ring = Ring::new(8);
    let rx = ring.subscribe();
    ring.push(packet());
    match ring.recv(rx) {
        Received::Item(p) => assert_eq!(p.seq, 1),
        _ => panic!("no packet"),
    }
}

#[test]
fn since_shows_the_gap() {
    let mut ring = Ring::new(3);
    for _ in 0..5 {
        ring.push(packet());
    }
    assert_eq!(ring.since(1)[0].seq, 3, "packet 2 has fallen off");
    assert_eq!(ring.since(2)[0].seq, 3);
    assert_eq!(ring.since(3)[0].seq, 4);
    assert_eq!(ring.since(5).len(), 0);
    assert_eq!(ring.since(u64::MAX).len(), 0);
}

#[test]
fn a_backlog_is_never_more_than_its_capacity() {
    for capacity in 0..4 {
        let mut ring = Ring::new(capacity);
        for n in 1..=6 {
            ring.push(packet());
            assert_eq!(ring.capacity(), capacity);
            assert_eq!(ring.since(0).len(), capacity.min(n));
        }
        let held: Vec<u64> = ring.since(0).iter().map(|p| p.seq).collect();
        let newest: Vec<u64> = (1..=6).skip(6 - capacity).collect();
        assert_eq!(held, newest);
    }
}

#[test]
fn a_ring_without_capacity_still_streams() {
    let mut ring = Ring::new(0);
    let rx = ring.subscribe();
    ring.push(packet());
    ring.push(packet());
    assert_eq!(ring.since(0).len(), 0);
    assert_eq!(ring.next_seq(), 3);
    assert!(matches!(ring.recv(rx), Received::Item(p) if p.seq == 1));
    assert!(matches!(ring.recv(rx), Received::Item(p) if p.seq == 2));
}

#[test]
fn held_packets_are_those_that_were_pushed() {
    let mut ring = Ring::new(2);
    let mut p = packet();
    p.ifname = "wlan0".to_string();
    p.data = vec![9, 8, 7];
    p.seq = 77;
    ring.push(p);
    let held = ring.since(0);
    assert_eq!(held.len(), 1);
    assert_eq!(held[0].seq, 1, "the ring numbers its packets itself");
    assert_eq!(held[0].ifname, "wlan0");
    assert_eq!(held[0].data, vec![9, 8, 7]);
    assert_eq!(ring.next_seq(), 2);
}

#[test]
fn a_live_subscriber_sees_no_gap() {
    let mut ring = Ring::new(1);
    ring.push(packet());
    let rx = ring.subscribe();
    for _ in 0..5 {
        ring.push(packet());
    }
    let mut seen = Vec::new();
    loop {
        match ring.recv(rx) {
            Received::Item(p) => seen.push(p.seq),
            Received::Empty => break,
            Received::Disconnected => panic!("cut off"),
        }
    }
    assert_eq!(seen, vec![2, 3, 4, 5, 6]);
}

#[test]
fn a_slow_subscriber_is_cut_off_for_good() {
    let mut ring = Ring::new(1);
    let slow = ring.subscribe();
    let quick = ring.subscribe();
    assert_ne!(slow, quick);
    for _ in 0..QUEUE + 3 {
        ring.push(packet());
        assert!(matches!(ring.recv(quick), Received::Item(_)));
    }
    let mut seen = 0u64;
    loop {
        match ring.recv(slow) {
            Received::Item(p) => {
                seen += 1;
                assert_eq!(p.seq, seen);
            }
            Received::Empty => panic!("still live"),
            Received::Disconnected => break,
        }
    }
    assert_eq!(seen, QUEUE as u64, "what waited is still there");
    ring.push(packet());
    assert!(matches!(ring.recv(slow), Received::Disconnected));
    assert!(matches!(ring.recv(quick), Received::Item(_)));
    assert!(matches!(ring.recv(quick), Received::Empty));
}

#[test]
fn a_full_queue_is_still_live_until_one_more_comes() {
    let mut ring = Ring::new(1);
    let rx = ring.subscribe();
    for _ in 0..QUEUE {
        ring.push(packet());
    }
    for _ in 0..QUEUE {
        assert!(matches!(ring.recv(rx), Received::Item(_)));
    }
    assert!(matches!(ring.recv(rx), Received::Empty));
}

#[test]
fn leaving_frees_the_slot() {
    let mut ring = Ring::new(1);
    let a = ring.subscribe();
    ring.push(packet());
    ring.unsubscribe(a);
    assert!(matches!(ring.recv(a), Received::Disconnected));
    let b = ring.subscribe();
    assert!(matches!(ring.recv(b), Received::Empty), "nothing of the one before");
    ring.unsubscribe(1000);
    assert!(matches!(ring.recv(1000), Received::Disconnected));
}
