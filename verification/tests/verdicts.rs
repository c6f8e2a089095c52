//! The verdict stream.

use pnpd::bytes::ByteOrder;
use pnpd::engine::{
    after_read, counters_in, events_in, status_due, stream_step, Engine, PnpCounterRec,
    PnpCountersQuery, PnpEvent, PnpStatus, ReadAction, ReadEvent, StreamAction, StreamEvent, ABI,
    COUNTER_SIZE, EVENT_SIZE, IOC_COUNTERS, IOC_STATUS, QUERY_SIZE, RING, STATUS_SIZE,
};
use pnpd::fanout::{Received, QUEUE};

fn event(seq: u64) -> PnpEvent {
    let mut ev = PnpEvent::zeroed();
    ev.seq = seq;
    ev
}

fn own_event(family: u8, src: u16, dst: u16) -> PnpEvent {
    let mut ev = PnpEvent::zeroed();
    ev.protocol = 6;
    ev.addr_family = family;
    ev.src_port = src;
    ev.dst_port = dst;
    ev
}

#[test]
fn request_codes_carry_direction_size_and_number() {
    let n = b'N' as u64;
    assert_eq!(IOC_STATUS, 2u64 << 30 | (STATUS_SIZE as u64) << 16 | n << 8 | 1);
    assert_eq!(IOC_COUNTERS, 3u64 << 30 | (QUERY_SIZE as u64) << 16 | n << 8 | 2);
    assert_eq!(ABI, 2);
}

fn event_bytes(big: bool) -> Vec<u8> {
    let w8 = |v: u64| if big { v.to_be_bytes() } else { v.to_le_bytes() };
    let w4 = |v: u32| if big { v.to_be_bytes() } else { v.to_le_bytes() };
    let w2 = |v: u16| if big { v.to_be_bytes() } else { v.to_le_bytes() };
    let mut b = Vec::new();
    b.extend_from_slice(&w8(0x0102_0304_0506_0708));
    b.extend_from_slice(&w8(42));
    b.extend_from_slice(&[1, 2, 3, 4, 5, 6, 7, 8]);
    b.extend_from_slice(&w4(0x1122_3344));
    b.extend_from_slice(&w2(4444));
    b.extend_from_slice(&w2(23));
    b.extend_from_slice(&w2(0x0800));
    b.extend_from_slice(&[9, 10]);
    b.extend_from_slice(&[11; 16]);
    b.extend_from_slice(&[12; 16]);
    b.extend_from_slice(&w4(1500));
    b.extend_from_slice(&w4(0x0403_0201));
    b.extend_from_slice(&[13; 96]);
    b.extend_from_slice(&w4(14));
    b
}

#[test]
fn verdict_records_decode_in_either_byte_order() {
    for (big, order) in [(false, ByteOrder::Little), (true, ByteOrder::Big)] {
        let b = event_bytes(big);
        assert_eq!(b.len(), EVENT_SIZE);
        let ev = PnpEvent::decode(&b, order);
        assert_eq!((ev.seq, ev.t_ns), (0x0102_0304_0506_0708, 42));
        assert_eq!((ev.seat, ev.layer, ev.verdict, ev.flags), (1, 2, 3, 4));
        assert_eq!((ev.direction, ev.addr_family, ev.protocol, ev.flow_state), (5, 6, 7, 8));
        assert_eq!((ev.ifindex, ev.src_port, ev.dst_port), (0x1122_3344, 4444, 23));
        assert_eq!((ev.ether_type, ev.reject_kind, ev._pad0), (0x0800, 9, 10));
        assert_eq!((ev.src_addr, ev.dst_addr), ([11; 16], [12; 16]));
        assert_eq!((ev.length, ev.effects, ev._pad1), (1500, 0x0403_0201, 14));
        assert_eq!(ev.attributed, [13; 96]);
    }
}

#[test]
fn a_read_gives_its_whole_records() {
    let mut b = event_bytes(false);
    let mut second = event_bytes(false);
    second[0] = 0xff;
    b.extend_from_slice(&second);
    b.extend_from_slice(&[0; 500]);
    let events = events_in(&b, 2 * EVENT_SIZE + 17, ByteOrder::Little);
    assert_eq!(events.len(), 2);
    assert_eq!(events[0].seq, 0x0102_0304_0506_0708);
    assert_eq!(events[1].seq, 0x0102_0304_0506_07ff);
    assert_eq!(events_in(&b, EVENT_SIZE - 1, ByteOrder::Little).len(), 0);
}

#[test]
fn status_records_decode_in_order() {
    let mut b = Vec::new();
    for i in 0..36u64 {
        b.extend_from_slice(&(1000 + i).to_le_bytes());
    }
    assert_eq!(b.len(), STATUS_SIZE);
    let s = PnpStatus::decode(&b, ByteOrder::Little);
    assert_eq!((s.abi, s.generation, s.enforcing, s.events_dropped), (1000, 1001, 1002, 1003));
    assert_eq!((s.judged, s.permissive, s.fail_closed), (1010, 1011, 1012));
    assert_eq!((s.counter_cells, s.reporting_level), (1030, 1031));
    assert_eq!(s._reserved, [1032, 1033, 1034, 1035]);
    assert_eq!((s.seen_local_out, s.teardowns_emitted), (0, 0));
}

#[test]
fn counter_records_decode_as_far_as_the_kernel_filled_them() {
    let mut b = Vec::new();
    for i in 0..3u64 {
        let mut r = vec![0u8; COUNTER_SIZE];
        r[..3].copy_from_slice(b"dns");
        r[64..72].copy_from_slice(&(70 + i).to_le_bytes());
        r[72] = 5;
        r[73] = 4;
        r[76..80].copy_from_slice(&(-3i32).to_le_bytes());
        r[80..84].copy_from_slice(&[10, 0, 0, 7]);
        r[96..100].copy_from_slice(&[10, 0, 0, 5]);
        r[112..120].copy_from_slice(&900u64.to_le_bytes());
        r[120..128].copy_from_slice(&901u64.to_le_bytes());
        r[128..132].copy_from_slice(&2u32.to_le_bytes());
        r[136..140].copy_from_slice(&60u32.to_le_bytes());
        r[168..176].copy_from_slice(&61u64.to_le_bytes());
        b.extend_from_slice(&r);
    }
    let dump = counters_in(&b, 2, 17, ByteOrder::Little);
    assert_eq!(dump.total_cells, 17);
    assert_eq!(dump.records.len(), 2);
    let r: &PnpCounterRec = &dump.records[1];
    assert_eq!(&r.name[..4], b"dns\0");
    assert_eq!((r.hash, r.keyspec, r.family, r.ifindex), (71, 5, 4, -3));
    assert_eq!((r.src_addr[0], r.dst_addr[3]), (10, 5));
    assert_eq!((r.total, r.last_secs, r.n_windows), (900, 901, 2));
    assert_eq!((r.window_secs[0], r.window_value[0]), (60, 61));
    assert_eq!(counters_in(&b, 99, 17, ByteOrder::Little).records.len(), 3);
}

#[test]
fn a_counter_query_reads_back() {
    let mut q = PnpCountersQuery::new(0x1234_5678_9abc_def0, 950_272);
    assert_eq!((q.count, q.total, q._pad0), (0, 0, 0));
    q.count = 3;
    q.total = 4;
    for order in [ByteOrder::Little, ByteOrder::Big] {
        let b = q.encode(order);
        assert_eq!(b.len(), QUERY_SIZE);
        assert_eq!(PnpCountersQuery::decode(&b, order), q);
    }
    let b = q.encode(ByteOrder::Little);
    assert_eq!(&b[..8], &0x1234_5678_9abc_def0u64.to_le_bytes());
    assert_eq!(&b[8..12], &950_272u32.to_le_bytes());
}

#[test]
fn own_verdicts_are_hidden_and_counted() {
    let mut e = Engine::new(8081);
    e.push(own_event(4, 8081, 5));
    e.push(own_event(6, 5, 8081));
    assert_eq!(e.own_hidden(), 2);
    assert_eq!(e.since(0).len(), 0);
    let mut shown = own_event(4, 5, 6);
    shown.seq = 1;
    e.push(shown);
    let mut udp = own_event(4, 8081, 5);
    udp.protocol = 17;
    udp.seq = 2;
    e.push(udp);
    let mut arp = own_event(0, 8081, 5);
    arp.seq = 3;
    e.push(arp);
    assert_eq!(e.own_hidden(), 2);
    let seqs: Vec<u64> = e.since(0).iter().map(|v| v.seq).collect();
    assert_eq!(seqs, vec![1, 2, 3]);
}

#[test]
fn the_verdict_ring_keeps_the_newest() {
    let mut e = Engine::new(8081);
    for seq in 1..=(RING as u64 + 10) {
        e.push(event(seq));
    }
    let held = e.since(0);
    assert_eq!(held.len(), RING);
    assert_eq!(held[0].seq, 11);
    assert_eq!(held[RING - 1].seq, RING as u64 + 10);
    assert_eq!(e.since(RING as u64 + 8).len(), 2);
}

#[test]
fn a_slow_verdict_subscriber_is_cut_off_and_rejoins_by_seq() {
    let mut e = Engine::new(8081);
    let slow = e.subscribe();
    let quick = e.subscribe();
    for seq in 1..=1025 {
        e.push(event(seq));
        assert!(matches!(e.recv(quick), Received::Item(ev) if ev.seq == seq));
    }
    for seq in 1..=(QUEUE as u64) {
        match e.recv(slow) {
            Received::Item(ev) => assert_eq!(ev.seq, seq),
            _ => panic!("too few"),
        }
    }
    assert!(matches!(e.recv(slow), Received::Disconnected));
    assert_eq!(e.since(0).len(), 1025);
    e.push(event(1026));
    assert!(matches!(e.recv(slow), Received::Disconnected));
    assert!(matches!(e.recv(quick), Received::Item(ev) if ev.seq == 1026));
    let missed: Vec<u64> = e.since(QUEUE as u64).iter().map(|ev| ev.seq).collect();
    assert_eq!(missed, vec![1025, 1026]);
    e.unsubscribe(slow);
    assert!(matches!(e.recv(slow), Received::Disconnected));
}

#[test]
fn a_full_verdict_queue_is_live_until_one_more_is_shown() {
    let mut e = Engine::new(8081);
    let id = e.subscribe();
    for seq in 1..=(QUEUE as u64) {
        e.push(event(seq));
    }
    e.push(own_event(4, 8081, 5));
    for _ in 0..QUEUE {
        assert!(matches!(e.recv(id), Received::Item(_)));
    }
    assert!(matches!(e.recv(id), Received::Empty));
}

#[test]
fn the_engine_is_connected_only_under_its_abi() {
    let mut e = Engine::new(8081);
    let mut s = PnpStatus::default();
    s.abi = 3;
    s.generation = 7;
    e.take_status(s);
    assert_eq!((e.status().0.generation, e.status().1), (7, false));
    assert_eq!(e.counters_device(), Err("engine not connected".to_string()));
    assert_eq!(e.since(0).len(), 0);
    s.abi = ABI;
    e.take_status(s);
    assert!(e.status().1);
}

#[test]
fn the_engine_stays_connected_until_the_stream_ends() {
    let mut e = Engine::new(8081);
    let mut s = PnpStatus::default();
    s.abi = ABI;
    e.take_status(s);
    assert_eq!(e.counters_device(), Err("engine not connected".to_string()), "no dup yet");
    assert_eq!(e.set_dev_fd(Some(7)), None);
    assert_eq!(e.counters_device(), Ok(7));
    s.abi = 99;
    s.generation = 5;
    e.refresh(s);
    assert_eq!((e.status().0.abi, e.status().0.generation, e.status().1), (99, 5, true));
    assert_eq!(e.counters_device(), Ok(7), "the device still answers");
    assert_eq!(e.set_dev_fd(Some(8)), Some(7));
    assert_eq!(e.disconnect(), Some(8));
    assert_eq!((e.status().0.generation, e.status().1), (5, false));
    assert_eq!(e.counters_device(), Err("engine not connected".to_string()));
    assert_eq!(e.disconnect(), None);
}

#[test]
fn counter_requests_give_a_dump_or_a_reason() {
    assert_eq!(
        Engine::counters(Err("denied".to_string()), ByteOrder::Little).err().as_deref(),
        Some("COUNTERS ioctl: denied")
    );
    let mut query = PnpCountersQuery::new(0, 0);
    query.count = 1;
    query.total = 9;
    let mut buf = vec![0u8; 2 * COUNTER_SIZE];
    buf[64] = 5;
    match Engine::counters(Ok((query, buf)), ByteOrder::Little) {
        Ok(dump) => {
            assert_eq!((dump.records.len(), dump.total_cells), (1, 9));
            assert_eq!(dump.records[0].hash, 5);
        }
        Err(why) => panic!("{why}"),
    }
}

#[test]
fn status_snapshots_are_kept() {
    let mut e = Engine::new(8081);
    let (s, connected) = e.status();
    assert_eq!((s.abi, s.generation, connected), (0, 0, false));
    let mut s = PnpStatus::default();
    s.generation = 12;
    e.set_status(s, true);
    assert_eq!((e.status().0.generation, e.status().1), (12, true));
    let kept = e.status().0;
    e.set_status(kept, false);
    assert_eq!((e.status().0.generation, e.status().1), (12, false));
}

#[test]
fn the_stream_reopens_and_refuses_an_unknown_abi() {
    assert_eq!(stream_step(StreamEvent::Opened(2)), StreamAction::Stream);
    assert_eq!(stream_step(StreamEvent::Opened(1)), StreamAction::Reopen(30));
    assert_eq!(stream_step(StreamEvent::Opened(3)), StreamAction::Reopen(30));
    assert_eq!(stream_step(StreamEvent::OpenFailed), StreamAction::Reopen(5));
    assert_eq!(stream_step(StreamEvent::StatusFailed), StreamAction::Reopen(5));
    assert_eq!(stream_step(StreamEvent::Ended), StreamAction::Reopen(2));
}

#[test]
fn reads_are_taken_awaited_or_given_up() {
    assert!(matches!(after_read(ReadEvent::Bytes(176)), ReadAction::Take));
    assert!(matches!(after_read(ReadEvent::Bytes(0)), ReadAction::Stop(why) if why == "device closed"));
    assert!(matches!(after_read(ReadEvent::WouldBlock), ReadAction::Poll));
    assert!(matches!(after_read(ReadEvent::Interrupted), ReadAction::Again));
    assert!(matches!(after_read(ReadEvent::Failed("gone".to_string())), ReadAction::Stop(why) if why == "gone"));
}

#[test]
fn the_status_is_due_once_a_second() {
    assert!(!status_due(0));
    assert!(!status_due(999_999_999));
    assert!(status_due(1_000_000_000));
}
