//! What the live streams promise: which item a subscriber gets, what the rings
//! keep, when the engine counts as connected, and what a client is sent.

use crate::engine::{
    counters_failure, device_held, engine_after, engine_ended, engine_holding, engine_opened,
    engine_refreshed, engine_told, engine_with_queues, fresh_engine, own_verdict, read_next,
    ring_after, snapshot_due, stream_next, EngineView, PnpEvent, PnpStatus, ReadEvent, ReadNext,
    StreamAction, StreamEvent,
};
use crate::fanout::{
    all_delivered, delivered, found, joined, left, queue_of, taken, QueueView, Received,
};
use crate::http::Server;
use crate::json::object_text;
use crate::log::{error_text, info_text, line_text};
use crate::report::{engine_fields, packet_fields, status_fields, verdict_fields};
use crate::ring::{fresh, numbered, pushed, Packet, Ring};
use crate::stream::{
    begun, event_text, packets_behind, phase_after, receipt_of, same_but_queues, sent_for, stepped,
    stream_head_text, verdicts_behind, EventStream, Moment, Phase, Receipt, ReportData,
};
use crate::stream_laws::one_line;
use crate::text::{join, law_join_splits_back, split, starts_with};
use std::sync::Arc;
use vstd::prelude::*;

verus! {

// ---------------------------------------------------------------------------
// Queues
// ---------------------------------------------------------------------------
/// A subscriber gets the oldest item that waits for it, which then waits no
/// more; where none waits it is told whether more will come; and taking an item
/// changes no other queue.
pub proof fn law_items_are_taken_in_order<T>(
    qs: Seq<Option<QueueView<T>>>,
    id: int,
    other: int,
    item: T,
)
    ensures
        found(qs, id) == Received::Item(item) <==> (queue_of(qs, id) matches Some(q)
            && q.items.len() > 0 && q.items[0] == item),
        found(qs, id) is Empty <==> (queue_of(qs, id) matches Some(q) && q.items.len() == 0
            && q.open),
        found(qs, id) is Disconnected <==> (queue_of(qs, id) matches Some(q) ==> q.items.len() == 0
            && !q.open),
        found(qs, id) matches Received::Item(first) ==> {
            let before = queue_of(qs, id)->0;
            let after = queue_of(taken(qs, id), id)->0;
            &&& queue_of(taken(qs, id), id) is Some
            &&& seq![first] + after.items == before.items
            &&& after.open == before.open
        },
        !(found(qs, id) is Item) ==> taken(qs, id) == qs,
        taken(qs, id).len() == qs.len(),
        other != id ==> queue_of(taken(qs, id), other) == queue_of(qs, other),
{
    if let Some(q) = queue_of(qs, id) {
        if q.items.len() > 0 {
            assert(seq![q.items[0]] + q.items.skip(1) == q.items);
        }
    }
}

/// A new subscriber begins with nothing and open, one that left has no queue,
/// and neither changes any other queue.
pub proof fn law_subscribers_come_and_go<T>(
    qs: Seq<Option<QueueView<T>>>,
    id: int,
    other: int,
)
    requires
        0 <= id <= qs.len(),
        other != id,
    ensures
        queue_of(joined(qs, id), id) matches Some(q) && q.items.len() == 0 && q.open,
        queue_of(joined(qs, id), other) == queue_of(qs, other),
        queue_of(left(qs, id), id) is None,
        queue_of(left(qs, id), other) == queue_of(qs, other),
{
}

/// Whatever is sent goes to every subscriber that is open and has fewer than
/// 1024 items waiting, behind those items; one that has as many is cut off and
/// keeps them; one that was cut off, or is none, stays as it is.
pub proof fn law_items_go_to_every_subscriber<T>(
    qs: Seq<Option<QueueView<T>>>,
    item: T,
    id: int,
)
    ensures
        queue_of(all_delivered(qs, item), id) is Some <==> queue_of(qs, id) is Some,
        queue_of(qs, id) matches Some(q) ==> {
            let after = queue_of(all_delivered(qs, item), id)->0;
            &&& after.open <==> q.open && q.items.len() < 1024
            &&& after.items == if q.open && q.items.len() < 1024 {
                q.items.push(item)
            } else {
                q.items
            }
        },
{
}

// ---------------------------------------------------------------------------
// Rings
// ---------------------------------------------------------------------------
/// A packet that enters the ring is the packet that came, under the next number:
/// nothing else of it changes, and the next one gets the number after it.
pub proof fn law_packets_keep_all_but_their_number(p: Packet, n: u64)
    ensures
        numbered(p, n).seq == n,
        numbered(p, n).ts_sec == p.ts_sec,
        numbered(p, n).ts_nsec == p.ts_nsec,
        numbered(p, n).ifindex == p.ifindex,
        numbered(p, n).ifname == p.ifname,
        numbered(p, n).dir == p.dir,
        numbered(p, n).wire_len == p.wire_len,
        numbered(p, n).data == p.data,
{
}

/// One more packet in a ring with room for any: it is the newest, the others
/// stay in order, and only where the ring was full the oldest one is gone; the
/// ring's numbers go on by one, and every subscriber is sent the same packet.
pub proof fn law_rings_take_packets(before: Ring, p: Packet, after: Ring, id: int)
    requires
        pushed(before, p, after),
        before.next() < u64::MAX,
        before.cap() > 0,
        before.held().len() <= before.cap(),
    ensures
        after.cap() == before.cap(),
        after.next() == before.next() + 1,
        after.held().len() > 0,
        *after.held().last() == numbered(p, before.next()),
        after.held().drop_last() == if before.held().len() < before.cap() {
            before.held()
        } else {
            before.held().skip(1)
        },
        queue_of(after.queues(), id) == match queue_of(before.queues(), id) {
            Some(q) => Some(delivered(q, after.held().last())),
            None => None,
        },
{
    let all = before.held().push(Arc::new(numbered(p, before.next())));
    if all.len() > before.cap() {
        assert(all.skip(1).drop_last() == before.held().skip(1));
    } else {
        assert(all.drop_last() == before.held());
    }
}

/// A ring without room keeps nothing, and still numbers and sends.
pub proof fn law_rings_without_room_keep_nothing(before: Ring, p: Packet, after: Ring)
    requires
        pushed(before, p, after),
        before.cap() == 0,
        before.held().len() == 0,
    ensures
        after.held().len() == 0,
        after.next() == before.next() + 1,
{
}

/// The verdict ring keeps the newest 8192: one more is the last, the others stay
/// in order, and only a full ring loses its oldest.
pub proof fn law_verdict_ring_keeps_the_newest(held: Seq<PnpEvent>, ev: PnpEvent)
    requires
        held.len() <= 8192,
    ensures
        ring_after(held, ev).len() <= 8192,
        ring_after(held, ev).last() == ev,
        ring_after(held, ev).drop_last() == if held.len() < 8192 {
            held
        } else {
            held.skip(1)
        },
{
    if held.len() < 8192 {
        assert(held.push(ev).drop_last() == held);
    } else {
        assert(held.skip(1).push(ev).drop_last() == held.skip(1));
    }
}

// ---------------------------------------------------------------------------
// The engine
// ---------------------------------------------------------------------------
/// A verdict about the daemon's own flow adds one to the hidden ones and changes
/// nothing else; any other is the newest of the ring and changes neither that
/// count nor the state of the device.
pub proof fn law_verdicts_change_the_ring_or_the_count(e: EngineView, ev: PnpEvent)
    requires
        e.own_hidden < u64::MAX,
        e.events.len() <= 8192,
    ensures
        engine_after(e, ev).status == e.status,
        engine_after(e, ev).connected == e.connected,
        engine_after(e, ev).own_port == e.own_port,
        engine_after(e, ev).dev_fd == e.dev_fd,
        own_verdict(ev, e.own_port) ==> engine_after(e, ev).own_hidden == e.own_hidden + 1
            && engine_after(e, ev).events == e.events && engine_after(e, ev).queues == e.queues,
        !own_verdict(ev, e.own_port) ==> engine_after(e, ev).own_hidden == e.own_hidden
            && engine_after(e, ev).events.last() == ev,
{
}

/// Opening a device shows its status, and connects exactly under the second ABI;
/// a later status is shown and connects or disconnects nothing; the end of the
/// stream disconnects and lets the device go, and the last status stays. None of
/// them touches the verdicts, their count or the subscribers.
pub proof fn law_devices_change_only_the_state(e: EngineView, status: PnpStatus)
    ensures
        engine_opened(e, status).status == status,
        engine_opened(e, status).connected <==> status.abi == 2,
        engine_opened(e, status).dev_fd == e.dev_fd,
        engine_refreshed(e, status).status == status,
        engine_refreshed(e, status).connected == e.connected,
        engine_refreshed(e, status).dev_fd == e.dev_fd,
        engine_ended(e).status == e.status,
        !engine_ended(e).connected,
        engine_ended(e).dev_fd is None,
        ({
            let (a, b, c) = (engine_opened(e, status), engine_refreshed(e, status), engine_ended(e));
            &&& a.events == e.events && b.events == e.events && c.events == e.events
            &&& a.queues == e.queues && b.queues == e.queues && c.queues == e.queues
            &&& a.own_hidden == e.own_hidden && b.own_hidden == e.own_hidden && c.own_hidden
                == e.own_hidden
            &&& a.own_port == e.own_port && b.own_port == e.own_port && c.own_port == e.own_port
        }),
{
}

/// The device that is asked for the counters is the one that is held; without
/// one the answer is that the engine is not connected. A dump that failed says
/// what failed, and why.
pub proof fn law_counters_are_asked_of_the_held_device(e: EngineView, fd: i32, why: Seq<char>)
    ensures
        device_held(e) == Ok::<i32, Seq<char>>(fd) <==> e.dev_fd == Some(fd),
        e.dev_fd is None ==> device_held(e) == Err::<i32, Seq<char>>("engine not connected"@),
        starts_with(counters_failure(why), "COUNTERS ioctl: "@),
        counters_failure(why).skip("COUNTERS ioctl: "@.len() as int) == why,
{
    let head = "COUNTERS ioctl: "@;
    assert((head + why).take(head.len() as int) == head);
    assert((head + why).skip(head.len() as int) == why);
}

/// The verdict stream runs for ever: it streams under the second ABI alone, and
/// opens the device again after two seconds where streaming ended, after five
/// where it could not be opened or asked, and after thirty where its ABI is
/// another.
pub proof fn law_the_verdict_stream_never_gives_up(event: StreamEvent)
    ensures
        stream_next(event) == StreamAction::Stream <==> event == StreamEvent::Opened(2),
        stream_next(event) == StreamAction::Reopen(2) <==> event is Ended,
        stream_next(event) == StreamAction::Reopen(5) <==> event is OpenFailed || event
            is StatusFailed,
        stream_next(event) == StreamAction::Reopen(30) <==> event is Opened && event->0 != 2,
{
}

/// A read that gave bytes is taken, one that gave none ends the stream, one that
/// would block waits, one that was interrupted is tried again, and any other
/// failure ends the stream for its own reason.
pub proof fn law_reads_are_followed_up(event: ReadEvent)
    ensures
        read_next(event) == ReadNext::Take <==> (event matches ReadEvent::Bytes(n) && n > 0),
        read_next(event) == ReadNext::Poll <==> event is WouldBlock,
        read_next(event) == ReadNext::Again <==> event is Interrupted,
        event matches ReadEvent::Bytes(0) ==> read_next(event) == ReadNext::Stop("device closed"@),
        event matches ReadEvent::Failed(why) ==> read_next(event) == ReadNext::Stop(why@),
{
}

/// The status is due once a second has passed since the last snapshot.
pub proof fn law_status_is_due_once_a_second(since_last: u64)
    ensures
        snapshot_due(since_last) <==> since_last >= 1_000_000_000,
{
}

// ---------------------------------------------------------------------------
// The event stream
// ---------------------------------------------------------------------------
/// An event, line by line: its name, its data, and an empty line.
pub proof fn law_events_read_line_by_line(name: Seq<char>, data: Seq<char>)
    requires
        one_line(name),
        one_line(data),
    ensures
        split(event_text(name, data), '\n') == seq![
            "event: "@ + name,
            "data: "@ + data,
            seq![],
            seq![],
        ],
{
    let (e, d) = ("event: "@, "data: "@);
    let lines = seq![e + name, d + data, seq![], seq![]];
    let nl = seq!['\n'];
    assert("\ndata: "@ == nl + d) by {
        reveal_strlit("\ndata: ");
        reveal_strlit("data: ");
    }
    assert("\n\n"@ == seq!['\n', '\n']) by {
        reveal_strlit("\n\n");
    }
    let p3 = lines.drop_last();
    let p2 = p3.drop_last();
    assert(join(p2.drop_last(), nl) == lines[0]);
    assert(join(p2, nl) == lines[0] + nl + lines[1]);
    assert(join(p3, nl) == lines[0] + nl + lines[1] + nl + lines[2]);
    assert(join(lines, nl) == lines[0] + nl + lines[1] + nl + lines[2] + nl + lines[3]);
    assert(join(lines, nl) == event_text(name, data));
    assert(!(e + name).contains('\n')) by {
        reveal_strlit("event: ");
        lemma_no_newline(e, name);
    }
    assert(!(d + data).contains('\n')) by {
        reveal_strlit("data: ");
        lemma_no_newline(d, data);
    }
    assert forall|i: int| 0 <= i < lines.len() implies !(#[trigger] lines[i]).contains('\n') by {
        assert(!Seq::<char>::empty().contains('\n'));
    }
    law_join_splits_back(lines, '\n');
}

proof fn lemma_no_newline(a: Seq<char>, b: Seq<char>)
    requires
        !a.contains('\n'),
        one_line(b),
    ensures
        !(a + b).contains('\n'),
{
    let s = a + b;
    if s.contains('\n') {
        let i = s.index_of('\n');
        if i < a.len() {
            assert(a[i] == '\n');
        } else {
            assert(b[i - a.len()] == '\n');
        }
    }
}

/// The head of the event stream, line by line.
pub proof fn law_the_stream_head_reads_line_by_line()
    ensures
        stream_head_text() == join(
            seq![
                "HTTP/1.1 200 OK"@,
                "Content-Type: text/event-stream"@,
                "Cache-Control: no-store"@,
                "Connection: keep-alive"@,
                seq![],
                seq![],
            ],
            seq!['\r', '\n'],
        ),
{
    let (a, b, c, d) = (
        "HTTP/1.1 200 OK"@,
        "Content-Type: text/event-stream"@,
        "Cache-Control: no-store"@,
        "Connection: keep-alive"@,
    );
    let sep = seq!['\r', '\n'];
    let p = seq![a, b, c, d, seq![], seq![]];
    let p5 = p.drop_last();
    let p4 = p5.drop_last();
    let p3 = p4.drop_last();
    let p2 = p3.drop_last();
    assert(join(p2.drop_last(), sep) == a);
    assert(join(p2, sep) == a + sep + b);
    assert(join(p3, sep) == a + sep + b + sep + c);
    assert(join(p4, sep) == a + sep + b + sep + c + sep + d);
    assert(join(p5, sep) == a + sep + b + sep + c + sep + d + sep + Seq::<char>::empty());
    assert(join(p, sep) == a + sep + b + sep + c + sep + d + sep + Seq::<char>::empty() + sep
        + Seq::<char>::empty());
    assert(stream_head_text() == a + sep + b + sep + c + sep + d + sep + sep) by {
        reveal_strlit("HTTP/1.1 200 OK\r\nContent-Type: text/event-stream\r\nCache-Control: no-store\r\nConnection: keep-alive\r\n\r\n");
        reveal_strlit("HTTP/1.1 200 OK");
        reveal_strlit("Content-Type: text/event-stream");
        reveal_strlit("Cache-Control: no-store");
        reveal_strlit("Connection: keep-alive");
    }
    assert(join(p, sep) == a + sep + b + sep + c + sep + d + sep + sep);
}

/// What a step comes upon: the oldest verdict or packet of the client's own
/// queue, or that there is none; and a report, of the daemon as it is, exactly
/// where two seconds have passed since the last one. It waits for a packet only
/// while there is none and time is left.
pub proof fn law_steps_look_at_their_own_queue(
    s: EventStream,
    server: Server,
    version: Seq<char>,
    moment: Moment,
)
    ensures
        ({
            let r = receipt_of(s, server, version, moment);
            let verdict = found(server.engine@.queues, s.verdicts as int);
            let packet = found(server.ring.queues(), s.packets as int);
            &&& s.phase == Phase::Head <==> r is Head
            &&& s.phase == Phase::Verdicts <==> r is Verdict
            &&& r matches Receipt::Verdict(got) ==> got == verdict
            &&& r matches Receipt::Packet(got) ==> got == packet
            &&& s.phase == Phase::MorePackets ==> r is Packet
            &&& s.phase == Phase::FirstPacket ==> r is Packet || r is Waiting
            &&& r is Waiting <==> s.phase == Phase::FirstPacket && packet is Empty && !moment.waited
            &&& s.phase == Phase::Report <==> r is Report
            &&& r matches Receipt::Report(due) ==> (due is Some <==> moment.now - s.last_report
                >= 2_000_000_000)
            &&& r matches Receipt::Report(Some(d)) ==> {
                &&& d.version == version
                &&& d.uptime_s == moment.uptime_s
                &&& d.stats == server.stats
                &&& d.ring_capacity == server.ring.cap()
                &&& d.engine == server.engine@
            }
            &&& s.phase == Phase::Reported <==> r is Reported
            &&& s.phase == Phase::Done <==> r is Over
        }),
{
}

/// What comes next: verdicts until none waits, a packet, all the packets that
/// wait behind it, a report if one is due, and verdicts again; the head comes
/// before all of it, and where a queue was cut off the stream is over for good.
pub proof fn law_phases_follow_the_receipts(s: EventStream, receipt: Receipt, now: u64)
    ensures
        phase_after(receipt) == Phase::Done <==> receipt == Receipt::Verdict(Received::Disconnected)
            || receipt == Receipt::Packet(Received::Disconnected) || receipt is Over,
        phase_after(receipt) == Phase::Verdicts <==> receipt is Reported || (
        receipt matches Receipt::Verdict(got) && got is Item) || (
        receipt matches Receipt::Report(due) && due is None),
        phase_after(receipt) == Phase::FirstPacket <==> receipt == Receipt::Verdict(Received::Empty)
            || receipt is Waiting,
        phase_after(receipt) == Phase::MorePackets <==> (receipt matches Receipt::Packet(got)
            && got is Item),
        phase_after(receipt) == Phase::Report <==> receipt == Receipt::Packet(Received::Empty),
        phase_after(receipt) == Phase::Reported <==> receipt is Head || (
        receipt matches Receipt::Report(due) && due is Some),
        stepped(s, receipt, now).phase == phase_after(receipt),
        stepped(s, receipt, now).packets == s.packets,
        stepped(s, receipt, now).verdicts == s.verdicts,
        stepped(s, receipt, now).last_report == if receipt is Reported {
            now
        } else {
            s.last_report
        },
{
}

/// A log line says who speaks and at which level, and then the message as it is.
pub proof fn law_log_lines_carry_the_message(level: Seq<char>, msg: Seq<char>)
    ensures
        ({
            let line = line_text(level, msg);
            let n = 6 + level.len();
            &&& line.len() == n + 2 + msg.len()
            &&& line.take(6) == "pnpd: "@
            &&& line.subrange(6, n as int) == level
            &&& line[n as int] == ':' && line[(n + 1) as int] == ' '
            &&& line.skip((n + 2) as int) == msg
        }),
{
    reveal_strlit("pnpd: ");
    reveal_strlit(": ");
    let line = line_text(level, msg);
    let n = 6 + level.len();
    assert(line.take(6) == "pnpd: "@);
    assert(line.subrange(6, n as int) == level);
    assert(line.skip((n + 2) as int) == msg);
}

/// A line that informs and a line about a failure differ in their level alone.
pub proof fn law_log_levels(msg: Seq<char>)
    ensures
        info_text(msg) == "pnpd: info: "@ + msg,
        error_text(msg) == "pnpd: error: "@ + msg,
{
    reveal_strlit("pnpd: ");
    reveal_strlit(": ");
    reveal_strlit("info");
    reveal_strlit("error");
    reveal_strlit("pnpd: info: ");
    reveal_strlit("pnpd: error: ");
    assert("pnpd: info: "@ == "pnpd: "@ + "info"@ + ": "@);
    assert("pnpd: error: "@ == "pnpd: "@ + "error"@ + ": "@);
}

/// A status and its connection, a device and the queues are each set alone: the
/// rest of an engine view stays as it is.
pub proof fn law_engine_parts_are_set_alone(
    e: EngineView,
    status: PnpStatus,
    connected: bool,
    fd: Option<i32>,
    queues: Seq<Option<QueueView<PnpEvent>>>,
)
    ensures
        ({
            let (a, b, c) = (
                engine_told(e, status, connected),
                engine_holding(e, fd),
                engine_with_queues(e, queues),
            );
            &&& a.status == status && a.connected == connected
            &&& b.status == e.status && b.connected == e.connected
            &&& c.status == e.status && c.connected == e.connected
            &&& a.dev_fd == e.dev_fd && b.dev_fd == fd && c.dev_fd == e.dev_fd
            &&& a.queues == e.queues && b.queues == e.queues && c.queues == queues
            &&& a.events == e.events && b.events == e.events && c.events == e.events
            &&& a.own_hidden == e.own_hidden && b.own_hidden == e.own_hidden && c.own_hidden
                == e.own_hidden
            &&& a.own_port == e.own_port && b.own_port == e.own_port && c.own_port == e.own_port
        }),
{
}

/// A stream begins with its head, its own queues and no report; a step takes from
/// the queue that it looked at, and from no other.
pub proof fn law_steps_take_from_one_queue(
    packets: usize,
    verdicts: usize,
    s: EventStream,
    receipt: Receipt,
    ps: Seq<Option<QueueView<Arc<Packet>>>>,
    vs: Seq<Option<QueueView<PnpEvent>>>,
)
    ensures
        begun(packets, verdicts).phase == Phase::Head,
        begun(packets, verdicts).packets == packets,
        begun(packets, verdicts).verdicts == verdicts,
        begun(packets, verdicts).last_report == 0,
        receipt is Packet ==> packets_behind(ps, s, receipt) == taken(ps, s.packets as int)
            && verdicts_behind(vs, s, receipt) == vs,
        receipt is Verdict ==> verdicts_behind(vs, s, receipt) == taken(vs, s.verdicts as int)
            && packets_behind(ps, s, receipt) == ps,
        !(receipt is Packet) && !(receipt is Verdict) ==> packets_behind(ps, s, receipt) == ps
            && verdicts_behind(vs, s, receipt) == vs,
{
}

/// A report is two events: the state of the daemon and the state of the engine,
/// both of the same moment.
pub proof fn law_reports_tell_both_states(d: ReportData)
    ensures
        sent_for(Receipt::Report(Some(d))) == event_text(
            "stats"@,
            object_text(status_fields(d.version, d.uptime_s, d.stats, d.ring_capacity)),
        ) + event_text("engine"@, object_text(engine_fields(d.engine))),
{
}

/// A verdict and a packet are one event each, under their own name; the head is
/// sent as it is, and nothing else is sent.
pub proof fn law_items_are_one_event(receipt: Receipt)
    ensures
        receipt matches Receipt::Verdict(Received::Item(ev)) ==> sent_for(receipt) == event_text(
            "verdict"@,
            object_text(verdict_fields(ev)),
        ),
        receipt matches Receipt::Packet(Received::Item(p)) ==> sent_for(receipt) == event_text(
            "packet"@,
            object_text(packet_fields(*p)),
        ),
        receipt is Head ==> sent_for(receipt) == stream_head_text(),
        receipt is Waiting || receipt is Reported || receipt is Over ==> sent_for(receipt).len()
            == 0,
        receipt matches Receipt::Verdict(got) ==> !(got is Item) ==> sent_for(receipt).len() == 0,
        receipt matches Receipt::Packet(got) ==> !(got is Item) ==> sent_for(receipt).len() == 0,
        receipt matches Receipt::Report(None) ==> sent_for(receipt).len() == 0,
{
}

/// Two servers that differ in their queues alone hold the same packets and
/// verdicts and are in the same state.
pub proof fn law_queues_are_all_that_differs(a: Server, b: Server)
    requires
        same_but_queues(a, b),
    ensures
        a.stats == b.stats,
        a.ring.cap() == b.ring.cap(),
        a.ring.held() == b.ring.held(),
        a.ring.next() == b.ring.next(),
        a.engine@.events == b.engine@.events,
        a.engine@.status == b.engine@.status,
        a.engine@.connected == b.engine@.connected,
        a.engine@.own_hidden == b.engine@.own_hidden,
        a.engine@.own_port == b.engine@.own_port,
        a.engine@.dev_fd == b.engine@.dev_fd,
{
}

/// The first packet of a ring is number one, and nothing waits for a subscriber
/// that was there before it.
pub proof fn law_rings_begin_with_one(before: Ring, capacity: nat, p: Packet, after: Ring)
    requires
        fresh(before, capacity),
        capacity > 0,
        pushed(before, p, after),
    ensures
        after.cap() == capacity,
        after.held().len() == 1,
        after.held()[0].seq == 1,
        after.next() == 2,
        after.queues().len() == 0,
{
}

/// An engine view begins with nothing: no verdicts, no subscribers, a status of
/// zeros, no device, and not connected.
pub proof fn law_engines_begin_with_nothing(e: EngineView, own_port: u16, ev: PnpEvent)
    requires
        fresh_engine(e, own_port),
    ensures
        e.own_port == own_port,
        !e.connected,
        e.dev_fd is None,
        e.status.abi == 0,
        e.queues.len() == 0,
        engine_after(e, ev).events.len() + engine_after(e, ev).own_hidden == 1,
{
}

} // verus!
