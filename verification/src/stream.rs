//! The server-sent-events stream: live packets as `packet` events, verdicts as
//! `verdict` events, and a `stats` and an `engine` event every two seconds so
//! the header numbers stay honest even on a silent wire.

use crate::capture::CaptureStats;
use crate::engine::{EngineView, PnpEvent};
use crate::fanout::{found, joined, left, queue_of, taken, QueueView, Received};
use crate::http::Server;
use crate::json::object_text;
use crate::report::{
    engine_fields, engine_json, packet_fields, packet_json, status_fields, status_json,
    verdict_fields, verdict_json,
};
use crate::ring::Packet;
use std::sync::Arc;
use vstd::prelude::*;
use vstd::string::StringExecFns;

verus! {

/// How long the stream waits for a packet, in milliseconds.
pub const PACKET_WAIT_MS: u64 = 150;

/// How often the stream reports on the daemon, in nanoseconds.
pub const REPORT_EVERY: u64 = 2_000_000_000;

/// The lines that open the event stream.
pub open spec fn stream_head_text() -> Seq<char> {
    "HTTP/1.1 200 OK\r\nContent-Type: text/event-stream\r\nCache-Control: no-store\r\nConnection: keep-alive\r\n\r\n"@
}

/// The lines that open the event stream.
pub fn stream_head() -> (r: &'static str)
    ensures
        r@ == stream_head_text(),
{
    "HTTP/1.1 200 OK\r\nContent-Type: text/event-stream\r\nCache-Control: no-store\r\nConnection: keep-alive\r\n\r\n"
}

/// One event of the stream.
pub open spec fn event_text(name: Seq<char>, data: Seq<char>) -> Seq<char> {
    "event: "@ + name + "\ndata: "@ + data + "\n\n"@
}

fn event_of(name: &str, data: &str) -> (r: String)
    ensures
        r@ == event_text(name@, data@),
{
    let mut r = String::new();
    r.append("event: ");
    r.append(name);
    r.append("\ndata: ");
    r.append(data);
    r.append("\n\n");
    assert(r@ == event_text(name@, data@));
    r
}

/// What the stream does next.
#[derive(Clone, Copy, PartialEq, Eq, Structural, Debug)]
pub enum Phase {
    /// Send the head.
    Head,
    /// Take the verdicts that wait.
    Verdicts,
    /// Wait briefly for a packet.
    FirstPacket,
    /// Take the packets that wait behind it.
    MorePackets,
    /// Report on the daemon if that is due.
    Report,
    /// Note when that went out, and start over.
    Reported,
    /// Close the stream.
    Done,
}

/// What a report is made of.
pub struct ReportData {
    pub version: Seq<char>,
    pub uptime_s: int,
    pub stats: CaptureStats,
    pub ring_capacity: int,
    pub engine: EngineView,
}

/// What a step of the stream comes upon.
pub enum Receipt {
    Head,
    Verdict(Received<PnpEvent>),
    Packet(Received<Arc<Packet>>),
    /// No packet yet, and time left to wait for one.
    Waiting,
    /// A report that is due, or none.
    Report(Option<ReportData>),
    Reported,
    Over,
}

/// What is done next behind a receipt. Verdicts are taken until none waits. Once
/// a packet came, all that wait are taken, since one packet at a time would
/// throttle a busy wire and let verdicts race far ahead of their packets. The
/// stream ends where one of its queues was cut off.
pub open spec fn phase_after(receipt: Receipt) -> Phase {
    match receipt {
        Receipt::Head => Phase::Reported,
        Receipt::Verdict(got) => match got {
            Received::Item(_) => Phase::Verdicts,
            Received::Empty => Phase::FirstPacket,
            Received::Disconnected => Phase::Done,
        },
        Receipt::Packet(got) => match got {
            Received::Item(_) => Phase::MorePackets,
            Received::Empty => Phase::Report,
            Received::Disconnected => Phase::Done,
        },
        Receipt::Waiting => Phase::FirstPacket,
        Receipt::Report(due) => if due is Some {
            Phase::Reported
        } else {
            Phase::Verdicts
        },
        Receipt::Reported => Phase::Verdicts,
        Receipt::Over => Phase::Done,
    }
}

/// The data of the `stats` event.
pub open spec fn stats_data(d: ReportData) -> Seq<char> {
    object_text(status_fields(d.version, d.uptime_s, d.stats, d.ring_capacity))
}

/// The data of the `engine` event.
pub open spec fn engine_data(d: ReportData) -> Seq<char> {
    object_text(engine_fields(d.engine))
}

/// What is sent for a receipt.
pub open spec fn sent_for(receipt: Receipt) -> Seq<char> {
    match receipt {
        Receipt::Head => stream_head_text(),
        Receipt::Verdict(Received::Item(ev)) => event_text(
            "verdict"@,
            object_text(verdict_fields(ev)),
        ),
        Receipt::Packet(Received::Item(p)) => event_text(
            "packet"@,
            object_text(packet_fields(*p)),
        ),
        Receipt::Report(Some(d)) => event_text("stats"@, stats_data(d)) + event_text(
            "engine"@,
            engine_data(d),
        ),
        _ => seq![],
    }
}

/// The moment of a step.
pub struct Moment {
    /// In nanoseconds, on a clock that never goes back.
    pub now: u64,
    /// How long the daemon has been up, in seconds.
    pub uptime_s: i64,
    /// Whether the wait for a packet is over.
    pub waited: bool,
}

/// A client's event stream: its queues, what it does next, and when it last
/// reported.
pub struct EventStream {
    pub packets: usize,
    pub verdicts: usize,
    pub phase: Phase,
    pub last_report: u64,
}

/// What a step of a stream comes upon.
pub open spec fn receipt_of(
    s: EventStream,
    server: Server,
    version: Seq<char>,
    moment: Moment,
) -> Receipt {
    let packet = found(server.ring.queues(), s.packets as int);
    match s.phase {
        Phase::Head => Receipt::Head,
        Phase::Verdicts => Receipt::Verdict(found(server.engine@.queues, s.verdicts as int)),
        Phase::FirstPacket => if packet is Empty && !moment.waited {
            Receipt::Waiting
        } else {
            Receipt::Packet(packet)
        },
        Phase::MorePackets => Receipt::Packet(packet),
        Phase::Report => Receipt::Report(
            if moment.now - s.last_report >= REPORT_EVERY {
                Some(
                    ReportData {
                        version,
                        uptime_s: moment.uptime_s as int,
                        stats: server.stats,
                        ring_capacity: server.ring.cap() as int,
                        engine: server.engine@,
                    },
                )
            } else {
                None
            },
        ),
        Phase::Reported => Receipt::Reported,
        Phase::Done => Receipt::Over,
    }
}

/// A stream behind a receipt.
pub open spec fn stepped(s: EventStream, receipt: Receipt, now: u64) -> EventStream {
    EventStream {
        phase: phase_after(receipt),
        last_report: if receipt is Reported {
            now
        } else {
            s.last_report
        },
        ..s
    }
}

/// Whether a server differs from another only in the queues of its subscribers.
pub open spec fn same_but_queues(a: Server, b: Server) -> bool {
    &&& a.stats == b.stats
    &&& a.ring.cap() == b.ring.cap()
    &&& a.ring.held() == b.ring.held()
    &&& a.ring.next() == b.ring.next()
    &&& a.engine@ == (EngineView { queues: a.engine@.queues, ..b.engine@ })
}

/// A stream that was just opened.
pub open spec fn begun(packets: usize, verdicts: usize) -> EventStream {
    EventStream { packets, verdicts, phase: Phase::Head, last_report: 0 }
}

/// The packet queues behind a receipt.
pub open spec fn packets_behind(
    qs: Seq<Option<QueueView<Arc<Packet>>>>,
    s: EventStream,
    receipt: Receipt,
) -> Seq<Option<QueueView<Arc<Packet>>>> {
    if receipt is Packet {
        taken(qs, s.packets as int)
    } else {
        qs
    }
}

/// The verdict queues behind a receipt.
pub open spec fn verdicts_behind(
    qs: Seq<Option<QueueView<PnpEvent>>>,
    s: EventStream,
    receipt: Receipt,
) -> Seq<Option<QueueView<PnpEvent>>> {
    if receipt is Verdict {
        taken(qs, s.verdicts as int)
    } else {
        qs
    }
}

impl EventStream {
    /// Joins both live streams. The head comes first.
    pub fn open(server: &mut Server) -> (r: EventStream)
        requires
            old(server).ring.wf(),
            old(server).engine.wf(),
        ensures
            final(server).ring.wf(),
            final(server).engine.wf(),
            same_but_queues(*final(server), *old(server)),
            queue_of(old(server).ring.queues(), r.packets as int) is None,
            queue_of(old(server).engine@.queues, r.verdicts as int) is None,
            final(server).ring.queues() == joined(old(server).ring.queues(), r.packets as int),
            final(server).engine@.queues == joined(
                old(server).engine@.queues,
                r.verdicts as int,
            ),
            r == begun(r.packets, r.verdicts),
    {
        let packets = server.ring.subscribe();
        let verdicts = server.engine.subscribe();
        EventStream { packets, verdicts, phase: Phase::Head, last_report: 0 }
    }

    /// Leaves both live streams.
    pub fn close(self, server: &mut Server)
        requires
            old(server).ring.wf(),
            old(server).engine.wf(),
        ensures
            final(server).ring.wf(),
            final(server).engine.wf(),
            same_but_queues(*final(server), *old(server)),
            final(server).ring.queues() == left(old(server).ring.queues(), self.packets as int),
            final(server).engine@.queues == left(
                old(server).engine@.queues,
                self.verdicts as int,
            ),
    {
        server.ring.unsubscribe(self.packets);
        server.engine.unsubscribe(self.verdicts);
    }

    /// One step of the stream: what to send, which may be nothing.
    pub fn step(&mut self, server: &mut Server, version: &str, moment: &Moment) -> (r: String)
        requires
            old(server).ring.wf(),
            old(server).engine.wf(),
        ensures
            final(server).ring.wf(),
            final(server).engine.wf(),
            ({
                let receipt = receipt_of(*old(self), *old(server), version@, *moment);
                &&& r@ == sent_for(receipt)
                &&& *final(self) == stepped(*old(self), receipt, moment.now)
                &&& same_but_queues(*final(server), *old(server))
                &&& final(server).ring.queues() == packets_behind(
                    old(server).ring.queues(),
                    *old(self),
                    receipt,
                )
                &&& final(server).engine@.queues == verdicts_behind(
                    old(server).engine@.queues,
                    *old(self),
                    receipt,
                )
            }),
    {
        match self.phase {
            Phase::Head => {
                self.phase = Phase::Reported;
                stream_head().to_owned()
            },
            Phase::Verdicts => match server.engine.recv(self.verdicts) {
                Received::Item(ev) => event_of("verdict", verdict_json(&ev).as_str()),
                Received::Empty => {
                    self.phase = Phase::FirstPacket;
                    nothing()
                },
                Received::Disconnected => {
                    self.phase = Phase::Done;
                    nothing()
                },
            },
            Phase::FirstPacket => match server.ring.recv(self.packets) {
                Received::Item(p) => {
                    self.phase = Phase::MorePackets;
                    event_of("packet", packet_json(&p).as_str())
                },
                Received::Empty => {
                    if moment.waited {
                        self.phase = Phase::Report;
                    }
                    nothing()
                },
                Received::Disconnected => {
                    self.phase = Phase::Done;
                    nothing()
                },
            },
            Phase::MorePackets => match server.ring.recv(self.packets) {
                Received::Item(p) => event_of("packet", packet_json(&p).as_str()),
                Received::Empty => {
                    self.phase = Phase::Report;
                    nothing()
                },
                Received::Disconnected => {
                    self.phase = Phase::Done;
                    nothing()
                },
            },
            Phase::Report => {
                if moment.now < self.last_report || moment.now - self.last_report < REPORT_EVERY {
                    self.phase = Phase::Verdicts;
                    return nothing();
                }
                self.phase = Phase::Reported;
                let mut text = event_of(
                    "stats",
                    status_json(version, moment.uptime_s, &server.stats, &server.ring).as_str(),
                );
                text.append(event_of("engine", engine_json(&server.engine).as_str()).as_str());
                text
            },
            Phase::Reported => {
                self.phase = Phase::Verdicts;
                self.last_report = moment.now;
                nothing()
            },
            Phase::Done => nothing(),
        }
    }
}

fn nothing() -> (r: String)
    ensures
        r@ == Seq::<char>::empty(),
{
    String::new()
}

} // verus!
