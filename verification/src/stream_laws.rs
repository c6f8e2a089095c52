//! What the event stream promises: of its framing, and of a whole run.

use crate::capture::CaptureStats;
use crate::engine::{EngineView, PnpEvent};
use crate::fanout::Received;
use crate::http::Server;
use crate::json::{
    escape_text, field_text, fields_text, law_strings_end_at_their_mark, object_text, Field,
};
use crate::report::{engine_fields, packet_fields, status_fields, verdict_fields};
use crate::ring::Packet;
use crate::stream::{
    engine_data, event_text, phase_after, receipt_of, sent_for, stats_data, stepped,
    stream_head_text, EventStream, Moment, Phase, Receipt, REPORT_EVERY,
};
use crate::text::{all_digits, decimal, int_text, join, lemma_decimal_value, lemma_join_push};
use std::sync::Arc;
use vstd::prelude::*;

verus! {

/// Whether a text holds no control character, and so no line break.
pub open spec fn one_line(s: Seq<char>) -> bool {
    forall|i: int| 0 <= i < s.len() ==> #[trigger] s[i] >= ' '
}

proof fn lemma_number_is_one_line(v: int)
    ensures
        one_line(int_text(v)),
{
    let n = if v < 0 {
        (-v) as nat
    } else {
        v as nat
    };
    let d = decimal(n);
    lemma_decimal_value(n);
    assert(all_digits(d));
    assert forall|i: int| 0 <= i < int_text(v).len() implies #[trigger] int_text(v)[i] >= ' ' by {
        if v < 0 {
            if i > 0 {
                assert(int_text(v)[i] == d[i - 1]);
            }
        } else {
            assert(int_text(v)[i] == d[i]);
        }
    }
}

proof fn lemma_string_is_one_line(s: Seq<char>)
    ensures
        one_line(escape_text(s)),
{
    law_strings_end_at_their_mark(s, seq![]);
}

proof fn lemma_values_are_one_line()
    ensures
        forall|v: int| one_line(#[trigger] int_text(v)),
        forall|s: Seq<char>| one_line(#[trigger] escape_text(s)),
{
    assert forall|v: int| one_line(#[trigger] int_text(v)) by {
        lemma_number_is_one_line(v);
    }
    assert forall|s: Seq<char>| one_line(#[trigger] escape_text(s)) by {
        lemma_string_is_one_line(s);
    }
}

proof fn lemma_join_is_one_line(parts: Seq<Seq<char>>)
    requires
        forall|i: int| 0 <= i < parts.len() ==> one_line(#[trigger] parts[i]),
    ensures
        one_line(join(parts, seq![','])),
    decreases parts.len(),
{
    if parts.len() > 0 {
        let head = parts.drop_last();
        assert forall|i: int| 0 <= i < head.len() implies one_line(#[trigger] head[i]) by {
            assert(head[i] == parts[i]);
        }
        lemma_join_is_one_line(head);
        lemma_join_push(head, seq![','], parts.last());
        assert(head.push(parts.last()) == parts);
        assert(one_line(parts[parts.len() - 1]));
    }
}

/// An object is one line where its keys and its values are.
pub proof fn law_objects_are_one_line(fields: Seq<Field>)
    requires
        forall|i: int|
            0 <= i < fields.len() ==> one_line((#[trigger] fields[i]).key) && one_line(
                fields[i].value,
            ),
    ensures
        one_line(object_text(fields)),
{
    let parts = fields.map_values(|f: Field| field_text(f));
    assert forall|i: int| 0 <= i < parts.len() implies one_line(#[trigger] parts[i]) by {
        let f = fields[i];
        assert(one_line(f.key) && one_line(f.value));
        assert(parts[i] == field_text(f));
    }
    lemma_join_is_one_line(parts);
    assert(fields_text(fields) == join(parts, seq![',']));
}

/// A packet event's data is one line.
pub proof fn law_packets_are_one_line(p: Packet)
    ensures
        one_line(object_text(packet_fields(p))),
{
    lemma_values_are_one_line();
    reveal_strlit("seq");
    reveal_strlit("ts_sec");
    reveal_strlit("ts_nsec");
    reveal_strlit("ifindex");
    reveal_strlit("ifname");
    reveal_strlit("dir");
    reveal_strlit("wire_len");
    reveal_strlit("data");
    law_objects_are_one_line(packet_fields(p));
}

/// A verdict event's data is one line, whatever the kernel attributes it to.
pub proof fn law_verdicts_are_one_line(ev: PnpEvent)
    ensures
        one_line(object_text(verdict_fields(ev))),
{
    lemma_values_are_one_line();
    reveal_strlit("seq");
    reveal_strlit("t_ns");
    reveal_strlit("seat");
    reveal_strlit("layer");
    reveal_strlit("verdict");
    reveal_strlit("reject_kind");
    reveal_strlit("backstop");
    reveal_strlit("fail_closed");
    reveal_strlit("reject_degraded");
    reveal_strlit("rejudged");
    reveal_strlit("dir");
    reveal_strlit("family");
    reveal_strlit("protocol");
    reveal_strlit("flow_state");
    reveal_strlit("ifindex");
    reveal_strlit("src");
    reveal_strlit("dst");
    reveal_strlit("src_port");
    reveal_strlit("dst_port");
    reveal_strlit("ether_type");
    reveal_strlit("length");
    reveal_strlit("fx_tags");
    reveal_strlit("fx_counts");
    reveal_strlit("fx_reports");
    reveal_strlit("fx_prompts");
    reveal_strlit("by");
    law_objects_are_one_line(verdict_fields(ev));
}

/// The data of the report on the daemon is one line.
pub proof fn law_status_is_one_line(
    version: Seq<char>,
    uptime_s: int,
    stats: CaptureStats,
    ring_capacity: int,
)
    ensures
        one_line(object_text(status_fields(version, uptime_s, stats, ring_capacity))),
{
    lemma_values_are_one_line();
    reveal_strlit("daemon");
    reveal_strlit("uptime_s");
    reveal_strlit("captured");
    reveal_strlit("dropped");
    reveal_strlit("suppressed");
    reveal_strlit("ring_capacity");
    law_objects_are_one_line(status_fields(version, uptime_s, stats, ring_capacity));
}

/// The data of the report on the engine is one line.
pub proof fn law_engine_is_one_line(e: EngineView)
    ensures
        one_line(object_text(engine_fields(e))),
{
    lemma_values_are_one_line();
    reveal_strlit("connected");
    reveal_strlit("own_verdicts_hidden");
    reveal_strlit("abi");
    reveal_strlit("generation");
    reveal_strlit("enforcing");
    reveal_strlit("events_dropped");
    reveal_strlit("seen_ingress");
    reveal_strlit("seen_egress");
    reveal_strlit("seen_local_in");
    reveal_strlit("deferred");
    reveal_strlit("fallback_judged");
    reveal_strlit("parse_errors");
    reveal_strlit("judged");
    reveal_strlit("permissive");
    reveal_strlit("fail_closed");
    reveal_strlit("verdict_pass");
    reveal_strlit("verdict_drop");
    reveal_strlit("verdict_reject");
    reveal_strlit("reject_degraded");
    reveal_strlit("fx_tags");
    reveal_strlit("fx_counts");
    reveal_strlit("fx_reports");
    reveal_strlit("fx_prompts");
    reveal_strlit("last_ingest_error");
    reveal_strlit("last_ingest_t_ns");
    reveal_strlit("tag_writes");
    reveal_strlit("tag_untracked");
    reveal_strlit("tag_refused");
    reveal_strlit("count_writes");
    reveal_strlit("count_key_absent");
    reveal_strlit("count_refused");
    reveal_strlit("reports_emitted");
    reveal_strlit("counter_cells");
    reveal_strlit("reporting_level");
    reveal_strlit("seen_local_out");
    reveal_strlit("flow_judged");
    reveal_strlit("flow_cached");
    reveal_strlit("flow_rejudged");
    reveal_strlit("flow_expired");
    reveal_strlit("flow_uncached");
    reveal_strlit("refusals_emitted");
    reveal_strlit("refusals_bypassed");
    reveal_strlit("teardowns_emitted");
    law_objects_are_one_line(engine_fields(e));
}

/// Where an event of the stream ends: at its first empty line.
pub open spec fn event_end(s: Seq<char>) -> int
    decreases s.len(),
{
    if s.len() < 2 {
        s.len() as int
    } else if s[0] == '\n' && s[1] == '\n' {
        2
    } else {
        1 + event_end(s.skip(1))
    }
}

proof fn lemma_event_end(line: Seq<char>, rest: Seq<char>)
    requires
        one_line(line),
    ensures
        event_end(line + seq!['\n', '\n'] + rest) == line.len() + 2,
    decreases line.len(),
{
    let s = line + seq!['\n', '\n'] + rest;
    if line.len() > 0 {
        let tail = line.skip(1);
        assert forall|i: int| 0 <= i < tail.len() implies #[trigger] tail[i] >= ' ' by {
            assert(tail[i] == line[i + 1]);
        }
        lemma_event_end(tail, rest);
        assert(s.skip(1) == tail + seq!['\n', '\n'] + rest);
        assert(s[0] == line[0]);
    }
}

/// Events whose name and data are one line keep apart: each ends where it was
/// ended, whatever follows.
pub proof fn law_events_keep_apart(name: Seq<char>, data: Seq<char>, rest: Seq<char>)
    requires
        one_line(name),
        one_line(data),
    ensures
        event_end(event_text(name, data) + rest) == event_text(name, data).len(),
{
    reveal_strlit("event: ");
    reveal_strlit("\ndata: ");
    reveal_strlit("\n\n");
    let first = "event: "@ + name;
    let second = "data: "@ + data;
    reveal_strlit("data: ");
    assert(one_line(first));
    assert(one_line(second));
    let s = event_text(name, data) + rest;
    assert("\ndata: "@ == seq!['\n'] + "data: "@);
    assert("\n\n"@ == seq!['\n', '\n']);
    assert(s == first + seq!['\n'] + (second + seq!['\n', '\n'] + rest));
    lemma_event_end(second, rest);
    lemma_past_one_break(first, second, rest);
}

proof fn lemma_past_one_break(first: Seq<char>, second: Seq<char>, rest: Seq<char>)
    requires
        one_line(first),
        one_line(second),
        second.len() > 0,
    ensures
        event_end(first + seq!['\n'] + (second + seq!['\n', '\n'] + rest)) == first.len() + 1
            + second.len() + 2,
    decreases first.len(),
{
    let t = second + seq!['\n', '\n'] + rest;
    let s = first + seq!['\n'] + t;
    lemma_event_end(second, rest);
    if first.len() > 0 {
        let tail = first.skip(1);
        assert forall|i: int| 0 <= i < tail.len() implies #[trigger] tail[i] >= ' ' by {
            assert(tail[i] == first[i + 1]);
        }
        lemma_past_one_break(tail, second, rest);
        assert(s.skip(1) == tail + seq!['\n'] + t);
        assert(s[0] == first[0]);
    } else {
        assert(s.skip(1) == t);
        assert(s[1] == second[0]);
    }
}

// ---------------------------------------------------------------------------
// A run of the stream
// ---------------------------------------------------------------------------
/// One step of a run: what it came upon, and when.
pub struct Tick {
    pub receipt: Receipt,
    pub now: u64,
}

/// What a stream does next behind a run.
pub open spec fn phase_of(run: Seq<Tick>) -> Phase {
    if run.len() == 0 {
        Phase::Head
    } else {
        phase_after(run.last().receipt)
    }
}

/// When a stream last reported, behind a run.
pub open spec fn last_report_of(run: Seq<Tick>) -> u64
    decreases run.len(),
{
    if run.len() == 0 {
        0
    } else if run.last().receipt is Reported {
        run.last().now
    } else {
        last_report_of(run.drop_last())
    }
}

/// The time of the last step of a run.
pub open spec fn last_now(run: Seq<Tick>) -> u64 {
    if run.len() == 0 {
        0
    } else {
        run.last().now
    }
}

/// Whether a step is one that a stream can take in a phase: it comes upon what
/// the phase looks at, and upon a report where two seconds have passed since
/// the last one and only there.
pub open spec fn can_follow(phase: Phase, last_report: u64, tick: Tick) -> bool {
    match phase {
        Phase::Head => tick.receipt is Head,
        Phase::Verdicts => tick.receipt is Verdict,
        Phase::FirstPacket => tick.receipt is Packet || tick.receipt is Waiting,
        Phase::MorePackets => tick.receipt is Packet,
        Phase::Report => tick.receipt matches Receipt::Report(due) && (due is Some <==> tick.now
            - last_report >= REPORT_EVERY),
        Phase::Reported => tick.receipt is Reported,
        Phase::Done => tick.receipt is Over,
    }
}

/// Whether steps are a run of a stream from its opening, on a clock that never
/// goes back.
pub open spec fn is_run(run: Seq<Tick>) -> bool
    decreases run.len(),
{
    run.len() > 0 ==> {
        let before = run.drop_last();
        &&& is_run(before)
        &&& can_follow(phase_of(before), last_report_of(before), run.last())
        &&& last_now(before) <= run.last().now
    }
}

/// Every step that a stream takes goes on with its run.
pub proof fn law_steps_make_a_run(
    run: Seq<Tick>,
    s: EventStream,
    server: Server,
    version: Seq<char>,
    moment: Moment,
)
    requires
        is_run(run),
        s.phase == phase_of(run),
        s.last_report == last_report_of(run),
        last_now(run) <= moment.now,
    ensures
        ({
            let receipt = receipt_of(s, server, version, moment);
            let longer = run.push(Tick { receipt, now: moment.now });
            &&& is_run(longer)
            &&& stepped(s, receipt, moment.now).phase == phase_of(longer)
            &&& stepped(s, receipt, moment.now).last_report == last_report_of(longer)
        }),
{
    let receipt = receipt_of(s, server, version, moment);
    let longer = run.push(Tick { receipt, now: moment.now });
    assert(longer.drop_last() == run);
}

/// All that is sent in a run.
pub open spec fn all_sent(run: Seq<Tick>) -> Seq<char>
    decreases run.len(),
{
    if run.len() == 0 {
        seq![]
    } else {
        all_sent(run.drop_last()) + sent_for(run.last().receipt)
    }
}

/// An event as the client reads it.
pub struct Event {
    pub name: Seq<char>,
    pub data: Seq<char>,
}

/// The events of a receipt: one for a verdict or a packet that was received,
/// two for a report that is due, and none for anything else.
pub open spec fn events_for(receipt: Receipt) -> Seq<Event> {
    match receipt {
        Receipt::Verdict(Received::Item(ev)) => seq![
            Event { name: "verdict"@, data: object_text(verdict_fields(ev)) },
        ],
        Receipt::Packet(Received::Item(p)) => seq![
            Event { name: "packet"@, data: object_text(packet_fields(*p)) },
        ],
        Receipt::Report(Some(d)) => seq![
            Event { name: "stats"@, data: stats_data(d) },
            Event { name: "engine"@, data: engine_data(d) },
        ],
        _ => seq![],
    }
}

/// The events of a run, in the order in which they were received.
pub open spec fn events_of(run: Seq<Tick>) -> Seq<Event>
    decreases run.len(),
{
    if run.len() == 0 {
        seq![]
    } else {
        events_of(run.drop_last()) + events_for(run.last().receipt)
    }
}

/// Events as they are sent, one behind the other.
pub open spec fn events_text(events: Seq<Event>) -> Seq<char>
    decreases events.len(),
{
    if events.len() == 0 {
        seq![]
    } else {
        events_text(events.drop_last()) + event_text(events.last().name, events.last().data)
    }
}

proof fn lemma_events_text_sum(a: Seq<Event>, b: Seq<Event>)
    ensures
        events_text(a + b) == events_text(a) + events_text(b),
    decreases b.len(),
{
    if b.len() > 0 {
        lemma_events_text_sum(a, b.drop_last());
        assert((a + b).drop_last() == a + b.drop_last());
        assert((a + b).last() == b.last());
        assert(events_text(a + b) == events_text(a) + events_text(b));
    } else {
        assert(a + b == a);
        assert(events_text(a) + events_text(b) == events_text(a));
    }
}

proof fn lemma_sent_for_is_its_events(receipt: Receipt)
    ensures
        !(receipt is Head) ==> sent_for(receipt) == events_text(events_for(receipt)),
{
    reveal_with_fuel(events_text, 3);
    let events = events_for(receipt);
    if events.len() == 1 {
        assert(events.drop_last() == Seq::<Event>::empty());
        assert(events_text(events) == event_text(events[0].name, events[0].data));
    } else if events.len() == 2 {
        assert(events.drop_last() == seq![events[0]]);
        assert(events.drop_last().drop_last() == Seq::<Event>::empty());
        assert(events_text(seq![events[0]]) == event_text(events[0].name, events[0].data));
    }
}

proof fn lemma_three_parts(a: Seq<char>, b: Seq<char>, c: Seq<char>)
    ensures
        (a + b) + c == a + (b + c),
{
}

/// What a run sends is the head and then, in the order in which they were
/// received, one event for each verdict and each packet, with a report only
/// where it is due.
#[verifier::rlimit(30)]
#[verifier::spinoff_prover]
pub proof fn law_stream_sends_what_it_receives(run: Seq<Tick>)
    requires
        is_run(run),
        run.len() > 0,
    ensures
        all_sent(run) == stream_head_text() + events_text(events_of(run)),
    decreases run.len(),
{
    let before = run.drop_last();
    let receipt = run.last().receipt;
    lemma_sent_for_is_its_events(receipt);
    lemma_events_text_sum(events_of(before), events_for(receipt));
    if before.len() > 0 {
        law_stream_sends_what_it_receives(before);
        assert(!(phase_of(before) == Phase::Head));
        lemma_three_parts(
            stream_head_text(),
            events_text(events_of(before)),
            events_text(events_for(receipt)),
        );
    } else {
        assert(all_sent(before) == Seq::<char>::empty());
        assert(events_of(before) == Seq::<Event>::empty());
        assert(events_of(run) == Seq::<Event>::empty());
        assert(all_sent(run) == stream_head_text() + events_text(events_of(run)));
    }
}

/// A text cut behind each of its empty lines, as a client reads it.
pub open spec fn frames(s: Seq<char>) -> Seq<Seq<char>>
    decreases s.len(),
{
    if s.len() == 0 {
        seq![]
    } else {
        proof {
            lemma_event_end_bounds(s);
        }
        seq![s.take(event_end(s))] + frames(s.skip(event_end(s)))
    }
}

pub proof fn lemma_event_end_bounds(s: Seq<char>)
    ensures
        s.len() > 0 ==> 0 < event_end(s) <= s.len(),
        s.len() == 0 ==> event_end(s) == 0,
    decreases s.len(),
{
    if s.len() >= 2 && !(s[0] == '\n' && s[1] == '\n') {
        lemma_event_end_bounds(s.skip(1));
    }
}

/// Whether the name and the data of an event are one line each.
spec fn plain_event(e: Event) -> bool {
    one_line(e.name) && one_line(e.data)
}

spec fn packet_in(p: Arc<Packet>) -> Packet {
    *p
}

proof fn lemma_events_are_plain(receipt: Receipt)
    ensures
        forall|i: int| 0 <= i < events_for(receipt).len() ==> plain_event(
            #[trigger] events_for(receipt)[i],
        ),
{
    reveal_strlit("verdict");
    reveal_strlit("packet");
    reveal_strlit("stats");
    reveal_strlit("engine");
    if receipt is Verdict {
        law_verdicts_are_one_line(receipt->Verdict_0->Item_0);
    } else if receipt is Packet {
        law_packets_are_one_line(packet_in(receipt->Packet_0->Item_0));
    } else if receipt is Report {
        let d = receipt->Report_0->0;
        law_status_is_one_line(d.version, d.uptime_s, d.stats, d.ring_capacity);
        law_engine_is_one_line(d.engine);
    }
}

proof fn lemma_run_is_plain(run: Seq<Tick>)
    ensures
        forall|i: int| 0 <= i < events_of(run).len() ==> plain_event(#[trigger] events_of(run)[i]),
    decreases run.len(),
{
    if run.len() > 0 {
        let head = events_of(run.drop_last());
        let tail = events_for(run.last().receipt);
        lemma_run_is_plain(run.drop_last());
        lemma_events_are_plain(run.last().receipt);
        assert forall|i: int| 0 <= i < events_of(run).len() implies plain_event(
            #[trigger] events_of(run)[i],
        ) by {
            if i < head.len() {
                assert(events_of(run)[i] == head[i]);
            } else {
                assert(events_of(run)[i] == tail[i - head.len()]);
            }
        }
    }
}

proof fn lemma_frames_are_events(events: Seq<Event>)
    requires
        forall|i: int| 0 <= i < events.len() ==> plain_event(#[trigger] events[i]),
    ensures
        frames(events_text(events)) == events.map_values(|e: Event| event_text(e.name, e.data)),
    decreases events.len(),
{
    let texts = events.map_values(|e: Event| event_text(e.name, e.data));
    if events.len() > 0 {
        let e = events[0];
        let rest = events.skip(1);
        let first = event_text(e.name, e.data);
        assert forall|i: int| 0 <= i < rest.len() implies plain_event(#[trigger] rest[i]) by {
            assert(rest[i] == events[i + 1]);
        }
        lemma_frames_are_events(rest);
        lemma_events_text_sum(seq![e], rest);
        assert(seq![e] + rest == events);
        assert(events_text(seq![e]) == first) by {
            reveal_with_fuel(events_text, 2);
            assert(seq![e].drop_last() == Seq::<Event>::empty());
            assert(Seq::<char>::empty() + first == first);
        }
        let s = events_text(events);
        assert(s == first + events_text(rest));
        assert(plain_event(events[0]));
        law_events_keep_apart(e.name, e.data, events_text(rest));
        assert(s.take(first.len() as int) == first);
        assert(s.skip(first.len() as int) == events_text(rest));
        assert(first.len() > 0) by {
            reveal_strlit("\n\n");
        }
        assert(texts == seq![first] + rest.map_values(
            |e: Event| event_text(e.name, e.data),
        ));
    } else {
        assert(texts == Seq::<Seq<char>>::empty());
    }
}

/// A client that cuts what follows the head at its empty lines reads the events
/// of the run, every one of them and nothing else.
pub proof fn law_client_reads_the_events(run: Seq<Tick>)
    requires
        is_run(run),
        run.len() > 0,
    ensures
        frames(all_sent(run).skip(stream_head_text().len() as int)) == events_of(run).map_values(
            |e: Event| event_text(e.name, e.data),
        ),
{
    law_stream_sends_what_it_receives(run);
    lemma_run_is_plain(run);
    lemma_frames_are_events(events_of(run));
    assert(all_sent(run).skip(stream_head_text().len() as int) == events_text(events_of(run)));
}

proof fn lemma_prefix_is_run(run: Seq<Tick>, n: int)
    requires
        is_run(run),
        0 <= n <= run.len(),
    ensures
        is_run(run.take(n)),
    decreases run.len(),
{
    if n < run.len() {
        lemma_prefix_is_run(run.drop_last(), n);
        assert(run.drop_last().take(n) == run.take(n));
    } else {
        assert(run.take(n) == run);
    }
}

proof fn lemma_clock(run: Seq<Tick>, i: int)
    requires
        is_run(run),
        0 <= i < run.len(),
    ensures
        run[i].now <= last_now(run),
    decreases run.len(),
{
    if i < run.len() - 1 {
        lemma_clock(run.drop_last(), i);
    }
}

/// Once a report went out, the stream notes it, and it counts from then on.
proof fn lemma_report_noted(run: Seq<Tick>, i: int)
    requires
        is_run(run),
        0 <= i,
        i + 1 < run.len(),
        run[i].receipt matches Receipt::Report(Some(_)),
    ensures
        run[i + 1].receipt is Reported,
        run[i].now <= last_report_of(run),
    decreases run.len(),
{
    let before = run.drop_last();
    lemma_clock(run, i);
    if i + 2 < run.len() {
        lemma_report_noted(before, i);
    } else {
        assert(before.last() == run[i]);
        assert(phase_of(before) == Phase::Reported);
    }
}

/// No two reports of a run are less than two seconds apart.
pub proof fn law_reports_are_two_seconds_apart(run: Seq<Tick>, i: int, j: int)
    requires
        is_run(run),
        0 <= i < j < run.len(),
        run[i].receipt matches Receipt::Report(Some(_)),
        run[j].receipt matches Receipt::Report(Some(_)),
    ensures
        run[j].now - run[i].now >= REPORT_EVERY,
{
    let upto = run.take(j + 1);
    let before = run.take(j);
    lemma_prefix_is_run(run, j + 1);
    lemma_report_noted(run, i);
    assert(upto.drop_last() == before);
    assert(upto.last() == run[j]);
    assert(j != i + 1);
    assert(before[i] == run[i]);
    lemma_report_noted(before, i);
}

/// Whether a receipt tells that a queue was cut off.
pub open spec fn tells_cut_off(receipt: Receipt) -> bool {
    receipt == Receipt::Verdict(Received::Disconnected) || receipt == Receipt::Packet(
        Received::Disconnected,
    )
}

/// A stream ends exactly where one of its queues was cut off.
pub proof fn law_stream_ends_where_it_is_cut_off(run: Seq<Tick>)
    requires
        is_run(run),
    ensures
        phase_of(run) == Phase::Done <==> exists|i: int|
            0 <= i < run.len() && tells_cut_off((#[trigger] run[i]).receipt),
    decreases run.len(),
{
    if run.len() > 0 {
        let before = run.drop_last();
        law_stream_ends_where_it_is_cut_off(before);
        let last = run.last();
        assert(run[run.len() - 1] == last);
        if phase_of(before) == Phase::Done {
            let i = choose|i: int|
                0 <= i < before.len() && tells_cut_off((#[trigger] before[i]).receipt);
            assert(run[i] == before[i]);
        }
        if exists|i: int| 0 <= i < run.len() && tells_cut_off((#[trigger] run[i]).receipt) {
            let i = choose|i: int|
                0 <= i < run.len() && tells_cut_off((#[trigger] run[i]).receipt);
            if i < before.len() {
                assert(before[i] == run[i]);
            }
        }
    }
}

/// The stream looks for packets only once no verdict waits: the last verdict it
/// asked for was not there, and since then it has only waited.
pub proof fn law_verdicts_come_before_packets(run: Seq<Tick>)
    requires
        is_run(run),
        phase_of(run) == Phase::FirstPacket,
    ensures
        exists|i: int|
            0 <= i < run.len() && (#[trigger] run[i]).receipt == Receipt::Verdict(Received::Empty)
                && (forall|k: int| i < k < run.len() ==> (#[trigger] run[k]).receipt is Waiting),
    decreases run.len(),
{
    let before = run.drop_last();
    let last = run.last();
    assert(run[run.len() - 1] == last);
    if last.receipt is Waiting {
        law_verdicts_come_before_packets(before);
        let i = choose|i: int|
            0 <= i < before.len() && (#[trigger] before[i]).receipt == Receipt::Verdict(
                Received::Empty,
            ) && (forall|k: int|
                i < k < before.len() ==> (#[trigger] before[k]).receipt is Waiting);
        assert(run[i] == before[i]);
        assert forall|k: int| i < k < run.len() implies (#[trigger] run[k]).receipt is Waiting by {
            if k < before.len() {
                assert(run[k] == before[k]);
            }
        }
    }
}

} // verus!
