//! What the daemon shows of its state, as JSON.

use crate::bytes::{be16, find_zero, read_be16, until_zero};
use crate::capture::CaptureStats;
use crate::engine::{
    CountersDump, Engine, EngineView, FlowsDump, PnpCounterRec, PnpEvent, PnpFlowRec,
    EV_F_BACKSTOP, EV_F_FAIL_CLOSED, EV_F_REJECT_DEGRADED, EV_F_REJUDGED, FLOW_SENTENCES,
    KEY_DST_ADDR, KEY_INTERFACE, KEY_SRC_ADDR, VERDICT_PASS, VERDICT_REJECT,
};
use crate::json::{
    array_text, escape, escape_text, hex, hex_text, num_field, object_text, raw_field, str_field,
    Field, Number, Obj,
};
use crate::ring::{Packet, Ring};
use crate::text::{
    decimal, text_from, hex_fixed, int_text, join, join_texts, bytes_text, numeral,
    push_decimal, push_hex_fixed, push_int, push_numeral, texts,
};
use std::sync::Arc;
use vstd::prelude::*;
use vstd::slice::slice_subrange;
use vstd::string::StringExecFns;

verus! {

/// The JSON array of values that are JSON text already.
pub(crate) fn array_of(values: &[String]) -> (r: String)
    ensures
        r@ == array_text(texts(values@)),
{
    let mut r = String::new();
    r.push('[');
    proof {
        reveal_strlit(",");
        assert(","@ == seq![',']);
    }
    r.append(join_texts(values, ",").as_str());
    r.push(']');
    assert(r@ == array_text(texts(values@)));
    r
}

/// The JSON array of two numbers.
fn pair_of(a: u64, b: u64) -> (r: String)
    ensures
        r@ == array_text(seq![int_text(a as int), int_text(b as int)]),
{
    let mut x = String::new();
    push_int(&mut x, a as i128);
    let mut y = String::new();
    push_int(&mut y, b as i128);
    let parts: Vec<String> = vec![x, y];
    assert(texts(parts@) == seq![int_text(a as int), int_text(b as int)]);
    array_of(parts.as_slice())
}

/// A number in sixteen hexadecimal digits.
fn hash_text(n: u64) -> (r: String)
    ensures
        r@ == hex_fixed(n as nat, 16),
{
    let mut r = String::new();
    push_hex_fixed(&mut r, n, 16);
    assert(r@ == hex_fixed(n as nat, 16));
    r
}

/// The text of a fixed-size field, which ends at its first zero byte.
fn field_of(bytes: &[u8]) -> (r: String)
    ensures
        r@ == bytes_text(until_zero(bytes@)),
{
    let end = find_zero(bytes);
    text_from(slice_subrange(bytes, 0, end))
}

// ---------------------------------------------------------------------------
// Addresses
// ---------------------------------------------------------------------------
/// The text of an address: dotted decimal for IPv4, eight groups of
/// hexadecimal for IPv6, and nothing for any other family.
pub open spec fn addr_text(family: u8, a: Seq<u8>) -> Seq<char> {
    if family == 4 {
        join(
            seq![
                decimal(a[0] as nat),
                decimal(a[1] as nat),
                decimal(a[2] as nat),
                decimal(a[3] as nat),
            ],
            seq!['.'],
        )
    } else if family == 6 {
        join(Seq::new(8, |i: int| numeral(be16(a, 2 * i), 16)), seq![':'])
    } else {
        seq![]
    }
}

/// The text of an address.
pub fn fmt_addr(family: u8, bytes: &[u8; 16]) -> (r: String)
    ensures
        r@ == addr_text(family, bytes@),
{
    let a: &[u8] = bytes;
    let mut parts: Vec<String> = Vec::new();
    if family == 4 {
        let mut i: usize = 0;
        while i < 4
            invariant
                i <= 4,
                a@ == bytes@,
                a@.len() == 16,
                texts(parts@) == Seq::new(i as nat, |k: int| decimal(a@[k] as nat)),
            decreases 4 - i,
        {
            let mut s = String::new();
            push_decimal(&mut s, a[i] as u128);
            assert(s@ == decimal(a@[i as int] as nat));
            let ghost before = texts(parts@);
            parts.push(s);
            assert(texts(parts@) == before.push(s@));
            i += 1;
            assert(texts(parts@) == Seq::new(i as nat, |k: int| decimal(a@[k] as nat)));
        }
        proof {
            reveal_strlit(".");
            assert("."@ == seq!['.']);
            assert(texts(parts@) == seq![
                decimal(a@[0] as nat),
                decimal(a@[1] as nat),
                decimal(a@[2] as nat),
                decimal(a@[3] as nat),
            ]);
        }
        join_texts(parts.as_slice(), ".")
    } else if family == 6 {
        let mut i: usize = 0;
        while i < 8
            invariant
                i <= 8,
                a@ == bytes@,
                a@.len() == 16,
                texts(parts@) == Seq::new(i as nat, |k: int| numeral(be16(a@, 2 * k), 16)),
            decreases 8 - i,
        {
            let mut s = String::new();
            push_numeral(&mut s, read_be16(a, 2 * i) as u128, 16);
            assert(s@ == numeral(be16(a@, 2 * i as int), 16));
            let ghost before = texts(parts@);
            parts.push(s);
            assert(texts(parts@) == before.push(s@));
            i += 1;
            assert(texts(parts@) == Seq::new(i as nat, |k: int| numeral(be16(a@, 2 * k), 16)));
        }
        proof {
            reveal_strlit(":");
            assert(":"@ == seq![':']);
        }
        join_texts(parts.as_slice(), ":")
    } else {
        String::new()
    }
}

// ---------------------------------------------------------------------------
// Verdicts
// ---------------------------------------------------------------------------
/// The name of a verdict.
pub open spec fn verdict_text(v: u8) -> Seq<char> {
    if v == VERDICT_PASS {
        "pass"@
    } else if v == VERDICT_REJECT {
        "reject"@
    } else {
        "drop"@
    }
}

/// The name of a verdict.
pub fn verdict_name(v: u8) -> (r: &'static str)
    ensures
        r@ == verdict_text(v),
{
    if v == VERDICT_PASS {
        "pass"
    } else if v == VERDICT_REJECT {
        "reject"
    } else {
        "drop"
    }
}

/// The kind of a rejection; nothing where the verdict is none.
pub open spec fn reject_text(verdict: u8, kind: u8) -> Seq<char> {
    if verdict == VERDICT_REJECT {
        if kind == 1 {
            "Prohibited"@
        } else {
            "Refused"@
        }
    } else {
        ""@
    }
}

fn reject_name(verdict: u8, kind: u8) -> (r: &'static str)
    ensures
        r@ == reject_text(verdict, kind),
{
    if verdict == VERDICT_REJECT {
        if kind == 1 {
            "Prohibited"
        } else {
            "Refused"
        }
    } else {
        ""
    }
}

/// The seat at which a packet was judged.
pub open spec fn seat_text(seat: u8) -> Seq<char> {
    if seat == 1 {
        "ingress"@
    } else if seat == 2 {
        "egress"@
    } else if seat == 4 {
        "local-out"@
    } else {
        "local-in"@
    }
}

fn seat_name(seat: u8) -> (r: &'static str)
    ensures
        r@ == seat_text(seat),
{
    if seat == 1 {
        "ingress"
    } else if seat == 2 {
        "egress"
    } else if seat == 4 {
        "local-out"
    } else {
        "local-in"
    }
}

/// The policy layer that judged.
pub open spec fn layer_text(layer: u8) -> Seq<char> {
    if layer == 1 {
        "RawPacket"@
    } else if layer == 2 {
        "Flow"@
    } else {
        "Packet"@
    }
}

fn layer_name(layer: u8) -> (r: &'static str)
    ensures
        r@ == layer_text(layer),
{
    if layer == 1 {
        "RawPacket"
    } else if layer == 2 {
        "Flow"
    } else {
        "Packet"
    }
}

/// The direction of judged traffic.
pub open spec fn way_text(direction: u8) -> Seq<char> {
    if direction == 1 {
        "out"@
    } else {
        "in"@
    }
}

fn way_name(direction: u8) -> (r: &'static str)
    ensures
        r@ == way_text(direction),
{
    if direction == 1 {
        "out"
    } else {
        "in"
    }
}

/// One for a set flag, zero for one that is not.
pub open spec fn flag(set: bool) -> int {
    if set {
        1
    } else {
        0
    }
}

/// What is shown of a verdict.
pub open spec fn verdict_fields(ev: PnpEvent) -> Seq<Field> {
    seq![
        num_field("seq"@, ev.seq as int),
        num_field("t_ns"@, ev.t_ns as int),
        str_field("seat"@, seat_text(ev.seat)),
        str_field("layer"@, layer_text(ev.layer)),
        str_field("verdict"@, verdict_text(ev.verdict)),
        str_field("reject_kind"@, reject_text(ev.verdict, ev.reject_kind)),
        num_field("backstop"@, flag(ev.flags & EV_F_BACKSTOP != 0)),
        num_field("fail_closed"@, flag(ev.flags & EV_F_FAIL_CLOSED != 0)),
        num_field("reject_degraded"@, flag(ev.flags & EV_F_REJECT_DEGRADED != 0)),
        num_field("rejudged"@, flag(ev.flags & EV_F_REJUDGED != 0)),
        str_field("dir"@, way_text(ev.direction)),
        num_field("family"@, ev.addr_family as int),
        num_field("protocol"@, ev.protocol as int),
        num_field("flow_state"@, ev.flow_state as int),
        num_field("ifindex"@, ev.ifindex as int),
        str_field("src"@, addr_text(ev.addr_family, ev.src_addr@)),
        str_field("dst"@, addr_text(ev.addr_family, ev.dst_addr@)),
        num_field("src_port"@, ev.src_port as int),
        num_field("dst_port"@, ev.dst_port as int),
        num_field("ether_type"@, ev.ether_type as int),
        num_field("length"@, ev.length as int),
        num_field("fx_tags"@, ev.effects as int % 256),
        num_field("fx_counts"@, ev.effects as int / 0x100 % 256),
        num_field("fx_reports"@, ev.effects as int / 0x1_0000 % 256),
        num_field("fx_prompts"@, ev.effects as int / 0x100_0000 % 256),
        str_field("by"@, bytes_text(until_zero(ev.attributed@))),
    ]
}

/// A verdict as JSON.
pub fn verdict_json(ev: &PnpEvent) -> (r: String)
    ensures
        r@ == object_text(verdict_fields(*ev)),
{
    let attributed: &[u8] = &ev.attributed;
    let o = Obj::new()
        .num("seq", ev.seq)
        .num("t_ns", ev.t_ns)
        .str("seat", seat_name(ev.seat))
        .str("layer", layer_name(ev.layer))
        .str("verdict", verdict_name(ev.verdict))
        .str("reject_kind", reject_name(ev.verdict, ev.reject_kind))
        .num("backstop", ev.flags & EV_F_BACKSTOP != 0)
        .num("fail_closed", ev.flags & EV_F_FAIL_CLOSED != 0)
        .num("reject_degraded", ev.flags & EV_F_REJECT_DEGRADED != 0)
        .num("rejudged", ev.flags & EV_F_REJUDGED != 0)
        .str("dir", way_name(ev.direction))
        .num("family", ev.addr_family)
        .num("protocol", ev.protocol)
        .num("flow_state", ev.flow_state)
        .num("ifindex", ev.ifindex)
        .str("src", fmt_addr(ev.addr_family, &ev.src_addr).as_str())
        .str("dst", fmt_addr(ev.addr_family, &ev.dst_addr).as_str())
        .num("src_port", ev.src_port)
        .num("dst_port", ev.dst_port)
        .num("ether_type", ev.ether_type)
        .num("length", ev.length)
        .num("fx_tags", ev.effects % 256)
        .num("fx_counts", ev.effects / 0x100 % 256)
        .num("fx_reports", ev.effects / 0x1_0000 % 256)
        .num("fx_prompts", ev.effects / 0x100_0000 % 256)
        .str("by", field_of(attributed).as_str());
    assert(o@ == verdict_fields(*ev));
    o.finish()
}

// ---------------------------------------------------------------------------
// Packets
// ---------------------------------------------------------------------------
/// What is shown of a packet.
pub open spec fn packet_fields(p: Packet) -> Seq<Field> {
    seq![
        num_field("seq"@, p.seq as int),
        num_field("ts_sec"@, p.ts_sec as int),
        num_field("ts_nsec"@, p.ts_nsec as int),
        num_field("ifindex"@, p.ifindex as int),
        str_field("ifname"@, p.ifname@),
        str_field("dir"@, p.dir.name()),
        num_field("wire_len"@, p.wire_len as int),
        raw_field("data"@, escape_text(hex_text(p.data@))),
    ]
}

/// A packet as JSON.
pub fn packet_json(p: &Packet) -> (r: String)
    ensures
        r@ == object_text(packet_fields(*p)),
{
    let o = Obj::new()
        .num("seq", p.seq)
        .num("ts_sec", p.ts_sec)
        .num("ts_nsec", p.ts_nsec)
        .num("ifindex", p.ifindex)
        .str("ifname", p.ifname.as_str())
        .str("dir", p.dir.as_str())
        .num("wire_len", p.wire_len as i128)
        .raw("data", escape(hex(p.data.as_slice()).as_str()).as_str());
    assert(o@ == packet_fields(*p));
    o.finish()
}

/// Packets as a JSON array.
pub fn packets_json(packets: &[Arc<Packet>]) -> (r: String)
    ensures
        r@ == array_text(packets@.map_values(|p: Arc<Packet>| object_text(packet_fields(*p)))),
{
    let mut parts: Vec<String> = Vec::new();
    let ghost shown = packets@.map_values(|p: Arc<Packet>| object_text(packet_fields(*p)));
    let mut i: usize = 0;
    while i < packets.len()
        invariant
            i <= packets@.len(),
            shown == packets@.map_values(|p: Arc<Packet>| object_text(packet_fields(*p))),
            texts(parts@) == shown.take(i as int),
        decreases packets@.len() - i,
    {
        let ghost before = texts(parts@);
        let s = packet_json(&packets[i]);
        parts.push(s);
        assert(texts(parts@) == before.push(shown[i as int]));
        i += 1;
    }
    assert(shown.take(i as int) == shown);
    array_of(parts.as_slice())
}

/// Verdicts as a JSON array.
pub fn verdicts_json(events: &[PnpEvent]) -> (r: String)
    ensures
        r@ == array_text(events@.map_values(|e: PnpEvent| object_text(verdict_fields(e)))),
{
    let mut parts: Vec<String> = Vec::new();
    let ghost shown = events@.map_values(|e: PnpEvent| object_text(verdict_fields(e)));
    let mut i: usize = 0;
    while i < events.len()
        invariant
            i <= events@.len(),
            shown == events@.map_values(|e: PnpEvent| object_text(verdict_fields(e))),
            texts(parts@) == shown.take(i as int),
        decreases events@.len() - i,
    {
        let ghost before = texts(parts@);
        let s = verdict_json(&events[i]);
        parts.push(s);
        assert(texts(parts@) == before.push(shown[i as int]));
        i += 1;
    }
    assert(shown.take(i as int) == shown);
    array_of(parts.as_slice())
}

// ---------------------------------------------------------------------------
// Status
// ---------------------------------------------------------------------------
/// What is shown of the daemon.
pub open spec fn status_fields(
    version: Seq<char>,
    uptime_s: int,
    stats: CaptureStats,
    ring_capacity: int,
) -> Seq<Field> {
    seq![
        str_field("daemon"@, "pnpd "@ + version),
        num_field("uptime_s"@, uptime_s),
        num_field("captured"@, stats.captured as int),
        num_field("dropped"@, stats.dropped as int),
        num_field("suppressed"@, stats.suppressed as int),
        num_field("ring_capacity"@, ring_capacity),
    ]
}

/// The state of the daemon as JSON.
pub fn status_json(version: &str, uptime_s: i64, stats: &CaptureStats, ring: &Ring) -> (r: String)
    ensures
        r@ == object_text(status_fields(version@, uptime_s as int, *stats, ring.cap() as int)),
{
    let mut daemon = String::new();
    daemon.append("pnpd ");
    daemon.append(version);
    assert(daemon@ == "pnpd "@ + version@);
    let o = Obj::new()
        .str("daemon", daemon.as_str())
        .num("uptime_s", uptime_s)
        .num("captured", stats.captured)
        .num("dropped", stats.dropped)
        .num("suppressed", stats.suppressed)
        .num("ring_capacity", ring.capacity() as i128);
    assert(o@ == status_fields(version@, uptime_s as int, *stats, ring.cap() as int));
    o.finish()
}

/// What is shown of the engine.
pub open spec fn engine_fields(e: EngineView) -> Seq<Field> {
    let s = e.status;
    seq![
        num_field("connected"@, flag(e.connected)),
        num_field("own_verdicts_hidden"@, e.own_hidden as int),
        num_field("abi"@, s.abi as int),
        num_field("generation"@, s.generation as int),
        num_field("enforcing"@, s.enforcing as int),
        num_field("events_dropped"@, s.events_dropped as int),
        num_field("seen_ingress"@, s.seen_ingress as int),
        num_field("seen_egress"@, s.seen_egress as int),
        num_field("seen_local_in"@, s.seen_local_in as int),
        num_field("deferred"@, s.deferred as int),
        num_field("fallback_judged"@, s.fallback_judged as int),
        num_field("parse_errors"@, s.parse_errors as int),
        num_field("judged"@, s.judged as int),
        num_field("permissive"@, s.permissive as int),
        num_field("fail_closed"@, s.fail_closed as int),
        num_field("verdict_pass"@, s.verdict_pass as int),
        num_field("verdict_drop"@, s.verdict_drop as int),
        num_field("verdict_reject"@, s.verdict_reject as int),
        num_field("reject_degraded"@, s.reject_degraded as int),
        num_field("fx_tags"@, s.fx_tags as int),
        num_field("fx_counts"@, s.fx_counts as int),
        num_field("fx_reports"@, s.fx_reports as int),
        num_field("fx_prompts"@, s.fx_prompts as int),
        num_field("last_ingest_error"@, s.last_ingest_error as int),
        num_field("last_ingest_t_ns"@, s.last_ingest_t_ns as int),
        num_field("tag_writes"@, s.tag_writes as int),
        num_field("tag_untracked"@, s.tag_untracked as int),
        num_field("tag_refused"@, s.tag_refused as int),
        num_field("count_writes"@, s.count_writes as int),
        num_field("count_key_absent"@, s.count_key_absent as int),
        num_field("count_refused"@, s.count_refused as int),
        num_field("reports_emitted"@, s.reports_emitted as int),
        num_field("counter_cells"@, s.counter_cells as int),
        num_field("reporting_level"@, s.reporting_level as int),
        num_field("seen_local_out"@, s.seen_local_out as int),
        num_field("flow_judged"@, s.flow_judged as int),
        num_field("flow_cached"@, s.flow_cached as int),
        num_field("flow_rejudged"@, s.flow_rejudged as int),
        num_field("flow_expired"@, s.flow_expired as int),
        num_field("flow_uncached"@, s.flow_uncached as int),
        num_field("refusals_emitted"@, s.refusals_emitted as int),
        num_field("refusals_bypassed"@, s.refusals_bypassed as int),
        num_field("teardowns_emitted"@, s.teardowns_emitted as int),
    ]
}

/// The state of the engine as JSON.
pub fn engine_json(engine: &Engine) -> (r: String)
    ensures
        r@ == object_text(engine_fields(engine@)),
{
    let (s, connected) = engine.status();
    let o = Obj::new()
        .num("connected", connected)
        .num("own_verdicts_hidden", engine.own_hidden())
        .num("abi", s.abi)
        .num("generation", s.generation)
        .num("enforcing", s.enforcing)
        .num("events_dropped", s.events_dropped)
        .num("seen_ingress", s.seen_ingress)
        .num("seen_egress", s.seen_egress)
        .num("seen_local_in", s.seen_local_in)
        .num("deferred", s.deferred)
        .num("fallback_judged", s.fallback_judged)
        .num("parse_errors", s.parse_errors)
        .num("judged", s.judged)
        .num("permissive", s.permissive)
        .num("fail_closed", s.fail_closed)
        .num("verdict_pass", s.verdict_pass)
        .num("verdict_drop", s.verdict_drop)
        .num("verdict_reject", s.verdict_reject)
        .num("reject_degraded", s.reject_degraded)
        .num("fx_tags", s.fx_tags)
        .num("fx_counts", s.fx_counts)
        .num("fx_reports", s.fx_reports)
        .num("fx_prompts", s.fx_prompts)
        .num("last_ingest_error", s.last_ingest_error)
        .num("last_ingest_t_ns", s.last_ingest_t_ns)
        .num("tag_writes", s.tag_writes)
        .num("tag_untracked", s.tag_untracked)
        .num("tag_refused", s.tag_refused)
        .num("count_writes", s.count_writes)
        .num("count_key_absent", s.count_key_absent)
        .num("count_refused", s.count_refused)
        .num("reports_emitted", s.reports_emitted)
        .num("counter_cells", s.counter_cells)
        .num("reporting_level", s.reporting_level)
        .num("seen_local_out", s.seen_local_out)
        .num("flow_judged", s.flow_judged)
        .num("flow_cached", s.flow_cached)
        .num("flow_rejudged", s.flow_rejudged)
        .num("flow_expired", s.flow_expired)
        .num("flow_uncached", s.flow_uncached)
        .num("refusals_emitted", s.refusals_emitted)
        .num("refusals_bypassed", s.refusals_bypassed)
        .num("teardowns_emitted", s.teardowns_emitted);
    assert(o@ == engine_fields(engine@));
    o.finish()
}

// ---------------------------------------------------------------------------
// Counters
// ---------------------------------------------------------------------------
/// The names of the parts that a counter is keyed by.
pub open spec fn key_names(keyspec: u8) -> Seq<Seq<char>> {
    let a: Seq<Seq<char>> = if keyspec & KEY_SRC_ADDR != 0 {
        seq!["\"SrcAddr\""@]
    } else {
        seq![]
    };
    let b = if keyspec & KEY_DST_ADDR != 0 {
        a.push("\"DstAddr\""@)
    } else {
        a
    };
    if keyspec & KEY_INTERFACE != 0 {
        b.push("\"Interface\""@)
    } else {
        b
    }
}

/// The parts that a counter is keyed by, as JSON.
pub fn keyspec_json(keyspec: u8) -> (r: String)
    ensures
        r@ == array_text(key_names(keyspec)),
{
    let mut names: Vec<String> = Vec::new();
    assert(texts(names@) == Seq::<Seq<char>>::empty());
    if keyspec & KEY_SRC_ADDR != 0 {
        names.push("\"SrcAddr\"".to_owned());
        assert(texts(names@) == seq!["\"SrcAddr\""@]);
    }
    if keyspec & KEY_DST_ADDR != 0 {
        let ghost before = texts(names@);
        names.push("\"DstAddr\"".to_owned());
        assert(texts(names@) == before.push("\"DstAddr\""@));
    }
    if keyspec & KEY_INTERFACE != 0 {
        let ghost before = texts(names@);
        names.push("\"Interface\"".to_owned());
        assert(texts(names@) == before.push("\"Interface\""@));
    }
    array_of(names.as_slice())
}

/// What is shown of one window of a counter.
pub open spec fn window_fields(r: PnpCounterRec, w: int) -> Seq<Field> {
    seq![
        num_field("secs"@, r.window_secs@[w] as int),
        num_field("value"@, r.window_value@[w] as int),
    ]
}

/// How many windows of a counter are shown.
pub open spec fn shown_windows(r: PnpCounterRec) -> nat {
    if r.n_windows < 8 {
        r.n_windows as nat
    } else {
        8
    }
}

/// The windows of a counter, as JSON.
pub open spec fn windows_text(r: PnpCounterRec) -> Seq<char> {
    array_text(Seq::new(shown_windows(r), |w: int| object_text(window_fields(r, w))))
}

fn windows_json(r: &PnpCounterRec) -> (out: String)
    ensures
        out@ == windows_text(*r),
{
    let n: usize = if r.n_windows < 8 {
        r.n_windows as usize
    } else {
        8
    };
    let mut parts: Vec<String> = Vec::new();
    let mut w: usize = 0;
    while w < n
        invariant
            w <= n <= 8,
            texts(parts@) == Seq::new(w as nat, |k: int| object_text(window_fields(*r, k))),
        decreases n - w,
    {
        let o = Obj::new().num("secs", r.window_secs[w]).num("value", r.window_value[w]);
        assert(o@ == window_fields(*r, w as int));
        let ghost before = texts(parts@);
        let s = o.finish();
        parts.push(s);
        assert(texts(parts@) == before.push(s@));
        w += 1;
        assert(texts(parts@) == Seq::new(w as nat, |k: int| object_text(window_fields(*r, k))));
    }
    array_of(parts.as_slice())
}

/// What is shown of a counter cell.
pub open spec fn counter_fields(r: PnpCounterRec) -> Seq<Field> {
    seq![
        str_field("name"@, bytes_text(until_zero(r.name@))),
        raw_field("keyspec"@, array_text(key_names(r.keyspec))),
        num_field("family"@, r.family as int),
        num_field("ifindex"@, r.ifindex as int),
        str_field("src"@, addr_text(r.family, r.src_addr@)),
        str_field("dst"@, addr_text(r.family, r.dst_addr@)),
        num_field("total"@, r.total as int),
        num_field("last_secs"@, r.last_secs as int),
        raw_field("windows"@, windows_text(r)),
    ]
}

fn counter_json(r: &PnpCounterRec) -> (out: String)
    ensures
        out@ == object_text(counter_fields(*r)),
{
    let name: &[u8] = &r.name;
    let o = Obj::new()
        .str("name", field_of(name).as_str())
        .raw("keyspec", keyspec_json(r.keyspec).as_str())
        .num("family", r.family)
        .num("ifindex", r.ifindex)
        .str("src", fmt_addr(r.family, &r.src_addr).as_str())
        .str("dst", fmt_addr(r.family, &r.dst_addr).as_str())
        .num("total", r.total)
        .num("last_secs", r.last_secs)
        .raw("windows", windows_json(r).as_str());
    assert(o@ == counter_fields(*r));
    o.finish()
}

/// What is shown where the engine could not be asked.
pub open spec fn unconnected_fields(error: Seq<char>) -> Seq<Field> {
    seq![num_field("connected"@, 0), str_field("error"@, error)]
}

fn unconnected_json(error: &str) -> (r: String)
    ensures
        r@ == object_text(unconnected_fields(error@)),
{
    let o = Obj::new().num("connected", 0i32).str("error", error);
    assert(o@ == unconnected_fields(error@));
    o.finish()
}

/// What is shown of a counter dump.
pub open spec fn counters_fields(dump: CountersDump) -> Seq<Field> {
    seq![
        num_field("connected"@, 1),
        num_field("total_cells"@, dump.total_cells as int),
        raw_field(
            "records"@,
            array_text(
                dump.records@.map_values(|r: PnpCounterRec| object_text(counter_fields(r))),
            ),
        ),
    ]
}

/// A counter dump as JSON, or why there is none.
pub open spec fn counters_text(dump: Result<CountersDump, String>) -> Seq<char> {
    match dump {
        Ok(dump) => object_text(counters_fields(dump)),
        Err(err) => object_text(unconnected_fields(err@)),
    }
}

/// The counter store, every cell: `{"connected":1,"total_cells":N,
/// "records":[{name,keyspec,family,ifindex,src,dst,total,last_secs,
/// windows:[{secs,value}]}]}`.
pub fn counters_json(dump: &Result<CountersDump, String>) -> (r: String)
    ensures
        r@ == counters_text(*dump),
{
    let dump = match dump {
        Ok(dump) => dump,
        Err(err) => {
            return unconnected_json(err.as_str());
        },
    };
    let mut parts: Vec<String> = Vec::new();
    let ghost shown = dump.records@.map_values(
        |r: PnpCounterRec| object_text(counter_fields(r)),
    );
    let mut i: usize = 0;
    while i < dump.records.len()
        invariant
            i <= dump.records@.len(),
            shown == dump.records@.map_values(
                |r: PnpCounterRec| object_text(counter_fields(r)),
            ),
            texts(parts@) == shown.take(i as int),
        decreases dump.records@.len() - i,
    {
        let ghost before = texts(parts@);
        let s = counter_json(&dump.records[i]);
        parts.push(s);
        assert(texts(parts@) == before.push(shown[i as int]));
        i += 1;
    }
    assert(shown.take(i as int) == shown);
    let o = Obj::new()
        .num("connected", 1i32)
        .num("total_cells", dump.total_cells)
        .raw("records", array_of(parts.as_slice()).as_str());
    assert(o@ == counters_fields(*dump));
    o.finish()
}

// ---------------------------------------------------------------------------
// Flows
// ---------------------------------------------------------------------------
/// What is shown of one sentence of a flow.
pub open spec fn sentence_fields(r: PnpFlowRec, slot: int) -> Seq<Field> {
    seq![
        num_field("slot"@, slot),
        num_field("generation"@, r.sentence_generation@[slot] as int),
        num_field("expires_at"@, r.sentence_expires_at@[slot] as int),
        str_field("rule_hash"@, hex_fixed(r.sentence_rule_hash@[slot] as nat, 16)),
        str_field("verdict"@, verdict_text(r.sentence_verdict@[slot])),
        str_field(
            "reject_kind"@,
            reject_text(r.sentence_verdict@[slot], r.sentence_reject_kind@[slot]),
        ),
    ]
}

/// One sentence of a flow as JSON.
pub fn sentence_json(r: &PnpFlowRec, slot: usize) -> (out: String)
    requires
        slot < FLOW_SENTENCES,
    ensures
        out@ == object_text(sentence_fields(*r, slot as int)),
{
    let verdict = r.sentence_verdict[slot];
    let o = Obj::new()
        .num("slot", slot as i64)
        .num("generation", r.sentence_generation[slot])
        .num("expires_at", r.sentence_expires_at[slot])
        .str("rule_hash", hash_text(r.sentence_rule_hash[slot]).as_str())
        .str("verdict", verdict_name(verdict))
        .str("reject_kind", reject_name(verdict, r.sentence_reject_kind[slot]));
    assert(o@ == sentence_fields(*r, slot as int));
    o.finish()
}

/// The sentences of a flow that were passed, among the first `n` slots.
pub open spec fn sentences_shown(r: PnpFlowRec, n: nat) -> Seq<Seq<char>>
    decreases n,
{
    if n == 0 {
        seq![]
    } else if r.sentence_generation@[n - 1] != 0 {
        sentences_shown(r, (n - 1) as nat).push(object_text(sentence_fields(r, n - 1)))
    } else {
        sentences_shown(r, (n - 1) as nat)
    }
}

/// What is shown of one tag of a flow.
pub open spec fn tag_fields(tag: (u64, u64)) -> Seq<Field> {
    seq![str_field("hash"@, hex_fixed(tag.0 as nat, 16)), num_field("value"@, tag.1 as int)]
}

/// The tags of a flow that are in use, as JSON.
pub open spec fn tags_shown(r: PnpFlowRec) -> Seq<Seq<char>> {
    let used = if r.n_tags < r.tags@.len() {
        r.tags@.take(r.n_tags as int)
    } else {
        r.tags@
    };
    used.map_values(|t: (u64, u64)| object_text(tag_fields(t)))
}

/// The sentences of a flow that were passed, as JSON.
pub open spec fn all_sentences(r: PnpFlowRec) -> Seq<Seq<char>> {
    sentences_shown(r, FLOW_SENTENCES as nat)
}

/// Two numbers as a JSON array: one for each direction of a flow.
pub open spec fn pair_text(n: Seq<u64>) -> Seq<char> {
    array_text(seq![int_text(n[0] as int), int_text(n[1] as int)])
}

/// What is shown of a flow.
pub open spec fn flow_fields(r: PnpFlowRec) -> Seq<Field> {
    seq![
        num_field("id"@, r.id.value()),
        num_field("family"@, r.family.value()),
        num_field("protocol"@, r.protocol.value()),
        str_field("dir"@, way_text(r.direction)),
        num_field("loopback"@, r.loopback.value()),
        num_field("seen_reply"@, r.seen_reply.value()),
        num_field("assured"@, r.assured.value()),
        num_field("related"@, r.related.value()),
        num_field("judged"@, r.judged.value()),
        num_field("ifindex"@, r.ifindex.value()),
        num_field("timeout_secs"@, r.timeout_secs.value()),
        str_field("src"@, addr_text(r.family, r.src_addr@)),
        str_field("dst"@, addr_text(r.family, r.dst_addr@)),
        num_field("src_port"@, r.src_port.value()),
        num_field("dst_port"@, r.dst_port.value()),
        num_field("icmp_type"@, r.icmp_type.value()),
        num_field("icmp_code"@, r.icmp_code.value()),
        num_field("start_secs"@, r.start_secs.value()),
        raw_field("packets"@, pair_text(r.packets@)),
        raw_field("bytes"@, pair_text(r.bytes@)),
        raw_field("sentences"@, array_text(all_sentences(r))),
        raw_field("tags"@, array_text(tags_shown(r))),
    ]
}

fn sentences_json(r: &PnpFlowRec) -> (out: String)
    ensures
        out@ == array_text(all_sentences(*r)),
{
    let mut parts: Vec<String> = Vec::new();
    let mut slot: usize = 0;
    assert(texts(parts@) == Seq::<Seq<char>>::empty());
    while slot < FLOW_SENTENCES
        invariant
            slot <= FLOW_SENTENCES,
            texts(parts@) == sentences_shown(*r, slot as nat),
        decreases FLOW_SENTENCES - slot,
    {
        let ghost before = texts(parts@);
        if r.sentence_generation[slot] != 0 {
            let s = sentence_json(r, slot);
            parts.push(s);
            assert(texts(parts@) == before.push(s@));
        }
        slot += 1;
    }
    array_of(parts.as_slice())
}

fn tags_json(r: &PnpFlowRec) -> (out: String)
    ensures
        out@ == array_text(tags_shown(*r)),
{
    let n: usize = if (r.n_tags as usize) < r.tags.len() {
        r.n_tags as usize
    } else {
        r.tags.len()
    };
    let ghost used = r.tags@.take(n as int);
    let ghost shown = used.map_values(|t: (u64, u64)| object_text(tag_fields(t)));
    let mut parts: Vec<String> = Vec::new();
    let mut i: usize = 0;
    while i < n
        invariant
            i <= n <= r.tags@.len(),
            used == r.tags@.take(n as int),
            shown == used.map_values(|t: (u64, u64)| object_text(tag_fields(t))),
            texts(parts@) == shown.take(i as int),
        decreases n - i,
    {
        let tag = r.tags[i];
        let o = Obj::new().str("hash", hash_text(tag.0).as_str()).num("value", tag.1);
        assert(o@ == tag_fields(tag));
        let ghost before = texts(parts@);
        let s = o.finish();
        parts.push(s);
        assert(used[i as int] == tag);
        assert(texts(parts@) == before.push(shown[i as int]));
        i += 1;
    }
    assert(shown.take(i as int) == shown);
    assert(tags_shown(*r) == shown) by {
        assert(r.tags@.take(r.tags@.len() as int) == r.tags@);
    }
    array_of(parts.as_slice())
}

fn flow_json(r: &PnpFlowRec) -> (out: String)
    ensures
        out@ == object_text(flow_fields(*r)),
{
    let o = Obj::new()
        .num("id", r.id)
        .num("family", r.family)
        .num("protocol", r.protocol)
        .str("dir", way_name(r.direction))
        .num("loopback", r.loopback)
        .num("seen_reply", r.seen_reply)
        .num("assured", r.assured)
        .num("related", r.related)
        .num("judged", r.judged)
        .num("ifindex", r.ifindex)
        .num("timeout_secs", r.timeout_secs)
        .str("src", fmt_addr(r.family, &r.src_addr).as_str())
        .str("dst", fmt_addr(r.family, &r.dst_addr).as_str())
        .num("src_port", r.src_port)
        .num("dst_port", r.dst_port)
        .num("icmp_type", r.icmp_type)
        .num("icmp_code", r.icmp_code)
        .num("start_secs", r.start_secs)
        .raw("packets", pair_of(r.packets[0], r.packets[1]).as_str())
        .raw("bytes", pair_of(r.bytes[0], r.bytes[1]).as_str())
        .raw("sentences", sentences_json(r).as_str())
        .raw("tags", tags_json(r).as_str());
    assert(o@ == flow_fields(*r));
    o.finish()
}

/// What is shown of a flow dump.
pub open spec fn flows_fields(dump: FlowsDump) -> Seq<Field> {
    seq![
        num_field("connected"@, 1),
        num_field("total"@, dump.total as int),
        raw_field(
            "records"@,
            array_text(dump.records@.map_values(|r: PnpFlowRec| object_text(flow_fields(r)))),
        ),
    ]
}

/// A flow dump as JSON, or why there is none.
pub open spec fn flows_text(dump: Result<FlowsDump, String>) -> Seq<char> {
    match dump {
        Ok(dump) => object_text(flows_fields(dump)),
        Err(err) => object_text(unconnected_fields(err@)),
    }
}

/// The live flows: `{"connected":1,"total":N,"records":[{id,family,
/// protocol,dir,loopback,seen_reply,assured,related,judged,ifindex,
/// timeout_secs,src,dst,src_port,dst_port,icmp_type,icmp_code,start_secs,
/// packets:[o,r],bytes:[o,r],sentences:[...],tags:[{hash,value}]}]}`.
/// Sentences are listed for slot 0 (the flow's) and slot 1 (a loopback
/// flow's inbound endpoint) when present; rule hashes are FNV-1a-64 of
/// the attributing rule's path, which the viewer resolves against the
/// policy it can read.
pub fn flows_json(dump: &Result<FlowsDump, String>) -> (r: String)
    ensures
        r@ == flows_text(*dump),
{
    let dump = match dump {
        Ok(dump) => dump,
        Err(err) => {
            return unconnected_json(err.as_str());
        },
    };
    let mut parts: Vec<String> = Vec::new();
    let ghost shown = dump.records@.map_values(|r: PnpFlowRec| object_text(flow_fields(r)));
    let mut i: usize = 0;
    while i < dump.records.len()
        invariant
            i <= dump.records@.len(),
            shown == dump.records@.map_values(|r: PnpFlowRec| object_text(flow_fields(r))),
            texts(parts@) == shown.take(i as int),
        decreases dump.records@.len() - i,
    {
        let ghost before = texts(parts@);
        let s = flow_json(&dump.records[i]);
        parts.push(s);
        assert(texts(parts@) == before.push(shown[i as int]));
        i += 1;
    }
    assert(shown.take(i as int) == shown);
    let o = Obj::new()
        .num("connected", 1i32)
        .num("total", dump.total)
        .raw("records", array_of(parts.as_slice()).as_str());
    assert(o@ == flows_fields(*dump));
    o.finish()
}

} // verus!
