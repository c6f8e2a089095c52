//! The verdict stream: the kernel's verdict records, drained into a ring the
//! HTTP layer serves, plus the engine status read on a slow tick.
//!
//! Record layouts mirror the kernel's packet policy ABI, at fixed offsets in
//! the byte order of the machine. The ABI number is checked when the device is
//! opened.

use crate::bytes::{
    be_bytes, le_bytes, lemma_four_bytes, lemma_le4, push_be, push_le, read16, read32, read64,
    word16, word32, word64, ByteOrder,
};
use crate::fanout::{
    all_delivered, found, joined, left, queue_of, taken, Fanout, QueueView, Received, Share, QUEUE,
};
use crate::record_laws::{law_queries_by_position, lemma_query_len};
use std::collections::VecDeque;
use vstd::prelude::*;
use vstd::slice::slice_subrange;
use vstd::string::StringExecFns;

verus! {

pub const VERDICT_PASS: u8 = 0;

pub const VERDICT_REJECT: u8 = 1;

pub const VERDICT_DROP: u8 = 2;

pub const EV_F_BACKSTOP: u8 = 0x01;

pub const EV_F_FAIL_CLOSED: u8 = 0x02;

pub const EV_F_REJECT_DEGRADED: u8 = 0x04;

pub const EV_F_REJUDGED: u8 = 0x08;

pub const KEY_SRC_ADDR: u8 = 0x01;

pub const KEY_DST_ADDR: u8 = 0x02;

pub const KEY_INTERFACE: u8 = 0x04;

/// The kernel ABI this daemon speaks (machinery slice).
pub const ABI: u64 = 2;

/// The request code of a status query: a read of one status record.
pub const IOC_STATUS: u64 = 0x8120_4e01;

/// The request code of a counter dump: a read and write of one query record.
pub const IOC_COUNTERS: u64 = 0xc018_4e02;

/// Most cells one dump asks for (the kernel caps tables at 4096 keys; the
/// viewer is a debugging surface, not a census).
pub const COUNTERS_DUMP_MAX: usize = 4096;

/// How many verdicts the ring holds.
pub const RING: usize = 8192;

/// The size of a verdict record in bytes.
pub const EVENT_SIZE: usize = 176;

/// The size of a status record in bytes.
pub const STATUS_SIZE: usize = 288;

/// The size of a counter record in bytes.
pub const COUNTER_SIZE: usize = 232;

/// The size of a counter query in bytes.
pub const QUERY_SIZE: usize = 24;

/// How many sentences a flow carries: its own, and that of a loopback flow's
/// inbound endpoint.
pub const FLOW_SENTENCES: usize = 2;

/// One verdict.
#[derive(Clone, Copy)]
pub struct PnpEvent {
    pub seq: u64,
    pub t_ns: u64,
    pub seat: u8,
    pub layer: u8,
    pub verdict: u8,
    pub flags: u8,
    pub direction: u8,
    pub addr_family: u8,
    pub protocol: u8,
    pub flow_state: u8,
    pub ifindex: u32,
    pub src_port: u16,
    pub dst_port: u16,
    pub ether_type: u16,
    pub reject_kind: u8,
    pub _pad0: u8,
    pub src_addr: [u8; 16],
    pub dst_addr: [u8; 16],
    pub length: u32,
    pub effects: u32,
    pub attributed: [u8; 96],
    pub _pad1: u32,
}

/// The engine's status. The flow counters at the end are not part of the record
/// that this ABI delivers, and stay zero under it.
#[derive(Clone, Copy)]
pub struct PnpStatus {
    pub abi: u64,
    pub generation: u64,
    pub enforcing: u64,
    pub events_dropped: u64,
    pub seen_ingress: u64,
    pub seen_egress: u64,
    pub seen_local_in: u64,
    pub deferred: u64,
    pub fallback_judged: u64,
    pub parse_errors: u64,
    pub judged: u64,
    pub permissive: u64,
    pub fail_closed: u64,
    pub verdict_pass: u64,
    pub verdict_drop: u64,
    pub verdict_reject: u64,
    pub reject_degraded: u64,
    pub fx_tags: u64,
    pub fx_counts: u64,
    pub fx_reports: u64,
    pub fx_prompts: u64,
    pub last_ingest_error: u64,
    pub last_ingest_t_ns: u64,
    pub tag_writes: u64,
    pub tag_untracked: u64,
    pub tag_refused: u64,
    pub count_writes: u64,
    pub count_key_absent: u64,
    pub count_refused: u64,
    pub reports_emitted: u64,
    pub counter_cells: u64,
    pub reporting_level: u64,
    pub _reserved: [u64; 4],
    pub seen_local_out: u64,
    pub flow_judged: u64,
    pub flow_cached: u64,
    pub flow_rejudged: u64,
    pub flow_expired: u64,
    pub flow_uncached: u64,
    pub refusals_emitted: u64,
    pub refusals_bypassed: u64,
    pub teardowns_emitted: u64,
}

/// One cell of the counter store.
#[derive(Clone, Copy)]
pub struct PnpCounterRec {
    pub name: [u8; 64],
    pub hash: u64,
    pub keyspec: u8,
    pub family: u8,
    pub _pad0: [u8; 2],
    pub ifindex: i32,
    pub src_addr: [u8; 16],
    pub dst_addr: [u8; 16],
    pub total: u64,
    pub last_secs: u64,
    pub n_windows: u32,
    pub _pad1: u32,
    pub window_secs: [u32; 8],
    pub window_value: [u64; 8],
}

/// What a counter dump asks for and reports back.
#[derive(Clone, Copy, PartialEq, Eq, Structural, Debug)]
pub struct PnpCountersQuery {
    pub buf: u64,
    pub buf_len: u32,
    pub count: u32,
    pub total: u32,
    pub _pad0: u32,
}

/// One dump's worth of counter cells plus how many exist.
pub struct CountersDump {
    pub records: Vec<PnpCounterRec>,
    pub total_cells: u32,
}

/// One live flow.
pub struct PnpFlowRec {
    pub id: u64,
    pub family: u8,
    pub protocol: u8,
    pub direction: u8,
    pub loopback: u8,
    pub seen_reply: u8,
    pub assured: u8,
    pub related: u8,
    pub judged: u8,
    pub ifindex: i32,
    pub timeout_secs: u64,
    pub src_addr: [u8; 16],
    pub dst_addr: [u8; 16],
    pub src_port: u16,
    pub dst_port: u16,
    pub icmp_type: u8,
    pub icmp_code: u8,
    pub start_secs: u64,
    pub packets: [u64; 2],
    pub bytes: [u64; 2],
    pub sentence_generation: [u64; FLOW_SENTENCES],
    pub sentence_expires_at: [u64; FLOW_SENTENCES],
    pub sentence_rule_hash: [u64; FLOW_SENTENCES],
    pub sentence_verdict: [u8; FLOW_SENTENCES],
    pub sentence_reject_kind: [u8; FLOW_SENTENCES],
    /// How many of the tag slots are in use.
    pub n_tags: u32,
    /// The tag slots: the hash of each tag's name, and its value.
    pub tags: Vec<(u64, u64)>,
}

/// One dump's worth of flows plus how many exist.
pub struct FlowsDump {
    pub records: Vec<PnpFlowRec>,
    pub total: u64,
}

impl PnpEvent {
    /// Whether every field is zero.
    pub open spec fn is_zero(self) -> bool {
        &&& self.seq == 0 && self.t_ns == 0
        &&& self.seat == 0 && self.layer == 0 && self.verdict == 0 && self.flags == 0
        &&& self.direction == 0 && self.addr_family == 0 && self.protocol == 0
        &&& self.flow_state == 0 && self.ifindex == 0
        &&& self.src_port == 0 && self.dst_port == 0 && self.ether_type == 0
        &&& self.reject_kind == 0 && self._pad0 == 0
        &&& self.src_addr@ == Seq::new(16, |i: int| 0u8)
        &&& self.dst_addr@ == Seq::new(16, |i: int| 0u8)
        &&& self.length == 0 && self.effects == 0
        &&& self.attributed@ == Seq::new(96, |i: int| 0u8)
        &&& self._pad1 == 0
    }

    /// A record with every field zero.
    pub fn zeroed() -> (r: PnpEvent)
        ensures
            r.is_zero(),
    {
        let addr: [u8; 16] = [0u8;16];
        let attributed: [u8; 96] = [0u8;96];
        assert(addr@ == Seq::new(16, |i: int| 0u8));
        assert(attributed@ == Seq::new(96, |i: int| 0u8));
        PnpEvent {
            seq: 0,
            t_ns: 0,
            seat: 0,
            layer: 0,
            verdict: 0,
            flags: 0,
            direction: 0,
            addr_family: 0,
            protocol: 0,
            flow_state: 0,
            ifindex: 0,
            src_port: 0,
            dst_port: 0,
            ether_type: 0,
            reject_kind: 0,
            _pad0: 0,
            src_addr: addr,
            dst_addr: addr,
            length: 0,
            effects: 0,
            attributed,
            _pad1: 0,
        }
    }
}

impl Default for PnpStatus {
    fn default() -> (r: Self)
        ensures
            r.is_zero(),
    {
        let reserved: [u64; 4] = [0u64;4];
        assert(reserved@ == Seq::new(4, |i: int| 0u64));
        PnpStatus {
            abi: 0,
            generation: 0,
            enforcing: 0,
            events_dropped: 0,
            seen_ingress: 0,
            seen_egress: 0,
            seen_local_in: 0,
            deferred: 0,
            fallback_judged: 0,
            parse_errors: 0,
            judged: 0,
            permissive: 0,
            fail_closed: 0,
            verdict_pass: 0,
            verdict_drop: 0,
            verdict_reject: 0,
            reject_degraded: 0,
            fx_tags: 0,
            fx_counts: 0,
            fx_reports: 0,
            fx_prompts: 0,
            last_ingest_error: 0,
            last_ingest_t_ns: 0,
            tag_writes: 0,
            tag_untracked: 0,
            tag_refused: 0,
            count_writes: 0,
            count_key_absent: 0,
            count_refused: 0,
            reports_emitted: 0,
            counter_cells: 0,
            reporting_level: 0,
            _reserved: reserved,
            seen_local_out: 0,
            flow_judged: 0,
            flow_cached: 0,
            flow_rejudged: 0,
            flow_expired: 0,
            flow_uncached: 0,
            refusals_emitted: 0,
            refusals_bypassed: 0,
            teardowns_emitted: 0,
        }
    }
}

impl PnpStatus {
    /// Whether every field is zero.
    pub open spec fn is_zero(self) -> bool {
        &&& self.abi == 0
        &&& self.generation == 0
        &&& self.enforcing == 0
        &&& self.events_dropped == 0
        &&& self.seen_ingress == 0
        &&& self.seen_egress == 0
        &&& self.seen_local_in == 0
        &&& self.deferred == 0
        &&& self.fallback_judged == 0
        &&& self.parse_errors == 0
        &&& self.judged == 0
        &&& self.permissive == 0
        &&& self.fail_closed == 0
        &&& self.verdict_pass == 0
        &&& self.verdict_drop == 0
        &&& self.verdict_reject == 0
        &&& self.reject_degraded == 0
        &&& self.fx_tags == 0
        &&& self.fx_counts == 0
        &&& self.fx_reports == 0
        &&& self.fx_prompts == 0
        &&& self.last_ingest_error == 0
        &&& self.last_ingest_t_ns == 0
        &&& self.tag_writes == 0
        &&& self.tag_untracked == 0
        &&& self.tag_refused == 0
        &&& self.count_writes == 0
        &&& self.count_key_absent == 0
        &&& self.count_refused == 0
        &&& self.reports_emitted == 0
        &&& self.counter_cells == 0
        &&& self.reporting_level == 0
        &&& self.seen_local_out == 0
        &&& self.flow_judged == 0
        &&& self.flow_cached == 0
        &&& self.flow_rejudged == 0
        &&& self.flow_expired == 0
        &&& self.flow_uncached == 0
        &&& self.refusals_emitted == 0
        &&& self.refusals_bypassed == 0
        &&& self.teardowns_emitted == 0
        &&& self._reserved@ == Seq::new(4, |i: int| 0u64)
    }

    /// Whether this is the status that a record of the kernel holds: its
    /// counters one after the other, eight bytes each.
    pub open spec fn reads(self, b: Seq<u8>, order: ByteOrder) -> bool {
        &&& self.abi == word64(b, 0, order)
        &&& self.generation == word64(b, 8, order)
        &&& self.enforcing == word64(b, 16, order)
        &&& self.events_dropped == word64(b, 24, order)
        &&& self.seen_ingress == word64(b, 32, order)
        &&& self.seen_egress == word64(b, 40, order)
        &&& self.seen_local_in == word64(b, 48, order)
        &&& self.deferred == word64(b, 56, order)
        &&& self.fallback_judged == word64(b, 64, order)
        &&& self.parse_errors == word64(b, 72, order)
        &&& self.judged == word64(b, 80, order)
        &&& self.permissive == word64(b, 88, order)
        &&& self.fail_closed == word64(b, 96, order)
        &&& self.verdict_pass == word64(b, 104, order)
        &&& self.verdict_drop == word64(b, 112, order)
        &&& self.verdict_reject == word64(b, 120, order)
        &&& self.reject_degraded == word64(b, 128, order)
        &&& self.fx_tags == word64(b, 136, order)
        &&& self.fx_counts == word64(b, 144, order)
        &&& self.fx_reports == word64(b, 152, order)
        &&& self.fx_prompts == word64(b, 160, order)
        &&& self.last_ingest_error == word64(b, 168, order)
        &&& self.last_ingest_t_ns == word64(b, 176, order)
        &&& self.tag_writes == word64(b, 184, order)
        &&& self.tag_untracked == word64(b, 192, order)
        &&& self.tag_refused == word64(b, 200, order)
        &&& self.count_writes == word64(b, 208, order)
        &&& self.count_key_absent == word64(b, 216, order)
        &&& self.count_refused == word64(b, 224, order)
        &&& self.reports_emitted == word64(b, 232, order)
        &&& self.counter_cells == word64(b, 240, order)
        &&& self.reporting_level == word64(b, 248, order)
        &&& forall|i: int|
            0 <= i < 4 ==> #[trigger] self._reserved@[i] == word64(b, 256 + 8 * i, order)
        &&& self.seen_local_out == 0
        &&& self.flow_judged == 0
        &&& self.flow_cached == 0
        &&& self.flow_rejudged == 0
        &&& self.flow_expired == 0
        &&& self.flow_uncached == 0
        &&& self.refusals_emitted == 0
        &&& self.refusals_bypassed == 0
        &&& self.teardowns_emitted == 0
    }

    /// Reads a status record.
    pub fn decode(b: &[u8], order: ByteOrder) -> (r: PnpStatus)
        requires
            b@.len() == STATUS_SIZE,
        ensures
            r.reads(b@, order),
    {
        PnpStatus {
            abi: read64(b, 0, order),
            generation: read64(b, 8, order),
            enforcing: read64(b, 16, order),
            events_dropped: read64(b, 24, order),
            seen_ingress: read64(b, 32, order),
            seen_egress: read64(b, 40, order),
            seen_local_in: read64(b, 48, order),
            deferred: read64(b, 56, order),
            fallback_judged: read64(b, 64, order),
            parse_errors: read64(b, 72, order),
            judged: read64(b, 80, order),
            permissive: read64(b, 88, order),
            fail_closed: read64(b, 96, order),
            verdict_pass: read64(b, 104, order),
            verdict_drop: read64(b, 112, order),
            verdict_reject: read64(b, 120, order),
            reject_degraded: read64(b, 128, order),
            fx_tags: read64(b, 136, order),
            fx_counts: read64(b, 144, order),
            fx_reports: read64(b, 152, order),
            fx_prompts: read64(b, 160, order),
            last_ingest_error: read64(b, 168, order),
            last_ingest_t_ns: read64(b, 176, order),
            tag_writes: read64(b, 184, order),
            tag_untracked: read64(b, 192, order),
            tag_refused: read64(b, 200, order),
            count_writes: read64(b, 208, order),
            count_key_absent: read64(b, 216, order),
            count_refused: read64(b, 224, order),
            reports_emitted: read64(b, 232, order),
            counter_cells: read64(b, 240, order),
            reporting_level: read64(b, 248, order),
            _reserved: [
                read64(b, 256, order),
                read64(b, 264, order),
                read64(b, 272, order),
                read64(b, 280, order),
            ],
            seen_local_out: 0,
            flow_judged: 0,
            flow_cached: 0,
            flow_rejudged: 0,
            flow_expired: 0,
            flow_uncached: 0,
            refusals_emitted: 0,
            refusals_bypassed: 0,
            teardowns_emitted: 0,
        }
    }
}

/// The bytes of an address at an offset.
fn bytes16(b: &[u8], at: usize) -> (r: [u8; 16])
    requires
        at + 16 <= b@.len(),
    ensures
        r@ == b@.subrange(at as int, at + 16),
{
    let mut r: [u8; 16] = [0u8;16];
    let mut i: usize = 0;
    assert(b.len() == b@.len());
    while i < 16
        invariant
            i <= 16,
            at + 16 <= b@.len() <= usize::MAX,
            forall|k: int| 0 <= k < i ==> #[trigger] r@[k] == b@[at + k],
        decreases 16 - i,
    {
        r[i] = b[at + i];
        i += 1;
    }
    assert(r@ == b@.subrange(at as int, at + 16));
    r
}

/// The bytes of a counter name at an offset.
fn bytes64(b: &[u8], at: usize) -> (r: [u8; 64])
    requires
        at + 64 <= b@.len(),
    ensures
        r@ == b@.subrange(at as int, at + 64),
{
    let mut r: [u8; 64] = [0u8;64];
    let mut i: usize = 0;
    assert(b.len() == b@.len());
    while i < 64
        invariant
            i <= 64,
            at + 64 <= b@.len() <= usize::MAX,
            forall|k: int| 0 <= k < i ==> #[trigger] r@[k] == b@[at + k],
        decreases 64 - i,
    {
        r[i] = b[at + i];
        i += 1;
    }
    assert(r@ == b@.subrange(at as int, at + 64));
    r
}

/// The bytes of an attribution at an offset.
fn bytes96(b: &[u8], at: usize) -> (r: [u8; 96])
    requires
        at + 96 <= b@.len(),
    ensures
        r@ == b@.subrange(at as int, at + 96),
{
    let mut r: [u8; 96] = [0u8;96];
    let mut i: usize = 0;
    assert(b.len() == b@.len());
    while i < 96
        invariant
            i <= 96,
            at + 96 <= b@.len() <= usize::MAX,
            forall|k: int| 0 <= k < i ==> #[trigger] r@[k] == b@[at + k],
        decreases 96 - i,
    {
        r[i] = b[at + i];
        i += 1;
    }
    assert(r@ == b@.subrange(at as int, at + 96));
    r
}

/// The signed integer of a 32-bit word.
pub open spec fn signed32(w: int) -> int {
    if w >= 0x8000_0000 {
        w - 0x1_0000_0000
    } else {
        w
    }
}

fn to_signed32(w: u32) -> (r: i32)
    ensures
        r == signed32(w as int),
{
    if w >= 0x8000_0000 {
        (w as i64 - 0x1_0000_0000) as i32
    } else {
        w as i32
    }
}

impl PnpEvent {
    /// Whether this is the verdict that a record of the kernel holds.
    pub open spec fn reads(self, b: Seq<u8>, order: ByteOrder) -> bool {
        &&& self.seq == word64(b, 0, order)
        &&& self.t_ns == word64(b, 8, order)
        &&& self.seat == b[16]
        &&& self.layer == b[17]
        &&& self.verdict == b[18]
        &&& self.flags == b[19]
        &&& self.direction == b[20]
        &&& self.addr_family == b[21]
        &&& self.protocol == b[22]
        &&& self.flow_state == b[23]
        &&& self.ifindex == word32(b, 24, order)
        &&& self.src_port == word16(b, 28, order)
        &&& self.dst_port == word16(b, 30, order)
        &&& self.ether_type == word16(b, 32, order)
        &&& self.reject_kind == b[34]
        &&& self._pad0 == b[35]
        &&& self.src_addr@ == b.subrange(36, 52)
        &&& self.dst_addr@ == b.subrange(52, 68)
        &&& self.length == word32(b, 68, order)
        &&& self.effects == word32(b, 72, order)
        &&& self.attributed@ == b.subrange(76, 172)
        &&& self._pad1 == word32(b, 172, order)
    }

    /// Reads a verdict record.
    pub fn decode(b: &[u8], order: ByteOrder) -> (r: PnpEvent)
        requires
            b@.len() == EVENT_SIZE,
        ensures
            r.reads(b@, order),
    {
        PnpEvent {
            seq: read64(b, 0, order),
            t_ns: read64(b, 8, order),
            seat: b[16],
            layer: b[17],
            verdict: b[18],
            flags: b[19],
            direction: b[20],
            addr_family: b[21],
            protocol: b[22],
            flow_state: b[23],
            ifindex: read32(b, 24, order),
            src_port: read16(b, 28, order),
            dst_port: read16(b, 30, order),
            ether_type: read16(b, 32, order),
            reject_kind: b[34],
            _pad0: b[35],
            src_addr: bytes16(b, 36),
            dst_addr: bytes16(b, 52),
            length: read32(b, 68, order),
            effects: read32(b, 72, order),
            attributed: bytes96(b, 76),
            _pad1: read32(b, 172, order),
        }
    }
}

impl Share for PnpEvent {
    fn share(&self) -> (r: Self) {
        *self
    }
}

/// The bytes of record `i` in a buffer of records of one size.
pub open spec fn record(buf: Seq<u8>, i: int, size: int) -> Seq<u8> {
    buf.subrange(i * size, (i + 1) * size)
}

/// Whether verdicts are those in the first `n` bytes of a buffer.
pub open spec fn holds_verdicts(
    r: Seq<PnpEvent>,
    buf: Seq<u8>,
    n: int,
    order: ByteOrder,
) -> bool {
    &&& r.len() == n / EVENT_SIZE as int
    &&& forall|i: int|
        0 <= i < r.len() ==> (#[trigger] r[i]).reads(record(buf, i, EVENT_SIZE as int), order)
}

/// The verdicts in the first `n` bytes of a buffer: every whole record, in
/// order.
pub fn events_in(buf: &[u8], n: usize, order: ByteOrder) -> (r: Vec<PnpEvent>)
    requires
        n <= buf@.len(),
    ensures
        holds_verdicts(r@, buf@, n as int, order),
{
    let count: usize = n / EVENT_SIZE;
    let mut r: Vec<PnpEvent> = Vec::new();
    let mut i: usize = 0;
    while i < count
        invariant
            i <= count,
            count == n / EVENT_SIZE,
            n <= buf@.len(),
            r@.len() == i,
            forall|k: int|
                0 <= k < i ==> (#[trigger] r@[k]).reads(
                    record(buf@, k, EVENT_SIZE as int),
                    order,
                ),
        decreases count - i,
    {
        let off: usize = i * EVENT_SIZE;
        r.push(PnpEvent::decode(slice_subrange(buf, off, off + EVENT_SIZE), order));
        i += 1;
    }
    r
}

impl PnpCounterRec {
    /// Whether this is the counter cell that a record of the kernel holds.
    pub open spec fn reads(self, b: Seq<u8>, order: ByteOrder) -> bool {
        &&& self.name@ == b.subrange(0, 64)
        &&& self.hash == word64(b, 64, order)
        &&& self.keyspec == b[72]
        &&& self.family == b[73]
        &&& self._pad0@ == b.subrange(74, 76)
        &&& self.ifindex == signed32(word32(b, 76, order) as int)
        &&& self.src_addr@ == b.subrange(80, 96)
        &&& self.dst_addr@ == b.subrange(96, 112)
        &&& self.total == word64(b, 112, order)
        &&& self.last_secs == word64(b, 120, order)
        &&& self.n_windows == word32(b, 128, order)
        &&& self._pad1 == word32(b, 132, order)
        &&& forall|i: int|
            0 <= i < 8 ==> #[trigger] self.window_secs@[i] == word32(b, 136 + 4 * i, order)
        &&& forall|i: int|
            0 <= i < 8 ==> #[trigger] self.window_value@[i] == word64(b, 168 + 8 * i, order)
    }

    /// Reads a counter record.
    pub fn decode(b: &[u8], order: ByteOrder) -> (r: PnpCounterRec)
        requires
            b@.len() == COUNTER_SIZE,
        ensures
            r.reads(b@, order),
    {
        let pad0: [u8; 2] = [b[74], b[75]];
        assert(pad0@ == b@.subrange(74, 76));
        PnpCounterRec {
            name: bytes64(b, 0),
            hash: read64(b, 64, order),
            keyspec: b[72],
            family: b[73],
            _pad0: pad0,
            ifindex: to_signed32(read32(b, 76, order)),
            src_addr: bytes16(b, 80),
            dst_addr: bytes16(b, 96),
            total: read64(b, 112, order),
            last_secs: read64(b, 120, order),
            n_windows: read32(b, 128, order),
            _pad1: read32(b, 132, order),
            window_secs: [
                read32(b, 136, order),
                read32(b, 140, order),
                read32(b, 144, order),
                read32(b, 148, order),
                read32(b, 152, order),
                read32(b, 156, order),
                read32(b, 160, order),
                read32(b, 164, order),
            ],
            window_value: [
                read64(b, 168, order),
                read64(b, 176, order),
                read64(b, 184, order),
                read64(b, 192, order),
                read64(b, 200, order),
                read64(b, 208, order),
                read64(b, 216, order),
                read64(b, 224, order),
            ],
        }
    }
}

/// How many of the records in a buffer a dump filled.
pub open spec fn filled(buf: Seq<u8>, count: u32) -> int {
    if count < buf.len() / COUNTER_SIZE as nat {
        count as int
    } else {
        (buf.len() / COUNTER_SIZE as nat) as int
    }
}

/// The counter cells in a buffer that the kernel filled, from what it reported:
/// how many records it wrote and how many cells exist.
pub fn counters_in(buf: &[u8], count: u32, total: u32, order: ByteOrder) -> (r: CountersDump)
    ensures
        dumps(r, buf@, count, total, order),
{
    let mut n: usize = buf.len() / COUNTER_SIZE;
    if (count as usize) < n {
        n = count as usize;
    }
    let mut records: Vec<PnpCounterRec> = Vec::new();
    let mut i: usize = 0;
    while i < n
        invariant
            i <= n,
            n <= buf@.len() / COUNTER_SIZE as nat,
            buf@.len() <= usize::MAX,
            records@.len() == i,
            forall|k: int|
                0 <= k < i ==> (#[trigger] records@[k]).reads(
                    record(buf@, k, COUNTER_SIZE as int),
                    order,
                ),
        decreases n - i,
    {
        let off: usize = i * COUNTER_SIZE;
        records.push(PnpCounterRec::decode(slice_subrange(buf, off, off + COUNTER_SIZE), order));
        i += 1;
    }
    CountersDump { records, total_cells: total }
}

/// A number of `n` bytes in a byte order.
pub open spec fn bytes_of(v: nat, n: nat, order: ByteOrder) -> Seq<u8> {
    match order {
        ByteOrder::Little => le_bytes(v, n),
        ByteOrder::Big => be_bytes(v, n),
    }
}

fn push_word(out: &mut Vec<u8>, v: u64, n: usize, order: ByteOrder)
    ensures
        final(out)@ == old(out)@ + bytes_of(v as nat, n as nat, order),
{
    match order {
        ByteOrder::Little => push_le(out, v, n),
        ByteOrder::Big => push_be(out, v, n),
    }
}

/// The query for as many cells as a buffer at an address holds.
pub open spec fn asking(buf: u64, buf_len: u32) -> PnpCountersQuery {
    PnpCountersQuery { buf, buf_len, count: 0, total: 0, _pad0: 0 }
}

impl PnpCountersQuery {
    /// The query as the record that the kernel reads and writes.
    pub open spec fn encoding(self, order: ByteOrder) -> Seq<u8> {
        bytes_of(self.buf as nat, 8, order) + bytes_of(self.buf_len as nat, 4, order) + bytes_of(
            self.count as nat,
            4,
            order,
        ) + bytes_of(self.total as nat, 4, order) + bytes_of(self._pad0 as nat, 4, order)
    }

    /// The query for as many cells as a buffer at an address holds.
    pub fn new(buf: u64, buf_len: u32) -> (r: PnpCountersQuery)
        ensures
            r == asking(buf, buf_len),
    {
        PnpCountersQuery { buf, buf_len, count: 0, total: 0, _pad0: 0 }
    }

    /// Writes the query as a record.
    pub fn encode(&self, order: ByteOrder) -> (r: Vec<u8>)
        ensures
            r@ == self.encoding(order),
    {
        let mut r: Vec<u8> = Vec::new();
        push_word(&mut r, self.buf, 8, order);
        push_word(&mut r, self.buf_len as u64, 4, order);
        push_word(&mut r, self.count as u64, 4, order);
        push_word(&mut r, self.total as u64, 4, order);
        push_word(&mut r, self._pad0 as u64, 4, order);
        assert(r@ == self.encoding(order));
        r
    }

    /// The query that a record holds.
    pub open spec fn decoding(b: Seq<u8>, order: ByteOrder) -> PnpCountersQuery {
        PnpCountersQuery {
            buf: word64(b, 0, order) as u64,
            buf_len: word32(b, 8, order) as u32,
            count: word32(b, 12, order) as u32,
            total: word32(b, 16, order) as u32,
            _pad0: word32(b, 20, order) as u32,
        }
    }

    /// Reads the query back from a record.
    pub fn decode(b: &[u8], order: ByteOrder) -> (r: PnpCountersQuery)
        requires
            b@.len() == QUERY_SIZE,
        ensures
            r == Self::decoding(b@, order),
    {
        PnpCountersQuery {
            buf: read64(b, 0, order),
            buf_len: read32(b, 8, order),
            count: read32(b, 12, order),
            total: read32(b, 16, order),
            _pad0: read32(b, 20, order),
        }
    }
}

/// A 32-bit number reads back from its bytes.
pub(crate) proof fn lemma_word32_back(b: Seq<u8>, at: int, v: nat, order: ByteOrder)
    requires
        v < 0x1_0000_0000,
        0 <= at,
        at + 4 <= b.len(),
        b.subrange(at, at + 4) == bytes_of(v, 4, order),
    ensures
        word32(b, at, order) == v,
{
    lemma_le4(v);
    let w = bytes_of(v, 4, order);
    assert(b[at] == w[0] && b[at + 1] == w[1] && b[at + 2] == w[2] && b[at + 3] == w[3]) by {
        assert(b.subrange(at, at + 4)[0] == b[at]);
        assert(b.subrange(at, at + 4)[1] == b[at + 1]);
        assert(b.subrange(at, at + 4)[2] == b[at + 2]);
        assert(b.subrange(at, at + 4)[3] == b[at + 3]);
    }
    lemma_four_bytes(v);
}

/// A counter query reads back as it was written.
pub proof fn law_query_reads_back(q: PnpCountersQuery, order: ByteOrder)
    ensures
        q.encoding(order).len() == QUERY_SIZE,
        PnpCountersQuery::decoding(q.encoding(order), order) == q,
{
    lemma_query_len(q, order);
    law_queries_by_position(q, q.encoding(order), order);
}

// ---------------------------------------------------------------------------
// The verdict ring
// ---------------------------------------------------------------------------
/// Whether a verdict is about the daemon's own HTTP flow: TCP over IP with the
/// daemon's port on either end.
pub open spec fn own_verdict(ev: PnpEvent, own_port: u16) -> bool {
    &&& ev.protocol == 6
    &&& ev.addr_family == 4 || ev.addr_family == 6
    &&& ev.src_port == own_port || ev.dst_port == own_port
}

/// The verdicts held after one more: a full ring loses its oldest.
pub open spec fn ring_after(held: Seq<PnpEvent>, ev: PnpEvent) -> Seq<PnpEvent> {
    if held.len() == RING {
        held.skip(1).push(ev)
    } else {
        held.push(ev)
    }
}

/// Those of a sequence of verdicts that came after a sequence number.
pub open spec fn newer_verdicts(held: Seq<PnpEvent>, since: u64) -> Seq<PnpEvent> {
    held.filter(|e: PnpEvent| e.seq > since)
}

/// Shared engine view: the verdict ring and the latest status snapshot.
pub struct Engine {
    events: VecDeque<PnpEvent>,
    subscribers: Fanout<PnpEvent>,
    status: PnpStatus,
    /// Whether the device is currently open and streaming.
    connected: bool,
    /// Own-flow verdicts hidden from the ring (counted, per the honesty
    /// rule: same treatment the tap gives its own packets).
    own_hidden: u64,
    /// The port the daemon serves on: verdicts about our own HTTP flow feed
    /// back (each SSE verdict event is itself judged traffic), so they
    /// are hidden from the ring and counted instead.
    own_port: u16,
    /// A dup of the open device for requests from the HTTP threads (a dup does
    /// not re-open, so the single-reader gate is untouched).
    dev_fd: Option<i32>,
}

/// Everything an engine view holds.
#[verifier::ext_equal]
pub struct EngineView {
    pub events: Seq<PnpEvent>,
    pub queues: Seq<Option<QueueView<PnpEvent>>>,
    pub status: PnpStatus,
    pub connected: bool,
    pub own_hidden: u64,
    pub own_port: u16,
    pub dev_fd: Option<i32>,
}

impl View for Engine {
    type V = EngineView;

    closed spec fn view(&self) -> EngineView {
        EngineView {
            events: self.events@,
            queues: self.subscribers@,
            status: self.status,
            connected: self.connected,
            own_hidden: self.own_hidden,
            own_port: self.own_port,
            dev_fd: self.dev_fd,
        }
    }
}

/// An engine view after one more verdict. The observer must not observe itself
/// into a feedback loop (sending a verdict event over SSE is itself judged TCP
/// traffic), so a verdict about its own flow is only counted.
pub open spec fn engine_after(e: EngineView, ev: PnpEvent) -> EngineView {
    if own_verdict(ev, e.own_port) {
        EngineView { own_hidden: (e.own_hidden + 1) as u64, ..e }
    } else {
        EngineView {
            events: ring_after(e.events, ev),
            queues: all_delivered(e.queues, ev),
            ..e
        }
    }
}

/// Whether an engine view has seen nothing yet.
pub open spec fn fresh_engine(e: EngineView, own_port: u16) -> bool {
    &&& e.events == Seq::<PnpEvent>::empty()
    &&& e.queues == Seq::<Option<QueueView<PnpEvent>>>::empty()
    &&& e.status.is_zero()
    &&& !e.connected
    &&& e.own_hidden == 0
    &&& e.own_port == own_port
    &&& e.dev_fd is None
}

impl Engine {
    /// The ring is bounded, and a device is held only while it is open and
    /// streaming.
    pub open spec fn wf(self) -> bool {
        &&& self@.events.len() <= RING
        &&& self@.dev_fd is Some ==> self@.connected
    }

    /// No verdicts, no subscribers, and no status yet.
    pub fn new(own_port: u16) -> (r: Engine)
        ensures
            r.wf(),
            fresh_engine(r@, own_port),
    {
        Engine {
            events: VecDeque::new(),
            subscribers: Fanout::new(),
            status: PnpStatus::default(),
            connected: false,
            own_hidden: 0,
            own_port,
            dev_fd: None,
        }
    }

    /// How many verdicts about the daemon's own flow were hidden.
    pub fn own_hidden(&self) -> (r: u64)
        ensures
            r == self@.own_hidden,
    {
        self.own_hidden
    }

    /// The latest status, and whether the device is open and streaming.
    pub fn status(&self) -> (r: (PnpStatus, bool))
        ensures
            r.0 == self@.status,
            r.1 == self@.connected,
    {
        (self.status, self.connected)
    }

    /// Events with seq > since, oldest first.
    pub fn since(&self, since: u64) -> (r: Vec<PnpEvent>)
        ensures
            r@ == newer_verdicts(self@.events, since),
    {
        let mut r: Vec<PnpEvent> = Vec::new();
        let ghost newer = |e: PnpEvent| e.seq > since;
        let mut i: usize = 0;
        proof {
            reveal(Seq::filter);
            assert(self.events@.take(0) == Seq::<PnpEvent>::empty());
        }
        while i < self.events.len()
            invariant
                i <= self.events@.len(),
                newer == (|e: PnpEvent| e.seq > since),
                r@ == self.events@.take(i as int).filter(newer),
            decreases self.events@.len() - i,
        {
            let e = self.events[i];
            proof {
                reveal(Seq::filter);
                assert(self.events@.take(i + 1).drop_last() == self.events@.take(i as int));
                assert(self.events@.take(i + 1).last() == e);
            }
            if e.seq > since {
                r.push(e);
            }
            i += 1;
        }
        assert(self.events@.take(i as int) == self.events@);
        r
    }

    /// Joins the live stream; the new subscriber's queue is empty.
    pub fn subscribe(&mut self) -> (id: usize)
        requires
            old(self).wf(),
        ensures
            final(self).wf(),
            queue_of(old(self)@.queues, id as int) is None,
            id <= old(self)@.queues.len(),
            final(self)@ == engine_with_queues(old(self)@, joined(old(self)@.queues, id as int)),
    {
        self.subscribers.subscribe()
    }

    /// Takes the oldest verdict that waits for a subscriber.
    pub fn recv(&mut self, id: usize) -> (r: Received<PnpEvent>)
        requires
            old(self).wf(),
        ensures
            final(self).wf(),
            r == found(old(self)@.queues, id as int),
            final(self)@ == engine_with_queues(old(self)@, taken(old(self)@.queues, id as int)),
    {
        self.subscribers.receive(id)
    }

    /// Leaves the live stream.
    pub fn unsubscribe(&mut self, id: usize)
        requires
            old(self).wf(),
        ensures
            final(self).wf(),
            final(self)@ == engine_with_queues(old(self)@, left(old(self)@.queues, id as int)),
    {
        self.subscribers.unsubscribe(id);
    }

    /// Takes one more verdict. A subscriber whose queue is full is cut off; it
    /// can rejoin by sequence number.
    pub fn push(&mut self, ev: PnpEvent)
        requires
            old(self).wf(),
            own_verdict(ev, old(self)@.own_port) ==> old(self)@.own_hidden < u64::MAX,
        ensures
            final(self).wf(),
            final(self)@ == engine_after(old(self)@, ev),
    {
        if ev.protocol == 6 && (ev.addr_family == 4 || ev.addr_family == 6) && (ev.src_port
            == self.own_port || ev.dst_port == self.own_port) {
            self.own_hidden = self.own_hidden + 1;
            return;
        }
        if self.events.len() == RING {
            let _ = self.events.pop_front();
            assert(self.events@ == old(self).events@.skip(1));
        }
        self.events.push_back(ev);
        self.subscribers.send(&ev);
    }

    /// Takes the status that a device reports when it is opened: the engine
    /// counts as connected only under the ABI whose verdicts are streamed.
    pub fn take_status(&mut self, status: PnpStatus)
        requires
            old(self).wf(),
            old(self)@.dev_fd is None,
        ensures
            final(self).wf(),
            final(self)@ == engine_opened(old(self)@, status),
    {
        self.status = status;
        self.connected = status.abi == ABI;
    }

    /// Takes a later status of the device that is streaming. Its ABI was looked
    /// at when the device was opened, so the engine stays as connected as it is.
    pub fn refresh(&mut self, status: PnpStatus)
        requires
            old(self).wf(),
        ensures
            final(self).wf(),
            final(self)@ == engine_refreshed(old(self)@, status),
    {
        self.status = status;
    }

    /// Notes that the stream has ended; the last status stays. Gives back the
    /// device that was held, which has to be closed.
    pub fn disconnect(&mut self) -> (held: Option<i32>)
        requires
            old(self).wf(),
        ensures
            final(self).wf(),
            final(self)@ == engine_ended(old(self)@),
            held == old(self)@.dev_fd,
    {
        let held = self.dev_fd;
        self.dev_fd = None;
        self.connected = false;
        held
    }

    /// Takes a status snapshot.
    pub fn set_status(&mut self, status: PnpStatus, connected: bool)
        requires
            old(self).wf(),
            connected || old(self)@.dev_fd is None,
        ensures
            final(self).wf(),
            final(self)@ == engine_told(old(self)@, status, connected),
    {
        self.status = status;
        self.connected = connected;
    }

    /// Holds another device, or none. Gives back the one that was held before,
    /// which has to be closed.
    pub fn set_dev_fd(&mut self, fd: Option<i32>) -> (held: Option<i32>)
        requires
            old(self).wf(),
            fd is Some ==> old(self)@.connected,
        ensures
            final(self).wf(),
            final(self)@ == engine_holding(old(self)@, fd),
            held == old(self)@.dev_fd,
    {
        let held = self.dev_fd;
        self.dev_fd = fd;
        held
    }

    /// The device to ask for the counters.
    pub fn counters_device(&self) -> (r: Result<i32, String>)
        ensures
            match r {
                Ok(fd) => device_held(self@) == Ok::<i32, Seq<char>>(fd),
                Err(why) => device_held(self@) == Err::<i32, Seq<char>>(why@),
            },
    {
        match self.dev_fd {
            Some(fd) => Ok(fd),
            None => Err("engine not connected".to_owned()),
        }
    }

    /// Dumps the counter store (the cells of every materialized table, as many
    /// as one dump asks for), from what the device answered: the query as the
    /// kernel left it and the buffer that it filled, or why it failed.
    pub fn counters(
        reply: Result<(PnpCountersQuery, Vec<u8>), String>,
        order: ByteOrder,
    ) -> (r: Result<CountersDump, String>)
        ensures
            answers_query(r, reply, order),
    {
        match reply {
            Ok((query, buf)) => Ok(counters_in(buf.as_slice(), query.count, query.total, order)),
            Err(why) => {
                let mut text = String::new();
                text.append("COUNTERS ioctl: ");
                text.append(why.as_str());
                assert(text@ == counters_failure(why@));
                Err(text)
            },
        }
    }
}

/// An engine view with another status and connection.
pub open spec fn engine_told(e: EngineView, status: PnpStatus, connected: bool) -> EngineView {
    EngineView { status, connected, ..e }
}

/// An engine view that holds another device, or none.
pub open spec fn engine_holding(e: EngineView, fd: Option<i32>) -> EngineView {
    EngineView { dev_fd: fd, ..e }
}

/// An engine view with other subscribers' queues.
pub open spec fn engine_with_queues(
    e: EngineView,
    queues: Seq<Option<QueueView<PnpEvent>>>,
) -> EngineView {
    EngineView { queues, ..e }
}

/// The device that an engine view holds, or why there is none to ask.
pub open spec fn device_held(e: EngineView) -> Result<i32, Seq<char>> {
    match e.dev_fd {
        Some(fd) => Ok(fd),
        None => Err("engine not connected"@),
    }
}

/// What is said of a counter dump that failed.
pub open spec fn counters_failure(why: Seq<char>) -> Seq<char> {
    "COUNTERS ioctl: "@ + why
}

/// An engine view once a device was opened and reported a status.
pub open spec fn engine_opened(e: EngineView, status: PnpStatus) -> EngineView {
    EngineView { status, connected: status.abi == ABI, ..e }
}

/// An engine view once the streaming device reported another status.
pub open spec fn engine_refreshed(e: EngineView, status: PnpStatus) -> EngineView {
    EngineView { status, ..e }
}

/// An engine view once the stream has ended.
pub open spec fn engine_ended(e: EngineView) -> EngineView {
    EngineView { connected: false, dev_fd: None, ..e }
}

/// Whether a dump holds the counter cells in a buffer that the kernel filled,
/// from what it reported.
pub open spec fn dumps(
    dump: CountersDump,
    buf: Seq<u8>,
    count: u32,
    total: u32,
    order: ByteOrder,
) -> bool {
    &&& dump.total_cells == total
    &&& dump.records@.len() == filled(buf, count)
    &&& forall|i: int|
        0 <= i < dump.records@.len() ==> (#[trigger] dump.records@[i]).reads(
            record(buf, i, COUNTER_SIZE as int),
            order,
        )
}

/// Whether a result is what the device's answer to a counter query comes to.
pub open spec fn answers_query(
    r: Result<CountersDump, String>,
    reply: Result<(PnpCountersQuery, Vec<u8>), String>,
    order: ByteOrder,
) -> bool {
    match reply {
        Ok((query, buf)) => r matches Ok(dump) && dumps(
            dump,
            buf@,
            query.count,
            query.total,
            order,
        ),
        Err(why) => r matches Err(text) && text@ == counters_failure(why@),
    }
}

/// What happened to the verdict stream.
pub enum StreamEvent {
    /// The device could not be opened.
    OpenFailed,
    /// The status query failed.
    StatusFailed,
    /// The device is open and reports this ABI.
    Opened(u64),
    /// Streaming ended, one way or the other.
    Ended,
}

/// What to do about it.
#[derive(Clone, Copy, PartialEq, Eq, Structural, Debug)]
pub enum StreamAction {
    /// Stream verdicts from the open device.
    Stream,
    /// Close the device, wait this many seconds, and open it again.
    Reopen(u64),
}

/// The next step of the verdict stream, which runs for ever: an ABI that the
/// daemon does not speak is refused, and everything that fails is tried again.
pub open spec fn stream_next(event: StreamEvent) -> StreamAction {
    match event {
        StreamEvent::OpenFailed => StreamAction::Reopen(5),
        StreamEvent::StatusFailed => StreamAction::Reopen(5),
        StreamEvent::Opened(abi) => if abi == ABI {
            StreamAction::Stream
        } else {
            StreamAction::Reopen(30)
        },
        StreamEvent::Ended => StreamAction::Reopen(2),
    }
}

/// The next step of the verdict stream.
pub fn stream_step(event: StreamEvent) -> (r: StreamAction)
    ensures
        r == stream_next(event),
{
    match event {
        StreamEvent::OpenFailed => StreamAction::Reopen(5),
        StreamEvent::StatusFailed => StreamAction::Reopen(5),
        StreamEvent::Opened(abi) => if abi == ABI {
            StreamAction::Stream
        } else {
            StreamAction::Reopen(30)
        },
        StreamEvent::Ended => StreamAction::Reopen(2),
    }
}

/// What a read of the device gave.
pub enum ReadEvent {
    /// This many bytes; none means that the device is closed.
    Bytes(usize),
    /// Nothing to read yet.
    WouldBlock,
    /// A signal came first.
    Interrupted,
    /// Something else went wrong.
    Failed(String),
}

/// What to do after a read.
pub enum ReadAction {
    /// Take the verdicts in what was read.
    Take,
    /// Wait until there is something to read.
    Poll,
    /// Read again.
    Again,
    /// Stop streaming, for this reason.
    Stop(String),
}

/// What to do after a read, as plain values.
pub enum ReadNext {
    Take,
    Poll,
    Again,
    Stop(Seq<char>),
}

impl View for ReadAction {
    type V = ReadNext;

    open spec fn view(&self) -> ReadNext {
        match self {
            ReadAction::Take => ReadNext::Take,
            ReadAction::Poll => ReadNext::Poll,
            ReadAction::Again => ReadNext::Again,
            ReadAction::Stop(why) => ReadNext::Stop(why@),
        }
    }
}

/// What to do after a read of the device.
pub open spec fn read_next(event: ReadEvent) -> ReadNext {
    match event {
        ReadEvent::Bytes(n) => if n == 0 {
            ReadNext::Stop("device closed"@)
        } else {
            ReadNext::Take
        },
        ReadEvent::WouldBlock => ReadNext::Poll,
        ReadEvent::Interrupted => ReadNext::Again,
        ReadEvent::Failed(why) => ReadNext::Stop(why@),
    }
}

/// What to do after a read of the device.
pub fn after_read(event: ReadEvent) -> (r: ReadAction)
    ensures
        r@ == read_next(event),
        event matches ReadEvent::Failed(why) ==> r == ReadAction::Stop(why),
{
    match event {
        ReadEvent::Bytes(n) => if n == 0 {
            ReadAction::Stop("device closed".to_owned())
        } else {
            ReadAction::Take
        },
        ReadEvent::WouldBlock => ReadAction::Poll,
        ReadEvent::Interrupted => ReadAction::Again,
        ReadEvent::Failed(why) => ReadAction::Stop(why),
    }
}

/// How long a status snapshot is shown before the device is asked again, in
/// nanoseconds.
pub const STATUS_EVERY: u64 = 1_000_000_000;

/// Whether the status is due, from the time since the last snapshot.
pub open spec fn snapshot_due(since_last: u64) -> bool {
    since_last >= STATUS_EVERY
}

/// Whether the status is due, from the time since the last snapshot: about once
/// a second.
pub fn status_due(since_last: u64) -> (r: bool)
    ensures
        r == snapshot_due(since_last),
{
    since_last >= STATUS_EVERY
}

/// An engine view after a run of verdicts.
pub open spec fn engine_after_run(e: EngineView, run: Seq<PnpEvent>) -> EngineView
    decreases run.len(),
{
    if run.len() == 0 {
        e
    } else {
        engine_after(engine_after_run(e, run.drop_last()), run.last())
    }
}

/// The verdicts of a run that are not about the daemon's own flow.
pub open spec fn foreign(run: Seq<PnpEvent>, own_port: u16) -> Seq<PnpEvent> {
    run.filter(|ev: PnpEvent| !own_verdict(ev, own_port))
}

/// Of a run of verdicts, those about the daemon's own flow are all counted and
/// never shown; of the others the ring holds the newest, as many as it has room
/// for, in the order in which they came.
pub proof fn law_own_verdicts_are_counted_others_shown(e: EngineView, run: Seq<PnpEvent>)
    requires
        e.events.len() == 0,
        e.own_hidden + run.len() <= u64::MAX,
    ensures
        ({
            let after = engine_after_run(e, run);
            let shown = foreign(run, e.own_port);
            &&& after.own_port == e.own_port
            &&& after.own_hidden == e.own_hidden + run.len() - shown.len()
            &&& shown.len() <= run.len()
            &&& after.events == if shown.len() <= RING {
                shown
            } else {
                shown.skip(shown.len() - RING as int)
            }
        }),
    decreases run.len(),
{
    reveal(Seq::filter);
    if run.len() > 0 {
        let before = run.drop_last();
        law_own_verdicts_are_counted_others_shown(e, before);
        let shown = foreign(before, e.own_port);
        let ev = run.last();
        if !own_verdict(ev, e.own_port) {
            assert(foreign(run, e.own_port) == shown.push(ev));
            let all = shown.push(ev);
            if shown.len() >= RING {
                assert(engine_after_run(e, run).events == all.skip(all.len() - RING as int));
            }
        }
    } else {
        assert(foreign(run, e.own_port) == Seq::<PnpEvent>::empty());
        assert(e.events == Seq::<PnpEvent>::empty());
    }
}

/// A verdict subscriber is cut off by exactly the shown verdicts for which its
/// queue has no room, and keeps what waits for it; the ring holds the verdict
/// all the same.
pub proof fn law_slow_verdict_subscriber_is_cut(e: EngineView, ev: PnpEvent, id: int)
    requires
        queue_of(e.queues, id) matches Some(q) && q.open,
    ensures
        ({
            let q = queue_of(e.queues, id)->0;
            let after = queue_of(engine_after(e, ev).queues, id);
            &&& after is Some
            &&& !after->0.open <==> !own_verdict(ev, e.own_port) && q.items.len() >= QUEUE
            &&& after->0.items == if own_verdict(ev, e.own_port) || q.items.len() >= QUEUE {
                q.items
            } else {
                q.items.push(ev)
            }
        }),
        !own_verdict(ev, e.own_port) ==> engine_after(e, ev).events.last() == ev,
{
}

/// What changes an engine view while a device is open.
pub enum EngineEvent {
    /// A later status came.
    Refreshed(PnpStatus),
    /// A verdict came.
    Judged(PnpEvent),
}

/// An engine view after a run of events of an open device.
pub open spec fn engine_while_open(e: EngineView, run: Seq<EngineEvent>) -> EngineView
    decreases run.len(),
{
    if run.len() == 0 {
        e
    } else {
        let before = engine_while_open(e, run.drop_last());
        match run.last() {
            EngineEvent::Refreshed(status) => engine_refreshed(before, status),
            EngineEvent::Judged(ev) => engine_after(before, ev),
        }
    }
}

/// The engine counts as connected exactly while a device is open and streaming:
/// from an opening under the ABI that the daemon speaks, whatever the device
/// reports after that, until the stream ends. A device that is refused never
/// counts.
pub proof fn law_connected_exactly_while_streaming(
    e: EngineView,
    status: PnpStatus,
    run: Seq<EngineEvent>,
)
    ensures
        engine_while_open(engine_opened(e, status), run).connected <==> stream_next(
            StreamEvent::Opened(status.abi),
        ) == StreamAction::Stream,
        !engine_ended(engine_while_open(engine_opened(e, status), run)).connected,
    decreases run.len(),
{
    if run.len() > 0 {
        law_connected_exactly_while_streaming(e, status, run.drop_last());
    }
}

/// Verdicts are read only under the ABI that the daemon speaks.
pub proof fn law_unknown_abi_is_refused(event: StreamEvent)
    ensures
        stream_next(event) == StreamAction::Stream <==> event == StreamEvent::Opened(ABI),
{
}

} // verus!
