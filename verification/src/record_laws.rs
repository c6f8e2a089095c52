//! What the kernel's records promise: every one reads back as it was laid out.

use crate::bytes::{
    be_bytes, le_bytes, lemma_word8, until_zero, word16, word32, word64, zero_at, ByteOrder,
};
use crate::engine::{
    answers_query, asking, bytes_of, dumps, filled, holds_verdicts, lemma_word32_back, own_verdict,
    record, CountersDump, PnpCounterRec, PnpCountersQuery, PnpEvent, PnpStatus, COUNTER_SIZE,
    EVENT_SIZE, IOC_COUNTERS, IOC_STATUS, QUERY_SIZE, STATUS_SIZE,
};
use vstd::arithmetic::power::{lemma_pow0, lemma_pow_positive, pow};
use vstd::prelude::*;

verus! {

// ---------------------------------------------------------------------------
// Bytes and the numbers they make
// ---------------------------------------------------------------------------
/// A number's bytes by their weight: byte `i` of the little-endian form counts
/// 256 to the `i`, and the big-endian form is the same bytes from the other end.
pub proof fn law_bytes_by_weight(v: nat, n: nat, i: int)
    requires
        0 <= i < n,
    ensures
        bytes_of(v, n, ByteOrder::Little).len() == n,
        bytes_of(v, n, ByteOrder::Big).len() == n,
        bytes_of(v, n, ByteOrder::Little)[i] == v as int / pow(256, i as nat) % 256,
        bytes_of(v, n, ByteOrder::Big)[n - 1 - i] == v as int / pow(256, i as nat) % 256,
    decreases n,
{
    lemma_bytes_len(v, n);
    lemma_pow0(256);
    if i > 0 {
        law_bytes_by_weight(v / 256, (n - 1) as nat, i - 1);
        lemma_pow_positive(256, (i - 1) as nat);
        let p = pow(256, (i - 1) as nat);
        assert(pow(256, i as nat) == 256 * p) by {
            reveal(pow);
        }
        vstd::arithmetic::div_mod::lemma_div_denominator(v as int, 256, p);
    }
}

proof fn lemma_bytes_len(v: nat, n: nat)
    ensures
        le_bytes(v, n).len() == n,
        be_bytes(v, n).len() == n,
    decreases n,
{
    if n > 0 {
        lemma_bytes_len(v / 256, (n - 1) as nat);
    }
}

/// Numbers in byte strings by the weight of each byte.
pub proof fn law_words_by_weight(s: Seq<u8>, at: int)
    ensures
        word16(s, at, ByteOrder::Little) == s[at] + 0x100 * s[at + 1],
        word16(s, at, ByteOrder::Big) == 0x100 * s[at] + s[at + 1],
        word32(s, at, ByteOrder::Little) == s[at] + 0x100 * s[at + 1] + 0x1_0000 * s[at + 2]
            + 0x100_0000 * s[at + 3],
        word32(s, at, ByteOrder::Big) == 0x100_0000 * s[at] + 0x1_0000 * s[at + 1] + 0x100 * s[at
            + 2] + s[at + 3],
        word64(s, at, ByteOrder::Little) == s[at] + 0x100 * s[at + 1] + 0x1_0000 * s[at + 2]
            + 0x100_0000 * s[at + 3] + 0x1_0000_0000 * s[at + 4] + 0x100_0000_0000 * s[at + 5]
            + 0x1_0000_0000_0000 * s[at + 6] + 0x100_0000_0000_0000 * s[at + 7],
        word64(s, at, ByteOrder::Big) == 0x100_0000_0000_0000 * s[at] + 0x1_0000_0000_0000 * s[at
            + 1] + 0x100_0000_0000 * s[at + 2] + 0x1_0000_0000 * s[at + 3] + 0x100_0000 * s[at + 4]
            + 0x1_0000 * s[at + 5] + 0x100 * s[at + 6] + s[at + 7],
{
}

proof fn lemma_zero_bounds(s: Seq<u8>)
    ensures
        0 <= zero_at(s) <= s.len(),
    decreases s.len(),
{
    if s.len() > 0 && s[0] != 0 {
        lemma_zero_bounds(s.skip(1));
    }
}

/// The text before a zero byte: it holds none, it is a prefix, and it stops at
/// a zero byte or at the end.
pub proof fn law_until_zero_stops_at_the_first(s: Seq<u8>)
    ensures
        forall|i: int| 0 <= i < until_zero(s).len() ==> until_zero(s)[i] == s[i] && s[i] != 0,
        until_zero(s).len() <= s.len(),
        until_zero(s).len() < s.len() ==> s[until_zero(s).len() as int] == 0,
    decreases s.len(),
{
    if s.len() > 0 && s[0] != 0 {
        let t = s.skip(1);
        lemma_zero_bounds(s);
        lemma_zero_bounds(t);
        law_until_zero_stops_at_the_first(t);
        let n = zero_at(t);
        assert(zero_at(s) == 1 + n);
        assert(until_zero(s).len() == 1 + until_zero(t).len());
        assert forall|i: int| 0 <= i < until_zero(s).len() implies until_zero(s)[i] == s[i] && s[i]
            != 0 by {
            if i > 0 {
                assert(until_zero(t)[i - 1] == t[i - 1]);
            }
        }
        assert(zero_at(t) == until_zero(t).len());
        if until_zero(s).len() < s.len() {
            assert(t[until_zero(t).len() as int] == s[until_zero(s).len() as int]);
        }
    }
}

proof fn lemma_word64_back(b: Seq<u8>, at: int, v: nat, order: ByteOrder)
    requires
        v < 0x1_0000_0000_0000_0000,
        0 <= at,
        at + 8 <= b.len(),
        b.subrange(at, at + 8) == bytes_of(v, 8, order),
    ensures
        word64(b, at, order) == v,
{
    let hi = v / 0x1_0000_0000;
    let lo = v % 0x1_0000_0000;
    lemma_word8(v);
    lemma_bytes_len(hi, 4);
    lemma_bytes_len(lo, 4);
    let u = b.subrange(at, at + 8);
    assert(b.subrange(at, at + 4) == u.take(4));
    assert(b.subrange(at + 4, at + 8) == u.skip(4));
    match order {
        ByteOrder::Little => {
            assert(u.take(4) == le_bytes(lo, 4));
            assert(u.skip(4) == le_bytes(hi, 4));
            lemma_word32_back(b, at, lo, order);
            lemma_word32_back(b, at + 4, hi, order);
        },
        ByteOrder::Big => {
            assert(u.take(4) == be_bytes(hi, 4));
            assert(u.skip(4) == be_bytes(lo, 4));
            lemma_word32_back(b, at, hi, order);
            lemma_word32_back(b, at + 4, lo, order);
        },
    }
}

proof fn lemma_word16_back(b: Seq<u8>, at: int, v: nat, order: ByteOrder)
    requires
        v < 0x1_0000,
        0 <= at,
        at + 2 <= b.len(),
        b.subrange(at, at + 2) == bytes_of(v, 2, order),
    ensures
        word16(b, at, order) == v,
{
    let u = b.subrange(at, at + 2);
    assert(b[at] == u[0] && b[at + 1] == u[1]);
    reveal_with_fuel(le_bytes, 3);
    reveal_with_fuel(be_bytes, 3);
    assert(le_bytes(v, 2) == seq![(v % 256) as u8, (v / 256 % 256) as u8]);
    assert(be_bytes(v, 2) == seq![(v / 256 % 256) as u8, (v % 256) as u8]);
}

// ---------------------------------------------------------------------------
// Records
// ---------------------------------------------------------------------------
/// Byte strings one behind the other.
pub open spec fn laid(pieces: Seq<Seq<u8>>) -> Seq<u8>
    decreases pieces.len(),
{
    if pieces.len() == 0 {
        seq![]
    } else {
        laid(pieces.drop_last()) + pieces.last()
    }
}

proof fn lemma_laid_prefix(pieces: Seq<Seq<u8>>, k: int)
    requires
        0 <= k <= pieces.len(),
    ensures
        laid(pieces.take(k)).len() <= laid(pieces).len(),
        laid(pieces).take(laid(pieces.take(k)).len() as int) == laid(pieces.take(k)),
    decreases pieces.len() - k,
{
    if k < pieces.len() {
        lemma_laid_prefix(pieces, k + 1);
        let a = laid(pieces.take(k));
        let b = laid(pieces.take(k + 1));
        assert(pieces.take(k + 1).drop_last() == pieces.take(k));
        assert(b == a + pieces[k]);
        assert(laid(pieces).take(a.len() as int) == laid(pieces).take(b.len() as int).take(
            a.len() as int,
        ));
        assert(b.take(a.len() as int) == a);
    } else {
        assert(pieces.take(k) == pieces);
    }
}

/// Piece `k` lies where those before it end.
proof fn lemma_piece(pieces: Seq<Seq<u8>>, k: int, at: int)
    requires
        0 <= k < pieces.len(),
        laid(pieces.take(k)).len() == at,
    ensures
        laid(pieces.take(k + 1)).len() == at + pieces[k].len(),
        at + pieces[k].len() <= laid(pieces).len(),
        laid(pieces).subrange(at, at + pieces[k].len()) == pieces[k],
{
    let a = laid(pieces.take(k));
    let b = laid(pieces.take(k + 1));
    lemma_laid_prefix(pieces, k + 1);
    assert(pieces.take(k + 1).drop_last() == pieces.take(k));
    assert(b == a + pieces[k]);
    let whole = laid(pieces);
    assert(whole.subrange(at, at + pieces[k].len()) == whole.take(b.len() as int).skip(at));
    assert(b.skip(at) == pieces[k]);
}

proof fn lemma_byte(pieces: Seq<Seq<u8>>, k: int, at: int, v: u8)
    requires
        0 <= k < pieces.len(),
        laid(pieces.take(k)).len() == at,
        pieces[k] == seq![v],
    ensures
        laid(pieces.take(k + 1)).len() == at + 1,
        laid(pieces)[at] == v,
{
    lemma_piece(pieces, k, at);
    assert(laid(pieces).subrange(at, at + 1)[0] == laid(pieces)[at]);
}

proof fn lemma_word(pieces: Seq<Seq<u8>>, k: int, at: int, v: nat, n: nat, order: ByteOrder)
    requires
        0 <= k < pieces.len(),
        laid(pieces.take(k)).len() == at,
        pieces[k] == bytes_of(v, n, order),
    ensures
        laid(pieces.take(k + 1)).len() == at + n,
        n == 2 && v < 0x1_0000 ==> word16(laid(pieces), at, order) == v,
        n == 4 && v < 0x1_0000_0000 ==> word32(laid(pieces), at, order) == v,
        n == 8 && v < 0x1_0000_0000_0000_0000 ==> word64(laid(pieces), at, order) == v,
{
    lemma_piece(pieces, k, at);
    lemma_bytes_len(v, n);
    if n == 2 && v < 0x1_0000 {
        lemma_word16_back(laid(pieces), at, v, order);
    }
    if n == 4 && v < 0x1_0000_0000 {
        lemma_word32_back(laid(pieces), at, v, order);
    }
    if n == 8 && v < 0x1_0000_0000_0000_0000 {
        lemma_word64_back(laid(pieces), at, v, order);
    }
}

/// A signed number as the unsigned one with the same 32 bits.
pub open spec fn unsigned32(v: i32) -> nat {
    if v < 0 {
        (v + 0x1_0000_0000) as nat
    } else {
        v as nat
    }
}

/// A counter cell as the kernel lays it out, field by field.
pub open spec fn counter_pieces(r: PnpCounterRec, order: ByteOrder) -> Seq<Seq<u8>> {
    seq![
        r.name@,
        bytes_of(r.hash as nat, 8, order),
        seq![r.keyspec],
        seq![r.family],
        r._pad0@,
        bytes_of(unsigned32(r.ifindex), 4, order),
        r.src_addr@,
        r.dst_addr@,
        bytes_of(r.total as nat, 8, order),
        bytes_of(r.last_secs as nat, 8, order),
        bytes_of(r.n_windows as nat, 4, order),
        bytes_of(r._pad1 as nat, 4, order),
        bytes_of(r.window_secs@[0] as nat, 4, order),
        bytes_of(r.window_secs@[1] as nat, 4, order),
        bytes_of(r.window_secs@[2] as nat, 4, order),
        bytes_of(r.window_secs@[3] as nat, 4, order),
        bytes_of(r.window_secs@[4] as nat, 4, order),
        bytes_of(r.window_secs@[5] as nat, 4, order),
        bytes_of(r.window_secs@[6] as nat, 4, order),
        bytes_of(r.window_secs@[7] as nat, 4, order),
        bytes_of(r.window_value@[0] as nat, 8, order),
        bytes_of(r.window_value@[1] as nat, 8, order),
        bytes_of(r.window_value@[2] as nat, 8, order),
        bytes_of(r.window_value@[3] as nat, 8, order),
        bytes_of(r.window_value@[4] as nat, 8, order),
        bytes_of(r.window_value@[5] as nat, 8, order),
        bytes_of(r.window_value@[6] as nat, 8, order),
        bytes_of(r.window_value@[7] as nat, 8, order),
    ]
}

/// A counter record reads back as it was laid out: the cell that a record decodes to
/// is the cell that the record was made of, in every field.
#[verifier::rlimit(60)]
#[verifier::spinoff_prover]
pub proof fn law_counter_records_read_back(r: PnpCounterRec, written: PnpCounterRec, order: ByteOrder)
    requires
        r.reads(laid(counter_pieces(written, order)), order),
    ensures
        laid(counter_pieces(written, order)).len() == 232,
        r.name@ == written.name@,
        r.hash == written.hash,
        r.keyspec == written.keyspec,
        r.family == written.family,
        r._pad0@ == written._pad0@,
        r.ifindex == written.ifindex,
        r.src_addr@ == written.src_addr@,
        r.dst_addr@ == written.dst_addr@,
        r.total == written.total,
        r.last_secs == written.last_secs,
        r.n_windows == written.n_windows,
        r._pad1 == written._pad1,
        r.window_secs@ == written.window_secs@,
        r.window_value@ == written.window_value@,
{
    let p = counter_pieces(written, order);
    assert(laid(p.take(0)).len() == 0);
    lemma_piece(p, 0, 0);
    lemma_word(p, 1, 64, written.hash as nat, 8, order);
    lemma_byte(p, 2, 72, written.keyspec);
    lemma_byte(p, 3, 73, written.family);
    lemma_piece(p, 4, 74);
    lemma_word(p, 5, 76, unsigned32(written.ifindex), 4, order);
    lemma_piece(p, 6, 80);
    lemma_piece(p, 7, 96);
    lemma_word(p, 8, 112, written.total as nat, 8, order);
    lemma_word(p, 9, 120, written.last_secs as nat, 8, order);
    lemma_word(p, 10, 128, written.n_windows as nat, 4, order);
    lemma_word(p, 11, 132, written._pad1 as nat, 4, order);
    lemma_word(p, 12, 136, written.window_secs@[0] as nat, 4, order);
    lemma_word(p, 13, 140, written.window_secs@[1] as nat, 4, order);
    lemma_word(p, 14, 144, written.window_secs@[2] as nat, 4, order);
    lemma_word(p, 15, 148, written.window_secs@[3] as nat, 4, order);
    lemma_word(p, 16, 152, written.window_secs@[4] as nat, 4, order);
    lemma_word(p, 17, 156, written.window_secs@[5] as nat, 4, order);
    lemma_word(p, 18, 160, written.window_secs@[6] as nat, 4, order);
    lemma_word(p, 19, 164, written.window_secs@[7] as nat, 4, order);
    lemma_word(p, 20, 168, written.window_value@[0] as nat, 8, order);
    lemma_word(p, 21, 176, written.window_value@[1] as nat, 8, order);
    lemma_word(p, 22, 184, written.window_value@[2] as nat, 8, order);
    lemma_word(p, 23, 192, written.window_value@[3] as nat, 8, order);
    lemma_word(p, 24, 200, written.window_value@[4] as nat, 8, order);
    lemma_word(p, 25, 208, written.window_value@[5] as nat, 8, order);
    lemma_word(p, 26, 216, written.window_value@[6] as nat, 8, order);
    lemma_word(p, 27, 224, written.window_value@[7] as nat, 8, order);
    assert(p.take(28) == p);
    assert(r.window_secs@[0] == written.window_secs@[0]);
    assert(r.window_value@[0] == written.window_value@[0]);
    assert(r.window_secs@[1] == written.window_secs@[1]);
    assert(r.window_value@[1] == written.window_value@[1]);
    assert(r.window_secs@[2] == written.window_secs@[2]);
    assert(r.window_value@[2] == written.window_value@[2]);
    assert(r.window_secs@[3] == written.window_secs@[3]);
    assert(r.window_value@[3] == written.window_value@[3]);
    assert(r.window_secs@[4] == written.window_secs@[4]);
    assert(r.window_value@[4] == written.window_value@[4]);
    assert(r.window_secs@[5] == written.window_secs@[5]);
    assert(r.window_value@[5] == written.window_value@[5]);
    assert(r.window_secs@[6] == written.window_secs@[6]);
    assert(r.window_value@[6] == written.window_value@[6]);
    assert(r.window_secs@[7] == written.window_secs@[7]);
    assert(r.window_value@[7] == written.window_value@[7]);
    assert(r.window_secs@ == written.window_secs@);
    assert(r.window_value@ == written.window_value@);
}

/// A verdict as the kernel lays it out, field by field.
pub open spec fn event_pieces(r: PnpEvent, order: ByteOrder) -> Seq<Seq<u8>> {
    seq![
        bytes_of(r.seq as nat, 8, order),
        bytes_of(r.t_ns as nat, 8, order),
        seq![r.seat],
        seq![r.layer],
        seq![r.verdict],
        seq![r.flags],
        seq![r.direction],
        seq![r.addr_family],
        seq![r.protocol],
        seq![r.flow_state],
        bytes_of(r.ifindex as nat, 4, order),
        bytes_of(r.src_port as nat, 2, order),
        bytes_of(r.dst_port as nat, 2, order),
        bytes_of(r.ether_type as nat, 2, order),
        seq![r.reject_kind],
        seq![r._pad0],
        r.src_addr@,
        r.dst_addr@,
        bytes_of(r.length as nat, 4, order),
        bytes_of(r.effects as nat, 4, order),
        r.attributed@,
        bytes_of(r._pad1 as nat, 4, order),
    ]
}

/// A verdict record reads back as it was laid out, in every field.
#[verifier::rlimit(60)]
#[verifier::spinoff_prover]
pub proof fn law_verdict_records_read_back(r: PnpEvent, written: PnpEvent, order: ByteOrder)
    requires
        r.reads(laid(event_pieces(written, order)), order),
    ensures
        laid(event_pieces(written, order)).len() == 176,
        r.seq == written.seq,
        r.t_ns == written.t_ns,
        r.seat == written.seat,
        r.layer == written.layer,
        r.verdict == written.verdict,
        r.flags == written.flags,
        r.direction == written.direction,
        r.addr_family == written.addr_family,
        r.protocol == written.protocol,
        r.flow_state == written.flow_state,
        r.ifindex == written.ifindex,
        r.src_port == written.src_port,
        r.dst_port == written.dst_port,
        r.ether_type == written.ether_type,
        r.reject_kind == written.reject_kind,
        r._pad0 == written._pad0,
        r.src_addr@ == written.src_addr@,
        r.dst_addr@ == written.dst_addr@,
        r.length == written.length,
        r.effects == written.effects,
        r.attributed@ == written.attributed@,
        r._pad1 == written._pad1,
{
    let p = event_pieces(written, order);
    assert(laid(p.take(0)).len() == 0);
    lemma_word(p, 0, 0, written.seq as nat, 8, order);
    lemma_word(p, 1, 8, written.t_ns as nat, 8, order);
    lemma_byte(p, 2, 16, written.seat);
    lemma_byte(p, 3, 17, written.layer);
    lemma_byte(p, 4, 18, written.verdict);
    lemma_byte(p, 5, 19, written.flags);
    lemma_byte(p, 6, 20, written.direction);
    lemma_byte(p, 7, 21, written.addr_family);
    lemma_byte(p, 8, 22, written.protocol);
    lemma_byte(p, 9, 23, written.flow_state);
    lemma_word(p, 10, 24, written.ifindex as nat, 4, order);
    lemma_word(p, 11, 28, written.src_port as nat, 2, order);
    lemma_word(p, 12, 30, written.dst_port as nat, 2, order);
    lemma_word(p, 13, 32, written.ether_type as nat, 2, order);
    lemma_byte(p, 14, 34, written.reject_kind);
    lemma_byte(p, 15, 35, written._pad0);
    lemma_piece(p, 16, 36);
    lemma_piece(p, 17, 52);
    lemma_word(p, 18, 68, written.length as nat, 4, order);
    lemma_word(p, 19, 72, written.effects as nat, 4, order);
    lemma_piece(p, 20, 76);
    lemma_word(p, 21, 172, written._pad1 as nat, 4, order);
    assert(p.take(22) == p);
}

/// The words of a status, in the order in which the kernel lays them out.
pub open spec fn status_words(r: PnpStatus) -> Seq<u64> {
    seq![
        r.abi,
        r.generation,
        r.enforcing,
        r.events_dropped,
        r.seen_ingress,
        r.seen_egress,
        r.seen_local_in,
        r.deferred,
        r.fallback_judged,
        r.parse_errors,
        r.judged,
        r.permissive,
        r.fail_closed,
        r.verdict_pass,
        r.verdict_drop,
        r.verdict_reject,
        r.reject_degraded,
        r.fx_tags,
        r.fx_counts,
        r.fx_reports,
        r.fx_prompts,
        r.last_ingest_error,
        r.last_ingest_t_ns,
        r.tag_writes,
        r.tag_untracked,
        r.tag_refused,
        r.count_writes,
        r.count_key_absent,
        r.count_refused,
        r.reports_emitted,
        r.counter_cells,
        r.reporting_level,
        r._reserved@[0],
        r._reserved@[1],
        r._reserved@[2],
        r._reserved@[3],
    ]
}

/// Words of eight bytes, as bytes.
pub open spec fn word_pieces(words: Seq<u64>, order: ByteOrder) -> Seq<Seq<u8>> {
    Seq::new(words.len(), |i: int| bytes_of(words[i] as nat, 8, order))
}

proof fn lemma_word_pieces(words: Seq<u64>, order: ByteOrder, n: nat)
    requires
        n <= words.len(),
    ensures
        laid(word_pieces(words, order).take(n as int)).len() == 8 * n,
        forall|k: int|
            0 <= k < n ==> #[trigger] words[k] == word64(
                laid(word_pieces(words, order)),
                8 * k,
                order,
            ),
    decreases n,
{
    let p = word_pieces(words, order);
    if n > 0 {
        let k = n - 1;
        lemma_word_pieces(words, order, k as nat);
        lemma_word(p, k, 8 * k, words[k] as nat, 8, order);
    } else {
        assert(p.take(0).len() == 0);
    }
}

/// A status record reads back as it was laid out, word by word; what this ABI does
/// not deliver is zero.
#[verifier::rlimit(60)]
#[verifier::spinoff_prover]
pub proof fn law_status_records_read_back(r: PnpStatus, written: PnpStatus, order: ByteOrder)
    requires
        r.reads(laid(word_pieces(status_words(written), order)), order),
    ensures
        laid(word_pieces(status_words(written), order)).len() == 288,
        r.abi == written.abi,
        r.generation == written.generation,
        r.enforcing == written.enforcing,
        r.events_dropped == written.events_dropped,
        r.seen_ingress == written.seen_ingress,
        r.seen_egress == written.seen_egress,
        r.seen_local_in == written.seen_local_in,
        r.deferred == written.deferred,
        r.fallback_judged == written.fallback_judged,
        r.parse_errors == written.parse_errors,
        r.judged == written.judged,
        r.permissive == written.permissive,
        r.fail_closed == written.fail_closed,
        r.verdict_pass == written.verdict_pass,
        r.verdict_drop == written.verdict_drop,
        r.verdict_reject == written.verdict_reject,
        r.reject_degraded == written.reject_degraded,
        r.fx_tags == written.fx_tags,
        r.fx_counts == written.fx_counts,
        r.fx_reports == written.fx_reports,
        r.fx_prompts == written.fx_prompts,
        r.last_ingest_error == written.last_ingest_error,
        r.last_ingest_t_ns == written.last_ingest_t_ns,
        r.tag_writes == written.tag_writes,
        r.tag_untracked == written.tag_untracked,
        r.tag_refused == written.tag_refused,
        r.count_writes == written.count_writes,
        r.count_key_absent == written.count_key_absent,
        r.count_refused == written.count_refused,
        r.reports_emitted == written.reports_emitted,
        r.counter_cells == written.counter_cells,
        r.reporting_level == written.reporting_level,
        r._reserved@ == written._reserved@,
        r.seen_local_out == 0,
        r.flow_judged == 0,
        r.flow_cached == 0,
        r.flow_rejudged == 0,
        r.flow_expired == 0,
        r.flow_uncached == 0,
        r.refusals_emitted == 0,
        r.refusals_bypassed == 0,
        r.teardowns_emitted == 0,
{
    let words = status_words(written);
    let p = word_pieces(words, order);
    lemma_word_pieces(words, order, 36);
    assert(p.take(36) == p);
    let b = laid(p);
    assert(words[0] == word64(b, 0, order));
    assert(words[1] == word64(b, 8, order));
    assert(words[2] == word64(b, 16, order));
    assert(words[3] == word64(b, 24, order));
    assert(words[4] == word64(b, 32, order));
    assert(words[5] == word64(b, 40, order));
    assert(words[6] == word64(b, 48, order));
    assert(words[7] == word64(b, 56, order));
    assert(words[8] == word64(b, 64, order));
    assert(words[9] == word64(b, 72, order));
    assert(words[10] == word64(b, 80, order));
    assert(words[11] == word64(b, 88, order));
    assert(words[12] == word64(b, 96, order));
    assert(words[13] == word64(b, 104, order));
    assert(words[14] == word64(b, 112, order));
    assert(words[15] == word64(b, 120, order));
    assert(words[16] == word64(b, 128, order));
    assert(words[17] == word64(b, 136, order));
    assert(words[18] == word64(b, 144, order));
    assert(words[19] == word64(b, 152, order));
    assert(words[20] == word64(b, 160, order));
    assert(words[21] == word64(b, 168, order));
    assert(words[22] == word64(b, 176, order));
    assert(words[23] == word64(b, 184, order));
    assert(words[24] == word64(b, 192, order));
    assert(words[25] == word64(b, 200, order));
    assert(words[26] == word64(b, 208, order));
    assert(words[27] == word64(b, 216, order));
    assert(words[28] == word64(b, 224, order));
    assert(words[29] == word64(b, 232, order));
    assert(words[30] == word64(b, 240, order));
    assert(words[31] == word64(b, 248, order));
    assert(words[32] == word64(b, 256, order));
    assert(words[33] == word64(b, 264, order));
    assert(words[34] == word64(b, 272, order));
    assert(words[35] == word64(b, 280, order));
    assert(r._reserved@[0] == written._reserved@[0]);
    assert(r._reserved@[1] == written._reserved@[1]);
    assert(r._reserved@[2] == written._reserved@[2]);
    assert(r._reserved@[3] == written._reserved@[3]);
    assert(r._reserved@ == written._reserved@);
}

/// A query is its fields one behind the other: the address, the room, the count,
/// the total and padding, at bytes 0, 8, 12, 16 and 20; and a reply is read from
/// the same places.
pub proof fn law_queries_by_position(q: PnpCountersQuery, b: Seq<u8>, order: ByteOrder)
    requires
        b.len() == 24,
    ensures
        word64(q.encoding(order), 0, order) == q.buf,
        word32(q.encoding(order), 8, order) == q.buf_len,
        word32(q.encoding(order), 12, order) == q.count,
        word32(q.encoding(order), 16, order) == q.total,
        word32(q.encoding(order), 20, order) == q._pad0,
        PnpCountersQuery::decoding(b, order).buf == word64(b, 0, order),
        PnpCountersQuery::decoding(b, order).buf_len == word32(b, 8, order),
        PnpCountersQuery::decoding(b, order).count == word32(b, 12, order),
        PnpCountersQuery::decoding(b, order).total == word32(b, 16, order),
        PnpCountersQuery::decoding(b, order)._pad0 == word32(b, 20, order),
{
    let p = seq![
        bytes_of(q.buf as nat, 8, order),
        bytes_of(q.buf_len as nat, 4, order),
        bytes_of(q.count as nat, 4, order),
        bytes_of(q.total as nat, 4, order),
        bytes_of(q._pad0 as nat, 4, order),
    ];
    assert(laid(p.take(0)).len() == 0);
    lemma_word(p, 0, 0, q.buf as nat, 8, order);
    lemma_word(p, 1, 8, q.buf_len as nat, 4, order);
    lemma_word(p, 2, 12, q.count as nat, 4, order);
    lemma_word(p, 3, 16, q.total as nat, 4, order);
    lemma_word(p, 4, 20, q._pad0 as nat, 4, order);
    assert(p.drop_last() == p.take(4));
    assert(p.take(4).drop_last() == p.take(3));
    assert(p.take(3).drop_last() == p.take(2));
    assert(p.take(2).drop_last() == p.take(1));
    assert(p.take(1).drop_last() == p.take(0));
    assert(laid(p.take(1)) == p[0]);
    assert(laid(p.take(2)) == p[0] + p[1]);
    assert(laid(p.take(3)) == p[0] + p[1] + p[2]);
    assert(laid(p.take(4)) == p[0] + p[1] + p[2] + p[3]);
    assert(laid(p) == q.encoding(order));
    lemma_word_bounds(b, 0, order);
    lemma_word_bounds(b, 8, order);
    lemma_word_bounds(b, 12, order);
    lemma_word_bounds(b, 16, order);
    lemma_word_bounds(b, 20, order);
}

proof fn lemma_word_bounds(s: Seq<u8>, at: int, order: ByteOrder)
    ensures
        word32(s, at, order) < 0x1_0000_0000,
        word64(s, at, order) < 0x1_0000_0000_0000_0000,
{
}

/// Byte `k` of record `i` is byte `i * size + k` of the buffer.
pub proof fn law_records_follow_one_another(buf: Seq<u8>, i: int, size: int, k: int)
    requires
        0 <= i,
        0 <= k < size,
        (i + 1) * size <= buf.len(),
    ensures
        record(buf, i, size).len() == size,
        record(buf, i, size)[k] == buf[i * size + k],
{
    assert((i + 1) * size == i * size + size) by (nonlinear_arith);
    assert(0 <= i * size) by (nonlinear_arith)
        requires
            0 <= i,
            0 < size,
    ;
}

/// A dump holds as many cells as the kernel says, but no more than fit.
pub proof fn law_dumps_hold_what_was_filled(buf: Seq<u8>, count: u32)
    ensures
        filled(buf, count) <= count,
        filled(buf, count) * 232 <= buf.len(),
        filled(buf, count) == count || (filled(buf, count) + 1) * 232 > buf.len(),
{
}

/// A counter dump is read record by record, 232 bytes each, one behind the
/// other, and tells how many cells there are as the kernel did.
pub proof fn law_counters_are_read_record_by_record(
    dump: CountersDump,
    buf: Seq<u8>,
    count: u32,
    total: u32,
    order: ByteOrder,
    i: int,
)
    requires
        dumps(dump, buf, count, total, order),
        0 <= i < dump.records@.len(),
    ensures
        dump.total_cells == total,
        dump.records@.len() <= count,
        232 * dump.records@.len() <= buf.len(),
        dump.records@.len() == count || 232 * (dump.records@.len() + 1) > buf.len(),
        dump.records@[i].reads(buf.subrange(232 * i, 232 * i + 232), order),
{
    law_dumps_hold_what_was_filled(buf, count);
}

/// Verdicts are read record by record, 176 bytes each, one behind the other, as
/// many whole ones as there are.
pub proof fn law_verdicts_are_read_record_by_record(
    events: Seq<PnpEvent>,
    buf: Seq<u8>,
    n: int,
    order: ByteOrder,
    i: int,
)
    requires
        holds_verdicts(events, buf, n, order),
        0 <= n,
        0 <= i < events.len(),
    ensures
        176 * events.len() <= n < 176 * (events.len() + 1),
        events[i].reads(buf.subrange(176 * i, 176 * i + 176), order),
{
}

pub(crate) proof fn lemma_query_len(q: PnpCountersQuery, order: ByteOrder)
    ensures
        q.encoding(order).len() == 24,
{
    lemma_bytes_len(q.buf as nat, 8);
    lemma_bytes_len(q.buf_len as nat, 4);
    lemma_bytes_len(q.count as nat, 4);
    lemma_bytes_len(q.total as nat, 4);
    lemma_bytes_len(q._pad0 as nat, 4);
}

/// A query that was just made asks for the buffer that it was made for, and
/// reports nothing yet.
pub proof fn law_queries_ask_for_their_buffer(buf: u64, buf_len: u32)
    ensures
        asking(buf, buf_len).buf == buf,
        asking(buf, buf_len).buf_len == buf_len,
        asking(buf, buf_len).count == 0,
        asking(buf, buf_len).total == 0,
        asking(buf, buf_len)._pad0 == 0,
{
}

/// A record is zero exactly where it reads from zero bytes.
pub proof fn law_zero_records_read_from_zeros(ev: PnpEvent, status: PnpStatus, order: ByteOrder)
    ensures
        ev.is_zero() <==> ev.reads(Seq::new(176, |i: int| 0u8), order),
        status.is_zero() <==> status.reads(Seq::new(288, |i: int| 0u8), order),
{
    let b = Seq::new(176, |i: int| 0u8);
    let z16 = Seq::new(16, |i: int| 0u8);
    let z96 = Seq::new(96, |i: int| 0u8);
    assert(b.subrange(36, 52) == z16);
    assert(b.subrange(52, 68) == z16);
    assert(b.subrange(76, 172) == z96);
    let c = Seq::new(288, |i: int| 0u8);
    let z4 = Seq::new(4, |i: int| 0u64);
    assert forall|at: int| 0 <= at <= 280 implies #[trigger] word64(c, at, order) == 0 by {}
    if status.reads(c, order) {
        assert(status._reserved@ == z4);
    }
    if status.is_zero() {
        assert forall|i: int| 0 <= i < 4 implies #[trigger] status._reserved@[i] == word64(
            c,
            256 + 8 * i,
            order,
        ) by {
            assert(status._reserved@[i] == z4[i]);
        }
    }
}

/// The request codes carry the size of the record that they exchange, the
/// device's letter, and their own number: one reads, the other reads and writes.
pub proof fn law_request_codes_carry_their_record(size: u64)
    ensures
        IOC_STATUS as int == 0x8000_0000 + 0x1_0000 * STATUS_SIZE + 0x100 * 0x4e + 1,
        IOC_COUNTERS as int == 0xc000_0000 + 0x1_0000 * QUERY_SIZE + 0x100 * 0x4e + 2,
        size == STATUS_SIZE <==> size == 288,
        size == QUERY_SIZE <==> size == 24,
        size == EVENT_SIZE <==> size == 176,
        size == COUNTER_SIZE <==> size == 232,
{
}

/// Only a TCP verdict over IPv4 or IPv6 with the listen port at one of its ends
/// is hidden.
pub proof fn law_own_verdicts_are_told_by_their_fields(ev: PnpEvent, port: u16)
    ensures
        own_verdict(ev, port) <==> ev.protocol == 6 && (ev.addr_family == 4 || ev.addr_family == 6)
            && (ev.src_port == port || ev.dst_port == port),
{
}

/// A device that answered gives as many cells as its reply says it filled and
/// that fit, and the number that exist as the reply says it; one that did not
/// gives no cells, and says why.
pub proof fn law_replies_become_dumps(
    r: Result<CountersDump, String>,
    reply: Result<(PnpCountersQuery, Vec<u8>), String>,
    order: ByteOrder,
)
    requires
        answers_query(r, reply, order),
    ensures
        reply is Ok <==> r is Ok,
        reply matches Ok((query, buf)) ==> {
            let dump = r->Ok_0;
            &&& dump.total_cells == query.total
            &&& dump.records@.len() <= query.count
            &&& 232 * dump.records@.len() <= buf@.len()
            &&& dump.records@.len() == query.count || 232 * (dump.records@.len() + 1) > buf@.len()
        },
        reply matches Err(why) ==> r->Err_0@ == "COUNTERS ioctl: "@ + why@,
{
    if let Ok((query, buf)) = reply {
        law_dumps_hold_what_was_filled(buf@, query.count);
    }
}

} // verus!
