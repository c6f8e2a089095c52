//! What the daemon's reports promise: whoever reads one gets every number and
//! every text of it back from under its own key.

use crate::bytes::{be16, until_zero};
use crate::capture::CaptureStats;
use crate::engine::{CountersDump, EngineView, FlowsDump, PnpCounterRec, PnpEvent, PnpFlowRec};
use crate::json::{
    array_text, digit_value, escape_text, hex_text, lemma_hex_len, object_text, Field, Number,
};
use crate::json_read::{
    closes, elements, is_number, is_string, law_arrays_read_back, law_objects_read_back,
    lemma_number_value, lemma_plain_closes, lemma_plain_string, lemma_string_value, members,
    says_number, says_text, string_in, whole,
};
use crate::report::{
    addr_text, all_sentences, counter_fields, counters_fields, counters_text, engine_fields, flag,
    flow_fields, flows_fields, flows_text, key_names, layer_text, packet_fields, pair_text,
    reject_text, seat_text, sentence_fields, sentences_shown, shown_windows, status_fields,
    tag_fields, tags_shown, unconnected_fields, verdict_fields, verdict_text, way_text,
    window_fields, windows_text,
};
use crate::ring::{Direction, Packet};
use crate::text::{
    bytes_text, decimal, digit, hex_fixed, int_text, law_decimals_read_back, law_join_splits_back,
    lemma_decimal_value, numeral, parse_nat, split,
};
use vstd::prelude::*;

verus! {

/// The number that an object holds for an integer is the integer.
pub proof fn law_numbers_are_their_values(
    a: u8,
    b: u16,
    c: u32,
    d: u64,
    e: i8,
    f: i16,
    g: i32,
    h: i64,
    i: i128,
    j: bool,
)
    ensures
        a.value() == a,
        b.value() == b,
        c.value() == c,
        d.value() == d,
        e.value() == e,
        f.value() == f,
        g.value() == g,
        h.value() == h,
        i.value() == i,
        j.value() == 1 <==> j,
        j.value() == 0 <==> !j,
{
}

// ---------------------------------------------------------------------------
// Hexadecimal and addresses
// ---------------------------------------------------------------------------
/// Whether a character is a lowercase hexadecimal digit.
pub open spec fn is_hex(c: char) -> bool {
    '0' <= c <= '9' || 'a' <= c <= 'f'
}

/// The number that lowercase hexadecimal digits write.
pub open spec fn hex_number(s: Seq<char>) -> nat
    decreases s.len(),
{
    if s.len() == 0 {
        0
    } else {
        hex_number(s.drop_last()) * 16 + digit_value(s.last()) as nat
    }
}

/// Whether a text is the hexadecimal numeral of a number, without leading zeros.
pub open spec fn is_hex_numeral(s: Seq<char>, n: nat) -> bool {
    &&& s.len() > 0
    &&& forall|i: int| 0 <= i < s.len() ==> is_hex(#[trigger] s[i])
    &&& hex_number(s) == n
    &&& s.len() > 1 ==> s[0] != '0'
}

proof fn lemma_digit(d: int)
    requires
        0 <= d < 16,
    ensures
        is_hex(digit(d)),
        digit_value(digit(d)) == d,
        digit(d) == '0' ==> d == 0,
{
}

proof fn lemma_hex_numeral(n: nat)
    ensures
        is_hex_numeral(numeral(n, 16), n),
        n > 0 ==> numeral(n, 16)[0] != '0',
    decreases n,
{
    let s = numeral(n, 16);
    if n >= 16 {
        lemma_hex_numeral(n / 16);
        let head = numeral(n / 16, 16);
        lemma_digit((n % 16) as int);
        assert(s.drop_last() == head);
        assert(s[0] == head[0]);
        assert forall|i: int| 0 <= i < s.len() implies is_hex(#[trigger] s[i]) by {
            if i < head.len() {
                assert(s[i] == head[i]);
            }
        }
    } else {
        lemma_digit(n as int);
        assert(s == seq![digit(n as int)]);
        assert(s.drop_last().len() == 0);
        assert(hex_number(s.drop_last()) == 0);
    }
}

/// A fixed number of hexadecimal digits reads back as the number, where it fits.
pub proof fn law_fixed_hex_reads_back(n: u64)
    ensures
        hex_fixed(n as nat, 16).len() == 16,
        forall|i: int| 0 <= i < 16 ==> is_hex(#[trigger] hex_fixed(n as nat, 16)[i]),
        hex_number(hex_fixed(n as nat, 16)) == n,
{
    lemma_fixed_hex(n as nat, 16);
    assert(n as int % 0x1_0000_0000_0000_0000 == n);
    assert(vstd::arithmetic::power::pow(16, 16) == 0x1_0000_0000_0000_0000) by {
        reveal_with_fuel(vstd::arithmetic::power::pow, 17);
    }
}

proof fn lemma_fixed_hex(n: nat, width: nat)
    ensures
        hex_fixed(n, width).len() == width,
        forall|i: int| 0 <= i < width ==> is_hex(#[trigger] hex_fixed(n, width)[i]),
        hex_number(hex_fixed(n, width)) == n as int % vstd::arithmetic::power::pow(16, width),
    decreases width,
{
    let s = hex_fixed(n, width);
    vstd::arithmetic::power::lemma_pow0(16);
    if width > 0 {
        lemma_fixed_hex(n / 16, (width - 1) as nat);
        let head = hex_fixed(n / 16, (width - 1) as nat);
        lemma_digit((n % 16) as int);
        assert(s.drop_last() == head);
        assert forall|i: int| 0 <= i < width implies is_hex(#[trigger] s[i]) by {
            if i < head.len() {
                assert(s[i] == head[i]);
            }
        }
        vstd::arithmetic::power::lemma_pow_positive(16, (width - 1) as nat);
        let p = vstd::arithmetic::power::pow(16, (width - 1) as nat);
        assert(vstd::arithmetic::power::pow(16, width) == 16 * p) by {
            reveal(vstd::arithmetic::power::pow);
        }
        vstd::arithmetic::div_mod::lemma_breakdown(n as int, 16, p);
    }
}

/// Bytes in hexadecimal, by position: two digits for each byte, the higher one
/// first.
pub proof fn law_hex_by_position(data: Seq<u8>, i: int)
    requires
        0 <= i < data.len(),
    ensures
        hex_text(data).len() == 2 * data.len(),
        is_hex(hex_text(data)[2 * i]),
        is_hex(hex_text(data)[2 * i + 1]),
        digit_value(hex_text(data)[2 * i]) * 16 + digit_value(hex_text(data)[2 * i + 1]) == data[i],
    decreases data.len(),
{
    lemma_hex_len(data);
    lemma_hex_len(data.drop_last());
    if i < data.len() - 1 {
        law_hex_by_position(data.drop_last(), i);
        assert(hex_text(data)[2 * i] == hex_text(data.drop_last())[2 * i]);
        assert(hex_text(data)[2 * i + 1] == hex_text(data.drop_last())[2 * i + 1]);
    } else {
        lemma_digit(data.last() as int / 16);
        lemma_digit(data.last() as int % 16);
    }
}

/// Whether a text is an address of a family: four decimal numbers between dots
/// for IPv4, eight hexadecimal ones of two bytes each between colons for IPv6,
/// and nothing for any other family.
pub open spec fn is_address(t: Seq<char>, family: u8, a: Seq<u8>) -> bool {
    if family == 4 {
        &&& split(t, '.').len() == 4
        &&& forall|i: int|
            0 <= i < 4 ==> parse_nat(#[trigger] split(t, '.')[i], 255) == Some(a[i] as nat)
    } else if family == 6 {
        &&& split(t, ':').len() == 8
        &&& forall|i: int|
            0 <= i < 8 ==> is_hex_numeral(
                #[trigger] split(t, ':')[i],
                (256 * a[2 * i] + a[2 * i + 1]) as nat,
            )
    } else {
        t.len() == 0
    }
}

/// Every address reads back from its text, byte for byte.
pub proof fn law_addresses_read_back(family: u8, a: Seq<u8>)
    ensures
        is_address(addr_text(family, a), family, a),
{
    if family == 4 {
        let parts = seq![
            decimal(a[0] as nat),
            decimal(a[1] as nat),
            decimal(a[2] as nat),
            decimal(a[3] as nat),
        ];
        assert forall|i: int| 0 <= i < 4 implies !(#[trigger] parts[i]).contains('.') && parse_nat(
            parts[i],
            255,
        ) == Some(a[i] as nat) by {
            assert(parts[i] == decimal(a[i] as nat));
            lemma_decimal_value(a[i] as nat);
            law_decimals_read_back(a[i] as nat, 255);
        }
        law_join_splits_back(parts, '.');
    } else if family == 6 {
        let parts = Seq::new(8, |i: int| numeral(be16(a, 2 * i), 16));
        assert forall|i: int| 0 <= i < 8 implies !(#[trigger] parts[i]).contains(':')
            && is_hex_numeral(parts[i], (256 * a[2 * i] + a[2 * i + 1]) as nat) by {
            lemma_hex_numeral(be16(a, 2 * i));
        }
        law_join_splits_back(parts, ':');
    }
}

/// Two addresses of a family with the same text are the same address.
pub proof fn law_addresses_are_told_apart(a: Seq<u8>, b: Seq<u8>)
    ensures
        addr_text(4, a) == addr_text(4, b) ==> a[0] == b[0] && a[1] == b[1] && a[2] == b[2] && a[3]
            == b[3],
        a.len() == 16 && b.len() == 16 && addr_text(6, a) == addr_text(6, b) ==> a == b,
{
    law_addresses_read_back(4, a);
    law_addresses_read_back(4, b);
    law_addresses_read_back(6, a);
    law_addresses_read_back(6, b);
    if addr_text(4, a) == addr_text(4, b) {
        let p = split(addr_text(4, a), '.');
        assert(parse_nat(p[0], 255) == Some(a[0] as nat) && parse_nat(p[0], 255) == Some(
            b[0] as nat,
        ));
        assert(parse_nat(p[1], 255) == Some(a[1] as nat) && parse_nat(p[1], 255) == Some(
            b[1] as nat,
        ));
        assert(parse_nat(p[2], 255) == Some(a[2] as nat) && parse_nat(p[2], 255) == Some(
            b[2] as nat,
        ));
        assert(parse_nat(p[3], 255) == Some(a[3] as nat) && parse_nat(p[3], 255) == Some(
            b[3] as nat,
        ));
    }
    if a.len() == 16 && b.len() == 16 && addr_text(6, a) == addr_text(6, b) {
        let p = split(addr_text(6, a), ':');
        assert forall|k: int| 0 <= k < 16 implies a[k] == b[k] by {
            let i = k / 2;
            assert(is_hex_numeral(p[i], (256 * a[2 * i] + a[2 * i + 1]) as nat));
            assert(is_hex_numeral(p[i], (256 * b[2 * i] + b[2 * i + 1]) as nat));
        }
        assert(a == b);
    }
}

/// Whether a member has a key, and the text of an address as its value.
pub open spec fn says_address(
    m: Field,
    key: Seq<char>,
    family: u8,
    a: Seq<u8>,
) -> bool {
    m.key == key && is_string(m.value) && is_address(string_in(m.value), family, a)
}

#[verifier::rlimit(60)]
#[verifier::spinoff_prover]
pub(crate) proof fn lemma_verdict_reads_back(ev: PnpEvent)
    ensures
        members(object_text(verdict_fields(ev))) == verdict_fields(ev),
        whole(object_text(verdict_fields(ev))),
        object_text(verdict_fields(ev)).len() > 0,
{
    let f = verdict_fields(ev);
    assert(closes("seq"@)) by {
        reveal_strlit("seq");
        lemma_plain_closes("seq"@);
    }
    assert(closes("t_ns"@)) by {
        reveal_strlit("t_ns");
        lemma_plain_closes("t_ns"@);
    }
    assert(closes("seat"@)) by {
        reveal_strlit("seat");
        lemma_plain_closes("seat"@);
    }
    assert(closes("layer"@)) by {
        reveal_strlit("layer");
        lemma_plain_closes("layer"@);
    }
    assert(closes("verdict"@)) by {
        reveal_strlit("verdict");
        lemma_plain_closes("verdict"@);
    }
    assert(closes("reject_kind"@)) by {
        reveal_strlit("reject_kind");
        lemma_plain_closes("reject_kind"@);
    }
    assert(closes("backstop"@)) by {
        reveal_strlit("backstop");
        lemma_plain_closes("backstop"@);
    }
    assert(closes("fail_closed"@)) by {
        reveal_strlit("fail_closed");
        lemma_plain_closes("fail_closed"@);
    }
    assert(closes("reject_degraded"@)) by {
        reveal_strlit("reject_degraded");
        lemma_plain_closes("reject_degraded"@);
    }
    assert(closes("rejudged"@)) by {
        reveal_strlit("rejudged");
        lemma_plain_closes("rejudged"@);
    }
    assert(closes("dir"@)) by {
        reveal_strlit("dir");
        lemma_plain_closes("dir"@);
    }
    assert(closes("family"@)) by {
        reveal_strlit("family");
        lemma_plain_closes("family"@);
    }
    assert(closes("protocol"@)) by {
        reveal_strlit("protocol");
        lemma_plain_closes("protocol"@);
    }
    assert(closes("flow_state"@)) by {
        reveal_strlit("flow_state");
        lemma_plain_closes("flow_state"@);
    }
    assert(closes("ifindex"@)) by {
        reveal_strlit("ifindex");
        lemma_plain_closes("ifindex"@);
    }
    assert(closes("src"@)) by {
        reveal_strlit("src");
        lemma_plain_closes("src"@);
    }
    assert(closes("dst"@)) by {
        reveal_strlit("dst");
        lemma_plain_closes("dst"@);
    }
    assert(closes("src_port"@)) by {
        reveal_strlit("src_port");
        lemma_plain_closes("src_port"@);
    }
    assert(closes("dst_port"@)) by {
        reveal_strlit("dst_port");
        lemma_plain_closes("dst_port"@);
    }
    assert(closes("ether_type"@)) by {
        reveal_strlit("ether_type");
        lemma_plain_closes("ether_type"@);
    }
    assert(closes("length"@)) by {
        reveal_strlit("length");
        lemma_plain_closes("length"@);
    }
    assert(closes("fx_tags"@)) by {
        reveal_strlit("fx_tags");
        lemma_plain_closes("fx_tags"@);
    }
    assert(closes("fx_counts"@)) by {
        reveal_strlit("fx_counts");
        lemma_plain_closes("fx_counts"@);
    }
    assert(closes("fx_reports"@)) by {
        reveal_strlit("fx_reports");
        lemma_plain_closes("fx_reports"@);
    }
    assert(closes("fx_prompts"@)) by {
        reveal_strlit("fx_prompts");
        lemma_plain_closes("fx_prompts"@);
    }
    assert(closes("by"@)) by {
        reveal_strlit("by");
        lemma_plain_closes("by"@);
    }
    assert(whole(int_text(ev.seq as int))) by {
        lemma_number_value(ev.seq as int);
    }
    assert(whole(int_text(ev.t_ns as int))) by {
        lemma_number_value(ev.t_ns as int);
    }
    assert(whole(escape_text(seat_text(ev.seat)))) by {
        lemma_string_value(seat_text(ev.seat));
    }
    assert(whole(escape_text(layer_text(ev.layer)))) by {
        lemma_string_value(layer_text(ev.layer));
    }
    assert(whole(escape_text(verdict_text(ev.verdict)))) by {
        lemma_string_value(verdict_text(ev.verdict));
    }
    assert(whole(escape_text(reject_text(ev.verdict, ev.reject_kind)))) by {
        lemma_string_value(reject_text(ev.verdict, ev.reject_kind));
    }
    assert(whole(int_text(flag(ev.flags & 0x01 != 0)))) by {
        lemma_number_value(flag(ev.flags & 0x01 != 0));
    }
    assert(whole(int_text(flag(ev.flags & 0x02 != 0)))) by {
        lemma_number_value(flag(ev.flags & 0x02 != 0));
    }
    assert(whole(int_text(flag(ev.flags & 0x04 != 0)))) by {
        lemma_number_value(flag(ev.flags & 0x04 != 0));
    }
    assert(whole(int_text(flag(ev.flags & 0x08 != 0)))) by {
        lemma_number_value(flag(ev.flags & 0x08 != 0));
    }
    assert(whole(escape_text(way_text(ev.direction)))) by {
        lemma_string_value(way_text(ev.direction));
    }
    assert(whole(int_text(ev.addr_family as int))) by {
        lemma_number_value(ev.addr_family as int);
    }
    assert(whole(int_text(ev.protocol as int))) by {
        lemma_number_value(ev.protocol as int);
    }
    assert(whole(int_text(ev.flow_state as int))) by {
        lemma_number_value(ev.flow_state as int);
    }
    assert(whole(int_text(ev.ifindex as int))) by {
        lemma_number_value(ev.ifindex as int);
    }
    assert(whole(escape_text(addr_text(ev.addr_family, ev.src_addr@)))) by {
        lemma_string_value(addr_text(ev.addr_family, ev.src_addr@));
    }
    assert(whole(escape_text(addr_text(ev.addr_family, ev.dst_addr@)))) by {
        lemma_string_value(addr_text(ev.addr_family, ev.dst_addr@));
    }
    assert(whole(int_text(ev.src_port as int))) by {
        lemma_number_value(ev.src_port as int);
    }
    assert(whole(int_text(ev.dst_port as int))) by {
        lemma_number_value(ev.dst_port as int);
    }
    assert(whole(int_text(ev.ether_type as int))) by {
        lemma_number_value(ev.ether_type as int);
    }
    assert(whole(int_text(ev.length as int))) by {
        lemma_number_value(ev.length as int);
    }
    assert(whole(int_text(ev.effects as int % 256))) by {
        lemma_number_value(ev.effects as int % 256);
    }
    assert(whole(int_text(ev.effects as int / 0x100 % 256))) by {
        lemma_number_value(ev.effects as int / 0x100 % 256);
    }
    assert(whole(int_text(ev.effects as int / 0x1_0000 % 256))) by {
        lemma_number_value(ev.effects as int / 0x1_0000 % 256);
    }
    assert(whole(int_text(ev.effects as int / 0x100_0000 % 256))) by {
        lemma_number_value(ev.effects as int / 0x100_0000 % 256);
    }
    assert(whole(escape_text(bytes_text(until_zero(ev.attributed@))))) by {
        lemma_string_value(bytes_text(until_zero(ev.attributed@)));
    }
    assert forall|i: int| 0 <= i < f.len() implies closes((#[trigger] f[i]).key) && whole(
        f[i].value,
    ) by {
        assert(closes(f[0].key) && whole(f[0].value));
        assert(closes(f[1].key) && whole(f[1].value));
        assert(closes(f[2].key) && whole(f[2].value));
        assert(closes(f[3].key) && whole(f[3].value));
        assert(closes(f[4].key) && whole(f[4].value));
        assert(closes(f[5].key) && whole(f[5].value));
        assert(closes(f[6].key) && whole(f[6].value));
        assert(closes(f[7].key) && whole(f[7].value));
        assert(closes(f[8].key) && whole(f[8].value));
        assert(closes(f[9].key) && whole(f[9].value));
        assert(closes(f[10].key) && whole(f[10].value));
        assert(closes(f[11].key) && whole(f[11].value));
        assert(closes(f[12].key) && whole(f[12].value));
        assert(closes(f[13].key) && whole(f[13].value));
        assert(closes(f[14].key) && whole(f[14].value));
        assert(closes(f[15].key) && whole(f[15].value));
        assert(closes(f[16].key) && whole(f[16].value));
        assert(closes(f[17].key) && whole(f[17].value));
        assert(closes(f[18].key) && whole(f[18].value));
        assert(closes(f[19].key) && whole(f[19].value));
        assert(closes(f[20].key) && whole(f[20].value));
        assert(closes(f[21].key) && whole(f[21].value));
        assert(closes(f[22].key) && whole(f[22].value));
        assert(closes(f[23].key) && whole(f[23].value));
        assert(closes(f[24].key) && whole(f[24].value));
        assert(closes(f[25].key) && whole(f[25].value));
    }
    law_objects_read_back(f);
}

/// A verdict's text gives every field back from under its own key: numbers as
/// they are, each flag and effect from its own bits, the addresses byte for
/// byte, and the names of seat, layer, verdict, rejection and direction.
#[verifier::rlimit(60)]
#[verifier::spinoff_prover]
pub proof fn law_verdicts_read_back(ev: PnpEvent)
    ensures
        ({
            let m = members(object_text(verdict_fields(ev)));
            &&& m.len() == 26
            &&& says_number(m[0], "seq"@, ev.seq as int)
            &&& says_number(m[1], "t_ns"@, ev.t_ns as int)
            &&& says_text(
                m[2],
                "seat"@,
                if ev.seat == 1 {
                    "ingress"@
                } else if ev.seat == 2 {
                    "egress"@
                } else if ev.seat == 4 {
                    "local-out"@
                } else {
                    "local-in"@
                },
            )
            &&& says_text(
                m[3],
                "layer"@,
                if ev.layer == 1 {
                    "RawPacket"@
                } else if ev.layer == 2 {
                    "Flow"@
                } else {
                    "Packet"@
                },
            )
            &&& says_text(
                m[4],
                "verdict"@,
                if ev.verdict == 0 {
                    "pass"@
                } else if ev.verdict == 1 {
                    "reject"@
                } else {
                    "drop"@
                },
            )
            &&& says_text(
                m[5],
                "reject_kind"@,
                if ev.verdict != 1 {
                    ""@
                } else if ev.reject_kind == 1 {
                    "Prohibited"@
                } else {
                    "Refused"@
                },
            )
            &&& says_number(m[6], "backstop"@, ev.flags as int % 2)
            &&& says_number(m[7], "fail_closed"@, ev.flags as int / 2 % 2)
            &&& says_number(m[8], "reject_degraded"@, ev.flags as int / 4 % 2)
            &&& says_number(m[9], "rejudged"@, ev.flags as int / 8 % 2)
            &&& says_text(
                m[10],
                "dir"@,
                if ev.direction == 1 {
                    "out"@
                } else {
                    "in"@
                },
            )
            &&& says_number(m[11], "family"@, ev.addr_family as int)
            &&& says_number(m[12], "protocol"@, ev.protocol as int)
            &&& says_number(m[13], "flow_state"@, ev.flow_state as int)
            &&& says_number(m[14], "ifindex"@, ev.ifindex as int)
            &&& says_address(m[15], "src"@, ev.addr_family, ev.src_addr@)
            &&& says_address(m[16], "dst"@, ev.addr_family, ev.dst_addr@)
            &&& says_number(m[17], "src_port"@, ev.src_port as int)
            &&& says_number(m[18], "dst_port"@, ev.dst_port as int)
            &&& says_number(m[19], "ether_type"@, ev.ether_type as int)
            &&& says_number(m[20], "length"@, ev.length as int)
            &&& says_number(m[21], "fx_tags"@, ev.effects as int % 256)
            &&& says_number(m[22], "fx_counts"@, ev.effects as int / 0x100 % 256)
            &&& says_number(m[23], "fx_reports"@, ev.effects as int / 0x1_0000 % 256)
            &&& says_number(m[24], "fx_prompts"@, ev.effects as int / 0x100_0000 % 256)
            &&& says_text(m[25], "by"@, bytes_text(until_zero(ev.attributed@)))
        }),
{
    let m = members(object_text(verdict_fields(ev)));
    lemma_verdict_reads_back(ev);
    let flags = ev.flags;
    assert((flags & 0x01u8 != 0) == (flags % 2 == 1) && (flags & 0x02u8 != 0) == (flags / 2 % 2
        == 1) && (flags & 0x04u8 != 0) == (flags / 4 % 2 == 1) && (flags & 0x08u8 != 0) == (flags / 8 % 2
        == 1)) by (bit_vector);
    assert(says_number(m[0], "seq"@, ev.seq as int)) by {
        lemma_number_value(ev.seq as int);
    }
    assert(says_number(m[1], "t_ns"@, ev.t_ns as int)) by {
        lemma_number_value(ev.t_ns as int);
    }
    assert(says_text(
        m[2],
        "seat"@,
        if ev.seat == 1 {
                "ingress"@
            } else if ev.seat == 2 {
                "egress"@
            } else if ev.seat == 4 {
                "local-out"@
            } else {
                "local-in"@
            },
    )) by {
        lemma_string_value(seat_text(ev.seat));
    }
    assert(says_text(
        m[3],
        "layer"@,
        if ev.layer == 1 {
                "RawPacket"@
            } else if ev.layer == 2 {
                "Flow"@
            } else {
                "Packet"@
            },
    )) by {
        lemma_string_value(layer_text(ev.layer));
    }
    assert(says_text(
        m[4],
        "verdict"@,
        if ev.verdict == 0 {
                "pass"@
            } else if ev.verdict == 1 {
                "reject"@
            } else {
                "drop"@
            },
    )) by {
        lemma_string_value(verdict_text(ev.verdict));
    }
    assert(says_text(
        m[5],
        "reject_kind"@,
        if ev.verdict != 1 {
                ""@
            } else if ev.reject_kind == 1 {
                "Prohibited"@
            } else {
                "Refused"@
            },
    )) by {
        lemma_string_value(reject_text(ev.verdict, ev.reject_kind));
    }
    assert(says_number(m[6], "backstop"@, ev.flags as int % 2)) by {
        lemma_number_value(flag(ev.flags & 0x01 != 0));
    }
    assert(says_number(m[7], "fail_closed"@, ev.flags as int / 2 % 2)) by {
        lemma_number_value(flag(ev.flags & 0x02 != 0));
    }
    assert(says_number(m[8], "reject_degraded"@, ev.flags as int / 4 % 2)) by {
        lemma_number_value(flag(ev.flags & 0x04 != 0));
    }
    assert(says_number(m[9], "rejudged"@, ev.flags as int / 8 % 2)) by {
        lemma_number_value(flag(ev.flags & 0x08 != 0));
    }
    assert(says_text(
        m[10],
        "dir"@,
        if ev.direction == 1 {
                "out"@
            } else {
                "in"@
            },
    )) by {
        lemma_string_value(way_text(ev.direction));
    }
    assert(says_number(m[11], "family"@, ev.addr_family as int)) by {
        lemma_number_value(ev.addr_family as int);
    }
    assert(says_number(m[12], "protocol"@, ev.protocol as int)) by {
        lemma_number_value(ev.protocol as int);
    }
    assert(says_number(m[13], "flow_state"@, ev.flow_state as int)) by {
        lemma_number_value(ev.flow_state as int);
    }
    assert(says_number(m[14], "ifindex"@, ev.ifindex as int)) by {
        lemma_number_value(ev.ifindex as int);
    }
    assert(says_address(m[15], "src"@, ev.addr_family, ev.src_addr@)) by {
        lemma_string_value(addr_text(ev.addr_family, ev.src_addr@));
        law_addresses_read_back(ev.addr_family, ev.src_addr@);
    }
    assert(says_address(m[16], "dst"@, ev.addr_family, ev.dst_addr@)) by {
        lemma_string_value(addr_text(ev.addr_family, ev.dst_addr@));
        law_addresses_read_back(ev.addr_family, ev.dst_addr@);
    }
    assert(says_number(m[17], "src_port"@, ev.src_port as int)) by {
        lemma_number_value(ev.src_port as int);
    }
    assert(says_number(m[18], "dst_port"@, ev.dst_port as int)) by {
        lemma_number_value(ev.dst_port as int);
    }
    assert(says_number(m[19], "ether_type"@, ev.ether_type as int)) by {
        lemma_number_value(ev.ether_type as int);
    }
    assert(says_number(m[20], "length"@, ev.length as int)) by {
        lemma_number_value(ev.length as int);
    }
    assert(says_number(m[21], "fx_tags"@, ev.effects as int % 256)) by {
        lemma_number_value(ev.effects as int % 256);
    }
    assert(says_number(m[22], "fx_counts"@, ev.effects as int / 0x100 % 256)) by {
        lemma_number_value(ev.effects as int / 0x100 % 256);
    }
    assert(says_number(m[23], "fx_reports"@, ev.effects as int / 0x1_0000 % 256)) by {
        lemma_number_value(ev.effects as int / 0x1_0000 % 256);
    }
    assert(says_number(m[24], "fx_prompts"@, ev.effects as int / 0x100_0000 % 256)) by {
        lemma_number_value(ev.effects as int / 0x100_0000 % 256);
    }
    assert(says_text(m[25], "by"@, bytes_text(until_zero(ev.attributed@)))) by {
        lemma_string_value(bytes_text(until_zero(ev.attributed@)));
    }
}

#[verifier::rlimit(60)]
#[verifier::spinoff_prover]
pub(crate) proof fn lemma_packet_reads_back(p: Packet)
    ensures
        members(object_text(packet_fields(p))) == packet_fields(p),
        whole(object_text(packet_fields(p))),
        object_text(packet_fields(p)).len() > 0,
{
    let f = packet_fields(p);
    assert(closes("seq"@)) by {
        reveal_strlit("seq");
        lemma_plain_closes("seq"@);
    }
    assert(closes("ts_sec"@)) by {
        reveal_strlit("ts_sec");
        lemma_plain_closes("ts_sec"@);
    }
    assert(closes("ts_nsec"@)) by {
        reveal_strlit("ts_nsec");
        lemma_plain_closes("ts_nsec"@);
    }
    assert(closes("ifindex"@)) by {
        reveal_strlit("ifindex");
        lemma_plain_closes("ifindex"@);
    }
    assert(closes("ifname"@)) by {
        reveal_strlit("ifname");
        lemma_plain_closes("ifname"@);
    }
    assert(closes("dir"@)) by {
        reveal_strlit("dir");
        lemma_plain_closes("dir"@);
    }
    assert(closes("wire_len"@)) by {
        reveal_strlit("wire_len");
        lemma_plain_closes("wire_len"@);
    }
    assert(closes("data"@)) by {
        reveal_strlit("data");
        lemma_plain_closes("data"@);
    }
    assert(whole(int_text(p.seq as int))) by {
        lemma_number_value(p.seq as int);
    }
    assert(whole(int_text(p.ts_sec as int))) by {
        lemma_number_value(p.ts_sec as int);
    }
    assert(whole(int_text(p.ts_nsec as int))) by {
        lemma_number_value(p.ts_nsec as int);
    }
    assert(whole(int_text(p.ifindex as int))) by {
        lemma_number_value(p.ifindex as int);
    }
    assert(whole(escape_text(p.ifname@))) by {
        lemma_string_value(p.ifname@);
    }
    assert(whole(escape_text(p.dir.name()))) by {
        lemma_string_value(p.dir.name());
    }
    assert(whole(int_text(p.wire_len as int))) by {
        lemma_number_value(p.wire_len as int);
    }
    assert(whole(escape_text(hex_text(p.data@)))) by {
        lemma_string_value(hex_text(p.data@));
    }
    assert forall|i: int| 0 <= i < f.len() implies closes((#[trigger] f[i]).key) && whole(
        f[i].value,
    ) by {
        assert(closes(f[0].key) && whole(f[0].value));
        assert(closes(f[1].key) && whole(f[1].value));
        assert(closes(f[2].key) && whole(f[2].value));
        assert(closes(f[3].key) && whole(f[3].value));
        assert(closes(f[4].key) && whole(f[4].value));
        assert(closes(f[5].key) && whole(f[5].value));
        assert(closes(f[6].key) && whole(f[6].value));
        assert(closes(f[7].key) && whole(f[7].value));
    }
    law_objects_read_back(f);
}

/// A packet's text gives every field back from under its own key, and the bytes in
/// hexadecimal.
#[verifier::rlimit(60)]
#[verifier::spinoff_prover]
pub proof fn law_packets_read_back(p: Packet)
    ensures
        ({
            let m = members(object_text(packet_fields(p)));
            &&& m.len() == 8
            &&& says_number(m[0], "seq"@, p.seq as int)
            &&& says_number(m[1], "ts_sec"@, p.ts_sec as int)
            &&& says_number(m[2], "ts_nsec"@, p.ts_nsec as int)
            &&& says_number(m[3], "ifindex"@, p.ifindex as int)
            &&& says_text(m[4], "ifname"@, p.ifname@)
            &&& says_text(
                m[5],
                "dir"@,
                match p.dir {
                    Direction::In => "in"@,
                    Direction::Broadcast => "bcast"@,
                    Direction::Multicast => "mcast"@,
                    Direction::Other => "other"@,
                    Direction::Out => "out"@,
                },
            )
            &&& says_number(m[6], "wire_len"@, p.wire_len as int)
            &&& says_text(m[7], "data"@, hex_text(p.data@))
        }),
{
    let m = members(object_text(packet_fields(p)));
    lemma_packet_reads_back(p);
    assert(says_number(m[0], "seq"@, p.seq as int)) by {
        lemma_number_value(p.seq as int);
    }
    assert(says_number(m[1], "ts_sec"@, p.ts_sec as int)) by {
        lemma_number_value(p.ts_sec as int);
    }
    assert(says_number(m[2], "ts_nsec"@, p.ts_nsec as int)) by {
        lemma_number_value(p.ts_nsec as int);
    }
    assert(says_number(m[3], "ifindex"@, p.ifindex as int)) by {
        lemma_number_value(p.ifindex as int);
    }
    assert(says_text(m[4], "ifname"@, p.ifname@)) by {
        lemma_string_value(p.ifname@);
    }
    assert(says_text(
        m[5],
        "dir"@,
        match p.dir {
                Direction::In => "in"@,
                Direction::Broadcast => "bcast"@,
                Direction::Multicast => "mcast"@,
                Direction::Other => "other"@,
                Direction::Out => "out"@,
            },
    )) by {
        lemma_string_value(p.dir.name());
    }
    assert(says_number(m[6], "wire_len"@, p.wire_len as int)) by {
        lemma_number_value(p.wire_len as int);
    }
    assert(says_text(m[7], "data"@, hex_text(p.data@))) by {
        lemma_string_value(hex_text(p.data@));
    }
}

#[verifier::rlimit(60)]
#[verifier::spinoff_prover]
pub(crate) proof fn lemma_status_reads_back(
    version: Seq<char>,
    uptime_s: i64,
    stats: CaptureStats,
    capacity: usize,
)
    ensures
        members(object_text(status_fields(version, uptime_s as int, stats, capacity as int)))
            == status_fields(version, uptime_s as int, stats, capacity as int),
        whole(object_text(status_fields(version, uptime_s as int, stats, capacity as int))),
        object_text(status_fields(version, uptime_s as int, stats, capacity as int)).len() > 0,
{
    let f = status_fields(version, uptime_s as int, stats, capacity as int);
    assert(closes("daemon"@)) by {
        reveal_strlit("daemon");
        lemma_plain_closes("daemon"@);
    }
    assert(closes("uptime_s"@)) by {
        reveal_strlit("uptime_s");
        lemma_plain_closes("uptime_s"@);
    }
    assert(closes("captured"@)) by {
        reveal_strlit("captured");
        lemma_plain_closes("captured"@);
    }
    assert(closes("dropped"@)) by {
        reveal_strlit("dropped");
        lemma_plain_closes("dropped"@);
    }
    assert(closes("suppressed"@)) by {
        reveal_strlit("suppressed");
        lemma_plain_closes("suppressed"@);
    }
    assert(closes("ring_capacity"@)) by {
        reveal_strlit("ring_capacity");
        lemma_plain_closes("ring_capacity"@);
    }
    assert(whole(escape_text("pnpd "@ + version))) by {
        lemma_string_value("pnpd "@ + version);
    }
    assert(whole(int_text(uptime_s as int))) by {
        lemma_number_value(uptime_s as int);
    }
    assert(whole(int_text(stats.captured as int))) by {
        lemma_number_value(stats.captured as int);
    }
    assert(whole(int_text(stats.dropped as int))) by {
        lemma_number_value(stats.dropped as int);
    }
    assert(whole(int_text(stats.suppressed as int))) by {
        lemma_number_value(stats.suppressed as int);
    }
    assert(whole(int_text(capacity as int))) by {
        lemma_number_value(capacity as int);
    }
    assert forall|i: int| 0 <= i < f.len() implies closes((#[trigger] f[i]).key) && whole(
        f[i].value,
    ) by {
        assert(closes(f[0].key) && whole(f[0].value));
        assert(closes(f[1].key) && whole(f[1].value));
        assert(closes(f[2].key) && whole(f[2].value));
        assert(closes(f[3].key) && whole(f[3].value));
        assert(closes(f[4].key) && whole(f[4].value));
        assert(closes(f[5].key) && whole(f[5].value));
    }
    law_objects_read_back(f);
}

/// The daemon's state gives every number back from under its own key.
#[verifier::rlimit(60)]
#[verifier::spinoff_prover]
pub proof fn law_status_reads_back(
    version: Seq<char>,
    uptime_s: i64,
    stats: CaptureStats,
    capacity: usize,
)
    ensures
        ({
            let m = members(
                object_text(status_fields(version, uptime_s as int, stats, capacity as int)),
            );
            &&& m.len() == 6
            &&& says_text(m[0], "daemon"@, "pnpd "@ + version)
            &&& says_number(m[1], "uptime_s"@, uptime_s as int)
            &&& says_number(m[2], "captured"@, stats.captured as int)
            &&& says_number(m[3], "dropped"@, stats.dropped as int)
            &&& says_number(m[4], "suppressed"@, stats.suppressed as int)
            &&& says_number(m[5], "ring_capacity"@, capacity as int)
        }),
{
    let m = members(object_text(status_fields(version, uptime_s as int, stats, capacity as int)));
    lemma_status_reads_back(version, uptime_s, stats, capacity);
    assert(says_text(m[0], "daemon"@, "pnpd "@ + version)) by {
        lemma_string_value("pnpd "@ + version);
    }
    assert(says_number(m[1], "uptime_s"@, uptime_s as int)) by {
        lemma_number_value(uptime_s as int);
    }
    assert(says_number(m[2], "captured"@, stats.captured as int)) by {
        lemma_number_value(stats.captured as int);
    }
    assert(says_number(m[3], "dropped"@, stats.dropped as int)) by {
        lemma_number_value(stats.dropped as int);
    }
    assert(says_number(m[4], "suppressed"@, stats.suppressed as int)) by {
        lemma_number_value(stats.suppressed as int);
    }
    assert(says_number(m[5], "ring_capacity"@, capacity as int)) by {
        lemma_number_value(capacity as int);
    }
}

#[verifier::rlimit(100)]
#[verifier::spinoff_prover]
pub(crate) proof fn lemma_engine_reads_back(e: EngineView)
    ensures
        members(object_text(engine_fields(e))) == engine_fields(e),
        whole(object_text(engine_fields(e))),
        object_text(engine_fields(e)).len() > 0,
{
    let f = engine_fields(e);
    assert(closes("connected"@)) by {
        reveal_strlit("connected");
        lemma_plain_closes("connected"@);
    }
    assert(closes("own_verdicts_hidden"@)) by {
        reveal_strlit("own_verdicts_hidden");
        lemma_plain_closes("own_verdicts_hidden"@);
    }
    assert(closes("abi"@)) by {
        reveal_strlit("abi");
        lemma_plain_closes("abi"@);
    }
    assert(closes("generation"@)) by {
        reveal_strlit("generation");
        lemma_plain_closes("generation"@);
    }
    assert(closes("enforcing"@)) by {
        reveal_strlit("enforcing");
        lemma_plain_closes("enforcing"@);
    }
    assert(closes("events_dropped"@)) by {
        reveal_strlit("events_dropped");
        lemma_plain_closes("events_dropped"@);
    }
    assert(closes("seen_ingress"@)) by {
        reveal_strlit("seen_ingress");
        lemma_plain_closes("seen_ingress"@);
    }
    assert(closes("seen_egress"@)) by {
        reveal_strlit("seen_egress");
        lemma_plain_closes("seen_egress"@);
    }
    assert(closes("seen_local_in"@)) by {
        reveal_strlit("seen_local_in");
        lemma_plain_closes("seen_local_in"@);
    }
    assert(closes("deferred"@)) by {
        reveal_strlit("deferred");
        lemma_plain_closes("deferred"@);
    }
    assert(closes("fallback_judged"@)) by {
        reveal_strlit("fallback_judged");
        lemma_plain_closes("fallback_judged"@);
    }
    assert(closes("parse_errors"@)) by {
        reveal_strlit("parse_errors");
        lemma_plain_closes("parse_errors"@);
    }
    assert(closes("judged"@)) by {
        reveal_strlit("judged");
        lemma_plain_closes("judged"@);
    }
    assert(closes("permissive"@)) by {
        reveal_strlit("permissive");
        lemma_plain_closes("permissive"@);
    }
    assert(closes("fail_closed"@)) by {
        reveal_strlit("fail_closed");
        lemma_plain_closes("fail_closed"@);
    }
    assert(closes("verdict_pass"@)) by {
        reveal_strlit("verdict_pass");
        lemma_plain_closes("verdict_pass"@);
    }
    assert(closes("verdict_drop"@)) by {
        reveal_strlit("verdict_drop");
        lemma_plain_closes("verdict_drop"@);
    }
    assert(closes("verdict_reject"@)) by {
        reveal_strlit("verdict_reject");
        lemma_plain_closes("verdict_reject"@);
    }
    assert(closes("reject_degraded"@)) by {
        reveal_strlit("reject_degraded");
        lemma_plain_closes("reject_degraded"@);
    }
    assert(closes("fx_tags"@)) by {
        reveal_strlit("fx_tags");
        lemma_plain_closes("fx_tags"@);
    }
    assert(closes("fx_counts"@)) by {
        reveal_strlit("fx_counts");
        lemma_plain_closes("fx_counts"@);
    }
    assert(closes("fx_reports"@)) by {
        reveal_strlit("fx_reports");
        lemma_plain_closes("fx_reports"@);
    }
    assert(closes("fx_prompts"@)) by {
        reveal_strlit("fx_prompts");
        lemma_plain_closes("fx_prompts"@);
    }
    assert(closes("last_ingest_error"@)) by {
        reveal_strlit("last_ingest_error");
        lemma_plain_closes("last_ingest_error"@);
    }
    assert(closes("last_ingest_t_ns"@)) by {
        reveal_strlit("last_ingest_t_ns");
        lemma_plain_closes("last_ingest_t_ns"@);
    }
    assert(closes("tag_writes"@)) by {
        reveal_strlit("tag_writes");
        lemma_plain_closes("tag_writes"@);
    }
    assert(closes("tag_untracked"@)) by {
        reveal_strlit("tag_untracked");
        lemma_plain_closes("tag_untracked"@);
    }
    assert(closes("tag_refused"@)) by {
        reveal_strlit("tag_refused");
        lemma_plain_closes("tag_refused"@);
    }
    assert(closes("count_writes"@)) by {
        reveal_strlit("count_writes");
        lemma_plain_closes("count_writes"@);
    }
    assert(closes("count_key_absent"@)) by {
        reveal_strlit("count_key_absent");
        lemma_plain_closes("count_key_absent"@);
    }
    assert(closes("count_refused"@)) by {
        reveal_strlit("count_refused");
        lemma_plain_closes("count_refused"@);
    }
    assert(closes("reports_emitted"@)) by {
        reveal_strlit("reports_emitted");
        lemma_plain_closes("reports_emitted"@);
    }
    assert(closes("counter_cells"@)) by {
        reveal_strlit("counter_cells");
        lemma_plain_closes("counter_cells"@);
    }
    assert(closes("reporting_level"@)) by {
        reveal_strlit("reporting_level");
        lemma_plain_closes("reporting_level"@);
    }
    assert(closes("seen_local_out"@)) by {
        reveal_strlit("seen_local_out");
        lemma_plain_closes("seen_local_out"@);
    }
    assert(closes("flow_judged"@)) by {
        reveal_strlit("flow_judged");
        lemma_plain_closes("flow_judged"@);
    }
    assert(closes("flow_cached"@)) by {
        reveal_strlit("flow_cached");
        lemma_plain_closes("flow_cached"@);
    }
    assert(closes("flow_rejudged"@)) by {
        reveal_strlit("flow_rejudged");
        lemma_plain_closes("flow_rejudged"@);
    }
    assert(closes("flow_expired"@)) by {
        reveal_strlit("flow_expired");
        lemma_plain_closes("flow_expired"@);
    }
    assert(closes("flow_uncached"@)) by {
        reveal_strlit("flow_uncached");
        lemma_plain_closes("flow_uncached"@);
    }
    assert(closes("refusals_emitted"@)) by {
        reveal_strlit("refusals_emitted");
        lemma_plain_closes("refusals_emitted"@);
    }
    assert(closes("refusals_bypassed"@)) by {
        reveal_strlit("refusals_bypassed");
        lemma_plain_closes("refusals_bypassed"@);
    }
    assert(closes("teardowns_emitted"@)) by {
        reveal_strlit("teardowns_emitted");
        lemma_plain_closes("teardowns_emitted"@);
    }
    assert(whole(int_text(flag(e.connected)))) by {
        lemma_number_value(flag(e.connected));
    }
    assert(whole(int_text(e.own_hidden as int))) by {
        lemma_number_value(e.own_hidden as int);
    }
    assert(whole(int_text(e.status.abi as int))) by {
        lemma_number_value(e.status.abi as int);
    }
    assert(whole(int_text(e.status.generation as int))) by {
        lemma_number_value(e.status.generation as int);
    }
    assert(whole(int_text(e.status.enforcing as int))) by {
        lemma_number_value(e.status.enforcing as int);
    }
    assert(whole(int_text(e.status.events_dropped as int))) by {
        lemma_number_value(e.status.events_dropped as int);
    }
    assert(whole(int_text(e.status.seen_ingress as int))) by {
        lemma_number_value(e.status.seen_ingress as int);
    }
    assert(whole(int_text(e.status.seen_egress as int))) by {
        lemma_number_value(e.status.seen_egress as int);
    }
    assert(whole(int_text(e.status.seen_local_in as int))) by {
        lemma_number_value(e.status.seen_local_in as int);
    }
    assert(whole(int_text(e.status.deferred as int))) by {
        lemma_number_value(e.status.deferred as int);
    }
    assert(whole(int_text(e.status.fallback_judged as int))) by {
        lemma_number_value(e.status.fallback_judged as int);
    }
    assert(whole(int_text(e.status.parse_errors as int))) by {
        lemma_number_value(e.status.parse_errors as int);
    }
    assert(whole(int_text(e.status.judged as int))) by {
        lemma_number_value(e.status.judged as int);
    }
    assert(whole(int_text(e.status.permissive as int))) by {
        lemma_number_value(e.status.permissive as int);
    }
    assert(whole(int_text(e.status.fail_closed as int))) by {
        lemma_number_value(e.status.fail_closed as int);
    }
    assert(whole(int_text(e.status.verdict_pass as int))) by {
        lemma_number_value(e.status.verdict_pass as int);
    }
    assert(whole(int_text(e.status.verdict_drop as int))) by {
        lemma_number_value(e.status.verdict_drop as int);
    }
    assert(whole(int_text(e.status.verdict_reject as int))) by {
        lemma_number_value(e.status.verdict_reject as int);
    }
    assert(whole(int_text(e.status.reject_degraded as int))) by {
        lemma_number_value(e.status.reject_degraded as int);
    }
    assert(whole(int_text(e.status.fx_tags as int))) by {
        lemma_number_value(e.status.fx_tags as int);
    }
    assert(whole(int_text(e.status.fx_counts as int))) by {
        lemma_number_value(e.status.fx_counts as int);
    }
    assert(whole(int_text(e.status.fx_reports as int))) by {
        lemma_number_value(e.status.fx_reports as int);
    }
    assert(whole(int_text(e.status.fx_prompts as int))) by {
        lemma_number_value(e.status.fx_prompts as int);
    }
    assert(whole(int_text(e.status.last_ingest_error as int))) by {
        lemma_number_value(e.status.last_ingest_error as int);
    }
    assert(whole(int_text(e.status.last_ingest_t_ns as int))) by {
        lemma_number_value(e.status.last_ingest_t_ns as int);
    }
    assert(whole(int_text(e.status.tag_writes as int))) by {
        lemma_number_value(e.status.tag_writes as int);
    }
    assert(whole(int_text(e.status.tag_untracked as int))) by {
        lemma_number_value(e.status.tag_untracked as int);
    }
    assert(whole(int_text(e.status.tag_refused as int))) by {
        lemma_number_value(e.status.tag_refused as int);
    }
    assert(whole(int_text(e.status.count_writes as int))) by {
        lemma_number_value(e.status.count_writes as int);
    }
    assert(whole(int_text(e.status.count_key_absent as int))) by {
        lemma_number_value(e.status.count_key_absent as int);
    }
    assert(whole(int_text(e.status.count_refused as int))) by {
        lemma_number_value(e.status.count_refused as int);
    }
    assert(whole(int_text(e.status.reports_emitted as int))) by {
        lemma_number_value(e.status.reports_emitted as int);
    }
    assert(whole(int_text(e.status.counter_cells as int))) by {
        lemma_number_value(e.status.counter_cells as int);
    }
    assert(whole(int_text(e.status.reporting_level as int))) by {
        lemma_number_value(e.status.reporting_level as int);
    }
    assert(whole(int_text(e.status.seen_local_out as int))) by {
        lemma_number_value(e.status.seen_local_out as int);
    }
    assert(whole(int_text(e.status.flow_judged as int))) by {
        lemma_number_value(e.status.flow_judged as int);
    }
    assert(whole(int_text(e.status.flow_cached as int))) by {
        lemma_number_value(e.status.flow_cached as int);
    }
    assert(whole(int_text(e.status.flow_rejudged as int))) by {
        lemma_number_value(e.status.flow_rejudged as int);
    }
    assert(whole(int_text(e.status.flow_expired as int))) by {
        lemma_number_value(e.status.flow_expired as int);
    }
    assert(whole(int_text(e.status.flow_uncached as int))) by {
        lemma_number_value(e.status.flow_uncached as int);
    }
    assert(whole(int_text(e.status.refusals_emitted as int))) by {
        lemma_number_value(e.status.refusals_emitted as int);
    }
    assert(whole(int_text(e.status.refusals_bypassed as int))) by {
        lemma_number_value(e.status.refusals_bypassed as int);
    }
    assert(whole(int_text(e.status.teardowns_emitted as int))) by {
        lemma_number_value(e.status.teardowns_emitted as int);
    }
    assert forall|i: int| 0 <= i < f.len() implies closes((#[trigger] f[i]).key) && whole(
        f[i].value,
    ) by {
        assert(closes(f[0].key) && whole(f[0].value));
        assert(closes(f[1].key) && whole(f[1].value));
        assert(closes(f[2].key) && whole(f[2].value));
        assert(closes(f[3].key) && whole(f[3].value));
        assert(closes(f[4].key) && whole(f[4].value));
        assert(closes(f[5].key) && whole(f[5].value));
        assert(closes(f[6].key) && whole(f[6].value));
        assert(closes(f[7].key) && whole(f[7].value));
        assert(closes(f[8].key) && whole(f[8].value));
        assert(closes(f[9].key) && whole(f[9].value));
        assert(closes(f[10].key) && whole(f[10].value));
        assert(closes(f[11].key) && whole(f[11].value));
        assert(closes(f[12].key) && whole(f[12].value));
        assert(closes(f[13].key) && whole(f[13].value));
        assert(closes(f[14].key) && whole(f[14].value));
        assert(closes(f[15].key) && whole(f[15].value));
        assert(closes(f[16].key) && whole(f[16].value));
        assert(closes(f[17].key) && whole(f[17].value));
        assert(closes(f[18].key) && whole(f[18].value));
        assert(closes(f[19].key) && whole(f[19].value));
        assert(closes(f[20].key) && whole(f[20].value));
        assert(closes(f[21].key) && whole(f[21].value));
        assert(closes(f[22].key) && whole(f[22].value));
        assert(closes(f[23].key) && whole(f[23].value));
        assert(closes(f[24].key) && whole(f[24].value));
        assert(closes(f[25].key) && whole(f[25].value));
        assert(closes(f[26].key) && whole(f[26].value));
        assert(closes(f[27].key) && whole(f[27].value));
        assert(closes(f[28].key) && whole(f[28].value));
        assert(closes(f[29].key) && whole(f[29].value));
        assert(closes(f[30].key) && whole(f[30].value));
        assert(closes(f[31].key) && whole(f[31].value));
        assert(closes(f[32].key) && whole(f[32].value));
        assert(closes(f[33].key) && whole(f[33].value));
        assert(closes(f[34].key) && whole(f[34].value));
        assert(closes(f[35].key) && whole(f[35].value));
        assert(closes(f[36].key) && whole(f[36].value));
        assert(closes(f[37].key) && whole(f[37].value));
        assert(closes(f[38].key) && whole(f[38].value));
        assert(closes(f[39].key) && whole(f[39].value));
        assert(closes(f[40].key) && whole(f[40].value));
        assert(closes(f[41].key) && whole(f[41].value));
        assert(closes(f[42].key) && whole(f[42].value));
    }
    law_objects_read_back(f);
}

/// The engine's state gives every counter back from under its own key.
#[verifier::rlimit(100)]
#[verifier::spinoff_prover]
pub proof fn law_engine_state_reads_back(e: EngineView)
    ensures
        ({
            let m = members(object_text(engine_fields(e)));
            &&& m.len() == 43
            &&& says_number(
                m[0],
                "connected"@,
                if e.connected {
                    1int
                } else {
                    0
                },
            )
            &&& says_number(m[1], "own_verdicts_hidden"@, e.own_hidden as int)
            &&& says_number(m[2], "abi"@, e.status.abi as int)
            &&& says_number(m[3], "generation"@, e.status.generation as int)
            &&& says_number(m[4], "enforcing"@, e.status.enforcing as int)
            &&& says_number(m[5], "events_dropped"@, e.status.events_dropped as int)
            &&& says_number(m[6], "seen_ingress"@, e.status.seen_ingress as int)
            &&& says_number(m[7], "seen_egress"@, e.status.seen_egress as int)
            &&& says_number(m[8], "seen_local_in"@, e.status.seen_local_in as int)
            &&& says_number(m[9], "deferred"@, e.status.deferred as int)
            &&& says_number(m[10], "fallback_judged"@, e.status.fallback_judged as int)
            &&& says_number(m[11], "parse_errors"@, e.status.parse_errors as int)
            &&& says_number(m[12], "judged"@, e.status.judged as int)
            &&& says_number(m[13], "permissive"@, e.status.permissive as int)
            &&& says_number(m[14], "fail_closed"@, e.status.fail_closed as int)
            &&& says_number(m[15], "verdict_pass"@, e.status.verdict_pass as int)
            &&& says_number(m[16], "verdict_drop"@, e.status.verdict_drop as int)
            &&& says_number(m[17], "verdict_reject"@, e.status.verdict_reject as int)
            &&& says_number(m[18], "reject_degraded"@, e.status.reject_degraded as int)
            &&& says_number(m[19], "fx_tags"@, e.status.fx_tags as int)
            &&& says_number(m[20], "fx_counts"@, e.status.fx_counts as int)
            &&& says_number(m[21], "fx_reports"@, e.status.fx_reports as int)
            &&& says_number(m[22], "fx_prompts"@, e.status.fx_prompts as int)
            &&& says_number(m[23], "last_ingest_error"@, e.status.last_ingest_error as int)
            &&& says_number(m[24], "last_ingest_t_ns"@, e.status.last_ingest_t_ns as int)
            &&& says_number(m[25], "tag_writes"@, e.status.tag_writes as int)
            &&& says_number(m[26], "tag_untracked"@, e.status.tag_untracked as int)
            &&& says_number(m[27], "tag_refused"@, e.status.tag_refused as int)
            &&& says_number(m[28], "count_writes"@, e.status.count_writes as int)
            &&& says_number(m[29], "count_key_absent"@, e.status.count_key_absent as int)
            &&& says_number(m[30], "count_refused"@, e.status.count_refused as int)
            &&& says_number(m[31], "reports_emitted"@, e.status.reports_emitted as int)
            &&& says_number(m[32], "counter_cells"@, e.status.counter_cells as int)
            &&& says_number(m[33], "reporting_level"@, e.status.reporting_level as int)
            &&& says_number(m[34], "seen_local_out"@, e.status.seen_local_out as int)
            &&& says_number(m[35], "flow_judged"@, e.status.flow_judged as int)
            &&& says_number(m[36], "flow_cached"@, e.status.flow_cached as int)
            &&& says_number(m[37], "flow_rejudged"@, e.status.flow_rejudged as int)
            &&& says_number(m[38], "flow_expired"@, e.status.flow_expired as int)
            &&& says_number(m[39], "flow_uncached"@, e.status.flow_uncached as int)
            &&& says_number(m[40], "refusals_emitted"@, e.status.refusals_emitted as int)
            &&& says_number(m[41], "refusals_bypassed"@, e.status.refusals_bypassed as int)
            &&& says_number(m[42], "teardowns_emitted"@, e.status.teardowns_emitted as int)
        }),
{
    let m = members(object_text(engine_fields(e)));
    lemma_engine_reads_back(e);
    assert(says_number(
        m[0],
        "connected"@,
        if e.connected {
                1int
            } else {
                0
            },
    )) by {
        lemma_number_value(flag(e.connected));
    }
    assert(says_number(m[1], "own_verdicts_hidden"@, e.own_hidden as int)) by {
        lemma_number_value(e.own_hidden as int);
    }
    assert(says_number(m[2], "abi"@, e.status.abi as int)) by {
        lemma_number_value(e.status.abi as int);
    }
    assert(says_number(m[3], "generation"@, e.status.generation as int)) by {
        lemma_number_value(e.status.generation as int);
    }
    assert(says_number(m[4], "enforcing"@, e.status.enforcing as int)) by {
        lemma_number_value(e.status.enforcing as int);
    }
    assert(says_number(m[5], "events_dropped"@, e.status.events_dropped as int)) by {
        lemma_number_value(e.status.events_dropped as int);
    }
    assert(says_number(m[6], "seen_ingress"@, e.status.seen_ingress as int)) by {
        lemma_number_value(e.status.seen_ingress as int);
    }
    assert(says_number(m[7], "seen_egress"@, e.status.seen_egress as int)) by {
        lemma_number_value(e.status.seen_egress as int);
    }
    assert(says_number(m[8], "seen_local_in"@, e.status.seen_local_in as int)) by {
        lemma_number_value(e.status.seen_local_in as int);
    }
    assert(says_number(m[9], "deferred"@, e.status.deferred as int)) by {
        lemma_number_value(e.status.deferred as int);
    }
    assert(says_number(m[10], "fallback_judged"@, e.status.fallback_judged as int)) by {
        lemma_number_value(e.status.fallback_judged as int);
    }
    assert(says_number(m[11], "parse_errors"@, e.status.parse_errors as int)) by {
        lemma_number_value(e.status.parse_errors as int);
    }
    assert(says_number(m[12], "judged"@, e.status.judged as int)) by {
        lemma_number_value(e.status.judged as int);
    }
    assert(says_number(m[13], "permissive"@, e.status.permissive as int)) by {
        lemma_number_value(e.status.permissive as int);
    }
    assert(says_number(m[14], "fail_closed"@, e.status.fail_closed as int)) by {
        lemma_number_value(e.status.fail_closed as int);
    }
    assert(says_number(m[15], "verdict_pass"@, e.status.verdict_pass as int)) by {
        lemma_number_value(e.status.verdict_pass as int);
    }
    assert(says_number(m[16], "verdict_drop"@, e.status.verdict_drop as int)) by {
        lemma_number_value(e.status.verdict_drop as int);
    }
    assert(says_number(m[17], "verdict_reject"@, e.status.verdict_reject as int)) by {
        lemma_number_value(e.status.verdict_reject as int);
    }
    assert(says_number(m[18], "reject_degraded"@, e.status.reject_degraded as int)) by {
        lemma_number_value(e.status.reject_degraded as int);
    }
    assert(says_number(m[19], "fx_tags"@, e.status.fx_tags as int)) by {
        lemma_number_value(e.status.fx_tags as int);
    }
    assert(says_number(m[20], "fx_counts"@, e.status.fx_counts as int)) by {
        lemma_number_value(e.status.fx_counts as int);
    }
    assert(says_number(m[21], "fx_reports"@, e.status.fx_reports as int)) by {
        lemma_number_value(e.status.fx_reports as int);
    }
    assert(says_number(m[22], "fx_prompts"@, e.status.fx_prompts as int)) by {
        lemma_number_value(e.status.fx_prompts as int);
    }
    assert(says_number(m[23], "last_ingest_error"@, e.status.last_ingest_error as int)) by {
        lemma_number_value(e.status.last_ingest_error as int);
    }
    assert(says_number(m[24], "last_ingest_t_ns"@, e.status.last_ingest_t_ns as int)) by {
        lemma_number_value(e.status.last_ingest_t_ns as int);
    }
    assert(says_number(m[25], "tag_writes"@, e.status.tag_writes as int)) by {
        lemma_number_value(e.status.tag_writes as int);
    }
    assert(says_number(m[26], "tag_untracked"@, e.status.tag_untracked as int)) by {
        lemma_number_value(e.status.tag_untracked as int);
    }
    assert(says_number(m[27], "tag_refused"@, e.status.tag_refused as int)) by {
        lemma_number_value(e.status.tag_refused as int);
    }
    assert(says_number(m[28], "count_writes"@, e.status.count_writes as int)) by {
        lemma_number_value(e.status.count_writes as int);
    }
    assert(says_number(m[29], "count_key_absent"@, e.status.count_key_absent as int)) by {
        lemma_number_value(e.status.count_key_absent as int);
    }
    assert(says_number(m[30], "count_refused"@, e.status.count_refused as int)) by {
        lemma_number_value(e.status.count_refused as int);
    }
    assert(says_number(m[31], "reports_emitted"@, e.status.reports_emitted as int)) by {
        lemma_number_value(e.status.reports_emitted as int);
    }
    assert(says_number(m[32], "counter_cells"@, e.status.counter_cells as int)) by {
        lemma_number_value(e.status.counter_cells as int);
    }
    assert(says_number(m[33], "reporting_level"@, e.status.reporting_level as int)) by {
        lemma_number_value(e.status.reporting_level as int);
    }
    assert(says_number(m[34], "seen_local_out"@, e.status.seen_local_out as int)) by {
        lemma_number_value(e.status.seen_local_out as int);
    }
    assert(says_number(m[35], "flow_judged"@, e.status.flow_judged as int)) by {
        lemma_number_value(e.status.flow_judged as int);
    }
    assert(says_number(m[36], "flow_cached"@, e.status.flow_cached as int)) by {
        lemma_number_value(e.status.flow_cached as int);
    }
    assert(says_number(m[37], "flow_rejudged"@, e.status.flow_rejudged as int)) by {
        lemma_number_value(e.status.flow_rejudged as int);
    }
    assert(says_number(m[38], "flow_expired"@, e.status.flow_expired as int)) by {
        lemma_number_value(e.status.flow_expired as int);
    }
    assert(says_number(m[39], "flow_uncached"@, e.status.flow_uncached as int)) by {
        lemma_number_value(e.status.flow_uncached as int);
    }
    assert(says_number(m[40], "refusals_emitted"@, e.status.refusals_emitted as int)) by {
        lemma_number_value(e.status.refusals_emitted as int);
    }
    assert(says_number(m[41], "refusals_bypassed"@, e.status.refusals_bypassed as int)) by {
        lemma_number_value(e.status.refusals_bypassed as int);
    }
    assert(says_number(m[42], "teardowns_emitted"@, e.status.teardowns_emitted as int)) by {
        lemma_number_value(e.status.teardowns_emitted as int);
    }
}

// ---------------------------------------------------------------------------
// Counters
// ---------------------------------------------------------------------------
/// Whether a JSON value is an array of strings, and of these.
pub open spec fn is_strings(value: Seq<char>, strings: Seq<Seq<char>>) -> bool {
    &&& elements(value).len() == strings.len()
    &&& forall|i: int|
        0 <= i < strings.len() ==> is_string(#[trigger] elements(value)[i]) && string_in(
            elements(value)[i],
        ) == strings[i]
}

/// The parts that a counter is keyed by, from the three lowest bits of its key
/// specification.
pub open spec fn keyed_by(keyspec: u8) -> Seq<Seq<char>> {
    (if keyspec % 2 == 1 {
        seq!["SrcAddr"@]
    } else {
        seq![]
    }) + (if keyspec / 2 % 2 == 1 {
        seq!["DstAddr"@]
    } else {
        seq![]
    }) + (if keyspec / 4 % 2 == 1 {
        seq!["Interface"@]
    } else {
        seq![]
    })
}

/// The parts that a counter is keyed by are named from the bits of its key
/// specification, each by its own bit, in order.
pub proof fn law_keys_are_named_by_their_bits(keyspec: u8)
    ensures
        is_strings(array_text(key_names(keyspec)), keyed_by(keyspec)),
        whole(array_text(key_names(keyspec))),
{
    assert((keyspec & 0x01u8 != 0) == (keyspec % 2 == 1) && (keyspec & 0x02u8 != 0) == (keyspec / 2
        % 2 == 1) && (keyspec & 0x04u8 != 0) == (keyspec / 4 % 2 == 1)) by (bit_vector);
    assert(whole("\"SrcAddr\""@) && is_string("\"SrcAddr\""@) && string_in("\"SrcAddr\""@)
        == "SrcAddr"@) by {
        reveal_strlit("\"SrcAddr\"");
        reveal_strlit("SrcAddr");
        assert("\"SrcAddr\""@ == seq!['"'] + "SrcAddr"@ + seq!['"']);
        lemma_plain_string("SrcAddr"@);
    }
    assert(whole("\"DstAddr\""@) && is_string("\"DstAddr\""@) && string_in("\"DstAddr\""@)
        == "DstAddr"@) by {
        reveal_strlit("\"DstAddr\"");
        reveal_strlit("DstAddr");
        assert("\"DstAddr\""@ == seq!['"'] + "DstAddr"@ + seq!['"']);
        lemma_plain_string("DstAddr"@);
    }
    assert(whole("\"Interface\""@) && is_string("\"Interface\""@) && string_in(
        "\"Interface\""@,
    ) == "Interface"@) by {
        reveal_strlit("\"Interface\"");
        reveal_strlit("Interface");
        assert("\"Interface\""@ == seq!['"'] + "Interface"@ + seq!['"']);
        lemma_plain_string("Interface"@);
    }
    let names = key_names(keyspec);
    assert forall|i: int| 0 <= i < names.len() implies whole(#[trigger] names[i]) && is_string(
        names[i],
    ) && string_in(names[i]) == keyed_by(keyspec)[i] by {
    }
    law_arrays_read_back(names);
}

#[verifier::rlimit(60)]
#[verifier::spinoff_prover]
pub(crate) proof fn lemma_window_reads_back(r: PnpCounterRec, w: int)
    ensures
        members(object_text(window_fields(r, w))) == window_fields(r, w),
        whole(object_text(window_fields(r, w))),
        object_text(window_fields(r, w)).len() > 0,
{
    let f = window_fields(r, w);
    assert(closes("secs"@)) by {
        reveal_strlit("secs");
        lemma_plain_closes("secs"@);
    }
    assert(closes("value"@)) by {
        reveal_strlit("value");
        lemma_plain_closes("value"@);
    }
    assert(whole(int_text(r.window_secs@[w] as int))) by {
        lemma_number_value(r.window_secs@[w] as int);
    }
    assert(whole(int_text(r.window_value@[w] as int))) by {
        lemma_number_value(r.window_value@[w] as int);
    }
    assert forall|i: int| 0 <= i < f.len() implies closes((#[trigger] f[i]).key) && whole(
        f[i].value,
    ) by {
        assert(closes(f[0].key) && whole(f[0].value));
        assert(closes(f[1].key) && whole(f[1].value));
    }
    law_objects_read_back(f);
}

/// A window's text gives its length and its value back.
#[verifier::rlimit(60)]
#[verifier::spinoff_prover]
pub proof fn law_windows_read_back(r: PnpCounterRec, w: int)
    ensures
        ({
            let m = members(object_text(window_fields(r, w)));
            &&& m.len() == 2
            &&& says_number(m[0], "secs"@, r.window_secs@[w] as int)
            &&& says_number(m[1], "value"@, r.window_value@[w] as int)
        }),
{
    let m = members(object_text(window_fields(r, w)));
    lemma_window_reads_back(r, w);
    assert(says_number(m[0], "secs"@, r.window_secs@[w] as int)) by {
        lemma_number_value(r.window_secs@[w] as int);
    }
    assert(says_number(m[1], "value"@, r.window_value@[w] as int)) by {
        lemma_number_value(r.window_value@[w] as int);
    }
}

/// A counter shows as many windows as it has, at most eight, in order.
pub proof fn law_counters_show_their_windows(r: PnpCounterRec)
    ensures
        whole(windows_text(r)),
        elements(windows_text(r)).len() == if r.n_windows < 8 {
            r.n_windows as nat
        } else {
            8
        },
        forall|w: int|
            0 <= w < elements(windows_text(r)).len() ==> #[trigger] elements(windows_text(r))[w]
                == object_text(window_fields(r, w)),
{
    let shown = Seq::new(shown_windows(r), |w: int| object_text(window_fields(r, w)));
    assert forall|w: int| 0 <= w < shown.len() implies whole(#[trigger] shown[w]) && shown[w].len()
        > 0 by {
        lemma_window_reads_back(r, w);
    }
    law_arrays_read_back(shown);
}

#[verifier::rlimit(60)]
#[verifier::spinoff_prover]
pub(crate) proof fn lemma_counter_reads_back(r: PnpCounterRec)
    ensures
        members(object_text(counter_fields(r))) == counter_fields(r),
        whole(object_text(counter_fields(r))),
        object_text(counter_fields(r)).len() > 0,
{
    let f = counter_fields(r);
    assert(closes("name"@)) by {
        reveal_strlit("name");
        lemma_plain_closes("name"@);
    }
    assert(closes("keyspec"@)) by {
        reveal_strlit("keyspec");
        lemma_plain_closes("keyspec"@);
    }
    assert(closes("family"@)) by {
        reveal_strlit("family");
        lemma_plain_closes("family"@);
    }
    assert(closes("ifindex"@)) by {
        reveal_strlit("ifindex");
        lemma_plain_closes("ifindex"@);
    }
    assert(closes("src"@)) by {
        reveal_strlit("src");
        lemma_plain_closes("src"@);
    }
    assert(closes("dst"@)) by {
        reveal_strlit("dst");
        lemma_plain_closes("dst"@);
    }
    assert(closes("total"@)) by {
        reveal_strlit("total");
        lemma_plain_closes("total"@);
    }
    assert(closes("last_secs"@)) by {
        reveal_strlit("last_secs");
        lemma_plain_closes("last_secs"@);
    }
    assert(closes("windows"@)) by {
        reveal_strlit("windows");
        lemma_plain_closes("windows"@);
    }
    assert(whole(escape_text(bytes_text(until_zero(r.name@))))) by {
        lemma_string_value(bytes_text(until_zero(r.name@)));
    }
    assert(whole(f[1].value)) by {
        law_keys_are_named_by_their_bits(r.keyspec);
    }
    assert(whole(int_text(r.family as int))) by {
        lemma_number_value(r.family as int);
    }
    assert(whole(int_text(r.ifindex as int))) by {
        lemma_number_value(r.ifindex as int);
    }
    assert(whole(escape_text(addr_text(r.family, r.src_addr@)))) by {
        lemma_string_value(addr_text(r.family, r.src_addr@));
    }
    assert(whole(escape_text(addr_text(r.family, r.dst_addr@)))) by {
        lemma_string_value(addr_text(r.family, r.dst_addr@));
    }
    assert(whole(int_text(r.total as int))) by {
        lemma_number_value(r.total as int);
    }
    assert(whole(int_text(r.last_secs as int))) by {
        lemma_number_value(r.last_secs as int);
    }
    assert(whole(f[8].value)) by {
        law_counters_show_their_windows(r);
    }
    assert forall|i: int| 0 <= i < f.len() implies closes((#[trigger] f[i]).key) && whole(
        f[i].value,
    ) by {
        assert(closes(f[0].key) && whole(f[0].value));
        assert(closes(f[1].key) && whole(f[1].value));
        assert(closes(f[2].key) && whole(f[2].value));
        assert(closes(f[3].key) && whole(f[3].value));
        assert(closes(f[4].key) && whole(f[4].value));
        assert(closes(f[5].key) && whole(f[5].value));
        assert(closes(f[6].key) && whole(f[6].value));
        assert(closes(f[7].key) && whole(f[7].value));
        assert(closes(f[8].key) && whole(f[8].value));
    }
    law_objects_read_back(f);
}

/// A counter cell's text gives every field back from under its own key.
#[verifier::rlimit(60)]
#[verifier::spinoff_prover]
pub proof fn law_counters_read_back(r: PnpCounterRec)
    ensures
        ({
            let m = members(object_text(counter_fields(r)));
            &&& m.len() == 9
            &&& says_text(m[0], "name"@, bytes_text(until_zero(r.name@)))
            &&& m[1].key == "keyspec"@
            &&& is_strings(m[1].value, keyed_by(r.keyspec))
            &&& says_number(m[2], "family"@, r.family as int)
            &&& says_number(m[3], "ifindex"@, r.ifindex as int)
            &&& says_address(m[4], "src"@, r.family, r.src_addr@)
            &&& says_address(m[5], "dst"@, r.family, r.dst_addr@)
            &&& says_number(m[6], "total"@, r.total as int)
            &&& says_number(m[7], "last_secs"@, r.last_secs as int)
            &&& m[8].key == "windows"@
            &&& m[8].value == windows_text(r)
        }),
{
    let m = members(object_text(counter_fields(r)));
    lemma_counter_reads_back(r);
    assert(says_text(m[0], "name"@, bytes_text(until_zero(r.name@)))) by {
        lemma_string_value(bytes_text(until_zero(r.name@)));
    }
    assert(says_number(m[2], "family"@, r.family as int)) by {
        lemma_number_value(r.family as int);
    }
    assert(says_number(m[3], "ifindex"@, r.ifindex as int)) by {
        lemma_number_value(r.ifindex as int);
    }
    assert(says_address(m[4], "src"@, r.family, r.src_addr@)) by {
        lemma_string_value(addr_text(r.family, r.src_addr@));
        law_addresses_read_back(r.family, r.src_addr@);
    }
    assert(says_address(m[5], "dst"@, r.family, r.dst_addr@)) by {
        lemma_string_value(addr_text(r.family, r.dst_addr@));
        law_addresses_read_back(r.family, r.dst_addr@);
    }
    assert(says_number(m[6], "total"@, r.total as int)) by {
        lemma_number_value(r.total as int);
    }
    assert(says_number(m[7], "last_secs"@, r.last_secs as int)) by {
        lemma_number_value(r.last_secs as int);
    }
    law_keys_are_named_by_their_bits(r.keyspec);
    law_counters_show_their_windows(r);
}

proof fn lemma_counter_records(dump: CountersDump)
    ensures
        whole(
            array_text(dump.records@.map_values(|r: PnpCounterRec| object_text(counter_fields(r)))),
        ),
        elements(
            array_text(dump.records@.map_values(|r: PnpCounterRec| object_text(counter_fields(r)))),
        ) == dump.records@.map_values(|r: PnpCounterRec| object_text(counter_fields(r))),
{
    let shown = dump.records@.map_values(|r: PnpCounterRec| object_text(counter_fields(r)));
    assert forall|i: int| 0 <= i < shown.len() implies whole(#[trigger] shown[i]) && shown[i].len()
        > 0 by {
        lemma_counter_reads_back(dump.records@[i]);
    }
    law_arrays_read_back(shown);
}

#[verifier::rlimit(60)]
#[verifier::spinoff_prover]
pub(crate) proof fn lemma_dump_reads_back(dump: CountersDump)
    ensures
        members(object_text(counters_fields(dump))) == counters_fields(dump),
        whole(object_text(counters_fields(dump))),
        object_text(counters_fields(dump)).len() > 0,
{
    let f = counters_fields(dump);
    assert(closes("connected"@)) by {
        reveal_strlit("connected");
        lemma_plain_closes("connected"@);
    }
    assert(closes("total_cells"@)) by {
        reveal_strlit("total_cells");
        lemma_plain_closes("total_cells"@);
    }
    assert(closes("records"@)) by {
        reveal_strlit("records");
        lemma_plain_closes("records"@);
    }
    assert(whole(int_text(1))) by {
        lemma_number_value(1);
    }
    assert(whole(int_text(dump.total_cells as int))) by {
        lemma_number_value(dump.total_cells as int);
    }
    assert(whole(f[2].value)) by {
        lemma_counter_records(dump);
    }
    assert forall|i: int| 0 <= i < f.len() implies closes((#[trigger] f[i]).key) && whole(
        f[i].value,
    ) by {
        assert(closes(f[0].key) && whole(f[0].value));
        assert(closes(f[1].key) && whole(f[1].value));
        assert(closes(f[2].key) && whole(f[2].value));
    }
    law_objects_read_back(f);
}

/// A counter dump shows every cell it holds, one after the other, and how many
/// exist.
#[verifier::rlimit(60)]
#[verifier::spinoff_prover]
pub proof fn law_counter_dumps_read_back(dump: CountersDump)
    ensures
        ({
            let m = members(object_text(counters_fields(dump)));
            &&& m.len() == 3
            &&& says_number(m[0], "connected"@, 1)
            &&& says_number(m[1], "total_cells"@, dump.total_cells as int)
            &&& m[2].key == "records"@
            &&& elements(m[2].value).len() == dump.records@.len()
            &&& forall|i: int|
                0 <= i < dump.records@.len() ==> #[trigger] elements(m[2].value)[i] == object_text(
                    counter_fields(dump.records@[i]),
                )
        }),
{
    let m = members(object_text(counters_fields(dump)));
    lemma_dump_reads_back(dump);
    assert(says_number(m[0], "connected"@, 1)) by {
        lemma_number_value(1);
    }
    assert(says_number(m[1], "total_cells"@, dump.total_cells as int)) by {
        lemma_number_value(dump.total_cells as int);
    }
    lemma_counter_records(dump);
}

#[verifier::rlimit(60)]
#[verifier::spinoff_prover]
pub(crate) proof fn lemma_unconnected_reads_back(error: Seq<char>)
    ensures
        members(object_text(unconnected_fields(error))) == unconnected_fields(error),
        whole(object_text(unconnected_fields(error))),
        object_text(unconnected_fields(error)).len() > 0,
{
    let f = unconnected_fields(error);
    assert(closes("connected"@)) by {
        reveal_strlit("connected");
        lemma_plain_closes("connected"@);
    }
    assert(closes("error"@)) by {
        reveal_strlit("error");
        lemma_plain_closes("error"@);
    }
    assert(whole(int_text(0))) by {
        lemma_number_value(0);
    }
    assert(whole(escape_text(error))) by {
        lemma_string_value(error);
    }
    assert forall|i: int| 0 <= i < f.len() implies closes((#[trigger] f[i]).key) && whole(
        f[i].value,
    ) by {
        assert(closes(f[0].key) && whole(f[0].value));
        assert(closes(f[1].key) && whole(f[1].value));
    }
    law_objects_read_back(f);
}

/// Where the engine could not be asked, the text says so and why.
#[verifier::rlimit(60)]
#[verifier::spinoff_prover]
pub proof fn law_unanswered_dumps_say_why(error: Seq<char>)
    ensures
        ({
            let m = members(object_text(unconnected_fields(error)));
            &&& m.len() == 2
            &&& says_number(m[0], "connected"@, 0)
            &&& says_text(m[1], "error"@, error)
        }),
{
    let m = members(object_text(unconnected_fields(error)));
    lemma_unconnected_reads_back(error);
    assert(says_number(m[0], "connected"@, 0)) by {
        lemma_number_value(0);
    }
    assert(says_text(m[1], "error"@, error)) by {
        lemma_string_value(error);
    }
}

// ---------------------------------------------------------------------------
// Flows
// ---------------------------------------------------------------------------

#[verifier::rlimit(60)]
#[verifier::spinoff_prover]
pub(crate) proof fn lemma_sentence_reads_back(r: PnpFlowRec, slot: int)
    ensures
        members(object_text(sentence_fields(r, slot))) == sentence_fields(r, slot),
        whole(object_text(sentence_fields(r, slot))),
        object_text(sentence_fields(r, slot)).len() > 0,
{
    let f = sentence_fields(r, slot);
    assert(closes("slot"@)) by {
        reveal_strlit("slot");
        lemma_plain_closes("slot"@);
    }
    assert(closes("generation"@)) by {
        reveal_strlit("generation");
        lemma_plain_closes("generation"@);
    }
    assert(closes("expires_at"@)) by {
        reveal_strlit("expires_at");
        lemma_plain_closes("expires_at"@);
    }
    assert(closes("rule_hash"@)) by {
        reveal_strlit("rule_hash");
        lemma_plain_closes("rule_hash"@);
    }
    assert(closes("verdict"@)) by {
        reveal_strlit("verdict");
        lemma_plain_closes("verdict"@);
    }
    assert(closes("reject_kind"@)) by {
        reveal_strlit("reject_kind");
        lemma_plain_closes("reject_kind"@);
    }
    assert(whole(int_text(slot))) by {
        lemma_number_value(slot);
    }
    assert(whole(int_text(r.sentence_generation@[slot] as int))) by {
        lemma_number_value(r.sentence_generation@[slot] as int);
    }
    assert(whole(int_text(r.sentence_expires_at@[slot] as int))) by {
        lemma_number_value(r.sentence_expires_at@[slot] as int);
    }
    assert(whole(escape_text(hex_fixed(r.sentence_rule_hash@[slot] as nat, 16)))) by {
        lemma_string_value(hex_fixed(r.sentence_rule_hash@[slot] as nat, 16));
    }
    assert(whole(escape_text(verdict_text(r.sentence_verdict@[slot])))) by {
        lemma_string_value(verdict_text(r.sentence_verdict@[slot]));
    }
    assert(whole(
        escape_text(reject_text(r.sentence_verdict@[slot], r.sentence_reject_kind@[slot])),
    )) by {
        lemma_string_value(
            reject_text(r.sentence_verdict@[slot], r.sentence_reject_kind@[slot]),
        );
    }
    assert forall|i: int| 0 <= i < f.len() implies closes((#[trigger] f[i]).key) && whole(
        f[i].value,
    ) by {
        assert(closes(f[0].key) && whole(f[0].value));
        assert(closes(f[1].key) && whole(f[1].value));
        assert(closes(f[2].key) && whole(f[2].value));
        assert(closes(f[3].key) && whole(f[3].value));
        assert(closes(f[4].key) && whole(f[4].value));
        assert(closes(f[5].key) && whole(f[5].value));
    }
    law_objects_read_back(f);
}

/// A sentence's text gives every field back from under its own key.
#[verifier::rlimit(60)]
#[verifier::spinoff_prover]
pub proof fn law_sentences_read_back(r: PnpFlowRec, slot: int)
    requires
        0 <= slot < 2,
    ensures
        ({
            let m = members(object_text(sentence_fields(r, slot)));
            &&& m.len() == 6
            &&& says_number(m[0], "slot"@, slot)
            &&& says_number(m[1], "generation"@, r.sentence_generation@[slot] as int)
            &&& says_number(m[2], "expires_at"@, r.sentence_expires_at@[slot] as int)
            &&& says_text(m[3], "rule_hash"@, hex_fixed(r.sentence_rule_hash@[slot] as nat, 16))
            &&& says_text(
                m[4],
                "verdict"@,
                if r.sentence_verdict@[slot] == 0 {
                    "pass"@
                } else if r.sentence_verdict@[slot] == 1 {
                    "reject"@
                } else {
                    "drop"@
                },
            )
            &&& says_text(
                m[5],
                "reject_kind"@,
                if r.sentence_verdict@[slot] != 1 {
                    ""@
                } else if r.sentence_reject_kind@[slot] == 1 {
                    "Prohibited"@
                } else {
                    "Refused"@
                },
            )
        }),
{
    let m = members(object_text(sentence_fields(r, slot)));
    lemma_sentence_reads_back(r, slot);
    assert(says_number(m[0], "slot"@, slot)) by {
        lemma_number_value(slot);
    }
    assert(says_number(m[1], "generation"@, r.sentence_generation@[slot] as int)) by {
        lemma_number_value(r.sentence_generation@[slot] as int);
    }
    assert(says_number(m[2], "expires_at"@, r.sentence_expires_at@[slot] as int)) by {
        lemma_number_value(r.sentence_expires_at@[slot] as int);
    }
    assert(says_text(m[3], "rule_hash"@, hex_fixed(r.sentence_rule_hash@[slot] as nat, 16))) by {
        lemma_string_value(hex_fixed(r.sentence_rule_hash@[slot] as nat, 16));
    }
    assert(says_text(
        m[4],
        "verdict"@,
        if r.sentence_verdict@[slot] == 0 {
                "pass"@
            } else if r.sentence_verdict@[slot] == 1 {
                "reject"@
            } else {
                "drop"@
            },
    )) by {
        lemma_string_value(verdict_text(r.sentence_verdict@[slot]));
    }
    assert(says_text(
        m[5],
        "reject_kind"@,
        if r.sentence_verdict@[slot] != 1 {
                ""@
            } else if r.sentence_reject_kind@[slot] == 1 {
                "Prohibited"@
            } else {
                "Refused"@
            },
    )) by {
        lemma_string_value(
            reject_text(r.sentence_verdict@[slot], r.sentence_reject_kind@[slot]),
        );
    }
}

#[verifier::rlimit(60)]
#[verifier::spinoff_prover]
pub(crate) proof fn lemma_tag_reads_back(tag: (u64, u64))
    ensures
        members(object_text(tag_fields(tag))) == tag_fields(tag),
        whole(object_text(tag_fields(tag))),
        object_text(tag_fields(tag)).len() > 0,
{
    let f = tag_fields(tag);
    assert(closes("hash"@)) by {
        reveal_strlit("hash");
        lemma_plain_closes("hash"@);
    }
    assert(closes("value"@)) by {
        reveal_strlit("value");
        lemma_plain_closes("value"@);
    }
    assert(whole(escape_text(hex_fixed(tag.0 as nat, 16)))) by {
        lemma_string_value(hex_fixed(tag.0 as nat, 16));
    }
    assert(whole(int_text(tag.1 as int))) by {
        lemma_number_value(tag.1 as int);
    }
    assert forall|i: int| 0 <= i < f.len() implies closes((#[trigger] f[i]).key) && whole(
        f[i].value,
    ) by {
        assert(closes(f[0].key) && whole(f[0].value));
        assert(closes(f[1].key) && whole(f[1].value));
    }
    law_objects_read_back(f);
}

/// A tag's text gives its hash and its value back.
#[verifier::rlimit(60)]
#[verifier::spinoff_prover]
pub proof fn law_tags_read_back(tag: (u64, u64))
    ensures
        ({
            let m = members(object_text(tag_fields(tag)));
            &&& m.len() == 2
            &&& says_text(m[0], "hash"@, hex_fixed(tag.0 as nat, 16))
            &&& says_number(m[1], "value"@, tag.1 as int)
        }),
{
    let m = members(object_text(tag_fields(tag)));
    lemma_tag_reads_back(tag);
    assert(says_text(m[0], "hash"@, hex_fixed(tag.0 as nat, 16))) by {
        lemma_string_value(hex_fixed(tag.0 as nat, 16));
    }
    assert(says_number(m[1], "value"@, tag.1 as int)) by {
        lemma_number_value(tag.1 as int);
    }
}

/// A flow shows the sentences that were passed on it, slot by slot: one with a
/// generation is shown, one without is not.
pub proof fn law_flows_show_their_sentences(r: PnpFlowRec)
    ensures
        whole(array_text(all_sentences(r))),
        elements(array_text(all_sentences(r))) == (if r.sentence_generation@[0] != 0 {
            seq![object_text(sentence_fields(r, 0))]
        } else {
            seq![]
        }) + (if r.sentence_generation@[1] != 0 {
            seq![object_text(sentence_fields(r, 1))]
        } else {
            seq![]
        }),
{
    lemma_sentence_reads_back(r, 0);
    lemma_sentence_reads_back(r, 1);
    reveal_with_fuel(sentences_shown, 3);
    let shown = all_sentences(r);
    assert(shown == (if r.sentence_generation@[0] != 0 {
        seq![object_text(sentence_fields(r, 0))]
    } else {
        seq![]
    }) + (if r.sentence_generation@[1] != 0 {
        seq![object_text(sentence_fields(r, 1))]
    } else {
        seq![]
    }));
    law_arrays_read_back(shown);
}

/// A flow shows its tags in use, in order: as many as it says it has, and no more
/// than there are slots.
pub proof fn law_flows_show_their_tags(r: PnpFlowRec)
    ensures
        whole(array_text(tags_shown(r))),
        elements(array_text(tags_shown(r))).len() == if r.n_tags < r.tags@.len() {
            r.n_tags as nat
        } else {
            r.tags@.len()
        },
        forall|i: int|
            0 <= i < elements(array_text(tags_shown(r))).len() ==> #[trigger] elements(
                array_text(tags_shown(r)),
            )[i] == object_text(tag_fields(r.tags@[i])),
{
    let shown = tags_shown(r);
    assert forall|i: int| 0 <= i < shown.len() implies whole(#[trigger] shown[i]) && shown[i].len()
        > 0 by {
        lemma_tag_reads_back(r.tags@[i]);
    }
    law_arrays_read_back(shown);
}

/// Two numbers read back from their array, in order.
pub proof fn law_pairs_read_back(n: Seq<u64>)
    ensures
        whole(pair_text(n)),
        elements(pair_text(n)).len() == 2,
        is_number(elements(pair_text(n))[0], n[0] as int),
        is_number(elements(pair_text(n))[1], n[1] as int),
{
    lemma_number_value(n[0] as int);
    lemma_number_value(n[1] as int);
    law_arrays_read_back(seq![int_text(n[0] as int), int_text(n[1] as int)]);
}

#[verifier::rlimit(60)]
#[verifier::spinoff_prover]
pub(crate) proof fn lemma_flow_reads_back(r: PnpFlowRec)
    ensures
        members(object_text(flow_fields(r))) == flow_fields(r),
        whole(object_text(flow_fields(r))),
        object_text(flow_fields(r)).len() > 0,
{
    let f = flow_fields(r);
    assert(closes("id"@)) by {
        reveal_strlit("id");
        lemma_plain_closes("id"@);
    }
    assert(closes("family"@)) by {
        reveal_strlit("family");
        lemma_plain_closes("family"@);
    }
    assert(closes("protocol"@)) by {
        reveal_strlit("protocol");
        lemma_plain_closes("protocol"@);
    }
    assert(closes("dir"@)) by {
        reveal_strlit("dir");
        lemma_plain_closes("dir"@);
    }
    assert(closes("loopback"@)) by {
        reveal_strlit("loopback");
        lemma_plain_closes("loopback"@);
    }
    assert(closes("seen_reply"@)) by {
        reveal_strlit("seen_reply");
        lemma_plain_closes("seen_reply"@);
    }
    assert(closes("assured"@)) by {
        reveal_strlit("assured");
        lemma_plain_closes("assured"@);
    }
    assert(closes("related"@)) by {
        reveal_strlit("related");
        lemma_plain_closes("related"@);
    }
    assert(closes("judged"@)) by {
        reveal_strlit("judged");
        lemma_plain_closes("judged"@);
    }
    assert(closes("ifindex"@)) by {
        reveal_strlit("ifindex");
        lemma_plain_closes("ifindex"@);
    }
    assert(closes("timeout_secs"@)) by {
        reveal_strlit("timeout_secs");
        lemma_plain_closes("timeout_secs"@);
    }
    assert(closes("src"@)) by {
        reveal_strlit("src");
        lemma_plain_closes("src"@);
    }
    assert(closes("dst"@)) by {
        reveal_strlit("dst");
        lemma_plain_closes("dst"@);
    }
    assert(closes("src_port"@)) by {
        reveal_strlit("src_port");
        lemma_plain_closes("src_port"@);
    }
    assert(closes("dst_port"@)) by {
        reveal_strlit("dst_port");
        lemma_plain_closes("dst_port"@);
    }
    assert(closes("icmp_type"@)) by {
        reveal_strlit("icmp_type");
        lemma_plain_closes("icmp_type"@);
    }
    assert(closes("icmp_code"@)) by {
        reveal_strlit("icmp_code");
        lemma_plain_closes("icmp_code"@);
    }
    assert(closes("start_secs"@)) by {
        reveal_strlit("start_secs");
        lemma_plain_closes("start_secs"@);
    }
    assert(closes("packets"@)) by {
        reveal_strlit("packets");
        lemma_plain_closes("packets"@);
    }
    assert(closes("bytes"@)) by {
        reveal_strlit("bytes");
        lemma_plain_closes("bytes"@);
    }
    assert(closes("sentences"@)) by {
        reveal_strlit("sentences");
        lemma_plain_closes("sentences"@);
    }
    assert(closes("tags"@)) by {
        reveal_strlit("tags");
        lemma_plain_closes("tags"@);
    }
    assert(whole(int_text(r.id.value()))) by {
        lemma_number_value(r.id.value());
    }
    assert(whole(int_text(r.family.value()))) by {
        lemma_number_value(r.family.value());
    }
    assert(whole(int_text(r.protocol.value()))) by {
        lemma_number_value(r.protocol.value());
    }
    assert(whole(escape_text(way_text(r.direction)))) by {
        lemma_string_value(way_text(r.direction));
    }
    assert(whole(int_text(r.loopback.value()))) by {
        lemma_number_value(r.loopback.value());
    }
    assert(whole(int_text(r.seen_reply.value()))) by {
        lemma_number_value(r.seen_reply.value());
    }
    assert(whole(int_text(r.assured.value()))) by {
        lemma_number_value(r.assured.value());
    }
    assert(whole(int_text(r.related.value()))) by {
        lemma_number_value(r.related.value());
    }
    assert(whole(int_text(r.judged.value()))) by {
        lemma_number_value(r.judged.value());
    }
    assert(whole(int_text(r.ifindex.value()))) by {
        lemma_number_value(r.ifindex.value());
    }
    assert(whole(int_text(r.timeout_secs.value()))) by {
        lemma_number_value(r.timeout_secs.value());
    }
    assert(whole(escape_text(addr_text(r.family, r.src_addr@)))) by {
        lemma_string_value(addr_text(r.family, r.src_addr@));
    }
    assert(whole(escape_text(addr_text(r.family, r.dst_addr@)))) by {
        lemma_string_value(addr_text(r.family, r.dst_addr@));
    }
    assert(whole(int_text(r.src_port.value()))) by {
        lemma_number_value(r.src_port.value());
    }
    assert(whole(int_text(r.dst_port.value()))) by {
        lemma_number_value(r.dst_port.value());
    }
    assert(whole(int_text(r.icmp_type.value()))) by {
        lemma_number_value(r.icmp_type.value());
    }
    assert(whole(int_text(r.icmp_code.value()))) by {
        lemma_number_value(r.icmp_code.value());
    }
    assert(whole(int_text(r.start_secs.value()))) by {
        lemma_number_value(r.start_secs.value());
    }
    assert(whole(f[18].value)) by {
        law_pairs_read_back(r.packets@);
    }
    assert(whole(f[19].value)) by {
        law_pairs_read_back(r.bytes@);
    }
    assert(whole(f[20].value)) by {
        law_flows_show_their_sentences(r);
    }
    assert(whole(f[21].value)) by {
        law_flows_show_their_tags(r);
    }
    assert forall|i: int| 0 <= i < f.len() implies closes((#[trigger] f[i]).key) && whole(
        f[i].value,
    ) by {
        assert(closes(f[0].key) && whole(f[0].value));
        assert(closes(f[1].key) && whole(f[1].value));
        assert(closes(f[2].key) && whole(f[2].value));
        assert(closes(f[3].key) && whole(f[3].value));
        assert(closes(f[4].key) && whole(f[4].value));
        assert(closes(f[5].key) && whole(f[5].value));
        assert(closes(f[6].key) && whole(f[6].value));
        assert(closes(f[7].key) && whole(f[7].value));
        assert(closes(f[8].key) && whole(f[8].value));
        assert(closes(f[9].key) && whole(f[9].value));
        assert(closes(f[10].key) && whole(f[10].value));
        assert(closes(f[11].key) && whole(f[11].value));
        assert(closes(f[12].key) && whole(f[12].value));
        assert(closes(f[13].key) && whole(f[13].value));
        assert(closes(f[14].key) && whole(f[14].value));
        assert(closes(f[15].key) && whole(f[15].value));
        assert(closes(f[16].key) && whole(f[16].value));
        assert(closes(f[17].key) && whole(f[17].value));
        assert(closes(f[18].key) && whole(f[18].value));
        assert(closes(f[19].key) && whole(f[19].value));
        assert(closes(f[20].key) && whole(f[20].value));
        assert(closes(f[21].key) && whole(f[21].value));
    }
    law_objects_read_back(f);
}

/// A flow's text gives every field back from under its own key.
#[verifier::rlimit(60)]
#[verifier::spinoff_prover]
pub proof fn law_flows_read_back(r: PnpFlowRec)
    ensures
        ({
            let m = members(object_text(flow_fields(r)));
            &&& m.len() == 22
            &&& says_number(m[0], "id"@, r.id.value())
            &&& says_number(m[1], "family"@, r.family.value())
            &&& says_number(m[2], "protocol"@, r.protocol.value())
            &&& says_text(
                m[3],
                "dir"@,
                if r.direction == 1 {
                    "out"@
                } else {
                    "in"@
                },
            )
            &&& says_number(m[4], "loopback"@, r.loopback.value())
            &&& says_number(m[5], "seen_reply"@, r.seen_reply.value())
            &&& says_number(m[6], "assured"@, r.assured.value())
            &&& says_number(m[7], "related"@, r.related.value())
            &&& says_number(m[8], "judged"@, r.judged.value())
            &&& says_number(m[9], "ifindex"@, r.ifindex.value())
            &&& says_number(m[10], "timeout_secs"@, r.timeout_secs.value())
            &&& says_address(m[11], "src"@, r.family, r.src_addr@)
            &&& says_address(m[12], "dst"@, r.family, r.dst_addr@)
            &&& says_number(m[13], "src_port"@, r.src_port.value())
            &&& says_number(m[14], "dst_port"@, r.dst_port.value())
            &&& says_number(m[15], "icmp_type"@, r.icmp_type.value())
            &&& says_number(m[16], "icmp_code"@, r.icmp_code.value())
            &&& says_number(m[17], "start_secs"@, r.start_secs.value())
            &&& m[18].key == "packets"@
            &&& is_number(elements(m[18].value)[0], r.packets@[0].value())
            &&& is_number(elements(m[18].value)[1], r.packets@[1].value())
            &&& elements(m[18].value).len() == 2
            &&& m[19].key == "bytes"@
            &&& is_number(elements(m[19].value)[0], r.bytes@[0].value())
            &&& is_number(elements(m[19].value)[1], r.bytes@[1].value())
            &&& elements(m[19].value).len() == 2
            &&& m[20].key == "sentences"@
            &&& m[20].value == array_text(all_sentences(r))
            &&& m[21].key == "tags"@
            &&& m[21].value == array_text(tags_shown(r))
        }),
{
    let m = members(object_text(flow_fields(r)));
    lemma_flow_reads_back(r);
    assert(says_number(m[0], "id"@, r.id.value())) by {
        lemma_number_value(r.id.value());
    }
    assert(says_number(m[1], "family"@, r.family.value())) by {
        lemma_number_value(r.family.value());
    }
    assert(says_number(m[2], "protocol"@, r.protocol.value())) by {
        lemma_number_value(r.protocol.value());
    }
    assert(says_text(
        m[3],
        "dir"@,
        if r.direction == 1 {
                "out"@
            } else {
                "in"@
            },
    )) by {
        lemma_string_value(way_text(r.direction));
    }
    assert(says_number(m[4], "loopback"@, r.loopback.value())) by {
        lemma_number_value(r.loopback.value());
    }
    assert(says_number(m[5], "seen_reply"@, r.seen_reply.value())) by {
        lemma_number_value(r.seen_reply.value());
    }
    assert(says_number(m[6], "assured"@, r.assured.value())) by {
        lemma_number_value(r.assured.value());
    }
    assert(says_number(m[7], "related"@, r.related.value())) by {
        lemma_number_value(r.related.value());
    }
    assert(says_number(m[8], "judged"@, r.judged.value())) by {
        lemma_number_value(r.judged.value());
    }
    assert(says_number(m[9], "ifindex"@, r.ifindex.value())) by {
        lemma_number_value(r.ifindex.value());
    }
    assert(says_number(m[10], "timeout_secs"@, r.timeout_secs.value())) by {
        lemma_number_value(r.timeout_secs.value());
    }
    assert(says_address(m[11], "src"@, r.family, r.src_addr@)) by {
        lemma_string_value(addr_text(r.family, r.src_addr@));
        law_addresses_read_back(r.family, r.src_addr@);
    }
    assert(says_address(m[12], "dst"@, r.family, r.dst_addr@)) by {
        lemma_string_value(addr_text(r.family, r.dst_addr@));
        law_addresses_read_back(r.family, r.dst_addr@);
    }
    assert(says_number(m[13], "src_port"@, r.src_port.value())) by {
        lemma_number_value(r.src_port.value());
    }
    assert(says_number(m[14], "dst_port"@, r.dst_port.value())) by {
        lemma_number_value(r.dst_port.value());
    }
    assert(says_number(m[15], "icmp_type"@, r.icmp_type.value())) by {
        lemma_number_value(r.icmp_type.value());
    }
    assert(says_number(m[16], "icmp_code"@, r.icmp_code.value())) by {
        lemma_number_value(r.icmp_code.value());
    }
    assert(says_number(m[17], "start_secs"@, r.start_secs.value())) by {
        lemma_number_value(r.start_secs.value());
    }
    law_pairs_read_back(r.packets@);
    law_pairs_read_back(r.bytes@);
    law_flows_show_their_sentences(r);
    law_flows_show_their_tags(r);
}

proof fn lemma_flow_records(dump: FlowsDump)
    ensures
        whole(array_text(dump.records@.map_values(|r: PnpFlowRec| object_text(flow_fields(r))))),
        elements(array_text(dump.records@.map_values(|r: PnpFlowRec| object_text(flow_fields(r)))))
            == dump.records@.map_values(|r: PnpFlowRec| object_text(flow_fields(r))),
{
    let shown = dump.records@.map_values(|r: PnpFlowRec| object_text(flow_fields(r)));
    assert forall|i: int| 0 <= i < shown.len() implies whole(#[trigger] shown[i]) && shown[i].len()
        > 0 by {
        lemma_flow_reads_back(dump.records@[i]);
    }
    law_arrays_read_back(shown);
}

#[verifier::rlimit(60)]
#[verifier::spinoff_prover]
pub(crate) proof fn lemma_flows_reads_back(dump: FlowsDump)
    ensures
        members(object_text(flows_fields(dump))) == flows_fields(dump),
        whole(object_text(flows_fields(dump))),
        object_text(flows_fields(dump)).len() > 0,
{
    let f = flows_fields(dump);
    assert(closes("connected"@)) by {
        reveal_strlit("connected");
        lemma_plain_closes("connected"@);
    }
    assert(closes("total"@)) by {
        reveal_strlit("total");
        lemma_plain_closes("total"@);
    }
    assert(closes("records"@)) by {
        reveal_strlit("records");
        lemma_plain_closes("records"@);
    }
    assert(whole(int_text(1))) by {
        lemma_number_value(1);
    }
    assert(whole(int_text(dump.total as int))) by {
        lemma_number_value(dump.total as int);
    }
    assert(whole(f[2].value)) by {
        lemma_flow_records(dump);
    }
    assert forall|i: int| 0 <= i < f.len() implies closes((#[trigger] f[i]).key) && whole(
        f[i].value,
    ) by {
        assert(closes(f[0].key) && whole(f[0].value));
        assert(closes(f[1].key) && whole(f[1].value));
        assert(closes(f[2].key) && whole(f[2].value));
    }
    law_objects_read_back(f);
}

/// A flow dump shows every flow it holds, one after the other, and how many exist.
#[verifier::rlimit(60)]
#[verifier::spinoff_prover]
pub proof fn law_flow_dumps_read_back(dump: FlowsDump)
    ensures
        ({
            let m = members(object_text(flows_fields(dump)));
            &&& m.len() == 3
            &&& says_number(m[0], "connected"@, 1)
            &&& says_number(m[1], "total"@, dump.total as int)
            &&& m[2].key == "records"@
            &&& elements(m[2].value).len() == dump.records@.len()
            &&& forall|i: int|
                0 <= i < dump.records@.len() ==> #[trigger] elements(m[2].value)[i] == object_text(
                    flow_fields(dump.records@[i]),
                )
        }),
{
    let m = members(object_text(flows_fields(dump)));
    lemma_flows_reads_back(dump);
    assert(says_number(m[0], "connected"@, 1)) by {
        lemma_number_value(1);
    }
    assert(says_number(m[1], "total"@, dump.total as int)) by {
        lemma_number_value(dump.total as int);
    }
    lemma_flow_records(dump);
}

/// A dump that came is shown, and one that did not gives its reason.
pub proof fn law_dumps_are_shown_or_explained(
    counters: Result<CountersDump, String>,
    flows: Result<FlowsDump, String>,
)
    ensures
        counters matches Ok(d) ==> counters_text(counters) == object_text(counters_fields(d)),
        flows matches Ok(d) ==> flows_text(flows) == object_text(flows_fields(d)),
        counters matches Err(why) ==> says_number(
            members(counters_text(counters))[0],
            "connected"@,
            0,
        ) && says_text(members(counters_text(counters))[1], "error"@, why@),
        flows matches Err(why) ==> says_number(
            members(flows_text(flows))[0],
            "connected"@,
            0,
        ) && says_text(members(flows_text(flows))[1], "error"@, why@),
{
    if let Err(why) = counters {
        law_unanswered_dumps_say_why(why@);
    }
    if let Err(why) = flows {
        law_unanswered_dumps_say_why(why@);
    }
}

/// A list of packets shows each of them, in order.
pub proof fn law_packet_lists_read_back(packets: Seq<Packet>)
    ensures
        elements(array_text(packets.map_values(|p: Packet| object_text(packet_fields(p)))))
            == packets.map_values(|p: Packet| object_text(packet_fields(p))),
{
    let shown = packets.map_values(|p: Packet| object_text(packet_fields(p)));
    assert forall|i: int| 0 <= i < shown.len() implies whole(#[trigger] shown[i]) && shown[i].len()
        > 0 by {
        lemma_packet_reads_back(packets[i]);
    }
    law_arrays_read_back(shown);
}

/// A list of verdicts shows each of them, in order.
pub proof fn law_verdict_lists_read_back(events: Seq<PnpEvent>)
    ensures
        elements(array_text(events.map_values(|e: PnpEvent| object_text(verdict_fields(e)))))
            == events.map_values(|e: PnpEvent| object_text(verdict_fields(e))),
{
    let shown = events.map_values(|e: PnpEvent| object_text(verdict_fields(e)));
    assert forall|i: int| 0 <= i < shown.len() implies whole(#[trigger] shown[i]) && shown[i].len()
        > 0 by {
        lemma_verdict_reads_back(events[i]);
    }
    law_arrays_read_back(shown);
}

/// Two verdicts with the same text are the same in every number that is shown,
/// and in both addresses where they are of a family that is.
pub proof fn law_verdict_texts_tell_verdicts_apart(a: PnpEvent, b: PnpEvent)
    requires
        object_text(verdict_fields(a)) == object_text(verdict_fields(b)),
    ensures
        a.seq == b.seq,
        a.t_ns == b.t_ns,
        a.addr_family == b.addr_family,
        a.protocol == b.protocol,
        a.flow_state == b.flow_state,
        a.ifindex == b.ifindex,
        a.src_port == b.src_port,
        a.dst_port == b.dst_port,
        a.ether_type == b.ether_type,
        a.length == b.length,
        a.effects == b.effects,
        a.addr_family == 4 ==> forall|i: int|
            0 <= i < 4 ==> #[trigger] a.src_addr@[i] == b.src_addr@[i] && a.dst_addr@[i]
                == b.dst_addr@[i],
        a.addr_family == 6 ==> a.src_addr@ == b.src_addr@ && a.dst_addr@ == b.dst_addr@,
{
    law_verdicts_read_back(a);
    law_verdicts_read_back(b);
    let m = members(object_text(verdict_fields(a)));
    lemma_effects(a.effects, b.effects);
    lemma_same_address(string_in(m[15].value), a.addr_family, a.src_addr@, b.src_addr@);
    lemma_same_address(string_in(m[16].value), a.addr_family, a.dst_addr@, b.dst_addr@);
}

proof fn lemma_effects(a: u32, b: u32)
    ensures
        a as int % 256 == b as int % 256 && a as int / 0x100 % 256 == b as int / 0x100 % 256 && a
            as int / 0x1_0000 % 256 == b as int / 0x1_0000 % 256 && a as int / 0x100_0000 % 256
            == b as int / 0x100_0000 % 256 ==> a == b,
{
    crate::bytes::lemma_four_bytes(a as nat);
    crate::bytes::lemma_four_bytes(b as nat);
}

proof fn lemma_same_address(t: Seq<char>, family: u8, a: Seq<u8>, b: Seq<u8>)
    requires
        is_address(t, family, a),
        is_address(t, family, b),
        a.len() == 16,
        b.len() == 16,
    ensures
        family == 4 ==> forall|i: int| 0 <= i < 4 ==> #[trigger] a[i] == b[i],
        family == 6 ==> a == b,
{
    if family == 4 {
        assert forall|i: int| 0 <= i < 4 implies #[trigger] a[i] == b[i] by {
            assert(parse_nat(split(t, '.')[i], 255) == Some(a[i] as nat));
        }
    } else if family == 6 {
        let p = split(t, ':');
        assert forall|k: int| 0 <= k < 16 implies a[k] == b[k] by {
            let i = k / 2;
            assert(is_hex_numeral(p[i], (256 * a[2 * i] + a[2 * i + 1]) as nat));
            assert(is_hex_numeral(p[i], (256 * b[2 * i] + b[2 * i + 1]) as nat));
        }
        assert(a == b);
    }
}

} // verus!
