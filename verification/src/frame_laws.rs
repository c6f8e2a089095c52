//! What becomes of a frame, told on the frame's bytes.

use crate::bytes::until_zero;
use crate::capture::{
    counted, direction, drops_added, interface_name, kept, name_known, name_learnt, nothing_seen,
    own_flow, packet_made, receive_next, shown_frame, Arrival, CaptureStats, ReceiveStep,
};
use crate::record_laws::law_until_zero_stops_at_the_first;
use crate::ring::{Direction, Packet};
use crate::text::{
    decimal, law_decimals_read_back, law_utf8_text_reads_back, lemma_decimal_value, parse_nat,
};
use vstd::prelude::*;
use vstd::utf8::encode_utf8;

verus! {


/// A frame belongs to the daemon's own flow exactly where it is TCP, over IPv4
/// with a header of any length or over plain IPv6, and one of its two ports is
/// the listen port, both bytes of it.
pub proof fn law_own_flow_is_told_by_both_bytes_of_a_port(f: Seq<u8>, own_port: u16)
    ensures
        ({
            let off = if f[12] == 0x81 && f[13] == 0x00 {
                18int
            } else {
                14
            };
            let v4 = f[off - 2] == 0x08 && f[off - 1] == 0x00;
            let v6 = f[off - 2] == 0x86 && f[off - 1] == 0xdd;
            let ports = if v4 {
                off + 4 * (f[off] as int % 16)
            } else {
                off + 40
            };
            let tcp = (v4 && off + 9 < f.len() && f[off + 9] == 6) || (v6 && off + 6 < f.len()
                && f[off + 6] == 6);
            own_flow(f, own_port) <==> {
                &&& f.len() >= 14
                &&& f.len() >= off
                &&& tcp
                &&& ports + 4 <= f.len()
                &&& (f[ports] as int * 256 + f[ports + 1] as int == own_port || f[ports + 2] as int
                    * 256 + f[ports + 3] as int == own_port)
            }
        }),
{
}

/// An untagged IPv4 frame without options that carries TCP is suppressed exactly
/// where one of the ports at its bytes 34 to 37 is the listen port.
pub proof fn law_plain_ipv4_ports(f: Seq<u8>, own_port: u16)
    requires
        f.len() >= 38,
        f[12] == 0x08,
        f[13] == 0x00,
        f[14] as int % 16 == 5,
        f[23] == 6,
    ensures
        own_flow(f, own_port) <==> f[34] as int * 256 + f[35] as int == own_port || f[36] as int
            * 256 + f[37] as int == own_port,
{
}

/// An untagged IPv6 frame that carries TCP is suppressed exactly where one of the
/// ports at its bytes 54 to 57 is the listen port.
pub proof fn law_plain_ipv6_ports(f: Seq<u8>, own_port: u16)
    requires
        f.len() >= 58,
        f[12] == 0x86,
        f[13] == 0xdd,
        f[20] == 6,
    ensures
        own_flow(f, own_port) <==> f[54] as int * 256 + f[55] as int == own_port || f[56] as int
            * 256 + f[57] as int == own_port,
{
}

/// A tag moves everything by four bytes and changes nothing else: a frame is
/// suppressed with a tag exactly where it is without one.
pub proof fn law_a_tag_changes_nothing(f: Seq<u8>, tag: Seq<u8>, own_port: u16)
    requires
        f.len() >= 14,
        !(f[12] == 0x81 && f[13] == 0x00),
        tag.len() == 4,
        tag[0] == 0x81,
        tag[1] == 0x00,
    ensures
        own_flow(f.take(12) + tag + f.skip(12), own_port) <==> own_flow(f, own_port),
{
    let g = f.take(12) + tag + f.skip(12);
    assert(g[12] == 0x81 && g[13] == 0x00);
    assert(forall|i: int| 12 <= i < f.len() ==> g[i + 4] == f[i]);
    law_own_flow_is_told_by_both_bytes_of_a_port(f, own_port);
    law_own_flow_is_told_by_both_bytes_of_a_port(g, own_port);
    assert(g[16] == f[12] && g[17] == f[13]);
    if f.len() > 14 {
        assert(g[18] == f[14]);
        let p4 = 14 + 4 * (f[14] as int % 16);
        if p4 + 4 <= f.len() {
            assert(g[p4 + 4] == f[p4] && g[p4 + 5] == f[p4 + 1] && g[p4 + 6] == f[p4 + 2] && g[p4
                + 7] == f[p4 + 3]);
        }
        if f.len() > 20 {
            assert(g[24] == f[20]);
        }
        if f.len() > 23 {
            assert(g[27] == f[23]);
        }
        if f.len() >= 58 {
            assert(g[58] == f[54] && g[59] == f[55] && g[60] == f[56] && g[61] == f[57]);
        }
    }
}

/// The port decides: a frame that is suppressed for one listen port is shown for
/// every port that is neither of its two.
pub proof fn law_suppression_tells_ports_apart(f: Seq<u8>, a: u16, b: u16, c: u16)
    requires
        own_flow(f, a),
        own_flow(f, b),
        own_flow(f, c),
    ensures
        a == b || b == c || a == c,
{
    law_own_flow_is_told_by_both_bytes_of_a_port(f, a);
    law_own_flow_is_told_by_both_bytes_of_a_port(f, b);
    law_own_flow_is_told_by_both_bytes_of_a_port(f, c);
}

/// A frame of the daemon's own adds one to the suppressed, any other adds one to
/// the captured, and nothing else moves.
pub proof fn law_frames_are_counted_by_kind(before: CaptureStats, f: Seq<u8>, own_port: u16)
    requires
        before.captured < u64::MAX,
        before.suppressed < u64::MAX,
    ensures
        own_flow(f, own_port) ==> counted(before, f, own_port).suppressed == before.suppressed + 1
            && counted(before, f, own_port).captured == before.captured,
        !own_flow(f, own_port) ==> counted(before, f, own_port).captured == before.captured + 1
            && counted(before, f, own_port).suppressed == before.suppressed,
        counted(before, f, own_port).dropped == before.dropped,
{
}

/// The socket's packet types, by their numbers.
pub proof fn law_directions_by_number(pkttype: u8)
    ensures
        direction(pkttype) == Direction::Broadcast <==> pkttype == 1,
        direction(pkttype) == Direction::Multicast <==> pkttype == 2,
        direction(pkttype) == Direction::Other <==> pkttype == 3,
        direction(pkttype) == Direction::Out <==> pkttype == 4,
        direction(pkttype) == Direction::In <==> pkttype == 0 || pkttype > 4,
{
}

/// A packet is the frame as it arrived: when, where, which way and how long it
/// was, and as much of it as the buffer took, byte for byte from the front.
pub proof fn law_packets_are_the_frame(p: Packet, a: Arrival, ifname: String, buf: Seq<u8>)
    requires
        packet_made(p, a, ifname, buf),
    ensures
        p.ts_sec == a.ts_sec,
        p.ts_nsec == a.ts_nsec,
        p.ifindex == a.ifindex,
        p.ifname == ifname,
        p.wire_len == a.wire_len,
        p.dir == direction(a.pkttype),
        p.data@.len() == if a.wire_len <= buf.len() {
            a.wire_len as nat
        } else {
            buf.len()
        },
        forall|i: int| 0 <= i < p.data@.len() ==> p.data@[i] == buf[i],
{
    assert(p.data@ == kept(buf, a.wire_len as nat));
}

/// The kernel's drops add up where it answered, and nothing moves where it did
/// not.
pub proof fn law_kernel_drops_add_up(before: CaptureStats, code: i32, drops: u32)
    requires
        before.dropped + drops <= u64::MAX,
    ensures
        drops_added(before, code, drops).dropped == if code == 0 {
            before.dropped + drops
        } else {
            before.dropped as int
        },
        drops_added(before, code, drops).captured == before.captured,
        drops_added(before, code, drops).suppressed == before.suppressed,
{
}

/// A frame that was received is taken with its length; a signal in between is
/// tried again at once, and any other failure after a tenth of a second.
pub proof fn law_receiving_never_ends(received: Option<usize>, interrupted: bool)
    ensures
        receive_next(received, interrupted) is Take <==> received is Some,
        received matches Some(n) ==> receive_next(received, interrupted) == ReceiveStep::Take(n),
        receive_next(received, interrupted) == ReceiveStep::Again <==> received is None
            && interrupted,
        receive_next(received, interrupted) == ReceiveStep::Pause(100) <==> received is None
            && !interrupted,
{
}

/// An interface goes by the name that the system gave, up to its zero byte; one
/// without a name goes by `if` and its index.
pub proof fn law_interfaces_go_by_their_name(ifindex: u32, name: Seq<char>, rest: Seq<u8>)
    requires
        !encode_utf8(name).contains(0u8),
    ensures
        interface_name(ifindex, Some(encode_utf8(name).push(0) + rest)) == name,
        interface_name(ifindex, Some(encode_utf8(name))) == name,
        ({
            let t = interface_name(ifindex, None);
            &&& t.len() > 2 && t[0] == 'i' && t[1] == 'f'
            &&& parse_nat(t.skip(2), u32::MAX as nat) == Some(ifindex as nat)
        }),
{
    let b = encode_utf8(name);
    law_utf8_text_reads_back(name);
    lemma_until_zero(b, rest);
    reveal_strlit("if");
    lemma_decimal_value(ifindex as nat);
    law_decimals_read_back(ifindex as nat, u32::MAX as nat);
    assert(interface_name(ifindex, None).skip(2) == decimal(ifindex as nat));
}

proof fn lemma_until_zero(b: Seq<u8>, rest: Seq<u8>)
    requires
        !b.contains(0u8),
    ensures
        until_zero(b.push(0) + rest) == b,
        until_zero(b) == b,
{
    let s = b.push(0) + rest;
    law_until_zero_stops_at_the_first(s);
    law_until_zero_stops_at_the_first(b);
    let t = until_zero(s);
    assert(s[b.len() as int] == 0);
    if t.len() < b.len() {
        assert(s[t.len() as int] == b[t.len() as int]);
        assert(b.contains(b[t.len() as int]));
    }
    assert(t.len() <= b.len());
    assert forall|i: int| 0 <= i < b.len() implies t[i] == b[i] by {
        assert(t[i] == s[i]);
    }
    assert(t == b);
    let u = until_zero(b);
    if u.len() < b.len() {
        assert(b.contains(b[u.len() as int]));
    }
    assert(u == b);
}

/// Whether a frame is shown rests on the bytes that were on the wire alone: what
/// the buffer holds behind them makes no difference.
pub proof fn law_shown_frames_by_their_own_bytes(
    frame: Seq<u8>,
    rest: Seq<u8>,
    other: Seq<u8>,
    own_port: u16,
)
    ensures
        shown_frame(frame + rest, frame.len(), own_port) <==> !own_flow(frame, own_port),
        shown_frame(frame + rest, frame.len(), own_port) == shown_frame(
            frame + other,
            frame.len(),
            own_port,
        ),
        shown_frame(frame, frame.len() + 1, own_port) <==> !own_flow(frame, own_port),
{
    assert(kept(frame + rest, frame.len()) == frame);
    assert(kept(frame + other, frame.len()) == frame);
    assert(kept(frame, frame.len() + 1) == frame);
}

/// A name that was learnt is known from then on, in the place of any other for
/// that interface, and no other interface's name changes; at first none is
/// known.
pub proof fn law_learnt_names_are_known(
    known: Map<u32, String>,
    ifindex: u32,
    name: String,
    other: u32,
)
    requires
        other != ifindex,
    ensures
        name_known(name_learnt(known, ifindex, name), ifindex) == Some(name),
        name_known(name_learnt(known, ifindex, name), other) == name_known(known, other),
        name_known(Map::empty(), ifindex) is None,
{
}

/// The counters begin at nothing: behind the first frame one of them is one, and
/// the others are zero.
pub proof fn law_counters_begin_at_nothing(f: Seq<u8>, own_port: u16)
    ensures
        ({
            let s = counted(nothing_seen(), f, own_port);
            &&& s.captured + s.suppressed == 1
            &&& s.suppressed == 1 <==> own_flow(f, own_port)
            &&& s.dropped == 0
        }),
{
}

} // verus!
