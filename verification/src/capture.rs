//! The wire tap: what becomes of each frame that a packet socket hands over.
//! Purely observational; a packet socket is a kernel tap that clones frames
//! and cannot delay or drop the traffic itself.
//!
//! Placement honesty (surfaced in the viewer's docs): inbound frames are
//! copied before the IP stack or any filtering sees them, outbound frames as
//! they are handed to the driver. Outbound frames may therefore show unfilled
//! checksums (hardware fills them later) and offload-coalesced sizes larger
//! than any single wire frame. That is the tap telling the truth about where
//! it stands, not corruption.

use crate::bytes::{be16, find_zero, read_be16, until_zero};
use crate::ring::{pushed, Direction, Packet, Ring};
use crate::text::{bytes_text, decimal, push_decimal, text_from};
use std::collections::HashMap;
use vstd::prelude::*;
use vstd::slice::{slice_subrange, slice_to_vec};
use vstd::string::StringExecFns;

verus! {

pub const PACKET_BROADCAST: u8 = 1;

pub const PACKET_MULTICAST: u8 = 2;

pub const PACKET_OTHERHOST: u8 = 3;

pub const PACKET_OUTGOING: u8 = 4;

/// Counters the capture publishes for the status endpoint. `dropped` is the
/// kernel's own tally of frames it could not fit in the socket buffer: the
/// tap confesses its gaps rather than papering over them. `suppressed` counts
/// the daemon's own HTTP traffic, kept out of the ring to break the feedback
/// loop (serving a packet event generates packets, which would generate
/// events, which would generate packets...). Suppressed frames are counted,
/// never silently vanished.
#[derive(Clone, Copy, Debug)]
pub struct CaptureStats {
    pub captured: u64,
    pub dropped: u64,
    pub suppressed: u64,
}

/// The counters after one frame came off the wire.
pub open spec fn counted(stats: CaptureStats, frame: Seq<u8>, own_port: u16) -> CaptureStats {
    if own_flow(frame, own_port) {
        CaptureStats { suppressed: stats.suppressed.wrapping_add(1), ..stats }
    } else {
        CaptureStats { captured: stats.captured.wrapping_add(1), ..stats }
    }
}

/// The counters before the first frame.
pub open spec fn nothing_seen() -> CaptureStats {
    CaptureStats { captured: 0, dropped: 0, suppressed: 0 }
}

/// The counters after the kernel's reply to a statistics query.
pub open spec fn drops_added(stats: CaptureStats, code: i32, drops: u32) -> CaptureStats {
    if code == 0 {
        CaptureStats { dropped: stats.dropped.wrapping_add(drops as u64), ..stats }
    } else {
        stats
    }
}

impl CaptureStats {
    /// Nothing seen yet.
    pub fn new() -> (r: CaptureStats)
        ensures
            r == nothing_seen(),
    {
        CaptureStats { captured: 0, dropped: 0, suppressed: 0 }
    }

    /// Takes one frame that came off the wire: tells whether it goes into the
    /// ring, and counts it either way.
    pub fn count_frame(&mut self, frame: &[u8], own_port: u16) -> (keep: bool)
        ensures
            keep == !own_flow(frame@, own_port),
            *final(self) == counted(*old(self), frame@, own_port),
    {
        if is_own_flow(frame, own_port) {
            self.suppressed = self.suppressed.wrapping_add(1);
            false
        } else {
            self.captured = self.captured.wrapping_add(1);
            true
        }
    }

    /// Takes the kernel's reply to a statistics query: its return code and the
    /// drops since the query before (reading them resets them, so they add up
    /// here).
    pub fn harvest_kernel_drops(&mut self, code: i32, drops: u32)
        ensures
            *final(self) == drops_added(*old(self), code, drops),
    {
        if code == 0 {
            self.dropped = self.dropped.wrapping_add(drops as u64);
        }
    }
}

/// The direction that a packet socket reports for a frame.
pub open spec fn direction(pkttype: u8) -> Direction {
    if pkttype == PACKET_OUTGOING {
        Direction::Out
    } else if pkttype == PACKET_BROADCAST {
        Direction::Broadcast
    } else if pkttype == PACKET_MULTICAST {
        Direction::Multicast
    } else if pkttype == PACKET_OTHERHOST {
        Direction::Other
    } else {
        Direction::In
    }
}

/// The direction that a packet socket reports for a frame.
pub fn direction_of(pkttype: u8) -> (r: Direction)
    ensures
        r == direction(pkttype),
{
    if pkttype == PACKET_OUTGOING {
        Direction::Out
    } else if pkttype == PACKET_BROADCAST {
        Direction::Broadcast
    } else if pkttype == PACKET_MULTICAST {
        Direction::Multicast
    } else if pkttype == PACKET_OTHERHOST {
        Direction::Other
    } else {
        Direction::In
    }
}

/// What the socket and the clock say of a frame besides its bytes.
pub struct Arrival {
    pub ts_sec: i64,
    pub ts_nsec: i64,
    pub ifindex: u32,
    pub pkttype: u8,
    /// Length on the wire, which may be more than the buffer took.
    pub wire_len: usize,
}

/// The bytes of a frame that the receive buffer holds: all of them, or as many
/// as the buffer is long.
pub open spec fn kept(buf: Seq<u8>, wire_len: nat) -> Seq<u8> {
    if wire_len < buf.len() {
        buf.take(wire_len as int)
    } else {
        buf
    }
}

/// The part of the receive buffer that a frame fills.
pub fn frame_of(buf: &[u8], wire_len: usize) -> (r: &[u8])
    ensures
        r@ == kept(buf@, wire_len as nat),
{
    let n: usize = if wire_len < buf.len() {
        wire_len
    } else {
        buf.len()
    };
    let r = slice_subrange(buf, 0, n);
    assert(r@ == kept(buf@, wire_len as nat));
    r
}

/// Whether a packet is what a frame becomes, before the ring numbers it.
pub open spec fn packet_made(p: Packet, arrival: Arrival, ifname: String, buf: Seq<u8>) -> bool {
    &&& p.seq == 0
    &&& p.ts_sec == arrival.ts_sec
    &&& p.ts_nsec == arrival.ts_nsec
    &&& p.ifindex == arrival.ifindex
    &&& p.ifname == ifname
    &&& p.dir == direction(arrival.pkttype)
    &&& p.wire_len == arrival.wire_len
    &&& p.data@ == kept(buf, arrival.wire_len as nat)
}

/// The packet that a frame becomes, before the ring numbers it.
pub fn packet_of(arrival: &Arrival, ifname: String, buf: &[u8]) -> (r: Packet)
    ensures
        packet_made(r, *arrival, ifname, buf@),
{
    Packet {
        seq: 0,
        ts_sec: arrival.ts_sec,
        ts_nsec: arrival.ts_nsec,
        ifindex: arrival.ifindex,
        ifname,
        dir: direction_of(arrival.pkttype),
        wire_len: arrival.wire_len,
        data: slice_to_vec(frame_of(buf, arrival.wire_len)),
    }
}

/// What to do after an attempt to receive a frame.
#[derive(Clone, Copy, PartialEq, Eq, Structural, Debug)]
pub enum ReceiveStep {
    /// Try again at once.
    Again,
    /// Report the failure, wait this many milliseconds, and try again.
    Pause(u64),
    /// Take the frame, which was this long on the wire.
    Take(usize),
}

/// What to do after an attempt to receive a frame.
pub open spec fn receive_next(received: Option<usize>, interrupted: bool) -> ReceiveStep {
    match received {
        Some(wire_len) => ReceiveStep::Take(wire_len),
        None => if interrupted {
            ReceiveStep::Again
        } else {
            ReceiveStep::Pause(100)
        },
    }
}

/// What to do after an attempt to receive a frame: a signal in between is
/// nothing to report, and no failure ends the tap.
pub fn after_receive(received: Option<usize>, interrupted: bool) -> (r: ReceiveStep)
    ensures
        r == receive_next(received, interrupted),
{
    match received {
        Some(wire_len) => ReceiveStep::Take(wire_len),
        None => if interrupted {
            ReceiveStep::Again
        } else {
            ReceiveStep::Pause(100)
        },
    }
}

/// Whether a frame goes into the ring, from what the receive buffer holds of it.
pub open spec fn shown_frame(buf: Seq<u8>, wire_len: nat, own_port: u16) -> bool {
    !own_flow(kept(buf, wire_len), own_port)
}

/// Takes one frame: it is counted, and goes into the ring unless it belongs to
/// the daemon's own flow.
pub fn take_frame(
    stats: &mut CaptureStats,
    ring: &mut Ring,
    own_port: u16,
    arrival: &Arrival,
    ifname: String,
    buf: &[u8],
) -> (keep: bool)
    requires
        old(ring).wf(),
        old(ring).next() < u64::MAX,
    ensures
        final(ring).wf(),
        keep == shown_frame(buf@, arrival.wire_len as nat, own_port),
        *final(stats) == counted(*old(stats), kept(buf@, arrival.wire_len as nat), own_port),
        !keep ==> *final(ring) == *old(ring),
        keep ==> exists|p: Packet| #[trigger]
            packet_made(p, *arrival, ifname, buf@) && pushed(*old(ring), p, *final(ring)),
{
    if !stats.count_frame(frame_of(buf, arrival.wire_len), own_port) {
        return false;
    }
    let packet = packet_of(arrival, ifname, buf);
    let ghost p = packet;
    ring.push(packet);
    assert(packet_made(p, *arrival, ifname, buf@) && pushed(*old(ring), p, *ring));
    true
}

/// The counter of captured frames is the number of packets that the ring took,
/// as long as both began together.
pub proof fn law_captured_frames_are_in_the_ring(
    stats: CaptureStats,
    frame: Seq<u8>,
    own_port: u16,
    before: Ring,
    packet: Packet,
    after: Ring,
)
    requires
        before.next() - 1 == stats.captured,
        before.next() < u64::MAX,
        if own_flow(frame, own_port) {
            after == before
        } else {
            pushed(before, packet, after)
        },
    ensures
        after.next() - 1 == counted(stats, frame, own_port).captured,
{
}

// ---------------------------------------------------------------------------
// Interface names
// ---------------------------------------------------------------------------
/// The name of an interface, from what the system answered for its index: a
/// zero-terminated name, or nothing.
pub open spec fn interface_name(ifindex: u32, found: Option<Seq<u8>>) -> Seq<char> {
    match found {
        Some(buf) => bytes_text(until_zero(buf)),
        None => "if"@ + decimal(ifindex as nat),
    }
}

/// The name of an interface among those learnt, if it is.
pub open spec fn name_known(known: Map<u32, String>, ifindex: u32) -> Option<String> {
    if known.contains_key(ifindex) {
        Some(known[ifindex])
    } else {
        None
    }
}

/// The names learnt once one more was.
pub open spec fn name_learnt(
    known: Map<u32, String>,
    ifindex: u32,
    name: String,
) -> Map<u32, String> {
    known.insert(ifindex, name)
}

/// The tap's memory of interface names, and the port whose traffic is its own.
pub struct Capture {
    /// The daemon's own TCP listen port; frames of that flow are suppressed.
    pub own_port: u16,
    pub names: HashMap<u32, String>,
}

impl Capture {
    /// The names learnt so far.
    pub open spec fn known(self) -> Map<u32, String> {
        self.names@
    }

    /// A tap that knows no interface yet.
    pub fn open(own_port: u16) -> (r: Capture)
        ensures
            r.own_port == own_port,
            r.known() == Map::<u32, String>::empty(),
    {
        Capture { own_port, names: HashMap::new() }
    }

    /// The name of an interface, if it was learnt before.
    pub fn name_of(&self, ifindex: u32) -> (r: Option<String>)
        ensures
            r == name_known(self.known(), ifindex),
    {
        broadcast use vstd::std_specs::hash::group_hash_axioms;

        match self.names.get(&ifindex) {
            Some(name) => Some(name.clone()),
            None => None,
        }
    }

    /// Learns the name of an interface from what the system answered for its
    /// index.
    pub fn learn_name(&mut self, ifindex: u32, found: Option<&[u8]>) -> (r: String)
        ensures
            r@ == interface_name(
                ifindex,
                match found {
                    Some(buf) => Some(buf@),
                    None => None,
                },
            ),
            final(self).own_port == old(self).own_port,
            final(self).known() == name_learnt(old(self).known(), ifindex, r),
    {
        broadcast use vstd::std_specs::hash::group_hash_axioms;

        let name = match found {
            Some(buf) => {
                let end = find_zero(buf);
                text_from(slice_subrange(buf, 0, end))
            },
            None => {
                let mut s = String::new();
                s.append("if");
                push_decimal(&mut s, ifindex as u128);
                s
            },
        };
        let _ = self.names.insert(ifindex, name.clone());
        name
    }
}

// ---------------------------------------------------------------------------
// The daemon's own flow
// ---------------------------------------------------------------------------
/// The type of what a frame carries, and where that starts: behind the
/// Ethernet header, or behind one VLAN tag.
pub open spec fn payload(frame: Seq<u8>) -> Option<(nat, int)> {
    if frame.len() < 14 {
        None
    } else if be16(frame, 12) != 0x8100 {
        Some((be16(frame, 12), 14))
    } else if frame.len() < 18 {
        None
    } else {
        Some((be16(frame, 16), 18))
    }
}

/// Where the TCP header of a frame starts, if it carries TCP: behind an IPv4
/// header of the length that it gives, or behind a plain IPv6 header.
pub open spec fn tcp_at(frame: Seq<u8>) -> Option<int> {
    match payload(frame) {
        Some((ethertype, off)) => if ethertype == 0x0800 {
            if off + 9 < frame.len() && frame[off + 9] == 6 {
                Some(off + (frame[off] as int % 16) * 4)
            } else {
                None
            }
        } else if ethertype == 0x86dd {
            if off + 6 < frame.len() && frame[off + 6] == 6 {
                Some(off + 40)
            } else {
                None
            }
        } else {
            None
        },
        None => None,
    }
}

/// Whether a frame is TCP with a given port on either end.
pub open spec fn own_flow(frame: Seq<u8>, own_port: u16) -> bool {
    match tcp_at(frame) {
        Some(l4) => l4 + 4 <= frame.len() && (be16(frame, l4) == own_port || be16(frame, l4 + 2)
            == own_port),
        None => false,
    }
}

/// Whether a frame belongs to the daemon's own HTTP flow: TCP with our listen
/// port on either end. Deliberately minimal: plain IPv4/IPv6 with no extension
/// headers, which is all our own server traffic ever is.
pub fn is_own_flow(frame: &[u8], own_port: u16) -> (r: bool)
    ensures
        r == own_flow(frame@, own_port),
{
    if frame.len() < 14 {
        return false;
    }
    let mut ethertype: u16 = read_be16(frame, 12);
    let mut off: usize = 14;
    if ethertype == 0x8100 {
        // One VLAN tag: real ethertype 4 bytes later.
        if frame.len() < 18 {
            return false;
        }
        ethertype = read_be16(frame, 16);
        off = 18;
    }
    let l4: usize = if ethertype == 0x0800 {
        // IPv4: protocol at +9, header length from IHL.
        if off + 9 >= frame.len() || frame[off + 9] != 6 {
            return false;
        }
        off + (frame[off] % 16) as usize * 4
    } else if ethertype == 0x86dd {
        // IPv6: next header at +6; no extension-header walk needed for our
        // own plain TCP.
        if off + 6 >= frame.len() || frame[off + 6] != 6 {
            return false;
        }
        off + 40
    } else {
        return false;
    };
    if l4 + 4 > frame.len() {
        return false;
    }
    read_be16(frame, l4) == own_port || read_be16(frame, l4 + 2) == own_port
}

/// A frame that does not carry TCP is never suppressed, whatever the port.
pub proof fn law_only_tcp_is_suppressed(frame: Seq<u8>, own_port: u16)
    requires
        tcp_at(frame) is None,
    ensures
        !own_flow(frame, own_port),
{
}

/// Every frame moves exactly one of the two frame counters, and the kernel's
/// drops stay apart from both.
pub proof fn law_every_frame_is_counted(before: CaptureStats, frame: Seq<u8>, own_port: u16)
    requires
        before.captured < u64::MAX,
        before.suppressed < u64::MAX,
    ensures
        ({
            let after = counted(before, frame, own_port);
            &&& after.captured + after.suppressed == before.captured + before.suppressed + 1
            &&& after.dropped == before.dropped
        }),
{
}

} // verus!
