//! The packet ring: a bounded backlog plus live fan-out to stream
//! subscribers. The ring is the daemon's whole memory: when it wraps, the
//! oldest packets are gone, and the sequence numbers make the gap visible to
//! a client that asks for history it no longer has.

use crate::fanout::{
    all_delivered, delivered, found, joined, left, queue_of, taken, Fanout, QueueView, Received,
    Share, QUEUE,
};
use std::collections::VecDeque;
use std::sync::Arc;
use vstd::prelude::*;

verus! {

/// Which way a frame was going.
#[derive(Clone, Copy, PartialEq, Eq, Structural, Debug)]
pub enum Direction {
    In,
    Out,
    Broadcast,
    Multicast,
    /// Promiscuous sightings of frames addressed to someone else entirely.
    Other,
}

impl Direction {
    /// The name of a direction on the wire format.
    pub open spec fn name(self) -> Seq<char> {
        match self {
            Direction::In => "in"@,
            Direction::Out => "out"@,
            Direction::Broadcast => "bcast"@,
            Direction::Multicast => "mcast"@,
            Direction::Other => "other"@,
        }
    }

    pub fn as_str(self) -> (r: &'static str)
        ensures
            r@ == self.name(),
    {
        match self {
            Direction::In => "in",
            Direction::Out => "out",
            Direction::Broadcast => "bcast",
            Direction::Multicast => "mcast",
            Direction::Other => "other",
        }
    }
}

/// A captured frame.
pub struct Packet {
    pub seq: u64,
    pub ts_sec: i64,
    pub ts_nsec: i64,
    pub ifindex: u32,
    pub ifname: String,
    pub dir: Direction,
    /// Length on the wire; `data` may be shorter if the frame outgrew the
    /// capture buffer (offload-coalesced frames can).
    pub wire_len: usize,
    pub data: Vec<u8>,
}

/// Calls `Arc::clone`: another pointer to the same packet.
#[verifier::external_body]
fn share_packet(p: &Arc<Packet>) -> (r: Arc<Packet>)
    ensures
        r == *p,
{
    p.clone()
}

impl Share for Arc<Packet> {
    fn share(&self) -> (r: Self) {
        share_packet(self)
    }
}

/// A packet with the sequence number that the ring gave it.
pub open spec fn numbered(p: Packet, seq: u64) -> Packet {
    Packet { seq, ..p }
}

/// The backlog after one more packet: one that has no room for it loses its
/// oldest packet, which is the new one where there is no capacity at all.
pub open spec fn wrapped(held: Seq<Arc<Packet>>, capacity: nat, p: Packet) -> Seq<Arc<Packet>> {
    let all = held.push(Arc::new(p));
    if all.len() > capacity {
        all.skip(1)
    } else {
        all
    }
}

/// The packets of a run have consecutive sequence numbers, starting with
/// `first`.
pub open spec fn consecutive(items: Seq<Arc<Packet>>, first: int) -> bool {
    forall|i: int| 0 <= i < items.len() ==> (#[trigger] items[i]).seq == first + i
}

/// A subscriber's queue holds consecutive packets; while it is open they reach
/// up to the newest packet, and once it is cut off they end before it.
pub open spec fn queue_in_step(q: QueueView<Arc<Packet>>, next_seq: int) -> bool {
    &&& q.items.len() < next_seq
    &&& q.items.len() <= QUEUE
    &&& q.open ==> consecutive(q.items, next_seq - q.items.len())
    &&& !q.open ==> q.items.len() == 0 || (q.items[0].seq + q.items.len() <= next_seq
        && consecutive(q.items, q.items[0].seq as int))
}

/// Those of a sequence of packets that came after a sequence number.
pub open spec fn newer(held: Seq<Arc<Packet>>, since: u64) -> Seq<Arc<Packet>> {
    held.filter(|p: Arc<Packet>| p.seq > since)
}

/// Whether a ring is what another becomes with one more packet.
pub open spec fn pushed(before: Ring, packet: Packet, after: Ring) -> bool {
    &&& after.cap() == before.cap()
    &&& after.next() == before.next() + 1
    &&& after.held() == wrapped(before.held(), before.cap(), numbered(packet, before.next()))
    &&& after.queues() == all_delivered(
        before.queues(),
        Arc::new(numbered(packet, before.next())),
    )
}

/// Whether a ring of a capacity has taken nothing yet.
pub open spec fn fresh(r: Ring, capacity: nat) -> bool {
    &&& r.cap() == capacity
    &&& r.held() == Seq::<Arc<Packet>>::empty()
    &&& r.next() == 1
    &&& r.queues() == Seq::<Option<QueueView<Arc<Packet>>>>::empty()
}

/// The bounded backlog and its subscribers.
pub struct Ring {
    capacity: usize,
    packets: VecDeque<Arc<Packet>>,
    next_seq: u64,
    subscribers: Fanout<Arc<Packet>>,
}

impl Ring {
    /// How many packets the backlog was made to hold.
    pub closed spec fn cap(self) -> nat {
        self.capacity as nat
    }

    /// The backlog, oldest first.
    pub closed spec fn held(self) -> Seq<Arc<Packet>> {
        self.packets@
    }

    /// The sequence number of the next packet.
    pub closed spec fn next(self) -> u64 {
        self.next_seq
    }

    /// The subscribers' queues.
    pub closed spec fn queues(self) -> Seq<Option<QueueView<Arc<Packet>>>> {
        self.subscribers@
    }

    /// The backlog holds the newest packets, in sequence, and never more than
    /// its capacity; every subscriber's queue is in step with it.
    pub open spec fn wf(self) -> bool {
        &&& self.held().len() < self.next()
        &&& consecutive(self.held(), self.next() - self.held().len())
        &&& self.held().len() <= self.cap()
        &&& forall|i: int|
            0 <= i < self.queues().len() ==> (#[trigger] self.queues()[i] matches Some(q)
                ==> queue_in_step(q, self.next() as int))
    }

    /// An empty ring.
    pub fn new(capacity: usize) -> (r: Ring)
        ensures
            r.wf(),
            fresh(r, capacity as nat),
    {
        Ring { capacity, packets: VecDeque::new(), next_seq: 1, subscribers: Fanout::new() }
    }

    /// How many packets the backlog was made to hold.
    pub fn capacity(&self) -> (r: usize)
        ensures
            r == self.cap(),
    {
        self.capacity
    }

    /// The sequence number that the next packet will get.
    pub fn next_seq(&self) -> (r: u64)
        ensures
            r == self.next(),
    {
        self.next_seq
    }

    /// Takes one more packet: it gets the next sequence number, enters the
    /// backlog (where it may push the oldest packet out), and goes to every
    /// subscriber. A subscriber that cannot keep up loses its stream rather
    /// than stalling the capture: on a full queue it is cut off (it can rejoin
    /// and see the gap by sequence number).
    pub fn push(&mut self, packet: Packet)
        requires
            old(self).wf(),
            old(self).next() < u64::MAX,
        ensures
            final(self).wf(),
            pushed(*old(self), packet, *final(self)),
    {
        let mut packet = packet;
        packet.seq = self.next_seq;
        self.next_seq = self.next_seq + 1;
        let packet = Arc::new(packet);
        self.packets.push_back(share_packet(&packet));
        if self.packets.len() > self.capacity {
            let _ = self.packets.pop_front();
        }
        self.subscribers.send(&packet);
        proof {
            assert(self.held() == wrapped(old(self).held(), old(self).cap(), *packet));
            assert forall|i: int| 0 <= i < self.queues().len() implies (
            #[trigger] self.queues()[i] matches Some(q) ==> queue_in_step(
                q,
                self.next() as int,
            )) by {
                let before = old(self).queues()[i];
                if let Some(q) = before {
                    assert(queue_in_step(q, old(self).next() as int));
                    assert(self.queues()[i] == Some(delivered(q, packet)));
                }
            }
        }
    }

    /// Everything currently held with seq > since, oldest first.
    pub fn since(&self, since: u64) -> (r: Vec<Arc<Packet>>)
        ensures
            r@ == newer(self.held(), since),
    {
        let mut r: Vec<Arc<Packet>> = Vec::new();
        let ghost later = |p: Arc<Packet>| p.seq > since;
        let mut i: usize = 0;
        assert(self.packets@.take(0) == Seq::<Arc<Packet>>::empty());
        proof {
            reveal(Seq::filter);
        }
        while i < self.packets.len()
            invariant
                i <= self.packets@.len(),
                later == (|p: Arc<Packet>| p.seq > since),
                r@ == self.packets@.take(i as int).filter(later),
            decreases self.packets@.len() - i,
        {
            let p = &self.packets[i];
            proof {
                reveal(Seq::filter);
                assert(self.packets@.take(i + 1).drop_last() == self.packets@.take(i as int));
                assert(self.packets@.take(i + 1).last() == *p);
            }
            if p.seq > since {
                r.push(share_packet(p));
            }
            i += 1;
        }
        assert(self.packets@.take(i as int) == self.packets@);
        r
    }

    /// Joins the live stream; the new subscriber gets every packet from the
    /// next one on.
    pub fn subscribe(&mut self) -> (id: usize)
        requires
            old(self).wf(),
        ensures
            final(self).wf(),
            final(self).cap() == old(self).cap(),
            final(self).held() == old(self).held(),
            final(self).next() == old(self).next(),
            queue_of(old(self).queues(), id as int) is None,
            id <= old(self).queues().len(),
            final(self).queues() == joined(old(self).queues(), id as int),
    {
        let id = self.subscribers.subscribe();
        assert forall|i: int| 0 <= i < self.queues().len() implies (
        #[trigger] self.queues()[i] matches Some(q) ==> queue_in_step(
            q,
            self.next() as int,
        )) by {
            if i != id {
                assert(self.queues()[i] == old(self).queues()[i]);
            }
        }
        id
    }

    /// Takes the oldest packet that waits for a subscriber. A live subscriber
    /// gets every packet since it joined, in sequence and without a gap.
    pub fn recv(&mut self, id: usize) -> (r: Received<Arc<Packet>>)
        requires
            old(self).wf(),
        ensures
            final(self).wf(),
            final(self).cap() == old(self).cap(),
            final(self).held() == old(self).held(),
            final(self).next() == old(self).next(),
            r == found(old(self).queues(), id as int),
            final(self).queues() == taken(old(self).queues(), id as int),
            queue_of(old(self).queues(), id as int) matches Some(q) ==> q.open && q.items.len() > 0
                ==> q.items[0].seq == old(self).next() - q.items.len(),
    {
        let r = self.subscribers.receive(id);
        assert forall|i: int| 0 <= i < self.queues().len() implies (
        #[trigger] self.queues()[i] matches Some(q) ==> queue_in_step(
            q,
            self.next() as int,
        )) by {
            assert(old(self).queues()[i] matches Some(q) ==> queue_in_step(q, self.next() as int));
            if i == id && self.queues()[i] != old(self).queues()[i] {
                let q = old(self).queues()[i]->0;
                let rest = q.items.skip(1);
                assert forall|k: int| 0 <= k < rest.len() implies (#[trigger] rest[k]).seq
                    == q.items[0].seq + 1 + k by {
                    assert(rest[k] == q.items[k + 1]);
                }
            }
        }
        r
    }

    /// Leaves the live stream.
    pub fn unsubscribe(&mut self, id: usize)
        requires
            old(self).wf(),
        ensures
            final(self).wf(),
            final(self).cap() == old(self).cap(),
            final(self).held() == old(self).held(),
            final(self).next() == old(self).next(),
            final(self).queues() == left(old(self).queues(), id as int),
    {
        self.subscribers.unsubscribe(id);
        assert forall|i: int| 0 <= i < self.queues().len() implies (
        #[trigger] self.queues()[i] matches Some(q) ==> queue_in_step(
            q,
            self.next() as int,
        )) by {
            if i != id {
                assert(self.queues()[i] == old(self).queues()[i]);
            }
        }
    }
}

/// The backlog of a ring that took a run of packets since it was made.
pub open spec fn backlog(capacity: nat, packets: Seq<Packet>) -> Seq<Arc<Packet>>
    decreases packets.len(),
{
    if packets.len() == 0 {
        seq![]
    } else {
        wrapped(
            backlog(capacity, packets.drop_last()),
            capacity,
            numbered(packets.last(), packets.len() as u64),
        )
    }
}

/// Of all the packets that a ring took it holds the newest ones, as many as its
/// capacity allows, under the numbers they came in with.
pub proof fn law_ring_keeps_the_newest(capacity: nat, packets: Seq<Packet>)
    ensures
        ({
            let all = Seq::new(
                packets.len(),
                |i: int| Arc::new(numbered(packets[i], (i + 1) as u64)),
            );
            backlog(capacity, packets) == if packets.len() <= capacity {
                all
            } else {
                all.skip(packets.len() - capacity)
            }
        }),
    decreases packets.len(),
{
    let all = Seq::new(packets.len(), |i: int| Arc::new(numbered(packets[i], (i + 1) as u64)));
    if packets.len() > 0 {
        let before = packets.drop_last();
        law_ring_keeps_the_newest(capacity, before);
        let all_before = Seq::new(
            before.len(),
            |i: int| Arc::new(numbered(before[i], (i + 1) as u64)),
        );
        assert(all == all_before.push(
            Arc::new(numbered(packets.last(), packets.len() as u64)),
        ));
        if packets.len() > capacity {
            assert(backlog(capacity, packets) == all.skip(packets.len() - capacity));
        }
    } else {
        assert(all == Seq::<Arc<Packet>>::empty());
    }
}

/// Where, in a run of consecutive packets, those newer than `since` start.
pub open spec fn tail_start(first: int, len: int, since: int) -> int {
    if since < first {
        0
    } else if since >= first + len {
        len
    } else {
        since - first + 1
    }
}

proof fn lemma_newer_is_tail(items: Seq<Arc<Packet>>, first: int, since: u64)
    requires
        consecutive(items, first),
    ensures
        newer(items, since) == items.skip(
            tail_start(first, items.len() as int, since as int),
        ),
    decreases items.len(),
{
    reveal(Seq::filter);
    let later = |p: Arc<Packet>| p.seq > since;
    if items.len() > 0 {
        let rest = items.drop_last();
        assert forall|i: int| 0 <= i < rest.len() implies (#[trigger] rest[i]).seq == first + i by {
            assert(rest[i] == items[i]);
        }
        lemma_newer_is_tail(rest, first, since);
        let from = tail_start(first, rest.len() as int, since as int);
        assert(items[items.len() - 1].seq == first + items.len() - 1);
        if items.last().seq > since {
            assert(items.filter(later) == rest.skip(from).push(items.last()));
            assert(rest.skip(from).push(items.last()) == items.skip(from));
        } else {
            assert(rest.skip(from) == items.skip(items.len() as int));
        }
    } else {
        assert(items.filter(later) == items.skip(0));
    }
}

/// A client that asks for what came after `since` gets an unbroken tail of the
/// backlog, up to the newest packet; where the packet after `since` has fallen
/// off, the first sequence number of the answer shows the gap.
pub proof fn law_since_shows_the_gap(r: Ring, since: u64)
    requires
        r.wf(),
    ensures
        ({
            let answer = newer(r.held(), since);
            let first = r.next() - r.held().len();
            &&& answer == r.held().skip(tail_start(first, r.held().len() as int, since as int))
            &&& answer.len() == if since + 1 < first {
                r.held().len() as int
            } else if since < r.next() {
                r.next() - 1 - since
            } else {
                0
            }
            &&& answer.len() > 0 ==> answer[0].seq == if since + 1 >= first {
                since + 1
            } else {
                first
            }
            &&& answer.len() > 0 ==> answer.last().seq == r.next() - 1
        }),
{
    let first = r.next() - r.held().len();
    lemma_newer_is_tail(r.held(), first, since);
    let answer = r.held().skip(tail_start(first, r.held().len() as int, since as int));
    if answer.len() > 0 {
        assert(answer[0] == r.held()[r.held().len() - answer.len()]);
        assert(answer.last() == r.held()[r.held().len() - 1]);
    }
}

/// The sequence number of the packet that a live subscriber gets next.
pub open spec fn position(q: QueueView<Arc<Packet>>, next_seq: int) -> int {
    next_seq - q.items.len()
}

/// A live subscriber never misses a packet: what it gets next stays the same
/// packet while others come in, and only taking a packet moves it on, by one.
pub proof fn law_live_subscriber_sees_no_gap(
    q: QueueView<Arc<Packet>>,
    next_seq: u64,
    packet: Packet,
)
    requires
        q.open,
        queue_in_step(q, next_seq as int),
        next_seq < u64::MAX,
    ensures
        ({
            let sent = delivered(q, Arc::new(numbered(packet, next_seq)));
            sent.open ==> position(sent, next_seq + 1) == position(q, next_seq as int)
                && queue_in_step(sent, next_seq + 1)
        }),
        q.items.len() > 0 ==> q.items[0].seq == position(q, next_seq as int) && position(
            QueueView { items: q.items.skip(1), open: true },
            next_seq as int,
        ) == position(q, next_seq as int) + 1,
{
}

/// A subscriber is cut off by exactly the packets for which its queue has no
/// room.
pub proof fn law_slow_subscriber_is_cut(q: QueueView<Arc<Packet>>, packet: Arc<Packet>)
    requires
        q.open,
    ensures
        !delivered(q, packet).open <==> q.items.len() >= QUEUE,
        !delivered(q, packet).open ==> delivered(q, packet).items == q.items,
{
}

} // verus!
