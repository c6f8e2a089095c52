//! Live fan-out: one bounded queue for each stream subscriber.

use std::collections::VecDeque;
use vstd::prelude::*;

verus! {

/// How many items wait for a subscriber before its queue is full.
pub const QUEUE: usize = 1024;

/// Items that are handed to several subscribers, each with its own equal copy.
pub trait Share: Sized {
    fn share(&self) -> (r: Self)
        ensures
            r == *self,
    ;
}

/// What a subscriber's queue holds, and whether more will come.
#[verifier::ext_equal]
pub struct QueueView<T> {
    pub items: Seq<T>,
    pub open: bool,
}

struct Queue<T> {
    items: VecDeque<T>,
    open: bool,
}

impl<T> Queue<T> {
    spec fn model(self) -> QueueView<T> {
        QueueView { items: self.items@, open: self.open }
    }
}

/// What a subscriber finds in its queue.
pub enum Received<T> {
    Item(T),
    /// Nothing yet.
    Empty,
    /// Nothing, and nothing more will come.
    Disconnected,
}

/// A queue after one item was sent: the item waits at its end where there is
/// room. Where there is none the subscriber is cut off: its queue gets no item
/// any more.
pub open spec fn delivered<T>(q: QueueView<T>, item: T) -> QueueView<T> {
    if !q.open {
        q
    } else if q.items.len() < QUEUE {
        QueueView { items: q.items.push(item), open: true }
    } else {
        QueueView { items: q.items, open: false }
    }
}

/// Every subscriber's queue after one item was sent.
pub open spec fn all_delivered<T>(
    qs: Seq<Option<QueueView<T>>>,
    item: T,
) -> Seq<Option<QueueView<T>>> {
    qs.map_values(
        |q: Option<QueueView<T>>|
            match q {
                Some(q) => Some(delivered(q, item)),
                None => None,
            },
    )
}

/// A queue after a run of items was sent.
pub open spec fn delivered_run<T>(q: QueueView<T>, items: Seq<T>) -> QueueView<T>
    decreases items.len(),
{
    if items.len() == 0 {
        q
    } else {
        delivered(delivered_run(q, items.drop_last()), items.last())
    }
}

/// The subscribers of a stream: one slot each, free once a subscriber has left.
pub struct Fanout<T> {
    slots: Vec<Option<Queue<T>>>,
}

impl<T> View for Fanout<T> {
    type V = Seq<Option<QueueView<T>>>;

    closed spec fn view(&self) -> Seq<Option<QueueView<T>>> {
        self.slots@.map_values(
            |s: Option<Queue<T>>|
                match s {
                    Some(q) => Some(q.model()),
                    None => None,
                },
        )
    }
}

/// The queue of a subscriber, if it has one.
pub open spec fn queue_of<T>(qs: Seq<Option<QueueView<T>>>, id: int) -> Option<QueueView<T>> {
    if 0 <= id < qs.len() {
        qs[id]
    } else {
        None
    }
}

/// What a subscriber finds: the oldest item that waits for it.
pub open spec fn found<T>(qs: Seq<Option<QueueView<T>>>, id: int) -> Received<T> {
    match queue_of(qs, id) {
        Some(q) => if q.items.len() > 0 {
            Received::Item(q.items[0])
        } else if q.open {
            Received::Empty
        } else {
            Received::Disconnected
        },
        None => Received::Disconnected,
    }
}

/// The queues once a subscriber took what it found.
pub open spec fn taken<T>(qs: Seq<Option<QueueView<T>>>, id: int) -> Seq<Option<QueueView<T>>> {
    match queue_of(qs, id) {
        Some(q) => if q.items.len() > 0 {
            qs.update(id, Some(QueueView { items: q.items.skip(1), open: q.open }))
        } else {
            qs
        },
        None => qs,
    }
}

/// The queues once a new subscriber joined under an id.
pub open spec fn joined<T>(qs: Seq<Option<QueueView<T>>>, id: int) -> Seq<Option<QueueView<T>>> {
    let queue = Some(QueueView { items: Seq::empty(), open: true });
    if id < qs.len() {
        qs.update(id, queue)
    } else {
        qs.push(queue)
    }
}

/// The queues once a subscriber left.
pub open spec fn left<T>(qs: Seq<Option<QueueView<T>>>, id: int) -> Seq<Option<QueueView<T>>> {
    if id < qs.len() {
        qs.update(id, None)
    } else {
        qs
    }
}

impl<T: Share> Fanout<T> {
    /// No subscribers.
    pub fn new() -> (r: Self)
        ensures
            r@ == Seq::<Option<QueueView<T>>>::empty(),
    {
        let r = Fanout { slots: Vec::new() };
        assert(r@ == Seq::<Option<QueueView<T>>>::empty());
        r
    }

    /// Takes a free slot for a new subscriber, whose queue is empty.
    pub fn subscribe(&mut self) -> (id: usize)
        ensures
            id <= old(self)@.len(),
            queue_of(old(self)@, id as int) is None,
            final(self)@ == joined(old(self)@, id as int),
    {
        let mut id: usize = 0;
        while id < self.slots.len() && self.slots[id].is_some()
            invariant
                id <= self.slots@.len(),
                *self == *old(self),
            decreases self.slots@.len() - id,
        {
            id += 1;
        }
        let queue = Some(Queue { items: VecDeque::new(), open: true });
        if id < self.slots.len() {
            self.slots[id] = queue;
        } else {
            self.slots.push(queue);
        }
        assert(self@ == joined(old(self)@, id as int));
        id
    }

    /// Sends one item to every subscriber.
    pub fn send(&mut self, item: &T)
        ensures
            final(self)@ == all_delivered(old(self)@, *item),
    {
        let ghost before = self@;
        let mut i: usize = 0;
        while i < self.slots.len()
            invariant
                before == old(self)@,
                self@.len() == before.len(),
                self.slots@.len() == before.len(),
                i <= before.len(),
                forall|k: int|
                    0 <= k < i ==> #[trigger] self@[k] == all_delivered(before, *item)[k],
                forall|k: int| i <= k < before.len() ==> #[trigger] self@[k] == before[k],
            decreases before.len() - i,
        {
            let ghost slots = self.slots@;
            let ghost now = self@;
            assert(now[i as int] == before[i as int]);
            if let Some(q) = &mut self.slots[i] {
                if q.open {
                    if q.items.len() < QUEUE {
                        q.items.push_back(item.share());
                    } else {
                        q.open = false;
                    }
                }
            }
            assert(self@[i as int] == all_delivered(before, *item)[i as int]);
            assert forall|k: int| 0 <= k < before.len() && k != i implies #[trigger] self@[k]
                == now[k] by {
                assert(self.slots@[k] == slots[k]);
            }
            i += 1;
        }
        assert(self@ == all_delivered(before, *item));
    }
}

impl<T: Share> Fanout<T> {
    /// Takes the oldest item that waits for a subscriber.
    pub fn receive(&mut self, id: usize) -> (r: Received<T>)
        ensures
            r == found(old(self)@, id as int),
            final(self)@ == taken(old(self)@, id as int),
    {
        if id >= self.slots.len() {
            return Received::Disconnected;
        }
        let ghost slots = self.slots@;
        let mut r = Received::Disconnected;
        if let Some(q) = &mut self.slots[id] {
            let ghost items = q.items@;
            match q.items.pop_front() {
                Some(item) => {
                    assert(q.items@ == items.skip(1));
                    r = Received::Item(item);
                },
                None => {
                    if q.open {
                        r = Received::Empty;
                    }
                },
            }
        }
        assert forall|k: int| 0 <= k < slots.len() && k != id implies #[trigger] self@[k] == old(
            self,
        )@[k] by {
            assert(self.slots@[k] == slots[k]);
        }
        proof {
            assert(old(self)@[id as int] == queue_of(old(self)@, id as int));
            match queue_of(old(self)@, id as int) {
                Some(q) => if q.items.len() > 0 {
                    assert(self@ == old(self)@.update(
                        id as int,
                        Some(QueueView { items: q.items.skip(1), open: q.open }),
                    ));
                } else {
                    assert(self@ == old(self)@);
                },
                None => {
                    assert(self@ == old(self)@);
                },
            }
        }
        r
    }

    /// Frees a subscriber's slot; what still waits for it is gone.
    pub fn unsubscribe(&mut self, id: usize)
        ensures
            final(self)@ == left(old(self)@, id as int),
    {
        if id < self.slots.len() {
            self.slots[id] = None;
            assert(self@ == old(self)@.update(id as int, None));
        }
    }
}

/// A subscriber with room for a run of items gets every one of them, in the
/// order in which they were sent.
pub proof fn law_live_run_arrives_whole<T>(q: QueueView<T>, items: Seq<T>)
    requires
        q.open,
        q.items.len() + items.len() <= QUEUE,
    ensures
        delivered_run(q, items) == (QueueView { items: q.items + items, open: true }),
    decreases items.len(),
{
    if items.len() > 0 {
        law_live_run_arrives_whole(q, items.drop_last());
        assert((q.items + items.drop_last()).push(items.last()) == q.items + items);
    } else {
        assert(q.items + items == q.items);
    }
}

/// A subscriber that was cut off keeps what it had and gets nothing more.
pub proof fn law_cut_off_for_good<T>(q: QueueView<T>, items: Seq<T>)
    requires
        !q.open,
    ensures
        delivered_run(q, items) == q,
    decreases items.len(),
{
    if items.len() > 0 {
        law_cut_off_for_good(q, items.drop_last());
    }
}

/// No queue outgrows its bound, whatever is sent.
pub proof fn law_queues_bounded<T>(q: QueueView<T>, items: Seq<T>)
    requires
        q.items.len() <= QUEUE,
    ensures
        delivered_run(q, items).items.len() <= QUEUE,
    decreases items.len(),
{
    if items.len() > 0 {
        law_queues_bounded(q, items.drop_last());
    }
}

} // verus!
