//! The queues of the broker: one pair of queues for each client.

use crate::message::{Message, MessageView};
use std::collections::{BTreeMap, VecDeque};
use vstd::prelude::*;

verus! {

/// A first-in first-out queue of messages.
#[derive(Debug)]
pub struct MessageQueue {
    messages: VecDeque<Message>,
}

impl View for MessageQueue {
    type V = Seq<MessageView>;

    closed spec fn view(&self) -> Seq<MessageView> {
        self.messages@.map_values(|m: Message| m@)
    }
}

/// The position of the first message numbered `id`, or the length of the queue
/// where there is none.
pub open spec fn position_of(messages: Seq<MessageView>, id: u32) -> int
    decreases messages.len(),
{
    if messages.len() == 0 || messages[0].header.id == id {
        0
    } else {
        1 + position_of(messages.drop_first(), id)
    }
}

/// `position_of` is the least position at which the number occurs.
pub proof fn position_is_first(messages: Seq<MessageView>, id: u32)
    ensures
        0 <= position_of(messages, id) <= messages.len(),
        forall|i: int|
            0 <= i < position_of(messages, id) ==> (#[trigger] messages[i]).header.id != id,
        position_of(messages, id) < messages.len() ==> messages[position_of(
            messages,
            id,
        )].header.id == id,
    decreases messages.len(),
{
    if messages.len() > 0 && messages[0].header.id != id {
        let rest = messages.drop_first();
        position_is_first(rest, id);
        assert forall|i: int| 0 <= i < position_of(messages, id) implies (
        #[trigger] messages[i]).header.id != id by {
            if i > 0 {
                assert(rest[i - 1] == messages[i]);
            }
        }
    }
}

/// The position is fixed by being first.
proof fn position_is_unique(messages: Seq<MessageView>, id: u32, at: int)
    requires
        0 <= at <= messages.len(),
        forall|i: int| 0 <= i < at ==> (#[trigger] messages[i]).header.id != id,
        at < messages.len() ==> messages[at].header.id == id,
    ensures
        position_of(messages, id) == at,
{
    position_is_first(messages, id);
    let p = position_of(messages, id);
    if p < at {
        assert(messages[p].header.id != id);
    } else if at < p {
        assert(messages[at].header.id != id);
    }
}

impl MessageQueue {
    /// An empty queue.
    pub fn new() -> (queue: Self)
        ensures
            queue@ == Seq::<MessageView>::empty(),
    {
        let queue = MessageQueue { messages: VecDeque::new() };
        assert(queue@ =~= Seq::<MessageView>::empty());
        queue
    }

    /// Whether the queue holds no message.
    pub fn is_empty(&self) -> (empty: bool)
        ensures
            empty == (self@.len() == 0),
    {
        self.messages.len() == 0
    }

    /// Puts a message at the end.
    pub fn enqueue(&mut self, message: Message)
        ensures
            final(self)@ == old(self)@.push(message@),
    {
        self.messages.push_back(message);
        assert(self@ =~= old(self)@.push(message@));
    }

    /// Takes the message at the front.
    pub fn dequeue(&mut self) -> (message: Option<Message>)
        ensures
            old(self)@.len() == 0 ==> message is None && final(self)@ == old(self)@,
            old(self)@.len() > 0 ==> message is Some && message->0@ == old(self)@[0] && final(self)@
                == old(self)@.drop_first(),
    {
        let message = self.messages.pop_front();
        if message.is_some() {
            assert(self@ =~= old(self)@.drop_first());
        }
        message
    }

    /// The position of the first message numbered `id`.
    fn find(&self, id: u32) -> (at: Option<usize>)
        ensures
            match at {
                Some(i) => i == position_of(self@, id) && i < self@.len(),
                None => position_of(self@, id) == self@.len(),
            },
    {
        let mut i: usize = 0;
        while i < self.messages.len()
            invariant
                i <= self@.len(),
                self@.len() == self.messages@.len(),
                forall|j: int| 0 <= j < i ==> (#[trigger] self@[j]).header.id != id,
            decreases self@.len() - i,
        {
            assert(self@[i as int] == self.messages@[i as int]@);
            if self.messages[i].header.id == id {
                proof {
                    position_is_unique(self@, id, i as int);
                }
                return Some(i);
            }
            i = i + 1;
        }
        proof {
            position_is_unique(self@, id, i as int);
        }
        None
    }

    /// Whether some message is numbered `id`.
    pub fn contains_id(&self, id: u32) -> (found: bool)
        ensures
            found == (position_of(self@, id) < self@.len()),
    {
        self.find(id).is_some()
    }

    /// Takes the first message numbered `id`, wherever it stands.
    pub fn dequeue_by_id(&mut self, id: u32) -> (message: Option<Message>)
        ensures
            position_of(old(self)@, id) == old(self)@.len() ==> message is None && final(self)@
                == old(self)@,
            position_of(old(self)@, id) < old(self)@.len() ==> message is Some && message->0@
                == old(self)@[position_of(old(self)@, id)] && final(self)@ == old(self)@.remove(
                position_of(old(self)@, id),
            ),
    {
        match self.find(id) {
            Some(at) => {
                let message = self.messages.remove(at);
                assert(self@ =~= old(self)@.remove(at as int));
                message
            },
            None => None,
        }
    }
}

/// The queues of one client.
#[derive(Debug)]
pub struct MQueue {
    /// The client.
    pub id: u32,
    /// The messages that wait to be delivered.
    pub waiting_queue: MessageQueue,
    /// The messages that were delivered and not yet freed.
    pub delivered_queue: MessageQueue,
}

/// The queues of one client as values.
pub struct MQueueView {
    pub id: u32,
    pub waiting: Seq<MessageView>,
    pub delivered: Seq<MessageView>,
}

impl View for MQueue {
    type V = MQueueView;

    open spec fn view(&self) -> MQueueView {
        MQueueView {
            id: self.id,
            waiting: self.waiting_queue@,
            delivered: self.delivered_queue@,
        }
    }
}

/// The queues of a client that has just been added.
pub open spec fn fresh_queue(id: u32) -> MQueueView {
    MQueueView { id, waiting: Seq::empty(), delivered: Seq::empty() }
}

impl MQueue {
    /// Empty queues for the client `id`.
    pub fn new(id: u32) -> (queue: Self)
        ensures
            queue@ == fresh_queue(id),
    {
        MQueue { id, waiting_queue: MessageQueue::new(), delivered_queue: MessageQueue::new() }
    }
}

/// Whether a delivery can be made: a message waits.
pub fn is_ready_to_send(queue: &MQueue) -> (ready: bool)
    ensures
        ready == (queue@.waiting.len() > 0),
{
    !queue.waiting_queue.is_empty()
}

/// The queues of all clients.
#[derive(Debug)]
pub struct MQueuePool {
    queues: BTreeMap<u32, MQueue>,
}

impl View for MQueuePool {
    type V = Map<u32, MQueueView>;

    closed spec fn view(&self) -> Map<u32, MQueueView> {
        self.queues@.map_values(|q: MQueue| q@)
    }
}

impl MQueuePool {
    /// A pool without clients.
    pub fn new() -> (pool: Self)
        ensures
            pool@ == Map::<u32, MQueueView>::empty(),
    {
        let pool = MQueuePool { queues: BTreeMap::new() };
        assert(pool@ =~= Map::<u32, MQueueView>::empty());
        pool
    }

    /// The queues of the client `id`.
    pub fn find_by_id(&self, id: u32) -> (queue: Option<&MQueue>)
        ensures
            match queue {
                Some(q) => self@.contains_key(id) && q@ == self@[id],
                None => !self@.contains_key(id),
            },
    {
        broadcast use vstd::std_specs::btree::group_btree_axioms;

        self.queues.get(&id)
    }

    /// Gives the client `id` these queues.
    pub fn add(&mut self, id: u32, queue: MQueue)
        ensures
            final(self)@ == old(self)@.insert(id, queue@),
    {
        broadcast use vstd::std_specs::btree::group_btree_axioms;

        self.queues.insert(id, queue);
        assert(self@ =~= old(self)@.insert(id, queue@));
    }

    /// Takes the queues of the client `id` out of the pool.
    pub fn take(&mut self, id: u32) -> (queue: Option<MQueue>)
        ensures
            final(self)@ == old(self)@.remove(id),
            match queue {
                Some(q) => old(self)@.contains_key(id) && q@ == old(self)@[id],
                None => !old(self)@.contains_key(id),
            },
    {
        broadcast use vstd::std_specs::btree::group_btree_axioms;

        let queue = self.queues.remove(&id);
        assert(self@ =~= old(self)@.remove(id));
        queue
    }
}

} // verus!
