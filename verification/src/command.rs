//! The commands that change the queues.
//!
//! A command is a message taken from the replicated log. What it does depends on
//! the queues and the message alone, so replicas that apply the same commands in
//! the same order hold the same queues.

use crate::message::{Header, Message, MessageType, MessageView};
use crate::queue::{is_ready_to_send, MQueue, MQueuePool, MQueueView};
use vstd::prelude::*;

verus! {

/// Why a committed entry cannot be applied.
#[derive(Clone, Copy, Debug, PartialEq, Eq, Structural)]
pub enum Fault {
    /// A client without queues frees or asks for a message.
    UnknownClient,
    /// A message is freed that was not delivered.
    NotDelivered,
    /// The data of the entry encode no message.
    MalformedMessage,
    /// The data of the entry encode no configuration change.
    MalformedConfChange,
    /// The group does not carry out the configuration change.
    RefusedConfChange,
    /// The leader applies an entry, and no proposal waits for its outcome.
    NoPendingProposal,
    /// The leader has removed itself from the group and cannot give back work with
    /// entries that it stored.
    LeaderRemoved,
}

/// The queues after the client `id` has been given some, unless it has them.
pub open spec fn opened(queues: Map<u32, MQueueView>, id: u32) -> Map<u32, MQueueView> {
    if queues.contains_key(id) {
        queues
    } else {
        queues.insert(id, crate::queue::fresh_queue(id))
    }
}

/// A message as it is delivered.
pub open spec fn delivery(message: MessageView) -> MessageView {
    MessageView {
        header: Header { msg_type: MessageType::PushReq, ..message.header },
        ..message
    }
}

/// Why a command cannot be applied, if it cannot.
pub open spec fn command_fault(queues: Map<u32, MQueueView>, command: MessageView) -> Option<
    Fault,
> {
    let client = command.header.saddr;
    match command.header.msg_type {
        MessageType::FreeReq => if !queues.contains_key(client) {
            Some(Fault::UnknownClient)
        } else if crate::queue::position_of(queues[client].delivered, command.header.id)
            == queues[client].delivered.len() {
            Some(Fault::NotDelivered)
        } else {
            None
        },
        MessageType::PushReq => if !queues.contains_key(client) {
            Some(Fault::UnknownClient)
        } else {
            None
        },
        _ => None,
    }
}

/// The queues after a command.
pub open spec fn queues_after(queues: Map<u32, MQueueView>, command: MessageView) -> Map<
    u32,
    MQueueView,
> {
    let client = command.header.saddr;
    match command.header.msg_type {
        MessageType::SendReq => {
            let receiver = command.header.daddr;
            let ready = opened(queues, receiver);
            ready.insert(
                receiver,
                MQueueView {
                    waiting: ready[receiver].waiting.push(command),
                    ..ready[receiver]
                },
            )
        },
        MessageType::FreeReq => {
            let delivered = queues[client].delivered;
            queues.insert(
                client,
                MQueueView {
                    delivered: delivered.remove(
                        crate::queue::position_of(delivered, command.header.id),
                    ),
                    ..queues[client]
                },
            )
        },
        MessageType::PushReq => if queues[client].waiting.len() == 0 {
            queues
        } else {
            queues.insert(
                client,
                MQueueView {
                    waiting: queues[client].waiting.drop_first(),
                    delivered: queues[client].delivered.push(delivery(queues[client].waiting[0])),
                    ..queues[client]
                },
            )
        },
        MessageType::HeloReq => opened(queues, client),
        MessageType::Other => queues,
    }
}

/// What the proposer of a command gets back: the message that is delivered, if
/// one is.
pub open spec fn command_reply(queues: Map<u32, MQueueView>, command: MessageView) -> Option<
    MessageView,
> {
    let client = command.header.saddr;
    if command.header.msg_type == MessageType::PushReq && queues[client].waiting.len() > 0 {
        Some(delivery(queues[client].waiting[0]))
    } else {
        None
    }
}

/// Whether a command can be applied, and if not, why.
pub fn check_command(pool: &MQueuePool, command: &Message) -> (fault: Option<Fault>)
    ensures
        fault == command_fault(pool@, command@),
        fault is None <==> match command@.header.msg_type {
            MessageType::FreeReq => pool@.contains_key(command@.header.saddr) && exists|k: int|
                0 <= k < pool@[command@.header.saddr].delivered.len() && (
                #[trigger] pool@[command@.header.saddr].delivered[k]).header.id
                    == command@.header.id,
            MessageType::PushReq => pool@.contains_key(command@.header.saddr),
            _ => true,
        },
        fault is Some ==> fault == if pool@.contains_key(command@.header.saddr) {
            Some(Fault::NotDelivered)
        } else {
            Some(Fault::UnknownClient)
        },
{
    match command.header.msg_type() {
        MessageType::FreeReq => match pool.find_by_id(command.header.saddr) {
            Some(queue) => if queue.delivered_queue.contains_id(command.header.id) {
                proof {
                    crate::queue::position_is_first(queue@.delivered, command.header.id);
                }
                None
            } else {
                proof {
                    crate::queue::position_is_first(queue@.delivered, command.header.id);
                }
                Some(Fault::NotDelivered)
            },
            None => Some(Fault::UnknownClient),
        },
        MessageType::PushReq => match pool.find_by_id(command.header.saddr) {
            Some(_) => None,
            None => Some(Fault::UnknownClient),
        },
        _ => None,
    }
}

/// Applies a command to the queues. Gives back the message that is delivered, if
/// one is.
pub fn apply_command(pool: &mut MQueuePool, command: Message) -> (reply: Option<Message>)
    requires
        command_fault(old(pool)@, command@) is None,
    ensures
        final(pool)@ == queues_after(old(pool)@, command@),
        crate::message::opt_message_view(reply) == command_reply(old(pool)@, command@),
        command@.header.msg_type == MessageType::SendReq ==> {
            let receiver = command@.header.daddr;
            &&& reply is None
            &&& final(pool)@.contains_key(receiver)
            &&& final(pool)@[receiver].waiting == crate::guarantees::waiting_for(
                old(pool)@,
                receiver,
            ).push(command@)
            &&& final(pool)@[receiver].delivered == crate::guarantees::delivered_to(
                old(pool)@,
                receiver,
            )
        },
        command@.header.msg_type == MessageType::FreeReq ==> {
            let client = command@.header.saddr;
            let delivered = old(pool)@[client].delivered;
            &&& reply is None
            &&& final(pool)@[client].waiting == old(pool)@[client].waiting
            &&& exists|at: int|
                {
                    &&& #[trigger] crate::guarantees::first_numbered(
                        delivered,
                        command@.header.id,
                        at,
                    )
                    &&& final(pool)@[client].delivered == delivered.take(at) + delivered.skip(
                        at + 1,
                    )
                }
        },
        command@.header.msg_type == MessageType::PushReq ==> {
            let client = command@.header.saddr;
            let waiting = old(pool)@[client].waiting;
            &&& reply is Some <==> waiting.len() > 0
            &&& reply is Some ==> {
                &&& reply->0@.header.msg_type == MessageType::PushReq
                &&& reply->0@.header.saddr == waiting[0].header.saddr
                &&& reply->0@.header.daddr == waiting[0].header.daddr
                &&& reply->0@.header.id == waiting[0].header.id
                &&& reply->0@.payload == waiting[0].payload
                &&& final(pool)@[client].waiting == waiting.skip(1)
                &&& final(pool)@[client].delivered == old(pool)@[client].delivered.push(
                    reply->0@,
                )
            }
        },
{
    proof {
        match command@.header.msg_type {
            MessageType::SendReq => {
                crate::guarantees::sent_message_waits_last(pool@, command@);
            },
            MessageType::FreeReq => {
                let _ = crate::guarantees::freed_message_is_the_one_asked_for(pool@, command@);
            },
            MessageType::PushReq => {
                crate::guarantees::oldest_message_is_handed_out(pool@, command@);
            },
            _ => {},
        }
    }
    match command.header.msg_type() {
        MessageType::SendReq => {
            let receiver = command.header.daddr;
            let ghost sent = command@;
            let mut queue = match pool.take(receiver) {
                Some(queue) => queue,
                None => MQueue::new(receiver),
            };
            queue.waiting_queue.enqueue(command);
            pool.add(receiver, queue);
            assert(pool@ =~= queues_after(old(pool)@, sent));
            None
        },
        MessageType::FreeReq => {
            let client = command.header.saddr;
            match pool.take(client) {
                Some(taken) => {
                    let mut queue = taken;
                    proof {
                        crate::queue::position_is_first(queue@.delivered, command.header.id);
                    }
                    let _ = queue.delivered_queue.dequeue_by_id(command.header.id);
                    pool.add(client, queue);
                },
                None => {},
            }
            assert(pool@ =~= queues_after(old(pool)@, command@));
            None
        },
        MessageType::PushReq => {
            let client = command.header.saddr;
            let mut reply: Option<Message> = None;
            match pool.take(client) {
                Some(taken) => {
                    let mut queue = taken;
                    if is_ready_to_send(&queue) {
                        match queue.waiting_queue.dequeue() {
                            Some(waiting) => {
                                let mut message = waiting;
                                message.header.change_msg_type(MessageType::PushReq);
                                queue.delivered_queue.enqueue(message.clone());
                                reply = Some(message);
                            },
                            None => {},
                        }
                    }
                    pool.add(client, queue);
                },
                None => {},
            }
            assert(pool@ =~= queues_after(old(pool)@, command@));
            reply
        },
        MessageType::HeloReq => {
            let client = command.header.saddr;
            if pool.find_by_id(client).is_none() {
                pool.add(client, MQueue::new(client));
            }
            assert(pool@ =~= queues_after(old(pool)@, command@));
            None
        },
        MessageType::Other => None,
    }
}

} // verus!
