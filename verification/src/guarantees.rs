//! What the operations of the broker are for, said of their inputs and results.
//!
//! The statements here do without the definitions that the contracts of the operations
//! use, wherever they can: they relate what was there before to what is there after.

use crate::channel::Refused;
use crate::command::Fault;
use crate::consensus::{
    ConfChangeType, ConfChangeView, LightView, LogEntryView, PeerMessageView, RaftCall, RaftGroup,
    ReadyView, Standing,
};
use crate::message::{Header, MessageType, MessageView};
use crate::node::{Node, TurnNext, TurnStage};
use crate::outbox::{Effect, EffectView};
use crate::proposal::Proposal;
use crate::queue::{MQueuePool, MQueueView};
use crate::replica::ReplicaView;
use crate::round::{Answers, Event, NextView, RoundStatus, Situation, Stage, StageView};
use vstd::prelude::*;

verus! {

/// What waits for a client, nothing if the client is not known.
pub open spec fn waiting_for(queues: Map<u32, MQueueView>, client: u32) -> Seq<MessageView> {
    if queues.contains_key(client) {
        queues[client].waiting
    } else {
        Seq::empty()
    }
}

/// What was delivered to a client and not freed, nothing if the client is not known.
pub open spec fn delivered_to(queues: Map<u32, MQueueView>, client: u32) -> Seq<MessageView> {
    if queues.contains_key(client) {
        queues[client].delivered
    } else {
        Seq::empty()
    }
}

/// The message at `at` is the first that has the number `id`.
pub open spec fn first_numbered(messages: Seq<MessageView>, id: u32, at: int) -> bool {
    &&& 0 <= at < messages.len()
    &&& messages[at].header.id == id
    &&& forall|k: int| 0 <= k < at ==> (#[trigger] messages[k]).header.id != id
}

/// A message that is sent waits behind everything that waits for its receiver already,
/// whatever the numbers are. Nothing else changes: not what was delivered to the receiver,
/// and nothing of any other client. Sending is always possible and is answered with
/// nothing.
pub proof fn sent_message_waits_last(queues: Map<u32, MQueueView>, sent: MessageView)
    requires
        sent.header.msg_type == MessageType::SendReq,
    ensures
        ({
            let after = crate::command::queues_after(queues, sent);
            let receiver = sent.header.daddr;
            &&& crate::command::command_fault(queues, sent) is None
            &&& crate::command::command_reply(queues, sent) is None
            &&& after.dom() == queues.dom().insert(receiver)
            &&& after[receiver].id == if queues.contains_key(receiver) {
                queues[receiver].id
            } else {
                receiver
            }
            &&& after[receiver].waiting == waiting_for(queues, receiver).push(sent)
            &&& after[receiver].delivered == delivered_to(queues, receiver)
            &&& forall|other: u32|
                other != receiver && queues.contains_key(other) ==> #[trigger] after[other]
                    == queues[other]
        }),
{
    let after = crate::command::queues_after(queues, sent);
    assert(after.dom() =~= queues.dom().insert(sent.header.daddr));
}

/// A client that asks is handed the message that has waited the longest, with sender,
/// receiver, number and content as they were, marked as delivered. It no longer waits, and
/// it is the last of those that were delivered. Nothing else changes. If nothing waits
/// nothing changes, and a client that is not known cannot ask.
pub proof fn oldest_message_is_handed_out(queues: Map<u32, MQueueView>, request: MessageView)
    requires
        request.header.msg_type == MessageType::PushReq,
    ensures
        ({
            let after = crate::command::queues_after(queues, request);
            let reply = crate::command::command_reply(queues, request);
            let client = request.header.saddr;
            let waiting = queues[client].waiting;
            &&& crate::command::command_fault(queues, request) == if queues.contains_key(client) {
                None::<Fault>
            } else {
                Some(Fault::UnknownClient)
            }
            &&& queues.contains_key(client) && waiting.len() == 0 ==> after == queues
                && reply is None
            &&& queues.contains_key(client) && waiting.len() > 0 ==> {
                &&& reply == Some(
                    MessageView {
                        header: Header {
                            msg_type: MessageType::PushReq,
                            saddr: waiting[0].header.saddr,
                            daddr: waiting[0].header.daddr,
                            id: waiting[0].header.id,
                        },
                        payload: waiting[0].payload,
                    },
                )
                &&& after.dom() == queues.dom()
                &&& after[client].id == queues[client].id
                &&& after[client].waiting == waiting.skip(1)
                &&& after[client].delivered == queues[client].delivered.push(reply->0)
                &&& forall|other: u32|
                    other != client && queues.contains_key(other) ==> #[trigger] after[other]
                        == queues[other]
            }
        }),
{
    let client = request.header.saddr;
    let after = crate::command::queues_after(queues, request);
    if queues.contains_key(client) && queues[client].waiting.len() > 0 {
        assert(after.dom() =~= queues.dom());
        assert(after[client].waiting =~= queues[client].waiting.skip(1));
    }
}

/// Freeing removes the first delivered message that has the number asked for, wherever it
/// stands; all others stay, in their order, and nothing else changes. It is possible
/// exactly if such a message was delivered to the client.
pub proof fn freed_message_is_the_one_asked_for(
    queues: Map<u32, MQueueView>,
    free: MessageView,
) -> (at: int)
    requires
        free.header.msg_type == MessageType::FreeReq,
    ensures
        ({
            let client = free.header.saddr;
            let delivered = queues[client].delivered;
            let fault = crate::command::command_fault(queues, free);
            &&& fault == Some(Fault::UnknownClient) <==> !queues.contains_key(client)
            &&& fault == Some(Fault::NotDelivered) <==> queues.contains_key(client) && forall|
                k: int,
            |
                0 <= k < delivered.len() ==> (#[trigger] delivered[k]).header.id != free.header.id
            &&& fault is Some ==> fault == Some(Fault::UnknownClient) || fault == Some(
                Fault::NotDelivered,
            )
            &&& crate::command::command_reply(queues, free) is None
        }),
        crate::command::command_fault(queues, free) is None ==> {
            let after = crate::command::queues_after(queues, free);
            let client = free.header.saddr;
            let delivered = queues[client].delivered;
            &&& first_numbered(delivered, free.header.id, at)
            &&& after.dom() == queues.dom()
            &&& after[client].id == queues[client].id
            &&& after[client].waiting == queues[client].waiting
            &&& after[client].delivered == delivered.take(at) + delivered.skip(at + 1)
            &&& forall|other: u32|
                other != client && queues.contains_key(other) ==> #[trigger] after[other]
                    == queues[other]
        },
{
    let client = free.header.saddr;
    let delivered = queues[client].delivered;
    let at = crate::queue::position_of(delivered, free.header.id);
    crate::queue::position_is_first(delivered, free.header.id);
    if at < delivered.len() {
        assert(delivered[at].header.id == free.header.id);
    }
    if crate::command::command_fault(queues, free) is None {
        let after = crate::command::queues_after(queues, free);
        assert(after.dom() =~= queues.dom());
        assert(after[client].delivered =~= delivered.take(at) + delivered.skip(at + 1));
    }
    at
}

/// A client that greets for the first time gets empty queues under its own number; nothing
/// else ever changes by greeting, nor by a message of any other type.
pub proof fn greeting_opens_queues(queues: Map<u32, MQueueView>, greeting: MessageView)
    requires
        greeting.header.msg_type == MessageType::HeloReq || greeting.header.msg_type
            == MessageType::Other,
    ensures
        ({
            let after = crate::command::queues_after(queues, greeting);
            let client = greeting.header.saddr;
            &&& crate::command::command_fault(queues, greeting) is None
            &&& crate::command::command_reply(queues, greeting) is None
            &&& greeting.header.msg_type == MessageType::Other ==> after == queues
            &&& greeting.header.msg_type == MessageType::HeloReq && queues.contains_key(client)
                ==> after == queues
            &&& greeting.header.msg_type == MessageType::HeloReq && !queues.contains_key(client)
                ==> {
                &&& after.dom() == queues.dom().insert(client)
                &&& after[client].id == client
                &&& after[client].waiting.len() == 0
                &&& after[client].delivered.len() == 0
                &&& forall|other: u32|
                    other != client && queues.contains_key(other) ==> #[trigger] after[other]
                        == queues[other]
            }
        }),
{
    let after = crate::command::queues_after(queues, greeting);
    if greeting.header.msg_type == MessageType::HeloReq && !queues.contains_key(
        greeting.header.saddr,
    ) {
        assert(after.dom() =~= queues.dom().insert(greeting.header.saddr));
    }
}

/// The queues before each of some commands, and after the last.
pub open spec fn is_run(states: Seq<Map<u32, MQueueView>>, commands: Seq<MessageView>) -> bool {
    &&& states.len() == commands.len() + 1
    &&& forall|i: int|
        0 <= i < commands.len() ==> #[trigger] states[i + 1] == crate::command::queues_after(
            states[i],
            commands[i],
        )
}

/// Messages that are sent to a client one after the other wait in the order in which they
/// were sent, behind what waited before.
pub proof fn messages_wait_in_the_order_of_sending(
    states: Seq<Map<u32, MQueueView>>,
    sent: Seq<MessageView>,
    receiver: u32,
)
    requires
        is_run(states, sent),
        forall|i: int|
            0 <= i < sent.len() ==> (#[trigger] sent[i]).header.msg_type == MessageType::SendReq
                && sent[i].header.daddr == receiver,
    ensures
        waiting_for(states.last(), receiver) == waiting_for(states[0], receiver) + sent,
        delivered_to(states.last(), receiver) == delivered_to(states[0], receiver),
        sent.len() > 0 ==> states.last().contains_key(receiver),
        states[0].contains_key(receiver) ==> states.last().contains_key(receiver),
    decreases sent.len(),
{
    if sent.len() == 0 {
        assert(waiting_for(states[0], receiver) + sent =~= waiting_for(states[0], receiver));
    } else {
        let n = sent.len() - 1;
        let earlier = sent.drop_last();
        let before = states.drop_last();
        assert forall|i: int| 0 <= i < earlier.len() implies #[trigger] before[i + 1]
            == crate::command::queues_after(before[i], earlier[i]) by {
            assert(before[i + 1] == states[i + 1]);
        }
        messages_wait_in_the_order_of_sending(before, earlier, receiver);
        assert(states[n + 1] == crate::command::queues_after(states[n], sent[n]));
        sent_message_waits_last(states[n], sent[n]);
        assert(waiting_for(states[0], receiver) + sent =~= (waiting_for(states[0], receiver)
            + earlier).push(sent[n]));
    }
}

/// First come, first served: when messages were sent to a client and the client then asks as
/// often as it likes, the k-th time that it asks it is handed the k-th of all messages that
/// waited, counting those that waited before first and then those that were sent, in the
/// order of sending; and nothing once all have been handed out.
pub proof fn messages_are_handed_out_in_the_order_of_sending(
    sending: Seq<Map<u32, MQueueView>>,
    sent: Seq<MessageView>,
    asking: Seq<Map<u32, MQueueView>>,
    requests: Seq<MessageView>,
    client: u32,
    k: int,
)
    requires
        is_run(sending, sent),
        is_run(asking, requests),
        asking[0] == sending.last(),
        asking[0].contains_key(client),
        forall|i: int|
            0 <= i < sent.len() ==> (#[trigger] sent[i]).header.msg_type == MessageType::SendReq
                && sent[i].header.daddr == client,
        forall|i: int|
            0 <= i < requests.len() ==> (#[trigger] requests[i]).header.msg_type
                == MessageType::PushReq && requests[i].header.saddr == client,
        0 <= k < requests.len(),
    ensures
        ({
            let line = waiting_for(sending[0], client) + sent;
            let reply = crate::command::command_reply(asking[k], requests[k]);
            &&& crate::command::command_fault(asking[k], requests[k]) is None
            &&& k < line.len() ==> reply is Some && reply->0.header.saddr == line[k].header.saddr
                && reply->0.header.daddr == line[k].header.daddr && reply->0.header.id
                == line[k].header.id && reply->0.payload == line[k].payload
            &&& k >= line.len() ==> reply is None
        }),
{
    messages_wait_in_the_order_of_sending(sending, sent, client);
    requests_shorten_the_line(asking, requests, client, k);
    oldest_message_is_handed_out(asking[k], requests[k]);
}

proof fn requests_shorten_the_line(
    states: Seq<Map<u32, MQueueView>>,
    requests: Seq<MessageView>,
    client: u32,
    k: int,
)
    requires
        is_run(states, requests),
        states[0].contains_key(client),
        forall|i: int|
            0 <= i < requests.len() ==> (#[trigger] requests[i]).header.msg_type
                == MessageType::PushReq && requests[i].header.saddr == client,
        0 <= k <= requests.len(),
    ensures
        states[k].contains_key(client),
        states[k][client].waiting == states[0][client].waiting.skip(
            if k <= states[0][client].waiting.len() {
                k
            } else {
                states[0][client].waiting.len() as int
            },
        ),
    decreases k,
{
    let line = states[0][client].waiting;
    if k == 0 {
        assert(line.skip(0) =~= line);
    } else {
        requests_shorten_the_line(states, requests, client, k - 1);
        assert(states[(k - 1) + 1] == crate::command::queues_after(states[k - 1], requests[k - 1]));
        oldest_message_is_handed_out(states[k - 1], requests[k - 1]);
        if k <= line.len() {
            assert(states[k - 1][client].waiting.len() > 0);
            assert(states[k][client].waiting =~= line.skip(k));
        }
    }
}

/// The voters that a change leads to: who is added is a voter, who is removed or made
/// a learner is none, and nobody else is concerned. A change for node 0 concerns nobody.
pub proof fn change_concerns_its_node(voters: Set<u64>, change: ConfChangeView, node: u64)
    ensures
        crate::consensus::voters_after(voters, change).contains(node) <==> if node
            == change.node_id && node != 0 {
            change.change_type == ConfChangeType::AddNode
        } else {
            voters.contains(node)
        },
{
}

/// What one committed entry does. An entry without data does nothing. Another one of type 1
/// is a configuration change: it leaves the queues alone, and it is put to raft; if the group
/// is not in the middle of a joint change and some voter remains, the new voters are stored.
/// Any other entry is a command: it changes the queues as the command does, and nothing
/// else. What cannot be applied changes nothing and is not answered. A leader answers, with
/// what the command handed out, whoever waits the longest; if nobody waits it stops.
pub proof fn one_entry_is_applied(
    replica: ReplicaView,
    entry: LogEntryView,
    standing: Standing,
    pending: nat,
)
    ensures
        ({
            let applied = crate::replica::apply_all(replica, seq![entry], standing, pending);
            let change = crate::consensus::conf_change_parsed(entry.data);
            let command = crate::message::decoded(entry.data);
            let is_change = entry.entry_type == 1;
            let voters = crate::consensus::voters_after(replica.voters, change->0);
            let fault = if is_change {
                if change is None {
                    Some(Fault::MalformedConfChange)
                } else if replica.joint || voters == Set::<u64>::empty() {
                    Some(Fault::RefusedConfChange)
                } else {
                    None
                }
            } else {
                if command is None {
                    Some(Fault::MalformedMessage)
                } else {
                    crate::command::command_fault(replica.queues, command->0)
                }
            };
            if entry.data.len() == 0 {
                &&& applied.replica == replica
                &&& applied.member == standing.member
                &&& applied.replies.len() == 0
                &&& applied.calls.len() == 0
                &&& applied.fault is None
            } else {
                &&& applied.replica.joint == replica.joint
                &&& is_change && change is Some ==> applied.calls.len() > 0 && applied.calls[0]
                    == (RaftCall::ApplyConfChange { change: change->0 })
                &&& is_change && fault is None ==> applied.calls.len() == 2 && applied.calls[1]
                    == (RaftCall::SetConfState { voters })
                &&& is_change && fault == Some(Fault::RefusedConfChange) ==> applied.calls.len()
                    == 1
                &&& !is_change || change is None ==> applied.calls.len() == 0
                &&& fault is Some ==> {
                    &&& applied.fault == fault
                    &&& applied.replica == replica
                    &&& applied.member == standing.member
                    &&& applied.replies.len() == 0
                }
                &&& fault is None ==> {
                    &&& applied.replica.queues == if is_change {
                        replica.queues
                    } else {
                        crate::command::queues_after(replica.queues, command->0)
                    }
                    &&& applied.replica.voters == if is_change {
                        voters
                    } else {
                        replica.voters
                    }
                    &&& applied.member == if is_change && change->0.node_id == standing.id
                        && standing.id != 0 {
                        change->0.change_type != ConfChangeType::RemoveNode
                    } else {
                        standing.member
                    }
                    &&& applied.fault == if standing.leads && pending == 0 {
                        Some(Fault::NoPendingProposal)
                    } else {
                        None
                    }
                    &&& applied.replies.len() == if standing.leads && pending > 0 {
                        1nat
                    } else {
                        0nat
                    }
                    &&& standing.leads && pending > 0 ==> applied.replies[0] == if is_change {
                        None
                    } else {
                        crate::command::command_reply(replica.queues, command->0)
                    }
                }
            }
        }),
{
    reveal_with_fuel(crate::replica::apply_all, 2);
    assert(seq![entry].drop_last() =~= Seq::<LogEntryView>::empty());
    assert(seq![entry].last() == entry);
    let begun = crate::replica::apply_all(
        replica,
        Seq::<LogEntryView>::empty(),
        standing,
        pending,
    );
    assert(begun.calls + crate::replica::entry_calls(replica, entry)
        =~= crate::replica::entry_calls(replica, entry));
}

/// Nothing is applied of no entries, and nothing after an entry that could not be applied.
pub proof fn entries_stop_at_a_fault(
    replica: ReplicaView,
    first: Seq<LogEntryView>,
    second: Seq<LogEntryView>,
    standing: Standing,
    pending: nat,
)
    ensures
        ({
            let none = crate::replica::apply_all(replica, Seq::empty(), standing, pending);
            &&& none.replica == replica
            &&& none.member == standing.member
            &&& none.replies.len() == 0
            &&& none.calls.len() == 0
            &&& none.fault is None
        }),
        crate::replica::apply_all(replica, first, standing, pending).fault is Some
            ==> crate::replica::apply_all(replica, first + second, standing, pending)
            == crate::replica::apply_all(replica, first, standing, pending),
    decreases second.len(),
{
    if second.len() == 0 {
        assert(first + second =~= first);
    } else {
        entries_stop_at_a_fault(replica, first, second.drop_last(), standing, pending);
        assert((first + second).drop_last() =~= first + second.drop_last());
        assert((first + second).last() == second.last());
    }
}

/// The replies of a stage go to those who have waited the longest, each to its own: the i-th
/// reply goes to the i-th proposal, that many proposals leave the queue, and the others stay
/// in their order. In the stages that apply nothing, no proposal is answered.
pub proof fn replies_go_to_who_waited_longest(
    before: (RaftGroup, MQueuePool, Seq<Proposal>),
    after: (RaftGroup, MQueuePool, Seq<Proposal>),
    peers: Seq<u64>,
    stage: StageView,
    effects: Seq<EffectView>,
    next: NextView,
)
    requires
        crate::round::step_taken(before, after, peers, stage, effects, next),
    ensures
        after.2.len() <= before.2.len(),
        forall|k: int|
            0 <= k < after.2.len() ==> #[trigger] after.2[k] == before.2[before.2.len()
                - after.2.len() + k],
        stage is Taken || stage is Advanced ==> {
            &&& effects.len() == before.2.len() - after.2.len()
            &&& forall|i: int|
                0 <= i < effects.len() ==> (#[trigger] effects[i]) is Reply && effects[i]->reply_to
                    == before.2[i].propose_success && effects[i]->outcome is Ok
        },
        !(stage is Taken || stage is Advanced) ==> after.2 == before.2 && forall|i: int|
            0 <= i < effects.len() ==> (#[trigger] effects[i]) is Send,
{
    crate::round::step_keeps_proposals(before, after, peers, stage, effects, next);
    let answers = choose|answers: Answers| #[trigger]
        crate::round::step_answered(before, after, peers, stage, effects, next, answers);
    assert(before.2.skip(0) =~= before.2);
    match stage {
        StageView::Begin => {
            if let Some(ready) = answers.ready {
                batches_are_sends(ready.messages, peers);
            }
        },
        StageView::Applied { ready } => {
            batches_are_sends(ready.persisted_messages, peers);
        },
        StageView::Stored { ready } => {
            batches_are_sends(answers.light.messages, peers);
        },
        _ => {},
    }
}

proof fn batches_are_sends(messages: Seq<PeerMessageView>, peers: Seq<u64>)
    ensures
        forall|i: int|
            0 <= i < crate::outbox::batches(messages, peers).len() ==> (
            #[trigger] crate::outbox::batches(messages, peers)[i]) is Send,
    decreases peers.len(),
{
    if peers.len() > 0 {
        batches_are_sends(messages, peers.drop_last());
    }
}

/// Every proposer is answered for its own proposal: when the entries of waiting proposals are
/// committed in the order in which they wait, the i-th proposal is answered on its own
/// channel with what its own message, or its own change, brings about after those before it.
pub proof fn proposers_are_answered_for_their_own(
    before: (RaftGroup, MQueuePool, Seq<Proposal>),
    after: (RaftGroup, MQueuePool, Seq<Proposal>),
    peers: Seq<u64>,
    ready: ReadyView,
    effects: Seq<EffectView>,
    next: NextView,
)
    requires
        crate::round::step_taken(
            before,
            after,
            peers,
            StageView::Taken { ready },
            effects,
            next,
        ),
        next is Continue,
        crate::consensus::raft_is_leader(before.0),
        ready.committed.len() <= before.2.len(),
        forall|i: int|
            0 <= i < ready.committed.len() ==> crate::proposal::carries(#[trigger] before.2[i])
                && crate::proposal::entry_of(before.2[i], true, ready.committed[i])
                && ready.committed[i].data.len() > 0,
    ensures
        effects.len() == ready.committed.len(),
        after.2 == before.2.skip(ready.committed.len() as int),
        forall|i: int|
            0 <= i < effects.len() ==> {
                let replica = crate::laws::replica_after_proposals(
                    (ReplicaView {
                        queues: before.1@,
                        voters: crate::consensus::raft_voters(before.0),
                        joint: crate::consensus::raft_joint(before.0),
                    }),
                    before.2.take(i),
                );
                #[trigger] effects[i] == (EffectView::Reply {
                    reply_to: before.2[i].propose_success,
                    outcome: Ok(
                        match before.2[i].normal {
                            Some(command) => crate::command::command_reply(
                                replica.queues,
                                command@,
                            ),
                            None => None,
                        },
                    ),
                })
            },
{
    let n = ready.committed.len() as int;
    let answers = choose|answers: Answers| #[trigger]
        crate::round::step_answered(
            before,
            after,
            peers,
            StageView::Taken { ready },
            effects,
            next,
            answers,
        );
    let first = before.2.take(n);
    let replica = crate::replica::replica_view(before.0, before.1);
    assert forall|i: int| 0 <= i < first.len() implies crate::proposal::carries(
        #[trigger] first[i],
    ) && crate::proposal::entry_of(first[i], true, ready.committed[i])
        && ready.committed[i].data.len() > 0 by {
        assert(first[i] == before.2[i]);
    }
    crate::laws::proposers_get_their_replies(
        replica,
        first,
        ready.committed,
        crate::consensus::standing(before.0),
        before.2.len(),
    );
    assert forall|i: int| 0 <= i < n implies #[trigger] first.take(i) == before.2.take(i) by {
        assert(first.take(i) =~= before.2.take(i));
    }
    let applied = crate::replica::apply_all(
        replica,
        ready.committed,
        crate::consensus::standing(before.0),
        before.2.len(),
    );
    assert forall|i: int| 0 <= i < effects.len() implies {
        let reached = crate::laws::replica_after_proposals(replica, before.2.take(i));
        #[trigger] effects[i] == (EffectView::Reply {
            reply_to: before.2[i].propose_success,
            outcome: Ok(
                match before.2[i].normal {
                    Some(command) => crate::command::command_reply(reached.queues, command@),
                    None => None,
                },
            ),
        })
    } by {
        assert(first.take(i) == before.2.take(i));
        assert(first[i] == before.2[i]);
        let reply = applied.replies[i];
    }
}

/// A round begins by taking the outstanding work, whole, and what need not wait leaves at
/// once; nothing is stored or applied yet. Without outstanding work nothing happens.
pub proof fn round_begins(
    before: (RaftGroup, MQueuePool, Seq<Proposal>),
    after: (RaftGroup, MQueuePool, Seq<Proposal>),
    peers: Seq<u64>,
    effects: Seq<EffectView>,
    next: NextView,
)
    requires
        crate::round::step_taken(before, after, peers, StageView::Begin, effects, next),
    ensures
        !crate::consensus::raft_has_ready(before.0) ==> {
            &&& after == before
            &&& effects.len() == 0
            &&& next == (NextView::Ended { status: RoundStatus::Idle })
        },
        crate::consensus::raft_has_ready(before.0) ==> {
            let ready = crate::consensus::raft_pending(before.0);
            &&& crate::consensus::raft_calls(after.0) == crate::consensus::raft_calls(
                before.0,
            ).push(RaftCall::Ready { ready })
            &&& after.1@ == before.1@
            &&& after.2 == before.2
            &&& effects == crate::outbox::batches(ready.messages, peers)
            &&& next == (NextView::Continue {
                stage: StageView::Taken {
                    ready: ReadyView {
                        has_snapshot: ready.has_snapshot,
                        messages: Seq::empty(),
                        persisted_messages: ready.persisted_messages,
                        committed: ready.committed,
                        entries: ready.entries,
                        hard_state: ready.hard_state,
                    },
                },
            })
        },
{
    let answers = choose|answers: Answers| #[trigger]
        crate::round::step_answered(
            before,
            after,
            peers,
            StageView::Begin,
            effects,
            next,
            answers,
        );
    assert(before.2.skip(0) =~= before.2);
    if crate::consensus::raft_has_ready(before.0) {
        let ready = crate::consensus::raft_pending(before.0);
        let calls = crate::consensus::raft_calls(before.0);
        assert(calls + seq![RaftCall::Ready { ready }] =~= calls.push(RaftCall::Ready { ready }));
    }
}

/// Then a snapshot is stored, where there is one, before anything else. If the storage
/// refuses it the round ends there, and nothing is applied. Otherwise exactly the entries
/// that were committed are applied, and the round goes on unless one could not be.
pub proof fn committed_work_is_applied(
    before: (RaftGroup, MQueuePool, Seq<Proposal>),
    after: (RaftGroup, MQueuePool, Seq<Proposal>),
    peers: Seq<u64>,
    ready: ReadyView,
    effects: Seq<EffectView>,
    next: NextView,
) -> (stored: bool)
    requires
        crate::round::step_taken(
            before,
            after,
            peers,
            StageView::Taken { ready },
            effects,
            next,
        ),
    ensures
        ({
            let old_calls = crate::consensus::raft_calls(before.0);
            let new_calls = crate::consensus::raft_calls(after.0);
            let applied = crate::replica::apply_all(
                (ReplicaView {
                    queues: before.1@,
                    voters: crate::consensus::raft_voters(before.0),
                    joint: crate::consensus::raft_joint(before.0),
                }),
                ready.committed,
                (Standing {
                    id: crate::consensus::raft_settings(before.0).id,
                    leads: crate::consensus::raft_is_leader(before.0),
                    member: crate::consensus::raft_member(before.0),
                }),
                before.2.len(),
            );
            if ready.has_snapshot && !stored {
                &&& new_calls == old_calls.push(RaftCall::ApplySnapshot { stored: false })
                &&& after.1@ == before.1@
                &&& after.2 == before.2
                &&& effects.len() == 0
                &&& next == (NextView::Ended { status: RoundStatus::Stalled })
            } else {
                &&& ready.has_snapshot ==> new_calls == old_calls.push(
                    RaftCall::ApplySnapshot { stored: true },
                ) + applied.calls
                &&& !ready.has_snapshot ==> new_calls == old_calls + applied.calls
                &&& after.1@ == applied.replica.queues
                &&& crate::consensus::raft_voters(after.0) == applied.replica.voters
                &&& effects.len() == applied.replies.len()
                &&& forall|i: int|
                    0 <= i < effects.len() ==> (#[trigger] effects[i])->outcome == Ok::<
                        Option<MessageView>,
                        Refused,
                    >(applied.replies[i])
                &&& match applied.fault {
                    Some(fault) => next == (NextView::Ended {
                        status: RoundStatus::Failed(fault),
                    }),
                    None => next == (NextView::Continue {
                        stage: StageView::Applied {
                            ready: ReadyView {
                                has_snapshot: ready.has_snapshot,
                                messages: ready.messages,
                                persisted_messages: ready.persisted_messages,
                                committed: Seq::empty(),
                                entries: ready.entries,
                                hard_state: ready.hard_state,
                            },
                        },
                    }),
                }
            }
        }),
{
    let answers = choose|answers: Answers| #[trigger]
        crate::round::step_answered(
            before,
            after,
            peers,
            StageView::Taken { ready },
            effects,
            next,
            answers,
        );
    let stored = answers.snapshot_stored;
    let calls = crate::consensus::raft_calls(before.0);
    let applied = crate::replica::apply_all(
        crate::replica::replica_view(before.0, before.1),
        ready.committed,
        crate::consensus::standing(before.0),
        before.2.len(),
    );
    assert(before.2.skip(0) =~= before.2);
    if ready.has_snapshot {
        let call = RaftCall::ApplySnapshot { stored };
        assert(calls + seq![call] =~= calls.push(call));
        assert(calls + (seq![call] + applied.calls) =~= calls.push(call) + applied.calls);
    } else {
        assert(calls + (Seq::<RaftCall>::empty() + applied.calls) =~= calls + applied.calls);
    }
    stored
}

/// Then the new entries are stored, and right after them the hard state, exactly if it is
/// new; only then the messages leave that had to wait for that. If the storage refuses the
/// entries nothing of this happens. A leader that is no longer a member of its group and has
/// stored entries ends there. Queues and proposals are left alone.
pub proof fn entries_and_hard_state_are_stored(
    before: (RaftGroup, MQueuePool, Seq<Proposal>),
    after: (RaftGroup, MQueuePool, Seq<Proposal>),
    peers: Seq<u64>,
    ready: ReadyView,
    effects: Seq<EffectView>,
    next: NextView,
) -> (stored: bool)
    requires
        crate::round::step_taken(
            before,
            after,
            peers,
            StageView::Applied { ready },
            effects,
            next,
        ),
    ensures
        after.1@ == before.1@,
        after.2 == before.2,
        ({
            let old_calls = crate::consensus::raft_calls(before.0);
            let new_calls = crate::consensus::raft_calls(after.0);
            let append = RaftCall::Append { entries: ready.entries, stored };
            if !stored {
                &&& new_calls == old_calls.push(append)
                &&& effects.len() == 0
                &&& next == (NextView::Ended { status: RoundStatus::Stalled })
            } else {
                &&& match ready.hard_state {
                    Some(hard_state) => new_calls == old_calls.push(append).push(
                        RaftCall::SetHardState { hard_state },
                    ),
                    None => new_calls == old_calls.push(append),
                }
                &&& effects == crate::outbox::batches(ready.persisted_messages, peers)
                &&& crate::consensus::raft_is_leader(before.0) && !crate::consensus::raft_member(
                    before.0,
                ) && ready.entries.len() > 0 ==> next == (NextView::Ended {
                    status: RoundStatus::Failed(Fault::LeaderRemoved),
                })
                &&& !(crate::consensus::raft_is_leader(before.0) && !crate::consensus::raft_member(
                    before.0,
                ) && ready.entries.len() > 0) ==> next == (NextView::Continue {
                    stage: StageView::Stored {
                        ready: ReadyView {
                            has_snapshot: ready.has_snapshot,
                            messages: ready.messages,
                            persisted_messages: Seq::empty(),
                            committed: ready.committed,
                            entries: ready.entries,
                            hard_state: ready.hard_state,
                        },
                    },
                })
            }
        }),
{
    let answers = choose|answers: Answers| #[trigger]
        crate::round::step_answered(
            before,
            after,
            peers,
            StageView::Applied { ready },
            effects,
            next,
            answers,
        );
    let stored = answers.entries_stored;
    let calls = crate::consensus::raft_calls(before.0);
    let append = RaftCall::Append { entries: ready.entries, stored };
    assert(before.2.skip(0) =~= before.2);
    assert(calls + seq![append] =~= calls.push(append));
    match ready.hard_state {
        Some(hard_state) => {
            let set = RaftCall::SetHardState { hard_state };
            assert(calls + (seq![append] + seq![set]) =~= calls.push(append).push(set));
        },
        None => {
            assert(calls + (seq![append] + Seq::<RaftCall>::empty()) =~= calls.push(append));
        },
    }
    stored
}

/// Then the work is given back, and right after that the commit index is stored, exactly if
/// raft hands out a new one; then the messages leave that raft hands out. Queues and
/// proposals are left alone.
pub proof fn work_is_given_back(
    before: (RaftGroup, MQueuePool, Seq<Proposal>),
    after: (RaftGroup, MQueuePool, Seq<Proposal>),
    peers: Seq<u64>,
    ready: ReadyView,
    effects: Seq<EffectView>,
    next: NextView,
) -> (light: LightView)
    requires
        crate::round::step_taken(
            before,
            after,
            peers,
            StageView::Stored { ready },
            effects,
            next,
        ),
    ensures
        after.1@ == before.1@,
        after.2 == before.2,
        effects == crate::outbox::batches(light.messages, peers),
        next == (NextView::Continue {
            stage: StageView::Advanced {
                light: LightView {
                    commit_index: light.commit_index,
                    messages: Seq::empty(),
                    committed: light.committed,
                },
            },
        }),
        match light.commit_index {
            Some(commit) => crate::consensus::raft_calls(after.0) == crate::consensus::raft_calls(
                before.0,
            ).push(RaftCall::Advance { light }).push(RaftCall::SetCommit { commit }),
            None => crate::consensus::raft_calls(after.0) == crate::consensus::raft_calls(
                before.0,
            ).push(RaftCall::Advance { light }),
        },
{
    let answers = choose|answers: Answers| #[trigger]
        crate::round::step_answered(
            before,
            after,
            peers,
            StageView::Stored { ready },
            effects,
            next,
            answers,
        );
    let light = answers.light;
    let calls = crate::consensus::raft_calls(before.0);
    let advance = RaftCall::Advance { light };
    assert(before.2.skip(0) =~= before.2);
    match light.commit_index {
        Some(commit) => {
            let set = RaftCall::SetCommit { commit };
            assert(calls + (seq![advance] + seq![set]) =~= calls.push(advance).push(set));
        },
        None => {
            assert(calls + (seq![advance] + Seq::<RaftCall>::empty()) =~= calls.push(advance));
        },
    }
    light
}

/// Then exactly the entries are applied that raft handed out as committed, and the round goes
/// on unless one could not be.
pub proof fn late_work_is_applied(
    before: (RaftGroup, MQueuePool, Seq<Proposal>),
    after: (RaftGroup, MQueuePool, Seq<Proposal>),
    peers: Seq<u64>,
    light: LightView,
    effects: Seq<EffectView>,
    next: NextView,
)
    requires
        crate::round::step_taken(
            before,
            after,
            peers,
            StageView::Advanced { light },
            effects,
            next,
        ),
    ensures
        ({
            let applied = crate::replica::apply_all(
                (ReplicaView {
                    queues: before.1@,
                    voters: crate::consensus::raft_voters(before.0),
                    joint: crate::consensus::raft_joint(before.0),
                }),
                light.committed,
                (Standing {
                    id: crate::consensus::raft_settings(before.0).id,
                    leads: crate::consensus::raft_is_leader(before.0),
                    member: crate::consensus::raft_member(before.0),
                }),
                before.2.len(),
            );
            &&& crate::consensus::raft_calls(after.0) == crate::consensus::raft_calls(before.0)
                + applied.calls
            &&& after.1@ == applied.replica.queues
            &&& crate::consensus::raft_voters(after.0) == applied.replica.voters
            &&& effects.len() == applied.replies.len()
            &&& forall|i: int|
                0 <= i < effects.len() ==> (#[trigger] effects[i])->outcome == Ok::<
                    Option<MessageView>,
                    Refused,
                >(applied.replies[i])
            &&& match applied.fault {
                Some(fault) => next == (NextView::Ended { status: RoundStatus::Failed(fault) }),
                None => next == (NextView::Continue { stage: StageView::Settling }),
            }
        }),
{
    let answers = choose|answers: Answers| #[trigger]
        crate::round::step_answered(
            before,
            after,
            peers,
            StageView::Advanced { light },
            effects,
            next,
            answers,
        );
    let applied = crate::replica::apply_all(
        crate::replica::replica_view(before.0, before.1),
        light.committed,
        crate::consensus::standing(before.0),
        before.2.len(),
    );
    assert(Seq::<RaftCall>::empty() + applied.calls =~= applied.calls);
}

/// Last of all raft learns that everything has been applied, and the round is done.
pub proof fn round_settles(
    before: (RaftGroup, MQueuePool, Seq<Proposal>),
    after: (RaftGroup, MQueuePool, Seq<Proposal>),
    peers: Seq<u64>,
    effects: Seq<EffectView>,
    next: NextView,
)
    requires
        crate::round::step_taken(before, after, peers, StageView::Settling, effects, next),
    ensures
        crate::consensus::raft_calls(after.0) == crate::consensus::raft_calls(before.0).push(
            RaftCall::AdvanceApply,
        ),
        after.1@ == before.1@,
        after.2 == before.2,
        effects.len() == 0,
        next == (NextView::Ended { status: RoundStatus::Done }),
{
    let calls = crate::consensus::raft_calls(before.0);
    assert(before.2.skip(0) =~= before.2);
    assert(calls + seq![RaftCall::AdvanceApply] =~= calls.push(RaftCall::AdvanceApply));
}

/// Nothing of the kind that stores entries or a hard state, or gives work back.
pub open spec fn stores_nothing(events: Seq<Event>) -> bool {
    forall|k: int|
        0 <= k < events.len() ==> !(#[trigger] events[k] matches Event::Call { call } && (
        call is Append || call is SetHardState || call is Advance))
}

/// A round that is done stores its entries once. Right after that it stores the hard state,
/// once, if the work brings a new one, and never if it does not. Only then the messages
/// leave that had to wait for that, and only then the work is given back.
pub proof fn hard_state_is_stored_once(
    situation: Situation,
    answers: Answers,
) -> (parts: (Seq<Event>, Seq<Event>, Seq<Event>))
    requires
        crate::round::round_from(StageView::Begin, situation, answers).status
            == RoundStatus::Done,
    ensures
        answers.ready is Some,
        ({
            let ready = answers.ready->0;
            let append = Event::Call {
                call: RaftCall::Append { entries: ready.entries, stored: true },
            };
            let advance = Event::Call { call: RaftCall::Advance { light: answers.light } };
            let waited = crate::outbox::batches(ready.persisted_messages, situation.peers);
            let events = crate::round::round_from(StageView::Begin, situation, answers).events;
            &&& match ready.hard_state {
                Some(hard_state) => events == parts.0 + seq![
                    append,
                    Event::Call { call: RaftCall::SetHardState { hard_state } },
                ] + parts.1 + seq![advance] + parts.2,
                None => events == parts.0 + seq![append] + parts.1 + seq![advance] + parts.2,
            }
            &&& stores_nothing(parts.0)
            &&& stores_nothing(parts.1)
            &&& stores_nothing(parts.2)
            &&& parts.1.len() == waited.len()
            &&& forall|k: int|
                0 <= k < waited.len() ==> #[trigger] parts.1[k] == (Event::Leave {
                    effect: waited[k],
                })
        }),
{
    crate::laws::round_keeps_order(situation, answers);
    let ready = answers.ready->0;
    let light = answers.light;
    let peers = situation.peers;
    let one = crate::replica::apply_all(
        situation.replica,
        ready.committed,
        situation.standing,
        situation.proposals.len(),
    );
    let left = situation.proposals.skip(one.replies.len() as int);
    let two = crate::replica::apply_all(
        one.replica,
        light.committed,
        Standing { member: one.member, ..situation.standing },
        left.len(),
    );
    applying_changes_configuration_only(
        situation.replica,
        ready.committed,
        situation.standing,
        situation.proposals.len(),
    );
    applying_changes_configuration_only(
        one.replica,
        light.committed,
        Standing { member: one.member, ..situation.standing },
        left.len(),
    );
    let begun = crate::round::stage_events(
        seq![RaftCall::Ready { ready }],
        crate::outbox::batches(ready.messages, peers),
    );
    let applied = crate::round::stage_events(
        crate::round::snapshot_calls(ready, true) + one.calls,
        crate::replica::replies_to(situation.proposals, one.replies),
    );
    let append = RaftCall::Append { entries: ready.entries, stored: true };
    let advance = RaftCall::Advance { light };
    let waited = crate::round::leaving(crate::outbox::batches(ready.persisted_messages, peers));
    let rest = crate::round::stage_events(
        crate::round::commit_calls(light),
        crate::outbox::batches(light.messages, peers),
    );
    let late = crate::round::stage_events(two.calls, crate::replica::replies_to(left, two.replies));
    let settled = crate::round::stage_events(seq![RaftCall::AdvanceApply], Seq::empty());
    let parts = (begun + applied, waited, rest + (late + settled));
    let stored = crate::round::stage_events(
        seq![append] + crate::round::hard_state_calls(ready.hard_state),
        crate::outbox::batches(ready.persisted_messages, peers),
    );
    let back = crate::round::stage_events(
        seq![advance] + crate::round::commit_calls(light),
        crate::outbox::batches(light.messages, peers),
    );
    match ready.hard_state {
        Some(hard_state) => {
            assert(stored =~= seq![
                Event::Call { call: append },
                Event::Call { call: RaftCall::SetHardState { hard_state } },
            ] + waited);
        },
        None => {
            assert(stored =~= seq![Event::Call { call: append }] + waited);
        },
    }
    assert(back =~= seq![Event::Call { call: advance }] + rest);
    let events = crate::round::round_from(StageView::Begin, situation, answers).events;
    assert(events == begun + (applied + (stored + (back + (late + settled)))));
    rearranged(begun, applied, stored, back, late + settled);
    match ready.hard_state {
        Some(hard_state) => {
            let head = seq![
                Event::Call { call: append },
                Event::Call { call: RaftCall::SetHardState { hard_state } },
            ];
            regrouped(parts.0, head, waited, seq![Event::Call { call: advance }], rest, late + settled);
        },
        None => {
            let head = seq![Event::Call { call: append }];
            regrouped(parts.0, head, waited, seq![Event::Call { call: advance }], rest, late + settled);
        },
    }
    assert(stores_nothing(begun));
    assert(stores_nothing(applied));
    assert(stores_nothing(rest));
    assert(stores_nothing(late));
    assert(stores_nothing(settled));
    parts
}

proof fn rearranged(a: Seq<Event>, b: Seq<Event>, c: Seq<Event>, d: Seq<Event>, e: Seq<Event>)
    ensures
        a + (b + (c + (d + e))) == a + b + c + (d + e),
{
    assert(a + (b + (c + (d + e))) =~= a + b + c + (d + e));
}

proof fn regrouped(
    a: Seq<Event>,
    b: Seq<Event>,
    c: Seq<Event>,
    d: Seq<Event>,
    e: Seq<Event>,
    f: Seq<Event>,
)
    ensures
        a + (b + c) + ((d + e) + f) == a + b + c + d + (e + f),
{
    assert(a + (b + c) + ((d + e) + f) =~= a + b + c + d + (e + f));
}

/// Applying entries makes no other calls than those that change the configuration.
proof fn applying_changes_configuration_only(
    replica: ReplicaView,
    entries: Seq<LogEntryView>,
    standing: Standing,
    pending: nat,
)
    ensures
        forall|k: int|
            0 <= k < crate::replica::apply_all(replica, entries, standing, pending).calls.len()
                ==> {
                let call = #[trigger] crate::replica::apply_all(
                    replica,
                    entries,
                    standing,
                    pending,
                ).calls[k];
                call is ApplyConfChange || call is SetConfState
            },
    decreases entries.len(),
{
    if entries.len() > 0 {
        applying_changes_configuration_only(replica, entries.drop_last(), standing, pending);
    }
}

/// The number of ticks among calls.
pub open spec fn ticks(calls: Seq<RaftCall>) -> nat
    decreases calls.len(),
{
    if calls.len() == 0 {
        0
    } else {
        ticks(calls.drop_last()) + if calls.last() is Tick {
            1nat
        } else {
            0nat
        }
    }
}

/// Something that a node's loop does with its group.
pub enum Move {
    /// A stage of a turn.
    Stage {
        stage: TurnStage,
        peers: Seq<u64>,
        effects: Seq<EffectView>,
        ticked: bool,
        next: TurnNext,
    },
    /// The message of a peer is stepped in.
    Peer { message: PeerMessageView },
}

/// What a move makes of a group, its queues and the proposals.
pub open spec fn moved(
    before: (RaftGroup, MQueuePool, Seq<Proposal>),
    after: (RaftGroup, MQueuePool, Seq<Proposal>),
    move_made: Move,
) -> bool {
    match move_made {
        Move::Stage { stage, peers, effects, ticked, next } => crate::node::turn_taken(
            before,
            after,
            peers,
            stage,
            effects,
            ticked,
            next,
        ),
        Move::Peer { message } => crate::node::node_stepped(
            Node { raft_group: Some(before.0) },
            Node { raft_group: Some(after.0) },
            message,
        ),
    }
}

/// The number of moves in which a tick was due.
pub open spec fn ticks_due(moves: Seq<Move>) -> nat
    decreases moves.len(),
{
    if moves.len() == 0 {
        0
    } else {
        ticks_due(moves.drop_last()) + match moves.last() {
            Move::Stage { stage: TurnStage::Tick { due: true }, .. } => 1nat,
            _ => 0nat,
        }
    }
}

proof fn ticks_add_up(first: Seq<RaftCall>, second: Seq<RaftCall>)
    ensures
        ticks(first + second) == ticks(first) + ticks(second),
    decreases second.len(),
{
    if second.len() == 0 {
        assert(first + second =~= first);
    } else {
        ticks_add_up(first, second.drop_last());
        assert((first + second).drop_last() =~= first + second.drop_last());
    }
}

proof fn without_ticks(calls: Seq<RaftCall>)
    requires
        forall|k: int| 0 <= k < calls.len() ==> !((#[trigger] calls[k]) is Tick),
    ensures
        ticks(calls) == 0,
    decreases calls.len(),
{
    if calls.len() > 0 {
        without_ticks(calls.drop_last());
        assert(!(calls[calls.len() - 1] is Tick));
    }
}

proof fn proposing_does_not_tick(proposals: Seq<Proposal>)
    ensures
        forall|k: int|
            0 <= k < crate::proposal::proposal_calls(proposals).len() ==> !((
            #[trigger] crate::proposal::proposal_calls(proposals)[k]) is Tick),
    decreases proposals.len(),
{
    if proposals.len() > 0 {
        proposing_does_not_tick(proposals.drop_last());
    }
}

/// A stage of a turn ticks the group once if it is a tick that is due, and never
/// otherwise. A tick that is not due makes no call at all and leaves the group as it is. In
/// either case nothing leaves the node, queues and proposals are left alone, and the turn
/// goes on with the proposals.
pub proof fn group_is_ticked_when_due(
    before: (RaftGroup, MQueuePool, Seq<Proposal>),
    after: (RaftGroup, MQueuePool, Seq<Proposal>),
    peers: Seq<u64>,
    stage: TurnStage,
    effects: Seq<EffectView>,
    ticked: bool,
    next: TurnNext,
)
    requires
        crate::node::turn_taken(before, after, peers, stage, effects, ticked, next),
    ensures
        ticked <==> stage == (TurnStage::Tick { due: true }),
        stage == (TurnStage::Tick { due: true }) ==> crate::consensus::raft_calls(after.0)
            == crate::consensus::raft_calls(before.0).push(RaftCall::Tick),
        stage == (TurnStage::Tick { due: false }) ==> after == before,
        stage is Tick ==> {
            &&& effects.len() == 0
            &&& after.1 == before.1
            &&& after.2 == before.2
            &&& next == (TurnNext::Continue { stage: TurnStage::Propose })
        },
        ticks(crate::consensus::raft_calls(after.0)) == ticks(
            crate::consensus::raft_calls(before.0),
        ) + if stage == (TurnStage::Tick { due: true }) {
            1nat
        } else {
            0nat
        },
{
    let old_calls = crate::consensus::raft_calls(before.0);
    match stage {
        TurnStage::Tick { due } => {
            if due {
                assert(old_calls.push(RaftCall::Tick).drop_last() =~= old_calls);
            }
        },
        TurnStage::Propose => {
            if crate::consensus::raft_is_leader(before.0) {
                let put = before.2.skip(crate::proposal::proposed_prefix(before.2) as int);
                proposing_does_not_tick(put);
                without_ticks(crate::proposal::proposal_calls(put));
                ticks_add_up(old_calls, crate::proposal::proposal_calls(put));
            }
        },
        TurnStage::Handle { stage } => {
            let answers = choose|answers: Answers| #[trigger]
                crate::round::step_answered(
                    before,
                    after,
                    peers,
                    stage@,
                    effects,
                    crate::node::turn_next(next),
                    answers,
                );
            let situation = crate::round::situation_of(before, peers);
            let calls = crate::round::step_of(stage@, situation, answers).calls;
            match stage@ {
                StageView::Taken { ready } => {
                    applying_changes_configuration_only(
                        situation.replica,
                        ready.committed,
                        situation.standing,
                        situation.proposals.len(),
                    );
                },
                StageView::Advanced { light } => {
                    applying_changes_configuration_only(
                        situation.replica,
                        light.committed,
                        situation.standing,
                        situation.proposals.len(),
                    );
                },
                _ => {},
            }
            without_ticks(calls);
            ticks_add_up(old_calls, calls);
        },
    }
}

/// However a node's loop goes on, the group is ticked exactly as often as a tick was due.
pub proof fn ticks_are_those_that_were_due(
    states: Seq<(RaftGroup, MQueuePool, Seq<Proposal>)>,
    moves: Seq<Move>,
)
    requires
        states.len() == moves.len() + 1,
        forall|i: int|
            0 <= i < moves.len() ==> #[trigger] moved(states[i], states[i + 1], moves[i]),
    ensures
        ticks(crate::consensus::raft_calls(states.last().0)) == ticks(
            crate::consensus::raft_calls(states[0].0),
        ) + ticks_due(moves),
    decreases moves.len(),
{
    if moves.len() > 0 {
        let n = moves.len() - 1;
        let earlier = states.drop_last();
        assert forall|i: int| 0 <= i < n implies #[trigger] moved(
            earlier[i],
            earlier[i + 1],
            moves.drop_last()[i],
        ) by {
            assert(moved(states[i], states[i + 1], moves[i]));
        }
        ticks_are_those_that_were_due(earlier, moves.drop_last());
        assert(moved(states[n], states[n + 1], moves[n]));
        match moves[n] {
            Move::Stage { stage, peers, effects, ticked, next } => {
                group_is_ticked_when_due(
                    states[n],
                    states[n + 1],
                    peers,
                    stage,
                    effects,
                    ticked,
                    next,
                );
            },
            Move::Peer { message } => {
                let calls = crate::consensus::raft_calls(states[n].0);
                let call = RaftCall::Step { message: message.bytes };
                assert(calls.push(call).drop_last() =~= calls);
            },
        }
    }
}

/// A turn goes from the tick to the proposals and from there to the outstanding work, which
/// is begun anew. A node that does not lead takes up no proposals, and nothing changes.
pub proof fn turn_keeps_its_order(
    before: (RaftGroup, MQueuePool, Seq<Proposal>),
    after: (RaftGroup, MQueuePool, Seq<Proposal>),
    peers: Seq<u64>,
    stage: TurnStage,
    effects: Seq<EffectView>,
    ticked: bool,
    next: TurnNext,
)
    requires
        crate::node::turn_taken(before, after, peers, stage, effects, ticked, next),
    ensures
        stage is Tick ==> next == (TurnNext::Continue { stage: TurnStage::Propose }),
        stage is Propose ==> next == (TurnNext::Continue {
            stage: TurnStage::Handle { stage: Stage::Begin },
        }) && after.1 == before.1,
        stage is Propose && !crate::consensus::raft_is_leader(before.0) ==> after == before
            && effects.len() == 0,
        stage is Handle ==> match next {
            TurnNext::Continue { stage: following } => following matches TurnStage::Handle {
                stage: handled,
            } && crate::round::step_taken(
                before,
                after,
                peers,
                stage->stage@,
                effects,
                NextView::Continue { stage: handled@ },
            ),
            TurnNext::Ended { status } => crate::round::step_taken(
                before,
                after,
                peers,
                stage->stage@,
                effects,
                NextView::Ended { status },
            ),
        },
{
}

/// Entries take effect one after the other: one entry more starts from what those before it
/// have left, and answers the next proposal in the queue.
pub proof fn entries_follow_each_other(
    replica: ReplicaView,
    entries: Seq<LogEntryView>,
    entry: LogEntryView,
    standing: Standing,
    pending: nat,
)
    ensures
        ({
            let first = crate::replica::apply_all(replica, entries, standing, pending);
            let all = crate::replica::apply_all(replica, entries.push(entry), standing, pending);
            let one = crate::replica::apply_all(
                first.replica,
                seq![entry],
                (Standing { id: standing.id, leads: standing.leads, member: first.member }),
                (pending - first.replies.len()) as nat,
            );
            &&& first.replies.len() <= pending
            &&& first.fault is None ==> {
                &&& all.replica == one.replica
                &&& all.member == one.member
                &&& all.replies == first.replies + one.replies
                &&& all.calls == first.calls + one.calls
                &&& all.fault == one.fault
            }
        }),
{
    let first = crate::replica::apply_all(replica, entries, standing, pending);
    crate::replica::replies_are_bounded(replica, entries, standing, pending);
    assert(entries.push(entry).drop_last() =~= entries);
    let seen = Standing { id: standing.id, leads: standing.leads, member: first.member };
    let left = (pending - first.replies.len()) as nat;
    reveal_with_fuel(crate::replica::apply_all, 2);
    assert(seq![entry].drop_last() =~= Seq::<LogEntryView>::empty());
    let one = crate::replica::apply_all(first.replica, seq![entry], seen, left);
    let all = crate::replica::apply_all(replica, entries.push(entry), standing, pending);
    if first.fault is None {
        assert(all.calls =~= first.calls + one.calls);
        assert(all.replies =~= first.replies + one.replies);
    }
}

/// A batch holds exactly the messages for its peer, in the order in which raft handed them
/// out.
pub proof fn addressed_keeps_what_is_meant(messages: Seq<PeerMessageView>, to: u64)
    ensures
        crate::outbox::addressed(Seq::empty(), to).len() == 0,
        forall|message: PeerMessageView| #[trigger]
            crate::outbox::addressed(messages.push(message), to) == if message.to == to {
                crate::outbox::addressed(messages, to).push(message)
            } else {
                crate::outbox::addressed(messages, to)
            },
        forall|k: int|
            0 <= k < crate::outbox::addressed(messages, to).len() ==> (
            #[trigger] crate::outbox::addressed(messages, to)[k]).to == to,
        forall|message: PeerMessageView|
            messages.contains(message) && message.to == to ==> #[trigger] crate::outbox::addressed(
                messages,
                to,
            ).contains(message),
    decreases messages.len(),
{
    reveal(Seq::filter);
    assert forall|message: PeerMessageView| #[trigger]
        crate::outbox::addressed(messages.push(message), to) == if message.to == to {
            crate::outbox::addressed(messages, to).push(message)
        } else {
            crate::outbox::addressed(messages, to)
        } by {
        assert(messages.push(message).drop_last() =~= messages);
    }
    if messages.len() > 0 {
        let earlier = messages.drop_last();
        let last = messages.last();
        addressed_keeps_what_is_meant(earlier, to);
        assert(earlier.push(last) =~= messages);
        let all = crate::outbox::addressed(messages, to);
        let before = crate::outbox::addressed(earlier, to);
        assert forall|message: PeerMessageView|
            messages.contains(message) && message.to == to implies #[trigger] all.contains(
            message,
        ) by {
            let k = choose|k: int| 0 <= k < messages.len() && messages[k] == message;
            if k < earlier.len() {
                assert(earlier[k] == message);
                assert(before.contains(message));
                let at = choose|at: int| 0 <= at < before.len() && before[at] == message;
                assert(all[at] == message);
            } else {
                assert(all[all.len() - 1] == message);
            }
        }
    }
}

/// One batch for each peer to which something is addressed, in the order of the peers, and
/// no other: a peer more adds its batch behind the others, if there is something for it.
pub proof fn batches_follow_the_peers(
    messages: Seq<PeerMessageView>,
    peers: Seq<u64>,
    peer: u64,
)
    ensures
        crate::outbox::batches(messages, Seq::empty()).len() == 0,
        ({
            let meant = crate::outbox::addressed(messages, peer);
            let before = crate::outbox::batches(messages, peers);
            crate::outbox::batches(messages, peers.push(peer)) == if meant.len() > 0 {
                before.push(EffectView::Send { to: peer, messages: meant })
            } else {
                before
            }
        }),
{
    assert(peers.push(peer).drop_last() =~= peers);
}

/// What leaves the node is all that the values of it say, and in the same order.
pub proof fn effects_are_what_they_say(effects: Seq<Effect>)
    ensures
        crate::outbox::effects_view(effects).len() == effects.len(),
        forall|i: int|
            0 <= i < effects.len() ==> match #[trigger] effects[i] {
                Effect::Send { to, messages } => {
                    let view = crate::outbox::effects_view(effects)[i];
                    &&& view is Send
                    &&& view->to == to
                    &&& view->messages.len() == messages@.len()
                    &&& forall|k: int|
                        0 <= k < messages@.len() ==> {
                            &&& (#[trigger] view->messages[k]).bytes == messages@[k].bytes@
                            &&& view->messages[k].to == messages@[k].to
                            &&& view->messages[k].msg_type == messages@[k].msg_type
                            &&& view->messages[k].term == messages@[k].term
                            &&& view->messages[k].commit == messages@[k].commit
                            &&& view->messages[k].priority == messages@[k].priority
                        }
                },
                Effect::Reply { reply_to, outcome } => {
                    let view = crate::outbox::effects_view(effects)[i];
                    &&& view is Reply
                    &&& view->reply_to == reply_to
                    &&& match outcome {
                        Ok(Some(message)) => view->outcome == Ok::<Option<MessageView>, Refused>(
                            Some(
                                MessageView { header: message.header, payload: message.payload@ },
                            ),
                        ),
                        Ok(None) => view->outcome == Ok::<Option<MessageView>, Refused>(None),
                        Err(refused) => view->outcome == Err::<Option<MessageView>, Refused>(
                            refused,
                        ),
                    }
                },
            },
{
}

/// Whether a proposal has something for the log.
pub open spec fn has_something(proposal: Proposal) -> bool {
    proposal.normal is Some || proposal.conf_change is Some
}

/// Whether a proposal is a configuration change and nothing else.
pub open spec fn is_change(proposal: Proposal) -> bool {
    proposal.normal is None && proposal.conf_change is Some
}

/// Proposals are put to the group in the order in which they wait, from the first on that
/// has not been proposed; what was proposed before is left alone. Each of them keeps all but
/// its index. A group that admits them numbers those that have something for the log, one
/// after the other and without gaps, after the last index that it had. A group that does not
/// admit them numbers nothing.
pub proof fn proposals_are_put_in_order(
    before: RaftGroup,
    after: RaftGroup,
    waiting: Seq<Proposal>,
    left: Seq<Proposal>,
    replies: Seq<EffectView>,
) -> (start: int)
    requires
        crate::proposal::pending_proposed(before, after, waiting, left, replies),
    ensures
        0 <= start <= waiting.len(),
        forall|i: int| 0 <= i < start ==> (#[trigger] waiting[i]).proposed > 0,
        start < waiting.len() ==> waiting[start].proposed == 0,
        left.len() == waiting.len(),
        forall|i: int| 0 <= i < start ==> #[trigger] left[i] == waiting[i],
        forall|i: int|
            start <= i < left.len() ==> #[trigger] left[i] == (Proposal {
                proposed: left[i].proposed,
                ..waiting[i]
            }),
        crate::consensus::raft_settings(after) == crate::consensus::raft_settings(before),
        crate::consensus::raft_is_leader(after) == crate::consensus::raft_is_leader(before),
        crate::consensus::raft_voters(after) == crate::consensus::raft_voters(before),
        crate::consensus::raft_member(after) == crate::consensus::raft_member(before),
        crate::consensus::raft_joint(after) == crate::consensus::raft_joint(before),
        !crate::consensus::raft_admits(before) ==> {
            &&& left == waiting
            &&& crate::consensus::raft_last_index(after) == crate::consensus::raft_last_index(
                before,
            )
        },
        crate::consensus::raft_admits(before) ==> {
            let last = crate::consensus::raft_last_index(before);
            let end = crate::consensus::raft_last_index(after);
            &&& last <= end
            &&& forall|i: int|
                start <= i < left.len() && !has_something(waiting[i]) ==> #[trigger] left[i]
                    == waiting[i]
            &&& forall|i: int|
                start <= i < left.len() && has_something(waiting[i]) ==> last < (
                #[trigger] left[i]).proposed <= end
            &&& forall|i: int, j: int|
                start <= i < j < left.len() && has_something(waiting[i]) && has_something(
                    waiting[j],
                ) ==> (#[trigger] left[i]).proposed < (#[trigger] left[j]).proposed
            &&& forall|k: u64| last < k <= end ==> #[trigger] numbered(waiting, left, start, k)
        },
{
    let start = crate::proposal::proposed_prefix(waiting) as int;
    let put = waiting.skip(start);
    let last = crate::consensus::raft_last_index(before);
    crate::proposal::prefix_is_proposed(waiting);
    if crate::consensus::raft_admits(before) {
        marked_length(put, last);
        let marks = crate::proposal::marked(put, last);
        assert forall|i: int| start <= i < left.len() implies #[trigger] left[i] == (Proposal {
            proposed: left[i].proposed,
            ..waiting[i]
        }) by {
            mark_at(put, last, i - start);
        }
        assert forall|i: int| start <= i < left.len() && !has_something(waiting[i]) implies
            #[trigger] left[i] == waiting[i] by {
            mark_at(put, last, i - start);
        }
        assert forall|i: int| start <= i < left.len() && has_something(waiting[i]) implies last < (
        #[trigger] left[i]).proposed <= last + crate::proposal::carried(put) by {
            mark_at(put, last, i - start);
            carried_before(put, i - start);
        }
        assert forall|i: int, j: int|
            start <= i < j < left.len() && has_something(waiting[i]) && has_something(
                waiting[j],
            ) implies (#[trigger] left[i]).proposed < (#[trigger] left[j]).proposed by {
            mark_at(put, last, i - start);
            mark_at(put, last, j - start);
            carried_before(put, i - start);
            carried_before(put, j - start);
            let shorter = put.take(j - start);
            carried_before(shorter, i - start);
            assert(shorter.take(i - start) =~= put.take(i - start));
        }
        assert forall|k: u64| last < k <= last + crate::proposal::carried(put) implies #[trigger]
            numbered(waiting, left, start, k) by {
            let at = carried_reaches(put, (k - last - 1) as nat);
            mark_at(put, last, at);
            assert(left[start + at] == marks[at]);
            assert(left[start + at].proposed == k);
        }
    }
    start
}

/// One of the proposals that were put has the index `k`.
pub open spec fn numbered(
    waiting: Seq<Proposal>,
    left: Seq<Proposal>,
    start: int,
    k: u64,
) -> bool {
    exists|i: int|
        start <= i < left.len() && has_something(waiting[i]) && (#[trigger] left[i]).proposed == k
}

/// Under the index of each proposal that was put the log holds its own message, encoded, or
/// its own change. Of the changes only the first is kept, and only if the group is open for
/// one; the others give way to empty entries. Nothing else in the log changes, and nothing at
/// all if the group does not admit proposals.
#[verifier::spinoff_prover]
pub proof fn log_holds_the_proposals(
    before: RaftGroup,
    after: RaftGroup,
    waiting: Seq<Proposal>,
    left: Seq<Proposal>,
    replies: Seq<EffectView>,
) -> (start: int)
    requires
        crate::proposal::pending_proposed(before, after, waiting, left, replies),
    ensures
        0 <= start <= waiting.len(),
        forall|i: int| 0 <= i < start ==> (#[trigger] waiting[i]).proposed > 0,
        start < waiting.len() ==> waiting[start].proposed == 0,
        !crate::consensus::raft_admits(before) ==> crate::consensus::raft_log(after)
            == crate::consensus::raft_log(before),
        crate::consensus::raft_admits(before) ==> forall|i: int|
            start <= i < left.len() && has_something(waiting[i]) ==> holds(
                crate::consensus::raft_log(after)[(#[trigger] left[i]).proposed],
                waiting[i],
                crate::consensus::raft_conf_open(before) && unchanged(
                    waiting.subrange(start, i),
                ),
            ),
        crate::consensus::raft_admits(before) ==> kept_outside(
            crate::consensus::raft_log(before),
            crate::consensus::raft_log(after),
            crate::consensus::raft_last_index(before),
            crate::consensus::raft_last_index(after),
        ),
{
    let start = crate::proposal::proposed_prefix(waiting) as int;
    let put = waiting.skip(start);
    let last = crate::consensus::raft_last_index(before);
    let open = crate::consensus::raft_conf_open(before);
    let log = crate::consensus::raft_log(after);
    crate::proposal::prefix_is_proposed(waiting);
    if crate::consensus::raft_admits(before) {
        marked_length(put, last);
        assert forall|i: int| start <= i < left.len() && has_something(waiting[i]) implies holds(
            log[(#[trigger] left[i]).proposed],
            waiting[i],
            open && unchanged(waiting.subrange(start, i)),
        ) by {
            mark_at(put, last, i - start);
            carried_before(put, i - start);
            assert(put[i - start] == waiting[i]);
            assert(put.take(i - start) =~= waiting.subrange(start, i));
            open_while_unchanged(open, put.take(i - start));
        }
        log_is_kept(
            crate::consensus::raft_log(before),
            log,
            last,
            crate::consensus::raft_last_index(after),
            open,
            put,
        );
    }
    start
}

/// Two logs are the same but for the indices after `last` up to `end`.
pub open spec fn kept_outside(
    before: Map<u64, LogEntryView>,
    after: Map<u64, LogEntryView>,
    last: u64,
    end: u64,
) -> bool {
    &&& forall|k: u64|
        k <= last || k > end ==> (before.contains_key(k) <==> #[trigger] after.contains_key(k))
    &&& forall|k: u64| k <= last || k > end ==> #[trigger] after[k] == before[k]
}

proof fn log_is_kept(
    before: Map<u64, LogEntryView>,
    after: Map<u64, LogEntryView>,
    last: u64,
    end: u64,
    open: bool,
    proposals: Seq<Proposal>,
)
    requires
        crate::proposal::log_extended(before, after, last, open, proposals),
        end == last + crate::proposal::carried(proposals),
    ensures
        kept_outside(before, after, last, end),
{
    assert forall|k: u64| k <= last || k > end implies #[trigger] after[k] == before[k] by {
        assert(before.contains_key(k) <==> after.contains_key(k));
    }
}

/// None of the proposals is a configuration change.
pub open spec fn unchanged(proposals: Seq<Proposal>) -> bool {
    forall|k: int| 0 <= k < proposals.len() ==> !is_change(#[trigger] proposals[k])
}

/// The entry holds what the proposal has for the log, or nothing if that is a change and the
/// group is not open for one.
pub open spec fn holds(entry: LogEntryView, proposal: Proposal, open: bool) -> bool {
    match proposal.normal {
        Some(message) => entry.entry_type == 0 && entry.data == crate::message::encoded(message@),
        None => if open {
            entry.entry_type == 1 && crate::consensus::conf_change_parsed(entry.data) == Some(
                proposal.conf_change->0@,
            )
        } else {
            entry.entry_type == 0 && entry.data.len() == 0
        },
    }
}

proof fn marked_length(proposals: Seq<Proposal>, last: u64)
    ensures
        crate::proposal::marked(proposals, last).len() == proposals.len(),
    decreases proposals.len(),
{
    if proposals.len() > 0 {
        marked_length(proposals.drop_last(), last);
    }
}

proof fn mark_at(proposals: Seq<Proposal>, last: u64, i: int)
    requires
        0 <= i < proposals.len(),
    ensures
        crate::proposal::marked(proposals, last)[i] == if has_something(proposals[i]) {
            Proposal {
                proposed: (last + 1 + crate::proposal::carried(proposals.take(i))) as u64,
                ..proposals[i]
            }
        } else {
            proposals[i]
        },
    decreases proposals.len(),
{
    let earlier = proposals.drop_last();
    marked_length(earlier, last);
    if i == proposals.len() - 1 {
        assert(proposals.take(i) =~= earlier);
    } else {
        mark_at(earlier, last, i);
        assert(earlier.take(i) =~= proposals.take(i));
    }
}

proof fn carried_before(proposals: Seq<Proposal>, i: int)
    requires
        0 <= i < proposals.len(),
    ensures
        crate::proposal::carried(proposals.take(i)) + (if has_something(proposals[i]) {
            1nat
        } else {
            0nat
        }) <= crate::proposal::carried(proposals),
    decreases proposals.len(),
{
    if i == proposals.len() - 1 {
        assert(proposals.take(i) =~= proposals.drop_last());
    } else {
        carried_before(proposals.drop_last(), i);
        assert(proposals.drop_last().take(i) =~= proposals.take(i));
    }
}

proof fn carried_reaches(proposals: Seq<Proposal>, k: nat) -> (at: int)
    requires
        k < crate::proposal::carried(proposals),
    ensures
        0 <= at < proposals.len(),
        has_something(proposals[at]),
        crate::proposal::carried(proposals.take(at)) == k,
    decreases proposals.len(),
{
    let earlier = proposals.drop_last();
    if k < crate::proposal::carried(earlier) {
        let at = carried_reaches(earlier, k);
        assert(earlier.take(at) =~= proposals.take(at));
        at
    } else {
        assert(proposals.take(proposals.len() - 1) =~= earlier);
        proposals.len() - 1
    }
}

proof fn open_while_unchanged(open: bool, proposals: Seq<Proposal>)
    ensures
        crate::proposal::open_after(open, proposals) <==> open && unchanged(proposals),
    decreases proposals.len(),
{
    if proposals.len() > 0 {
        let earlier = proposals.drop_last();
        open_while_unchanged(open, earlier);
        if unchanged(earlier) && !is_change(proposals.last()) {
            assert forall|k: int| 0 <= k < proposals.len() implies !is_change(
                #[trigger] proposals[k],
            ) by {
                if k < earlier.len() {
                    assert(!is_change(earlier[k]));
                }
            }
        } else if unchanged(proposals) {
            assert forall|k: int| 0 <= k < earlier.len() implies !is_change(
                #[trigger] earlier[k],
            ) by {
                assert(!is_change(proposals[k]));
            }
            assert(!is_change(proposals[proposals.len() - 1]));
        }
    }
}

/// Whoever proposed in vain is told so, in the order in which they wait, each on its own
/// channel, and nobody else is told anything. A proposal is in vain if the group does not
/// admit it or if it has nothing for the log. One proposal more, at the end, adds one reply
/// at the end in that case, and none otherwise; and it adds one call at the end, with its own
/// message or change, if it has something for the log.
pub proof fn refusals_follow_the_proposals(
    proposals: Seq<Proposal>,
    proposal: Proposal,
    admits: bool,
)
    ensures
        crate::proposal::refusals(crate::proposal::refused(Seq::empty(), admits)).len() == 0,
        crate::proposal::proposal_calls(Seq::empty()).len() == 0,
        ({
            let before = crate::proposal::refusals(crate::proposal::refused(proposals, admits));
            let after = crate::proposal::refusals(
                crate::proposal::refused(proposals.push(proposal), admits),
            );
            after == if admits && has_something(proposal) {
                before
            } else {
                before.push(
                    EffectView::Reply {
                        reply_to: proposal.propose_success,
                        outcome: Err(Refused),
                    },
                )
            }
        }),
        ({
            let before = crate::proposal::proposal_calls(proposals);
            let after = crate::proposal::proposal_calls(proposals.push(proposal));
            match (proposal.normal, proposal.conf_change) {
                (Some(message), _) => after == before.push(
                    RaftCall::Propose { data: crate::message::encoded(message@) },
                ),
                (None, Some(change)) => after == before.push(
                    RaftCall::ProposeConfChange { change: change@ },
                ),
                (None, None) => after == before,
            }
        }),
{
    assert(proposals.push(proposal).drop_last() =~= proposals);
    let before = crate::proposal::refusals(crate::proposal::refused(proposals, admits));
    let after = crate::proposal::refusals(
        crate::proposal::refused(proposals.push(proposal), admits),
    );
    if admits && has_something(proposal) {
        assert(after =~= before);
    } else {
        assert(after =~= before.push(
            EffectView::Reply { reply_to: proposal.propose_success, outcome: Err(Refused) },
        ));
    }
}

/// When the waiting proposals are put to a group, exactly those from the first unproposed one
/// on are put to it.
pub proof fn only_unproposed_are_put(
    before: RaftGroup,
    after: RaftGroup,
    waiting: Seq<Proposal>,
    left: Seq<Proposal>,
    replies: Seq<EffectView>,
) -> (start: int)
    requires
        crate::proposal::pending_proposed(before, after, waiting, left, replies),
    ensures
        0 <= start <= waiting.len(),
        forall|i: int| 0 <= i < start ==> (#[trigger] waiting[i]).proposed > 0,
        start < waiting.len() ==> waiting[start].proposed == 0,
        crate::consensus::raft_calls(after) == crate::consensus::raft_calls(before)
            + crate::proposal::proposal_calls(waiting.skip(start)),
        replies == crate::proposal::refusals(
            crate::proposal::refused(
                waiting.skip(start),
                crate::consensus::raft_admits(before),
            ),
        ),
{
    crate::proposal::prefix_is_proposed(waiting);
    crate::proposal::proposed_prefix(waiting) as int
}

/// Every node elects after 10 ticks without a leader, and a leader sends heartbeats every 3.
pub proof fn nodes_share_their_settings(id: u64)
    ensures
        crate::node::settings_of(id).id == id,
        crate::node::settings_of(id).election_tick == 10,
        crate::node::settings_of(id).heartbeat_tick == 3,
{
}

/// Stepping a message in makes one call, with the bytes of the message, on the group that is
/// there. Without a group one is opened exactly for a vote request of either round, or for a
/// heartbeat that commits nothing, under the identity that the message is for; any other
/// message is dropped, and there is still no group.
pub proof fn message_reaches_the_group(before: Node, after: Node, message: PeerMessageView)
    requires
        crate::node::node_stepped(before, after, message),
    ensures
        before.raft_group is Some ==> {
            &&& after.raft_group is Some
            &&& crate::consensus::raft_calls(after.raft_group->0) == crate::consensus::raft_calls(
                before.raft_group->0,
            ).push(RaftCall::Step { message: message.bytes })
            &&& crate::consensus::raft_settings(after.raft_group->0)
                == crate::consensus::raft_settings(before.raft_group->0)
        },
        before.raft_group is None ==> (after.raft_group is Some <==> message.msg_type == 5
            || message.msg_type == 17 || (message.msg_type == 8 && message.commit == 0)),
        before.raft_group is None && after.raft_group is Some ==> {
            let group = after.raft_group->0;
            &&& crate::consensus::raft_calls(group) == seq![
                RaftCall::Step { message: message.bytes },
            ]
            &&& crate::consensus::raft_settings(group).id == message.to
            &&& crate::consensus::raft_settings(group).election_tick == 10
            &&& crate::consensus::raft_settings(group).heartbeat_tick == 3
            &&& !crate::consensus::raft_is_leader(group)
            &&& crate::consensus::raft_voters(group) == Set::<u64>::empty()
            &&& crate::consensus::raft_last_index(group) == 0
            &&& crate::consensus::raft_term(group) == if message.msg_type == 17 {
                0
            } else {
                message.term
            }
        },
{
}

} // verus!
