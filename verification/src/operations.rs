//! What the operations do, said of a call by what went in and what came out.
//!
//! Each statement here is about one call of an operation, or about two that follow each
//! other, and holds of every such call.

use crate::channel::{Outcome, Refused};
use crate::client::{Args, Request};
use crate::cluster::{Endpoint, Enrollment};
use crate::command::Fault;
use crate::consensus::{
    ConfChange, ConfChangeType, LogEntry, PeerMessage, RaftCall, RaftGroup, RaftSettings,
};
use crate::message::{Message, MessageType, MessageView};
use crate::node::{Node, TurnNext, TurnStage, TurnStep};
use crate::outbox::Effect;
use crate::proposal::Proposal;
use crate::queue::{MQueue, MQueuePool, MessageQueue};
use crate::round::{Next, NextView, RoundStatus, Stage, StageView, Step};
use crate::transport::{ReadAction, ReadEvent, Reading, SignalPoll};
use std::collections::VecDeque;
use std::sync::mpsc::Receiver;
use vstd::prelude::*;
use vstd::string::*;

verus! {

/// Sending puts the message behind everything that waits for its receiver, whatever the
/// numbers are, and touches nothing else.
pub proof fn sending_appends(pool: &mut MQueuePool, sent: Message, reply: Option<Message>)
    requires
        call_ensures(crate::command::apply_command, (pool, sent), reply),
        sent.header.msg_type == MessageType::SendReq,
    ensures
        reply is None,
        final(pool)@.dom() == old(pool)@.dom().insert(sent.header.daddr),
        final(pool)@[sent.header.daddr].waiting == crate::guarantees::waiting_for(
            old(pool)@,
            sent.header.daddr,
        ).push(sent@),
        final(pool)@[sent.header.daddr].delivered == crate::guarantees::delivered_to(
            old(pool)@,
            sent.header.daddr,
        ),
        forall|other: u32|
            other != sent.header.daddr && old(pool)@.contains_key(other)
                ==> #[trigger] final(pool)@[other] == old(pool)@[other],
{
    crate::guarantees::sent_message_waits_last(old(pool)@, sent@);
}

/// Freeing takes out the first delivered message with the number that is asked for. All others
/// stay, in their order, and nothing else is touched.
pub proof fn freeing_takes_out_one(
    pool: &mut MQueuePool,
    free: Message,
    reply: Option<Message>,
) -> (at: int)
    requires
        call_ensures(crate::command::apply_command, (pool, free), reply),
        free.header.msg_type == MessageType::FreeReq,
        old(pool)@.contains_key(free.header.saddr),
        exists|k: int|
            0 <= k < old(pool)@[free.header.saddr].delivered.len() && (
            #[trigger] old(pool)@[free.header.saddr].delivered[k]).header.id == free.header.id,
    ensures
        reply is None,
        final(pool)@.dom() == old(pool)@.dom(),
        0 <= at < old(pool)@[free.header.saddr].delivered.len(),
        old(pool)@[free.header.saddr].delivered[at].header.id == free.header.id,
        forall|k: int|
            0 <= k < at ==> (#[trigger] old(pool)@[free.header.saddr].delivered[k]).header.id
                != free.header.id,
        final(pool)@[free.header.saddr].delivered == old(pool)@[free.header.saddr].delivered.take(
            at,
        ) + old(pool)@[free.header.saddr].delivered.skip(at + 1),
        final(pool)@[free.header.saddr].waiting == old(pool)@[free.header.saddr].waiting,
        forall|other: u32|
            other != free.header.saddr && old(pool)@.contains_key(other)
                ==> #[trigger] final(pool)@[other] == old(pool)@[other],
{
    crate::guarantees::freed_message_is_the_one_asked_for(old(pool)@, free@)
}

/// Of two messages that are sent to one client, one after the other, the first waits before
/// the second, and both behind what waited already.
pub proof fn sending_twice_keeps_the_order(
    pool: &mut MQueuePool,
    first: Message,
    reply: Option<Message>,
    later: &mut MQueuePool,
    second: Message,
    later_reply: Option<Message>,
)
    requires
        call_ensures(crate::command::apply_command, (pool, first), reply),
        call_ensures(crate::command::apply_command, (later, second), later_reply),
        old(later)@ == final(pool)@,
        first.header.msg_type == MessageType::SendReq,
        second.header.msg_type == MessageType::SendReq,
        first.header.daddr == second.header.daddr,
    ensures
        final(later)@[first.header.daddr].waiting == crate::guarantees::waiting_for(
            old(pool)@,
            first.header.daddr,
        ).push(first@).push(second@),
{
    sending_appends(pool, first, reply);
    sending_appends(later, second, later_reply);
}

/// Asking hands out the message that has waited the longest, as it is but for its type. The
/// message moves from those that wait to the end of those that were delivered. Nothing happens
/// if nothing waits, and nothing else is touched.
pub proof fn asking_hands_out_the_oldest(
    pool: &mut MQueuePool,
    request: Message,
    reply: Option<Message>,
)
    requires
        call_ensures(crate::command::apply_command, (pool, request), reply),
        request.header.msg_type == MessageType::PushReq,
        old(pool)@.contains_key(request.header.saddr),
    ensures
        ({
            let client = request.header.saddr;
            let before = old(pool)@[client];
            let after = final(pool)@[client];
            &&& final(pool)@.dom() == old(pool)@.dom()
            &&& reply is Some <==> before.waiting.len() > 0
            &&& before.waiting.len() == 0 ==> final(pool)@ == old(pool)@
            &&& reply matches Some(message) ==> {
                &&& message.header.msg_type == MessageType::PushReq
                &&& message.header.saddr == before.waiting[0].header.saddr
                &&& message.header.daddr == before.waiting[0].header.daddr
                &&& message.header.id == before.waiting[0].header.id
                &&& message.payload@ == before.waiting[0].payload
                &&& after.waiting == before.waiting.skip(1)
                &&& after.delivered == before.delivered.push(message@)
            }
            &&& forall|other: u32|
                other != client && old(pool)@.contains_key(other)
                    ==> #[trigger] final(pool)@[other] == old(pool)@[other]
        }),
{
    crate::guarantees::oldest_message_is_handed_out(old(pool)@, request@);
}

/// Greeting gives a client empty queues unless it has some, and does nothing else. A message
/// of any other type does nothing at all.
pub proof fn greeting_opens_empty_queues(
    pool: &mut MQueuePool,
    greeting: Message,
    reply: Option<Message>,
)
    requires
        call_ensures(crate::command::apply_command, (pool, greeting), reply),
        greeting.header.msg_type == MessageType::HeloReq || greeting.header.msg_type
            == MessageType::Other,
    ensures
        reply is None,
        greeting.header.msg_type == MessageType::Other || old(pool)@.contains_key(
            greeting.header.saddr,
        ) ==> final(pool)@ == old(pool)@,
        greeting.header.msg_type == MessageType::HeloReq && !old(pool)@.contains_key(
            greeting.header.saddr,
        ) ==> {
            let client = greeting.header.saddr;
            &&& final(pool)@.dom() == old(pool)@.dom().insert(client)
            &&& final(pool)@[client].waiting.len() == 0
            &&& final(pool)@[client].delivered.len() == 0
            &&& forall|other: u32|
                old(pool)@.contains_key(other) ==> #[trigger] final(pool)@[other]
                    == old(pool)@[other]
        },
{
    crate::guarantees::greeting_opens_queues(old(pool)@, greeting@);
}

/// A command cannot be applied exactly if a client that is not known asks or frees, or if a
/// client frees what was not delivered to it.
pub proof fn checking_tells_what_is_wrong(
    pool: &MQueuePool,
    command: &Message,
    fault: Option<Fault>,
)
    requires
        call_ensures(crate::command::check_command, (pool, command), fault),
    ensures
        fault == Some(Fault::UnknownClient) <==> (command.header.msg_type == MessageType::PushReq
            || command.header.msg_type == MessageType::FreeReq) && !pool@.contains_key(
            command.header.saddr,
        ),
        fault == Some(Fault::NotDelivered) <==> command.header.msg_type == MessageType::FreeReq
            && pool@.contains_key(command.header.saddr) && !(exists|k: int|
            0 <= k < pool@[command.header.saddr].delivered.len() && (
            #[trigger] pool@[command.header.saddr].delivered[k]).header.id == command.header.id),
        fault is Some ==> fault == Some(Fault::UnknownClient) || fault == Some(
            Fault::NotDelivered,
        ),
{
}

/// The outcomes of committed entries go to the proposals at the front of the queue, in order:
/// the i-th new reply to the i-th proposal, on its own channel. So many proposals leave, from
/// the front; the others stay in their order, and so does all that had to leave before.
pub proof fn outcomes_go_to_the_front_of_the_queue(
    group: &mut RaftGroup,
    pool: &mut MQueuePool,
    proposals: &mut VecDeque<Proposal>,
    entries: Vec<LogEntry>,
    effects: &mut Vec<Effect>,
    fault: Option<Fault>,
)
    requires
        call_ensures(
            crate::replica::handle_committed_entries,
            (group, pool, proposals, entries, effects),
            fault,
        ),
    ensures
        final(proposals)@.len() <= old(proposals)@.len(),
        final(effects)@.len() - old(effects)@.len() == old(proposals)@.len()
            - final(proposals)@.len(),
        forall|i: int|
            0 <= i < old(effects)@.len() ==> (#[trigger] final(effects)@[i])@
                == old(effects)@[i]@,
        forall|i: int|
            old(effects)@.len() <= i < final(effects)@.len() ==> {
                &&& (#[trigger] final(effects)@[i]) is Reply
                &&& final(effects)@[i]->reply_to == old(proposals)@[i
                    - old(effects)@.len()].propose_success
                &&& final(effects)@[i]->outcome is Ok
            },
        forall|i: int|
            0 <= i < final(proposals)@.len() ==> #[trigger] final(proposals)@[i]
                == old(proposals)@[i + (old(proposals)@.len() - final(proposals)@.len())],
        !crate::consensus::raft_is_leader(*old(group)) ==> final(proposals)@ == old(proposals)@,
{
    let applied = crate::replica::apply_all(
        crate::replica::replica_view(*old(group), *old(pool)),
        crate::consensus::log_entries_view(entries@),
        crate::consensus::standing(*old(group)),
        old(proposals)@.len(),
    );
    crate::replica::replies_are_bounded(
        crate::replica::replica_view(*old(group), *old(pool)),
        crate::consensus::log_entries_view(entries@),
        crate::consensus::standing(*old(group)),
        old(proposals)@.len(),
    );
    assert(old(proposals)@.skip(0) =~= old(proposals)@);
    assert forall|i: int| old(effects)@.len() <= i < final(effects)@.len() implies (
    #[trigger] final(effects)@[i])->outcome is Ok by {
        let outcome = final(effects)@[i]->outcome;
        assert(crate::channel::outcome_view(outcome) == Ok::<Option<MessageView>, Refused>(
            applied.replies[i - old(effects)@.len()],
        ));
    }
}

/// When the entries of the proposals at the front are committed, in the order in which the
/// proposals wait, and nothing goes wrong, each proposal is answered on its own channel with
/// what its own message handed out, after those before it, and a change with nothing.
pub proof fn proposals_are_answered_for_themselves(
    group: &mut RaftGroup,
    pool: &mut MQueuePool,
    proposals: &mut VecDeque<Proposal>,
    entries: Vec<LogEntry>,
    effects: &mut Vec<Effect>,
    fault: Option<Fault>,
)
    requires
        call_ensures(
            crate::replica::handle_committed_entries,
            (group, pool, proposals, entries, effects),
            fault,
        ),
        fault is None,
        crate::consensus::raft_is_leader(*old(group)),
        entries@.len() <= old(proposals)@.len(),
        forall|i: int|
            0 <= i < entries@.len() ==> crate::guarantees::has_something(
                #[trigger] old(proposals)@[i],
            ) && crate::guarantees::holds(entries@[i]@, old(proposals)@[i], true)
                && entries@[i].data@.len() > 0,
    ensures
        final(effects)@.len() == old(effects)@.len() + entries@.len(),
        final(proposals)@ == old(proposals)@.skip(entries@.len() as int),
        forall|i: int|
            0 <= i < entries@.len() ==> {
                let reply = #[trigger] final(effects)@[old(effects)@.len() + i];
                let replica = crate::laws::replica_after_proposals(
                    crate::replica::replica_view(*old(group), *old(pool)),
                    old(proposals)@.take(i),
                );
                &&& reply is Reply
                &&& reply->reply_to == old(proposals)@[i].propose_success
                &&& crate::channel::outcome_view(reply->outcome) == Ok::<
                    Option<MessageView>,
                    Refused,
                >(
                    match old(proposals)@[i].normal {
                        Some(command) => crate::command::command_reply(replica.queues, command@),
                        None => None,
                    },
                )
            },
{
    let n = entries@.len() as int;
    let views = crate::consensus::log_entries_view(entries@);
    let first = old(proposals)@.take(n);
    let replica = crate::replica::replica_view(*old(group), *old(pool));
    assert forall|i: int| 0 <= i < first.len() implies crate::proposal::carries(
        #[trigger] first[i],
    ) && crate::proposal::entry_of(first[i], true, views[i]) && views[i].data.len() > 0 by {
        let proposal = old(proposals)@[i];
        assert(first[i] == proposal);
        assert(views[i] == entries@[i]@);
        assert(crate::guarantees::has_something(old(proposals)@[i]));
    }
    crate::laws::proposers_get_their_replies(
        replica,
        first,
        views,
        crate::consensus::standing(*old(group)),
        old(proposals)@.len(),
    );
    let applied = crate::replica::apply_all(
        replica,
        views,
        crate::consensus::standing(*old(group)),
        old(proposals)@.len(),
    );
    assert(crate::outbox::effects_view(final(effects)@).len() == final(effects)@.len());
    assert forall|i: int| 0 <= i < n implies {
        let reply = #[trigger] final(effects)@[old(effects)@.len() + i];
        let reached = crate::laws::replica_after_proposals(replica, old(proposals)@.take(i));
        &&& reply is Reply
        &&& reply->reply_to == old(proposals)@[i].propose_success
        &&& crate::channel::outcome_view(reply->outcome) == Ok::<Option<MessageView>, Refused>(
            match old(proposals)@[i].normal {
                Some(command) => crate::command::command_reply(reached.queues, command@),
                None => None,
            },
        )
    } by {
        assert(first.take(i) =~= old(proposals)@.take(i));
        assert(first[i] == old(proposals)@[i]);
        let answered = applied.replies[i];
        let reply = final(effects)@[old(effects)@.len() + i];
        assert(reply is Reply);
    }
}

/// Storing makes exactly these calls: one that stores the entries and, if that went well and
/// the work brings a new hard state, one right after it that stores this hard state. Messages
/// that had to wait leave only if it went well.
pub proof fn storing_makes_these_calls(
    group: &mut RaftGroup,
    pool: &mut MQueuePool,
    peers: &Vec<u64>,
    proposals: &mut VecDeque<Proposal>,
    stage: Stage,
    step: Step,
)
    requires
        call_ensures(crate::round::on_ready, (group, pool, peers, proposals, stage), step),
        stage is Applied,
    ensures
        ({
            let ready = crate::consensus::ready_view(stage->Applied_ready);
            let before = crate::consensus::raft_calls(*old(group));
            let after = crate::consensus::raft_calls(*final(group));
            let stored = step.next@ != (NextView::Ended { status: RoundStatus::Stalled });
            let append = RaftCall::Append { entries: ready.entries, stored };
            &&& after.take(before.len() as int) == before
            &&& after[before.len() as int] == append
            &&& stored && ready.hard_state is Some ==> after.len() == before.len() + 2
                && after[before.len() as int + 1] == (RaftCall::SetHardState {
                hard_state: ready.hard_state->0,
            })
            &&& !stored || ready.hard_state is None ==> after.len() == before.len() + 1
            &&& !stored ==> step.effects@.len() == 0
            &&& stored ==> crate::outbox::effects_view(step.effects@) == crate::outbox::batches(
                ready.persisted_messages,
                peers@,
            )
        }),
{
    let ready = crate::consensus::ready_view(stage->Applied_ready);
    let before = crate::consensus::raft_calls(*old(group));
    let after = crate::consensus::raft_calls(*final(group));
    let _ = crate::guarantees::entries_and_hard_state_are_stored(
        (*old(group), *old(pool), old(proposals)@),
        (*final(group), *final(pool), final(proposals)@),
        peers@,
        ready,
        crate::outbox::effects_view(step.effects@),
        step.next@,
    );
    assert(after.take(before.len() as int) =~= before);
    assert(crate::outbox::effects_view(step.effects@).len() == step.effects@.len());
}

/// A stage does what is said of the stages of a round, with the values of what it was given.
pub proof fn stages_are_taken(
    group: &mut RaftGroup,
    pool: &mut MQueuePool,
    peers: &Vec<u64>,
    proposals: &mut VecDeque<Proposal>,
    stage: Stage,
    step: Step,
)
    requires
        call_ensures(crate::round::on_ready, (group, pool, peers, proposals, stage), step),
    ensures
        crate::round::step_taken(
            (*old(group), *old(pool), old(proposals)@),
            (*final(group), *final(pool), final(proposals)@),
            peers@,
            match stage {
                Stage::Begin => StageView::Begin,
                Stage::Taken { ready } => StageView::Taken {
                    ready: crate::consensus::ready_view(ready),
                },
                Stage::Applied { ready } => StageView::Applied {
                    ready: crate::consensus::ready_view(ready),
                },
                Stage::Stored { ready } => StageView::Stored {
                    ready: crate::consensus::ready_view(ready),
                },
                Stage::Advanced { light } => StageView::Advanced {
                    light: crate::consensus::light_view(light),
                },
                Stage::Settling => StageView::Settling,
            },
            crate::outbox::effects_view(step.effects@),
            match step.next {
                Next::Continue { stage: next } => NextView::Continue { stage: next@ },
                Next::Ended { status } => NextView::Ended { status },
            },
        ),
{
}

/// A turn ticks the group exactly if it comes to the tick and the tick is due. A tick that is
/// not due leaves the node as it is.
pub proof fn turns_tick_when_due(
    node: &mut Node,
    stage: TurnStage,
    proposals: &mut VecDeque<Proposal>,
    pool: &mut MQueuePool,
    peers: &Vec<u64>,
    step: TurnStep,
)
    requires
        call_ensures(Node::take_turn, (node, stage, proposals, pool, peers), step),
        old(node).raft_group is Some,
    ensures
        final(node).raft_group is Some,
        step.ticked <==> stage == (TurnStage::Tick { due: true }),
        stage == (TurnStage::Tick { due: false }) ==> {
            &&& *final(node) == *old(node)
            &&& *final(pool) == *old(pool)
            &&& final(proposals)@ == old(proposals)@
            &&& step.effects@.len() == 0
        },
        stage == (TurnStage::Tick { due: true }) ==> crate::consensus::raft_calls(
            final(node).raft_group->0,
        ) == crate::consensus::raft_calls(old(node).raft_group->0).push(RaftCall::Tick),
        crate::guarantees::ticks(crate::consensus::raft_calls(final(node).raft_group->0))
            == crate::guarantees::ticks(crate::consensus::raft_calls(old(node).raft_group->0))
            + if stage == (TurnStage::Tick { due: true }) {
            1nat
        } else {
            0nat
        },
{
    crate::guarantees::group_is_ticked_when_due(
        (old(node).raft_group->0, *old(pool), old(proposals)@),
        (final(node).raft_group->0, *final(pool), final(proposals)@),
        peers@,
        stage,
        crate::outbox::effects_view(step.effects@),
        step.ticked,
        step.next,
    );
    assert(crate::outbox::effects_view(step.effects@).len() == step.effects@.len());
}

/// A turn of a node without a group does nothing and is over at once. Otherwise it goes from
/// the tick to the proposals, which only a leader takes up, and then to the outstanding work.
pub proof fn turns_go_on(
    node: &mut Node,
    stage: TurnStage,
    proposals: &mut VecDeque<Proposal>,
    pool: &mut MQueuePool,
    peers: &Vec<u64>,
    step: TurnStep,
)
    requires
        call_ensures(Node::take_turn, (node, stage, proposals, pool, peers), step),
    ensures
        old(node).raft_group is Some <==> final(node).raft_group is Some,
        old(node).raft_group is None ==> {
            &&& step.effects@.len() == 0
            &&& !step.ticked
            &&& step.next == (TurnNext::Ended { status: RoundStatus::Idle })
            &&& *final(pool) == *old(pool)
            &&& final(proposals)@ == old(proposals)@
        },
        old(node).raft_group is Some && stage is Tick ==> step.next == (TurnNext::Continue {
            stage: TurnStage::Propose,
        }),
        old(node).raft_group is Some && stage is Propose ==> step.next == (TurnNext::Continue {
            stage: TurnStage::Handle { stage: Stage::Begin },
        }) && *final(pool) == *old(pool),
        old(node).raft_group is Some && stage is Propose && !crate::consensus::raft_is_leader(
            old(node).raft_group->0,
        ) ==> {
            &&& *final(node) == *old(node)
            &&& final(proposals)@ == old(proposals)@
            &&& step.effects@.len() == 0
        },
        old(node).raft_group is Some && stage is Propose && crate::consensus::raft_is_leader(
            old(node).raft_group->0,
        ) ==> crate::proposal::pending_proposed(
            old(node).raft_group->0,
            final(node).raft_group->0,
            old(proposals)@,
            final(proposals)@,
            crate::outbox::effects_view(step.effects@),
        ),
        old(node).raft_group is Some && stage is Handle ==> crate::round::step_taken(
            (old(node).raft_group->0, *old(pool), old(proposals)@),
            (final(node).raft_group->0, *final(pool), final(proposals)@),
            peers@,
            stage->stage@,
            crate::outbox::effects_view(step.effects@),
            match step.next {
                TurnNext::Continue { stage: next } => NextView::Continue { stage: next->stage@ },
                TurnNext::Ended { status } => NextView::Ended { status },
            },
        ),
{
    assert(crate::outbox::effects_view(step.effects@).len() == step.effects@.len());
}

/// Proposals that wait are put to the group as is said of them: see
/// [`crate::guarantees::proposals_are_put_in_order`] and
/// [`crate::guarantees::log_holds_the_proposals`]. The calls that this makes come behind those
/// that were made before.
pub proof fn pending_proposals_are_put(
    group: &mut RaftGroup,
    proposals: &mut VecDeque<Proposal>,
    replies: Vec<Effect>,
) -> (start: int)
    requires
        call_ensures(crate::proposal::propose_pending, (group, proposals), replies),
    ensures
        crate::proposal::pending_proposed(
            *old(group),
            *final(group),
            old(proposals)@,
            final(proposals)@,
            crate::outbox::effects_view(replies@),
        ),
        0 <= start <= old(proposals)@.len(),
        forall|i: int| 0 <= i < start ==> (#[trigger] old(proposals)@[i]).proposed > 0,
        start < old(proposals)@.len() ==> old(proposals)@[start].proposed == 0,
        final(proposals)@.len() == old(proposals)@.len(),
        forall|i: int|
            0 <= i < start ==> #[trigger] final(proposals)@[i] == old(proposals)@[i],
        forall|i: int|
            0 <= i < final(proposals)@.len() ==> (#[trigger] final(proposals)@[i])
                == (Proposal { proposed: final(proposals)@[i].proposed, ..old(proposals)@[i] }),
        !crate::consensus::raft_admits(*old(group)) ==> final(proposals)@ == old(proposals)@,
        crate::consensus::raft_admits(*old(group)) ==> forall|i: int, j: int|
            start <= i < j < final(proposals)@.len() && crate::guarantees::has_something(
                old(proposals)@[i],
            ) && crate::guarantees::has_something(old(proposals)@[j]) ==> (
            #[trigger] final(proposals)@[i]).proposed < (
            #[trigger] final(proposals)@[j]).proposed,
{
    let start = crate::proposal::proposed_prefix(old(proposals)@) as int;
    crate::proposal::prefix_is_proposed(old(proposals)@);
    let found = crate::guarantees::proposals_are_put_in_order(
        *old(group),
        *final(group),
        old(proposals)@,
        final(proposals)@,
        crate::outbox::effects_view(replies@),
    );
    assert(found == start) by {
        if found < start {
            assert(old(proposals)@[found].proposed > 0);
        } else if start < found {
            assert(old(proposals)@[start].proposed > 0);
        }
    }
    start
}

/// Putting one proposal to the group makes one call with its message, or else its change, and
/// none if it has neither. It is appended exactly if the group admits it and there is something
/// to append; then its entry is the next one in the log, and it remembers that index.
pub proof fn proposing_appends_one_entry(
    group: &mut RaftGroup,
    proposal: &mut Proposal,
    appended: bool,
)
    requires
        call_ensures(crate::proposal::propose, (group, proposal), appended),
    ensures
        appended <==> crate::consensus::raft_admits(*old(group)) && (old(proposal).normal is Some
            || old(proposal).conf_change is Some),
        ({
            let before = crate::consensus::raft_calls(*old(group));
            let after = crate::consensus::raft_calls(*final(group));
            match (old(proposal).normal, old(proposal).conf_change) {
                (Some(message), _) => after == before.push(
                    RaftCall::Propose { data: crate::message::encoded(message@) },
                ),
                (None, Some(change)) => after == before.push(
                    RaftCall::ProposeConfChange { change: change@ },
                ),
                (None, None) => *final(group) == *old(group),
            }
        }),
        !appended ==> *final(proposal) == *old(proposal) && crate::consensus::raft_log(
            *final(group),
        ) == crate::consensus::raft_log(*old(group)),
        appended ==> {
            let index = crate::consensus::raft_last_index(*old(group)) + 1;
            &&& final(proposal).proposed == index
            &&& *final(proposal) == (Proposal {
                proposed: final(proposal).proposed,
                ..*old(proposal)
            })
            &&& crate::consensus::raft_last_index(*final(group)) == index
            &&& crate::guarantees::holds(
                crate::consensus::raft_log(*final(group))[index as u64],
                *old(proposal),
                crate::consensus::raft_conf_open(*old(group)),
            )
            &&& forall|k: u64|
                k != index && crate::consensus::raft_log(*old(group)).contains_key(k)
                    ==> #[trigger] crate::consensus::raft_log(*final(group))[k]
                    == crate::consensus::raft_log(*old(group))[k]
        },
{
}

/// A new proposal holds what it was made for and nothing else, has not been proposed, and its
/// outcome, one at most, comes on the end that is handed out with it.
pub proof fn new_proposals_wait(
    message: Message,
    normal: (Proposal, Receiver<Outcome>),
    change: &ConfChange,
    conf_change: (Proposal, Receiver<Outcome>),
)
    requires
        call_ensures(Proposal::normal, (message,), normal),
        call_ensures(Proposal::conf_change, (change,), conf_change),
    ensures
        normal.0.normal == Some(message),
        normal.0.conf_change is None,
        normal.0.transfer_leader is None,
        normal.0.proposed == 0,
        crate::channel::channel_of(normal.1) == normal.0.propose_success,
        crate::channel::channel_bound(normal.0.propose_success) == 1,
        conf_change.0.normal is None,
        conf_change.0.conf_change is Some && conf_change.0.conf_change->0@ == change@,
        conf_change.0.transfer_leader is None,
        conf_change.0.proposed == 0,
        crate::channel::channel_of(conf_change.1) == conf_change.0.propose_success,
        crate::channel::channel_bound(conf_change.0.propose_success) == 1,
{
}

/// The first leader is the only voter of its group at first, and its log goes on after index 1.
/// A follower has no group. All share the same settings.
pub proof fn nodes_start_out(id: u64, leader: Node, follower: Node, settings: RaftSettings)
    requires
        call_ensures(Node::create_raft_leader, (id,), leader),
        call_ensures(Node::create_raft_follower, (), follower),
        call_ensures(crate::node::example_config, (), settings),
    ensures
        follower.raft_group is None,
        settings.election_tick == 10,
        settings.heartbeat_tick == 3,
        leader.raft_group is Some,
        ({
            let group = leader.raft_group->0;
            &&& crate::consensus::raft_settings(group) == (RaftSettings { id, ..settings })
            &&& crate::consensus::raft_calls(group).len() == 0
            &&& !crate::consensus::raft_is_leader(group)
            &&& crate::consensus::raft_member(group)
            &&& crate::consensus::raft_last_index(group) == 1
            &&& crate::consensus::raft_term(group) == 1
            &&& forall|node: u64| #[trigger]
                crate::consensus::raft_voters(group).contains(node) <==> node == id
        }),
{
}

/// Stepping a message in reaches the group, or opens one for the node that the message is for,
/// or drops the message: see [`crate::guarantees::message_reaches_the_group`].
pub proof fn stepping_reaches_the_group(node: &mut Node, message: PeerMessage)
    requires
        call_ensures(Node::step, (node, message), ()),
    ensures
        old(node).raft_group is Some ==> final(node).raft_group is Some
            && crate::consensus::raft_calls(final(node).raft_group->0)
            == crate::consensus::raft_calls(old(node).raft_group->0).push(
            RaftCall::Step { message: message.bytes@ },
        ),
        old(node).raft_group is None ==> (final(node).raft_group is Some <==> message.msg_type == 5
            || message.msg_type == 17 || (message.msg_type == 8 && message.commit == 0)),
        old(node).raft_group is None && final(node).raft_group is Some ==> {
            &&& crate::consensus::raft_calls(final(node).raft_group->0) == seq![
                RaftCall::Step { message: message.bytes@ },
            ]
            &&& crate::consensus::raft_settings(final(node).raft_group->0).id == message.to
        },
{
    crate::guarantees::message_reaches_the_group(*old(node), *final(node), message@);
}

/// A follower opens its group exactly for a vote request of either round or a heartbeat that
/// commits nothing.
pub proof fn initial_messages_open_a_group(
    node: &mut Node,
    message: &PeerMessage,
    initial: bool,
)
    requires
        call_ensures(Node::initialize_raft_from_message, (node, message), ()),
        call_ensures(crate::node::is_initial_msg, (message,), initial),
    ensures
        initial <==> message.msg_type == 5 || message.msg_type == 17 || (message.msg_type == 8
            && message.commit == 0),
        !initial ==> *final(node) == *old(node),
        initial ==> final(node).raft_group is Some && crate::consensus::raft_settings(
            final(node).raft_group->0,
        ).id == message.to && crate::consensus::raft_calls(final(node).raft_group->0).len() == 0,
{
}

/// A tick is due from 100 milliseconds on after the last one. A node leads exactly if it has a
/// group and leads it.
pub proof fn ticks_are_due_after_a_while(
    elapsed_ms: u64,
    due: bool,
    node: &Node,
    leads: bool,
)
    requires
        call_ensures(crate::node::tick_due, (elapsed_ms,), due),
        call_ensures(Node::leads, (node,), leads),
    ensures
        due <==> elapsed_ms >= 100,
        leads <==> node.raft_group is Some && crate::consensus::raft_is_leader(
            node.raft_group->0,
        ),
{
}

/// Messages leave in one batch for each peer to which there are some, in the order of the
/// peers, and a batch holds all messages for its peer, in their order.
pub proof fn messages_leave_in_batches(
    messages: Vec<PeerMessage>,
    peers: &Vec<u64>,
    effects: Vec<Effect>,
)
    requires
        call_ensures(crate::outbox::handle_messages, (messages, peers), effects),
    ensures
        crate::outbox::effects_view(effects@) == crate::outbox::batches(
            crate::consensus::peer_messages_view(messages@),
            peers@,
        ),
        forall|i: int| 0 <= i < effects@.len() ==> (#[trigger] effects@[i]) is Send,
        forall|i: int, k: int|
            0 <= i < effects@.len() && 0 <= k < effects@[i]->messages@.len() ==> (
            #[trigger] effects@[i]->messages@[k]).to == effects@[i]->to,
{
    let views = crate::consensus::peer_messages_view(messages@);
    let sent = crate::outbox::effects_view(effects@);
    assert(sent.len() == effects@.len());
    assert forall|i: int| 0 <= i < effects@.len() implies (#[trigger] effects@[i]) is Send
        && sent[i]->messages == crate::outbox::addressed(views, effects@[i]->to) by {
        assert(sent[i] == effects@[i]@);
        batch_at(views, peers@, i);
    }
    assert forall|i: int, k: int|
        0 <= i < effects@.len() && 0 <= k < effects@[i]->messages@.len() implies (
    #[trigger] effects@[i]->messages@[k]).to == effects@[i]->to by {
        assert(effects@[i] is Send);
        crate::guarantees::addressed_keeps_what_is_meant(views, effects@[i]->to);
        let batch = crate::outbox::addressed(views, effects@[i]->to);
        assert(batch[k] == effects@[i]->messages@[k]@);
    }
}

proof fn batch_at(
    messages: Seq<crate::consensus::PeerMessageView>,
    peers: Seq<u64>,
    i: int,
)
    requires
        0 <= i < crate::outbox::batches(messages, peers).len(),
    ensures
        ({
            let batch = crate::outbox::batches(messages, peers)[i];
            batch is Send && batch->messages == crate::outbox::addressed(messages, batch->to)
        }),
    decreases peers.len(),
{
    if peers.len() > 0 && i < crate::outbox::batches(messages, peers.drop_last()).len() {
        batch_at(messages, peers.drop_last(), i);
    }
}

/// What is put into a queue comes out behind everything that was there.
pub proof fn queues_are_first_in_first_out(
    queue: &mut MessageQueue,
    message: Message,
    later: &mut MessageQueue,
    out: Option<Message>,
)
    requires
        call_ensures(MessageQueue::enqueue, (queue, message), ()),
        call_ensures(MessageQueue::dequeue, (later,), out),
        old(later)@ == final(queue)@,
    ensures
        out is Some,
        out->0@ == if old(queue)@.len() == 0 {
            message@
        } else {
            old(queue)@[0]
        },
        final(later)@ == (old(queue)@.push(message@)).skip(1),
{
}

/// Taking a message out by its number gives the first with that number, if there is one, and
/// leaves all others in their order. Whether there is one can be asked before.
pub proof fn numbered_messages_are_taken_out(
    queue: &mut MessageQueue,
    asked: &MessageQueue,
    id: u32,
    found: bool,
    out: Option<Message>,
)
    requires
        call_ensures(MessageQueue::contains_id, (asked, id), found),
        call_ensures(MessageQueue::dequeue_by_id, (queue, id), out),
        asked@ == old(queue)@,
    ensures
        found <==> exists|k: int|
            0 <= k < asked@.len() && (#[trigger] asked@[k]).header.id == id,
        found <==> out is Some,
        !found ==> final(queue)@ == old(queue)@,
        found ==> exists|at: int|
            {
                &&& #[trigger] crate::guarantees::first_numbered(old(queue)@, id, at)
                &&& out->0@ == old(queue)@[at]
                &&& final(queue)@ == old(queue)@.take(at) + old(queue)@.skip(at + 1)
            },
{
    let at = crate::queue::position_of(asked@, id);
    crate::queue::position_is_first(asked@, id);
    if at < asked@.len() {
        assert(crate::guarantees::first_numbered(old(queue)@, id, at));
        assert(final(queue)@ =~= old(queue)@.take(at) + old(queue)@.skip(at + 1));
    }
}

/// New queues are empty, and a queue is empty exactly if nothing is in it. A client can be
/// handed something exactly if something waits for it.
pub proof fn new_queues_are_empty(
    id: u32,
    messages: MessageQueue,
    queue: MQueue,
    pool: MQueuePool,
    asked: &MessageQueue,
    empty: bool,
    client: &MQueue,
    ready: bool,
)
    requires
        call_ensures(MessageQueue::new, (), messages),
        call_ensures(MQueue::new, (id,), queue),
        call_ensures(MQueuePool::new, (), pool),
        call_ensures(MessageQueue::is_empty, (asked,), empty),
        call_ensures(crate::queue::is_ready_to_send, (client,), ready),
    ensures
        messages@.len() == 0,
        queue@.id == id,
        queue@.waiting.len() == 0,
        queue@.delivered.len() == 0,
        forall|client_id: u32| !(#[trigger] pool@.contains_key(client_id)),
        empty <==> asked@.len() == 0,
        ready <==> client.waiting_queue@.len() > 0,
{
}

/// What is put into the pool under a number is found there and can be taken from there, and
/// other numbers are not concerned.
pub proof fn pool_keeps_queues_apart(
    pool: &mut MQueuePool,
    id: u32,
    queue: MQueue,
    later: &mut MQueuePool,
    other: u32,
    taken: Option<MQueue>,
    asked: &MQueuePool,
    found: Option<&MQueue>,
)
    requires
        call_ensures(MQueuePool::add, (pool, id, queue), ()),
        call_ensures(MQueuePool::take, (later, other), taken),
        call_ensures(MQueuePool::find_by_id, (asked, other), found),
        old(later)@ == final(pool)@,
        asked@ == final(pool)@,
    ensures
        found is Some <==> other == id || old(pool)@.contains_key(other),
        taken is Some <==> found is Some,
        found is Some ==> found->0@ == if other == id {
            queue@
        } else {
            old(pool)@[other]
        },
        taken is Some ==> taken->0@ == found->0@,
        !final(later)@.contains_key(other),
        forall|k: u32|
            k != other && k != id ==> (#[trigger] final(later)@.contains_key(k) <==> old(
                pool,
            )@.contains_key(k)) && (old(pool)@.contains_key(k) ==> final(later)@[k]
                == old(pool)@[k]),
{
}

/// What is encoded can be decoded, and gives back type, sender, receiver, number and payload.
/// Bytes that are too short or begin with no type cannot be decoded.
pub proof fn messages_survive_encoding(
    message: &Message,
    bytes: Vec<u8>,
    read: &[u8],
    back: Option<Message>,
)
    requires
        call_ensures(Message::to_bytes, (message,), bytes),
        call_ensures(Message::from_bytes, (read,), back),
    ensures
        bytes@.len() == 13 + message.payload@.len(),
        crate::formats::word(bytes@.subrange(1, 5)) == message.header.saddr,
        crate::formats::word(bytes@.subrange(5, 9)) == message.header.daddr,
        crate::formats::word(bytes@.subrange(9, 13)) == message.header.id,
        bytes@.skip(13) == message.payload@,
        back is Some <==> read@.len() >= 13 && read@[0] <= 4,
        read@ == bytes@ ==> back is Some && back->0.header == message.header
            && back->0.payload@ == message.payload@,
{
    crate::formats::message_is_laid_out(message@);
    crate::formats::bytes_encode_one_message(read@);
    crate::message::decoding_inverts_encoding(message@);
}

/// A number is encoded in as many bytes as are asked for, and decoding gives it back if it
/// fits; in four bytes the first counts most.
pub proof fn numbers_survive_encoding(
    value: u64,
    n: usize,
    bytes: Vec<u8>,
    read: &[u8],
    back: u64,
)
    requires
        call_ensures(crate::bytes::encode_be, (value, n), bytes),
        call_ensures(crate::bytes::decode_be, (read, 0usize, n), back),
        n <= 8,
        n == read@.len(),
    ensures
        bytes@.len() == n,
        read@ == bytes@ && value < crate::bytes::pow256(n as nat) ==> back == value,
        n == 4 ==> back == crate::formats::word(read@),
        n == 8 ==> back == crate::formats::long_word(read@),
{
    crate::bytes::be_bytes_length(value as nat, n as nat);
    assert(read@.subrange(0, n as int) =~= read@);
    crate::formats::first_byte_counts_most(read@);
    if value < crate::bytes::pow256(n as nat) {
        crate::bytes::be_decode_inverts_encode(value as nat, n as nat);
    }
}

/// The header of a frame is four bytes from which the length is read again; there is none for
/// a payload whose length four bytes cannot hold.
pub proof fn lengths_survive_framing(
    size: usize,
    header: Option<Vec<u8>>,
    read: &[u8],
    back: usize,
)
    requires
        call_ensures(crate::transport::frame_header, (size,), header),
        call_ensures(crate::transport::frame_length, (read,), back),
        read@.len() == 4,
    ensures
        header is Some <==> size < 0x1_0000_0000,
        header is Some ==> header->0@.len() == 4 && crate::formats::word(header->0@) == size,
        back == crate::formats::word(read@),
        header is Some && read@ == header->0@ ==> back == size,
{
    crate::formats::first_byte_counts_most(read@);
    if size < 0x1_0000_0000 {
        crate::formats::numbers_are_written_in_full(size as u32, 0);
    }
}

/// The greeting of a node is a frame of eight bytes, and those give back the port.
pub proof fn ports_survive_greeting(
    port: u64,
    bytes: Vec<u8>,
    payload: &[u8],
    back: Option<u64>,
)
    requires
        call_ensures(crate::transport::encode_greeting, (port,), bytes),
        call_ensures(crate::transport::decode_greeting, (payload,), back),
    ensures
        bytes@.len() == 12,
        crate::formats::word(bytes@.take(4)) == 8,
        crate::formats::long_word(bytes@.skip(4)) == port,
        back is Some <==> payload@.len() == 8,
        back is Some ==> back->0 == crate::formats::long_word(payload@),
        payload@ == bytes@.skip(4) ==> back == Some(port),
{
    crate::formats::greeting_is_laid_out(port, payload@);
}

/// A node reads a length and the payload in turns, does not lose what it waits for, and gives
/// up a connection exactly if no length can be read from it.
pub proof fn reading_goes_on(
    reading: Reading,
    wanted: usize,
    event: ReadEvent,
    next: (Reading, ReadAction),
)
    requires
        call_ensures(crate::transport::bytes_wanted, (reading,), wanted),
        call_ensures(crate::transport::on_read, (reading, event), next),
        event matches ReadEvent::Filled { bytes } ==> bytes@.len() == wanted,
    ensures
        wanted == match reading {
            Reading::Length => 4usize,
            Reading::Payload { size } => size,
        },
        event is WouldBlock ==> next.0 == reading,
        event is Failed ==> next.0 == Reading::Length,
        event is Filled && reading is Payload ==> next.0 == Reading::Length,
        event is Filled && reading is Length ==> next.0 is Payload && next.0->size
            == crate::formats::word(event->bytes@),
        next.1 is Stop <==> event is Failed && reading is Length,
        next.1 is Continue <==> (event is Filled && reading is Length) || (event is WouldBlock
            && reading is Payload),
        next.1 is Deliver <==> event is Filled && reading is Payload
            && crate::consensus::peer_message_parsed(event->bytes@) is Some,
        next.1 is Deliver ==> crate::consensus::peer_message_parsed(event->bytes@) == Some(
            next.1->message@,
        ),
{
    crate::formats::reading_takes_turns(reading, event@);
}

/// A node stops if it is told to, or if nobody can tell it any more, and goes on otherwise.
pub proof fn signals_stop_a_node(poll: SignalPoll, stop: bool)
    requires
        call_ensures(crate::transport::check_signals, (poll,), stop),
    ensures
        stop <==> match poll {
            SignalPoll::Received(signal) => true,
            SignalPoll::Empty => false,
            SignalPoll::Disconnected => true,
        },
{
}

/// The address that is written for a host and a port is read as that host, with the port moved
/// up by 1000.
pub proof fn addresses_survive_writing(
    host: &str,
    port: u64,
    address: String,
    read: &str,
    endpoint: Option<Endpoint>,
)
    requires
        call_ensures(crate::cluster::write_address, (host, port), address),
        call_ensures(crate::cluster::read_endpoint, (read,), endpoint),
        read@ == address@,
        !host@.contains(':'),
    ensures
        endpoint is Some <==> port + 1000 <= u64::MAX,
        endpoint is Some ==> endpoint->0.host@ == host@ && endpoint->0.port == port + 1000,
{
    let digits = crate::text::decimal(port as nat);
    crate::text::written_number_is_read(port);
    crate::text::decimal_is_digits(port as nat);
    assert(!digits.contains(':')) by {
        if digits.contains(':') {
            let k = choose|k: int| 0 <= k < digits.len() && digits[k] == ':';
            assert(crate::text::is_digit(digits[k]));
        }
    }
    crate::formats::address_is_host_and_port(host@, digits, Seq::empty());
    assert(host@ + seq![':'] + digits + Seq::<char>::empty() =~= address@);
}

/// A node connects to all ports of the cluster but its own, in ascending order, and accepts one
/// connection less than there are nodes. Ports are numbered from 6555 on, and the node on the
/// first leads at first.
pub proof fn nodes_find_each_other(
    num_nodes: u32,
    own: u64,
    ports: Vec<u64>,
    count: u32,
    port: u64,
    id: Option<u64>,
    leads: bool,
)
    requires
        call_ensures(crate::cluster::ports_to_connect, (num_nodes, own), ports),
        call_ensures(crate::cluster::connections_to_accept, (num_nodes,), count),
        call_ensures(crate::cluster::peer_id, (port,), id),
        call_ensures(crate::cluster::leads_at_first, (port,), leads),
    ensures
        ports@.contains(port) <==> 6555 <= port < 6555 + num_nodes && port != own,
        forall|i: int, j: int|
            0 <= i < j < ports@.len() ==> (#[trigger] ports@[i]) < (#[trigger] ports@[j]),
        num_nodes == 0 ==> count == 0,
        num_nodes > 0 ==> count == num_nodes - 1,
        6555 <= own < 6555 + num_nodes ==> ports@.len() == count,
        id is Some <==> port >= 6555,
        id is Some ==> id->0 == port - 6554,
        leads <==> port == 6555,
        leads <==> id == Some(1u64),
{
    crate::formats::ports_are_consecutive(num_nodes as nat, own, port);
    crate::cluster::peers_are_counted(num_nodes as nat, own);
}

/// Connections are paired exactly if each peer that connected has its counterpart, and then
/// each of them gets its own identity, in order.
pub proof fn connections_get_identities(
    inbound: &Vec<u64>,
    outbound: &Vec<u64>,
    ids: Option<Vec<u64>>,
)
    requires
        call_ensures(crate::cluster::pair_connections, (inbound, outbound), ids),
    ensures
        ids is Some <==> forall|i: int|
            0 <= i < inbound@.len() ==> (#[trigger] inbound@[i]) >= 6555 && outbound@.contains(
                inbound@[i],
            ),
        ids is Some ==> ids->0@.len() == inbound@.len() && forall|i: int|
            0 <= i < ids->0@.len() ==> (#[trigger] ids->0@[i]) == inbound@[i] - 6554,
{
    crate::formats::connections_are_paired(inbound@, outbound@);
    if ids is Some {
        assert forall|i: int| 0 <= i < ids->0@.len() implies (#[trigger] ids->0@[i])
            == inbound@[i] - 6554 by {
            crate::formats::ports_are_consecutive(0, 0, inbound@[i]);
        }
    }
}

/// The first leader begins with node 2 and proposes to add the node whose turn it is, behind
/// the proposals that wait, as long as there is such a node.
pub proof fn enrollment_proposes_in_turn(
    num_nodes: u32,
    begun: Enrollment,
    enrollment: &mut Enrollment,
    proposals: &mut VecDeque<Proposal>,
    outcome: Option<Receiver<Outcome>>,
)
    requires
        call_ensures(Enrollment::new, (num_nodes,), begun),
        call_ensures(Enrollment::propose_next, (enrollment, proposals), outcome),
        old(enrollment).wf(),
    ensures
        begun.remaining().len() == if num_nodes >= 2 {
            num_nodes - 1
        } else {
            0
        },
        begun.remaining().len() > 0 ==> begun.remaining()[0].node_id == 2,
        !begun.waiting,
        outcome is Some <==> old(enrollment).next <= old(enrollment).num_nodes,
        outcome is None ==> final(proposals)@ == old(proposals)@,
        outcome is Some ==> {
            let proposed = final(proposals)@.last();
            &&& final(proposals)@ == old(proposals)@.push(proposed)
            &&& proposed.normal is None
            &&& proposed.conf_change is Some
            &&& proposed.conf_change->0.node_id == old(enrollment).next
            &&& proposed.conf_change->0.change_type == ConfChangeType::AddNode
            &&& proposed.proposed == 0
            &&& crate::channel::channel_of(outcome->0) == proposed.propose_success
        },
        final(enrollment).waiting <==> outcome is Some,
        final(enrollment).remaining() == old(enrollment).remaining(),
{
    crate::formats::nodes_are_added_in_turn(num_nodes as nat, begun);
    crate::formats::nodes_are_added_in_turn(0, *old(enrollment));
    if old(enrollment).remaining().len() > 0 {
        let first = old(enrollment).remaining()[0];
        assert(first.node_id == old(enrollment).next);
    }
    let added = crate::cluster::additions(num_nodes as nat);
    if added.len() > 0 {
        assert(added[0].node_id == 2);
    }
}

/// After a change was applied the next node has its turn; after any other outcome it is the
/// same one again.
pub proof fn enrollment_waits_for_application(
    enrollment: &mut Enrollment,
    outcome: &Outcome,
    again: bool,
)
    requires
        call_ensures(Enrollment::on_reply, (enrollment, outcome), again),
    ensures
        again <==> !(*outcome matches Ok(None)),
        again ==> final(enrollment).remaining() == old(enrollment).remaining(),
        !again ==> final(enrollment).remaining() == old(enrollment).remaining().drop_first(),
        !final(enrollment).waiting,
{
}

/// What the first leader would propose is the addition of the node whose turn it is.
pub proof fn enrollment_knows_its_change(enrollment: &Enrollment, change: Option<ConfChange>)
    requires
        call_ensures(Enrollment::change, (enrollment,), change),
        enrollment.wf(),
    ensures
        change is Some <==> enrollment.next <= enrollment.num_nodes,
        change is Some ==> change->0.node_id == enrollment.next && change->0.change_type
            == ConfChangeType::AddNode && change->0.id == 0 && change->0.context@.len() == 0,
{
    crate::formats::nodes_are_added_in_turn(0, *enrollment);
    if enrollment.remaining().len() > 0 {
        let first = enrollment.remaining()[0];
        assert(first.node_id == enrollment.next);
    }
}

/// What is written in decimal is read again, also behind a plus sign.
pub proof fn numbers_survive_writing(
    value: u64,
    text: String,
    read: &str,
    start: usize,
    end: usize,
    back: Option<u64>,
)
    requires
        call_ensures(crate::text::write_decimal, (value,), text),
        call_ensures(crate::text::read_decimal, (read, start, end), back),
        start <= end <= read@.len(),
        read@.subrange(start as int, end as int) == text@ || read@.subrange(
            start as int,
            end as int,
        ) == seq!['+'] + text@,
    ensures
        back == Some(value),
        text@.len() > 0,
        crate::formats::digits_only(text@),
        text@.len() > 1 ==> text@[0] != '0',
{
    let part = read@.subrange(start as int, end as int);
    crate::text::written_number_is_read(value);
    crate::text::decimal_is_digits(value as nat);
    crate::formats::numbers_are_written_in_decimal(value as nat, Seq::empty(), '0');
    crate::formats::numbers_are_read_in_decimal(part, value);
    crate::formats::numbers_are_read_in_decimal(text@, value);
    assert(crate::text::is_digit(text@[0]));
    if part == seq!['+'] + text@ {
        assert(part.skip(1) =~= text@);
    }
}

/// The arguments of a client that is told nothing else.
pub proof fn arguments_have_defaults(args: Args)
    requires
        call_ensures(Args::default, (), args),
    ensures
        args.msg_type@ == "MSG_SEND_REQ"@,
        args.saddr == 1,
        args.daddr == 100,
        args.id == 0,
        args.baddr@ == "127.0.0.1:21101"@,
        args.loop_times == 1,
{
}

/// A client sends requests only of the four types that have names. Each request keeps the bits
/// of addresses and number, and says hello. The numbers go from the first on, as many as are
/// asked for, if they all fit.
pub proof fn requests_follow_the_arguments(
    args: &Args,
    id: u32,
    request: Option<Request>,
    end: Option<u32>,
    text: String,
)
    requires
        call_ensures(Args::request, (args, id), request),
        call_ensures(Args::end_of_ids, (args,), end),
        call_ensures(Args::to_string, (args,), text),
    ensures
        request is Some <==> args.msg_type@ == "MSG_SEND_REQ"@ || args.msg_type@
            == "MSG_FREE_REQ"@ || args.msg_type@ == "MSG_PUSH_REQ"@ || args.msg_type@
            == "MSG_HELO_REQ"@,
        request is Some ==> {
            &&& request->0.msg_type == MessageType::SendReq <==> args.msg_type@
                == "MSG_SEND_REQ"@
            &&& request->0.msg_type == MessageType::FreeReq <==> args.msg_type@
                == "MSG_FREE_REQ"@
            &&& request->0.msg_type == MessageType::PushReq <==> args.msg_type@
                == "MSG_PUSH_REQ"@
            &&& request->0.msg_type == MessageType::HeloReq <==> args.msg_type@
                == "MSG_HELO_REQ"@
            &&& crate::client::unsigned(request->0.saddr) == args.saddr
            &&& crate::client::unsigned(request->0.daddr) == args.daddr
            &&& crate::client::unsigned(request->0.id) == id
            &&& request->0.content@ == "hello"@
        },
        end is Some <==> args.id + args.loop_times <= u32::MAX,
        end is Some ==> end->0 == args.id + args.loop_times,
        text@ == crate::client::args_text(*args),
{
    crate::formats::types_have_their_names(args.msg_type@);
}

/// A request travels in 1024 bytes that begin with its encoding and go on with zeros; one whose
/// encoding is longer does not travel.
pub proof fn requests_are_filled_up(
    request: &Request,
    bytes: Option<Vec<u8>>,
    name: &str,
    msg_type: Option<MessageType>,
)
    requires
        call_ensures(crate::client::format_request, (request,), bytes),
        call_ensures(crate::client::parse_msg_type, (name,), msg_type),
    ensures
        bytes is Some <==> crate::client::request_bytes(*request).len() <= 1024,
        bytes is Some ==> {
            let encoding = crate::client::request_bytes(*request);
            &&& bytes->0@.len() == 1024
            &&& bytes->0@.take(encoding.len() as int) == encoding
            &&& forall|k: int|
                encoding.len() <= k < 1024 ==> #[trigger] bytes->0@[k] == 0
        },
        msg_type == Some(MessageType::SendReq) <==> name@ == "MSG_SEND_REQ"@,
        msg_type == Some(MessageType::FreeReq) <==> name@ == "MSG_FREE_REQ"@,
        msg_type == Some(MessageType::PushReq) <==> name@ == "MSG_PUSH_REQ"@,
        msg_type == Some(MessageType::HeloReq) <==> name@ == "MSG_HELO_REQ"@,
        msg_type != Some(MessageType::Other),
{
    crate::formats::types_have_their_names(name@);
    if bytes is Some {
        crate::formats::request_is_filled_up(crate::client::request_bytes(*request));
    }
}

} // verus!
