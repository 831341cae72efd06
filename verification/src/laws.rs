//! What holds of the broker as a whole.

use crate::channel::Refused;
use crate::command::Fault;
use crate::consensus::{LogEntryView, PeerMessage, PeerMessageView, RaftCall, RaftGroup, Standing, MSG_HEARTBEAT,
    MSG_REQUEST_VOTE, TERM_LIMIT,
};
use crate::message::{MessageType, MessageView};
use crate::node::Node;
use crate::outbox::EffectView;
use crate::proposal::Proposal;
use crate::queue::{MQueuePool, MQueueView};
use crate::replica::{Applied, ReplicaView};
use crate::round::{
    Answers, Event, NextView, RoundStatus, RoundView, Situation, StageView, StepView,
};
use vstd::prelude::*;

verus! {

/// The queues after commands, one after the other.
pub open spec fn queues_after_all(
    queues: Map<u32, MQueueView>,
    commands: Seq<MessageView>,
) -> Map<u32, MQueueView>
    decreases commands.len(),
{
    if commands.len() == 0 {
        queues
    } else {
        crate::command::queues_after(
            queues_after_all(queues, commands.drop_last()),
            commands.last(),
        )
    }
}

/// The client whose queues a command concerns.
pub open spec fn concerned(command: MessageView) -> u32 {
    if command.header.msg_type == MessageType::SendReq {
        command.header.daddr
    } else {
        command.header.saddr
    }
}

/// The queues of a client are in order: what waits was sent to the client, what
/// has been delivered to it is marked as such, and they carry the client's number.
pub open spec fn queue_in_order(client: u32, queue: MQueueView) -> bool {
    &&& queue.id == client
    &&& forall|i: int|
        0 <= i < queue.waiting.len() ==> (#[trigger] queue.waiting[i]).header.msg_type
            == MessageType::SendReq && queue.waiting[i].header.daddr == client
    &&& forall|i: int|
        0 <= i < queue.delivered.len() ==> (#[trigger] queue.delivered[i]).header.msg_type
            == MessageType::PushReq && queue.delivered[i].header.daddr == client
}

/// All queues are in order.
pub open spec fn queues_in_order(queues: Map<u32, MQueueView>) -> bool {
    forall|client: u32| #[trigger]
        queues.contains_key(client) ==> queue_in_order(client, queues[client])
}

/// The number of messages that the queues of a client hold, 0 if it has none.
pub open spec fn held(queues: Map<u32, MQueueView>, client: u32) -> nat {
    if queues.contains_key(client) {
        queues[client].waiting.len() + queues[client].delivered.len()
    } else {
        0
    }
}

/// A command changes nothing for other clients than the one that it concerns.
pub proof fn other_clients_are_untouched(
    queues: Map<u32, MQueueView>,
    command: MessageView,
    other: u32,
)
    requires
        crate::command::command_fault(queues, command) is None,
        other != concerned(command),
    ensures
        crate::command::queues_after(queues, command).contains_key(other) == queues.contains_key(
            other,
        ),
        queues.contains_key(other) ==> crate::command::queues_after(queues, command)[other]
            == queues[other],
{
}

/// A client that has queues keeps them.
pub proof fn clients_stay(queues: Map<u32, MQueueView>, command: MessageView, client: u32)
    requires
        crate::command::command_fault(queues, command) is None,
        queues.contains_key(client),
    ensures
        crate::command::queues_after(queues, command).contains_key(client),
{
}

/// No messages appear or get lost: one more is held after it was sent, one less
/// after it was freed, and otherwise as many as before.
pub proof fn messages_are_conserved(queues: Map<u32, MQueueView>, command: MessageView)
    requires
        crate::command::command_fault(queues, command) is None,
    ensures
        held(crate::command::queues_after(queues, command), concerned(command)) == held(
            queues,
            concerned(command),
        ) + match command.header.msg_type {
            MessageType::SendReq => 1int,
            MessageType::FreeReq => -1int,
            _ => 0int,
        },
{
    if command.header.msg_type == MessageType::FreeReq {
        crate::queue::position_is_first(
            queues[command.header.saddr].delivered,
            command.header.id,
        );
    }
}

/// Commands keep the queues in order.
pub proof fn queues_stay_in_order(queues: Map<u32, MQueueView>, command: MessageView)
    requires
        queues_in_order(queues),
        crate::command::command_fault(queues, command) is None,
    ensures
        queues_in_order(crate::command::queues_after(queues, command)),
{
    let after = crate::command::queues_after(queues, command);
    let client = concerned(command);
    assert forall|c: u32| #[trigger] after.contains_key(c) implies queue_in_order(c, after[c]) by {
        if c != client {
            assert(queues.contains_key(c));
        } else if queues.contains_key(client) {
            assert(queue_in_order(client, queues[client]));
            if command.header.msg_type == MessageType::FreeReq {
                let delivered = queues[client].delivered;
                let at = crate::queue::position_of(delivered, command.header.id);
                crate::queue::position_is_first(delivered, command.header.id);
                assert forall|i: int| 0 <= i < after[c].delivered.len() implies (
                #[trigger] after[c].delivered[i]).header.msg_type == MessageType::PushReq
                    && after[c].delivered[i].header.daddr == client by {
                    assert(after[c].delivered[i] == delivered[if i < at {
                        i
                    } else {
                        i + 1
                    }]);
                }
            }
        }
    }
}

/// A broker without clients is in order.
pub proof fn no_queues_are_in_order()
    ensures
        queues_in_order(Map::<u32, MQueueView>::empty()),
{
}

/// A client is only handed messages that were sent to it, and it can free what it
/// is handed.
pub proof fn messages_reach_their_receiver(queues: Map<u32, MQueueView>, command: MessageView)
    requires
        queues_in_order(queues),
        crate::command::command_fault(queues, command) is None,
        crate::command::command_reply(queues, command) is Some,
    ensures
        ({
            let reply = crate::command::command_reply(queues, command)->0;
            let after = crate::command::queues_after(queues, command);
            let client = command.header.saddr;
            &&& command.header.msg_type == MessageType::PushReq
            &&& reply.header.daddr == client
            &&& reply == after[client].delivered.last()
            &&& forall|free: MessageView|
                free.header.msg_type == MessageType::FreeReq && free.header.saddr == client
                    && free.header.id == reply.header.id ==> #[trigger]
                crate::command::command_fault(after, free) is None
        }),
{
    let reply = crate::command::command_reply(queues, command)->0;
    let after = crate::command::queues_after(queues, command);
    let client = command.header.saddr;
    assert(queue_in_order(client, queues[client]));
    assert(queues[client].waiting[0].header.daddr == client);
    let delivered = after[client].delivered;
    crate::queue::position_is_first(delivered, reply.header.id);
    assert(delivered[delivered.len() - 1] == reply);
}

/// Whoever greets twice is where it was after greeting once, and a client that is
/// known changes nothing by greeting.
pub proof fn greeting_is_idempotent(queues: Map<u32, MQueueView>, greeting: MessageView)
    requires
        greeting.header.msg_type == MessageType::HeloReq,
    ensures
        ({
            let once = crate::command::queues_after(queues, greeting);
            &&& crate::command::command_fault(queues, greeting) is None
            &&& once.contains_key(greeting.header.saddr)
            &&& crate::command::queues_after(once, greeting) == once
            &&& queues.contains_key(greeting.header.saddr) ==> once == queues
        }),
{
}

/// Messages are delivered in the order in which they were sent: as many requests of
/// a client as there are messages waiting hand them out one after the other, and
/// each of them is then among the delivered ones.
#[verifier::spinoff_prover]
pub proof fn messages_are_delivered_in_order(
    queues: Map<u32, MQueueView>,
    client: u32,
    requests: Seq<MessageView>,
)
    requires
        queues.contains_key(client),
        requests.len() <= queues[client].waiting.len(),
        forall|i: int|
            0 <= i < requests.len() ==> (#[trigger] requests[i]).header.msg_type
                == MessageType::PushReq && requests[i].header.saddr == client,
    ensures
        ({
            let n = requests.len() as int;
            let after = queues_after_all(queues, requests);
            &&& after.contains_key(client)
            &&& after[client].id == queues[client].id
            &&& after[client].waiting == queues[client].waiting.skip(n)
            &&& after[client].delivered == queues[client].delivered
                + queues[client].waiting.take(n).map_values(
                |m: MessageView| crate::command::delivery(m),
            )
        }),
        forall|i: int|
            0 <= i < requests.len() ==> {
                &&& crate::command::command_fault(
                    queues_after_all(queues, requests.take(i)),
                    #[trigger] requests[i],
                ) is None
                &&& crate::command::command_reply(
                    queues_after_all(queues, requests.take(i)),
                    requests[i],
                ) == Some(crate::command::delivery(queues[client].waiting[i]))
            },
    decreases requests.len(),
{
    let waiting = queues[client].waiting;
    let deliver = |m: MessageView| crate::command::delivery(m);
    if requests.len() == 0 {
        assert(waiting.skip(0) =~= waiting);
        assert(queues[client].delivered =~= queues[client].delivered + waiting.take(0).map_values(
            deliver,
        ));
    } else {
        let n = requests.len() as int;
        let earlier = requests.drop_last();
        messages_are_delivered_in_order(queues, client, earlier);
        let before = queues_after_all(queues, earlier);
        let after = queues_after_all(queues, requests);
        assert(before[client].waiting[0] == waiting[n - 1]);
        assert(after[client].waiting =~= waiting.skip(n));
        assert(waiting.take(n).map_values(deliver) =~= waiting.take(n - 1).map_values(
            deliver,
        ).push(crate::command::delivery(waiting[n - 1])));
        assert(after[client].delivered =~= queues[client].delivered + waiting.take(n).map_values(
            deliver,
        ));
        assert forall|i: int| 0 <= i < requests.len() implies {
            &&& crate::command::command_fault(
                queues_after_all(queues, requests.take(i)),
                #[trigger] requests[i],
            ) is None
            &&& crate::command::command_reply(
                queues_after_all(queues, requests.take(i)),
                requests[i],
            ) == Some(crate::command::delivery(waiting[i]))
        } by {
            assert(earlier.take(i) =~= requests.take(i));
            if i < n - 1 {
                assert(earlier[i] == requests[i]);
            } else {
                assert(requests.take(i) =~= earlier);
            }
        }
    }
}

/// A message that is sent to a client for which nothing waits is what the client's
/// next request hands out, and once it is freed the client's queues are as they
/// were. An earlier message of the same number that was delivered and not freed
/// would be freed in its place, so there must be none.
pub proof fn sent_message_comes_and_goes(
    queues: Map<u32, MQueueView>,
    sent: MessageView,
    request: MessageView,
    free: MessageView,
)
    requires
        sent.header.msg_type == MessageType::SendReq,
        queues.contains_key(sent.header.daddr),
        queues[sent.header.daddr].waiting.len() == 0,
        forall|i: int|
            0 <= i < queues[sent.header.daddr].delivered.len() ==> (
            #[trigger] queues[sent.header.daddr].delivered[i]).header.id != sent.header.id,
        request.header.msg_type == MessageType::PushReq,
        request.header.saddr == sent.header.daddr,
        free.header.msg_type == MessageType::FreeReq,
        free.header.saddr == sent.header.daddr,
        free.header.id == sent.header.id,
    ensures
        ({
            let with_sent = crate::command::queues_after(queues, sent);
            let handed_out = crate::command::queues_after(with_sent, request);
            &&& crate::command::command_fault(queues, sent) is None
            &&& crate::command::command_fault(with_sent, request) is None
            &&& crate::command::command_reply(with_sent, request) == Some(
                crate::command::delivery(sent),
            )
            &&& crate::command::command_fault(handed_out, free) is None
            &&& crate::command::queues_after(handed_out, free) == queues
        }),
{
    let client = sent.header.daddr;
    let with_sent = crate::command::queues_after(queues, sent);
    let handed_out = crate::command::queues_after(with_sent, request);
    let freed = crate::command::queues_after(handed_out, free);
    let delivered = handed_out[client].delivered;
    assert(delivered =~= queues[client].delivered.push(crate::command::delivery(sent)));
    crate::queue::position_is_first(delivered, free.header.id);
    let at = crate::queue::position_of(delivered, free.header.id);
    assert(at == delivered.len() - 1) by {
        if at < delivered.len() - 1 {
            assert(delivered[at] == queues[client].delivered[at]);
        }
        if at == delivered.len() {
            assert(delivered[delivered.len() - 1].header.id != free.header.id);
        }
    }
    assert(freed[client].delivered =~= queues[client].delivered);
    assert(freed[client].waiting =~= queues[client].waiting);
    assert(freed =~= queues);
}

/// Replicas that apply the same entries agree, whether they lead or not and however
/// many proposals wait: where neither ends early they hold the same queues and
/// voters, and made the same calls.
pub proof fn replicas_agree(
    replica: ReplicaView,
    entries: Seq<LogEntryView>,
    standing: Standing,
    pending: nat,
    other: Standing,
    other_pending: nat,
)
    requires
        crate::replica::apply_all(replica, entries, standing, pending).fault is None,
        crate::replica::apply_all(replica, entries, other, other_pending).fault is None,
    ensures
        crate::replica::apply_all(replica, entries, standing, pending).replica
            == crate::replica::apply_all(replica, entries, other, other_pending).replica,
        crate::replica::apply_all(replica, entries, standing, pending).calls
            == crate::replica::apply_all(replica, entries, other, other_pending).calls,
    decreases entries.len(),
{
    if entries.len() > 0 {
        replicas_agree(
            replica,
            entries.drop_last(),
            standing,
            pending,
            other,
            other_pending,
        );
    }
}

/// What a leader can apply, every replica that does not lead can apply.
pub proof fn followers_keep_up(
    replica: ReplicaView,
    entries: Seq<LogEntryView>,
    standing: Standing,
    pending: nat,
    follower: Standing,
)
    requires
        crate::replica::apply_all(replica, entries, standing, pending).fault is None,
        !follower.leads,
    ensures
        crate::replica::apply_all(replica, entries, follower, 0).fault is None,
    decreases entries.len(),
{
    if entries.len() > 0 {
        followers_keep_up(replica, entries.drop_last(), standing, pending, follower);
        replicas_agree(replica, entries.drop_last(), standing, pending, follower, 0);
    }
}

/// What comes of two portions of entries, the second applied after the first.
pub open spec fn joined(one: Applied, two: Applied) -> Applied {
    Applied {
        replica: two.replica,
        member: two.member,
        replies: one.replies + two.replies,
        calls: one.calls + two.calls,
        fault: two.fault,
    }
}

proof fn one_more_in_second(
    one: Applied,
    two: Applied,
    entry: LogEntryView,
    standing: Standing,
    pending: nat,
)
    requires
        one.replies.len() <= pending,
    ensures
        crate::replica::apply_one(joined(one, two), entry, standing, pending) == joined(
            one,
            crate::replica::apply_one(
                two,
                entry,
                Standing { member: one.member, ..standing },
                (pending - one.replies.len()) as nat,
            ),
        ),
{
    let later = Standing { member: one.member, ..standing };
    let left = (pending - one.replies.len()) as nat;
    let whole = crate::replica::apply_one(joined(one, two), entry, standing, pending);
    let apart = crate::replica::apply_one(two, entry, later, left);
    assert(whole.calls =~= one.calls + apart.calls);
    assert(whole.replies =~= one.replies + apart.replies);
}

/// It does not matter in how many portions entries are committed: applying some and
/// then the rest is applying them all.
pub proof fn portions_make_no_difference(
    replica: ReplicaView,
    first: Seq<LogEntryView>,
    second: Seq<LogEntryView>,
    standing: Standing,
    pending: nat,
)
    requires
        crate::replica::apply_all(replica, first, standing, pending).fault is None,
    ensures
        ({
            let one = crate::replica::apply_all(replica, first, standing, pending);
            let two = crate::replica::apply_all(
                one.replica,
                second,
                Standing { member: one.member, ..standing },
                (pending - one.replies.len()) as nat,
            );
            crate::replica::apply_all(replica, first + second, standing, pending) == joined(
                one,
                two,
            )
        }),
    decreases second.len(),
{
    let one = crate::replica::apply_all(replica, first, standing, pending);
    let left = (pending - one.replies.len()) as nat;
    let later = Standing { member: one.member, ..standing };
    crate::replica::replies_are_bounded(replica, first, standing, pending);
    if second.len() == 0 {
        assert(first + second =~= first);
        assert(one.replies + Seq::<Option<MessageView>>::empty() =~= one.replies);
        assert(one.calls + Seq::<RaftCall>::empty() =~= one.calls);
    } else {
        let shorter = second.drop_last();
        portions_make_no_difference(replica, first, shorter, standing, pending);
        assert((first + second).drop_last() =~= first + shorter);
        let two = crate::replica::apply_all(one.replica, shorter, later, left);
        one_more_in_second(one, two, second.last(), standing, pending);
    }
}

/// A leader answers every entry that carries data, and another node none.
pub proof fn entries_are_answered(
    replica: ReplicaView,
    entries: Seq<LogEntryView>,
    standing: Standing,
    pending: nat,
)
    requires
        crate::replica::apply_all(replica, entries, standing, pending).fault is None,
    ensures
        crate::replica::apply_all(replica, entries, standing, pending).replies.len() == if standing.leads {
            entries.filter(|e: LogEntryView| e.data.len() > 0).len()
        } else {
            0
        },
    decreases entries.len(),
{
    reveal(Seq::filter);
    if entries.len() > 0 {
        entries_are_answered(replica, entries.drop_last(), standing, pending);
    }
}

/// A replica whose queues are in order keeps them in order, whatever is committed.
pub proof fn replica_stays_in_order(
    replica: ReplicaView,
    entries: Seq<LogEntryView>,
    standing: Standing,
    pending: nat,
)
    requires
        queues_in_order(replica.queues),
    ensures
        queues_in_order(
            crate::replica::apply_all(replica, entries, standing, pending).replica.queues,
        ),
    decreases entries.len(),
{
    if entries.len() > 0 {
        replica_stays_in_order(replica, entries.drop_last(), standing, pending);
        let before = crate::replica::apply_all(replica, entries.drop_last(), standing, pending);
        let entry = entries.last();
        if before.fault is None && entry.data.len() > 0 && crate::replica::entry_fault(
            before.replica,
            entry,
        ) is None && entry.entry_type != crate::consensus::ENTRY_CONF_CHANGE {
            queues_stay_in_order(
                before.replica.queues,
                crate::message::decoded(entry.data)->0,
            );
        }
    }
}

/// A message that was proposed is what every replica applies when its entry is
/// committed.
pub proof fn proposed_message_is_applied(
    replica: ReplicaView,
    proposal: Proposal,
    conf_open: bool,
    entry: LogEntryView,
)
    requires
        proposal.normal is Some,
        crate::proposal::entry_of(proposal, conf_open, entry),
    ensures
        ({
            let command = proposal.normal->0@;
            &&& entry.data.len() > 0
            &&& crate::replica::entry_fault(replica, entry) == crate::command::command_fault(
                replica.queues,
                command,
            )
            &&& crate::replica::replica_after(replica, entry).queues
                == crate::command::queues_after(replica.queues, command)
            &&& crate::replica::replica_after(replica, entry).voters == replica.voters
            &&& crate::replica::entry_reply(replica, entry) == crate::command::command_reply(
                replica.queues,
                command,
            )
        }),
{
    let command = proposal.normal->0@;
    crate::message::decoding_inverts_encoding(command);
    assert(entry.data[0] == crate::message::type_code(command.header.msg_type));
}

/// The replica after what a proposal brings about.
pub open spec fn replica_after_proposal(replica: ReplicaView, proposal: Proposal) -> ReplicaView {
    match proposal.normal {
        Some(command) => ReplicaView {
            queues: crate::command::queues_after(replica.queues, command@),
            ..replica
        },
        None => ReplicaView {
            voters: crate::consensus::voters_after(replica.voters, proposal.conf_change->0@),
            ..replica
        },
    }
}

/// The replica after what proposals bring about, one after the other.
pub open spec fn replica_after_proposals(
    replica: ReplicaView,
    proposals: Seq<Proposal>,
) -> ReplicaView
    decreases proposals.len(),
{
    if proposals.len() == 0 {
        replica
    } else {
        replica_after_proposal(
            replica_after_proposals(replica, proposals.drop_last()),
            proposals.last(),
        )
    }
}

/// What the proposer of a proposal gets back.
pub open spec fn proposal_reply(replica: ReplicaView, proposal: Proposal) -> Option<MessageView> {
    match proposal.normal {
        Some(command) => crate::command::command_reply(replica.queues, command@),
        None => None,
    }
}

/// Proposers get the replies to their own proposals: when the entries of messages and
/// configuration changes are committed in the order in which they were proposed, each
/// proposal is answered with what it brings about after those before it. The entry of a
/// change that gave way to another one, or of one that changes nothing, is empty; it is
/// not answered, and such changes are left out.
pub proof fn proposers_get_their_replies(
    replica: ReplicaView,
    proposals: Seq<Proposal>,
    entries: Seq<LogEntryView>,
    standing: Standing,
    pending: nat,
)
    requires
        standing.leads,
        entries.len() == proposals.len(),
        proposals.len() <= pending,
        forall|i: int|
            0 <= i < proposals.len() ==> crate::proposal::carries(#[trigger] proposals[i])
                && crate::proposal::entry_of(proposals[i], true, entries[i])
                && entries[i].data.len() > 0,
        crate::replica::apply_all(replica, entries, standing, pending).fault is None,
    ensures
        ({
            let applied = crate::replica::apply_all(replica, entries, standing, pending);
            &&& applied.replies.len() == proposals.len()
            &&& applied.replica == replica_after_proposals(replica, proposals)
            &&& forall|i: int|
                0 <= i < proposals.len() ==> #[trigger] applied.replies[i] == proposal_reply(
                    replica_after_proposals(replica, proposals.take(i)),
                    proposals[i],
                )
        }),
    decreases proposals.len(),
{
    if proposals.len() > 0 {
        let n = proposals.len() - 1;
        let earlier = proposals.drop_last();
        proposers_get_their_replies(
            replica,
            earlier,
            entries.drop_last(),
            standing,
            pending,
        );
        let before = crate::replica::apply_all(replica, entries.drop_last(), standing, pending);
        let applied = crate::replica::apply_all(replica, entries, standing, pending);
        assert(crate::proposal::carries(proposals[n]));
        if proposals[n].normal is Some {
            proposed_message_is_applied(before.replica, proposals[n], true, entries[n]);
        } else {
            proposed_change_is_applied(before.replica, proposals[n], true, entries[n]);
        }
        assert forall|i: int| 0 <= i < proposals.len() implies #[trigger] applied.replies[i]
            == proposal_reply(
            replica_after_proposals(replica, proposals.take(i)),
            proposals[i],
        ) by {
            if i < n {
                assert(applied.replies[i] == before.replies[i]);
                assert(proposals.take(i) =~= earlier.take(i));
                assert(proposals[i] == earlier[i]);
            } else {
                assert(proposals.take(i) =~= earlier);
            }
        }
    }
}

/// Proposers learn whether they succeeded: what a refused proposal is answered is never
/// what an applied one is answered.
pub proof fn refusals_are_told_apart(
    refused: Seq<Proposal>,
    applied: Seq<Proposal>,
    replies: Seq<Option<MessageView>>,
    i: int,
    j: int,
)
    requires
        0 <= i < refused.len(),
        0 <= j < replies.len(),
    ensures
        crate::proposal::refusals(refused)[i]->outcome is Err,
        crate::replica::replies_to(applied, replies)[j]->outcome == Ok::<
            Option<MessageView>,
            Refused,
        >(replies[j]),
{
}

/// A round that was done has applied everything that was committed, first what was
/// outstanding and then what raft handed out for it, and answered for all of it.
pub proof fn round_applies_what_is_committed(situation: Situation, answers: Answers)
    requires
        crate::round::round_from(StageView::Begin, situation, answers).status
            == RoundStatus::Done,
    ensures
        answers.ready is Some,
        ({
            let round = crate::round::round_from(StageView::Begin, situation, answers);
            let applied = crate::replica::apply_all(
                situation.replica,
                answers.ready->0.committed + answers.light.committed,
                situation.standing,
                situation.proposals.len(),
            );
            &&& applied.fault is None
            &&& round.replica == applied.replica
            &&& round.member == applied.member
            &&& round.answered == applied.replies.len()
        }),
{
    reveal_with_fuel(crate::round::round_from, 7);
    let pending = situation.proposals.len();
    if answers.ready is Some {
        let ready = answers.ready->0;
        assert(situation.proposals.skip(0) =~= situation.proposals);
        crate::replica::replies_are_bounded(
            situation.replica,
            ready.committed,
            situation.standing,
            pending,
        );
        let one = crate::replica::apply_all(
            situation.replica,
            ready.committed,
            situation.standing,
            pending,
        );
        let left = situation.proposals.skip(one.replies.len() as int);
        assert(left.skip(0) =~= left);
        if one.fault is None {
            portions_make_no_difference(
                situation.replica,
                ready.committed,
                answers.light.committed,
                situation.standing,
                pending,
            );
        }
    }
}

/// The order of a round that was done: messages that need not wait leave before anything
/// is stored; the snapshot is stored before committed entries are applied on top of it,
/// and they are answered before new entries are stored; messages that had to wait leave
/// once entries and hard state are stored, and before the round is given back; then the
/// commit index is stored, what became outstanding leaves and is applied and answered,
/// and last of all raft learns that everything has been applied.
pub proof fn round_keeps_order(situation: Situation, answers: Answers)
    requires
        crate::round::round_from(StageView::Begin, situation, answers).status
            == RoundStatus::Done,
    ensures
        answers.ready is Some,
        ({
            let ready = answers.ready->0;
            let light = answers.light;
            let peers = situation.peers;
            let one = crate::replica::apply_all(
                situation.replica,
                ready.committed,
                situation.standing,
                situation.proposals.len(),
            );
            let left = situation.proposals.skip(one.replies.len() as int);
            let two = crate::replica::apply_all(
                one.replica,
                light.committed,
                Standing { member: one.member, ..situation.standing },
                left.len(),
            );
            crate::round::round_from(StageView::Begin, situation, answers).events
                == crate::round::stage_events(
                seq![RaftCall::Ready { ready }],
                crate::outbox::batches(ready.messages, peers),
            ) + (crate::round::stage_events(
                crate::round::snapshot_calls(ready, true) + one.calls,
                crate::replica::replies_to(situation.proposals, one.replies),
            ) + (crate::round::stage_events(
                seq![RaftCall::Append { entries: ready.entries, stored: true }]
                    + crate::round::hard_state_calls(ready.hard_state),
                crate::outbox::batches(ready.persisted_messages, peers),
            ) + (crate::round::stage_events(
                seq![RaftCall::Advance { light }] + crate::round::commit_calls(light),
                crate::outbox::batches(light.messages, peers),
            ) + (crate::round::stage_events(
                two.calls,
                crate::replica::replies_to(left, two.replies),
            ) + crate::round::stage_events(seq![RaftCall::AdvanceApply], Seq::empty())))))
        }),
{
    reveal_with_fuel(crate::round::round_from, 7);
    if answers.ready is Some {
        let ready = answers.ready->0;
        assert(situation.proposals.skip(0) =~= situation.proposals);
        let one = crate::replica::apply_all(
            situation.replica,
            ready.committed,
            situation.standing,
            situation.proposals.len(),
        );
        crate::replica::replies_are_bounded(
            situation.replica,
            ready.committed,
            situation.standing,
            situation.proposals.len(),
        );
        let left = situation.proposals.skip(one.replies.len() as int);
        assert(left.skip(0) =~= left);
        let two = crate::replica::apply_all(
            one.replica,
            answers.light.committed,
            Standing { member: one.member, ..situation.standing },
            left.len(),
        );
        assert(Seq::<RaftCall>::empty() + two.calls =~= two.calls);
    }
}

/// A configuration change that was proposed is what every replica carries out when
/// its entry is committed. Where another change was under way its entry is empty,
/// and replicas pass it over.
pub proof fn proposed_change_is_applied(
    replica: ReplicaView,
    proposal: Proposal,
    conf_open: bool,
    entry: LogEntryView,
)
    requires
        crate::proposal::proposes_change(proposal),
        crate::proposal::entry_of(proposal, conf_open, entry),
    ensures
        conf_open ==> {
            let change = proposal.conf_change->0@;
            &&& crate::replica::entry_fault(replica, entry)
                == if crate::consensus::change_admissible(replica.voters, replica.joint, change) {
                None
            } else {
                Some(Fault::RefusedConfChange)
            }
            &&& crate::replica::replica_after(replica, entry).voters
                == crate::consensus::voters_after(replica.voters, change)
            &&& crate::replica::replica_after(replica, entry).queues == replica.queues
            &&& crate::replica::entry_reply(replica, entry) is None
        },
        !conf_open ==> forall|applied: Applied, standing: Standing, pending: nat| #[trigger]
            crate::replica::apply_one(applied, entry, standing, pending) == applied,
{
}

/// A peer gets everything that is addressed to it in one batch, in order, and gets
/// nothing else; what is addressed to no peer leaves in no batch.
pub proof fn batches_reach_their_peers(messages: Seq<PeerMessageView>, peers: Seq<u64>)
    requires
        peers.no_duplicates(),
    ensures
        forall|i: int|
            0 <= i < crate::outbox::batches(messages, peers).len() ==> {
                let batch = #[trigger] crate::outbox::batches(messages, peers)[i];
                &&& batch is Send
                &&& peers.contains(batch->to)
                &&& batch->messages == crate::outbox::addressed(messages, batch->to)
                &&& batch->messages.len() > 0
            },
        forall|i: int, j: int|
            0 <= i < j < crate::outbox::batches(messages, peers).len() ==> (
            #[trigger] crate::outbox::batches(messages, peers)[i])->to != (
            #[trigger] crate::outbox::batches(messages, peers)[j])->to,
        forall|peer: u64|
            peers.contains(peer) && (#[trigger] crate::outbox::addressed(messages, peer)).len() > 0
                ==> crate::outbox::batches(messages, peers).contains(
                EffectView::Send { to: peer, messages: crate::outbox::addressed(messages, peer) },
            ),
    decreases peers.len(),
{
    if peers.len() > 0 {
        let earlier = peers.drop_last();
        let last = peers.last();
        batches_reach_their_peers(messages, earlier);
        let before = crate::outbox::batches(messages, earlier);
        let all = crate::outbox::batches(messages, peers);
        assert(peers[peers.len() - 1] == last);
        assert forall|i: int| 0 <= i < before.len() implies peers.contains(
            (#[trigger] before[i])->to,
        ) && before[i]->to != last by {
            let k = choose|k: int| 0 <= k < earlier.len() && earlier[k] == before[i]->to;
            assert(peers[k] == before[i]->to);
        }
        assert forall|peer: u64|
            peers.contains(peer) && (#[trigger] crate::outbox::addressed(messages, peer)).len()
                > 0 implies all.contains(
            EffectView::Send { to: peer, messages: crate::outbox::addressed(messages, peer) },
        ) by {
            let sent = EffectView::Send {
                to: peer,
                messages: crate::outbox::addressed(messages, peer),
            };
            if peer == last {
                assert(all[all.len() - 1] == sent);
            } else {
                let k = choose|k: int| 0 <= k < peers.len() && peers[k] == peer;
                assert(earlier[k] == peer);
                assert(before.contains(sent));
                let at = choose|at: int| 0 <= at < before.len() && before[at] == sent;
                assert(all[at] == sent);
            }
        }
    }
}

/// A follower that nobody has spoken to yet takes whatever a peer can begin with: the
/// first heartbeat of a leader, or a vote request of either round.
pub proof fn first_contact_is_taken(node: Node, message: PeerMessage)
    requires
        node.raft_group is None,
        crate::node::peer_message_wf(message),
        crate::consensus::is_greeting(message@),
        message.to != 0,
    ensures
        crate::node::is_initial(message@),
        crate::node::node_takes(node, message),
{
}

/// A node that rests takes a heartbeat that commits no more than its log holds, and a
/// vote request, in any term that a cluster comes to. In the middle of a joint change
/// there may be an entry that was not stored, so such a node is left out.
pub proof fn resting_node_takes_elections(node: Node, message: PeerMessage)
    requires
        crate::node::node_rests(node),
        crate::node::peer_message_wf(message),
        0 < message.term < TERM_LIMIT,
        node.raft_group matches Some(group) && !crate::consensus::raft_joint(group) && (
        message.msg_type == MSG_REQUEST_VOTE || message.msg_type == MSG_HEARTBEAT
            && message.commit <= crate::consensus::raft_last_index(group)),
    ensures
        crate::node::node_takes(node, message),
{
}

/// The message at `i` took the node from one state to the next.
pub open spec fn stepped_at(nodes: Seq<Node>, messages: Seq<PeerMessageView>, i: int) -> bool {
    crate::node::node_stepped(nodes[i], nodes[i + 1], messages[i])
}

/// The identity of a node, once it has a group.
pub open spec fn identity(node: Node) -> Option<u64> {
    match node.raft_group {
        Some(group) => Some(crate::consensus::raft_settings(group).id),
        None => None,
    }
}

/// The identity that messages give a node, one after the other: the first that can open
/// a group gives it, and it stays.
pub open spec fn identity_after(first: Option<u64>, messages: Seq<PeerMessageView>) -> Option<u64>
    decreases messages.len(),
{
    if messages.len() == 0 {
        first
    } else {
        let before = identity_after(first, messages.drop_last());
        if before is None && crate::node::is_initial(messages.last()) {
            Some(messages.last().to)
        } else {
            before
        }
    }
}

proof fn identity_is_the_first(first: Option<u64>, messages: Seq<PeerMessageView>)
    ensures
        first is Some ==> identity_after(first, messages) == first,
        first is None ==> (identity_after(first, messages) is None <==> forall|i: int|
            0 <= i < messages.len() ==> !crate::node::is_initial(#[trigger] messages[i])),
        forall|i: int|
            first is None && #[trigger] is_first_initial(messages, i) ==> identity_after(
                first,
                messages,
            ) == Some(messages[i].to),
    decreases messages.len(),
{
    if messages.len() > 0 {
        let earlier = messages.drop_last();
        let n = messages.len() - 1;
        identity_is_the_first(first, earlier);
        assert forall|i: int| 0 <= i < n implies #[trigger] messages[i] == earlier[i] by {}
        assert forall|i: int|
            first is None && #[trigger] is_first_initial(messages, i) implies identity_after(
            first,
            messages,
        ) == Some(messages[i].to) by {
            if i < n {
                assert(is_first_initial(earlier, i));
            } else {
                assert forall|k: int| 0 <= k < n implies !crate::node::is_initial(
                    #[trigger] earlier[k],
                ) by {
                    assert(!crate::node::is_initial(messages[k]));
                }
            }
        }
        if first is None {
            if identity_after(first, messages) is None {
                assert forall|i: int| 0 <= i < messages.len() implies !crate::node::is_initial(
                    #[trigger] messages[i],
                ) by {
                    if i < n {
                        assert(!crate::node::is_initial(earlier[i]));
                    }
                }
            } else if identity_after(first, earlier) is Some {
                let i = choose|i: int|
                    0 <= i < earlier.len() && crate::node::is_initial(#[trigger] earlier[i]);
                assert(crate::node::is_initial(messages[i]));
            } else {
                assert(crate::node::is_initial(messages[n]));
            }
        }
    }
}

/// Whatever messages are stepped into a node, one after the other: it has a group
/// afterwards exactly if it had one before or a message came that could open one. A
/// group is never given up, and the identity of the node never changes; where the node
/// had no group, the identity is that for which the first such message was.
pub proof fn steps_keep_the_group(nodes: Seq<Node>, messages: Seq<PeerMessageView>)
    requires
        nodes.len() == messages.len() + 1,
        forall|i: int| 0 <= i < messages.len() ==> #[trigger] stepped_at(nodes, messages, i),
    ensures
        identity(nodes.last()) == identity_after(identity(nodes[0]), messages),
        nodes.last().raft_group is None <==> (nodes[0].raft_group is None && forall|i: int|
            0 <= i < messages.len() ==> !crate::node::is_initial(#[trigger] messages[i])),
        nodes[0].raft_group is Some ==> identity(nodes.last()) == identity(nodes[0]),
        forall|i: int|
            nodes[0].raft_group is None && #[trigger] is_first_initial(messages, i) ==> identity(
                nodes.last(),
            ) == Some(messages[i].to),
    decreases messages.len(),
{
    identity_is_the_first(identity(nodes[0]), messages);
    if messages.len() > 0 {
        let n = messages.len() - 1;
        let earlier = messages.drop_last();
        let before = nodes.drop_last();
        assert forall|i: int| 0 <= i < earlier.len() implies #[trigger] stepped_at(
            before,
            earlier,
            i,
        ) by {
            assert(stepped_at(nodes, messages, i));
        }
        steps_keep_the_group(before, earlier);
        assert(stepped_at(nodes, messages, n));
        assert(before.last() == nodes[n]);
    }
}

/// The message at `i` is the first that can open a group.
pub open spec fn is_first_initial(messages: Seq<PeerMessageView>, i: int) -> bool {
    &&& 0 <= i < messages.len()
    &&& crate::node::is_initial(messages[i])
    &&& forall|k: int| 0 <= k < i ==> !crate::node::is_initial(#[trigger] messages[k])
}

/// One stage that was handled: the states before and after it, and what it left behind.
pub struct Visit {
    pub before: (RaftGroup, MQueuePool, Seq<Proposal>),
    pub after: (RaftGroup, MQueuePool, Seq<Proposal>),
    pub stage: StageView,
    pub effects: Seq<EffectView>,
    pub next: NextView,
}

/// Stages that were handled one after the other, each from where the one before it left
/// off, up to the end of the round.
pub open spec fn chained(visits: Seq<Visit>, peers: Seq<u64>) -> bool {
    &&& visits.len() > 0
    &&& visits.last().next is Ended
    &&& forall|i: int| 0 <= i < visits.len() ==> visited(#[trigger] visits[i], peers)
    &&& forall|i: int|
        0 <= i < visits.len() - 1 ==> follows(#[trigger] visits[i], visits[i + 1])
}

/// The stage was handled.
pub open spec fn visited(visit: Visit, peers: Seq<u64>) -> bool {
    crate::round::step_taken(
        visit.before,
        visit.after,
        peers,
        visit.stage,
        visit.effects,
        visit.next,
    )
}

/// One stage goes on where another one left off.
pub open spec fn follows(visit: Visit, next: Visit) -> bool {
    visit.next == (NextView::Continue { stage: next.stage }) && next.before == visit.after
}

/// What happened in stages that were handled one after the other: the calls that each of
/// them made on the group, and then what left.
pub open spec fn happened(visits: Seq<Visit>) -> Seq<Event>
    decreases visits.len(),
{
    if visits.len() == 0 {
        Seq::empty()
    } else {
        let calls = crate::consensus::raft_calls(visits[0].after.0).skip(
            crate::consensus::raft_calls(visits[0].before.0).len() as int,
        );
        crate::round::stage_events(calls, visits[0].effects) + happened(visits.drop_first())
    }
}

/// What storage and raft decide from a stage on is the same.
pub open spec fn same_answers(stage: StageView, a: Answers, b: Answers) -> bool {
    let left = crate::round::stages_left(stage);
    &&& left >= 5 ==> a.ready == b.ready
    &&& left >= 4 ==> a.snapshot_stored == b.snapshot_stored
    &&& left >= 3 ==> a.entries_stored == b.entries_stored
    &&& left >= 2 ==> a.light == b.light
}

proof fn later_answers_decide(stage: StageView, situation: Situation, a: Answers, b: Answers)
    requires
        same_answers(stage, a, b),
    ensures
        crate::round::round_from(stage, situation, a) == crate::round::round_from(
            stage,
            situation,
            b,
        ),
    decreases crate::round::stages_left(stage),
{
    let step = crate::round::step_of(stage, situation, a);
    assert(step == crate::round::step_of(stage, situation, b));
    if let NextView::Continue { stage: next } = step.next {
        if crate::round::stages_left(next) < crate::round::stages_left(stage) {
            later_answers_decide(
                next,
                crate::round::situation_after(situation, step),
                a,
                b,
            );
        }
    }
}

/// The answers to one stage, and those to the stages after it.
spec fn combined(stage: StageView, first: Answers, later: Answers) -> Answers {
    match stage {
        StageView::Begin => Answers { ready: first.ready, ..later },
        StageView::Taken { ready } => Answers { snapshot_stored: first.snapshot_stored, ..later },
        StageView::Applied { ready } => Answers { entries_stored: first.entries_stored, ..later },
        StageView::Stored { ready } => Answers { light: first.light, ..later },
        _ => later,
    }
}

/// A stage and the round after it make up the round from that stage on.
proof fn one_stage_more(
    stage: StageView,
    situation: Situation,
    first: Answers,
    later: Answers,
    next: StageView,
)
    requires
        crate::round::step_of(stage, situation, first).next == (NextView::Continue {
            stage: next,
        }),
    ensures
        ({
            let step = crate::round::step_of(stage, situation, first);
            let tail = crate::round::round_from(
                next,
                crate::round::situation_after(situation, step),
                later,
            );
            crate::round::round_from(stage, situation, combined(stage, first, later)) == (
            RoundView {
                events: crate::round::stage_events(step.calls, step.effects) + tail.events,
                answered: step.answered + tail.answered,
                ..tail
            })
        }),
        stage is Begin ==> combined(stage, first, later).ready == first.ready,
{
    let answers = combined(stage, first, later);
    let step = crate::round::step_of(stage, situation, first);
    assert(crate::round::step_of(stage, situation, answers) == step);
    assert(crate::round::stages_left(next) + 1 == crate::round::stages_left(stage));
    later_answers_decide(
        next,
        crate::round::situation_after(situation, step),
        answers,
        later,
    );
}

/// What a stage did, as its answers have it.
proof fn visit_is_step(visit: Visit, peers: Seq<u64>) -> (first: Answers)
    requires
        visited(visit, peers),
    ensures
        first.ready == crate::round::outstanding(visit.before.0),
        ({
            let situation = crate::round::situation_of(visit.before, peers);
            let step = crate::round::step_of(visit.stage, situation, first);
            &&& crate::consensus::raft_calls(visit.after.0).skip(
                crate::consensus::raft_calls(visit.before.0).len() as int,
            ) == step.calls
            &&& visit.effects == step.effects
            &&& visit.next == step.next
            &&& step.answered <= visit.before.2.len()
            &&& visit.after.2 == visit.before.2.skip(step.answered as int)
            &&& crate::round::situation_of(visit.after, peers)
                == crate::round::situation_after(situation, step)
            &&& crate::replica::replica_view(visit.after.0, visit.after.1) == step.replica
            &&& crate::consensus::raft_member(visit.after.0) == step.member
        }),
{
    let first = choose|answers: Answers| #[trigger]
        crate::round::step_answered(
            visit.before,
            visit.after,
            peers,
            visit.stage,
            visit.effects,
            visit.next,
            answers,
        );
    let step = crate::round::step_of(
        visit.stage,
        crate::round::situation_of(visit.before, peers),
        first,
    );
    let calls = crate::consensus::raft_calls(visit.before.0);
    assert((calls + step.calls).skip(calls.len() as int) =~= step.calls);
    first
}

/// What a round leaves behind is what stages that were handled left behind.
pub open spec fn matches_round(visits: Seq<Visit>, round: RoundView) -> bool {
    let end = visits.last();
    &&& round.events == happened(visits)
    &&& round.replica == crate::replica::replica_view(end.after.0, end.after.1)
    &&& round.member == crate::consensus::raft_member(end.after.0)
    &&& round.answered <= visits[0].before.2.len()
    &&& end.after.2 == visits[0].before.2.skip(round.answered as int)
    &&& end.next == (NextView::Ended { status: round.status })
}

proof fn chain_goes_on(visits: Seq<Visit>, peers: Seq<u64>)
    requires
        chained(visits, peers),
        visits.len() > 1,
    ensures
        chained(visits.drop_first(), peers),
        follows(visits[0], visits.drop_first()[0]),
{
    let rest = visits.drop_first();
    assert forall|i: int| 0 <= i < rest.len() implies visited(#[trigger] rest[i], peers) by {
        assert(visited(visits[i + 1], peers));
    }
    assert forall|i: int| 0 <= i < rest.len() - 1 implies follows(
        #[trigger] rest[i],
        rest[i + 1],
    ) by {
        assert(follows(visits[i + 1], visits[i + 2]));
    }
    assert(follows(visits[0], visits[1]));
}

proof fn first_visit_joins(
    visits: Seq<Visit>,
    peers: Seq<u64>,
    step: StepView,
    tail: RoundView,
)
    requires
        visits.len() > 1,
        follows(visits[0], visits.drop_first()[0]),
        matches_round(visits.drop_first(), tail),
        crate::consensus::raft_calls(visits[0].after.0).skip(
            crate::consensus::raft_calls(visits[0].before.0).len() as int,
        ) == step.calls,
        visits[0].effects == step.effects,
        step.answered <= visits[0].before.2.len(),
        visits[0].after.2 == visits[0].before.2.skip(step.answered as int),
    ensures
        matches_round(
            visits,
            (RoundView {
                events: crate::round::stage_events(step.calls, step.effects) + tail.events,
                answered: step.answered + tail.answered,
                ..tail
            }),
        ),
{
    let before = visits[0].before.2;
    assert(before.skip(step.answered as int).skip(tail.answered as int) =~= before.skip(
        (step.answered + tail.answered) as int,
    ));
    assert(visits.drop_first().last() == visits.last());
}

/// The stages make up the round: stages that were handled one after the other are what
/// [`crate::round::round_from`] describes, for some answers of storage and raft. What
/// happened, the replica, the proposals that are left and the status are those of the
/// round.
pub proof fn stages_make_the_round(visits: Seq<Visit>, peers: Seq<u64>) -> (answers: Answers)
    requires
        chained(visits, peers),
    ensures
        visits[0].stage is Begin ==> answers.ready == crate::round::outstanding(
            visits[0].before.0,
        ),
        matches_round(
            visits,
            crate::round::round_from(
                visits[0].stage,
                crate::round::situation_of(visits[0].before, peers),
                answers,
            ),
        ),
    decreases visits.len(),
{
    let visit = visits[0];
    assert(visited(visit, peers));
    let first = visit_is_step(visit, peers);
    let situation = crate::round::situation_of(visit.before, peers);
    let step = crate::round::step_of(visit.stage, situation, first);
    if visits.len() == 1 {
        assert(happened(visits.drop_first()) =~= Seq::<Event>::empty());
        assert(happened(visits) =~= crate::round::stage_events(step.calls, visit.effects));
        first
    } else {
        chain_goes_on(visits, peers);
        let rest = visits.drop_first();
        let later = stages_make_the_round(rest, peers);
        one_stage_more(visit.stage, situation, first, later, rest[0].stage);
        let tail = crate::round::round_from(
            rest[0].stage,
            crate::round::situation_of(rest[0].before, peers),
            later,
        );
        first_visit_joins(visits, peers, step, tail);
        combined(visit.stage, first, later)
    }
}

} // verus!
