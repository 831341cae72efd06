//! A replica: the queues and the configuration of its raft group, and what
//! committed entries do to them.

use crate::command::{apply_command, check_command, Fault};
use crate::consensus::{
    decode_conf_change, raft_apply_conf_change, raft_leads, raft_store_conf_state, LogEntry,
    LogEntryView, RaftCall, RaftGroup, Standing, ENTRY_CONF_CHANGE,
};
use crate::message::{Message, MessageView};
use crate::outbox::{Effect, EffectView};
use crate::proposal::Proposal;
use crate::queue::{MQueuePool, MQueueView};
use std::collections::VecDeque;
use vstd::prelude::*;

verus! {

/// What committed entries act on, as a value.
pub struct ReplicaView {
    /// The queues of the clients.
    pub queues: Map<u32, MQueueView>,
    /// The voters of the raft group.
    pub voters: Set<u64>,
    /// Whether the group is in the middle of a joint configuration change.
    pub joint: bool,
}

/// The replica that a group and a pool of queues make up.
pub open spec fn replica_view(group: RaftGroup, pool: MQueuePool) -> ReplicaView {
    ReplicaView {
        queues: pool@,
        voters: crate::consensus::raft_voters(group),
        joint: crate::consensus::raft_joint(group),
    }
}

/// Why an entry that carries data cannot be applied, if it cannot.
pub open spec fn entry_fault(replica: ReplicaView, entry: LogEntryView) -> Option<Fault> {
    if entry.entry_type == ENTRY_CONF_CHANGE {
        match crate::consensus::conf_change_parsed(entry.data) {
            Some(change) => if crate::consensus::change_admissible(
                replica.voters,
                replica.joint,
                change,
            ) {
                None
            } else {
                Some(Fault::RefusedConfChange)
            },
            None => Some(Fault::MalformedConfChange),
        }
    } else {
        match crate::message::decoded(entry.data) {
            Some(command) => crate::command::command_fault(replica.queues, command),
            None => Some(Fault::MalformedMessage),
        }
    }
}

/// The replica after an entry that carries data and can be applied.
pub open spec fn replica_after(replica: ReplicaView, entry: LogEntryView) -> ReplicaView {
    if entry.entry_type == ENTRY_CONF_CHANGE {
        ReplicaView {
            voters: crate::consensus::voters_after(
                replica.voters,
                crate::consensus::conf_change_parsed(entry.data)->0,
            ),
            ..replica
        }
    } else {
        ReplicaView {
            queues: crate::command::queues_after(
                replica.queues,
                crate::message::decoded(entry.data)->0,
            ),
            ..replica
        }
    }
}

/// What the proposer of an entry gets back.
pub open spec fn entry_reply(replica: ReplicaView, entry: LogEntryView) -> Option<MessageView> {
    if entry.entry_type == ENTRY_CONF_CHANGE {
        None
    } else {
        crate::command::command_reply(replica.queues, crate::message::decoded(entry.data)->0)
    }
}

/// The calls on the group that an entry leads to: a configuration change takes
/// effect, and the configuration is stored where it did.
pub open spec fn entry_calls(replica: ReplicaView, entry: LogEntryView) -> Seq<RaftCall> {
    if entry.entry_type == ENTRY_CONF_CHANGE {
        match crate::consensus::conf_change_parsed(entry.data) {
            Some(change) => if crate::consensus::change_admissible(
                replica.voters,
                replica.joint,
                change,
            ) {
                seq![
                    RaftCall::ApplyConfChange { change },
                    RaftCall::SetConfState {
                        voters: crate::consensus::voters_after(replica.voters, change),
                    },
                ]
            } else {
                seq![RaftCall::ApplyConfChange { change }]
            },
            None => Seq::empty(),
        }
    } else {
        Seq::empty()
    }
}

/// Whether the node `id` is a member after an entry that can be applied.
pub open spec fn entry_member(id: u64, member: bool, entry: LogEntryView) -> bool {
    if entry.entry_type == ENTRY_CONF_CHANGE {
        crate::consensus::member_after(
            id,
            member,
            crate::consensus::conf_change_parsed(entry.data)->0,
        )
    } else {
        member
    }
}

/// How far a run of entries has been applied.
pub struct Applied {
    pub replica: ReplicaView,
    /// Whether the node is a member of its group.
    pub member: bool,
    /// The outcomes that the leader has to report, in order.
    pub replies: Seq<Option<MessageView>>,
    /// The calls that were made on the group.
    pub calls: Seq<RaftCall>,
    /// Why it ended early, if it did.
    pub fault: Option<Fault>,
}

/// One entry more. Entries without data, which new leaders append, are passed
/// over. A leader reports the outcome of every other entry to the proposal that
/// waits the longest; `pending` proposals waited at the beginning.
pub open spec fn apply_one(
    applied: Applied,
    entry: LogEntryView,
    standing: Standing,
    pending: nat,
) -> Applied {
    if applied.fault is Some || entry.data.len() == 0 {
        applied
    } else {
        let calls = applied.calls + entry_calls(applied.replica, entry);
        match entry_fault(applied.replica, entry) {
            Some(fault) => Applied { calls, fault: Some(fault), ..applied },
            None => {
                let replica = replica_after(applied.replica, entry);
                let member = entry_member(standing.id, applied.member, entry);
                if !standing.leads {
                    Applied { replica, member, calls, ..applied }
                } else if applied.replies.len() < pending {
                    Applied {
                        replica,
                        member,
                        calls,
                        replies: applied.replies.push(entry_reply(applied.replica, entry)),
                        ..applied
                    }
                } else {
                    Applied {
                        replica,
                        member,
                        calls,
                        fault: Some(Fault::NoPendingProposal),
                        ..applied
                    }
                }
            },
        }
    }
}

/// A run of entries, one after the other, up to the first that cannot be applied.
pub open spec fn apply_all(
    replica: ReplicaView,
    entries: Seq<LogEntryView>,
    standing: Standing,
    pending: nat,
) -> Applied
    decreases entries.len(),
{
    if entries.len() == 0 {
        Applied {
            replica,
            member: standing.member,
            replies: Seq::empty(),
            calls: Seq::empty(),
            fault: None,
        }
    } else {
        apply_one(
            apply_all(replica, entries.drop_last(), standing, pending),
            entries.last(),
            standing,
            pending,
        )
    }
}

/// The replies to the proposals that wait the longest.
pub open spec fn replies_to(
    proposals: Seq<Proposal>,
    replies: Seq<Option<MessageView>>,
) -> Seq<EffectView> {
    Seq::new(
        replies.len(),
        |i: int|
            EffectView::Reply { reply_to: proposals[i].propose_success, outcome: Ok(replies[i]) },
    )
}

/// No more replies are given than proposals wait, and none by a node that does
/// not lead.
pub proof fn replies_are_bounded(
    replica: ReplicaView,
    entries: Seq<LogEntryView>,
    standing: Standing,
    pending: nat,
)
    ensures
        apply_all(replica, entries, standing, pending).replies.len() <= pending,
        !standing.leads ==> apply_all(replica, entries, standing, pending).replies.len() == 0,
        apply_all(replica, entries, standing, pending).replica.joint == replica.joint,
    decreases entries.len(),
{
    if entries.len() > 0 {
        replies_are_bounded(replica, entries.drop_last(), standing, pending);
    }
}

/// Applies one entry that carries data to the group and the queues.
fn apply_entry(group: &mut RaftGroup, pool: &mut MQueuePool, entry: &LogEntry) -> (result: Result<
    Option<Message>,
    Fault,
>)
    requires
        crate::consensus::raft_sound(*old(group)),
    ensures
        crate::consensus::same_progress(*old(group), *final(group)),
        crate::consensus::raft_settings(*final(group)) == crate::consensus::raft_settings(
            *old(group),
        ),
        crate::consensus::raft_is_leader(*final(group)) == crate::consensus::raft_is_leader(
            *old(group),
        ),
        crate::consensus::raft_calls(*final(group)) == crate::consensus::raft_calls(*old(group))
            + entry_calls(replica_view(*old(group), *old(pool)), entry@),
        match result {
            Ok(reply) => {
                let before = replica_view(*old(group), *old(pool));
                &&& entry_fault(before, entry@) is None
                &&& replica_view(*final(group), *final(pool)) == replica_after(before, entry@)
                &&& crate::consensus::raft_member(*final(group)) == entry_member(
                    crate::consensus::raft_settings(*old(group)).id,
                    crate::consensus::raft_member(*old(group)),
                    entry@,
                )
                &&& crate::message::opt_message_view(reply) == entry_reply(before, entry@)
            },
            Err(fault) => {
                let before = replica_view(*old(group), *old(pool));
                &&& entry_fault(before, entry@) == Some(fault)
                &&& replica_view(*final(group), *final(pool)) == before
                &&& crate::consensus::raft_member(*final(group)) == crate::consensus::raft_member(
                    *old(group),
                )
            },
        },
{
    let ghost before = replica_view(*group, *pool);
    let ghost calls = crate::consensus::raft_calls(*group);
    if entry.entry_type == ENTRY_CONF_CHANGE {
        match decode_conf_change(&entry.data) {
            Some(change) => match raft_apply_conf_change(group, &change) {
                Ok(state) => {
                    raft_store_conf_state(group, state);
                    assert(crate::consensus::raft_calls(*group) =~= calls + entry_calls(
                        before,
                        entry@,
                    ));
                    Ok(None)
                },
                Err(_) => {
                    assert(crate::consensus::raft_calls(*group) =~= calls + entry_calls(
                        before,
                        entry@,
                    ));
                    Err(Fault::RefusedConfChange)
                },
            },
            None => {
                assert(calls =~= calls + entry_calls(before, entry@));
                Err(Fault::MalformedConfChange)
            },
        }
    } else {
        assert(calls =~= calls + entry_calls(before, entry@));
        match Message::from_bytes(entry.data.as_slice()) {
            Some(command) => match check_command(pool, &command) {
                Some(fault) => Err(fault),
                None => Ok(apply_command(pool, command)),
            },
            None => Err(Fault::MalformedMessage),
        }
    }
}

/// Applies committed entries. A leader reports the outcomes to the proposals at
/// the front of the queue, which leave it; the replies are put after `effects`.
/// It ends early at an entry that cannot be applied.
pub fn handle_committed_entries(
    group: &mut RaftGroup,
    pool: &mut MQueuePool,
    proposals: &mut VecDeque<Proposal>,
    entries: Vec<LogEntry>,
    effects: &mut Vec<Effect>,
) -> (fault: Option<Fault>)
    requires
        crate::consensus::raft_sound(*old(group)),
    ensures
        crate::consensus::same_progress(*old(group), *final(group)),
        crate::consensus::raft_settings(*final(group)) == crate::consensus::raft_settings(
            *old(group),
        ),
        crate::consensus::raft_is_leader(*final(group)) == crate::consensus::raft_is_leader(
            *old(group),
        ),
        ({
            let applied = apply_all(
                replica_view(*old(group), *old(pool)),
                crate::consensus::log_entries_view(entries@),
                crate::consensus::standing(*old(group)),
                old(proposals)@.len(),
            );
            &&& fault == applied.fault
            &&& replica_view(*final(group), *final(pool)) == applied.replica
            &&& crate::consensus::raft_member(*final(group)) == applied.member
            &&& crate::consensus::raft_calls(*final(group)) == crate::consensus::raft_calls(
                *old(group),
            ) + applied.calls
            &&& final(proposals)@ == old(proposals)@.skip(applied.replies.len() as int)
            &&& crate::outbox::effects_view(final(effects)@) == crate::outbox::effects_view(
                old(effects)@,
            ) + replies_to(old(proposals)@, applied.replies)
            &&& forall|i: int|
                old(effects)@.len() <= i < final(effects)@.len()
                    ==> crate::channel::outcome_view((#[trigger] final(effects)@[i])->outcome)
                    == Ok::<Option<MessageView>, crate::channel::Refused>(
                    applied.replies[i - old(effects)@.len()],
                )
        }),
        final(proposals)@.len() <= old(proposals)@.len(),
        final(effects)@.len() - old(effects)@.len() == old(proposals)@.len()
            - final(proposals)@.len(),
        forall|i: int|
            0 <= i < old(effects)@.len() ==> (#[trigger] final(effects)@[i])@
                == old(effects)@[i]@,
        forall|i: int|
            old(effects)@.len() <= i < final(effects)@.len() ==> (
            #[trigger] final(effects)@[i]) is Reply && final(effects)@[i]->reply_to
                == old(proposals)@[i - old(effects)@.len()].propose_success,
        forall|i: int|
            0 <= i < final(proposals)@.len() ==> #[trigger] final(proposals)@[i]
                == old(proposals)@[i + (old(proposals)@.len() - final(proposals)@.len())],
{
    let ghost first = *group;
    let ghost replica = replica_view(*group, *pool);
    let ghost standing = crate::consensus::standing(*group);
    let ghost waiting = proposals@;
    let ghost sent = effects@;
    let ghost kept = crate::outbox::effects_view(sent);
    let ghost all = crate::consensus::log_entries_view(entries@);
    assert(proposals@ =~= waiting.skip(0));
    assert(crate::outbox::effects_view(effects@) =~= kept + replies_to(waiting, Seq::empty()));
    assert(crate::consensus::raft_calls(first) =~= crate::consensus::raft_calls(first) + Seq::<
        RaftCall,
    >::empty());
    let mut i: usize = 0;
    while i < entries.len()
        invariant
            i <= entries@.len(),
            first == *old(group),
            replica == replica_view(*old(group), *old(pool)),
            waiting == old(proposals)@,
            sent == old(effects)@,
            kept == crate::outbox::effects_view(sent),
            all == crate::consensus::log_entries_view(entries@),
            crate::consensus::raft_sound(*group),
            crate::consensus::same_progress(first, *group),
            crate::consensus::raft_settings(*group) == crate::consensus::raft_settings(first),
            crate::consensus::raft_is_leader(*group) == crate::consensus::raft_is_leader(first),
            standing == crate::consensus::standing(first),
            ({
                let applied = apply_all(replica, all.take(i as int), standing, waiting.len());
                &&& applied.fault is None
                &&& applied.replies.len() <= waiting.len()
                &&& replica_view(*group, *pool) == applied.replica
                &&& crate::consensus::raft_member(*group) == applied.member
                &&& crate::consensus::raft_calls(*group) == crate::consensus::raft_calls(first)
                    + applied.calls
                &&& proposals@ == waiting.skip(applied.replies.len() as int)
                &&& crate::outbox::effects_view(effects@) == kept + replies_to(
                    waiting,
                    applied.replies,
                )
            }),
        decreases entries@.len() - i,
    {
        let ghost done = apply_all(replica, all.take(i as int), standing, waiting.len());
        let ghost next = apply_all(replica, all.take(i + 1), standing, waiting.len());
        assert(all.take(i + 1).drop_last() =~= all.take(i as int));
        assert(all.take(i + 1).last() == entries@[i as int]@);
        proof {
            apply_all_keeps_fault(replica, all, standing, waiting.len(), i + 1);
        }
        if entries[i].data.len() > 0 {
            let ghost replied = effects@;
            match apply_entry(group, pool, &entries[i]) {
                Ok(reply) => {
                    assert(crate::consensus::raft_calls(*group) =~= crate::consensus::raft_calls(
                        first,
                    ) + next.calls);
                    if raft_leads(group) {
                        match proposals.pop_front() {
                            Some(proposal) => {
                                effects.push(
                                    Effect::Reply {
                                        reply_to: proposal.propose_success,
                                        outcome: Ok(reply),
                                    },
                                );
                                assert(proposals@ =~= waiting.skip(next.replies.len() as int));
                                assert(crate::outbox::effects_view(effects@)
                                    =~= crate::outbox::effects_view(replied).push(
                                    effects@.last()@,
                                ));
                                assert(crate::outbox::effects_view(effects@) =~= kept + replies_to(
                                    waiting,
                                    next.replies,
                                ));
                            },
                            None => {
                                proof {
                                    replies_are_in_order(sent, effects@, waiting, done.replies);
                                }
                                return Some(Fault::NoPendingProposal);
                            },
                        }
                    }
                },
                Err(fault) => {
                    assert(crate::consensus::raft_calls(*group) =~= crate::consensus::raft_calls(
                        first,
                    ) + next.calls);
                    proof {
                        replies_are_in_order(sent, effects@, waiting, done.replies);
                    }
                    return Some(fault);
                },
            }
        }
        i = i + 1;
    }
    assert(all.take(entries@.len() as int) =~= all);
    proof {
        let applied = apply_all(replica, all, standing, waiting.len());
        replies_are_in_order(sent, effects@, waiting, applied.replies);
    }
    None
}

/// What was put after `sent` answers the proposals at the front, each in its turn.
proof fn replies_are_in_order(
    sent: Seq<Effect>,
    effects: Seq<Effect>,
    waiting: Seq<Proposal>,
    replies: Seq<Option<MessageView>>,
)
    requires
        crate::outbox::effects_view(effects) == crate::outbox::effects_view(sent) + replies_to(
            waiting,
            replies,
        ),
    ensures
        effects.len() == sent.len() + replies.len(),
        forall|i: int| 0 <= i < sent.len() ==> (#[trigger] effects[i])@ == sent[i]@,
        forall|i: int|
            sent.len() <= i < effects.len() ==> (#[trigger] effects[i])@ == (EffectView::Reply {
                reply_to: waiting[i - sent.len()].propose_success,
                outcome: Ok(replies[i - sent.len()]),
            }),
{
    let views = crate::outbox::effects_view(effects);
    assert(views.len() == effects.len());
    assert forall|i: int| 0 <= i < effects.len() implies (#[trigger] effects[i])@ == if i
        < sent.len() {
        sent[i]@
    } else {
        EffectView::Reply {
            reply_to: waiting[i - sent.len()].propose_success,
            outcome: Ok(replies[i - sent.len()]),
        }
    } by {
        assert(views[i] == effects[i]@);
    }
}

/// Once a run has ended early, later entries change nothing.
proof fn apply_all_keeps_fault(
    replica: ReplicaView,
    entries: Seq<LogEntryView>,
    standing: Standing,
    pending: nat,
    n: int,
)
    requires
        0 <= n <= entries.len(),
    ensures
        apply_all(replica, entries.take(n), standing, pending).fault is Some ==> apply_all(
            replica,
            entries,
            standing,
            pending,
        ) == apply_all(replica, entries.take(n), standing, pending),
    decreases entries.len(),
{
    if n == entries.len() {
        assert(entries.take(n) =~= entries);
    } else {
        assert(entries.drop_last().take(n) =~= entries.take(n));
        apply_all_keeps_fault(replica, entries.drop_last(), standing, pending, n);
    }
}

} // verus!
