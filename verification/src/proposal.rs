//! Proposals: what a client or the node itself wants to see in the log, and how
//! the leader puts it there.

use crate::channel::{reply_channel, Outcome, Refused};
use crate::consensus::{
    raft_last, raft_propose, raft_propose_conf_change, ConfChange, LogEntryView, RaftCall,
    RaftGroup, ENTRY_CONF_CHANGE, ENTRY_NORMAL,
};
use crate::message::Message;
use crate::outbox::{Effect, EffectView};
use std::collections::VecDeque;
use std::sync::mpsc::{Receiver, SyncSender};
use vstd::prelude::*;

verus! {

/// Something to be put into the log, and where its outcome is awaited.
pub struct Proposal {
    /// A message for the queues.
    pub normal: Option<Message>,
    /// A change of the group's configuration.
    pub conf_change: Option<ConfChange>,
    /// A node that should become the leader.
    pub transfer_leader: Option<u64>,
    /// The index of the entry once it has been proposed, 0 before.
    pub proposed: u64,
    /// Where the outcome is awaited.
    pub propose_success: SyncSender<Outcome>,
}

/// Whether a proposal carries something for the log.
pub open spec fn carries(proposal: Proposal) -> bool {
    proposal.normal is Some || proposal.conf_change is Some
}

/// Whether a proposal puts a configuration change into the log. A message goes before
/// a change.
pub open spec fn proposes_change(proposal: Proposal) -> bool {
    proposal.normal is None && proposal.conf_change is Some
}

/// A proposal can be handled: leadership is not transferred, so a proposal does not ask
/// for that alone.
pub open spec fn proposal_wf(proposal: Proposal) -> bool {
    proposal.transfer_leader is Some ==> carries(proposal)
}

/// Every one of the proposals is well formed.
pub open spec fn proposals_wf(proposals: Seq<Proposal>) -> bool {
    forall|i: int| 0 <= i < proposals.len() ==> proposal_wf(#[trigger] proposals[i])
}

/// The call that puts a proposal to the group.
pub open spec fn proposal_call(proposal: Proposal) -> RaftCall {
    match proposal.normal {
        Some(message) => RaftCall::Propose { data: crate::message::encoded(message@) },
        None => RaftCall::ProposeConfChange { change: proposal.conf_change->0@ },
    }
}

/// Whether `entry` is what the log holds of a proposal: the encoded message, or
/// the configuration change, which gives way to an empty entry where the group is
/// not open for one.
pub open spec fn entry_of(proposal: Proposal, conf_open: bool, entry: LogEntryView) -> bool {
    match proposal.normal {
        Some(message) => entry == (LogEntryView {
            entry_type: ENTRY_NORMAL,
            data: crate::message::encoded(message@),
        }),
        None => if conf_open {
            entry.entry_type == ENTRY_CONF_CHANGE && crate::consensus::conf_change_parsed(
                entry.data,
            ) == Some(proposal.conf_change->0@)
        } else {
            entry == (LogEntryView { entry_type: ENTRY_NORMAL, data: Seq::empty() })
        },
    }
}

/// A proposal that has been put into the log at `index`.
pub open spec fn proposed_at(proposal: Proposal, index: u64) -> Proposal {
    Proposal { proposed: index, ..proposal }
}

impl Clone for Proposal {
    /// Another proposal of the same, whose outcome comes on the same channel.
    fn clone(&self) -> (copy: Self)
        ensures
            crate::message::opt_message_view(copy.normal) == crate::message::opt_message_view(
                self.normal,
            ),
            copy.conf_change is Some <==> self.conf_change is Some,
            copy.conf_change is Some ==> copy.conf_change->0@ == self.conf_change->0@,
            copy.transfer_leader == self.transfer_leader,
            copy.proposed == self.proposed,
            copy.propose_success == self.propose_success,
    {
        Proposal {
            normal: match &self.normal {
                Some(message) => Some(message.clone()),
                None => None,
            },
            conf_change: match &self.conf_change {
                Some(change) => Some(change.clone()),
                None => None,
            },
            transfer_leader: self.transfer_leader,
            proposed: self.proposed,
            propose_success: self.propose_success.clone(),
        }
    }
}

impl Proposal {
    /// A proposal of a configuration change, and the end on which its outcome comes.
    pub fn conf_change(change: &ConfChange) -> (result: (Self, Receiver<Outcome>))
        ensures
            proposal_wf(result.0),
            result.0.normal is None,
            result.0.conf_change is Some && result.0.conf_change->0@ == change@,
            result.0.transfer_leader is None,
            result.0.proposed == 0,
            crate::channel::channel_of(result.1) == result.0.propose_success,
            crate::channel::channel_bound(result.0.propose_success) == 1,
    {
        let (sender, receiver) = reply_channel(1);
        let proposal = Proposal {
            normal: None,
            conf_change: Some(change.clone()),
            transfer_leader: None,
            proposed: 0,
            propose_success: sender,
        };
        (proposal, receiver)
    }

    /// A proposal of a message, and the end on which its outcome comes.
    pub fn normal(message: Message) -> (result: (Self, Receiver<Outcome>))
        ensures
            proposal_wf(result.0),
            result.0.normal == Some(message),
            result.0.conf_change is None,
            result.0.transfer_leader is None,
            result.0.proposed == 0,
            crate::channel::channel_of(result.1) == result.0.propose_success,
            crate::channel::channel_bound(result.0.propose_success) == 1,
    {
        let (sender, receiver) = reply_channel(1);
        let proposal = Proposal {
            normal: Some(message),
            conf_change: None,
            transfer_leader: None,
            proposed: 0,
            propose_success: sender,
        };
        (proposal, receiver)
    }
}

/// Puts a proposal to the group. Where its entry was appended to the log the
/// proposal remembers the index; where it was not, or where there is nothing to append,
/// its proposer has to learn of that, and the result is `false`.
pub fn propose(group: &mut RaftGroup, proposal: &mut Proposal) -> (appended: bool)
    requires
        crate::consensus::raft_live(*old(group)),
        proposal_wf(*old(proposal)),
    ensures
        appended == (crate::consensus::raft_admits(*old(group)) && carries(*old(proposal))),
        carries(*old(proposal)) ==> crate::consensus::called(
            *old(group),
            *final(group),
            proposal_call(*old(proposal)),
        ),
        !carries(*old(proposal)) ==> *final(group) == *old(group),
        crate::consensus::raft_live(*final(group)),
        crate::consensus::same_standing(*old(group), *final(group)),
        crate::consensus::raft_admits(*final(group)) == crate::consensus::raft_admits(*old(group)),
        crate::consensus::raft_conf_open(*final(group)) == (crate::consensus::raft_conf_open(
            *old(group),
        ) && !(appended && proposes_change(*old(proposal)))),
        appended ==> {
            let index = crate::consensus::raft_last_index(*final(group));
            let log = crate::consensus::raft_log(*final(group));
            &&& crate::consensus::raft_is_leader(*old(group))
            &&& index == crate::consensus::raft_last_index(*old(group)) + 1
            &&& log == crate::consensus::raft_log(*old(group)).insert(index, log[index])
            &&& entry_of(
                *old(proposal),
                crate::consensus::raft_conf_open(*old(group)),
                log[index],
            )
            &&& *final(proposal) == proposed_at(*old(proposal), index)
        },
        !appended ==> {
            &&& crate::consensus::raft_last_index(*final(group))
                == crate::consensus::raft_last_index(*old(group))
            &&& crate::consensus::raft_log(*final(group)) == crate::consensus::raft_log(*old(group))
            &&& *final(proposal) == *old(proposal)
        },
{
    let last_before = raft_last(group);
    match &proposal.normal {
        Some(message) => {
            let data = message.to_bytes();
            let _ = raft_propose(group, data);
        },
        None => match &proposal.conf_change {
            Some(change) => {
                let _ = raft_propose_conf_change(group, change);
            },
            None => {},
        },
    }
    let last_after = raft_last(group);
    if last_after == last_before {
        false
    } else {
        proposal.proposed = last_before + 1;
        true
    }
}

/// The number of proposals at the front that have been proposed already.
pub open spec fn proposed_prefix(proposals: Seq<Proposal>) -> nat
    decreases proposals.len(),
{
    if proposals.len() == 0 || proposals[0].proposed == 0 {
        0
    } else {
        1 + proposed_prefix(proposals.drop_first())
    }
}

/// `proposed_prefix` counts the proposals before the first one that has not been
/// proposed.
pub proof fn prefix_is_proposed(proposals: Seq<Proposal>)
    ensures
        proposed_prefix(proposals) <= proposals.len(),
        forall|i: int|
            0 <= i < proposed_prefix(proposals) ==> (#[trigger] proposals[i]).proposed > 0,
        proposed_prefix(proposals) < proposals.len() ==> proposals[proposed_prefix(
            proposals,
        ) as int].proposed == 0,
    decreases proposals.len(),
{
    if proposals.len() > 0 && proposals[0].proposed != 0 {
        let rest = proposals.drop_first();
        prefix_is_proposed(rest);
        assert forall|i: int| 0 <= i < proposed_prefix(proposals) implies (
        #[trigger] proposals[i]).proposed > 0 by {
            if i > 0 {
                assert(rest[i - 1] == proposals[i]);
            }
        }
    }
}

/// The number of proposals that carry something for the log.
pub open spec fn carried(proposals: Seq<Proposal>) -> nat
    decreases proposals.len(),
{
    if proposals.len() == 0 {
        0
    } else if carries(proposals.last()) {
        carried(proposals.drop_last()) + 1
    } else {
        carried(proposals.drop_last())
    }
}

/// Proposals of which all that carry something were put into the log after `last`, one
/// after the other, and marked with their indices.
pub open spec fn marked(proposals: Seq<Proposal>, last: u64) -> Seq<Proposal>
    decreases proposals.len(),
{
    if proposals.len() == 0 {
        Seq::empty()
    } else {
        let earlier = proposals.drop_last();
        marked(earlier, last).push(
            if carries(proposals.last()) {
                proposed_at(proposals.last(), (last + 1 + carried(earlier)) as u64)
            } else {
                proposals.last()
            },
        )
    }
}

/// The calls that put proposals to the group. Nothing is called for one that carries
/// nothing.
pub open spec fn proposal_calls(proposals: Seq<Proposal>) -> Seq<RaftCall>
    decreases proposals.len(),
{
    if proposals.len() == 0 {
        Seq::empty()
    } else {
        let earlier = proposal_calls(proposals.drop_last());
        if carries(proposals.last()) {
            earlier.push(proposal_call(proposals.last()))
        } else {
            earlier
        }
    }
}

/// The proposals that are refused: all of them by a group that does not admit proposals,
/// and always those that carry nothing.
pub open spec fn refused(proposals: Seq<Proposal>, admits: bool) -> Seq<Proposal>
    decreases proposals.len(),
{
    if proposals.len() == 0 {
        Seq::empty()
    } else {
        let earlier = refused(proposals.drop_last(), admits);
        if admits && carries(proposals.last()) {
            earlier
        } else {
            earlier.push(proposals.last())
        }
    }
}

/// The replies that tell proposers that their proposals were refused.
pub open spec fn refusals(proposals: Seq<Proposal>) -> Seq<EffectView> {
    proposals.map_values(
        |p: Proposal| EffectView::Reply { reply_to: p.propose_success, outcome: Err(Refused) },
    )
}

/// Whether a group is open for a configuration change after proposals were appended:
/// none of them was a change, and it was open before.
pub open spec fn open_after(open: bool, proposals: Seq<Proposal>) -> bool
    decreases proposals.len(),
{
    if proposals.len() == 0 {
        open
    } else {
        open_after(open, proposals.drop_last()) && !proposes_change(proposals.last())
    }
}

/// The log holds what the proposals carry, one after the other, after `last`, and
/// otherwise what it held before. Of the configuration changes the first is kept, if the
/// group was open for one, and all others give way to empty entries.
pub open spec fn log_extended(
    before: Map<u64, LogEntryView>,
    after: Map<u64, LogEntryView>,
    last: u64,
    open: bool,
    proposals: Seq<Proposal>,
) -> bool {
    &&& forall|i: int|
        0 <= i < proposals.len() && carries(#[trigger] proposals[i]) ==> entry_of(
            proposals[i],
            open_after(open, proposals.take(i)),
            after[(last + 1 + carried(proposals.take(i))) as u64],
        )
    &&& forall|k: u64|
        !(last < k <= last + carried(proposals)) ==> (before.contains_key(k) <==> #[trigger]
            after.contains_key(k)) && after[k] == before[k]
}

proof fn carried_grows(proposals: Seq<Proposal>, i: int)
    requires
        0 <= i < proposals.len(),
    ensures
        carried(proposals.take(i)) + (if carries(proposals[i]) {
            1nat
        } else {
            0nat
        }) <= carried(proposals),
    decreases proposals.len(),
{
    if i == proposals.len() - 1 {
        assert(proposals.take(i) =~= proposals.drop_last());
    } else {
        carried_grows(proposals.drop_last(), i);
        assert(proposals.drop_last().take(i) =~= proposals.take(i));
    }
}

/// One proposal more that carries something.
proof fn log_extended_push(
    before: Map<u64, LogEntryView>,
    middle: Map<u64, LogEntryView>,
    after: Map<u64, LogEntryView>,
    last: u64,
    open: bool,
    proposals: Seq<Proposal>,
    proposal: Proposal,
)
    requires
        log_extended(before, middle, last, open, proposals),
        if carries(proposal) {
            let index = (last + 1 + carried(proposals)) as u64;
            &&& last + 1 + carried(proposals) <= u64::MAX
            &&& after == middle.insert(index, after[index])
            &&& entry_of(proposal, open_after(open, proposals), after[index])
        } else {
            after == middle
        },
    ensures
        log_extended(before, after, last, open, proposals.push(proposal)),
{
    let longer = proposals.push(proposal);
    assert(longer.drop_last() =~= proposals);
    assert forall|i: int|
        0 <= i < longer.len() && carries(#[trigger] longer[i]) implies entry_of(
        longer[i],
        open_after(open, longer.take(i)),
        after[(last + 1 + carried(longer.take(i))) as u64],
    ) by {
        if i < proposals.len() {
            assert(longer[i] == proposals[i]);
            assert(longer.take(i) =~= proposals.take(i));
            carried_grows(proposals, i);
            let at = (last + 1 + carried(proposals.take(i))) as u64;
            assert(after[at] == middle[at]);
        } else {
            assert(longer.take(i) =~= proposals);
        }
    }
    assert forall|k: u64| !(last < k <= last + carried(longer)) implies (before.contains_key(k)
        <==> #[trigger] after.contains_key(k)) && after[k] == before[k] by {
        assert(middle.contains_key(k) <==> after.contains_key(k));
    }
    assert(log_extended(before, after, last, open, longer));
}

/// What comes of putting the waiting proposals to a group: everything from the
/// first proposal on that has not been proposed is put to it, in order. A leader
/// that admits proposals appends what they carry and marks them with their indices; any
/// other node appends nothing. The proposers of what was not appended learn of that.
pub open spec fn pending_proposed(
    before: RaftGroup,
    after: RaftGroup,
    waiting: Seq<Proposal>,
    left: Seq<Proposal>,
    replies: Seq<EffectView>,
) -> bool {
    let start = proposed_prefix(waiting) as int;
    let put = waiting.skip(start);
    let last = crate::consensus::raft_last_index(before);
    let admits = crate::consensus::raft_admits(before);
    &&& crate::consensus::same_standing(before, after)
    &&& crate::consensus::raft_calls(after) == crate::consensus::raft_calls(before)
        + proposal_calls(put)
    &&& replies == refusals(refused(put, admits))
    &&& if admits {
        &&& crate::consensus::raft_last_index(after) == last + carried(put)
        &&& left == waiting.take(start) + marked(put, last)
        &&& log_extended(
            crate::consensus::raft_log(before),
            crate::consensus::raft_log(after),
            last,
            crate::consensus::raft_conf_open(before),
            put,
        )
    } else {
        &&& crate::consensus::raft_last_index(after) == last
        &&& crate::consensus::raft_log(after) == crate::consensus::raft_log(before)
        &&& left == waiting
    }
}

/// The proposals that have been gone through, as they are left behind.
spec fn gone_through(passed: Seq<Proposal>, put: Seq<Proposal>, last: u64, admits: bool) -> Seq<
    Proposal,
> {
    passed + if admits {
        marked(put, last)
    } else {
        put
    }
}

proof fn marked_stay_wf(proposals: Seq<Proposal>, last: u64)
    requires
        proposals_wf(proposals),
    ensures
        marked(proposals, last).len() == proposals.len(),
        proposals_wf(marked(proposals, last)),
    decreases proposals.len(),
{
    if proposals.len() > 0 {
        marked_stay_wf(proposals.drop_last(), last);
        assert(proposal_wf(proposals[proposals.len() - 1]));
    }
}

/// Puts the proposals to the group that wait for it: those that have been
/// proposed already are skipped, up to the first one that has not, and everything
/// from there on is proposed. Gives back the replies to proposers whose proposals
/// were not appended; those proposals stay where they are.
pub fn propose_pending(group: &mut RaftGroup, proposals: &mut VecDeque<Proposal>) -> (replies: Vec<
    Effect,
>)
    requires
        crate::consensus::raft_live(*old(group)),
        proposals_wf(old(proposals)@),
    ensures
        crate::consensus::raft_live(*final(group)),
        proposals_wf(final(proposals)@),
        pending_proposed(
            *old(group),
            *final(group),
            old(proposals)@,
            final(proposals)@,
            crate::outbox::effects_view(replies@),
        ),
{
    let ghost pending = proposals@;
    let ghost start = proposed_prefix(pending);
    let ghost first = *group;
    let ghost last = crate::consensus::raft_last_index(first);
    let ghost admits = crate::consensus::raft_admits(first);
    let ghost open = crate::consensus::raft_conf_open(first);
    proof {
        prefix_is_proposed(pending);
    }
    let total = proposals.len();
    let mut replies: Vec<Effect> = Vec::new();
    let mut waiting: bool = false;
    let mut k: usize = 0;
    let ghost mut passed = Seq::<Proposal>::empty();
    let ghost mut put = Seq::<Proposal>::empty();
    assert(proposals@ =~= pending.skip(0) + gone_through(passed, put, last, admits));
    assert(crate::consensus::raft_calls(first) =~= crate::consensus::raft_calls(first)
        + proposal_calls(put));
    assert(crate::outbox::effects_view(replies@) =~= refusals(refused(put, admits)));
    while k < total
        invariant
            k <= total,
            total == pending.len(),
            start == proposed_prefix(pending) <= pending.len(),
            forall|i: int| 0 <= i < start ==> (#[trigger] pending[i]).proposed > 0,
            start < pending.len() ==> pending[start as int].proposed == 0,
            waiting == (k > start),
            proposals_wf(pending),
            passed == pending.take(if k > start { start as int } else { k as int }),
            put == pending.subrange(
                start as int,
                if k > start { k as int } else { start as int },
            ),
            proposals@ == pending.skip(k as int) + gone_through(passed, put, last, admits),
            crate::consensus::raft_live(*group),
            crate::consensus::same_standing(first, *group),
            crate::consensus::raft_admits(*group) == admits,
            admits == crate::consensus::raft_admits(first),
            open == crate::consensus::raft_conf_open(first),
            crate::consensus::raft_conf_open(*group) == if admits {
                open_after(open, put)
            } else {
                open
            },
            last == crate::consensus::raft_last_index(first),
            crate::consensus::raft_calls(*group) == crate::consensus::raft_calls(first)
                + proposal_calls(put),
            crate::outbox::effects_view(replies@) == refusals(refused(put, admits)),
            admits ==> crate::consensus::raft_last_index(*group) == last + carried(put),
            admits ==> log_extended(
                crate::consensus::raft_log(first),
                crate::consensus::raft_log(*group),
                last,
                open,
                put,
            ),
            !admits ==> crate::consensus::raft_last_index(*group) == last,
            !admits ==> crate::consensus::raft_log(*group) == crate::consensus::raft_log(first),
        decreases total - k,
    {
        let ghost before = *group;
        let ghost replied = replies@;
        let ghost gone = gone_through(passed, put, last, admits);
        match proposals.pop_front() {
            Some(popped) => {
                let mut proposal = popped;
                assert(proposal == pending[k as int]);
                assert(proposals@ =~= pending.skip(k + 1) + gone);
                if proposal.proposed == 0 {
                    waiting = true;
                }
                if waiting {
                    let ghost more = put.push(proposal);
                    assert(more.drop_last() =~= put);
                    assert(more =~= pending.subrange(start as int, k + 1));
                    if !propose(group, &mut proposal) {
                        replies.push(
                            Effect::Reply {
                                reply_to: proposal.propose_success.clone(),
                                outcome: Err(Refused),
                            },
                        );
                        assert(crate::outbox::effects_view(replies@)
                            =~= crate::outbox::effects_view(replied).push(replies@.last()@));
                        assert(refusals(refused(more, admits)) =~= refusals(
                            refused(put, admits),
                        ).push(replies@.last()@));
                    }
                    proof {
                        if admits {
                            log_extended_push(
                                crate::consensus::raft_log(first),
                                crate::consensus::raft_log(before),
                                crate::consensus::raft_log(*group),
                                last,
                                open,
                                put,
                                more.last(),
                            );
                        }
                    }
                    assert(crate::consensus::raft_calls(*group) =~= crate::consensus::raft_calls(
                        first,
                    ) + proposal_calls(more));
                    assert(gone_through(passed, more, last, admits) =~= gone.push(proposal));
                    proof {
                        put = more;
                    }
                } else {
                    assert(pending.take(k + 1) =~= passed.push(proposal));
                    assert(put =~= Seq::<Proposal>::empty());
                    assert(gone_through(passed.push(proposal), put, last, admits) =~= gone.push(
                        proposal,
                    ));
                    proof {
                        passed = passed.push(proposal);
                    }
                }
                proposals.push_back(proposal);
                assert(proposals@ =~= pending.skip(k + 1) + gone_through(
                    passed,
                    put,
                    last,
                    admits,
                ));
            },
            None => {},
        }
        k = k + 1;
    }
    assert(put =~= pending.skip(start as int));
    assert(passed =~= pending.take(start as int));
    proof {
        assert forall|i: int| 0 <= i < put.len() implies proposal_wf(#[trigger] put[i]) by {
            assert(put[i] == pending[start + i]);
        }
        marked_stay_wf(put, last);
        assert(proposals@ =~= gone_through(passed, put, last, admits));
        assert(passed + put =~= pending);
        assert forall|i: int| 0 <= i < proposals@.len() implies proposal_wf(
            #[trigger] proposals@[i],
        ) by {
            if i < start {
                assert(proposals@[i] == pending[i]);
            } else if admits {
                assert(proposals@[i] == marked(put, last)[i - start]);
            } else {
                assert(proposals@[i] == pending[i]);
            }
        }
    }
    replies
}

} // verus!
