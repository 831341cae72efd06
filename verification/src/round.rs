//! One round of raft output, in stages: messages leave, a snapshot and entries are
//! stored, committed entries are applied, and the round is given back to raft.
//!
//! Each stage makes its calls on the group and hands out what has to leave the node
//! before the next stage begins.

use crate::command::Fault;
use crate::consensus::{
    light_commit_index, light_take_committed, light_take_messages, raft_advance,
    raft_advance_apply, raft_is_member, raft_leads, raft_ready, raft_store_commit,
    raft_store_entries, raft_store_hard_state, raft_store_snapshot, raft_work_pending,
    ready_carries_entries, ready_carries_snapshot, ready_hard_state, ready_take_committed,
    ready_take_messages, ready_take_persisted_messages, HardState, LightView, RaftCall, RaftGroup,
    ReadyPhase, ReadyView, Standing,
};
use crate::outbox::{handle_messages, Effect, EffectView};
use crate::proposal::Proposal;
use crate::queue::MQueuePool;
use crate::replica::{handle_committed_entries, ReplicaView};
use std::collections::VecDeque;
use vstd::prelude::*;

verus! {

/// How a round ended.
#[derive(Clone, Copy, Debug, PartialEq, Eq, Structural)]
pub enum RoundStatus {
    /// There was nothing to do.
    Idle,
    /// Everything was done.
    Done,
    /// The storage refused a snapshot or entries; the round was not given back.
    Stalled,
    /// The replica cannot go on.
    Failed(Fault),
}

/// How far a round has come.
pub enum Stage {
    /// Nothing has been done yet.
    Begin,
    /// The outstanding work has been taken, and nothing of it has been stored.
    Taken { ready: raft::Ready },
    /// The snapshot has been stored and the committed entries have been applied.
    Applied { ready: raft::Ready },
    /// Entries and hard state have been stored.
    Stored { ready: raft::Ready },
    /// The work has been given back.
    Advanced { light: raft::LightReady },
    /// What became outstanding by that has been applied.
    Settling,
}

/// How far a round has come, as a value.
pub enum StageView {
    Begin,
    Taken { ready: ReadyView },
    Applied { ready: ReadyView },
    Stored { ready: ReadyView },
    Advanced { light: LightView },
    Settling,
}

impl View for Stage {
    type V = StageView;

    open spec fn view(&self) -> StageView {
        match *self {
            Stage::Begin => StageView::Begin,
            Stage::Taken { ready } => StageView::Taken {
                ready: crate::consensus::ready_view(ready),
            },
            Stage::Applied { ready } => StageView::Applied {
                ready: crate::consensus::ready_view(ready),
            },
            Stage::Stored { ready } => StageView::Stored {
                ready: crate::consensus::ready_view(ready),
            },
            Stage::Advanced { light } => StageView::Advanced {
                light: crate::consensus::light_view(light),
            },
            Stage::Settling => StageView::Settling,
        }
    }
}

/// What comes after a stage.
pub enum Next {
    /// The round goes on, once everything has left that has to.
    Continue { stage: Stage },
    /// The round is over.
    Ended { status: RoundStatus },
}

/// What comes after a stage, as a value.
pub enum NextView {
    Continue { stage: StageView },
    Ended { status: RoundStatus },
}

impl View for Next {
    type V = NextView;

    open spec fn view(&self) -> NextView {
        match *self {
            Next::Continue { stage } => NextView::Continue { stage: stage@ },
            Next::Ended { status } => NextView::Ended { status },
        }
    }
}

/// What a stage leaves behind.
pub struct Step {
    /// What has to leave the node now, in order.
    pub effects: Vec<Effect>,
    pub next: Next,
}

/// What only the storage and raft can decide in a round.
pub struct Answers {
    /// The outstanding work, if there is any.
    pub ready: Option<ReadyView>,
    /// Whether the storage takes the snapshot.
    pub snapshot_stored: bool,
    /// Whether the storage takes the entries.
    pub entries_stored: bool,
    /// What raft hands out when the round is given back.
    pub light: LightView,
}

/// What a stage starts from.
pub struct Situation {
    pub replica: ReplicaView,
    pub standing: Standing,
    /// The proposals that wait.
    pub proposals: Seq<Proposal>,
    /// The peers to which there are connections.
    pub peers: Seq<u64>,
}

/// A stage as a value.
pub struct StepView {
    /// The calls that are made on the group.
    pub calls: Seq<RaftCall>,
    /// What leaves the node after that.
    pub effects: Seq<EffectView>,
    pub replica: ReplicaView,
    /// Whether the node is a member of its group.
    pub member: bool,
    /// The number of proposals that are answered.
    pub answered: nat,
    pub next: NextView,
}

/// The calls that store a hard state, where there is a new one.
pub open spec fn hard_state_calls(hard_state: Option<HardState>) -> Seq<RaftCall> {
    match hard_state {
        Some(hard_state) => seq![RaftCall::SetHardState { hard_state }],
        None => Seq::empty(),
    }
}

/// The calls that store a commit index, where there is a new one.
pub open spec fn commit_calls(light: LightView) -> Seq<RaftCall> {
    match light.commit_index {
        Some(commit) => seq![RaftCall::SetCommit { commit }],
        None => Seq::empty(),
    }
}

/// The calls that store a snapshot, where there is one.
pub open spec fn snapshot_calls(ready: ReadyView, stored: bool) -> Seq<RaftCall> {
    if ready.has_snapshot {
        seq![RaftCall::ApplySnapshot { stored }]
    } else {
        Seq::empty()
    }
}

/// A stage that leaves replica and proposals as they are.
pub open spec fn plain_step(
    situation: Situation,
    calls: Seq<RaftCall>,
    effects: Seq<EffectView>,
    next: NextView,
) -> StepView {
    StepView {
        calls,
        effects,
        replica: situation.replica,
        member: situation.standing.member,
        answered: 0,
        next,
    }
}

/// A stage in which committed entries are applied, after some calls.
pub open spec fn applying_step(
    situation: Situation,
    calls: Seq<RaftCall>,
    committed: Seq<crate::consensus::LogEntryView>,
    stage: StageView,
) -> StepView {
    let applied = crate::replica::apply_all(
        situation.replica,
        committed,
        situation.standing,
        situation.proposals.len(),
    );
    StepView {
        calls: calls + applied.calls,
        effects: crate::replica::replies_to(situation.proposals, applied.replies),
        replica: applied.replica,
        member: applied.member,
        answered: applied.replies.len(),
        next: match applied.fault {
            Some(fault) => NextView::Ended { status: RoundStatus::Failed(fault) },
            None => NextView::Continue { stage },
        },
    }
}

/// What each stage does, for each way in which storage and raft can answer.
pub open spec fn step_of(stage: StageView, situation: Situation, answers: Answers) -> StepView {
    match stage {
        StageView::Begin => match answers.ready {
            None => plain_step(
                situation,
                Seq::empty(),
                Seq::empty(),
                NextView::Ended { status: RoundStatus::Idle },
            ),
            Some(ready) => plain_step(
                situation,
                seq![RaftCall::Ready { ready }],
                crate::outbox::batches(ready.messages, situation.peers),
                NextView::Continue {
                    stage: StageView::Taken {
                        ready: ReadyView { messages: Seq::empty(), ..ready },
                    },
                },
            ),
        },
        StageView::Taken { ready } => {
            let calls = snapshot_calls(ready, answers.snapshot_stored);
            if ready.has_snapshot && !answers.snapshot_stored {
                plain_step(
                    situation,
                    calls,
                    Seq::empty(),
                    NextView::Ended { status: RoundStatus::Stalled },
                )
            } else {
                applying_step(
                    situation,
                    calls,
                    ready.committed,
                    StageView::Applied { ready: ReadyView { committed: Seq::empty(), ..ready } },
                )
            }
        },
        StageView::Applied { ready } => {
            let stored = answers.entries_stored;
            let append = seq![RaftCall::Append { entries: ready.entries, stored }];
            if !stored {
                plain_step(
                    situation,
                    append,
                    Seq::empty(),
                    NextView::Ended { status: RoundStatus::Stalled },
                )
            } else {
                plain_step(
                    situation,
                    append + hard_state_calls(ready.hard_state),
                    crate::outbox::batches(ready.persisted_messages, situation.peers),
                    if crate::consensus::can_give_back(situation.standing, ready) {
                        NextView::Continue {
                            stage: StageView::Stored {
                                ready: ReadyView { persisted_messages: Seq::empty(), ..ready },
                            },
                        }
                    } else {
                        NextView::Ended { status: RoundStatus::Failed(Fault::LeaderRemoved) }
                    },
                )
            }
        },
        StageView::Stored { ready } => {
            let light = answers.light;
            plain_step(
                situation,
                seq![RaftCall::Advance { light }] + commit_calls(light),
                crate::outbox::batches(light.messages, situation.peers),
                NextView::Continue {
                    stage: StageView::Advanced {
                        light: LightView { messages: Seq::empty(), ..light },
                    },
                },
            )
        },
        StageView::Advanced { light } => applying_step(
            situation,
            Seq::empty(),
            light.committed,
            StageView::Settling,
        ),
        StageView::Settling => plain_step(
            situation,
            seq![RaftCall::AdvanceApply],
            Seq::empty(),
            NextView::Ended { status: RoundStatus::Done },
        ),
    }
}

/// The stage is one that the group has reached.
pub open spec fn stage_wf(group: RaftGroup, stage: Stage) -> bool {
    match stage {
        Stage::Begin => crate::consensus::raft_live(group),
        Stage::Taken { ready } => {
            &&& crate::consensus::raft_sound(group)
            &&& crate::consensus::ready_phase(group, ready) == ReadyPhase::Taken
        },
        Stage::Applied { ready } => {
            &&& crate::consensus::raft_sound(group)
            &&& crate::consensus::ready_phase(group, ready) == if crate::consensus::ready_view(
                ready,
            ).has_snapshot {
                ReadyPhase::Restored
            } else {
                ReadyPhase::Taken
            }
        },
        Stage::Stored { ready } => {
            &&& crate::consensus::raft_sound(group)
            &&& crate::consensus::ready_phase(group, ready) == ReadyPhase::Persisted
            &&& crate::consensus::can_give_back(
                crate::consensus::standing(group),
                crate::consensus::ready_view(ready),
            )
        },
        Stage::Advanced { light } => group_rests(group),
        Stage::Settling => group_rests(group),
    }
}

/// The group can go on, and everything in its log has been stored. In the middle of a
/// joint change there may be an entry that ends it.
pub open spec fn group_rests(group: RaftGroup) -> bool {
    &&& crate::consensus::raft_live(group)
    &&& crate::consensus::raft_joint(group) || crate::consensus::raft_stored(group)
}

/// What a stage starts from.
pub open spec fn situation_of(
    state: (RaftGroup, MQueuePool, Seq<Proposal>),
    peers: Seq<u64>,
) -> Situation {
    Situation {
        replica: crate::replica::replica_view(state.0, state.1),
        standing: crate::consensus::standing(state.0),
        proposals: state.2,
        peers,
    }
}

/// The outstanding work of a group, if there is any.
pub open spec fn outstanding(group: RaftGroup) -> Option<ReadyView> {
    if crate::consensus::raft_has_ready(group) {
        Some(crate::consensus::raft_pending(group))
    } else {
        None
    }
}

/// The stage did what the answers lead to.
pub open spec fn step_answered(
    before: (RaftGroup, MQueuePool, Seq<Proposal>),
    after: (RaftGroup, MQueuePool, Seq<Proposal>),
    peers: Seq<u64>,
    stage: StageView,
    effects: Seq<EffectView>,
    next: NextView,
    answers: Answers,
) -> bool {
    let expected = step_of(stage, situation_of(before, peers), answers);
    &&& answers.ready == outstanding(before.0)
    &&& effects == expected.effects
    &&& next == expected.next
    &&& crate::consensus::raft_calls(after.0) == crate::consensus::raft_calls(before.0)
        + expected.calls
    &&& crate::replica::replica_view(after.0, after.1) == expected.replica
    &&& crate::consensus::raft_member(after.0) == expected.member
    &&& expected.answered <= before.2.len()
    &&& after.2 == before.2.skip(expected.answered as int)
}

/// What a stage does with a group, its queues and the proposals that wait.
pub open spec fn step_taken(
    before: (RaftGroup, MQueuePool, Seq<Proposal>),
    after: (RaftGroup, MQueuePool, Seq<Proposal>),
    peers: Seq<u64>,
    stage: StageView,
    effects: Seq<EffectView>,
    next: NextView,
) -> bool {
    &&& crate::consensus::raft_settings(after.0) == crate::consensus::raft_settings(before.0)
    &&& crate::consensus::raft_is_leader(after.0) == crate::consensus::raft_is_leader(before.0)
    &&& next == (NextView::Ended { status: RoundStatus::Idle }) ==> after == before
    &&& exists|answers: Answers| #[trigger]
        step_answered(before, after, peers, stage, effects, next, answers)
}

/// A stage answers the proposals that wait the longest, and the others keep
/// waiting: what is left is what was there, without some at the front. A node that does
/// not lead answers none.
pub proof fn step_keeps_proposals(
    before: (RaftGroup, MQueuePool, Seq<Proposal>),
    after: (RaftGroup, MQueuePool, Seq<Proposal>),
    peers: Seq<u64>,
    stage: StageView,
    effects: Seq<EffectView>,
    next: NextView,
)
    requires
        step_taken(before, after, peers, stage, effects, next),
    ensures
        after.2.len() <= before.2.len(),
        after.2 == before.2.skip(before.2.len() - after.2.len()),
        !crate::consensus::raft_is_leader(before.0) ==> after.2 == before.2,
{
    let answers = choose|answers: Answers| #[trigger]
        step_answered(before, after, peers, stage, effects, next, answers);
    let situation = situation_of(before, peers);
    match stage {
        StageView::Taken { ready } => {
            crate::replica::replies_are_bounded(
                situation.replica,
                ready.committed,
                situation.standing,
                before.2.len(),
            );
        },
        StageView::Advanced { light } => {
            crate::replica::replies_are_bounded(
                situation.replica,
                light.committed,
                situation.standing,
                before.2.len(),
            );
        },
        _ => {},
    }
    assert(before.2.skip(0) =~= before.2);
}

/// Something that happens in a round.
pub enum Event {
    /// A call is made on the group.
    Call { call: RaftCall },
    /// Something leaves the node.
    Leave { effect: EffectView },
}

/// Calls, one after the other.
pub open spec fn calling(calls: Seq<RaftCall>) -> Seq<Event> {
    calls.map_values(|call: RaftCall| Event::Call { call })
}

/// Departures, one after the other.
pub open spec fn leaving(effects: Seq<EffectView>) -> Seq<Event> {
    effects.map_values(|effect: EffectView| Event::Leave { effect })
}

/// What happens in a stage: the calls, then the departures.
pub open spec fn stage_events(calls: Seq<RaftCall>, effects: Seq<EffectView>) -> Seq<Event> {
    calling(calls) + leaving(effects)
}

/// A round as a value.
pub struct RoundView {
    /// What happens, stage by stage.
    pub events: Seq<Event>,
    pub replica: ReplicaView,
    pub member: bool,
    /// The number of proposals that are answered.
    pub answered: nat,
    pub status: RoundStatus,
}

/// What the next stage starts from, if nobody else touches the proposals.
pub open spec fn situation_after(situation: Situation, step: StepView) -> Situation {
    Situation {
        replica: step.replica,
        standing: Standing { member: step.member, ..situation.standing },
        proposals: situation.proposals.skip(step.answered as int),
        peers: situation.peers,
    }
}

/// The number of stages that are still to come at most.
pub open spec fn stages_left(stage: StageView) -> nat {
    match stage {
        StageView::Begin => 5,
        StageView::Taken { ready } => 4,
        StageView::Applied { ready } => 3,
        StageView::Stored { ready } => 2,
        StageView::Advanced { light } => 1,
        StageView::Settling => 0,
    }
}

/// The stages of a round from one on, each followed by the next.
pub open spec fn round_from(stage: StageView, situation: Situation, answers: Answers) -> RoundView
    decreases stages_left(stage),
{
    let step = step_of(stage, situation, answers);
    let events = stage_events(step.calls, step.effects);
    match step.next {
        NextView::Ended { status } => RoundView {
            events,
            replica: step.replica,
            member: step.member,
            answered: step.answered,
            status,
        },
        NextView::Continue { stage: next } => {
            if stages_left(next) < stages_left(stage) {
                let rest = round_from(next, situation_after(situation, step), answers);
                RoundView {
                    events: events + rest.events,
                    answered: step.answered + rest.answered,
                    ..rest
                }
            } else {
                arbitrary()
            }
        },
    }
}

/// Takes the outstanding work of the group, if there is any, and hands out the
/// messages that need not wait.
fn begin_round(group: &mut RaftGroup, peers: &Vec<u64>) -> (step: Step)
    requires
        crate::consensus::raft_live(*old(group)),
        peers@.no_duplicates(),
    ensures
        crate::outbox::outgoing_wf(crate::outbox::effects_view(step.effects@)),
        match outstanding(*old(group)) {
            None => {
                &&& *final(group) == *old(group)
                &&& group_rests(*final(group))
                &&& step.effects@.len() == 0
                &&& step.next@ == (NextView::Ended { status: RoundStatus::Idle })
            },
            Some(ready) => {
                &&& crate::consensus::same_standing(*old(group), *final(group))
                &&& crate::consensus::called(
                    *old(group),
                    *final(group),
                    RaftCall::Ready { ready },
                )
                &&& crate::outbox::effects_view(step.effects@) == crate::outbox::batches(
                    ready.messages,
                    peers@,
                )
                &&& step.next matches Next::Continue { stage } && stage@ == (StageView::Taken {
                    ready: ReadyView { messages: Seq::empty(), ..ready },
                }) && stage_wf(*final(group), stage)
            },
        },
{
    if !raft_work_pending(group) {
        return Step { effects: Vec::new(), next: Next::Ended { status: RoundStatus::Idle } };
    }
    let mut ready = raft_ready(group);
    let messages = ready_take_messages(&mut ready);
    let effects = handle_messages(messages, peers);
    proof {
        crate::outbox::batches_stay_wf(
            crate::consensus::peer_messages_view(messages@),
            peers@,
        );
    }
    Step { effects, next: Next::Continue { stage: Stage::Taken { ready } } }
}

/// Stores the snapshot, if there is one. The result says whether the storage took it.
fn store_snapshot(group: &mut RaftGroup, ready: &raft::Ready) -> (stored: bool)
    requires
        crate::consensus::raft_sound(*old(group)),
        crate::consensus::ready_phase(*old(group), *ready) == ReadyPhase::Taken,
    ensures
        crate::consensus::same_standing(*old(group), *final(group)),
        crate::consensus::raft_calls(*final(group)) == crate::consensus::raft_calls(*old(group))
            + snapshot_calls(crate::consensus::ready_view(*ready), stored),
        !crate::consensus::ready_view(*ready).has_snapshot ==> stored,
        stored ==> stage_wf(*final(group), Stage::Applied { ready: *ready }),
{
    let ghost calls = crate::consensus::raft_calls(*group);
    let mut stored: bool = true;
    if ready_carries_snapshot(ready) {
        match raft_store_snapshot(group, ready) {
            Ok(_) => {},
            Err(_) => {
                stored = false;
            },
        }
    }
    assert(crate::consensus::raft_calls(*group) =~= calls + snapshot_calls(
        crate::consensus::ready_view(*ready),
        stored,
    ));
    stored
}

/// Stores the entries and the hard state, and hands out the messages that had to wait
/// for that. The result says whether the storage took the entries.
fn store_entries(group: &mut RaftGroup, ready: &mut raft::Ready, peers: &Vec<u64>) -> (result: (
    bool,
    Vec<Effect>,
))
    requires
        stage_wf(*old(group), (Stage::Applied { ready: *old(ready) })),
        peers@.no_duplicates(),
    ensures
        crate::consensus::same_standing(*old(group), *final(group)),
        crate::outbox::outgoing_wf(crate::outbox::effects_view(result.1@)),
        ({
            let view = crate::consensus::ready_view(*old(ready));
            let append = seq![RaftCall::Append { entries: view.entries, stored: result.0 }];
            if result.0 {
                &&& crate::consensus::raft_calls(*final(group)) == crate::consensus::raft_calls(
                    *old(group),
                ) + (append + hard_state_calls(view.hard_state))
                &&& crate::outbox::effects_view(result.1@) == crate::outbox::batches(
                    view.persisted_messages,
                    peers@,
                )
                &&& crate::consensus::ready_view(*final(ready)) == (ReadyView {
                    persisted_messages: Seq::empty(),
                    ..view
                })
                &&& crate::consensus::raft_sound(*final(group))
                &&& crate::consensus::ready_phase(*final(group), *final(ready))
                    == ReadyPhase::Persisted
            } else {
                &&& crate::consensus::raft_calls(*final(group)) == crate::consensus::raft_calls(
                    *old(group),
                ) + append
                &&& result.1@.len() == 0
            }
        }),
        ({
            let view = crate::consensus::ready_view(*old(ready));
            let before = crate::consensus::raft_calls(*old(group));
            let after = crate::consensus::raft_calls(*final(group));
            let append = RaftCall::Append { entries: view.entries, stored: result.0 };
            match view.hard_state {
                Some(hard_state) if result.0 => after == before.push(append).push(
                    RaftCall::SetHardState { hard_state },
                ),
                _ => after == before.push(append),
            }
        }),
{
    let ghost calls = crate::consensus::raft_calls(*group);
    let ghost view = crate::consensus::ready_view(*ready);
    match raft_store_entries(group, ready) {
        Ok(_) => {},
        Err(_) => {
            assert(crate::consensus::raft_calls(*group) =~= calls + seq![
                RaftCall::Append { entries: view.entries, stored: false },
            ]);
            return (false, Vec::new());
        },
    }
    if ready_hard_state(ready).is_some() {
        raft_store_hard_state(group, ready);
    }
    assert(crate::consensus::raft_calls(*group) =~= calls + (seq![
        RaftCall::Append { entries: view.entries, stored: true },
    ] + hard_state_calls(view.hard_state)));
    let messages = ready_take_persisted_messages(ready);
    proof {
        crate::outbox::batches_stay_wf(
            crate::consensus::peer_messages_view(messages@),
            peers@,
        );
    }
    (true, handle_messages(messages, peers))
}

/// Gives the work back, stores the new commit index and hands out the messages that
/// became outstanding by that.
fn give_back(group: &mut RaftGroup, ready: raft::Ready, peers: &Vec<u64>) -> (result: (
    raft::LightReady,
    Vec<Effect>,
    Ghost<LightView>,
))
    requires
        stage_wf(*old(group), (Stage::Stored { ready })),
        peers@.no_duplicates(),
    ensures
        crate::consensus::same_standing(*old(group), *final(group)),
        group_rests(*final(group)),
        crate::outbox::outgoing_wf(crate::outbox::effects_view(result.1@)),
        crate::consensus::raft_calls(*final(group)) == crate::consensus::raft_calls(*old(group))
            + (seq![RaftCall::Advance { light: result.2@ }] + commit_calls(result.2@)),
        crate::outbox::effects_view(result.1@) == crate::outbox::batches(
            result.2@.messages,
            peers@,
        ),
        crate::consensus::light_view(result.0) == (LightView {
            messages: Seq::empty(),
            ..result.2@
        }),
{
    let ghost calls = crate::consensus::raft_calls(*group);
    let mut light = raft_advance(group, ready);
    let ghost handed = crate::consensus::light_view(light);
    match light_commit_index(&light) {
        Some(commit) => {
            raft_store_commit(group, commit);
        },
        None => {},
    }
    assert(crate::consensus::raft_calls(*group) =~= calls + (seq![
        RaftCall::Advance { light: handed },
    ] + commit_calls(handed)));
    let messages = light_take_messages(&mut light);
    proof {
        crate::outbox::batches_stay_wf(
            crate::consensus::peer_messages_view(messages@),
            peers@,
        );
    }
    let effects = handle_messages(messages, peers);
    (light, effects, Ghost(handed))
}

/// Handles one stage of a round. What leaves the node is given back, in order, and has to
/// be sent before the next stage.
///
/// The peers are the keys of the map from peers to connections. A round that is `Idle`
/// or `Done` leaves the group ready for the next one; of a group whose round ended
/// otherwise nothing is promised.
pub fn on_ready(
    group: &mut RaftGroup,
    mq_pool: &mut MQueuePool,
    peers: &Vec<u64>,
    proposals: &mut VecDeque<Proposal>,
    stage: Stage,
) -> (step: Step)
    requires
        stage_wf(*old(group), stage),
        peers@.no_duplicates(),
    ensures
        step_taken(
            (*old(group), *old(mq_pool), old(proposals)@),
            (*final(group), *final(mq_pool), final(proposals)@),
            peers@,
            stage@,
            crate::outbox::effects_view(step.effects@),
            step.next@,
        ),
        crate::outbox::outgoing_wf(crate::outbox::effects_view(step.effects@)),
        step.next matches Next::Continue { stage: next } ==> stage_wf(*final(group), next),
        step.next matches Next::Ended { status } && (status == RoundStatus::Idle || status
            == RoundStatus::Done) ==> group_rests(*final(group)),
{
    let ghost before = (*group, *mq_pool, proposals@);
    let ghost calls = crate::consensus::raft_calls(*group);
    let ghost answers = Answers {
        ready: outstanding(*group),
        snapshot_stored: true,
        entries_stored: true,
        light: LightView {
            commit_index: None,
            messages: Seq::empty(),
            committed: Seq::empty(),
        },
    };
    let ghost situation = situation_of(before, peers@);
    let ghost at = stage@;
    assert(proposals@ =~= proposals@.skip(0));
    match stage {
        Stage::Begin => {
            let step = begin_round(group, peers);
            proof {
                let expected = step_of(at, situation, answers);
                assert(crate::consensus::raft_calls(*group) =~= calls + expected.calls);
                assert(crate::outbox::effects_view(step.effects@) =~= expected.effects);
                assert(step_answered(
                    before,
                    (*group, *mq_pool, proposals@),
                    peers@,
                    at,
                    crate::outbox::effects_view(step.effects@),
                    step.next@,
                    answers,
                ));
            }
            step
        },
        Stage::Taken { ready } => {
            let mut ready = ready;
            let ghost view = crate::consensus::ready_view(ready);
            let stored = store_snapshot(group, &ready);
            let ghost answers = Answers { snapshot_stored: stored, ..answers };
            let ghost expected = step_of(at, situation, answers);
            let mut effects: Vec<Effect> = Vec::new();
            assert(crate::outbox::effects_view(effects@) =~= Seq::<EffectView>::empty());
            if !stored {
                let next = Next::Ended { status: RoundStatus::Stalled };
                assert(step_answered(
                    before,
                    (*group, *mq_pool, proposals@),
                    peers@,
                    at,
                    crate::outbox::effects_view(effects@),
                    next@,
                    answers,
                ));
                return Step { effects, next };
            }
            let committed = ready_take_committed(&mut ready);
            proof {
                crate::replica::replies_are_bounded(
                    situation.replica,
                    view.committed,
                    situation.standing,
                    situation.proposals.len(),
                );
            }
            let fault = handle_committed_entries(group, mq_pool, proposals, committed, &mut effects);
            assert(crate::consensus::raft_calls(*group) =~= calls + expected.calls);
            assert(crate::outbox::effects_view(effects@) =~= expected.effects);
            let next = match fault {
                Some(fault) => Next::Ended { status: RoundStatus::Failed(fault) },
                None => Next::Continue { stage: Stage::Applied { ready } },
            };
            assert(step_answered(
                before,
                (*group, *mq_pool, proposals@),
                peers@,
                at,
                crate::outbox::effects_view(effects@),
                next@,
                answers,
            ));
            Step { effects, next }
        },
        Stage::Applied { ready } => {
            let mut ready = ready;
            let (stored, effects) = store_entries(group, &mut ready, peers);
            let ghost answers = Answers { entries_stored: stored, ..answers };
            let next = if !stored {
                Next::Ended { status: RoundStatus::Stalled }
            } else if raft_leads(group) && !raft_is_member(group) && ready_carries_entries(&ready) {
                Next::Ended { status: RoundStatus::Failed(Fault::LeaderRemoved) }
            } else {
                Next::Continue { stage: Stage::Stored { ready } }
            };
            proof {
                let expected = step_of(at, situation, answers);
                assert(crate::outbox::effects_view(effects@) =~= expected.effects);
                assert(step_answered(
                    before,
                    (*group, *mq_pool, proposals@),
                    peers@,
                    at,
                    crate::outbox::effects_view(effects@),
                    next@,
                    answers,
                ));
            }
            Step { effects, next }
        },
        Stage::Stored { ready } => {
            let (light, effects, Ghost(handed)) = give_back(group, ready, peers);
            let ghost answers = Answers { light: handed, ..answers };
            let next = Next::Continue { stage: Stage::Advanced { light } };
            assert(step_answered(
                before,
                (*group, *mq_pool, proposals@),
                peers@,
                at,
                crate::outbox::effects_view(effects@),
                next@,
                answers,
            ));
            Step { effects, next }
        },
        Stage::Advanced { light } => {
            let mut light = light;
            let ghost view = crate::consensus::light_view(light);
            let ghost expected = step_of(at, situation, answers);
            let mut effects: Vec<Effect> = Vec::new();
            let committed = light_take_committed(&mut light);
            proof {
                crate::replica::replies_are_bounded(
                    situation.replica,
                    view.committed,
                    situation.standing,
                    situation.proposals.len(),
                );
            }
            let fault = handle_committed_entries(group, mq_pool, proposals, committed, &mut effects);
            assert(crate::consensus::raft_calls(*group) =~= calls + expected.calls);
            assert(crate::outbox::effects_view(effects@) =~= expected.effects);
            let next = match fault {
                Some(fault) => Next::Ended { status: RoundStatus::Failed(fault) },
                None => Next::Continue { stage: Stage::Settling },
            };
            assert(step_answered(
                before,
                (*group, *mq_pool, proposals@),
                peers@,
                at,
                crate::outbox::effects_view(effects@),
                next@,
                answers,
            ));
            Step { effects, next }
        },
        Stage::Settling => {
            raft_advance_apply(group);
            let effects: Vec<Effect> = Vec::new();
            let next = Next::Ended { status: RoundStatus::Done };
            proof {
                let expected = step_of(at, situation, answers);
                assert(crate::consensus::raft_calls(*group) =~= calls + expected.calls);
                assert(crate::outbox::effects_view(effects@) =~= expected.effects);
                assert(step_answered(
                    before,
                    (*group, *mq_pool, proposals@),
                    peers@,
                    at,
                    crate::outbox::effects_view(effects@),
                    next@,
                    answers,
                ));
            }
            Step { effects, next }
        },
    }
}

} // verus!
