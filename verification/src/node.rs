//! A node of the cluster: its raft group, once it has one, and what one turn of
//! its loop does.

use crate::consensus::{
    decode_peer_message, mem_storage_new, raft_leads, raft_new, raft_step, raft_tick,
    storage_apply_snapshot, PeerMessage, PeerMessageView, RaftCall, RaftGroup, RaftSettings,
    MSG_HEARTBEAT, MSG_REQUEST_PRE_VOTE, MSG_REQUEST_VOTE,
};
use crate::outbox::{Effect, EffectView};
use crate::proposal::{propose_pending, Proposal};
use crate::queue::MQueuePool;
use crate::round::{on_ready, Next, NextView, RoundStatus, Stage};
use std::collections::VecDeque;
use vstd::prelude::*;

verus! {

/// The time between two ticks of the raft group, in milliseconds.
pub const TICK_INTERVAL_MS: u64 = 100;

/// The number of ticks without a leader after which an election starts.
pub const ELECTION_TICK: usize = 10;

/// The number of ticks between two heartbeats of a leader.
pub const HEARTBEAT_TICK: usize = 3;

/// A node of the cluster.
pub struct Node {
    /// The raft group; a follower has none until a peer speaks to it.
    pub raft_group: Option<RaftGroup>,
}

/// A node's group, if it has one, can go on.
pub open spec fn node_wf(node: Node) -> bool {
    node.raft_group matches Some(group) ==> crate::consensus::raft_live(group)
}

/// A node's group, if it has one, can go on, and its log has been stored.
pub open spec fn node_rests(node: Node) -> bool {
    node.raft_group matches Some(group) ==> crate::round::group_rests(group)
}

/// The settings of the node `id`.
pub open spec fn settings_of(id: u64) -> RaftSettings {
    RaftSettings { id, election_tick: ELECTION_TICK, heartbeat_tick: HEARTBEAT_TICK }
}

/// Whether a message can open the raft group of a follower: someone asks for its
/// vote, or a leader that knows nothing of its log yet sends a heartbeat.
pub open spec fn is_initial(message: PeerMessageView) -> bool {
    ||| message.msg_type == MSG_REQUEST_VOTE
    ||| message.msg_type == MSG_REQUEST_PRE_VOTE
    ||| message.msg_type == MSG_HEARTBEAT && message.commit == 0
}

/// A group that a follower with this identity opens, before any call on it.
pub open spec fn fresh_follower(group: RaftGroup, id: u64) -> bool {
    &&& crate::consensus::raft_settings(group) == settings_of(id)
    &&& crate::consensus::raft_calls(group) == Seq::<RaftCall>::empty()
    &&& crate::consensus::raft_live(group)
    &&& !crate::consensus::raft_is_leader(group)
    &&& crate::consensus::raft_voters(group) == Set::<u64>::empty()
    &&& !crate::consensus::raft_member(group)
    &&& !crate::consensus::raft_joint(group)
    &&& crate::consensus::raft_last_index(group) == 0
    &&& crate::consensus::raft_term(group) == 0
    &&& crate::consensus::raft_stored(group)
    &&& takes_greetings(group)
}

/// The group takes every greeting.
pub open spec fn takes_greetings(group: RaftGroup) -> bool {
    forall|bytes: Seq<u8>| #[trigger]
        crate::consensus::peer_message_parsed(bytes) matches Some(m)
            && crate::consensus::is_greeting(m) ==> crate::consensus::raft_takes(group, bytes)
}

/// The plain fields of a message are those that its bytes encode.
pub open spec fn peer_message_wf(message: PeerMessage) -> bool {
    crate::outbox::message_wf(message@)
}

/// The group ignores the message, or the message is harmless, or the group takes it.
pub open spec fn group_takes(group: RaftGroup, message: PeerMessageView) -> bool {
    ||| crate::consensus::is_local_type(message.msg_type)
    ||| crate::consensus::is_harmless(group, message)
    ||| crate::consensus::raft_takes(group, message.bytes)
}

/// What stepping a message into a node does. A node with a group steps the message into
/// it. A node without one opens a group for the node that the message is for, if the
/// message can do that, and steps it into that group; otherwise it drops the message.
pub open spec fn node_stepped(before: Node, after: Node, message: PeerMessageView) -> bool {
    match before.raft_group {
        Some(group) => after.raft_group matches Some(next) && {
            &&& crate::consensus::called(group, next, RaftCall::Step { message: message.bytes })
            &&& crate::consensus::raft_settings(next) == crate::consensus::raft_settings(group)
            &&& crate::consensus::stepped(group, next, message)
        },
        None => if is_initial(message) {
            after.raft_group matches Some(next) && {
                &&& crate::consensus::raft_calls(next) == seq![
                    RaftCall::Step { message: message.bytes },
                ]
                &&& crate::consensus::raft_settings(next) == settings_of(message.to)
                &&& !crate::consensus::raft_is_leader(next)
                &&& crate::consensus::raft_voters(next) == Set::<u64>::empty()
                &&& !crate::consensus::raft_member(next)
                &&& !crate::consensus::raft_joint(next)
                &&& crate::consensus::raft_last_index(next) == 0
                &&& crate::consensus::raft_stored(next)
                &&& crate::consensus::raft_term(next) == if message.msg_type
                    == MSG_REQUEST_PRE_VOTE {
                    0
                } else {
                    message.term
                }
            }
        } else {
            after.raft_group is None
        },
    }
}

/// The message is one that the node can take: its group ignores or takes it, or it
/// opens a group for a node that exists and that group takes it.
pub open spec fn node_takes(node: Node, message: PeerMessage) -> bool {
    &&& peer_message_wf(message)
    &&& match node.raft_group {
        Some(group) => group_takes(group, message@),
        None => is_initial(message@) ==> message.to != 0 && forall|group: RaftGroup|
            fresh_follower(group, message.to) ==> #[trigger] group_takes(group, message@),
    }
}

/// The settings that every node shares; the identity is to be filled in.
pub fn example_config() -> (settings: RaftSettings)
    ensures
        settings == settings_of(0),
{
    RaftSettings { id: 0, election_tick: ELECTION_TICK, heartbeat_tick: HEARTBEAT_TICK }
}

/// Whether a message can open the raft group of a follower.
pub fn is_initial_msg(message: &PeerMessage) -> (initial: bool)
    ensures
        initial == is_initial(message@),
{
    message.msg_type == MSG_REQUEST_VOTE || message.msg_type == MSG_REQUEST_PRE_VOTE || (
    message.msg_type == MSG_HEARTBEAT && message.commit == 0)
}

/// Reads a message that a peer sent.
pub fn read_peer_message(bytes: Vec<u8>) -> (message: Option<PeerMessage>)
    ensures
        match message {
            Some(m) => m.bytes@ == bytes@ && peer_message_wf(m),
            None => crate::consensus::peer_message_parsed(bytes@) is None,
        },
{
    decode_peer_message(bytes)
}

/// Whether the group has to be ticked, so long after the last time.
pub fn tick_due(elapsed_ms: u64) -> (due: bool)
    ensures
        due == (elapsed_ms >= 100),
{
    elapsed_ms >= TICK_INTERVAL_MS
}

impl Node {
    /// A node that starts out as the only voter of its group. Its log starts after
    /// index 1, so that nodes which join later have to take over a snapshot first
    /// and all nodes begin with the same state.
    pub fn create_raft_leader(id: u64) -> (node: Self)
        requires
            id != 0,
        ensures
            node_wf(node),
            node.raft_group matches Some(group) && {
                &&& crate::consensus::raft_settings(group) == settings_of(id)
                &&& crate::consensus::raft_calls(group) == Seq::<RaftCall>::empty()
                &&& !crate::consensus::raft_is_leader(group)
                &&& crate::consensus::raft_voters(group) == set![id]
                &&& crate::consensus::raft_member(group)
                &&& !crate::consensus::raft_joint(group)
                &&& crate::consensus::raft_last_index(group) == 1
                &&& crate::consensus::raft_term(group) == 1
                &&& crate::consensus::raft_stored(group)
                &&& takes_greetings(group)
            },
    {
        let mut settings = example_config();
        settings.id = id;
        let mut store = mem_storage_new();
        let voters: Vec<u64> = vec![id];
        let ghost listed = voters@;
        let _ = storage_apply_snapshot(&mut store, 1, 1, voters);
        proof {
            assert(listed =~= seq![id]);
            assert(listed.to_set() =~= set![id]) by {
                assert(listed[0] == id);
            }
        }
        match raft_new(&settings, store) {
            Ok(group) => Node { raft_group: Some(group) },
            Err(_) => Node { raft_group: None },
        }
    }

    /// A node that waits for a peer to speak to it.
    pub fn create_raft_follower() -> (node: Self)
        ensures
            node_wf(node),
            node.raft_group is None,
    {
        Node { raft_group: None }
    }

    /// Opens the raft group of a follower for the node that the message is for, if
    /// the message can do that.
    pub fn initialize_raft_from_message(&mut self, message: &PeerMessage)
        requires
            is_initial(message@) ==> message.to != 0,
        ensures
            !is_initial(message@) ==> *final(self) == *old(self),
            is_initial(message@) ==> final(self).raft_group is Some && fresh_follower(
                final(self).raft_group->0,
                message.to,
            ),
    {
        if !is_initial_msg(message) {
            return;
        }
        let mut settings = example_config();
        settings.id = message.to;
        let store = mem_storage_new();
        assert(crate::consensus::storage_voters(store).to_set() =~= Set::<u64>::empty());
        self.raft_group = match raft_new(&settings, store) {
            Ok(group) => Some(group),
            Err(_) => None,
        };
    }

    /// Steps a message into the raft group. A node without a group opens it first,
    /// if the message can do that, and drops the message otherwise.
    pub fn step(&mut self, message: PeerMessage)
        requires
            node_wf(*old(self)),
            node_takes(*old(self), message),
        ensures
            node_wf(*final(self)),
            node_stepped(*old(self), *final(self), message@),
    {
        if self.raft_group.is_none() {
            if is_initial_msg(&message) {
                self.initialize_raft_from_message(&message);
            } else {
                return;
            }
        }
        match &mut self.raft_group {
            Some(group) => {
                let ghost before = *group;
                assert(group_takes(before, message@));
                raft_step(group, &message.bytes);
                assert(old(self).raft_group is None ==> crate::consensus::raft_calls(*group)
                    =~= seq![RaftCall::Step { message: message.bytes@ }]);
            },
            None => {},
        }
    }

    /// Whether the node leads its group.
    pub fn leads(&self) -> (leads: bool)
        ensures
            leads == node_leads(*self),
    {
        match &self.raft_group {
            Some(group) => raft_leads(group),
            None => false,
        }
    }

    /// One stage of a turn of the node's loop, after the messages of its peers have been
    /// stepped in: the group is ticked if that is due, then a leader takes up the proposals
    /// that wait, and then the outstanding work is handled, stage by stage. What leaves the
    /// node is given back, in order, and has to be sent before the next stage. A node
    /// without a group does nothing.
    pub fn take_turn(
        &mut self,
        stage: TurnStage,
        proposals: &mut VecDeque<Proposal>,
        mq_pool: &mut MQueuePool,
        peers: &Vec<u64>,
    ) -> (step: TurnStep)
        requires
            turn_wf(*old(self), stage),
            stage is Propose && node_leads(*old(self)) ==> crate::proposal::proposals_wf(
                old(proposals)@,
            ),
            peers@.no_duplicates(),
        ensures
            crate::proposal::proposals_wf(old(proposals)@) ==> crate::proposal::proposals_wf(
                final(proposals)@,
            ),
            step.next matches TurnNext::Continue { stage: next } ==> turn_wf(*final(self), next),
            step.next matches TurnNext::Ended { status } && (status == RoundStatus::Idle || status
                == RoundStatus::Done) ==> node_rests(*final(self)),
            crate::outbox::outgoing_wf(crate::outbox::effects_view(step.effects@)),
            match old(self).raft_group {
                Some(before) => final(self).raft_group matches Some(after) && turn_taken(
                    (before, *old(mq_pool), old(proposals)@),
                    (after, *final(mq_pool), final(proposals)@),
                    peers@,
                    stage,
                    crate::outbox::effects_view(step.effects@),
                    step.ticked,
                    step.next,
                ),
                None => {
                    &&& step.effects@.len() == 0
                    &&& !step.ticked
                    &&& step.next == (TurnNext::Ended { status: RoundStatus::Idle })
                    &&& final(self).raft_group is None
                    &&& *final(mq_pool) == *old(mq_pool)
                    &&& final(proposals)@ == old(proposals)@
                },
            },
            stage == (TurnStage::Tick { due: false }) ==> *final(self) == *old(self),
            stage is Tick ==> step.effects@.len() == 0 && final(proposals)@ == old(proposals)@,
            stage == (TurnStage::Tick { due: true }) && old(self).raft_group is Some
                ==> crate::consensus::raft_calls(final(self).raft_group->0)
                == crate::consensus::raft_calls(old(self).raft_group->0).push(RaftCall::Tick),
    {
        let ghost waiting = proposals@;
        let ghost pool = *mq_pool;
        match &mut self.raft_group {
            None => TurnStep {
                effects: Vec::new(),
                ticked: false,
                next: TurnNext::Ended { status: RoundStatus::Idle },
            },
            Some(group) => {
                let ghost before = *group;
                match stage {
                    TurnStage::Tick { due } => {
                        if due {
                            raft_tick(group);
                        }
                        let effects: Vec<Effect> = Vec::new();
                        assert(crate::outbox::effects_view(effects@) =~= Seq::<
                            EffectView,
                        >::empty());
                        let next = TurnNext::Continue { stage: TurnStage::Propose };
                        TurnStep { effects, ticked: due, next }
                    },
                    TurnStage::Propose => {
                        let mut effects: Vec<Effect> = Vec::new();
                        assert(crate::outbox::effects_view(effects@) =~= Seq::<
                            EffectView,
                        >::empty());
                        if raft_leads(group) {
                            effects = propose_pending(group, proposals);
                        }
                        let next = TurnNext::Continue {
                            stage: TurnStage::Handle { stage: Stage::Begin },
                        };
                        TurnStep { effects, ticked: false, next }
                    },
                    TurnStage::Handle { stage } => {
                        let step = on_ready(group, mq_pool, peers, proposals, stage);
                        proof {
                            crate::round::step_keeps_proposals(
                                (before, pool, waiting),
                                (*group, *mq_pool, proposals@),
                                peers@,
                                stage@,
                                crate::outbox::effects_view(step.effects@),
                                step.next@,
                            );
                        }
                        let next = match step.next {
                            Next::Continue { stage } => TurnNext::Continue {
                                stage: TurnStage::Handle { stage },
                            },
                            Next::Ended { status } => TurnNext::Ended { status },
                        };
                        TurnStep { effects: step.effects, ticked: false, next }
                    },
                }
            },
        }
    }
}

/// How far a turn has come.
pub enum TurnStage {
    /// The group is to be ticked, if that is due.
    Tick { due: bool },
    /// A leader is to take up proposals.
    Propose,
    /// The outstanding work is being handled.
    Handle { stage: Stage },
}

/// What comes after a stage of a turn.
pub enum TurnNext {
    /// The turn goes on, once everything has left that has to.
    Continue { stage: TurnStage },
    /// The turn is over.
    Ended { status: RoundStatus },
}

/// What a stage of a turn leaves behind.
pub struct TurnStep {
    /// What has to leave the node now, in order.
    pub effects: Vec<Effect>,
    /// Whether the group was ticked.
    pub ticked: bool,
    pub next: TurnNext,
}

/// Whether the node leads its group.
pub open spec fn node_leads(node: Node) -> bool {
    node.raft_group matches Some(group) && crate::consensus::raft_is_leader(group)
}

/// The stage is one that the node has reached.
pub open spec fn turn_wf(node: Node, stage: TurnStage) -> bool {
    match stage {
        TurnStage::Handle { stage } => node.raft_group matches Some(group)
            && crate::round::stage_wf(group, stage),
        _ => node_wf(node),
    }
}

/// What comes after a stage of a turn in which work was handled.
pub open spec fn turn_next(next: TurnNext) -> NextView {
    match next {
        TurnNext::Continue { stage: TurnStage::Handle { stage } } => NextView::Continue {
            stage: stage@,
        },
        TurnNext::Ended { status } => NextView::Ended { status },
        _ => arbitrary(),
    }
}

/// What a stage of a turn does with a group, its queues and the proposals that wait.
pub open spec fn turn_taken(
    before: (RaftGroup, MQueuePool, Seq<Proposal>),
    after: (RaftGroup, MQueuePool, Seq<Proposal>),
    peers: Seq<u64>,
    stage: TurnStage,
    effects: Seq<EffectView>,
    ticked: bool,
    next: TurnNext,
) -> bool {
    match stage {
        TurnStage::Tick { due } => {
            &&& ticked == due
            &&& next == (TurnNext::Continue { stage: TurnStage::Propose })
            &&& effects == Seq::<EffectView>::empty()
            &&& after.1 == before.1
            &&& after.2 == before.2
            &&& if due {
                &&& crate::consensus::called(before.0, after.0, RaftCall::Tick)
                &&& crate::consensus::raft_settings(after.0) == crate::consensus::raft_settings(
                    before.0,
                )
                &&& crate::consensus::raft_voters(after.0) == crate::consensus::raft_voters(
                    before.0,
                )
                &&& crate::consensus::raft_member(after.0) == crate::consensus::raft_member(
                    before.0,
                )
                &&& crate::consensus::raft_joint(after.0) == crate::consensus::raft_joint(before.0)
            } else {
                after.0 == before.0
            }
        },
        TurnStage::Propose => {
            &&& !ticked
            &&& next == (TurnNext::Continue {
                stage: TurnStage::Handle { stage: Stage::Begin },
            })
            &&& after.1 == before.1
            &&& if crate::consensus::raft_is_leader(before.0) {
                crate::proposal::pending_proposed(before.0, after.0, before.2, after.2, effects)
            } else {
                &&& after.0 == before.0
                &&& after.2 == before.2
                &&& effects == Seq::<EffectView>::empty()
            }
        },
        TurnStage::Handle { stage } => {
            &&& !ticked
            &&& next matches TurnNext::Continue { stage: following } ==> following is Handle
            &&& crate::round::step_taken(before, after, peers, stage@, effects, turn_next(next))
        },
    }
}

} // verus!
