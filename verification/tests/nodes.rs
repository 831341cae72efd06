//! Nodes that run on the real raft crate: alone and as a cluster.

use raft_broker::channel::{Outcome, Refused};
use raft_broker::cluster::Enrollment;
use raft_broker::command::Fault;
use raft_broker::consensus::{
    ConfChange, ConfChangeType, LogEntry, PeerMessage, ENTRY_CONF_CHANGE, ENTRY_NORMAL,
};
use raft_broker::message::{Header, Message, MessageType};
use raft_broker::node::{
    example_config, is_initial_msg, read_peer_message, tick_due, Node, TurnNext, TurnStage,
};
use raft_broker::outbox::{handle_messages, Effect};
use raft_broker::proposal::{propose, Proposal};
use raft_broker::queue::MQueuePool;
use raft_broker::replica::handle_committed_entries;
use raft_broker::round::{on_ready, Next, RoundStatus, Stage};
use std::collections::VecDeque;
use std::sync::mpsc::{Receiver, TryRecvError, TrySendError};

fn command(msg_type: MessageType, saddr: u32, daddr: u32, id: u32) -> Message {
    Message {
        header: Header { msg_type, saddr, daddr, id },
        payload: b"content".to_vec(),
    }
}

fn addition(node_id: u64) -> ConfChange {
    ConfChange { id: 0, change_type: ConfChangeType::AddNode, node_id, context: vec![] }
}

fn peer_message(msg_type: raft::eraftpb::MessageType, to: u64, commit: u64) -> PeerMessage {
    let mut message = raft::eraftpb::Message::default();
    message.set_msg_type(msg_type);
    message.set_to(to);
    message.set_from(1);
    message.set_term(5);
    message.set_commit(commit);
    read_peer_message(protobuf::Message::write_to_bytes(&message).unwrap()).unwrap()
}

/// A whole turn: everything that left the node, and how it ended.
struct Turn {
    effects: Vec<Effect>,
    ticked: bool,
    status: RoundStatus,
}

/// One broker with its node, its queues and the proposals that wait.
struct Broker {
    node: Node,
    pool: MQueuePool,
    proposals: VecDeque<Proposal>,
    peers: Vec<u64>,
}

impl Broker {
    fn leader(peers: Vec<u64>) -> Self {
        Broker {
            node: Node::create_raft_leader(1),
            pool: MQueuePool::new(),
            proposals: VecDeque::new(),
            peers,
        }
    }

    fn follower(peers: Vec<u64>) -> Self {
        Broker { node: Node::create_raft_follower(), ..Broker::leader(peers) }
    }

    fn turn(&mut self, tick: bool) -> Turn {
        let mut stage = TurnStage::Tick { due: tick };
        let mut effects = vec![];
        let mut ticked = false;
        loop {
            let step =
                self.node.take_turn(stage, &mut self.proposals, &mut self.pool, &self.peers);
            effects.extend(step.effects);
            ticked = ticked || step.ticked;
            match step.next {
                TurnNext::Continue { stage: next } => stage = next,
                TurnNext::Ended { status } => return Turn { effects, ticked, status },
            }
        }
    }

    fn propose(&mut self, message: Message) -> Receiver<Outcome> {
        let (proposal, outcome) = Proposal::normal(message);
        self.proposals.push_back(proposal);
        outcome
    }

    /// Takes turns alone until nothing is left to do.
    fn settle(&mut self) {
        for _ in 0..40 {
            let turn = self.turn(true);
            assert!(turn.ticked);
            for effect in turn.effects {
                if let Effect::Reply { reply_to, outcome } = effect {
                    reply_to.send(outcome).unwrap();
                }
            }
            assert!(matches!(turn.status, RoundStatus::Idle | RoundStatus::Done));
        }
    }
}

/// Runs brokers together: every one takes a turn, and what they send arrives.
fn run(brokers: &mut Vec<Broker>, turns: usize) {
    for _ in 0..turns {
        let mut sent = vec![];
        for broker in brokers.iter_mut() {
            let turn = broker.turn(true);
            assert!(matches!(turn.status, RoundStatus::Idle | RoundStatus::Done));
            for effect in turn.effects {
                match effect {
                    Effect::Send { to, messages } => sent.push((to, messages)),
                    Effect::Reply { reply_to, outcome } => reply_to.send(outcome).unwrap(),
                }
            }
        }
        for (to, messages) in sent {
            for message in messages {
                assert_eq!(message.to, to);
                let arrived = read_peer_message(message.bytes).unwrap();
                brokers[to as usize - 1].node.step(arrived);
            }
        }
    }
}

fn cluster() -> Vec<Broker> {
    let mut brokers = vec![
        Broker::leader(vec![2, 3]),
        Broker::follower(vec![1, 3]),
        Broker::follower(vec![1, 2]),
    ];
    let mut enrollment = Enrollment::new(3);
    while let Some(outcome) = enrollment.propose_next(&mut brokers[0].proposals) {
        run(&mut brokers, 60);
        assert!(!enrollment.on_reply(&outcome.try_recv().unwrap()));
    }
    brokers
}

#[test]
fn every_node_shares_the_settings() {
    let settings = example_config();
    assert_eq!(settings.id, 0);
    assert_eq!(settings.election_tick, 10);
    assert_eq!(settings.heartbeat_tick, 3);
}

#[test]
fn ticks_are_due_every_tenth_of_a_second() {
    assert!(!tick_due(99));
    assert!(tick_due(100));
    assert!(tick_due(101));
}

#[test]
fn some_messages_open_a_group() {
    assert!(is_initial_msg(&peer_message(raft::eraftpb::MessageType::MsgRequestVote, 2, 9)));
    assert!(is_initial_msg(&peer_message(raft::eraftpb::MessageType::MsgRequestPreVote, 2, 9)));
    assert!(is_initial_msg(&peer_message(raft::eraftpb::MessageType::MsgHeartbeat, 2, 0)));
    assert!(!is_initial_msg(&peer_message(raft::eraftpb::MessageType::MsgHeartbeat, 2, 9)));
    assert!(!is_initial_msg(&peer_message(raft::eraftpb::MessageType::MsgAppend, 2, 0)));
}

#[test]
fn messages_are_read_from_bytes() {
    let message = peer_message(raft::eraftpb::MessageType::MsgHeartbeat, 3, 7);
    assert_eq!(message.to, 3);
    assert_eq!(message.msg_type, 8);
    assert_eq!(message.term, 5);
    assert_eq!(message.commit, 7);
    assert!(read_peer_message(vec![0xff]).is_none());
    assert_eq!(read_peer_message(vec![]).unwrap().msg_type, 0);
}

#[test]
fn a_follower_waits_for_a_peer() {
    let mut broker = Broker::follower(vec![1]);
    let waiting = broker.propose(command(MessageType::SendReq, 1, 100, 1));
    let turn = broker.turn(true);
    assert_eq!(turn.status, RoundStatus::Idle);
    assert!(!turn.ticked);
    assert!(turn.effects.is_empty());
    assert_eq!(broker.proposals.len(), 1);
    assert!(matches!(waiting.try_recv(), Err(TryRecvError::Empty)));
}

#[test]
fn a_follower_drops_what_cannot_open_its_group() {
    let mut broker = Broker::follower(vec![1]);
    broker.node.step(peer_message(raft::eraftpb::MessageType::MsgAppend, 2, 0));
    assert!(broker.node.raft_group.is_none());
    let refused = peer_message(raft::eraftpb::MessageType::MsgAppend, 2, 0);
    broker.node.initialize_raft_from_message(&refused);
    assert!(broker.node.raft_group.is_none());
}

#[test]
fn a_heartbeat_opens_the_group_of_a_follower() {
    let mut broker = Broker::follower(vec![1]);
    broker.node.step(peer_message(raft::eraftpb::MessageType::MsgHeartbeat, 2, 0));
    assert!(broker.node.raft_group.is_some());
    let turn = broker.turn(false);
    assert_eq!(turn.status, RoundStatus::Done);
    assert!(!turn.ticked);
    assert_eq!(turn.effects.len(), 1);
    match &turn.effects[0] {
        Effect::Send { to, messages } => {
            assert_eq!(*to, 1);
            assert_eq!(messages.len(), 1);
            assert_eq!(messages[0].msg_type, 9);
        }
        _ => panic!("a heartbeat is answered"),
    }
}

#[test]
fn a_vote_request_opens_the_group_of_a_follower() {
    let mut broker = Broker::follower(vec![1]);
    broker.node.step(peer_message(raft::eraftpb::MessageType::MsgRequestVote, 2, 0));
    let turn = broker.turn(false);
    match &turn.effects[0] {
        Effect::Send { to, messages } => {
            assert_eq!(*to, 1);
            assert_eq!(messages[0].msg_type, 6);
        }
        _ => panic!("a vote request is answered"),
    }
}

#[test]
fn a_preliminary_vote_request_opens_the_group_of_a_follower() {
    let mut broker = Broker::follower(vec![1]);
    let request = peer_message(raft::eraftpb::MessageType::MsgRequestPreVote, 2, 0);
    assert_eq!(request.priority, 0);
    broker.node.step(request);
    let turn = broker.turn(false);
    assert_eq!(turn.status, RoundStatus::Done);
    match &turn.effects[0] {
        Effect::Send { to, messages } => {
            assert_eq!(*to, 1);
            assert_eq!(messages[0].msg_type, 18);
        }
        _ => panic!("a vote request is answered"),
    }
}

#[test]
fn local_messages_change_nothing() {
    let mut broker = Broker::leader(vec![]);
    broker.settle();
    broker.node.step(read_peer_message(vec![]).unwrap());
    let turn = broker.turn(false);
    assert_eq!(turn.status, RoundStatus::Idle);
    assert!(turn.effects.is_empty());
}

#[test]
fn a_node_alone_comes_to_lead_and_answers() {
    let mut broker = Broker::leader(vec![]);
    broker.settle();
    let sent = broker.propose(command(MessageType::SendReq, 1, 100, 1));
    let pushed = broker.propose(command(MessageType::PushReq, 100, 0, 0));
    let again = broker.propose(command(MessageType::PushReq, 100, 0, 0));
    broker.settle();
    assert!(sent.try_recv().unwrap().unwrap().is_none());
    let delivered = pushed.try_recv().unwrap().unwrap().unwrap();
    assert_eq!(delivered.header.id, 1);
    assert_eq!(delivered.header.msg_type, MessageType::PushReq);
    assert_eq!(delivered.payload, b"content".to_vec());
    assert!(again.try_recv().unwrap().unwrap().is_none());
    assert!(broker.proposals.is_empty());
    assert!(broker.pool.find_by_id(100).unwrap().delivered_queue.contains_id(1));
}

#[test]
fn proposals_wait_until_a_node_leads() {
    let mut broker = Broker::leader(vec![]);
    let greeted = broker.propose(command(MessageType::HeloReq, 100, 0, 0));
    broker.turn(false);
    assert_eq!(broker.proposals[0].proposed, 0);
    assert!(broker.pool.find_by_id(100).is_none());
    broker.settle();
    assert!(greeted.try_recv().unwrap().unwrap().is_none());
    assert!(broker.pool.find_by_id(100).is_some());
}

#[test]
fn a_proposal_remembers_its_index() {
    let mut broker = Broker::leader(vec![]);
    broker.settle();
    let (mut proposal, _outcome) = Proposal::normal(command(MessageType::HeloReq, 1, 0, 0));
    let group = broker.node.raft_group.as_mut().unwrap();
    assert!(propose(group, &mut proposal));
    assert_eq!(proposal.proposed, 3);
    let (mut next, _outcome) = Proposal::conf_change(&addition(2));
    assert!(propose(group, &mut next));
    assert_eq!(next.proposed, 4);
}

#[test]
fn a_node_that_does_not_lead_takes_no_proposal() {
    let mut node = Node::create_raft_leader(1);
    let (mut proposal, _outcome) = Proposal::normal(command(MessageType::HeloReq, 1, 0, 0));
    assert!(!propose(node.raft_group.as_mut().unwrap(), &mut proposal));
    assert_eq!(proposal.proposed, 0);
}

#[test]
fn a_proposal_of_nothing_is_refused() {
    let mut broker = Broker::leader(vec![]);
    broker.settle();
    let (mut nothing, outcome) = Proposal::normal(command(MessageType::HeloReq, 1, 0, 0));
    nothing.normal = None;
    broker.proposals.push_back(nothing);
    let greeted = broker.propose(command(MessageType::HeloReq, 100, 0, 0));
    let turn = broker.turn(true);
    assert_eq!(turn.effects.len(), 2);
    match &turn.effects[0] {
        Effect::Reply { reply_to, outcome } => {
            assert!(matches!(outcome, Err(Refused)));
            reply_to.send(Err(Refused)).unwrap();
        }
        _ => panic!("the refusal comes first"),
    }
    assert!(matches!(outcome.try_recv().unwrap(), Err(Refused)));
    assert!(broker.pool.find_by_id(100).is_some());
    assert!(greeted.try_recv().is_err());
}

#[test]
fn a_message_goes_before_a_change() {
    let mut broker = Broker::leader(vec![]);
    broker.settle();
    let (mut both, _outcome) = Proposal::normal(command(MessageType::HeloReq, 100, 0, 0));
    both.conf_change = Some(addition(2));
    both.transfer_leader = Some(2);
    broker.proposals.push_back(both);
    let turn = broker.turn(true);
    assert_eq!(turn.status, RoundStatus::Done);
    assert_eq!(turn.effects.len(), 1);
    assert!(broker.pool.find_by_id(100).is_some());
}

/// The messages that leave in a turn, as raft encodes them.
fn raft_messages(turn: Turn) -> Vec<raft::eraftpb::Message> {
    turn.effects
        .into_iter()
        .flat_map(|effect| match effect {
            Effect::Send { messages, .. } => messages,
            Effect::Reply { .. } => vec![],
        })
        .map(|m| protobuf::Message::parse_from_bytes(&m.bytes).unwrap())
        .collect()
}

#[test]
fn a_later_message_keeps_the_identity() {
    let mut broker = Broker::follower(vec![1, 3]);
    broker.node.step(peer_message(raft::eraftpb::MessageType::MsgHeartbeat, 2, 0));
    let answers = raft_messages(broker.turn(false));
    assert_eq!((answers[0].from, answers[0].to, answers[0].term), (2, 1, 5));
    let mut request = raft::eraftpb::Message::default();
    request.set_msg_type(raft::eraftpb::MessageType::MsgRequestVote);
    request.set_to(3);
    request.set_from(3);
    request.set_term(6);
    let bytes = protobuf::Message::write_to_bytes(&request).unwrap();
    broker.node.step(read_peer_message(bytes).unwrap());
    let answers = raft_messages(broker.turn(false));
    assert_eq!((answers[0].from, answers[0].to, answers[0].term), (2, 3, 6));
    // A heartbeat of the earlier term changes nothing.
    broker.node.step(peer_message(raft::eraftpb::MessageType::MsgHeartbeat, 2, 0));
    assert_eq!(broker.turn(false).status, RoundStatus::Idle);
}

#[test]
fn a_leader_steps_down_for_a_later_term() {
    let mut broker = Broker::leader(vec![]);
    broker.settle();
    assert!(broker.node.leads());
    broker.node.step(peer_message(raft::eraftpb::MessageType::MsgRequestVote, 1, 0));
    assert!(!broker.node.leads());
}

#[test]
fn a_second_change_gives_way_to_an_empty_entry() {
    let mut broker = Broker::leader(vec![]);
    broker.settle();
    let group = broker.node.raft_group.as_mut().unwrap();
    let (mut first, _outcome) = Proposal::conf_change(&addition(2));
    let (mut second, _outcome) = Proposal::conf_change(&addition(3));
    assert!(propose(group, &mut first));
    assert!(propose(group, &mut second));
    assert_eq!(second.proposed, first.proposed + 1);
    broker.proposals.push_back(first);
    broker.proposals.push_back(second);
    let turn = broker.turn(false);
    assert_eq!(turn.status, RoundStatus::Done);
    assert_eq!(turn.effects.len(), 1);
    assert_eq!(broker.proposals.len(), 1);
}

#[test]
fn an_unknown_client_stops_the_replica() {
    let mut broker = Broker::leader(vec![]);
    broker.settle();
    let outcome = broker.propose(command(MessageType::PushReq, 100, 0, 0));
    let turn = broker.turn(true);
    assert_eq!(turn.status, RoundStatus::Failed(Fault::UnknownClient));
    assert!(matches!(outcome.try_recv(), Err(TryRecvError::Empty)));
}

#[test]
fn a_message_that_was_not_delivered_stops_the_replica() {
    let mut broker = Broker::leader(vec![]);
    broker.settle();
    broker.propose(command(MessageType::HeloReq, 100, 0, 0));
    broker.propose(command(MessageType::FreeReq, 100, 0, 9));
    let turn = broker.turn(true);
    assert_eq!(turn.status, RoundStatus::Failed(Fault::NotDelivered));
    assert_eq!(turn.effects.len(), 1);
}

fn apply_entries(broker: &mut Broker, entries: Vec<LogEntry>) -> (Option<Fault>, Vec<Effect>) {
    let mut effects = vec![];
    let fault = handle_committed_entries(
        broker.node.raft_group.as_mut().unwrap(),
        &mut broker.pool,
        &mut broker.proposals,
        entries,
        &mut effects,
    );
    (fault, effects)
}

#[test]
fn malformed_entries_stop_the_replica() {
    let mut broker = Broker::leader(vec![]);
    let entry = LogEntry { entry_type: ENTRY_NORMAL, data: vec![0; 5] };
    let (fault, _) = apply_entries(&mut broker, vec![entry]);
    assert_eq!(fault, Some(Fault::MalformedMessage));
    let entry = LogEntry { entry_type: ENTRY_CONF_CHANGE, data: vec![0xff] };
    let (fault, _) = apply_entries(&mut broker, vec![entry]);
    assert_eq!(fault, Some(Fault::MalformedConfChange));
}

#[test]
fn the_last_voter_cannot_be_removed() {
    let mut removal = raft::eraftpb::ConfChange::default();
    removal.set_change_type(raft::eraftpb::ConfChangeType::RemoveNode);
    removal.set_node_id(1);
    let data = protobuf::Message::write_to_bytes(&removal).unwrap();
    let mut broker = Broker::leader(vec![]);
    let entry = LogEntry { entry_type: ENTRY_CONF_CHANGE, data: data.clone() };
    let (fault, _) = apply_entries(&mut broker, vec![entry]);
    assert_eq!(fault, Some(Fault::RefusedConfChange));

    let mut joining = raft::eraftpb::ConfChange::default();
    joining.set_node_id(2);
    let joining = protobuf::Message::write_to_bytes(&joining).unwrap();
    let entries = vec![
        LogEntry { entry_type: ENTRY_CONF_CHANGE, data: joining },
        LogEntry { entry_type: ENTRY_CONF_CHANGE, data },
    ];
    let (fault, effects) = apply_entries(&mut broker, entries);
    assert_eq!(fault, None);
    assert!(effects.is_empty());
}

#[test]
fn a_leader_answers_only_proposals_that_wait() {
    let mut broker = Broker::leader(vec![]);
    broker.settle();
    let entry = LogEntry {
        entry_type: ENTRY_NORMAL,
        data: command(MessageType::HeloReq, 100, 0, 0).to_bytes(),
    };
    let (fault, effects) = apply_entries(&mut broker, vec![entry]);
    assert_eq!(fault, Some(Fault::NoPendingProposal));
    assert!(effects.is_empty());
    assert!(broker.pool.find_by_id(100).is_some());
}

/// Entries that make node 2 a voter and then remove node 1.
fn removal_of_the_leader() -> Vec<LogEntry> {
    let mut joining = raft::eraftpb::ConfChange::default();
    joining.set_node_id(2);
    let mut removal = raft::eraftpb::ConfChange::default();
    removal.set_change_type(raft::eraftpb::ConfChangeType::RemoveNode);
    removal.set_node_id(1);
    [joining, removal]
        .into_iter()
        .map(|change| LogEntry {
            entry_type: ENTRY_CONF_CHANGE,
            data: protobuf::Message::write_to_bytes(&change).unwrap(),
        })
        .collect()
}

#[test]
fn a_leader_that_removes_itself_goes_on_answering() {
    let mut broker = Broker::leader(vec![]);
    broker.settle();
    let _joined = broker.propose(command(MessageType::HeloReq, 1, 0, 0));
    let _removed = broker.propose(command(MessageType::HeloReq, 1, 0, 0));
    let _greeted = broker.propose(command(MessageType::HeloReq, 1, 0, 0));
    let mut entries = removal_of_the_leader();
    entries.push(LogEntry {
        entry_type: ENTRY_NORMAL,
        data: command(MessageType::HeloReq, 100, 0, 0).to_bytes(),
    });
    let (fault, effects) = apply_entries(&mut broker, entries);
    assert_eq!(fault, None);
    assert_eq!(effects.len(), 3);
    assert!(broker.proposals.is_empty());
    assert!(broker.pool.find_by_id(100).is_some());
    assert!(broker.node.leads());

    // It takes no more proposals, and a round without entries can be given back.
    let refused = broker.propose(command(MessageType::HeloReq, 1, 0, 0));
    for _ in 0..3 {
        let turn = broker.turn(true);
        assert!(matches!(turn.status, RoundStatus::Idle | RoundStatus::Done));
        for effect in turn.effects {
            if let Effect::Reply { reply_to, outcome } = effect {
                let _ = reply_to.try_send(outcome);
            }
        }
    }
    assert!(matches!(refused.try_recv().unwrap(), Err(Refused)));
}

#[test]
fn a_removed_leader_cannot_give_back_entries() {
    let mut broker = Broker::leader(vec![]);
    broker.settle();
    let (mut proposal, _outcome) = Proposal::normal(command(MessageType::HeloReq, 1, 0, 0));
    assert!(propose(broker.node.raft_group.as_mut().unwrap(), &mut proposal));
    let _joined = broker.propose(command(MessageType::HeloReq, 1, 0, 0));
    let _removed = broker.propose(command(MessageType::HeloReq, 1, 0, 0));
    let (fault, effects) = apply_entries(&mut broker, removal_of_the_leader());
    assert_eq!(fault, None);
    assert_eq!(effects.len(), 2);
    let turn = broker.turn(false);
    assert_eq!(turn.status, RoundStatus::Failed(Fault::LeaderRemoved));
}

#[test]
fn a_reply_channel_holds_one_outcome() {
    let (proposal, outcome) = Proposal::normal(command(MessageType::HeloReq, 1, 0, 0));
    assert!(matches!(outcome.try_recv(), Err(TryRecvError::Empty)));
    proposal.propose_success.try_send(Ok(None)).unwrap();
    assert!(matches!(
        proposal.propose_success.try_send(Err(Refused)),
        Err(TrySendError::Full(Err(Refused)))
    ));
    assert!(outcome.recv().unwrap().unwrap().is_none());
    let (change, outcome) = Proposal::conf_change(&addition(2));
    change.propose_success.try_send(Err(Refused)).unwrap();
    assert!(change.propose_success.try_send(Ok(None)).is_err());
    assert!(matches!(outcome.recv().unwrap(), Err(Refused)));
}

#[test]
fn a_leader_is_its_only_voter() {
    let mut broker = Broker::leader(vec![]);
    broker.node = Node::create_raft_leader(3);
    broker.settle();
    assert!(broker.node.leads());
    let greeted = broker.propose(command(MessageType::HeloReq, 100, 0, 0));
    broker.settle();
    assert!(greeted.try_recv().unwrap().unwrap().is_none());
}

#[test]
fn a_round_goes_through_its_stages() {
    let mut broker = Broker::leader(vec![]);
    broker.settle();
    let outcome = broker.propose(command(MessageType::HeloReq, 100, 0, 0));
    let group = broker.node.raft_group.as_mut().unwrap();
    assert!(propose(group, &mut broker.proposals[0]));
    let mut stage = Stage::Begin;
    let mut names = vec![];
    let status = loop {
        let step = on_ready(
            group,
            &mut broker.pool,
            &broker.peers,
            &mut broker.proposals,
            stage,
        );
        match step.next {
            Next::Continue { stage: next } => {
                names.push(match &next {
                    Stage::Begin => "begin",
                    Stage::Taken { .. } => "taken",
                    Stage::Applied { .. } => "applied",
                    Stage::Stored { .. } => "stored",
                    Stage::Advanced { .. } => "advanced",
                    Stage::Settling => "settling",
                });
                // The entry is committed when it has been given back, and applied after that.
                let replies = step.effects.len();
                assert_eq!(replies, if names.len() == 5 { 1 } else { 0 });
                stage = next;
            }
            Next::Ended { status } => break status,
        }
    };
    assert_eq!(status, RoundStatus::Done);
    assert_eq!(names, vec!["taken", "applied", "stored", "advanced", "settling"]);
    assert!(broker.pool.find_by_id(100).is_some());
    assert!(broker.proposals.is_empty());
    assert!(outcome.try_recv().is_err());
}

#[test]
fn proposals_can_be_cloned() {
    let (proposal, outcome) = Proposal::conf_change(&addition(2));
    let copy = proposal.clone();
    assert!(copy.normal.is_none());
    assert_eq!(copy.conf_change.unwrap().node_id, 2);
    assert_eq!(copy.proposed, 0);
    copy.propose_success.send(Ok(None)).unwrap();
    assert!(outcome.try_recv().unwrap().unwrap().is_none());
}

#[test]
fn empty_entries_are_passed_over() {
    let mut broker = Broker::leader(vec![]);
    let entry = LogEntry { entry_type: ENTRY_NORMAL, data: vec![] };
    let (fault, effects) = apply_entries(&mut broker, vec![entry]);
    assert_eq!(fault, None);
    assert!(effects.is_empty());
}

#[test]
fn a_follower_applies_without_answering() {
    let mut broker = Broker::follower(vec![1]);
    broker.node.step(peer_message(raft::eraftpb::MessageType::MsgHeartbeat, 2, 0));
    broker.propose(command(MessageType::SendReq, 1, 2, 3));
    let data = command(MessageType::SendReq, 1, 100, 7).to_bytes();
    let (fault, effects) =
        apply_entries(&mut broker, vec![LogEntry { entry_type: ENTRY_NORMAL, data }]);
    assert_eq!(fault, None);
    assert!(effects.is_empty());
    assert_eq!(broker.proposals.len(), 1);
    assert!(broker.pool.find_by_id(100).unwrap().waiting_queue.contains_id(7));
}

#[test]
fn portions_of_entries_make_no_difference() {
    let entries = || {
        vec![
            command(MessageType::SendReq, 1, 100, 1),
            command(MessageType::SendReq, 1, 100, 2),
            command(MessageType::PushReq, 100, 0, 0),
        ]
        .into_iter()
        .map(|c| LogEntry { entry_type: ENTRY_NORMAL, data: c.to_bytes() })
        .collect::<Vec<LogEntry>>()
    };
    let mut whole = Broker::leader(vec![]);
    apply_entries(&mut whole, entries());
    let mut parts = Broker::leader(vec![]);
    for entry in entries() {
        apply_entries(&mut parts, vec![entry]);
    }
    assert_eq!(format!("{:?}", whole.pool), format!("{:?}", parts.pool));
}

#[test]
fn messages_are_batched_by_peer() {
    let messages: Vec<PeerMessage> = [3, 2, 9, 3]
        .into_iter()
        .enumerate()
        .map(|(i, to)| {
            peer_message(raft::eraftpb::MessageType::MsgHeartbeat, to, i as u64)
        })
        .collect();
    let effects = handle_messages(messages, &vec![2, 3, 4]);
    let sent: Vec<(u64, Vec<u64>)> = effects
        .iter()
        .map(|effect| match effect {
            Effect::Send { to, messages } => (*to, messages.iter().map(|m| m.commit).collect()),
            _ => panic!("only messages leave"),
        })
        .collect();
    assert_eq!(sent, vec![(2, vec![1]), (3, vec![0, 3])]);
}

#[test]
fn a_cluster_comes_together() {
    let brokers = cluster();
    assert!(brokers.iter().all(|b| b.node.raft_group.is_some()));
    assert!(brokers[0].proposals.is_empty());
}

#[test]
fn replicas_hold_the_same_queues() {
    let mut brokers = cluster();
    let sent: Vec<Receiver<Outcome>> = (1..=3)
        .map(|id| brokers[0].propose(command(MessageType::SendReq, 1, 100, id)))
        .collect();
    run(&mut brokers, 40);
    for outcome in sent {
        assert!(outcome.try_recv().unwrap().unwrap().is_none());
    }
    let pushed = brokers[0].propose(command(MessageType::PushReq, 100, 0, 0));
    run(&mut brokers, 40);
    assert_eq!(pushed.try_recv().unwrap().unwrap().unwrap().header.id, 1);
    let freed = brokers[0].propose(command(MessageType::FreeReq, 100, 0, 1));
    run(&mut brokers, 40);
    assert!(freed.try_recv().unwrap().unwrap().is_none());
    for broker in &brokers {
        let queue = broker.pool.find_by_id(100).unwrap();
        assert!(!queue.waiting_queue.contains_id(1));
        assert!(queue.waiting_queue.contains_id(2));
        assert!(queue.waiting_queue.contains_id(3));
        assert!(queue.delivered_queue.is_empty());
    }
    let first = format!("{:?}", brokers[0].pool);
    assert_eq!(format!("{:?}", brokers[1].pool), first);
    assert_eq!(format!("{:?}", brokers[2].pool), first);
}
