//! The raft group of a node, as the `raft` crate runs it.
//!
//! Consensus itself is the work of the `raft` crate. This module holds what the
//! broker hands to it and gets from it: plain values for messages, log entries,
//! configuration changes and hard states, and one function for each call that
//! the broker makes. A group remembers, for specifications only, the calls that
//! were made on it ([`raft_calls`]), so that a contract can say which calls a
//! function makes, with which arguments and in which order.

use vstd::prelude::*;

verus! {

/// A vote request, in the numbering of raft messages.
pub const MSG_REQUEST_VOTE: i32 = 5;

/// A heartbeat, in the numbering of raft messages.
pub const MSG_HEARTBEAT: i32 = 8;

/// A vote request of the preliminary round, in the numbering of raft messages.
pub const MSG_REQUEST_PRE_VOTE: i32 = 17;

/// A term so high that no cluster comes to it. A node whose term has no successor
/// cannot stand for election.
pub const TERM_LIMIT: u64 = 0x7fff_ffff_ffff_ffff;

/// An entry that carries data of the broker, in the numbering of log entries.
pub const ENTRY_NORMAL: i32 = 0;

/// An entry that carries a configuration change, in the numbering of log entries.
pub const ENTRY_CONF_CHANGE: i32 = 1;

/// A message between raft nodes: what the broker reads of it, and the whole of it
/// as it travels.
#[derive(Debug)]
pub struct PeerMessage {
    /// The node that the message is for.
    pub to: u64,
    /// The number of the message's type.
    pub msg_type: i32,
    /// The term in which the message was sent.
    pub term: u64,
    /// The commit index that the message carries.
    pub commit: u64,
    /// The priority of the sender in elections.
    pub priority: i64,
    /// The encoded message.
    pub bytes: Vec<u8>,
}

/// A message between raft nodes as a value.
pub struct PeerMessageView {
    pub to: u64,
    pub msg_type: i32,
    pub term: u64,
    pub commit: u64,
    pub priority: i64,
    pub bytes: Seq<u8>,
}

impl View for PeerMessage {
    type V = PeerMessageView;

    open spec fn view(&self) -> PeerMessageView {
        PeerMessageView {
            to: self.to,
            msg_type: self.msg_type,
            term: self.term,
            commit: self.commit,
            priority: self.priority,
            bytes: self.bytes@,
        }
    }
}

/// Messages as values.
pub open spec fn peer_messages_view(messages: Seq<PeerMessage>) -> Seq<PeerMessageView> {
    messages.map_values(|m: PeerMessage| m@)
}

/// An entry of the raft log.
#[derive(Debug)]
pub struct LogEntry {
    /// The number of the entry's type.
    pub entry_type: i32,
    /// What the entry carries.
    pub data: Vec<u8>,
}

/// An entry of the raft log as a value.
pub struct LogEntryView {
    pub entry_type: i32,
    pub data: Seq<u8>,
}

impl View for LogEntry {
    type V = LogEntryView;

    open spec fn view(&self) -> LogEntryView {
        LogEntryView { entry_type: self.entry_type, data: self.data@ }
    }
}

/// Entries as values.
pub open spec fn log_entries_view(entries: Seq<LogEntry>) -> Seq<LogEntryView> {
    entries.map_values(|e: LogEntry| e@)
}

/// What a configuration change does with its node.
#[derive(Clone, Copy, Debug, PartialEq, Eq, Structural)]
pub enum ConfChangeType {
    /// The node becomes a voter.
    AddNode,
    /// The node leaves.
    RemoveNode,
    /// The node becomes a learner.
    AddLearnerNode,
}

/// A change of the group's configuration.
#[derive(Debug)]
pub struct ConfChange {
    pub id: u64,
    pub change_type: ConfChangeType,
    /// The node that is added or removed.
    pub node_id: u64,
    pub context: Vec<u8>,
}

/// A change of the group's configuration as a value.
pub struct ConfChangeView {
    pub id: u64,
    pub change_type: ConfChangeType,
    pub node_id: u64,
    pub context: Seq<u8>,
}

impl View for ConfChange {
    type V = ConfChangeView;

    open spec fn view(&self) -> ConfChangeView {
        ConfChangeView {
            id: self.id,
            change_type: self.change_type,
            node_id: self.node_id,
            context: self.context@,
        }
    }
}

impl Clone for ConfChange {
    fn clone(&self) -> (copy: Self)
        ensures
            copy@ == self@,
    {
        ConfChange {
            id: self.id,
            change_type: self.change_type,
            node_id: self.node_id,
            context: self.context.clone(),
        }
    }
}

/// The voters that a change leaves. A change for node 0 changes nothing.
pub open spec fn voters_after(voters: Set<u64>, change: ConfChangeView) -> Set<u64> {
    if change.node_id == 0 {
        voters
    } else {
        match change.change_type {
            ConfChangeType::AddNode => voters.insert(change.node_id),
            ConfChangeType::RemoveNode => voters.remove(change.node_id),
            ConfChangeType::AddLearnerNode => voters.remove(change.node_id),
        }
    }
}

/// Whether a group can carry out a single change: it is not in the middle of
/// a joint change, and some voter remains.
pub open spec fn change_admissible(
    voters: Set<u64>,
    joint: bool,
    change: ConfChangeView,
) -> bool {
    !joint && voters_after(voters, change) != Set::<u64>::empty()
}

/// The part of a node's state that has to survive a restart.
#[derive(Clone, Copy, Debug, PartialEq, Eq, Structural)]
pub struct HardState {
    pub term: u64,
    pub vote: u64,
    pub commit: u64,
}

/// The settings with which a group is made.
#[derive(Clone, Copy, Debug, PartialEq, Eq, Structural)]
pub struct RaftSettings {
    /// The identity of the node.
    pub id: u64,
    /// The number of ticks without a leader after which an election starts.
    pub election_tick: usize,
    /// The number of ticks between two heartbeats of a leader.
    pub heartbeat_tick: usize,
}

/// What a `Ready` hands out, as a value.
pub struct ReadyView {
    /// Whether a snapshot has to be stored.
    pub has_snapshot: bool,
    /// The messages that may leave at once.
    pub messages: Seq<PeerMessageView>,
    /// The messages that may leave after everything else has been stored.
    pub persisted_messages: Seq<PeerMessageView>,
    /// The entries that have been committed.
    pub committed: Seq<LogEntryView>,
    /// The entries that have to be stored.
    pub entries: Seq<LogEntryView>,
    /// The new hard state, where it has changed.
    pub hard_state: Option<HardState>,
}

/// What a `LightReady` hands out, as a value.
pub struct LightView {
    /// The new commit index, where it has changed.
    pub commit_index: Option<u64>,
    pub messages: Seq<PeerMessageView>,
    pub committed: Seq<LogEntryView>,
}

/// A call on a raft group, with what went in and what decided what came next.
pub enum RaftCall {
    Tick,
    Step { message: Seq<u8> },
    Propose { data: Seq<u8> },
    ProposeConfChange { change: ConfChangeView },
    Ready { ready: ReadyView },
    ApplySnapshot { stored: bool },
    ApplyConfChange { change: ConfChangeView },
    SetConfState { voters: Set<u64> },
    Append { entries: Seq<LogEntryView>, stored: bool },
    SetHardState { hard_state: HardState },
    Advance { light: LightView },
    SetCommit { commit: u64 },
    AdvanceApply,
}

/// How far the handling of a `Ready` has come.
pub enum ReadyPhase {
    /// The `Ready` is not the newest one that this group handed out.
    Foreign,
    /// It was handed out, and nothing of it has been stored.
    Taken,
    /// Its snapshot has been stored.
    Restored,
    /// Its entries have been stored.
    Persisted,
}

/// The in-memory storage of the `raft` crate.
#[verifier::external_type_specification]
#[verifier::external_body]
pub struct ExMemStorage(raft::storage::MemStorage);

/// The outstanding work of a raft node.
#[verifier::external_type_specification]
#[verifier::external_body]
pub struct ExReady(raft::Ready);

/// What becomes outstanding when a `Ready` is given back.
#[verifier::external_type_specification]
#[verifier::external_body]
pub struct ExLightReady(raft::LightReady);

/// The configuration of a raft group.
#[verifier::external_type_specification]
#[verifier::external_body]
pub struct ExConfState(raft::eraftpb::ConfState);

/// The errors of the `raft` crate.
#[verifier::external_type_specification]
#[verifier::external_body]
pub struct ExRaftError(raft::Error);

/// A raft node of the `raft` crate together with its in-memory storage.
#[verifier::external_body]
pub struct RaftGroup {
    inner: raft::RawNode<raft::storage::MemStorage>,
}

/// The voters that a storage holds.
pub uninterp spec fn storage_voters(store: raft::storage::MemStorage) -> Seq<u64>;

/// The index of the first entry that a storage can hold.
pub uninterp spec fn storage_first_index(store: raft::storage::MemStorage) -> u64;

/// The term that a storage holds.
pub uninterp spec fn storage_term(store: raft::storage::MemStorage) -> u64;

/// The settings with which the group was made.
pub uninterp spec fn raft_settings(group: RaftGroup) -> RaftSettings;

/// The calls that were made on the group since it was made.
pub uninterp spec fn raft_calls(group: RaftGroup) -> Seq<RaftCall>;

/// No call that is admitted from here on stops the process: the calls so far followed
/// the protocol of the `raft` crate, and every message stepped in was one that it takes.
pub uninterp spec fn raft_sound(group: RaftGroup) -> bool;

/// Every `Ready` that the group handed out has been given back.
pub uninterp spec fn raft_settled(group: RaftGroup) -> bool;

/// Stepping the message into the node in this state does not stop the process, nor
/// does any call that is admitted after it.
pub uninterp spec fn raft_takes(group: RaftGroup, message: Seq<u8>) -> bool;

/// The term of the node.
pub uninterp spec fn raft_term(group: RaftGroup) -> u64;

/// Whether the node is the leader of its group.
pub uninterp spec fn raft_is_leader(group: RaftGroup) -> bool;

/// Whether the node appends a proposal to its own log.
pub uninterp spec fn raft_admits(group: RaftGroup) -> bool;

/// Whether a configuration change that the node appends is kept as such: no other
/// one is under way.
pub uninterp spec fn raft_conf_open(group: RaftGroup) -> bool;

/// Whether everything in the node's log has been stored.
pub uninterp spec fn raft_stored(group: RaftGroup) -> bool;

/// The index of the last entry in the node's log.
pub uninterp spec fn raft_last_index(group: RaftGroup) -> u64;

/// The entries in the node's log, by index.
pub uninterp spec fn raft_log(group: RaftGroup) -> Map<u64, LogEntryView>;

/// The voters of the group, as the node knows them.
pub uninterp spec fn raft_voters(group: RaftGroup) -> Set<u64>;

/// Whether the node is itself among the nodes whose progress it tracks: it is a voter
/// or a learner of its own group.
pub uninterp spec fn raft_member(group: RaftGroup) -> bool;

/// Whether the group is in the middle of a joint configuration change.
pub uninterp spec fn raft_joint(group: RaftGroup) -> bool;

/// Whether the node has outstanding work.
pub uninterp spec fn raft_has_ready(group: RaftGroup) -> bool;

/// The outstanding work of the node.
pub uninterp spec fn raft_pending(group: RaftGroup) -> ReadyView;

/// How far the handling of `ready` by `group` has come.
pub uninterp spec fn ready_phase(group: RaftGroup, ready: raft::Ready) -> ReadyPhase;

/// What a `Ready` still hands out.
pub uninterp spec fn ready_view(ready: raft::Ready) -> ReadyView;

/// What a `LightReady` still hands out.
pub uninterp spec fn light_view(light: raft::LightReady) -> LightView;

/// The voters of a configuration.
pub uninterp spec fn conf_state_voters(state: raft::eraftpb::ConfState) -> Set<u64>;

/// The message that bytes from a peer encode.
pub uninterp spec fn peer_message_parsed(bytes: Seq<u8>) -> Option<PeerMessageView>;

/// The configuration change that the data of a log entry encode.
pub uninterp spec fn conf_change_parsed(bytes: Seq<u8>) -> Option<ConfChangeView>;

/// The types of message that never come from a peer: raft uses them inside a node.
pub open spec fn is_local_type(msg_type: i32) -> bool {
    msg_type == 0 || msg_type == 1 || msg_type == 10 || msg_type == 11 || msg_type == 12
}

/// A message with which a peer can speak to a node that knows nothing yet: a heartbeat
/// that commits nothing, a vote request, or a vote request of the preliminary round by
/// a node of no less priority.
pub open spec fn is_greeting(message: PeerMessageView) -> bool {
    ||| message.msg_type == MSG_HEARTBEAT && message.commit == 0 && message.term < TERM_LIMIT
    ||| message.msg_type == MSG_REQUEST_VOTE && 0 < message.term < TERM_LIMIT
    ||| message.msg_type == MSG_REQUEST_PRE_VOTE && 0 < message.term < TERM_LIMIT
        && message.priority >= 0
}

/// A message that stops no group whose log has been stored: a heartbeat that commits no
/// more than the log holds, or a vote request. One of the preliminary round is answered
/// in the term of the node, which must have begun.
pub open spec fn is_harmless(group: RaftGroup, message: PeerMessageView) -> bool {
    &&& raft_stored(group)
    &&& 0 < message.term < TERM_LIMIT
    &&& {
        ||| message.msg_type == MSG_HEARTBEAT && message.commit <= raft_last_index(group)
        ||| message.msg_type == MSG_REQUEST_VOTE
        ||| message.msg_type == MSG_REQUEST_PRE_VOTE && raft_term(group) > 0
    }
}

/// The log and the configuration are the same.
pub open spec fn same_log(before: RaftGroup, after: RaftGroup) -> bool {
    &&& raft_voters(after) == raft_voters(before)
    &&& raft_member(after) == raft_member(before)
    &&& raft_joint(after) == raft_joint(before)
    &&& raft_last_index(after) == raft_last_index(before)
    &&& raft_log(after) == raft_log(before)
    &&& raft_stored(after) == raft_stored(before)
}

/// What stepping a message into a group does. A message of a local type is ignored, and
/// a vote request of the preliminary round is only answered. A heartbeat or a vote
/// request of a later term takes the node to that term, and a leader steps down. Nothing
/// is said of other messages.
pub open spec fn stepped(before: RaftGroup, after: RaftGroup, message: PeerMessageView) -> bool {
    if is_local_type(message.msg_type) || message.msg_type == MSG_REQUEST_PRE_VOTE {
        &&& same_log(before, after)
        &&& raft_is_leader(after) == raft_is_leader(before)
        &&& raft_term(after) == raft_term(before)
    } else if message.msg_type == MSG_HEARTBEAT || message.msg_type == MSG_REQUEST_VOTE {
        let later = message.term > raft_term(before);
        &&& same_log(before, after)
        &&& raft_is_leader(after) == (raft_is_leader(before) && !later)
        &&& raft_term(after) == if later {
            message.term
        } else {
            raft_term(before)
        }
    } else {
        true
    }
}

/// The group can be ticked, stepped and asked for its outstanding work.
pub open spec fn raft_live(group: RaftGroup) -> bool {
    raft_sound(group) && raft_settled(group)
}

/// The node, its role and its configuration are the same.
pub open spec fn same_standing(before: RaftGroup, after: RaftGroup) -> bool {
    &&& raft_settings(after) == raft_settings(before)
    &&& raft_is_leader(after) == raft_is_leader(before)
    &&& raft_voters(after) == raft_voters(before)
    &&& raft_member(after) == raft_member(before)
    &&& raft_joint(after) == raft_joint(before)
}

/// Where a node stands in its group.
pub struct Standing {
    /// Its identity.
    pub id: u64,
    /// Whether it leads the group.
    pub leads: bool,
    /// Whether it is a member of the group.
    pub member: bool,
}

/// Where the node stands in its group.
pub open spec fn standing(group: RaftGroup) -> Standing {
    Standing {
        id: raft_settings(group).id,
        leads: raft_is_leader(group),
        member: raft_member(group),
    }
}

/// Whether the node `id` is a member after a change.
pub open spec fn member_after(id: u64, member: bool, change: ConfChangeView) -> bool {
    if change.node_id == id && id != 0 {
        change.change_type != ConfChangeType::RemoveNode
    } else {
        member
    }
}

/// Whether work can be given back: a leader that is no longer a member of its group
/// must not have stored entries. It would count them for itself, and the `raft` crate
/// stops the process.
pub open spec fn can_give_back(standing: Standing, ready: ReadyView) -> bool {
    !standing.leads || standing.member || ready.entries.len() == 0
}

/// The group stands in the same place of the protocol.
pub open spec fn same_progress(before: RaftGroup, after: RaftGroup) -> bool {
    &&& raft_sound(before) ==> raft_sound(after)
    &&& raft_settled(after) == raft_settled(before)
    &&& raft_stored(after) == raft_stored(before)
    &&& forall|ready: raft::Ready| #[trigger]
        ready_phase(after, ready) == ready_phase(before, ready)
}

/// One call more was made.
pub open spec fn called(before: RaftGroup, after: RaftGroup, call: RaftCall) -> bool {
    raft_calls(after) == raft_calls(before).push(call)
}

/// Calls `MemStorage::new`: a storage in term 0, without voters, whose first entry
/// will have index 1.
#[verifier::external_body]
pub(crate) fn mem_storage_new() -> (store: raft::storage::MemStorage)
    ensures
        storage_voters(store) == Seq::<u64>::empty(),
        storage_first_index(store) == 1,
        storage_term(store) == 0,
{
    raft::storage::MemStorage::new()
}

/// Calls `MemStorageCore::apply_snapshot` with a snapshot that holds no data: the
/// storage takes its index and voters, and its term if that is higher, unless the
/// snapshot is older than the first entry that the storage can hold; then nothing
/// changes.
#[verifier::external_body]
pub(crate) fn storage_apply_snapshot(
    store: &mut raft::storage::MemStorage,
    index: u64,
    term: u64,
    voters: Vec<u64>,
) -> (result: Result<(), raft::Error>)
    requires
        index < u64::MAX,
    ensures
        result is Ok <==> storage_first_index(*old(store)) <= index,
        result is Ok ==> {
            &&& storage_voters(*final(store)) == voters@
            &&& storage_first_index(*final(store)) == index + 1
            &&& storage_term(*final(store)) == if storage_term(*old(store)) < term {
                term
            } else {
                storage_term(*old(store))
            }
        },
        result is Err ==> *final(store) == *old(store),
{
    let mut snapshot = raft::eraftpb::Snapshot::default();
    snapshot.mut_metadata().index = index;
    snapshot.mut_metadata().term = term;
    snapshot.mut_metadata().mut_conf_state().voters = voters;
    let result = store.wl().apply_snapshot(snapshot);
    result
}

/// Calls `RawNode::new` with the default configuration but for these settings, and with
/// the default logger of the `raft` crate, tagged with the node: a follower of no leader,
/// in the term and with the voters that the storage holds, on whose group no call was
/// made, and which takes every greeting. It is refused if, and only if, the ticks are
/// not in order.
#[verifier::external_body]
pub(crate) fn raft_new(settings: &RaftSettings, store: raft::storage::MemStorage) -> (result: Result<
    RaftGroup,
    raft::Error,
>)
    requires
        settings.id != 0,
        settings.election_tick <= usize::MAX / 2,
        !storage_voters(store).contains(0),
        storage_voters(store).no_duplicates(),
        storage_term(store) < TERM_LIMIT,
        storage_term(store) > 0 || storage_first_index(store) == 1,
    ensures
        result is Ok <==> 0 < settings.heartbeat_tick < settings.election_tick,
        result matches Ok(group) ==> {
            &&& raft_settings(group) == *settings
            &&& raft_calls(group) == Seq::<RaftCall>::empty()
            &&& raft_live(group)
            &&& !raft_is_leader(group)
            &&& raft_voters(group) == storage_voters(store).to_set()
            &&& raft_member(group) == storage_voters(store).contains(settings.id)
            &&& !raft_joint(group)
            &&& raft_last_index(group) == storage_first_index(store) - 1
            &&& raft_term(group) == storage_term(store)
            &&& raft_stored(group)
            &&& forall|message: Seq<u8>| #[trigger]
                peer_message_parsed(message) matches Some(m) && is_greeting(m) ==> raft_takes(
                    group,
                    message,
                )
        },
{
    let config = raft::Config {
        id: settings.id,
        election_tick: settings.election_tick,
        heartbeat_tick: settings.heartbeat_tick,
        ..Default::default()
    };
    let tag = slog::SingleKV::from(("tag", format!("peer_{}", settings.id)));
    let logger = raft::default_logger().new(slog::OwnedKV((tag, ())));
    Ok(RaftGroup { inner: raft::RawNode::new(&config, store, &logger)? })
}

/// Calls `RawNode::tick`: time moves on by one tick. Where that leads depends on
/// a timeout drawn at random, and nothing is stated of it but that the
/// configuration stays.
#[verifier::external_body]
pub(crate) fn raft_tick(group: &mut RaftGroup)
    requires
        raft_live(*old(group)),
    ensures
        called(*old(group), *final(group), RaftCall::Tick),
        raft_live(*final(group)),
        raft_settings(*final(group)) == raft_settings(*old(group)),
        raft_voters(*final(group)) == raft_voters(*old(group)),
        raft_member(*final(group)) == raft_member(*old(group)),
        raft_joint(*final(group)) == raft_joint(*old(group)),
{
    group.inner.tick();
}

/// Calls `RawNode::step` with the message that the bytes encode; its result says
/// only whether the node ignored the message. What becomes of the group is stated for
/// messages of a local type, heartbeats and vote requests. Where any other message leads
/// depends on a timeout drawn at random, and nothing is stated of it. `RawNode::step`
/// stops the process on a message that contradicts what the node has committed, so only
/// messages that are harmless, or that the group takes, are admitted.
#[verifier::external_body]
pub(crate) fn raft_step(group: &mut RaftGroup, message: &Vec<u8>)
    requires
        raft_live(*old(group)),
        peer_message_parsed(message@) matches Some(m) && (is_local_type(m.msg_type) || is_harmless(
            *old(group),
            m,
        ) || raft_takes(*old(group), message@)),
    ensures
        called(*old(group), *final(group), RaftCall::Step { message: message@ }),
        raft_live(*final(group)),
        raft_settings(*final(group)) == raft_settings(*old(group)),
        stepped(*old(group), *final(group), peer_message_parsed(message@)->0),
{
    let parsed: raft::eraftpb::Message = protobuf::Message::parse_from_bytes(message).unwrap();
    let _ = group.inner.step(parsed);
}

/// Calls `RawNode::propose` without a context. A leader that admits proposals
/// appends a normal entry with these data; any other node leaves its log as it
/// is. Neither role nor configuration changes.
#[verifier::external_body]
pub(crate) fn raft_propose(group: &mut RaftGroup, data: Vec<u8>) -> (result: Result<
    (),
    raft::Error,
>)
    requires
        raft_live(*old(group)),
    ensures
        called(*old(group), *final(group), RaftCall::Propose { data: data@ }),
        same_standing(*old(group), *final(group)),
        raft_live(*final(group)),
        raft_admits(*final(group)) == raft_admits(*old(group)),
        raft_conf_open(*final(group)) == raft_conf_open(*old(group)),
        raft_admits(*old(group)) ==> raft_is_leader(*old(group)) && result is Ok,
        raft_last_index(*final(group)) == raft_last_index(*old(group)) + if raft_admits(
            *old(group),
        ) {
            1int
        } else {
            0int
        },
        raft_log(*final(group)) == if raft_admits(*old(group)) {
            raft_log(*old(group)).insert(
                raft_last_index(*final(group)),
                LogEntryView { entry_type: ENTRY_NORMAL, data: data@ },
            )
        } else {
            raft_log(*old(group))
        },
{
    group.inner.propose(vec![], data)
}

/// Calls `RawNode::propose_conf_change` without a context. A leader that admits
/// proposals appends an entry from which the change can be read again; where
/// another change is under way the entry is normal and empty instead. After that one
/// is under way. Any other node leaves its log as it is. Neither role nor configuration
/// changes.
#[verifier::external_body]
pub(crate) fn raft_propose_conf_change(group: &mut RaftGroup, change: &ConfChange) -> (result:
    Result<(), raft::Error>)
    requires
        raft_live(*old(group)),
    ensures
        called(*old(group), *final(group), RaftCall::ProposeConfChange { change: change@ }),
        same_standing(*old(group), *final(group)),
        raft_live(*final(group)),
        raft_admits(*final(group)) == raft_admits(*old(group)),
        raft_conf_open(*final(group)) == (raft_conf_open(*old(group)) && !raft_admits(
            *old(group),
        )),
        raft_admits(*old(group)) ==> raft_is_leader(*old(group)) && result is Ok,
        !raft_admits(*old(group)) ==> raft_last_index(*final(group)) == raft_last_index(*old(group))
            && raft_log(*final(group)) == raft_log(*old(group)),
        raft_admits(*old(group)) ==> {
            let at = raft_last_index(*final(group));
            let log = raft_log(*final(group));
            &&& at == raft_last_index(*old(group)) + 1
            &&& log == raft_log(*old(group)).insert(at, log[at])
            &&& if raft_conf_open(*old(group)) {
                log[at].entry_type == ENTRY_CONF_CHANGE && conf_change_parsed(log[at].data) == Some(
                    change@,
                )
            } else {
                log[at] == (LogEntryView { entry_type: ENTRY_NORMAL, data: Seq::empty() })
            }
        },
{
    let mut proposed = raft::eraftpb::ConfChange::default();
    proposed.set_id(change.id);
    proposed.set_change_type(
        match change.change_type {
            ConfChangeType::AddNode => raft::eraftpb::ConfChangeType::AddNode,
            ConfChangeType::RemoveNode => raft::eraftpb::ConfChangeType::RemoveNode,
            ConfChangeType::AddLearnerNode => raft::eraftpb::ConfChangeType::AddLearnerNode,
        },
    );
    proposed.set_node_id(change.node_id);
    proposed.set_context(change.context.clone().into());
    group.inner.propose_conf_change(vec![], proposed)
}

/// Calls `RaftLog::last_index`.
#[verifier::external_body]
pub(crate) fn raft_last(group: &RaftGroup) -> (index: u64)
    ensures
        index == raft_last_index(*group),
{
    group.inner.raft.raft_log.last_index()
}

/// Calls `ProgressTracker::get` for the node itself.
#[verifier::external_body]
pub(crate) fn raft_is_member(group: &RaftGroup) -> (member: bool)
    ensures
        member == raft_member(*group),
{
    group.inner.raft.prs().get(group.inner.raft.id).is_some()
}

/// Reads the role of the node from `Raft::state`.
#[verifier::external_body]
pub(crate) fn raft_leads(group: &RaftGroup) -> (leads: bool)
    ensures
        leads == raft_is_leader(*group),
{
    group.inner.raft.state == raft::StateRole::Leader
}

/// Calls `RawNode::has_ready`. Without outstanding work everything has been stored.
#[verifier::external_body]
pub(crate) fn raft_work_pending(group: &RaftGroup) -> (pending: bool)
    ensures
        pending == raft_has_ready(*group),
        !pending && raft_live(*group) ==> raft_stored(*group),
{
    group.inner.has_ready()
}

/// Calls `RawNode::ready`: hands out the outstanding work, which then has to be
/// given back with [`raft_advance`].
#[verifier::external_body]
pub(crate) fn raft_ready(group: &mut RaftGroup) -> (ready: raft::Ready)
    requires
        raft_live(*old(group)),
    ensures
        ready_view(ready) == raft_pending(*old(group)),
        called(*old(group), *final(group), RaftCall::Ready { ready: ready_view(ready) }),
        ready_phase(*final(group), ready) == ReadyPhase::Taken,
        same_standing(*old(group), *final(group)),
        raft_sound(*final(group)),
        !raft_settled(*final(group)),
{
    group.inner.ready()
}

/// Calls `Ready::take_messages`: takes out the messages that may leave at once,
/// each as it is encoded by `Message::write_to_bytes`, from which it can be read
/// again.
#[verifier::external_body]
pub(crate) fn ready_take_messages(ready: &mut raft::Ready) -> (messages: Vec<PeerMessage>)
    ensures
        peer_messages_view(messages@) == ready_view(*old(ready)).messages,
        ready_view(*final(ready)) == (ReadyView {
            messages: Seq::empty(),
            ..ready_view(*old(ready))
        }),
        forall|group: RaftGroup| #[trigger]
            ready_phase(group, *final(ready)) == ready_phase(group, *old(ready)),
        forall|i: int|
            0 <= i < messages@.len() ==> peer_message_parsed((#[trigger] messages@[i]).bytes@)
                == Some(messages@[i]@),
{
    ready.take_messages().into_iter().map(|m| PeerMessage {
        to: m.to,
        msg_type: protobuf::ProtobufEnum::value(&m.get_msg_type()),
        term: m.term,
        commit: m.commit,
        priority: m.priority,
        bytes: protobuf::Message::write_to_bytes(&m).unwrap(),
    }).collect()
}

/// Calls `Ready::take_persisted_messages`: takes out the messages that may leave
/// after everything has been stored, encoded as in [`ready_take_messages`].
#[verifier::external_body]
pub(crate) fn ready_take_persisted_messages(ready: &mut raft::Ready) -> (messages: Vec<PeerMessage>)
    ensures
        peer_messages_view(messages@) == ready_view(*old(ready)).persisted_messages,
        ready_view(*final(ready)) == (ReadyView {
            persisted_messages: Seq::empty(),
            ..ready_view(*old(ready))
        }),
        forall|group: RaftGroup| #[trigger]
            ready_phase(group, *final(ready)) == ready_phase(group, *old(ready)),
        forall|i: int|
            0 <= i < messages@.len() ==> peer_message_parsed((#[trigger] messages@[i]).bytes@)
                == Some(messages@[i]@),
{
    ready.take_persisted_messages().into_iter().map(|m| PeerMessage {
        to: m.to,
        msg_type: protobuf::ProtobufEnum::value(&m.get_msg_type()),
        term: m.term,
        commit: m.commit,
        priority: m.priority,
        bytes: protobuf::Message::write_to_bytes(&m).unwrap(),
    }).collect()
}

/// Calls `Ready::take_committed_entries`: takes out the committed entries.
#[verifier::external_body]
pub(crate) fn ready_take_committed(ready: &mut raft::Ready) -> (entries: Vec<LogEntry>)
    ensures
        log_entries_view(entries@) == ready_view(*old(ready)).committed,
        ready_view(*final(ready)) == (ReadyView {
            committed: Seq::empty(),
            ..ready_view(*old(ready))
        }),
        forall|group: RaftGroup| #[trigger]
            ready_phase(group, *final(ready)) == ready_phase(group, *old(ready)),
{
    ready.take_committed_entries().into_iter().map(|e| LogEntry {
        entry_type: protobuf::ProtobufEnum::value(&e.get_entry_type()),
        data: e.data.to_vec(),
    }).collect()
}

/// Compares `Ready::snapshot` with the empty snapshot.
#[verifier::external_body]
pub(crate) fn ready_carries_snapshot(ready: &raft::Ready) -> (carries: bool)
    ensures
        carries == ready_view(*ready).has_snapshot,
{
    *ready.snapshot() != raft::eraftpb::Snapshot::default()
}

/// Asks `Ready::entries` whether there are entries to be stored.
#[verifier::external_body]
pub(crate) fn ready_carries_entries(ready: &raft::Ready) -> (carries: bool)
    ensures
        carries == (ready_view(*ready).entries.len() > 0),
{
    !ready.entries().is_empty()
}

/// Calls `Ready::hs`: the new hard state, where it has changed.
#[verifier::external_body]
pub(crate) fn ready_hard_state(ready: &raft::Ready) -> (hard_state: Option<HardState>)
    ensures
        hard_state == ready_view(*ready).hard_state,
{
    ready.hs().map(|hs| HardState { term: hs.term, vote: hs.vote, commit: hs.commit })
}

/// Calls `MemStorageCore::apply_snapshot` on the group's storage with a copy of
/// the snapshot in `ready`. After a refusal the group is not known to be sound.
#[verifier::external_body]
pub(crate) fn raft_store_snapshot(group: &mut RaftGroup, ready: &raft::Ready) -> (result: Result<
    (),
    raft::Error,
>)
    requires
        raft_sound(*old(group)),
        ready_phase(*old(group), *ready) == ReadyPhase::Taken,
    ensures
        called(*old(group), *final(group), RaftCall::ApplySnapshot { stored: result is Ok }),
        same_standing(*old(group), *final(group)),
        raft_settled(*final(group)) == raft_settled(*old(group)),
        result is Ok ==> raft_sound(*final(group)) && ready_phase(*final(group), *ready)
            == ReadyPhase::Restored,
{
    let snapshot = ready.snapshot().clone();
    let result = group.inner.mut_store().wl().apply_snapshot(snapshot);
    result
}

/// Calls `RawNode::apply_conf_change`. A single change is carried out if, and only
/// if, it is admissible; then the new configuration is handed out. Role and identity of
/// the node stay as they are, even where the change removes the node itself.
#[verifier::external_body]
pub(crate) fn raft_apply_conf_change(group: &mut RaftGroup, change: &ConfChange) -> (result: Result<
    raft::eraftpb::ConfState,
    raft::Error,
>)
    requires
        raft_sound(*old(group)),
    ensures
        called(*old(group), *final(group), RaftCall::ApplyConfChange { change: change@ }),
        same_progress(*old(group), *final(group)),
        raft_settings(*final(group)) == raft_settings(*old(group)),
        raft_is_leader(*final(group)) == raft_is_leader(*old(group)),
        raft_joint(*final(group)) == raft_joint(*old(group)),
        result is Ok <==> change_admissible(
            raft_voters(*old(group)),
            raft_joint(*old(group)),
            change@,
        ),
        raft_voters(*final(group)) == if result is Ok {
            voters_after(raft_voters(*old(group)), change@)
        } else {
            raft_voters(*old(group))
        },
        raft_member(*final(group)) == if result is Ok {
            member_after(raft_settings(*old(group)).id, raft_member(*old(group)), change@)
        } else {
            raft_member(*old(group))
        },
        result matches Ok(state) ==> conf_state_voters(state) == raft_voters(*final(group)),
{
    let mut applied = raft::eraftpb::ConfChange::default();
    applied.set_change_type(
        match change.change_type {
            ConfChangeType::AddNode => raft::eraftpb::ConfChangeType::AddNode,
            ConfChangeType::RemoveNode => raft::eraftpb::ConfChangeType::RemoveNode,
            ConfChangeType::AddLearnerNode => raft::eraftpb::ConfChangeType::AddLearnerNode,
        },
    );
    applied.set_id(change.id);
    applied.set_node_id(change.node_id);
    applied.set_context(change.context.clone().into());
    group.inner.apply_conf_change(&applied)
}

/// Calls `MemStorageCore::set_conf_state` on the group's storage.
#[verifier::external_body]
pub(crate) fn raft_store_conf_state(group: &mut RaftGroup, state: raft::eraftpb::ConfState)
    requires
        conf_state_voters(state) == raft_voters(*old(group)),
    ensures
        called(
            *old(group),
            *final(group),
            RaftCall::SetConfState { voters: conf_state_voters(state) },
        ),
        same_standing(*old(group), *final(group)),
        same_progress(*old(group), *final(group)),
{
    group.inner.mut_store().wl().set_conf_state(state);
}

/// Calls `MemStorageCore::append` on the group's storage with the entries of
/// `ready`. It panics on entries that leave a gap, so a snapshot in the same
/// `Ready` has to be stored first. After a refusal the group is not known to be
/// sound.
#[verifier::external_body]
pub(crate) fn raft_store_entries(group: &mut RaftGroup, ready: &raft::Ready) -> (result: Result<
    (),
    raft::Error,
>)
    requires
        raft_sound(*old(group)),
        ready_phase(*old(group), *ready) == if ready_view(*ready).has_snapshot {
            ReadyPhase::Restored
        } else {
            ReadyPhase::Taken
        },
    ensures
        called(
            *old(group),
            *final(group),
            RaftCall::Append { entries: ready_view(*ready).entries, stored: result is Ok },
        ),
        same_standing(*old(group), *final(group)),
        raft_settled(*final(group)) == raft_settled(*old(group)),
        result is Ok ==> raft_sound(*final(group)) && ready_phase(*final(group), *ready)
            == ReadyPhase::Persisted,
{
    let result = group.inner.mut_store().wl().append(ready.entries());
    result
}

/// Calls `MemStorageCore::set_hardstate` on the group's storage with a copy of the
/// new hard state in `ready`, once the entries of `ready` have been stored.
#[verifier::external_body]
pub(crate) fn raft_store_hard_state(group: &mut RaftGroup, ready: &raft::Ready)
    requires
        ready_phase(*old(group), *ready) == ReadyPhase::Persisted,
        ready_view(*ready).hard_state is Some,
    ensures
        called(
            *old(group),
            *final(group),
            RaftCall::SetHardState { hard_state: ready_view(*ready).hard_state->0 },
        ),
        same_standing(*old(group), *final(group)),
        same_progress(*old(group), *final(group)),
{
    let hard_state = ready.hs().unwrap().clone();
    group.inner.mut_store().wl().set_hardstate(hard_state);
}

/// Calls `RawNode::advance`: gives `ready` back and hands out what became
/// outstanding by that. It panics on a `Ready` that is not the newest one, so
/// only that one is admitted, with its entries stored. It also panics for a leader that
/// is no longer a member of its group and has stored entries. A leader in the middle of
/// a joint change may append an entry that ends the change; otherwise nothing is left to
/// be stored.
#[verifier::external_body]
pub(crate) fn raft_advance(group: &mut RaftGroup, ready: raft::Ready) -> (light: raft::LightReady)
    requires
        raft_sound(*old(group)),
        ready_phase(*old(group), ready) == ReadyPhase::Persisted,
        can_give_back(standing(*old(group)), ready_view(ready)),
    ensures
        called(*old(group), *final(group), RaftCall::Advance { light: light_view(light) }),
        same_standing(*old(group), *final(group)),
        raft_live(*final(group)),
        !raft_joint(*old(group)) ==> raft_stored(*final(group)),
{
    group.inner.advance(ready)
}

/// Calls `LightReady::commit_index`.
#[verifier::external_body]
pub(crate) fn light_commit_index(light: &raft::LightReady) -> (commit: Option<u64>)
    ensures
        commit == light_view(*light).commit_index,
{
    light.commit_index()
}

/// Calls `HardState::set_commit` on the hard state in the group's storage, with the
/// commit index that was handed out just before.
#[verifier::external_body]
pub(crate) fn raft_store_commit(group: &mut RaftGroup, commit: u64)
    requires
        raft_calls(*old(group)).len() > 0,
        raft_calls(*old(group)).last() matches RaftCall::Advance { light } && light.commit_index
            == Some(commit),
    ensures
        called(*old(group), *final(group), RaftCall::SetCommit { commit }),
        same_standing(*old(group), *final(group)),
        same_progress(*old(group), *final(group)),
{
    group.inner.mut_store().wl().mut_hard_state().set_commit(commit);
}

/// Calls `LightReady::take_messages`: takes out the messages, encoded as in
/// [`ready_take_messages`].
#[verifier::external_body]
pub(crate) fn light_take_messages(light: &mut raft::LightReady) -> (messages: Vec<PeerMessage>)
    ensures
        peer_messages_view(messages@) == light_view(*old(light)).messages,
        light_view(*final(light)) == (LightView {
            messages: Seq::empty(),
            ..light_view(*old(light))
        }),
        forall|i: int|
            0 <= i < messages@.len() ==> peer_message_parsed((#[trigger] messages@[i]).bytes@)
                == Some(messages@[i]@),
{
    light.take_messages().into_iter().map(|m| PeerMessage {
        to: m.to,
        msg_type: protobuf::ProtobufEnum::value(&m.get_msg_type()),
        term: m.term,
        commit: m.commit,
        priority: m.priority,
        bytes: protobuf::Message::write_to_bytes(&m).unwrap(),
    }).collect()
}

/// Calls `LightReady::take_committed_entries`: takes out the committed entries.
#[verifier::external_body]
pub(crate) fn light_take_committed(light: &mut raft::LightReady) -> (entries: Vec<LogEntry>)
    ensures
        log_entries_view(entries@) == light_view(*old(light)).committed,
        light_view(*final(light)) == (LightView {
            committed: Seq::empty(),
            ..light_view(*old(light))
        }),
{
    light.take_committed_entries().into_iter().map(|e| LogEntry {
        entry_type: protobuf::ProtobufEnum::value(&e.get_entry_type()),
        data: e.data.to_vec(),
    }).collect()
}

/// Calls `RawNode::advance_apply`: every committed entry that was handed out has
/// been applied. Only a leader in the middle of a joint change may append an entry.
#[verifier::external_body]
pub(crate) fn raft_advance_apply(group: &mut RaftGroup)
    requires
        raft_live(*old(group)),
    ensures
        called(*old(group), *final(group), RaftCall::AdvanceApply),
        same_standing(*old(group), *final(group)),
        raft_live(*final(group)),
        !raft_joint(*old(group)) ==> raft_stored(*final(group)) == raft_stored(*old(group)),
{
    group.inner.advance_apply();
}

/// Calls `Message::merge_from_bytes` on an empty configuration change.
#[verifier::external_body]
pub(crate) fn decode_conf_change(data: &Vec<u8>) -> (change: Option<ConfChange>)
    ensures
        match change {
            Some(c) => conf_change_parsed(data@) == Some(c@),
            None => conf_change_parsed(data@) is None,
        },
{
    let mut parsed = raft::eraftpb::ConfChange::default();
    protobuf::Message::merge_from_bytes(&mut parsed, data).ok()?;
    let change_type = match parsed.get_change_type() {
        raft::eraftpb::ConfChangeType::AddNode => ConfChangeType::AddNode,
        raft::eraftpb::ConfChangeType::RemoveNode => ConfChangeType::RemoveNode,
        raft::eraftpb::ConfChangeType::AddLearnerNode => ConfChangeType::AddLearnerNode,
    };
    let context = parsed.get_context().to_vec();
    Some(ConfChange { id: parsed.id, change_type, node_id: parsed.node_id, context })
}

/// Calls `Message::parse_from_bytes` for the message that a peer sent.
#[verifier::external_body]
pub(crate) fn decode_peer_message(bytes: Vec<u8>) -> (message: Option<PeerMessage>)
    ensures
        match message {
            Some(m) => m.bytes@ == bytes@ && peer_message_parsed(bytes@) == Some(m@),
            None => peer_message_parsed(bytes@) is None,
        },
{
    let parsed: raft::eraftpb::Message = protobuf::Message::parse_from_bytes(&bytes).ok()?;
    let msg_type = protobuf::ProtobufEnum::value(&parsed.get_msg_type());
    let (term, commit, priority) = (parsed.term, parsed.commit, parsed.priority);
    Some(PeerMessage { to: parsed.to, msg_type, term, commit, priority, bytes })
}

} // verus!
