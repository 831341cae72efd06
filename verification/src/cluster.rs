//! The cluster: where its nodes are found, which of them leads at first, and how
//! the others become voters.
//!
//! Every broker has a port for clients, and a port for raft a fixed distance above
//! it. The raft ports of a cluster are consecutive, and the node on the first of
//! them is the first leader.

use crate::channel::{Outcome, Refused};
use crate::consensus::{ConfChange, ConfChangeType, ConfChangeView};
use crate::message::MessageView;
use crate::proposal::Proposal;
use crate::text::{read_decimal, write_decimal};
use std::collections::VecDeque;
use std::sync::mpsc::Receiver;
use vstd::prelude::*;
use vstd::string::*;

verus! {

/// The raft port of the node that leads at first.
pub const LEADER_NODE: u64 = 6555;

/// How far the raft port of a broker lies above its port for clients.
pub const RAFT_PORT_OFFSET: u64 = 1000;

/// The identity of the node that leads at first.
pub const LEADER_ID: u64 = 1;

/// A host and a port on it, as a value.
pub struct EndpointView {
    pub host: Seq<char>,
    pub port: u64,
}

/// A host and a port on it.
#[derive(Debug)]
pub struct Endpoint {
    pub host: String,
    pub port: u64,
}

impl View for Endpoint {
    type V = EndpointView;

    open spec fn view(&self) -> EndpointView {
        EndpointView { host: self.host@, port: self.port }
    }
}

/// The position of the first colon from `start` on, or the length if there is none.
pub open spec fn colon_from(text: Seq<char>, start: int) -> int
    decreases text.len() - start,
{
    if start >= text.len() {
        text.len() as int
    } else if text[start] == ':' {
        start
    } else {
        colon_from(text, start + 1)
    }
}

/// Where a broker that clients reach at `address` speaks raft: on the host before
/// the first colon, on the port after it (up to the next colon, if there is one),
/// moved up by the offset. There is no such place if there is no colon, if what
/// follows is no number or if the port moved up does not fit.
pub open spec fn raft_endpoint(address: Seq<char>) -> Option<EndpointView> {
    let first = colon_from(address, 0);
    if first == address.len() {
        None
    } else {
        match crate::text::number_in(
            address.subrange(first + 1, colon_from(address, first + 1)),
        ) {
            Some(port) => if port + RAFT_PORT_OFFSET <= u64::MAX {
                Some(
                    EndpointView {
                        host: address.take(first),
                        port: (port + RAFT_PORT_OFFSET) as u64,
                    },
                )
            } else {
                None
            },
            None => None,
        }
    }
}

/// The address of a port on a host.
pub open spec fn address_of(host: Seq<char>, port: u64) -> Seq<char> {
    host + seq![':'] + crate::text::decimal(port as nat)
}

/// The raft ports of the other nodes in a cluster of `n` nodes, in ascending order.
pub open spec fn peer_ports(n: nat, own: u64) -> Seq<u64>
    decreases n,
{
    if n == 0 {
        Seq::empty()
    } else {
        let before = peer_ports((n - 1) as nat, own);
        let port = (LEADER_NODE + n - 1) as u64;
        if port == own {
            before
        } else {
            before.push(port)
        }
    }
}

/// The identity of the node on a raft port: the ports are numbered from 1 on. A
/// port below the first belongs to no node.
pub open spec fn id_of_port(port: u64) -> Option<u64> {
    if port < LEADER_NODE {
        None
    } else {
        Some((port - LEADER_NODE + 1) as u64)
    }
}

/// The connections to peers can be paired up: whoever connected to this node is a
/// node of the cluster to which this node has connected.
pub open spec fn connections_match(inbound: Seq<u64>, outbound: Seq<u64>) -> bool {
    forall|i: int|
        0 <= i < inbound.len() ==> id_of_port(#[trigger] inbound[i]) is Some && outbound.contains(
            inbound[i],
        )
}

/// The change that makes a node a voter.
pub open spec fn addition(id: u64) -> ConfChangeView {
    ConfChangeView {
        id: 0,
        change_type: ConfChangeType::AddNode,
        node_id: id,
        context: Seq::empty(),
    }
}

/// The changes that make the nodes from 2 to `n` voters, in ascending order.
pub open spec fn additions(n: nat) -> Seq<ConfChangeView>
    recommends
        n <= u64::MAX,
{
    Seq::new(if n >= 2 { (n - 1) as nat } else { 0 }, |i: int| addition((i + 2) as u64))
}

/// The voters after changes, one after the other.
pub open spec fn voters_after_all(voters: Set<u64>, changes: Seq<ConfChangeView>) -> Set<u64>
    decreases changes.len(),
{
    if changes.len() == 0 {
        voters
    } else {
        crate::consensus::voters_after(
            voters_after_all(voters, changes.drop_last()),
            changes.last(),
        )
    }
}

/// The position that [`colon_from`] gives is that of the first colon.
proof fn colon_is_first(text: Seq<char>, start: int)
    requires
        0 <= start <= text.len(),
    ensures
        start <= colon_from(text, start) <= text.len(),
        colon_from(text, start) < text.len() ==> text[colon_from(text, start)] == ':',
        forall|k: int| start <= k < colon_from(text, start) ==> text[k] != ':',
    decreases text.len() - start,
{
    if start < text.len() && text[start] != ':' {
        colon_is_first(text, start + 1);
    }
}

/// The first colon from `start` on is where there is one and none comes before it.
proof fn colon_is_at(text: Seq<char>, start: int, at: int)
    requires
        0 <= start <= at <= text.len(),
        at < text.len() ==> text[at] == ':',
        forall|k: int| start <= k < at ==> text[k] != ':',
    ensures
        colon_from(text, start) == at,
    decreases at - start,
{
    if start < at {
        colon_is_at(text, start + 1, at);
    }
}

/// A broker whose address is written with its host and its port for clients speaks
/// raft on that host, on the port moved up. A host that holds a colon is cut off
/// there, and one port is too high to be moved up; these are left out.
pub proof fn written_address_is_read(host: Seq<char>, port: u64)
    requires
        !host.contains(':'),
        port + RAFT_PORT_OFFSET <= u64::MAX,
    ensures
        raft_endpoint(address_of(host, port)) == Some(
            EndpointView { host, port: (port + RAFT_PORT_OFFSET) as u64 },
        ),
{
    let address = address_of(host, port);
    let digits = crate::text::decimal(port as nat);
    let first = host.len() as int;
    crate::text::written_number_is_read(port);
    crate::text::decimal_is_digits(port as nat);
    assert forall|k: int| 0 <= k < first implies address[k] != ':' by {
        assert(address[k] == host[k]);
        assert(host.contains(host[k]));
    }
    colon_is_at(address, 0, first);
    assert forall|k: int| first + 1 <= k < address.len() implies address[k] != ':' by {
        assert(address[k] == digits[k - first - 1]);
        assert(crate::text::is_digit(digits[k - first - 1]));
    }
    colon_is_at(address, first + 1, address.len() as int);
    assert(address.subrange(first + 1, address.len() as int) =~= digits);
    assert(address.take(first) =~= host);
}

/// The peers of a node are exactly the other ports of its cluster, in ascending
/// order.
pub proof fn peers_are_the_others(n: nat, own: u64)
    requires
        n <= u32::MAX,
    ensures
        forall|port: u64| #[trigger]
            peer_ports(n, own).contains(port) <==> LEADER_NODE <= port < LEADER_NODE + n && port
                != own,
        forall|i: int, j: int|
            0 <= i < j < peer_ports(n, own).len() ==> peer_ports(n, own)[i] < peer_ports(n, own)[j],
    decreases n,
{
    if n > 0 {
        let before = peer_ports((n - 1) as nat, own);
        let all = peer_ports(n, own);
        let last = (LEADER_NODE + n - 1) as u64;
        peers_are_the_others((n - 1) as nat, own);
        assert forall|port: u64| #[trigger]
            all.contains(port) <==> LEADER_NODE <= port < LEADER_NODE + n && port != own by {
            if last != own {
                assert(all[before.len() as int] == last);
                if before.contains(port) {
                    let k = choose|k: int| 0 <= k < before.len() && before[k] == port;
                    assert(all[k] == port);
                }
                if all.contains(port) && port != last {
                    let k = choose|k: int| 0 <= k < all.len() && all[k] == port;
                    assert(before[k] == port);
                }
            }
            assert(before.contains(port) <==> LEADER_NODE <= port < LEADER_NODE + n - 1 && port
                != own);
        }
        assert forall|i: int, j: int| 0 <= i < j < all.len() implies all[i] < all[j] by {
            assert(i < before.len());
            assert(before.contains(before[i]));
        }
    }
}

/// A node of the cluster connects to one peer less than there are nodes, which is
/// also the number of peers that connect to it.
pub proof fn peers_are_counted(n: nat, own: u64)
    requires
        n <= u32::MAX,
    ensures
        peer_ports(n, own).len() == if LEADER_NODE <= own < LEADER_NODE + n {
            (n - 1) as nat
        } else {
            n
        },
    decreases n,
{
    if n > 0 {
        peers_are_counted((n - 1) as nat, own);
    }
}

/// The nodes of a cluster have the identities from 1 to their number, each node its
/// own, and the node that leads at first has the first one.
pub proof fn identities_are_consecutive(n: nat)
    requires
        n <= u32::MAX,
    ensures
        id_of_port(LEADER_NODE) == Some(LEADER_ID),
        forall|port: u64|
            LEADER_NODE <= port < LEADER_NODE + n ==> (#[trigger] id_of_port(port) matches Some(id)
                && 1 <= id <= n),
        forall|p: u64, q: u64|
            p != q && #[trigger] id_of_port(p) is Some ==> #[trigger] id_of_port(q)
                != id_of_port(p),
        forall|id: u64|
            1 <= id <= n ==> #[trigger] id_of_port((LEADER_NODE + id - 1) as u64) == Some(id),
{
}

/// The changes that the first leader proposes make every node of the cluster a
/// voter, and no other.
pub proof fn additions_make_cluster(n: nat)
    requires
        1 <= n <= u32::MAX,
    ensures
        forall|id: u64| #[trigger]
            voters_after_all(set![LEADER_ID], additions(n)).contains(id) <==> 1 <= id <= n,
    decreases n,
{
    if n >= 2 {
        additions_make_cluster((n - 1) as nat);
        assert(additions(n).drop_last() =~= additions((n - 1) as nat));
        assert(additions(n).last() == addition(n as u64));
        let before = voters_after_all(set![LEADER_ID], additions((n - 1) as nat));
        assert(voters_after_all(set![LEADER_ID], additions(n)) == before.insert(n as u64));
        assert forall|id: u64| #[trigger]
            voters_after_all(set![LEADER_ID], additions(n)).contains(id) <==> 1 <= id <= n by {
            assert(before.contains(id) <==> 1 <= id <= n - 1);
        }
    } else {
        assert(additions(n) =~= Seq::empty());
    }
}

/// Each of those changes can be carried out when its turn comes.
pub proof fn additions_are_admissible(n: nat, i: int)
    requires
        1 <= n <= u32::MAX,
        0 <= i < additions(n).len(),
    ensures
        crate::consensus::change_admissible(
            voters_after_all(set![LEADER_ID], additions(n).take(i)),
            false,
            additions(n)[i],
        ),
{
    let reached = (i + 1) as nat;
    assert(additions(n).take(i) =~= additions(reached));
    additions_make_cluster(reached);
    let voters = voters_after_all(set![LEADER_ID], additions(reached));
    assert(voters.contains(LEADER_ID));
    let after = crate::consensus::voters_after(voters, additions(n)[i]);
    assert(after.contains(LEADER_ID));
}

/// Finds the first colon from `start` on.
fn find_colon(text: &str, start: usize) -> (at: usize)
    requires
        start <= text@.len(),
        text@.len() <= usize::MAX,
    ensures
        at == colon_from(text@, start as int),
        start <= at <= text@.len(),
{
    let len = text.unicode_len();
    let mut at: usize = start;
    while at < len
        invariant
            start <= at <= len,
            len == text@.len(),
            colon_from(text@, start as int) == colon_from(text@, at as int),
        decreases len - at,
    {
        if text.get_char(at) == ':' {
            return at;
        }
        at = at + 1;
    }
    at
}

/// Where a broker that clients reach at `address` speaks raft.
pub fn read_endpoint(address: &str) -> (endpoint: Option<Endpoint>)
    ensures
        match endpoint {
            Some(e) => raft_endpoint(address@) == Some(e@),
            None => raft_endpoint(address@) is None,
        },
{
    let len = address.unicode_len();
    let first = find_colon(address, 0);
    if first == len {
        return None;
    }
    let second = find_colon(address, first + 1);
    match read_decimal(address, first + 1, second) {
        Some(port) => if port <= u64::MAX - RAFT_PORT_OFFSET {
            let host = address.substring_char(0, first);
            assert(host@ =~= address@.take(first as int));
            Some(Endpoint { host: host.to_string(), port: port + RAFT_PORT_OFFSET })
        } else {
            None
        },
        None => None,
    }
}

/// Writes the address of a port on a host.
pub fn write_address(host: &str, port: u64) -> (address: String)
    ensures
        address@ == address_of(host@, port),
{
    proof {
        reveal_strlit(":");
    }
    let mut address = host.to_string();
    address.append(":");
    let digits = write_decimal(port);
    address.append(digits.as_str());
    assert(address@ =~= address_of(host@, port));
    address
}

/// The raft ports to which a node has to connect.
pub fn ports_to_connect(num_nodes: u32, own: u64) -> (ports: Vec<u64>)
    ensures
        ports@ == peer_ports(num_nodes as nat, own),
{
    let mut ports: Vec<u64> = Vec::new();
    let mut n: u32 = 0;
    while n < num_nodes
        invariant
            n <= num_nodes,
            ports@ == peer_ports(n as nat, own),
        decreases num_nodes - n,
    {
        let port: u64 = LEADER_NODE + n as u64;
        if port != own {
            ports.push(port);
        }
        n = n + 1;
    }
    ports
}

/// The number of peers that connect to a node.
pub fn connections_to_accept(num_nodes: u32) -> (count: u32)
    ensures
        count == if num_nodes == 0 {
            0
        } else {
            num_nodes - 1
        },
{
    if num_nodes == 0 {
        0
    } else {
        num_nodes - 1
    }
}

/// The identity of the node on a raft port.
pub fn peer_id(port: u64) -> (id: Option<u64>)
    ensures
        id == id_of_port(port),
{
    if port < LEADER_NODE {
        None
    } else {
        Some(port - LEADER_NODE + 1)
    }
}

/// Pairs the connections of the peers with those to them: the identities of the
/// peers that connected, in their order, if each of them has its counterpart.
pub fn pair_connections(inbound: &Vec<u64>, outbound: &Vec<u64>) -> (ids: Option<Vec<u64>>)
    ensures
        ids is Some <==> connections_match(inbound@, outbound@),
        ids matches Some(ids) ==> ids@.len() == inbound@.len() && forall|i: int|
            0 <= i < ids@.len() ==> id_of_port(inbound@[i]) == Some(#[trigger] ids@[i]),
{
    let mut ids: Vec<u64> = Vec::new();
    let mut i: usize = 0;
    while i < inbound.len()
        invariant
            i <= inbound@.len(),
            ids@.len() == i,
            forall|k: int|
                0 <= k < i ==> id_of_port(inbound@[k]) == Some(#[trigger] ids@[k])
                    && outbound@.contains(inbound@[k]),
        decreases inbound@.len() - i,
    {
        match peer_id(inbound[i]) {
            Some(id) => if contains_port(outbound, inbound[i]) {
                ids.push(id);
            } else {
                return None;
            },
            None => {
                return None;
            },
        }
        i = i + 1;
    }
    assert forall|k: int| 0 <= k < inbound@.len() implies id_of_port(
        #[trigger] inbound@[k],
    ) is Some && outbound@.contains(inbound@[k]) by {
        assert(id_of_port(inbound@[k]) == Some(ids@[k]));
    }
    Some(ids)
}

/// Whether a port is among others.
fn contains_port(ports: &Vec<u64>, port: u64) -> (found: bool)
    ensures
        found == ports@.contains(port),
{
    let mut i: usize = 0;
    while i < ports.len()
        invariant
            i <= ports@.len(),
            forall|k: int| 0 <= k < i ==> ports@[k] != port,
        decreases ports@.len() - i,
    {
        if ports[i] == port {
            return true;
        }
        i = i + 1;
    }
    false
}

/// Whether the node on a raft port leads at first.
pub fn leads_at_first(port: u64) -> (leads: bool)
    ensures
        leads == (port == 6555),
{
    port == LEADER_NODE
}

/// The state of the first leader while it makes the other nodes voters.
pub struct Enrollment {
    /// The node whose turn it is.
    pub next: u64,
    /// The number of nodes in the cluster.
    pub num_nodes: u64,
    /// Whether a proposal of its own has not been answered yet.
    pub waiting: bool,
}

/// Whether an outcome settles a change: it was applied.
pub open spec fn settles(outcome: Result<Option<MessageView>, Refused>) -> bool {
    outcome == Ok::<Option<MessageView>, Refused>(None)
}

impl Enrollment {
    /// The changes that are still to be carried out.
    pub open spec fn remaining(&self) -> Seq<ConfChangeView> {
        if self.next > self.num_nodes {
            Seq::empty()
        } else {
            additions(self.num_nodes as nat).skip(self.next - 2)
        }
    }

    /// The node whose turn it is comes after the first leader, and at most one past
    /// the end. Whoever waits has something left to do.
    pub open spec fn wf(&self) -> bool {
        &&& 2 <= self.next
        &&& self.num_nodes <= u32::MAX
        &&& self.next <= self.num_nodes + 1 || self.next == 2
        &&& self.waiting ==> self.remaining().len() > 0
    }

    /// The beginning: every node but the first leader is still to come.
    pub fn new(num_nodes: u32) -> (enrollment: Self)
        ensures
            enrollment.wf(),
            !enrollment.waiting,
            enrollment.remaining() == additions(num_nodes as nat),
    {
        let enrollment = Enrollment { next: 2, num_nodes: num_nodes as u64, waiting: false };
        assert(enrollment.remaining() =~= additions(num_nodes as nat));
        enrollment
    }

    /// The change that has to be proposed next, if one is left.
    pub fn change(&self) -> (change: Option<ConfChange>)
        requires
            self.wf(),
        ensures
            match change {
                Some(c) => self.remaining().len() > 0 && c@ == self.remaining()[0],
                None => self.remaining().len() == 0,
            },
    {
        if self.next > self.num_nodes {
            None
        } else {
            let change = ConfChange {
                id: 0,
                change_type: ConfChangeType::AddNode,
                node_id: self.next,
                context: Vec::new(),
            };
            assert(change@.context =~= Seq::empty());
            Some(change)
        }
    }

    /// Puts the change that is due behind the proposals that wait, if one is left, and
    /// gives the end on which its outcome comes. Until then no other one is proposed.
    pub fn propose_next(&mut self, proposals: &mut VecDeque<Proposal>) -> (outcome: Option<
        Receiver<Outcome>,
    >)
        requires
            old(self).wf(),
            !old(self).waiting,
        ensures
            final(self).wf(),
            final(self).remaining() == old(self).remaining(),
            outcome is Some <==> old(self).remaining().len() > 0,
            final(self).waiting == (outcome is Some),
            match outcome {
                Some(receiver) => {
                    let proposed = final(proposals)@.last();
                    &&& final(proposals)@ == old(proposals)@.push(proposed)
                    &&& proposed.normal is None
                    &&& proposed.conf_change is Some && proposed.conf_change->0@ == old(
                        self,
                    ).remaining()[0]
                    &&& proposed.transfer_leader is None
                    &&& proposed.proposed == 0
                    &&& crate::channel::channel_of(receiver) == proposed.propose_success
                    &&& crate::channel::channel_bound(proposed.propose_success) == 1
                },
                None => final(proposals)@ == old(proposals)@,
            },
    {
        match self.change() {
            Some(change) => {
                let (proposal, receiver) = Proposal::conf_change(&change);
                proposals.push_back(proposal);
                self.waiting = true;
                Some(receiver)
            },
            None => None,
        }
    }

    /// Takes the outcome of the change that was proposed. If it was applied the next node
    /// has its turn. If it was refused, or answered with a message, the same change is due
    /// again, after a while; then the result is `true`.
    pub fn on_reply(&mut self, outcome: &Outcome) -> (again: bool)
        requires
            old(self).wf(),
            old(self).waiting,
        ensures
            final(self).wf(),
            !final(self).waiting,
            again == !settles(crate::channel::outcome_view(*outcome)),
            final(self).remaining() == if again {
                old(self).remaining()
            } else {
                old(self).remaining().drop_first()
            },
    {
        self.waiting = false;
        match outcome {
            Ok(None) => {
                self.next = self.next + 1;
                assert(self.remaining() =~= old(self).remaining().drop_first());
                false
            },
            _ => true,
        }
    }
}

/// The changes that are left after outcomes, one for each proposal that was made.
pub open spec fn left_after(
    changes: Seq<ConfChangeView>,
    outcomes: Seq<Result<Option<MessageView>, Refused>>,
) -> Seq<ConfChangeView>
    decreases outcomes.len(),
{
    if outcomes.len() == 0 {
        changes
    } else {
        let left = left_after(changes, outcomes.drop_last());
        if settles(outcomes.last()) && left.len() > 0 {
            left.drop_first()
        } else {
            left
        }
    }
}

/// The number of outcomes that settle a change.
pub open spec fn settled(outcomes: Seq<Result<Option<MessageView>, Refused>>) -> nat
    decreases outcomes.len(),
{
    if outcomes.len() == 0 {
        0
    } else if settles(outcomes.last()) {
        settled(outcomes.drop_last()) + 1
    } else {
        settled(outcomes.drop_last())
    }
}

/// Over a whole run the changes come in order: after any outcomes, the change that is due
/// is that for the node whose number is two more than the number of changes that were
/// applied, as long as there is such a node. So all nodes lie between 2 and the number of
/// nodes, a node comes again until its change was applied, and the next one only then.
pub proof fn enrollment_keeps_order(
    n: nat,
    outcomes: Seq<Result<Option<MessageView>, Refused>>,
)
    requires
        n <= u32::MAX,
    ensures
        ({
            let left = left_after(additions(n), outcomes);
            let id = settled(outcomes) + 2;
            &&& left.len() > 0 <==> id <= n
            &&& left.len() > 0 ==> left[0] == addition(id as u64)
            &&& left.len() > 0 ==> 2 <= left[0].node_id <= n
            &&& id <= n ==> left == additions(n).skip(settled(outcomes) as int)
        }),
    decreases outcomes.len(),
{
    if outcomes.len() == 0 {
        assert(additions(n).skip(0) =~= additions(n));
    } else {
        enrollment_keeps_order(n, outcomes.drop_last());
        let before = left_after(additions(n), outcomes.drop_last());
        if before.len() > 0 {
            assert(before.drop_first() =~= additions(n).skip(
                settled(outcomes.drop_last()) as int + 1,
            ));
        }
    }
}

/// From one proposal to the next: after a change was applied the next node is due, and
/// after any other outcome the same one again.
pub proof fn next_node_waits(
    n: nat,
    outcomes: Seq<Result<Option<MessageView>, Refused>>,
    outcome: Result<Option<MessageView>, Refused>,
)
    requires
        n <= u32::MAX,
        left_after(additions(n), outcomes).len() > 0,
        left_after(additions(n), outcomes.push(outcome)).len() > 0,
    ensures
        left_after(additions(n), outcomes.push(outcome))[0].node_id == left_after(
            additions(n),
            outcomes,
        )[0].node_id + if settles(outcome) {
            1int
        } else {
            0int
        },
{
    enrollment_keeps_order(n, outcomes);
    enrollment_keeps_order(n, outcomes.push(outcome));
    assert(outcomes.push(outcome).drop_last() =~= outcomes);
}

} // verus!
