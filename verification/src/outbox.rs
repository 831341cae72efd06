//! What a round leaves to be done outside: messages to peers and replies to
//! proposers, in the order in which they have to leave.

use crate::channel::{Outcome, Refused};
use crate::consensus::{PeerMessage, PeerMessageView};
use crate::message::MessageView;
use std::sync::mpsc::SyncSender;
use vstd::prelude::*;

verus! {

/// Something that has to leave the node.
pub enum Effect {
    /// These messages go to the peer `to`.
    Send { to: u64, messages: Vec<PeerMessage> },
    /// The proposer at the other end of `reply_to` learns the outcome.
    Reply { reply_to: SyncSender<Outcome>, outcome: Outcome },
}

/// An effect as a value.
pub enum EffectView {
    Send { to: u64, messages: Seq<PeerMessageView> },
    Reply { reply_to: SyncSender<Outcome>, outcome: Result<Option<MessageView>, Refused> },
}

impl View for Effect {
    type V = EffectView;

    open spec fn view(&self) -> EffectView {
        match *self {
            Effect::Send { to, messages } => EffectView::Send {
                to,
                messages: crate::consensus::peer_messages_view(messages@),
            },
            Effect::Reply { reply_to, outcome } => EffectView::Reply {
                reply_to,
                outcome: crate::channel::outcome_view(outcome),
            },
        }
    }
}

/// Effects as values.
pub open spec fn effects_view(effects: Seq<Effect>) -> Seq<EffectView> {
    effects.map_values(|e: Effect| e@)
}

/// The messages for the node `to`, in their order.
pub open spec fn addressed(messages: Seq<PeerMessageView>, to: u64) -> Seq<PeerMessageView> {
    messages.filter(|m: PeerMessageView| m.to == to)
}

/// The batches in which messages leave: one for each peer to which something is
/// addressed, in the order of the peers.
pub open spec fn batches(messages: Seq<PeerMessageView>, peers: Seq<u64>) -> Seq<EffectView>
    decreases peers.len(),
{
    if peers.len() == 0 {
        Seq::empty()
    } else {
        let before = batches(messages, peers.drop_last());
        let batch = addressed(messages, peers.last());
        if batch.len() == 0 {
            before
        } else {
            before.push(EffectView::Send { to: peers.last(), messages: batch })
        }
    }
}

/// The plain fields of a message are those that its bytes encode.
pub open spec fn message_wf(message: PeerMessageView) -> bool {
    crate::consensus::peer_message_parsed(message.bytes) == Some(message)
}

/// Every message that leaves can be read again from its bytes.
pub open spec fn outgoing_wf(effects: Seq<EffectView>) -> bool {
    forall|i: int, j: int|
        0 <= i < effects.len() && effects[i] is Send && 0 <= j < effects[i]->messages.len()
            ==> message_wf(#[trigger] effects[i]->messages[j])
}

/// Batches of messages that can be read again can be read again.
pub proof fn batches_stay_wf(messages: Seq<PeerMessageView>, peers: Seq<u64>)
    requires
        forall|i: int| 0 <= i < messages.len() ==> message_wf(#[trigger] messages[i]),
    ensures
        outgoing_wf(batches(messages, peers)),
    decreases peers.len(),
{
    if peers.len() > 0 {
        batches_stay_wf(messages, peers.drop_last());
        let batch = addressed(messages, peers.last());
        assert forall|j: int| 0 <= j < batch.len() implies message_wf(#[trigger] batch[j]) by {
            addressed_is_part(messages, peers.last(), j);
        }
    }
}

proof fn addressed_is_part(messages: Seq<PeerMessageView>, to: u64, j: int)
    requires
        0 <= j < addressed(messages, to).len(),
    ensures
        exists|k: int|
            0 <= k < messages.len() && #[trigger] messages[k] == addressed(messages, to)[j],
    decreases messages.len(),
{
    reveal(Seq::filter);
    if messages.len() > 0 {
        let shorter = messages.drop_last();
        addressed_push(shorter, messages.last(), to);
        assert(shorter.push(messages.last()) =~= messages);
        if j < addressed(shorter, to).len() {
            addressed_is_part(shorter, to, j);
            let k = choose|k: int|
                0 <= k < shorter.len() && #[trigger] shorter[k] == addressed(shorter, to)[j];
            assert(messages[k] == addressed(messages, to)[j]);
        } else {
            assert(messages[messages.len() - 1] == addressed(messages, to)[j]);
        }
    }
}

proof fn addressed_push(messages: Seq<PeerMessageView>, message: PeerMessageView, to: u64)
    ensures
        addressed(messages.push(message), to) == if message.to == to {
            addressed(messages, to).push(message)
        } else {
            addressed(messages, to)
        },
{
    reveal(Seq::filter);
    assert(messages.push(message).drop_last() =~= messages);
}

/// Where the peer `to` stands among `peers`.
fn index_of(peers: &Vec<u64>, to: u64) -> (at: Option<usize>)
    requires
        peers@.no_duplicates(),
    ensures
        match at {
            Some(i) => i < peers@.len() && peers@[i as int] == to && forall|k: int|
                0 <= k < peers@.len() && k != i ==> #[trigger] peers@[k] != to,
            None => forall|k: int| 0 <= k < peers@.len() ==> #[trigger] peers@[k] != to,
        },
{
    let mut i: usize = 0;
    while i < peers.len()
        invariant
            i <= peers@.len(),
            peers@.no_duplicates(),
            forall|k: int| 0 <= k < i ==> peers@[k] != to,
        decreases peers@.len() - i,
    {
        if peers[i] == to {
            return Some(i);
        }
        i = i + 1;
    }
    None
}

/// Divides messages by their destination. What is addressed to no peer is dropped.
///
/// The peers are the keys of the map from peers to connections.
pub fn handle_messages(messages: Vec<PeerMessage>, peers: &Vec<u64>) -> (effects: Vec<Effect>)
    requires
        peers@.no_duplicates(),
    ensures
        effects_view(effects@) == batches(
            crate::consensus::peer_messages_view(messages@),
            peers@,
        ),
{
    let ghost all = crate::consensus::peer_messages_view(messages@);
    let mut groups: Vec<Vec<PeerMessage>> = Vec::new();
    let mut n: usize = 0;
    while n < peers.len()
        invariant
            n <= peers@.len(),
            groups@.len() == n,
            forall|k: int| 0 <= k < n ==> (#[trigger] groups@[k])@.len() == 0,
        decreases peers@.len() - n,
    {
        groups.push(Vec::new());
        n = n + 1;
    }
    proof {
        reveal(Seq::filter);
        assert forall|k: int| 0 <= k < peers@.len() implies crate::consensus::peer_messages_view(
            (#[trigger] groups@[k])@,
        ) == addressed(all.take(0), peers@[k]) by {
            assert(crate::consensus::peer_messages_view(groups@[k]@) =~= addressed(
                all.take(0),
                peers@[k],
            ));
        }
    }
    for message in it: messages
        invariant
            peers@.no_duplicates(),
            groups@.len() == peers@.len(),
            it.seq() == messages@,
            all == crate::consensus::peer_messages_view(messages@),
            forall|k: int|
                0 <= k < peers@.len() ==> crate::consensus::peer_messages_view(
                    (#[trigger] groups@[k])@,
                ) == addressed(all.take(it.index()), peers@[k]),
    {
        let ghost before = groups@;
        let ghost done = all.take(it.index());
        assert(all.take(it.index() + 1) =~= done.push(message@));
        match index_of(peers, message.to) {
            Some(at) => {
                groups[at].push(message);
                proof {
                    assert forall|k: int|
                        0 <= k < peers@.len() implies crate::consensus::peer_messages_view(
                        (#[trigger] groups@[k])@,
                    ) == addressed(done.push(message@), peers@[k]) by {
                        addressed_push(done, message@, peers@[k]);
                        assert(crate::consensus::peer_messages_view(before[k]@) == addressed(
                            done,
                            peers@[k],
                        ));
                        if k == at {
                            assert(crate::consensus::peer_messages_view(groups@[k]@)
                                =~= crate::consensus::peer_messages_view(before[k]@).push(message@));
                        }
                    }
                }
            },
            None => {
                proof {
                    assert forall|k: int|
                        0 <= k < peers@.len() implies crate::consensus::peer_messages_view(
                        (#[trigger] groups@[k])@,
                    ) == addressed(done.push(message@), peers@[k]) by {
                        addressed_push(done, message@, peers@[k]);
                    }
                }
            },
        }
    }
    assert(all.take(messages@.len() as int) =~= all);
    let mut effects: Vec<Effect> = Vec::new();
    let ghost filled = groups@;
    let mut at: usize = 0;
    assert(effects_view(effects@) =~= batches(all, peers@.take(0)));
    for batch in it: groups
        invariant
            it.seq() == filled,
            filled.len() == peers@.len(),
            at == it.index(),
            forall|k: int|
                0 <= k < peers@.len() ==> crate::consensus::peer_messages_view(
                    (#[trigger] filled[k])@,
                ) == addressed(all, peers@[k]),
            effects_view(effects@) == batches(all, peers@.take(at as int)),
    {
        let ghost before = effects@;
        assert(batch@ == filled[at as int]@);
        assert(at < peers.len());
        assert(peers@.take(at + 1).drop_last() =~= peers@.take(at as int));
        if batch.len() > 0 {
            effects.push(Effect::Send { to: peers[at], messages: batch });
            assert(effects_view(effects@) =~= effects_view(before).push(effects@.last()@));
        }
        at = at + 1;
    }
    assert(peers@.take(peers@.len() as int) =~= peers@);
    effects
}

} // verus!
