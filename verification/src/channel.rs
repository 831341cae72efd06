//! The channel on which the outcome of a proposal comes back.

use crate::message::{Message, MessageView};
use std::sync::mpsc::{Receiver, SyncSender};
use vstd::prelude::*;

verus! {

/// A proposal came to nothing: it was not put into the log.
#[derive(Clone, Copy, Debug, PartialEq, Eq, Structural)]
pub struct Refused;

/// What a proposer learns: what its proposal brought about once it was applied, or
/// that it was refused.
pub type Outcome = Result<Option<Message>, Refused>;

/// An outcome as a value.
pub open spec fn outcome_view(outcome: Outcome) -> Result<Option<MessageView>, Refused> {
    match outcome {
        Ok(reply) => Ok(crate::message::opt_message_view(reply)),
        Err(refused) => Err(refused),
    }
}

/// The sending end of a bounded channel. Its value stands for the channel.
#[verifier::external_type_specification]
#[verifier::external_body]
#[verifier::reject_recursive_types(T)]
pub struct ExSyncSender<T>(SyncSender<T>);

/// The receiving end of a channel.
#[verifier::external_type_specification]
#[verifier::external_body]
#[verifier::reject_recursive_types(T)]
pub struct ExReceiver<T>(Receiver<T>);

/// The channel that a receiver reads from.
pub uninterp spec fn channel_of(receiver: Receiver<Outcome>) -> SyncSender<Outcome>;

/// The number of values that a channel holds before its sender has to wait.
pub uninterp spec fn channel_bound(sender: SyncSender<Outcome>) -> usize;

/// Calls `std::sync::mpsc::sync_channel`: a channel that holds up to `bound`
/// values, by its two ends.
#[verifier::external_body]
pub(crate) fn reply_channel(bound: usize) -> (ends: (SyncSender<Outcome>, Receiver<Outcome>))
    ensures
        channel_of(ends.1) == ends.0,
        channel_bound(ends.0) == bound,
{
    std::sync::mpsc::sync_channel(bound)
}

/// `SyncSender::clone` gives another handle on the same channel.
pub assume_specification<T>[ <SyncSender<T> as Clone>::clone ](sender: &SyncSender<T>) -> (copy:
    SyncSender<T>)
    ensures
        copy == *sender,
;

} // verus!
