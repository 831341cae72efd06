//! A message broker whose queues are replicated with raft.
//!
//! Every change of the queues is proposed to a raft group and applied, in log
//! order, on every replica. This crate holds what decides: the queues and the
//! commands that change them, the handling of one round of raft output, the
//! proposals and their replies, the frames on the wire and the addresses of the
//! peers. Sockets, threads, channels and locks belong to the program around it.

pub mod bytes;
pub mod channel;
pub mod client;
pub mod cluster;
pub mod command;
pub mod consensus;
pub mod formats;
pub mod guarantees;
pub mod laws;
pub mod message;
pub mod node;
pub mod operations;
pub mod outbox;
pub mod proposal;
pub mod queue;
pub mod replica;
pub mod round;
pub mod text;
pub mod transport;
