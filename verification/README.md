# raft_broker

A message broker whose queues are replicated with raft, written in Verus.

Clients send messages to each other through the broker. Every change of the
queues is proposed to a raft group and applied, in log order, on every replica.
Consensus is the work of the `raft` crate; this project decides what is put to
it, what is done with what it hands out, and what clients and peers are told.

## Layout

- `src/` is the verified library.
  - `message`, `bytes`, `text`: messages, numbers and their encodings.
  - `queue`, `command`: the queues of the clients, and the commands that change
    them.
  - `consensus`, `channel`: the calls into the `raft` crate and the reply
    channels, each with the contract that the rest relies on.
  - `proposal`: what waits to be put into the log.
  - `replica`, `round`, `outbox`: what committed entries do, the handling of one
    round of raft output, and what leaves the node by that.
  - `node`: a node and one turn of its loop.
  - `transport`, `cluster`: frames and greetings, addresses and identities, and
    how the nodes become voters.
  - `client`: the arguments and requests of the command-line client.
  - `laws`: what holds of the broker as a whole.
- `tests/` runs the library, with the real `raft` crate, alone and as a cluster.
- `app/` holds sockets, threads, locks and the command line.
