//! Byzantine-fault-tolerant reliable broadcast for `n` parties, at most `f`
//! of which misbehave, as message-driven state machines.
//!
//! Every handler takes one incoming message, updates the state of the
//! broadcast instance it belongs to and returns the messages to send and
//! the payload to deliver, if any. Nothing in this crate performs I/O.
//!
//! - [`params`], [`status`]: the size of the network, the quorum sizes and
//!   the phases of an instance.
//! - [`hash`], [`merkle`], [`codec`], [`share`]: hashing and authentication
//!   of messages, Merkle trees over shards, and erasure coding.
//! - [`store`], [`quorum`]: the shards received per content hash and
//!   sender, and counting arguments over their senders.
//! - [`addrbc`], [`ctrbc`], [`ccbrb`]: the variants of the protocol, each
//!   with its messages, its state, its transitions as mathematical
//!   functions, the handlers that compute them, and the laws that hold of
//!   them.
//! - [`syncer`]: the bookkeeping of the benchmark synchronizer.

pub mod addrbc;
pub mod ccbrb;
pub mod codec;
pub mod ctrbc;
pub mod hash;
pub mod merkle;
pub mod params;
pub mod quorum;
pub mod share;
pub mod status;
pub mod store;
pub mod syncer;
