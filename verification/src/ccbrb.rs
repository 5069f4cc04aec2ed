//! Reliable broadcast over a committed vector of shard hashes: the parties
//! first agree on the hash of the vector, then rebuild the vector from its
//! own erasure code, and with it tell the true shards of the payload from
//! false ones.

pub mod agreement;
pub mod decode;
pub mod echo;
pub mod init;
pub mod laws;
pub mod msg;
pub mod process;
pub mod rbc_state;
pub mod ready;
pub mod step;
