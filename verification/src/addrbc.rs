//! Bracha's reliable broadcast with the payload dispersed as erasure-coded
//! fragments under the hash of the payload: every party hands each replica
//! the fragment that belongs to it, and sends READY once `n - f` parties
//! have echoed one hash.

pub mod echo;
pub mod init;
pub mod laws;
pub mod msg;
pub mod rbc_state;
pub mod step;
