//! Reliable broadcast over Merkle-authenticated shards: the scheme of
//! Cachin and Tessaro (ctrbc), and its balanced-optimistic extension
//! (borbc) with a VOTE phase and lower delivery thresholds.
//!
//! Both run on one state machine. [`step::Config::optimistic`] turns the
//! extension on: without it VOTEs are ignored and only a quorum of ECHOs,
//! ECHOs from everyone, or READYs lead to a READY or a delivery.
//!
//! [`step`] defines the transitions, [`laws`] and [`trace`] state what
//! holds of every state and every run of one party, and [`agreement`]
//! what holds of a whole network of parties that run without the
//! extension. With the extension two parties can deliver different
//! payloads: with `n = 4` and `f = 1` two ECHOs suffice for a delivery, and
//! a faulty originator can supply one of them under each of two roots.

pub mod agreement;
pub mod context;
pub mod echo;
pub mod frame;
pub mod init;
pub mod laws;
pub mod msg;
pub mod rbc_state;
pub mod ready;
pub mod recover;
pub mod step;
pub mod trace;
pub mod vote;
