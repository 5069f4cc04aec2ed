//! What one party knows about one broadcast instance.

use crate::hash;
use crate::merkle::{Proof, ProofView};
use crate::status::Status;
use crate::store::{RecordView, ShardStore};
use vstd::prelude::*;

verus! {

/// The state of one instance, as mathematical values.
pub struct StateView {
    pub echos: Seq<RecordView>,
    pub echo_root: Option<Seq<u8>>,
    pub readys: Seq<RecordView>,
    pub votes: Seq<RecordView>,
    pub sent_echo: bool,
    pub sent_vote: bool,
    pub sent_ready: bool,
    pub ready_quorum_reached: bool,
    pub fragment: Option<(Seq<u8>, ProofView)>,
    pub message: Option<Seq<u8>>,
    pub status: Status,
    pub terminated: bool,
}

/// The state of one instance.
#[derive(Debug)]
pub struct RBCState {
    /// The ECHO shards received, per root and sender.
    pub echos: ShardStore,
    /// The root this party has committed to.
    pub echo_root: Option<hash::Hash>,
    /// The READY shards received, per root and sender.
    pub readys: ShardStore,
    /// The VOTE shards received, per root and sender.
    pub votes: ShardStore,
    /// Whether this party has sent its ECHO.
    pub sent_echo: bool,
    /// Whether this party has sent its VOTE.
    pub sent_vote: bool,
    /// Whether this party has sent its early READY.
    pub sent_ready: bool,
    /// Whether `2f + 1` READYs for one root were seen.
    pub ready_quorum_reached: bool,
    /// This party's own shard and its authentication path.
    pub fragment: Option<(Vec<u8>, Proof)>,
    /// The payload, once rebuilt.
    pub message: Option<Vec<u8>>,
    /// The phase of the instance.
    pub status: Status,
    /// Whether the payload was delivered.
    pub terminated: bool,
}

/// The state of an instance of which nothing is known yet.
pub open spec fn initial_state() -> StateView {
    StateView {
        echos: Seq::empty(),
        echo_root: None,
        readys: Seq::empty(),
        votes: Seq::empty(),
        sent_echo: false,
        sent_vote: false,
        sent_ready: false,
        ready_quorum_reached: false,
        fragment: None,
        message: None,
        status: Status::WAITING,
        terminated: false,
    }
}

impl View for RBCState {
    type V = StateView;

    open spec fn view(&self) -> StateView {
        StateView {
            echos: self.echos@,
            echo_root: match self.echo_root {
                Some(h) => Some(h@),
                None => None,
            },
            readys: self.readys@,
            votes: self.votes@,
            sent_echo: self.sent_echo,
            sent_vote: self.sent_vote,
            sent_ready: self.sent_ready,
            ready_quorum_reached: self.ready_quorum_reached,
            fragment: match self.fragment {
                Some((s, p)) => Some((s@, p@)),
                None => None,
            },
            message: match self.message {
                Some(m) => Some(m@),
                None => None,
            },
            status: self.status,
            terminated: self.terminated,
        }
    }
}

impl RBCState {
    /// The state of an instance of which nothing is known yet.
    pub fn new() -> (s: RBCState)
        ensures
            s@ == initial_state(),
    {
        RBCState {
            echos: ShardStore::new(),
            echo_root: None,
            readys: ShardStore::new(),
            votes: ShardStore::new(),
            sent_echo: false,
            sent_vote: false,
            sent_ready: false,
            ready_quorum_reached: false,
            fragment: None,
            message: None,
            status: Status::WAITING,
            terminated: false,
        }
    }
}

impl Default for RBCState {
    fn default() -> (s: RBCState)
        ensures
            s@ == initial_state(),
    {
        RBCState::new()
    }
}

} // verus!
