//! What one party knows about one broadcast instance.

use crate::hash;
use crate::share::{Share, ShareView};
use crate::status::Status;
use crate::store::{mode, RecordView, ShardStore};
use vstd::prelude::*;

verus! {

/// The state of one instance, as mathematical values.
pub struct StateView {
    pub received_echos: Seq<RecordView>,
    pub received_readys: Seq<RecordView>,
    pub fragment: ShareView,
    pub output_message: Seq<u8>,
    pub status: Status,
    pub sent_ready: bool,
}

/// The state of one instance.
#[derive(Debug)]
pub struct RBCState {
    /// The fragments received in ECHOs, per payload hash and sender.
    pub received_echos: ShardStore,
    /// The fragments received in READYs, per payload hash and sender.
    pub received_readys: ShardStore,
    /// This party's own fragment.
    pub fragment: Share,
    /// The payload, once rebuilt.
    pub output_message: Vec<u8>,
    /// The phase of the instance.
    pub status: Status,
    /// Whether this party has sent READY.
    pub sent_ready: bool,
}

/// The state of an instance of which nothing is known yet.
pub open spec fn initial_state() -> StateView {
    StateView {
        received_echos: Seq::empty(),
        received_readys: Seq::empty(),
        fragment: ShareView { number: 0, data: Seq::empty() },
        output_message: Seq::empty(),
        status: Status::INIT,
        sent_ready: false,
    }
}

impl View for RBCState {
    type V = StateView;

    open spec fn view(&self) -> StateView {
        StateView {
            received_echos: self.received_echos@,
            received_readys: self.received_readys@,
            fragment: self.fragment@,
            output_message: self.output_message@,
            status: self.status,
            sent_ready: self.sent_ready,
        }
    }
}

impl RBCState {
    /// The state of an instance of which nothing is known yet.
    pub fn new() -> (s: RBCState)
        ensures
            s@ == initial_state(),
    {
        let s = RBCState {
            received_echos: ShardStore::new(),
            received_readys: ShardStore::new(),
            fragment: Share { number: 0, data: Vec::new() },
            output_message: Vec::new(),
            status: Status::INIT,
            sent_ready: false,
        };
        assert(s.fragment@.data =~= Seq::<u8>::empty());
        assert(s.output_message@ =~= Seq::<u8>::empty());
        s
    }

    /// The largest number of ECHOs received under one hash, with the first
    /// hash that reached it.
    pub fn get_max_echo_count(&self) -> (r: (usize, Option<hash::Hash>))
        ensures
            r.0 == mode(self@.received_echos).0,
            match r.1 {
                Some(h) => mode(self@.received_echos).1 == Some(h@),
                None => mode(self@.received_echos).1 is None,
            },
    {
        self.received_echos.mode()
    }

    /// The largest number of READYs received under one hash, with the first
    /// hash that reached it.
    pub fn get_max_ready_count(&self) -> (r: (usize, Option<hash::Hash>))
        ensures
            r.0 == mode(self@.received_readys).0,
            match r.1 {
                Some(h) => mode(self@.received_readys).1 == Some(h@),
                None => mode(self@.received_readys).1 is None,
            },
    {
        self.received_readys.mode()
    }
}

impl Default for RBCState {
    fn default() -> (s: RBCState)
        ensures
            s@ == initial_state(),
    {
        RBCState::new()
    }
}

} // verus!
