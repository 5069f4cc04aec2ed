//! What one party knows about one broadcast instance.

use crate::ccbrb::msg::{};
use crate::share::{Share, ShareView};
use crate::hash;
use crate::status::Status;
use crate::store::{mode, RecordView, ShardStore};
use vstd::prelude::*;

verus! {

/// The state of one instance, as mathematical values.
pub struct StateView {
    pub status: Status,
    pub fragment: ShareView,
    pub hash_share: Option<(Seq<u8>, ShareView)>,
    pub fragments_data: Seq<RecordView>,
    pub fragments_hashes: Seq<RecordView>,
    pub output_message: Seq<u8>,
    pub echo_root: Option<Seq<u8>>,
}

/// The state of one instance.
#[derive(Debug)]
pub struct RBCState {
    /// The phase of the instance.
    pub status: Status,
    /// This party's own shard of the payload.
    pub fragment: Share,
    /// The hash of the vector that this party echoed, and this party's shard
    /// of that vector.
    pub hash_share: Option<(hash::Hash, Share)>,
    /// The payload shards received in ECHOs, per vector hash and sender.
    pub fragments_data: ShardStore,
    /// The vector shards received in READYs, per vector hash and sender.
    pub fragments_hashes: ShardStore,
    /// The payload delivered; empty until then, and empty where the
    /// broadcast was found inconsistent.
    pub output_message: Vec<u8>,
    /// The vector hash under which the payload was delivered.
    pub echo_root: Option<hash::Hash>,
}

/// The state of an instance of which nothing is known yet.
pub open spec fn initial_state() -> StateView {
    StateView {
        status: Status::WAITING,
        fragment: ShareView { number: 0, data: Seq::empty() },
        hash_share: None,
        fragments_data: Seq::empty(),
        fragments_hashes: Seq::empty(),
        output_message: Seq::empty(),
        echo_root: None,
    }
}

impl View for RBCState {
    type V = StateView;

    open spec fn view(&self) -> StateView {
        StateView {
            status: self.status,
            fragment: self.fragment@,
            hash_share: match self.hash_share {
                Some((c, s)) => Some((c@, s@)),
                None => None,
            },
            fragments_data: self.fragments_data@,
            fragments_hashes: self.fragments_hashes@,
            output_message: self.output_message@,
            echo_root: match self.echo_root {
                Some(c) => Some(c@),
                None => None,
            },
        }
    }
}

impl RBCState {
    /// The state of an instance of which nothing is known yet.
    pub fn new() -> (s: RBCState)
        ensures
            s@ == initial_state(),
    {
        let s = RBCState {
            status: Status::WAITING,
            fragment: Share { number: 0, data: Vec::new() },
            hash_share: None,
            fragments_data: ShardStore::new(),
            fragments_hashes: ShardStore::new(),
            output_message: Vec::new(),
            echo_root: None,
        };
        assert(s.fragment@.data =~= Seq::<u8>::empty());
        assert(s.output_message@ =~= Seq::<u8>::empty());
        s
    }

    /// The largest number of ECHOs received under one vector hash, with the
    /// first hash that reached it.
    pub fn get_max_echo_count(&self) -> (r: (usize, Option<hash::Hash>))
        ensures
            r.0 == mode(self@.fragments_data).0,
            match r.1 {
                Some(h) => mode(self@.fragments_data).1 == Some(h@),
                None => mode(self@.fragments_data).1 is None,
            },
    {
        self.fragments_data.mode()
    }

    /// The largest number of READYs received under one vector hash, with
    /// the first hash that reached it.
    pub fn get_max_ready_count(&self) -> (r: (usize, Option<hash::Hash>))
        ensures
            r.0 == mode(self@.fragments_hashes).0,
            match r.1 {
                Some(h) => mode(self@.fragments_hashes).1 == Some(h@),
                None => mode(self@.fragments_hashes).1 is None,
            },
    {
        self.fragments_hashes.mode()
    }
}

impl Default for RBCState {
    fn default() -> (s: RBCState)
        ensures
            s@ == initial_state(),
    {
        RBCState::new()
    }
}

} // verus!
