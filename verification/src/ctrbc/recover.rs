//! Rebuilding the payload behind a root from the shards received under it.

use crate::codec::{clone_bytes, concat_shards, reconstruct_data, shards_view};
use crate::ctrbc::msg::CTRBCMsg;
use crate::ctrbc::rbc_state::RBCState;
use crate::ctrbc::step::{commit_from, committed, fragment_or, recovered, Commit, Config};
use crate::hash;
use crate::hash::hash_eq;
use crate::merkle::{construct_merkle_tree, merkle_root, Proof};
use crate::status::Status;
use crate::store::ShardStore;
use vstd::prelude::*;

verus! {

/// What [`recover`] found: this party's shard, its authentication path and
/// the payload.
pub struct Recovered {
    pub shard: Vec<u8>,
    pub proof: Proof,
    pub message: Vec<u8>,
}

impl View for Recovered {
    type V = Commit;

    open spec fn view(&self) -> Commit {
        Commit { shard: self.shard@, proof: self.proof@, message: self.message@ }
    }
}

/// Accepts the full set of shards `all` where the tree over it has `root`
/// as its root: this party's shard, its authentication path and the
/// payload are then taken from it.
pub fn commit_of(cfg: &Config, all: &Vec<Vec<u8>>, root: &hash::Hash) -> (r: Option<Recovered>)
    requires
        cfg.params.wf(),
        all.len() == cfg.params.num_nodes,
    ensures
        match r {
            Some(found) => merkle_root(shards_view(all@)) == root@ && found@ == commit_from(
                *cfg,
                shards_view(all@),
            ),
            None => merkle_root(shards_view(all@)) != root@,
        },
{
    let tree = construct_merkle_tree(all);
    let top = tree.root();
    assert(shards_view(all@) =~= Seq::new(all@.len(), |i: int| all@[i]@));
    if !hash_eq(&top, root) {
        None
    } else {
        let proof = tree.gen_proof(cfg.params.myid);
        let shard = clone_bytes(&all[cfg.params.myid]);
        let message = concat_shards(all, cfg.params.num_faults + 1);
        Some(Recovered { shard, proof, message })
    }
}

/// Decodes the shards received under `root` and accepts the result where
/// the tree over the full set of shards has `root` as its root.
pub fn recover(cfg: &Config, store: &ShardStore, root: &hash::Hash) -> (r: Option<Recovered>)
    requires
        cfg.params.wf(),
    ensures
        match r {
            Some(found) => recovered(*cfg, store@, root@) == Some(found@),
            None => recovered(*cfg, store@, root@) is None,
        },
{
    let n = cfg.params.num_nodes;
    let k = cfg.params.num_faults + 1;
    let slots = store.slots(root, n);
    match reconstruct_data(&slots, k, n) {
        Err(_) => None,
        Ok(all) => commit_of(cfg, &all, root),
    }
}

impl RBCState {
    /// The message that this party sends before it has rebuilt the payload.
    pub fn fragment_msg(&self, cfg: &Config, msg: &CTRBCMsg) -> (m: CTRBCMsg)
        ensures
            m@ == fragment_or(*cfg, self@, msg@),
    {
        match &self.fragment {
            Some((shard, proof)) => CTRBCMsg {
                shard: clone_bytes(shard),
                mp: proof.duplicate(),
                origin: cfg.params.myid,
            },
            None => CTRBCMsg {
                shard: clone_bytes(&msg.shard),
                mp: msg.mp.duplicate(),
                origin: cfg.params.myid,
            },
        }
    }

    /// Commits to `root` with what was rebuilt.
    pub fn commit(&mut self, root: hash::Hash, found: Recovered)
        ensures
            final(self)@ == committed(old(self)@, root@, found@),
    {
        self.echo_root = Some(root);
        self.fragment = Some((found.shard, found.proof));
        self.message = Some(found.message);
        self.status = self.status.advance(Status::OUTPUT);
    }

    /// Whether this party has committed to `root`.
    pub fn committed_to(&self, root: &hash::Hash) -> (r: bool)
        ensures
            r == (self@.echo_root == Some(root@)),
    {
        match &self.echo_root {
            Some(h) => hash_eq(h, root),
            None => false,
        }
    }
}

} // verus!
