//! Starting a broadcast and taking SEND.

use crate::ccbrb::msg::{actions_view, append_actions, no_actions, push_action, Action, ActionView, SendMsg};
use crate::share::{Share};
use crate::ccbrb::rbc_state::{RBCState, StateView};
use crate::ccbrb::step::{init_step, sends, start_step};
use crate::codec::{clone_bytes, encode, shards_view};
use crate::hash;
use crate::hash::{do_hash, hash_eq, digest};
use crate::merkle::{clone_hashes, hashes_view, leaf_hashes};
use crate::params::Params;
use crate::status::{StartError, Status};
use vstd::prelude::*;

verus! {

/// The hashes of the shards, in order.
pub fn hash_shards(shards: &Vec<Vec<u8>>) -> (r: Vec<hash::Hash>)
    ensures
        hashes_view(r@) == leaf_hashes(shards_view(shards@)),
        r.len() == shards.len(),
{
    let ghost sv = shards_view(shards@);
    let mut r: Vec<hash::Hash> = Vec::new();
    let mut i: usize = 0;
    while i < shards.len()
        invariant
            i <= shards.len(),
            r.len() == i,
            sv == shards_view(shards@),
            forall|t: int| 0 <= t < i ==> (#[trigger] r@[t])@ == digest(sv[t]),
        decreases shards.len() - i,
    {
        r.push(do_hash(shards[i].as_slice()));
        i += 1;
    }
    assert(hashes_view(r@) =~= leaf_hashes(sv));
    r
}

impl RBCState {
    /// Takes one SEND: see [`init_step`].
    pub fn absorb_init(&mut self, p: &Params, msg: SendMsg, id: u64) -> (acts: Vec<Action>)
        requires
            p.wf(),
        ensures
            (final(self)@, actions_view(acts@)) == init_step(*p, old(self)@, msg@, id),
    {
        if self.status.rank_of() > 1 || msg.d_hashes.len() != p.num_nodes {
            return no_actions();
        }
        let computed_hash = do_hash(msg.d_j.data.as_slice());
        if !hash_eq(&computed_hash, &msg.d_hashes[p.myid]) {
            return no_actions();
        }
        self.start_echo(p, msg, id)
    }

    /// Starts the broadcast of `payload`: see [`start_step`]. Where the
    /// broadcast cannot be started the state is left as it was.
    pub fn start(&mut self, p: &Params, honest: bool, payload: &[u8], id: u64) -> (r: Result<
        Vec<Action>,
        StartError,
    >)
        requires
            p.wf(),
        ensures
            match r {
                Ok(acts) => start_step(*p, honest, old(self)@, payload@, id) == Ok::<
                    _,
                    StartError,
                >((final(self)@, actions_view(acts@))),
                Err(e) => start_step(*p, honest, old(self)@, payload@, id) == Err::<
                    (StateView, Seq<ActionView>),
                    _,
                >(e) && final(self)@ == old(self)@,
            },
    {
        if payload.len() == 0 {
            return Err(StartError::EmptyPayload);
        }
        if self.status.rank_of() > 1 {
            return Err(StartError::NotWaiting);
        }
        let n = p.num_nodes;
        let me = p.myid;
        let all = encode(payload, p.num_faults + 1, n);
        let d_hashes = hash_shards(&all);
        let ghost av = shards_view(all@);
        let mut acts = no_actions();
        let mut j: usize = 0;
        while j < n
            invariant
                j <= n,
                n == p.num_nodes,
                me == p.myid,
                n == all.len(),
                av == shards_view(all@),
                hashes_view(d_hashes@) == leaf_hashes(av),
                actions_view(acts@) == sends(*p, honest, id, av, j as int),
            decreases n - j,
        {
            if j != me {
                let data = if honest {
                    clone_bytes(&all[j])
                } else {
                    Vec::new()
                };
                assert(!honest ==> data@ =~= Seq::<u8>::empty());
                let m = SendMsg {
                    id,
                    d_j: Share { number: j, data },
                    d_hashes: clone_hashes(&d_hashes),
                    origin: me,
                };
                push_action(&mut acts, Action::Send(j, m));
            }
            j += 1;
        }
        let mine = Share { number: me, data: clone_bytes(&all[me]) };
        let own = SendMsg { id, d_j: mine.duplicate(), d_hashes, origin: me };
        self.status = Status::INIT;
        self.fragment = mine;
        let more = self.absorb_init(p, own, id);
        append_actions(&mut acts, more);
        Ok(acts)
    }
}

} // verus!
