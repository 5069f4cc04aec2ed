//! Sending and taking ECHO.

use crate::ccbrb::msg::{actions_view, append_actions, no_actions, one_action, Action, EchoMsg, SendMsg};
use crate::share::{Share};
use crate::ccbrb::rbc_state::RBCState;
use crate::ccbrb::step::{echo_step, ready_due, start_echo_step};
use crate::codec::{clone_bytes, concat, encode};
use crate::hash;
use crate::hash::{do_hash, hash_eq};
use crate::merkle::hashes_view;
use crate::params::Params;
use crate::status::Status;
use vstd::prelude::*;

verus! {

/// The hashes of a vector, one after the other.
pub fn join_hashes(hashes: &Vec<hash::Hash>) -> (bytes: Vec<u8>)
    ensures
        bytes@ == concat(hashes_view(hashes@)),
{
    let ghost hv = hashes_view(hashes@);
    let mut bytes: Vec<u8> = Vec::new();
    let mut i: usize = 0;
    while i < hashes.len()
        invariant
            i <= hashes.len(),
            hv == hashes_view(hashes@),
            bytes@ == concat(hv.take(i as int)),
        decreases hashes.len() - i,
    {
        let ghost before = bytes@;
        bytes.extend_from_slice(hashes[i].as_slice());
        proof {
            assert(hv.take(i + 1).drop_last() =~= hv.take(i as int));
            assert(hv.take(i + 1).last() == hashes@[i as int]@);
            assert(bytes@ =~= before + hashes@[i as int]@);
        }
        i += 1;
    }
    assert(hv.take(hashes.len() as int) =~= hv);
    bytes
}

impl RBCState {
    /// Whether the party may send READY: see [`ready_due`].
    pub fn ready_due(&self, p: &Params) -> (r: bool)
        requires
            p.wf(),
        ensures
            r == ready_due(*p, self@),
    {
        let (max_count, mode_content) = self.get_max_echo_count();
        if max_count >= p.quorum() && self.status == Status::ECHO {
            match (&mode_content, &self.hash_share) {
                (Some(h), Some((c, _))) => hash_eq(h, c),
                _ => false,
            }
        } else {
            false
        }
    }

    /// Takes one ECHO for the instance with id `id`: see [`echo_step`].
    pub fn absorb_echo(&mut self, p: &Params, msg: EchoMsg, id: u64) -> (acts: Vec<Action>)
        requires
            p.wf(),
        ensures
            (final(self)@, actions_view(acts@)) == echo_step(*p, old(self)@, msg@, id),
    {
        if self.status == Status::TERMINATED || self.fragments_data.contains(&msg.c, msg.origin) {
            return no_actions();
        }
        self.fragments_data.insert(msg.c, msg.origin, msg.d_i.number, msg.d_i.data);
        if self.ready_due(p) {
            let (c, pi_i) = match &self.hash_share {
                Some((c, share)) => (*c, share.duplicate()),
                None => {
                    return no_actions();
                },
            };
            self.status = Status::READY;
            self.start_ready(p, c, pi_i, id)
        } else {
            no_actions()
        }
    }

    /// Echoes a SEND for the instance with id `id`: see
    /// [`start_echo_step`].
    pub fn start_echo(&mut self, p: &Params, msg: SendMsg, id: u64) -> (acts: Vec<Action>)
        requires
            p.wf(),
        ensures
            (final(self)@, actions_view(acts@)) == start_echo_step(*p, old(self)@, msg@, id),
    {
        if self.status.rank_of() > 1 {
            return no_actions();
        }
        let flat = join_hashes(&msg.d_hashes);
        let c = do_hash(flat.as_slice());
        let pis = encode(flat.as_slice(), p.num_faults + 1, p.num_nodes);
        let mine = Share { number: p.myid, data: clone_bytes(&pis[p.myid]) };
        let own = EchoMsg {
            id,
            d_i: msg.d_j.duplicate(),
            pi_i: mine.duplicate(),
            c,
            origin: p.myid,
        };
        let out = own.duplicate();
        self.fragment = msg.d_j;
        self.hash_share = Some((c, mine));
        self.status = Status::ECHO;
        let mut acts = one_action(Action::Echo(out));
        let more = self.absorb_echo(p, own, id);
        append_actions(&mut acts, more);
        acts
    }
}

} // verus!
