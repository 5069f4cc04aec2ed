//! Starting a broadcast and the INIT handler.

use crate::codec::{clone_bytes, encode, shards_view};
use crate::ctrbc::msg::{
    actions_view, append_actions, no_actions, push_action, Action, ActionView, CTRBCMsg,
};
use crate::ctrbc::rbc_state::RBCState;
use crate::ctrbc::step::{init_step, inits, start_step, Config, };
use crate::merkle::construct_merkle_tree;
use crate::status::{StartError, Status};
use vstd::prelude::*;

verus! {

impl RBCState {
    /// Takes one INIT: see [`init_step`].
    pub fn absorb_init(&mut self, cfg: &Config, msg: CTRBCMsg) -> (acts: Vec<Action>)
        requires
            cfg.params.wf(),
        ensures
            (final(self)@, actions_view(acts@)) == init_step(*cfg, old(self)@, msg@),
    {
        if self.terminated || self.status.rank_of() > 1 || msg.mp.index != cfg.params.myid
            || msg.mp.leaves != cfg.params.num_nodes || !msg.verify_mr_proof() {
            return no_actions();
        }
        let own = CTRBCMsg {
            shard: clone_bytes(&msg.shard),
            mp: msg.mp.duplicate(),
            origin: cfg.params.myid,
        };
        let out = own.duplicate();
        self.fragment = Some((msg.shard, msg.mp));
        self.sent_echo = true;
        self.status = Status::ECHO;
        let mut acts = no_actions();
        push_action(&mut acts, Action::Echo(out));
        assert(actions_view(acts@) =~= seq![ActionView::Echo(out@)]);
        let more = self.absorb_echo(cfg, own);
        append_actions(&mut acts, more);
        acts
    }

    /// Starts the broadcast of `payload`: see [`start_step`]. Where the
    /// broadcast cannot be started the state is left as it was.
    pub fn start(&mut self, cfg: &Config, honest: bool, payload: &[u8]) -> (r: Result<
        Vec<Action>,
        StartError,
    >)
        requires
            cfg.params.wf(),
        ensures
            match r {
                Ok(acts) => start_step(*cfg, honest, old(self)@, payload@) == Ok::<
                    _,
                    StartError,
                >((final(self)@, actions_view(acts@))),
                Err(e) => start_step(*cfg, honest, old(self)@, payload@) == Err::<
                    (crate::ctrbc::rbc_state::StateView, Seq<ActionView>),
                    _,
                >(e) && final(self)@ == old(self)@,
            },
    {
        if payload.len() == 0 {
            return Err(StartError::EmptyPayload);
        }
        if self.terminated || self.status.rank_of() > 1 {
            return Err(StartError::NotWaiting);
        }
        let n = cfg.params.num_nodes;
        let me = cfg.params.myid;
        let all = encode(payload, cfg.params.num_faults + 1, n);
        let tree = construct_merkle_tree(&all);
        let ghost av = shards_view(all@);
        assert(av =~= Seq::new(all@.len(), |i: int| all@[i]@));
        let mut acts = no_actions();
        let mut j: usize = 0;
        while j < n
            invariant
                j <= n,
                n == cfg.params.num_nodes,
                me == cfg.params.myid,
                n == all.len(),
                av == shards_view(all@),
                tree.wf(),
                tree.leaves() == crate::merkle::leaf_hashes(av),
                actions_view(acts@) == inits(*cfg, honest, av, j as int),
            decreases n - j,
        {
            if j != me {
                let shard = if honest {
                    clone_bytes(&all[j])
                } else {
                    Vec::new()
                };
                assert(!honest ==> shard@ =~= Seq::<u8>::empty());
                let m = CTRBCMsg { shard, mp: tree.gen_proof(j), origin: me };
                push_action(&mut acts, Action::Init(j, m));
            }
            j += 1;
        }
        let mine = CTRBCMsg { shard: clone_bytes(&all[me]), mp: tree.gen_proof(me), origin: me };
        self.status = Status::INIT;
        self.fragment = Some((clone_bytes(&mine.shard), mine.mp.duplicate()));
        let more = self.absorb_init(cfg, mine);
        append_actions(&mut acts, more);
        Ok(acts)
    }
}

} // verus!
