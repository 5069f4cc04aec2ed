//! The READY handler.

use crate::codec::clone_bytes;
use crate::ctrbc::msg::{
    actions_view, append_actions, no_actions, push_action, Action, ActionView, CTRBCMsg,
};
use crate::ctrbc::rbc_state::RBCState;
use crate::ctrbc::recover::recover;
use crate::ctrbc::step::{accepts, amplified, finished, latched, ready_step, Config};
use crate::hash;
use crate::hash::bytes_eq;
use crate::status::Status;
use vstd::prelude::*;

verus! {

impl RBCState {
    /// Whether a VOTE or READY is taken as authentic.
    pub fn accepts(&self, msg: &CTRBCMsg) -> (ok: bool)
        ensures
            ok == accepts(self@, msg@),
    {
        match self.echos.get(&msg.mp.root, msg.origin) {
            Some(s) => {
                if bytes_eq(s.as_slice(), msg.shard.as_slice()) {
                    true
                } else {
                    msg.verify_mr_proof()
                }
            },
            None => msg.verify_mr_proof(),
        }
    }

    /// Rebuilds the payload and commits on `f + 1` READYs: see [`amplified`].
    fn amplify(&mut self, cfg: &Config, root: &hash::Hash) -> (acts: Vec<Action>)
        requires
            cfg.params.wf(),
        ensures
            (final(self)@, actions_view(acts@)) == amplified(*cfg, old(self)@, root@),
    {
        if self.readys.count(root) == cfg.params.amplification_threshold() && !self.committed_to(
            root,
        ) {
            match recover(cfg, &self.readys, root) {
                Some(found) => {
                    let own = CTRBCMsg {
                        shard: clone_bytes(&found.shard),
                        mp: found.proof.duplicate(),
                        origin: cfg.params.myid,
                    };
                    let mine = clone_bytes(&found.shard);
                    self.commit(*root, found);
                    if !self.readys.contains(root, cfg.params.myid) {
                        self.readys.insert(*root, cfg.params.myid, cfg.params.myid, mine);
                    }
                    let mut acts = no_actions();
                    push_action(&mut acts, Action::Ready(own));
                    assert(actions_view(acts@) =~= seq![ActionView::Ready(own@)]);
                    acts
                },
                None => no_actions(),
            }
        } else {
            no_actions()
        }
    }

    /// Remembers that a READY quorum was seen: see [`latched`].
    fn latch(&mut self, cfg: &Config, root: &hash::Hash)
        requires
            cfg.params.wf(),
        ensures
            final(self)@ == latched(*cfg, old(self)@, root@),
    {
        if cfg.optimistic && self.readys.count(root) >= cfg.params.ready_latch_threshold() {
            self.ready_quorum_reached = true;
        }
    }

    /// Delivers on a quorum of READYs: see [`finished`].
    fn finish(&mut self, cfg: &Config, root: &hash::Hash) -> (acts: Vec<Action>)
        requires
            cfg.params.wf(),
        ensures
            (final(self)@, actions_view(acts@)) == finished(*cfg, old(self)@, root@),
    {
        if self.readys.count(root) < cfg.params.quorum() {
            return no_actions();
        }
        if self.committed_to(root) {
            match &self.message {
                Some(m) => {
                    let payload = clone_bytes(m);
                    self.terminated = true;
                    self.status = Status::TERMINATED;
                    let mut acts = no_actions();
                    push_action(&mut acts, Action::Deliver(payload));
                    assert(actions_view(acts@) =~= seq![ActionView::Deliver(payload@)]);
                    return acts;
                },
                None => {},
            }
        }
        match recover(cfg, &self.readys, root) {
            Some(found) => {
                let payload = clone_bytes(&found.message);
                self.commit(*root, found);
                self.terminated = true;
                self.status = Status::TERMINATED;
                let mut acts = no_actions();
                push_action(&mut acts, Action::Deliver(payload));
                assert(actions_view(acts@) =~= seq![ActionView::Deliver(payload@)]);
                acts
            },
            None => no_actions(),
        }
    }

    /// Takes one READY: see [`ready_step`].
    pub fn absorb_ready(&mut self, cfg: &Config, msg: CTRBCMsg) -> (acts: Vec<Action>)
        requires
            cfg.params.wf(),
        ensures
            (final(self)@, actions_view(acts@)) == ready_step(*cfg, old(self)@, msg@),
    {
        let root = msg.mp.root;
        if self.terminated || !self.accepts(&msg) || self.readys.contains(&root, msg.origin) {
            return no_actions();
        }
        self.readys.insert(root, msg.origin, msg.origin, msg.shard);
        let mut acts = self.amplify(cfg, &root);
        self.latch(cfg, &root);
        let more = self.finish(cfg, &root);
        append_actions(&mut acts, more);
        acts
    }
}

} // verus!
