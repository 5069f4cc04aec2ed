//! The ECHO handler.

use crate::codec::clone_bytes;
use crate::ctrbc::msg::{
    actions_view, append_actions, no_actions, push_action, Action, ActionView, CTRBCMsg,
};
use crate::ctrbc::rbc_state::RBCState;
use crate::ctrbc::recover::recover;
use crate::ctrbc::step::{
    early_delivery, early_ready, early_vote, echo_step, full_delivery, quorum_commit, Config,
};
use crate::hash;
use crate::status::Status;
use vstd::prelude::*;

verus! {

impl RBCState {
    /// Sends the VOTE where it is due: see [`early_vote`].
    fn cast_early_vote(&mut self, cfg: &Config, msg: &CTRBCMsg, size: usize) -> (acts: Vec<Action>)
        requires
            cfg.params.wf(),
        ensures
            (final(self)@, actions_view(acts@)) == early_vote(
                *cfg,
                old(self)@,
                msg@,
                size as nat,
            ),
    {
        if cfg.optimistic && !self.sent_vote && size >= cfg.params.vote_threshold() {
            let out = self.fragment_msg(cfg, msg);
            self.sent_vote = true;
            let mut acts = no_actions();
            push_action(&mut acts, Action::Vote(out));
            assert(actions_view(acts@) =~= seq![ActionView::Vote(out@)]);
            acts
        } else {
            no_actions()
        }
    }

    /// Sends the early READY where it is due: see [`early_ready`].
    fn cast_early_ready(&mut self, cfg: &Config, msg: &CTRBCMsg, size: usize) -> (acts: Vec<
        Action,
    >)
        requires
            cfg.params.wf(),
        ensures
            (final(self)@, actions_view(acts@)) == early_ready(
                *cfg,
                old(self)@,
                msg@,
                size as nat,
            ),
    {
        if cfg.optimistic && !self.sent_ready && size >= cfg.params.early_ready_threshold() {
            let out = self.fragment_msg(cfg, msg);
            self.mark_ready_sent();
            let mut acts = no_actions();
            push_action(&mut acts, Action::Ready(out));
            assert(actions_view(acts@) =~= seq![ActionView::Ready(out@)]);
            acts
        } else {
            no_actions()
        }
    }

    /// Delivers below a quorum where that is allowed: see [`early_delivery`].
    fn deliver_early(&mut self, cfg: &Config, root: &hash::Hash, size: usize) -> (acts: Vec<
        Action,
    >)
        requires
            cfg.params.wf(),
        ensures
            (final(self)@, actions_view(acts@)) == early_delivery(
                *cfg,
                old(self)@,
                root@,
                size as nat,
            ),
    {
        if cfg.optimistic && !self.terminated && (size >= cfg.params.optimistic_threshold() || (
        self.ready_quorum_reached && size >= cfg.params.latched_threshold())) {
            match recover(cfg, &self.echos, root) {
                Some(found) => {
                    let own = CTRBCMsg {
                        shard: clone_bytes(&found.shard),
                        mp: found.proof.duplicate(),
                        origin: cfg.params.myid,
                    };
                    let payload = clone_bytes(&found.message);
                    self.commit(*root, found);
                    self.terminated = true;
                    self.status = Status::TERMINATED;
                    let mut acts = no_actions();
                    push_action(&mut acts, Action::Ready(own));
                    push_action(&mut acts, Action::Deliver(payload));
                    assert(actions_view(acts@) =~= seq![
                        ActionView::Ready(own@),
                        ActionView::Deliver(payload@),
                    ]);
                    acts
                },
                None => no_actions(),
            }
        } else {
            no_actions()
        }
    }

    /// Commits on a quorum of ECHOs: see [`quorum_commit`].
    fn commit_on_quorum(&mut self, cfg: &Config, root: &hash::Hash, size: usize) -> (acts: Vec<
        Action,
    >)
        requires
            cfg.params.wf(),
        ensures
            (final(self)@, actions_view(acts@)) == quorum_commit(
                *cfg,
                old(self)@,
                root@,
                size as nat,
            ),
    {
        if !self.terminated && size == cfg.params.quorum() && self.echo_root.is_none() {
            match recover(cfg, &self.echos, root) {
                Some(found) => {
                    let own = CTRBCMsg {
                        shard: clone_bytes(&found.shard),
                        mp: found.proof.duplicate(),
                        origin: cfg.params.myid,
                    };
                    let out = own.duplicate();
                    self.commit(*root, found);
                    let mut acts = self.absorb_ready(cfg, own);
                    push_action(&mut acts, Action::Ready(out));
                    acts
                },
                None => no_actions(),
            }
        } else {
            no_actions()
        }
    }

    /// Delivers on ECHOs from everyone: see [`full_delivery`].
    fn deliver_on_all(&mut self, cfg: &Config, root: &hash::Hash, size: usize) -> (acts: Vec<
        Action,
    >)
        requires
            cfg.params.wf(),
        ensures
            (final(self)@, actions_view(acts@)) == full_delivery(
                *cfg,
                old(self)@,
                root@,
                size as nat,
            ),
    {
        if !self.terminated && size == cfg.params.num_nodes && self.committed_to(root) {
            match (&self.message, &self.fragment) {
                (Some(m), Some((shard, proof))) => {
                    let own = CTRBCMsg {
                        shard: clone_bytes(shard),
                        mp: proof.duplicate(),
                        origin: cfg.params.myid,
                    };
                    let payload = clone_bytes(m);
                    self.terminated = true;
                    self.status = Status::TERMINATED;
                    let mut acts = no_actions();
                    push_action(&mut acts, Action::Ready(own));
                    push_action(&mut acts, Action::Deliver(payload));
                    assert(actions_view(acts@) =~= seq![
                        ActionView::Ready(own@),
                        ActionView::Deliver(payload@),
                    ]);
                    acts
                },
                _ => no_actions(),
            }
        } else {
            no_actions()
        }
    }

    /// Takes one ECHO: see [`echo_step`].
    pub fn absorb_echo(&mut self, cfg: &Config, msg: CTRBCMsg) -> (acts: Vec<Action>)
        requires
            cfg.params.wf(),
        ensures
            (final(self)@, actions_view(acts@)) == echo_step(*cfg, old(self)@, msg@),
    {
        let root = msg.mp.root;
        if self.terminated || !msg.verify_mr_proof() || self.echos.contains(&root, msg.origin) {
            return no_actions();
        }
        self.echos.insert(root, msg.origin, msg.origin, clone_bytes(&msg.shard));
        let size = self.echos.count(&root);
        let mut acts = self.cast_early_vote(cfg, &msg, size);
        let a3 = self.cast_early_ready(cfg, &msg, size);
        append_actions(&mut acts, a3);
        let a4 = self.deliver_early(cfg, &root, size);
        append_actions(&mut acts, a4);
        let a5 = self.commit_on_quorum(cfg, &root, size);
        append_actions(&mut acts, a5);
        let a6 = self.deliver_on_all(cfg, &root, size);
        append_actions(&mut acts, a6);
        acts
    }
}

} // verus!
