//! The VOTE handler of the optimistic variant.

use crate::ctrbc::msg::{
    actions_view, no_actions, push_action, Action, ActionView, CTRBCMsg,
};
use crate::ctrbc::rbc_state::RBCState;
use crate::ctrbc::step::{ready_sent, vote_step, Config};
use crate::status::Status;
use vstd::prelude::*;

verus! {

impl RBCState {
    /// Notes that an early READY was sent.
    pub fn mark_ready_sent(&mut self)
        ensures
            final(self)@ == ready_sent(old(self)@),
    {
        self.sent_ready = true;
        self.status = self.status.advance(Status::READY);
    }

    /// Takes one VOTE: see [`vote_step`].
    pub fn absorb_vote(&mut self, cfg: &Config, msg: CTRBCMsg) -> (acts: Vec<Action>)
        requires
            cfg.params.wf(),
        ensures
            (final(self)@, actions_view(acts@)) == vote_step(*cfg, old(self)@, msg@),
    {
        let root = msg.mp.root;
        if !cfg.optimistic || self.terminated || !self.accepts(&msg) || self.votes.contains(
            &root,
            msg.origin,
        ) {
            return no_actions();
        }
        let carried = msg.duplicate();
        self.votes.insert(root, msg.origin, msg.origin, msg.shard);
        if !self.sent_ready && self.votes.count(&root) >= cfg.params.early_ready_threshold() {
            let out = self.fragment_msg(cfg, &carried);
            self.mark_ready_sent();
            let mut acts = no_actions();
            push_action(&mut acts, Action::Ready(out));
            assert(actions_view(acts@) =~= seq![ActionView::Ready(out@)]);
            acts
        } else {
            no_actions()
        }
    }
}

} // verus!
