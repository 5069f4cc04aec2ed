//! Sending and taking READY.

use crate::ccbrb::msg::{actions_view, append_actions, no_actions, one_action, Action, ReadyMsg};
use crate::share::{Share};
use crate::ccbrb::rbc_state::RBCState;
use crate::ccbrb::step::{ready_step, start_ready_step};
use crate::codec::clone_bytes;
use crate::hash;
use crate::params::Params;
use crate::status::Status;
use vstd::prelude::*;

verus! {

impl RBCState {
    /// Takes one READY: see [`ready_step`].
    pub fn absorb_ready(&mut self, p: &Params, msg: ReadyMsg) -> (acts: Vec<Action>)
        requires
            p.wf(),
        ensures
            (final(self)@, actions_view(acts@)) == ready_step(*p, old(self)@, msg@),
    {
        if self.status == Status::TERMINATED || self.fragments_hashes.contains(
            &msg.c,
            msg.origin,
        ) {
            return no_actions();
        }
        self.fragments_hashes.insert(msg.c, msg.origin, msg.pi_i.number, msg.pi_i.data);
        if self.fragments_hashes.count(&msg.c) >= p.quorum() {
            match self.outcome(p, &msg.c) {
                Some(m) => {
                    self.status = Status::TERMINATED;
                    self.output_message = clone_bytes(&m);
                    self.echo_root = Some(msg.c);
                    one_action(Action::Deliver(m))
                },
                None => no_actions(),
            }
        } else {
            no_actions()
        }
    }

    /// Sends READY with `pi_i` under `c` and takes it: see
    /// [`start_ready_step`].
    pub fn start_ready(&mut self, p: &Params, c: hash::Hash, pi_i: Share, id: u64) -> (acts: Vec<
        Action,
    >)
        requires
            p.wf(),
        ensures
            (final(self)@, actions_view(acts@)) == start_ready_step(
                *p,
                old(self)@,
                c@,
                pi_i@,
                id,
            ),
    {
        if self.status != Status::READY {
            return no_actions();
        }
        let out = ReadyMsg { id, c, pi_i: pi_i.duplicate(), origin: p.myid };
        let own = ReadyMsg { id, c, pi_i, origin: p.myid };
        let mut acts = one_action(Action::Ready(out));
        let more = self.absorb_ready(p, own);
        append_actions(&mut acts, more);
        acts
    }
}

} // verus!
