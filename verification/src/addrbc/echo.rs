//! Sending and taking ECHO.

use crate::addrbc::msg::{
    actions_view, append_actions, no_actions, one_action, push_action, Action, ShareMsg,
};
use crate::addrbc::msg::ActionView;
use crate::addrbc::rbc_state::{RBCState, StateView};
use crate::addrbc::step::{counted, echo_step, echoes, promoted, ready_due, start_echo_step};
use crate::codec::{clone_bytes, encode, shards_view};
use crate::hash::do_hash;
use crate::params::Params;
use crate::share::Share;
use crate::status::{StartError, Status};
use vstd::prelude::*;

verus! {

impl RBCState {
    /// Whether READY is due: see [`ready_due`].
    pub fn ready_due(&self, p: &Params) -> (r: bool)
        requires
            p.wf(),
        ensures
            r == ready_due(*p, self@),
    {
        let (max_count, mode_content) = self.get_max_echo_count();
        max_count >= p.quorum() && self.status == Status::ECHO && mode_content.is_some()
    }

    /// Sends READY where it is due: see [`promoted`].
    pub fn promote(&mut self, p: &Params) -> (acts: Vec<Action>)
        requires
            p.wf(),
        ensures
            (final(self)@, actions_view(acts@)) == promoted(*p, old(self)@),
    {
        let (max_count, mode_content) = self.get_max_echo_count();
        if max_count >= p.quorum() && self.status == Status::ECHO {
            match mode_content {
                Some(hash) => {
                    self.status = Status::READY;
                    self.sent_ready = true;
                    one_action(
                        Action::Ready(
                            ShareMsg { share: self.fragment.duplicate(), hash, origin: p.myid },
                        ),
                    )
                },
                None => no_actions(),
            }
        } else {
            no_actions()
        }
    }

    /// Counts the ECHO unless its sender has echoed the same hash before:
    /// see [`counted`].
    pub fn count_echo(&mut self, msg: ShareMsg) -> (fresh: bool)
        ensures
            final(self)@ == counted(old(self)@, msg@),
            fresh == (crate::store::lookup(old(self)@.received_echos, msg@.hash, msg@.origin)
                is None),
    {
        if self.received_echos.contains(&msg.hash, msg.origin) {
            false
        } else {
            self.received_echos.insert(msg.hash, msg.origin, msg.share.number, msg.share.data);
            true
        }
    }

    /// Takes one ECHO: see [`echo_step`].
    pub fn absorb_echo(&mut self, p: &Params, msg: ShareMsg) -> (acts: Vec<Action>)
        requires
            p.wf(),
        ensures
            (final(self)@, actions_view(acts@)) == echo_step(*p, old(self)@, msg@),
    {
        if self.status == Status::TERMINATED {
            return no_actions();
        }
        if self.count_echo(msg) {
            self.promote(p)
        } else {
            no_actions()
        }
    }

    /// Echoes `msg_content`: see [`start_echo_step`]. Where the payload
    /// cannot be echoed the state is left as it was.
    pub fn start_echo(&mut self, p: &Params, honest: bool, alive: bool, msg_content: &[u8]) -> (r:
        Result<Vec<Action>, StartError>)
        requires
            p.wf(),
        ensures
            match r {
                Ok(acts) => start_echo_step(*p, honest, alive, old(self)@, msg_content@) == Ok::<
                    _,
                    StartError,
                >((final(self)@, actions_view(acts@))),
                Err(e) => start_echo_step(*p, honest, alive, old(self)@, msg_content@) == Err::<
                    (StateView, Seq<ActionView>),
                    _,
                >(e) && final(self)@ == old(self)@,
            },
    {
        if msg_content.len() == 0 {
            return Err(StartError::EmptyPayload);
        }
        if self.status.rank_of() > 1 {
            return Err(StartError::NotWaiting);
        }
        let n = p.num_nodes;
        let me = p.myid;
        let hash = do_hash(msg_content);
        let all = encode(msg_content, p.num_faults + 1, n);
        let ghost av = shards_view(all@);
        let mut acts = no_actions();
        let mut j: usize = 0;
        while j < n
            invariant
                j <= n,
                n == p.num_nodes,
                me == p.myid,
                n == all.len(),
                av == shards_view(all@),
                actions_view(acts@) == echoes(*p, honest, hash@, av, j as int),
            decreases n - j,
        {
            if j != me {
                let data = if honest {
                    clone_bytes(&all[j])
                } else {
                    Vec::new()
                };
                assert(!honest ==> data@ =~= Seq::<u8>::empty());
                let m = ShareMsg { share: Share { number: j, data }, hash, origin: me };
                push_action(&mut acts, Action::Echo(j, m));
            }
            j += 1;
        }
        let mine = Share { number: me, data: clone_bytes(&all[me]) };
        self.fragment = mine.duplicate();
        if alive {
            self.count_echo(ShareMsg { share: mine, hash, origin: me });
        }
        self.status = Status::ECHO;
        let more = self.promote(p);
        append_actions(&mut acts, more);
        Ok(acts)
    }
}

} // verus!
