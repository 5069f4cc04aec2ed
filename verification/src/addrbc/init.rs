//! A party: its parameters, its keys and the table of its instances.

use crate::addrbc::msg::{
    actions_view, no_actions, push_action, Action, ActionView, Msg, ProtMsg, ProtMsgView, ShareMsg,
};
use crate::addrbc::rbc_state::{initial_state, RBCState, StateView};
use crate::addrbc::step::{echo_step, init_step, start_echo_step, start_step};
use crate::hash;
use crate::hash::{hmac_sha256, verf_mac};
use crate::params::Params;
use crate::status::StartError;
use crate::share::Share;
use std::collections::HashMap;
use vstd::prelude::*;

verus! {

broadcast use vstd::std_specs::hash::group_hash_axioms;

/// A protocol message as it arrived: the message, the bytes it was decoded
/// from, the replica that sent it and the sender's tag over those bytes.
#[derive(Debug)]
pub struct WrapperMsg {
    pub protmsg: ProtMsg,
    pub encoded: Vec<u8>,
    pub sender: usize,
    pub mac: Vec<u8>,
}

/// The transition on any protocol message. A READY changes nothing.
pub open spec fn dispatch(
    p: Params,
    honest: bool,
    alive: bool,
    s: StateView,
    m: ProtMsgView,
) -> (StateView, Seq<ActionView>) {
    match m {
        ProtMsgView::Sendall(msg, _) => init_step(p, honest, alive, s, msg),
        ProtMsgView::Echo(msg, _) => echo_step(p, s, msg),
        ProtMsgView::Ready(_, _) => (s, Seq::empty()),
    }
}

/// What leaves a party: everything it decided to do, or nothing where it is
/// set to play dead.
pub open spec fn emitted(alive: bool, acts: Seq<ActionView>) -> Seq<ActionView> {
    if alive {
        acts
    } else {
        Seq::empty()
    }
}

/// One party of the network.
pub struct Context {
    /// The parameters of the network.
    pub params: Params,
    /// Whether the party hands out true fragments.
    pub honest: bool,
    /// Whether the party sends at all.
    pub alive: bool,
    /// The secret shared with each replica.
    pub sec_key_map: HashMap<usize, Vec<u8>>,
    /// The state of every instance that a message has named so far.
    pub rbc_context: HashMap<usize, RBCState>,
}

impl Context {
    /// The parameters are valid.
    pub open spec fn wf(&self) -> bool {
        self.params.wf()
    }

    /// The state of instance `id`; an instance that no message has named
    /// is in its initial state.
    pub open spec fn state_of(&self, id: usize) -> StateView {
        if self.rbc_context@.contains_key(id) {
            self.rbc_context@[id]@
        } else {
            initial_state()
        }
    }

    /// Whether the two parties have the same parameters, flags and keys.
    pub open spec fn same_setup(&self, before: &Context) -> bool {
        &&& self.params == before.params
        &&& self.honest == before.honest
        &&& self.alive == before.alive
        &&& self.sec_key_map == before.sec_key_map
    }

    /// Whether the tag of `w` is the sender's tag over the bytes of `w`.
    pub open spec fn authentic(&self, w: &WrapperMsg) -> bool {
        &&& self.sec_key_map@.contains_key(w.sender)
        &&& w.mac@ == hmac_sha256(self.sec_key_map@[w.sender]@, w.encoded@)
    }

    /// Whether `self` is `before` with instance `id` moved to `next.0`, and
    /// `acts` is what leaves the party of `next.1`.
    pub open spec fn stepped(
        &self,
        before: &Context,
        id: usize,
        next: (StateView, Seq<ActionView>),
        acts: Seq<ActionView>,
    ) -> bool {
        &&& self.same_setup(before)
        &&& self.state_of(id) == next.0
        &&& forall|other: usize|
            other != id ==> #[trigger] self.state_of(other) == before.state_of(other)
        &&& acts == emitted(before.alive, next.1)
    }

    /// A party without instances.
    pub fn new(params: Params, honest: bool, alive: bool, sec_key_map: HashMap<usize, Vec<u8>>) -> (c:
        Context)
        ensures
            c.params == params,
            c.honest == honest,
            c.alive == alive,
            c.sec_key_map == sec_key_map,
            forall|id: usize| #[trigger] c.state_of(id) == initial_state(),
    {
        Context { params, honest, alive, sec_key_map, rbc_context: HashMap::new() }
    }

    /// Takes the state of instance `id` out of the table, or a fresh state
    /// where the table has none.
    fn take_state(&mut self, id: usize) -> (st: RBCState)
        ensures
            st@ == old(self).state_of(id),
            final(self).same_setup(old(self)),
            final(self).rbc_context@ == old(self).rbc_context@.remove(id),
    {
        match self.rbc_context.remove(&id) {
            Some(st) => st,
            None => RBCState::new(),
        }
    }

    /// Puts the state of instance `id` into the table and hands out what
    /// leaves the party of `acts`.
    fn put_state(&mut self, id: usize, st: RBCState, acts: Vec<Action>) -> (out: Vec<Action>)
        ensures
            final(self).same_setup(old(self)),
            final(self).rbc_context@ == old(self).rbc_context@.insert(id, st),
            actions_view(out@) == emitted(old(self).alive, actions_view(acts@)),
    {
        self.rbc_context.insert(id, st);
        if self.alive {
            acts
        } else {
            no_actions()
        }
    }

    /// Starts the broadcast of `input_msg` as instance `instance_id`.
    pub fn start_init(&mut self, input_msg: Vec<u8>, instance_id: usize) -> (r: Result<
        Vec<Action>,
        StartError,
    >)
        requires
            old(self).wf(),
        ensures
            match start_step(
                old(self).params,
                old(self).honest,
                old(self).alive,
                old(self).state_of(instance_id),
                input_msg@,
            ) {
                Ok(next) => r.is_ok() && final(self).stepped(
                    old(self),
                    instance_id,
                    next,
                    actions_view(r.unwrap()@),
                ),
                Err(e) => r == Err::<Vec<Action>, _>(e) && final(self).stepped(
                    old(self),
                    instance_id,
                    (old(self).state_of(instance_id), Seq::empty()),
                    Seq::empty(),
                ),
            },
    {
        let mut st = self.take_state(instance_id);
        let p = self.params;
        let msg = Msg { content: input_msg, origin: p.myid };
        match st.start_echo(&p, self.honest, self.alive, msg.content.as_slice()) {
            Ok(acts) => {
                let mut acts = acts;
                push_action(&mut acts, Action::Sendall(msg));
                Ok(self.put_state(instance_id, st, acts))
            },
            Err(e) => {
                self.put_state(instance_id, st, no_actions());
                Err(e)
            },
        }
    }

    /// Takes a payload from its originator for instance `instance_id`.
    pub fn handle_init(&mut self, msg: Msg, instance_id: usize) -> (acts: Vec<Action>)
        requires
            old(self).wf(),
        ensures
            final(self).stepped(
                old(self),
                instance_id,
                init_step(
                    old(self).params,
                    old(self).honest,
                    old(self).alive,
                    old(self).state_of(instance_id),
                    msg@,
                ),
                actions_view(acts@),
            ),
    {
        match self.start_echo(msg.content, instance_id) {
            Ok(acts) => acts,
            Err(_) => no_actions(),
        }
    }

    /// Echoes `msg_content` for instance `instance_id`. An empty payload
    /// and a second echo are refused and change nothing.
    pub fn start_echo(&mut self, msg_content: Vec<u8>, instance_id: usize) -> (r: Result<
        Vec<Action>,
        StartError,
    >)
        requires
            old(self).wf(),
        ensures
            match start_echo_step(
                old(self).params,
                old(self).honest,
                old(self).alive,
                old(self).state_of(instance_id),
                msg_content@,
            ) {
                Ok(next) => r.is_ok() && final(self).stepped(
                    old(self),
                    instance_id,
                    next,
                    actions_view(r.unwrap()@),
                ),
                Err(e) => r == Err::<Vec<Action>, _>(e) && final(self).stepped(
                    old(self),
                    instance_id,
                    (old(self).state_of(instance_id), Seq::empty()),
                    Seq::empty(),
                ),
            },
    {
        let mut st = self.take_state(instance_id);
        let p = self.params;
        match st.start_echo(&p, self.honest, self.alive, msg_content.as_slice()) {
            Ok(acts) => Ok(self.put_state(instance_id, st, acts)),
            Err(e) => {
                self.put_state(instance_id, st, no_actions());
                Err(e)
            },
        }
    }

    /// Takes this party's own ECHO for instance `instance_id`.
    pub fn echo_self(&mut self, hash: hash::Hash, share: Share, instance_id: usize) -> (acts: Vec<
        Action,
    >)
        requires
            old(self).wf(),
        ensures
            final(self).stepped(
                old(self),
                instance_id,
                echo_step(
                    old(self).params,
                    old(self).state_of(instance_id),
                    crate::addrbc::msg::ShareMsgView {
                        share: share@,
                        hash: hash@,
                        origin: old(self).params.myid,
                    },
                ),
                actions_view(acts@),
            ),
    {
        let msg = ShareMsg { share, hash, origin: self.params.myid };
        self.handle_echo(msg, instance_id)
    }

    /// Takes an ECHO for instance `instance_id`.
    pub fn handle_echo(&mut self, msg: ShareMsg, instance_id: usize) -> (acts: Vec<Action>)
        requires
            old(self).wf(),
        ensures
            final(self).stepped(
                old(self),
                instance_id,
                echo_step(old(self).params, old(self).state_of(instance_id), msg@),
                actions_view(acts@),
            ),
    {
        let mut st = self.take_state(instance_id);
        let p = self.params;
        let acts = st.absorb_echo(&p, msg);
        self.put_state(instance_id, st, acts)
    }

    /// Whether the tag of `wrapper_msg` is the sender's tag over its bytes.
    pub fn check_proposal(&self, wrapper_msg: &WrapperMsg) -> (ok: bool)
        requires
            self.sec_key_map@.contains_key(wrapper_msg.sender),
        ensures
            ok == self.authentic(wrapper_msg),
    {
        match self.sec_key_map.get(&wrapper_msg.sender) {
            Some(key) => verf_mac(
                wrapper_msg.encoded.as_slice(),
                key.as_slice(),
                wrapper_msg.mac.as_slice(),
            ),
            None => false,
        }
    }

    /// Takes a message from the network: one whose tag does not hold, or
    /// whose sender has no key, is dropped; any other goes to the handler of
    /// its kind.
    pub fn process_msg(&mut self, wrapper_msg: WrapperMsg) -> (acts: Vec<Action>)
        requires
            old(self).wf(),
        ensures
            final(self).stepped(
                old(self),
                wrapper_msg.protmsg@.instance(),
                if old(self).authentic(&wrapper_msg) {
                    dispatch(
                        old(self).params,
                        old(self).honest,
                        old(self).alive,
                        old(self).state_of(wrapper_msg.protmsg@.instance()),
                        wrapper_msg.protmsg@,
                    )
                } else {
                    (old(self).state_of(wrapper_msg.protmsg@.instance()), Seq::empty())
                },
                actions_view(acts@),
            ),
    {
        if !self.sec_key_map.contains_key(&wrapper_msg.sender) || !self.check_proposal(
            &wrapper_msg,
        ) {
            return no_actions();
        }
        match wrapper_msg.protmsg {
            ProtMsg::Sendall(main_msg, instance_id) => self.handle_init(main_msg, instance_id),
            ProtMsg::Echo(main_msg, instance_id) => self.handle_echo(main_msg, instance_id),
            ProtMsg::Ready(_, _) => no_actions(),
        }
    }
}

} // verus!
