//! A party: its parameters, its keys and the table of its instances.

use crate::ctrbc::msg::{actions_view, no_actions, Action, ActionView, CTRBCMsg, MsgView, ProtMsg};
use crate::ctrbc::rbc_state::{initial_state, RBCState, StateView};
use crate::ctrbc::step::{
    echo_step, init_step, ready_step, start_step, vote_step, Config, };
use crate::hash::{hmac_sha256, verf_mac};
use crate::syncer::{SyncMsg, SyncState};
use std::collections::HashMap;
use crate::status::StartError;
use vstd::prelude::*;

verus! {

broadcast use vstd::std_specs::hash::group_hash_axioms;

/// A protocol message as it arrived: the message, the bytes it was decoded
/// from, the replica that sent it and the sender's tag over those bytes.
#[derive(Debug)]
pub struct WrapperMsg {
    pub protmsg: ProtMsg,
    pub encoded: Vec<u8>,
    pub sender: usize,
    pub mac: Vec<u8>,
}

/// A protocol message, as mathematical values.
pub enum ProtMsgView {
    Init(MsgView, usize),
    Echo(MsgView, usize),
    Vote(MsgView, usize),
    Ready(MsgView, usize),
}

impl View for ProtMsg {
    type V = ProtMsgView;

    open spec fn view(&self) -> ProtMsgView {
        match self {
            ProtMsg::Init(m, id) => ProtMsgView::Init(m@, *id),
            ProtMsg::Echo(m, id) => ProtMsgView::Echo(m@, *id),
            ProtMsg::Vote(m, id) => ProtMsgView::Vote(m@, *id),
            ProtMsg::Ready(m, id) => ProtMsgView::Ready(m@, *id),
        }
    }
}

impl ProtMsgView {
    /// The instance that the message belongs to.
    pub open spec fn instance(self) -> usize {
        match self {
            ProtMsgView::Init(_, id) => id,
            ProtMsgView::Echo(_, id) => id,
            ProtMsgView::Vote(_, id) => id,
            ProtMsgView::Ready(_, id) => id,
        }
    }

    /// The replica that the message names as its origin.
    pub open spec fn origin(self) -> usize {
        match self {
            ProtMsgView::Init(m, _) => m.origin,
            ProtMsgView::Echo(m, _) => m.origin,
            ProtMsgView::Vote(m, _) => m.origin,
            ProtMsgView::Ready(m, _) => m.origin,
        }
    }
}

/// The transition on any protocol message.
pub open spec fn dispatch(c: Config, s: StateView, m: ProtMsgView) -> (StateView, Seq<ActionView>) {
    match m {
        ProtMsgView::Init(msg, _) => init_step(c, s, msg),
        ProtMsgView::Echo(msg, _) => echo_step(c, s, msg),
        ProtMsgView::Vote(msg, _) => vote_step(c, s, msg),
        ProtMsgView::Ready(msg, _) => ready_step(c, s, msg),
    }
}

/// What leaves a party: everything it decided to do, or nothing where it is
/// set to play dead.
pub open spec fn emitted(alive: bool, acts: Seq<ActionView>) -> Seq<ActionView> {
    if alive {
        acts
    } else {
        Seq::empty()
    }
}

/// One party of the network.
pub struct Context {
    /// The parameters of the network and the variant that is run.
    pub cfg: Config,
    /// Whether the party follows the protocol when it starts a broadcast.
    pub honest: bool,
    /// Whether the party sends and delivers at all.
    pub alive: bool,
    /// The secret shared with each replica.
    pub sec_key_map: HashMap<usize, Vec<u8>>,
    /// The state of every instance that a message has named so far.
    pub rbc_context: HashMap<usize, RBCState>,
}

impl Context {
    /// The parameters are valid.
    pub open spec fn wf(&self) -> bool {
        self.cfg.params.wf()
    }

    /// The state of instance `id`; an instance that no message has named
    /// is in its initial state.
    pub open spec fn state_of(&self, id: usize) -> StateView {
        if self.rbc_context@.contains_key(id) {
            self.rbc_context@[id]@
        } else {
            initial_state()
        }
    }

    /// Whether the two parties have the same parameters, flags and keys.
    pub open spec fn same_setup(&self, before: &Context) -> bool {
        &&& self.cfg == before.cfg
        &&& self.honest == before.honest
        &&& self.alive == before.alive
        &&& self.sec_key_map == before.sec_key_map
    }

    /// Whether `self` is `before` with instance `id` moved to `next`.
    pub open spec fn stepped(&self, before: &Context, id: usize, next: StateView) -> bool {
        &&& self.same_setup(before)
        &&& self.state_of(id) == next
        &&& forall|other: usize|
            other != id ==> #[trigger] self.state_of(other) == before.state_of(other)
    }

    /// Whether the tag of `w` is the sender's tag over the bytes of `w`.
    pub open spec fn authentic(&self, w: &WrapperMsg) -> bool {
        &&& self.sec_key_map@.contains_key(w.sender)
        &&& w.mac@ == hmac_sha256(self.sec_key_map@[w.sender]@, w.encoded@)
    }

    /// A party without instances.
    pub fn new(cfg: Config, honest: bool, alive: bool, sec_key_map: HashMap<usize, Vec<u8>>) -> (c:
        Context)
        ensures
            c.cfg == cfg,
            c.honest == honest,
            c.alive == alive,
            c.sec_key_map == sec_key_map,
            forall|id: usize| #[trigger] c.state_of(id) == initial_state(),
    {
        Context { cfg, honest, alive, sec_key_map, rbc_context: HashMap::new() }
    }

    /// Takes the state of instance `id` out of the table, or a fresh state
    /// where the table has none.
    fn take_state(&mut self, id: usize) -> (st: RBCState)
        ensures
            st@ == old(self).state_of(id),
            final(self).same_setup(old(self)),
            final(self).rbc_context@ == old(self).rbc_context@.remove(id),
    {
        match self.rbc_context.remove(&id) {
            Some(st) => st,
            None => RBCState::new(),
        }
    }

    /// Puts the state of instance `id` into the table and hands out what
    /// leaves the party of `acts`.
    fn put_state(&mut self, id: usize, st: RBCState, acts: Vec<Action>) -> (out: Vec<Action>)
        ensures
            final(self).same_setup(old(self)),
            final(self).rbc_context@ == old(self).rbc_context@.insert(id, st),
            actions_view(out@) == emitted(old(self).alive, actions_view(acts@)),
    {
        self.rbc_context.insert(id, st);
        if self.alive {
            acts
        } else {
            no_actions()
        }
    }

    /// Starts the broadcast of `input_msg` as instance `instance_id`.
    pub fn start_init(&mut self, input_msg: Vec<u8>, instance_id: usize) -> (r: Result<
        Vec<Action>,
        StartError,
    >)
        requires
            old(self).wf(),
        ensures
            match start_step(
                old(self).cfg,
                old(self).honest,
                old(self).state_of(instance_id),
                input_msg@,
            ) {
                Ok(next) => final(self).stepped(old(self), instance_id, next.0) && r.is_ok()
                    && actions_view(r.unwrap()@) == emitted(old(self).alive, next.1),
                Err(e) => r == Err::<Vec<Action>, _>(e) && final(self).stepped(
                    old(self),
                    instance_id,
                    old(self).state_of(instance_id),
                ),
            },
    {
        let mut st = self.take_state(instance_id);
        let cfg = self.cfg;
        match st.start(&cfg, self.honest, input_msg.as_slice()) {
            Ok(acts) => Ok(self.put_state(instance_id, st, acts)),
            Err(e) => {
                self.put_state(instance_id, st, no_actions());
                Err(e)
            },
        }
    }

    /// Takes an INIT for instance `instance_id`.
    pub fn handle_init(&mut self, msg: CTRBCMsg, instance_id: usize) -> (acts: Vec<Action>)
        requires
            old(self).wf(),
        ensures
            final(self).stepped(
                old(self),
                instance_id,
                init_step(old(self).cfg, old(self).state_of(instance_id), msg@).0,
            ),
            actions_view(acts@) == emitted(
                old(self).alive,
                init_step(old(self).cfg, old(self).state_of(instance_id), msg@).1,
            ),
    {
        let mut st = self.take_state(instance_id);
        let cfg = self.cfg;
        let acts = st.absorb_init(&cfg, msg);
        self.put_state(instance_id, st, acts)
    }

    /// Takes an ECHO for instance `instance_id`.
    pub fn handle_echo(&mut self, msg: CTRBCMsg, instance_id: usize) -> (acts: Vec<Action>)
        requires
            old(self).wf(),
        ensures
            final(self).stepped(
                old(self),
                instance_id,
                echo_step(old(self).cfg, old(self).state_of(instance_id), msg@).0,
            ),
            actions_view(acts@) == emitted(
                old(self).alive,
                echo_step(old(self).cfg, old(self).state_of(instance_id), msg@).1,
            ),
    {
        let mut st = self.take_state(instance_id);
        let cfg = self.cfg;
        let acts = st.absorb_echo(&cfg, msg);
        self.put_state(instance_id, st, acts)
    }

    /// Takes a VOTE for instance `instance_id`.
    pub fn handle_vote(&mut self, msg: CTRBCMsg, instance_id: usize) -> (acts: Vec<Action>)
        requires
            old(self).wf(),
        ensures
            final(self).stepped(
                old(self),
                instance_id,
                vote_step(old(self).cfg, old(self).state_of(instance_id), msg@).0,
            ),
            actions_view(acts@) == emitted(
                old(self).alive,
                vote_step(old(self).cfg, old(self).state_of(instance_id), msg@).1,
            ),
    {
        let mut st = self.take_state(instance_id);
        let cfg = self.cfg;
        let acts = st.absorb_vote(&cfg, msg);
        self.put_state(instance_id, st, acts)
    }

    /// Takes a READY for instance `instance_id`.
    pub fn handle_ready(&mut self, msg: CTRBCMsg, instance_id: usize) -> (acts: Vec<Action>)
        requires
            old(self).wf(),
        ensures
            final(self).stepped(
                old(self),
                instance_id,
                ready_step(old(self).cfg, old(self).state_of(instance_id), msg@).0,
            ),
            actions_view(acts@) == emitted(
                old(self).alive,
                ready_step(old(self).cfg, old(self).state_of(instance_id), msg@).1,
            ),
    {
        let mut st = self.take_state(instance_id);
        let cfg = self.cfg;
        let acts = st.absorb_ready(&cfg, msg);
        self.put_state(instance_id, st, acts)
    }

    /// Whether the tag of `wrapper_msg` is the sender's tag over its bytes.
    pub fn check_proposal(&self, wrapper_msg: &WrapperMsg) -> (ok: bool)
        requires
            self.sec_key_map@.contains_key(wrapper_msg.sender),
        ensures
            ok == self.authentic(wrapper_msg),
    {
        match self.sec_key_map.get(&wrapper_msg.sender) {
            Some(key) => verf_mac(
                wrapper_msg.encoded.as_slice(),
                key.as_slice(),
                wrapper_msg.mac.as_slice(),
            ),
            None => false,
        }
    }

    /// Takes a message from the network: one whose tag does not hold, or
    /// whose sender has no key, is dropped; any other goes to the handler of
    /// its kind.
    pub fn process_msg(&mut self, wrapper_msg: WrapperMsg) -> (acts: Vec<Action>)
        requires
            old(self).wf(),
        ensures
            !old(self).authentic(&wrapper_msg) ==> actions_view(acts@) == Seq::<
                ActionView,
            >::empty() && final(self).stepped(
                old(self),
                wrapper_msg.protmsg@.instance(),
                old(self).state_of(wrapper_msg.protmsg@.instance()),
            ),
            old(self).authentic(&wrapper_msg) ==> final(self).stepped(
                old(self),
                wrapper_msg.protmsg@.instance(),
                dispatch(
                    old(self).cfg,
                    old(self).state_of(wrapper_msg.protmsg@.instance()),
                    wrapper_msg.protmsg@,
                ).0,
            ) && actions_view(acts@) == emitted(
                old(self).alive,
                dispatch(
                    old(self).cfg,
                    old(self).state_of(wrapper_msg.protmsg@.instance()),
                    wrapper_msg.protmsg@,
                ).1,
            ),
    {
        if !self.sec_key_map.contains_key(&wrapper_msg.sender) || !self.check_proposal(
            &wrapper_msg,
        ) {
            return no_actions();
        }
        match wrapper_msg.protmsg {
            ProtMsg::Init(main_msg, instance_id) => self.handle_init(main_msg, instance_id),
            ProtMsg::Echo(main_msg, instance_id) => self.handle_echo(main_msg, instance_id),
            ProtMsg::Vote(main_msg, instance_id) => self.handle_vote(main_msg, instance_id),
            ProtMsg::Ready(main_msg, instance_id) => self.handle_ready(main_msg, instance_id),
        }
    }

    /// The report to the synchronizer that this party has delivered `data`.
    pub fn terminate(&self, data: Vec<u8>) -> (m: SyncMsg)
        ensures
            m.sender == self.cfg.params.myid,
            m.state == SyncState::COMPLETED,
            m.value == data,
    {
        SyncMsg { sender: self.cfg.params.myid, state: SyncState::COMPLETED, value: data }
    }
}

} // verus!
