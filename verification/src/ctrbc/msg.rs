//! The messages of the Merkle-authenticated variants and what a handler
//! asks its caller to do.

use crate::codec::clone_bytes;
use crate::merkle::{Proof, ProofView};
use vstd::prelude::*;

verus! {

/// A shard with its authentication path, as mathematical values.
pub struct MsgView {
    pub shard: Seq<u8>,
    pub mp: ProofView,
    pub origin: usize,
}

/// A shard with its authentication path and the replica that sends it.
#[derive(Debug)]
pub struct CTRBCMsg {
    pub shard: Vec<u8>,
    pub mp: Proof,
    pub origin: usize,
}

impl View for CTRBCMsg {
    type V = MsgView;

    open spec fn view(&self) -> MsgView {
        MsgView { shard: self.shard@, mp: self.mp@, origin: self.origin }
    }
}

impl CTRBCMsg {
    /// Copies the message.
    pub fn duplicate(&self) -> (r: CTRBCMsg)
        ensures
            r@ == self@,
    {
        CTRBCMsg { shard: clone_bytes(&self.shard), mp: self.mp.duplicate(), origin: self.origin }
    }

    /// Whether the authentication path binds the shard to the root that the
    /// message names.
    pub fn verify_mr_proof(&self) -> (ok: bool)
        ensures
            ok == self@.mp.binds(self@.shard),
    {
        self.mp.validate(self.shard.as_slice())
    }
}

/// A protocol message with the id of the broadcast instance it belongs to.
#[derive(Debug)]
pub enum ProtMsg {
    Init(CTRBCMsg, usize),
    Echo(CTRBCMsg, usize),
    Vote(CTRBCMsg, usize),
    Ready(CTRBCMsg, usize),
}

/// What a handler asks its caller to do, as mathematical values.
pub enum ActionView {
    Init(usize, MsgView),
    Echo(MsgView),
    Vote(MsgView),
    Ready(MsgView),
    Deliver(Seq<u8>),
}

/// What a handler asks its caller to do, in the order in which it is to be
/// done.
#[derive(Debug)]
pub enum Action {
    /// Send INIT with the message to the one replica named.
    Init(usize, CTRBCMsg),
    /// Send ECHO with the message to every other replica.
    Echo(CTRBCMsg),
    /// Send VOTE with the message to every other replica.
    Vote(CTRBCMsg),
    /// Send READY with the message to every other replica.
    Ready(CTRBCMsg),
    /// Hand the payload to the application: the instance has terminated.
    Deliver(Vec<u8>),
}

impl View for Action {
    type V = ActionView;

    open spec fn view(&self) -> ActionView {
        match self {
            Action::Init(to, m) => ActionView::Init(*to, m@),
            Action::Echo(m) => ActionView::Echo(m@),
            Action::Vote(m) => ActionView::Vote(m@),
            Action::Ready(m) => ActionView::Ready(m@),
            Action::Deliver(p) => ActionView::Deliver(p@),
        }
    }
}

/// The actions that a vector of actions stands for.
pub open spec fn actions_view(v: Seq<Action>) -> Seq<ActionView> {
    Seq::new(v.len(), |i: int| v[i]@)
}

/// Appends `more` to `acts`.
pub fn append_actions(acts: &mut Vec<Action>, more: Vec<Action>)
    ensures
        actions_view(final(acts)@) == actions_view(old(acts)@) + actions_view(more@),
{
    let mut more = more;
    let ghost before = acts@;
    let ghost added = more@;
    acts.append(&mut more);
    assert(actions_view(acts@) =~= actions_view(before) + actions_view(added));
}

/// Appends one action to `acts`.
pub fn push_action(acts: &mut Vec<Action>, a: Action)
    ensures
        actions_view(final(acts)@) == actions_view(old(acts)@).push(a@),
{
    acts.push(a);
    assert(actions_view(acts@) =~= actions_view(old(acts)@).push(a@));
}

/// The empty list of actions.
pub fn no_actions() -> (acts: Vec<Action>)
    ensures
        actions_view(acts@) == Seq::<ActionView>::empty(),
{
    let acts: Vec<Action> = Vec::new();
    assert(actions_view(acts@) =~= Seq::<ActionView>::empty());
    acts
}

} // verus!
