//! The messages of the hash-vector variant and what a handler asks its
//! caller to do.

use crate::share::{Share, ShareView};
use crate::hash;
use crate::merkle::{clone_hashes, hashes_view};
use vstd::prelude::*;

verus! {

/// A SEND, as mathematical values.
pub struct SendView {
    pub id: u64,
    pub d_j: ShareView,
    pub d_hashes: Seq<Seq<u8>>,
    pub origin: usize,
}

/// The originator's message to replica `j`: its shard and the hashes of all
/// shards.
#[derive(Debug)]
pub struct SendMsg {
    pub id: u64,
    pub d_j: Share,
    pub d_hashes: Vec<hash::Hash>,
    pub origin: usize,
}

impl View for SendMsg {
    type V = SendView;

    open spec fn view(&self) -> SendView {
        SendView {
            id: self.id,
            d_j: self.d_j@,
            d_hashes: hashes_view(self.d_hashes@),
            origin: self.origin,
        }
    }
}

impl SendMsg {
    /// Copies the value.
    pub fn duplicate(&self) -> (r: SendMsg)
        ensures
            r@ == self@,
    {
        SendMsg {
            id: self.id,
            d_j: self.d_j.duplicate(),
            d_hashes: clone_hashes(&self.d_hashes),
            origin: self.origin,
        }
    }
}

/// An ECHO, as mathematical values.
pub struct EchoView {
    pub id: u64,
    pub d_i: ShareView,
    pub pi_i: ShareView,
    pub c: Seq<u8>,
    pub origin: usize,
}

/// A party's shard of the payload and its shard of the hash vector, under
/// the hash of the vector.
#[derive(Debug)]
pub struct EchoMsg {
    pub id: u64,
    pub d_i: Share,
    pub pi_i: Share,
    pub c: hash::Hash,
    pub origin: usize,
}

impl View for EchoMsg {
    type V = EchoView;

    open spec fn view(&self) -> EchoView {
        EchoView { id: self.id, d_i: self.d_i@, pi_i: self.pi_i@, c: self.c@, origin: self.origin }
    }
}

impl EchoMsg {
    /// Copies the value.
    pub fn duplicate(&self) -> (r: EchoMsg)
        ensures
            r@ == self@,
    {
        EchoMsg {
            id: self.id,
            d_i: self.d_i.duplicate(),
            pi_i: self.pi_i.duplicate(),
            c: self.c,
            origin: self.origin,
        }
    }
}

/// A READY, as mathematical values.
pub struct ReadyView {
    pub id: u64,
    pub c: Seq<u8>,
    pub pi_i: ShareView,
    pub origin: usize,
}

/// A party's shard of the hash vector, under the hash of the vector.
#[derive(Debug)]
pub struct ReadyMsg {
    pub id: u64,
    pub c: hash::Hash,
    pub pi_i: Share,
    pub origin: usize,
}

impl View for ReadyMsg {
    type V = ReadyView;

    open spec fn view(&self) -> ReadyView {
        ReadyView { id: self.id, c: self.c@, pi_i: self.pi_i@, origin: self.origin }
    }
}

impl ReadyMsg {
    /// Copies the value.
    pub fn duplicate(&self) -> (r: ReadyMsg)
        ensures
            r@ == self@,
    {
        ReadyMsg { id: self.id, c: self.c, pi_i: self.pi_i.duplicate(), origin: self.origin }
    }
}

/// A protocol message with the id of the broadcast instance it belongs to.
#[derive(Debug)]
pub enum ProtMsg {
    Init(SendMsg, usize),
    Echo(EchoMsg, usize),
    Ready(ReadyMsg, usize),
}

/// A protocol message, as mathematical values.
pub enum ProtMsgView {
    Init(SendView, usize),
    Echo(EchoView, usize),
    Ready(ReadyView, usize),
}

impl View for ProtMsg {
    type V = ProtMsgView;

    open spec fn view(&self) -> ProtMsgView {
        match self {
            ProtMsg::Init(m, id) => ProtMsgView::Init(m@, *id),
            ProtMsg::Echo(m, id) => ProtMsgView::Echo(m@, *id),
            ProtMsg::Ready(m, id) => ProtMsgView::Ready(m@, *id),
        }
    }
}

impl ProtMsgView {
    /// The instance that the message belongs to.
    pub open spec fn instance(self) -> usize {
        match self {
            ProtMsgView::Init(_, id) => id,
            ProtMsgView::Echo(_, id) => id,
            ProtMsgView::Ready(_, id) => id,
        }
    }

    /// The replica that the message names as its origin.
    pub open spec fn origin(self) -> usize {
        match self {
            ProtMsgView::Init(m, _) => m.origin,
            ProtMsgView::Echo(m, _) => m.origin,
            ProtMsgView::Ready(m, _) => m.origin,
        }
    }
}

/// What a handler asks its caller to do, as mathematical values.
pub enum ActionView {
    Send(usize, SendView),
    Echo(EchoView),
    Ready(ReadyView),
    Deliver(Seq<u8>),
}

/// What a handler asks its caller to do, in the order in which it is to be
/// done.
#[derive(Debug)]
pub enum Action {
    /// Send the SEND to the one replica named.
    Send(usize, SendMsg),
    /// Send the ECHO to every other replica.
    Echo(EchoMsg),
    /// Send the READY to every other replica.
    Ready(ReadyMsg),
    /// Hand the payload to the application: the instance has terminated. An
    /// empty payload says that the broadcast was found inconsistent.
    Deliver(Vec<u8>),
}

impl View for Action {
    type V = ActionView;

    open spec fn view(&self) -> ActionView {
        match self {
            Action::Send(to, m) => ActionView::Send(*to, m@),
            Action::Echo(m) => ActionView::Echo(m@),
            Action::Ready(m) => ActionView::Ready(m@),
            Action::Deliver(p) => ActionView::Deliver(p@),
        }
    }
}

/// The actions that a vector of actions stands for.
pub open spec fn actions_view(v: Seq<Action>) -> Seq<ActionView> {
    Seq::new(v.len(), |i: int| v[i]@)
}

/// Appends `more` to `acts`.
pub fn append_actions(acts: &mut Vec<Action>, more: Vec<Action>)
    ensures
        actions_view(final(acts)@) == actions_view(old(acts)@) + actions_view(more@),
{
    let mut more = more;
    let ghost before = acts@;
    let ghost added = more@;
    acts.append(&mut more);
    assert(actions_view(acts@) =~= actions_view(before) + actions_view(added));
}

/// Appends one action to `acts`.
pub fn push_action(acts: &mut Vec<Action>, a: Action)
    ensures
        actions_view(final(acts)@) == actions_view(old(acts)@).push(a@),
{
    acts.push(a);
    assert(actions_view(acts@) =~= actions_view(old(acts)@).push(a@));
}

/// The empty list of actions.
pub fn no_actions() -> (acts: Vec<Action>)
    ensures
        actions_view(acts@) == Seq::<ActionView>::empty(),
{
    let acts: Vec<Action> = Vec::new();
    assert(actions_view(acts@) =~= Seq::<ActionView>::empty());
    acts
}

/// The list of one action.
pub fn one_action(a: Action) -> (acts: Vec<Action>)
    ensures
        actions_view(acts@) == seq![a@],
{
    let mut acts: Vec<Action> = Vec::new();
    acts.push(a);
    assert(actions_view(acts@) =~= seq![a@]);
    acts
}

} // verus!
