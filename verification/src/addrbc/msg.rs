//! The messages of the dispersal variant and what a handler asks its caller
//! to do.

use crate::codec::clone_bytes;
use crate::hash;
use crate::share::{Share, ShareView};
use vstd::prelude::*;

verus! {

/// A payload with its originator, as mathematical values.
pub struct MsgView {
    pub content: Seq<u8>,
    pub origin: usize,
}

/// A payload with its originator.
#[derive(Debug)]
pub struct Msg {
    pub content: Vec<u8>,
    pub origin: usize,
}

impl View for Msg {
    type V = MsgView;

    open spec fn view(&self) -> MsgView {
        MsgView { content: self.content@, origin: self.origin }
    }
}

impl Msg {
    /// Copies the value.
    pub fn duplicate(&self) -> (r: Msg)
        ensures
            r@ == self@,
    {
        Msg { content: clone_bytes(&self.content), origin: self.origin }
    }
}

/// A fragment under the hash of its payload, as mathematical values.
pub struct ShareMsgView {
    pub share: ShareView,
    pub hash: Seq<u8>,
    pub origin: usize,
}

/// A fragment under the hash of its payload, with the replica that sends
/// it.
#[derive(Debug)]
pub struct ShareMsg {
    pub share: Share,
    pub hash: hash::Hash,
    pub origin: usize,
}

impl View for ShareMsg {
    type V = ShareMsgView;

    open spec fn view(&self) -> ShareMsgView {
        ShareMsgView { share: self.share@, hash: self.hash@, origin: self.origin }
    }
}

impl ShareMsg {
    /// Copies the value.
    pub fn duplicate(&self) -> (r: ShareMsg)
        ensures
            r@ == self@,
    {
        ShareMsg { share: self.share.duplicate(), hash: self.hash, origin: self.origin }
    }
}

/// A protocol message with the id of the broadcast instance it belongs to.
#[derive(Debug)]
pub enum ProtMsg {
    Sendall(Msg, usize),
    Echo(ShareMsg, usize),
    Ready(ShareMsg, usize),
}

/// A protocol message, as mathematical values.
pub enum ProtMsgView {
    Sendall(MsgView, usize),
    Echo(ShareMsgView, usize),
    Ready(ShareMsgView, usize),
}

impl View for ProtMsg {
    type V = ProtMsgView;

    open spec fn view(&self) -> ProtMsgView {
        match self {
            ProtMsg::Sendall(m, id) => ProtMsgView::Sendall(m@, *id),
            ProtMsg::Echo(m, id) => ProtMsgView::Echo(m@, *id),
            ProtMsg::Ready(m, id) => ProtMsgView::Ready(m@, *id),
        }
    }
}

impl ProtMsgView {
    /// The instance that the message belongs to.
    pub open spec fn instance(self) -> usize {
        match self {
            ProtMsgView::Sendall(_, id) => id,
            ProtMsgView::Echo(_, id) => id,
            ProtMsgView::Ready(_, id) => id,
        }
    }
}

/// What a handler asks its caller to do, as mathematical values.
pub enum ActionView {
    Sendall(MsgView),
    Echo(usize, ShareMsgView),
    Ready(ShareMsgView),
}

/// What a handler asks its caller to do, in the order in which it is to be
/// done.
#[derive(Debug)]
pub enum Action {
    /// Send the payload to every other replica.
    Sendall(Msg),
    /// Send ECHO with the fragment to the one replica named.
    Echo(usize, ShareMsg),
    /// Send READY with the fragment to every replica.
    Ready(ShareMsg),
}

impl View for Action {
    type V = ActionView;

    open spec fn view(&self) -> ActionView {
        match self {
            Action::Sendall(m) => ActionView::Sendall(m@),
            Action::Echo(to, m) => ActionView::Echo(*to, m@),
            Action::Ready(m) => ActionView::Ready(m@),
        }
    }
}

/// The actions that a vector of actions stands for.
pub open spec fn actions_view(v: Seq<Action>) -> Seq<ActionView> {
    Seq::new(v.len(), |i: int| v[i]@)
}

/// Appends `more` to `acts`.
pub fn append_actions(acts: &mut Vec<Action>, more: Vec<Action>)
    ensures
        actions_view(final(acts)@) == actions_view(old(acts)@) + actions_view(more@),
{
    let mut more = more;
    let ghost before = acts@;
    let ghost added = more@;
    acts.append(&mut more);
    assert(actions_view(acts@) =~= actions_view(before) + actions_view(added));
}

/// Appends one action to `acts`.
pub fn push_action(acts: &mut Vec<Action>, a: Action)
    ensures
        actions_view(final(acts)@) == actions_view(old(acts)@).push(a@),
{
    acts.push(a);
    assert(actions_view(acts@) =~= actions_view(old(acts)@).push(a@));
}

/// The empty list of actions.
pub fn no_actions() -> (acts: Vec<Action>)
    ensures
        actions_view(acts@) == Seq::<ActionView>::empty(),
{
    let acts: Vec<Action> = Vec::new();
    assert(actions_view(acts@) =~= Seq::<ActionView>::empty());
    acts
}

/// The list of one action.
pub fn one_action(a: Action) -> (acts: Vec<Action>)
    ensures
        actions_view(acts@) == seq![a@],
{
    let mut acts: Vec<Action> = Vec::new();
    acts.push(a);
    assert(actions_view(acts@) =~= seq![a@]);
    acts
}

} // verus!
