//! The transitions of one instance, as functions from the state before and
//! the message received to the state after and the actions to take.

use crate::codec::{concat, reconstructed, rs_encode};
use crate::ctrbc::msg::{ActionView, MsgView};
use crate::ctrbc::rbc_state::StateView;
use crate::merkle::{leaf_hashes, merkle_root, path_of, ProofView};
use crate::params::{
    amplification_threshold, early_ready_threshold, latched_threshold, optimistic_threshold,
    quorum, ready_latch_threshold, vote_threshold, Params,
};
use crate::status::{StartError, Status};
use crate::store::{count, lookup, slots, RecordView};
use vstd::prelude::*;

verus! {

/// The parameters of the network and the variant that is run.
#[derive(Clone, Copy, Debug)]
pub struct Config {
    pub params: Params,
    /// Whether the VOTE phase and the lower delivery thresholds are in use.
    pub optimistic: bool,
}

impl Config {
    /// Number of parties, as an integer.
    pub open spec fn n(self) -> int {
        self.params.num_nodes as int
    }

    /// Number of faults tolerated, as an integer.
    pub open spec fn f(self) -> int {
        self.params.num_faults as int
    }

    /// The id of this party.
    pub open spec fn me(self) -> usize {
        self.params.myid
    }
}

/// What a party learns from rebuilding the payload behind a root.
pub struct Commit {
    /// This party's own shard.
    pub shard: Seq<u8>,
    /// The authentication path of that shard.
    pub proof: ProofView,
    /// The payload.
    pub message: Seq<u8>,
}

/// The authentication path of shard `i` in the tree over `all`.
pub open spec fn proof_at(all: Seq<Seq<u8>>, i: int) -> ProofView {
    ProofView {
        root: merkle_root(all),
        index: i as nat,
        leaves: all.len(),
        path: path_of(leaf_hashes(all), i),
    }
}

/// The payload behind `h` as far as the shards `recs` received under `h`
/// determine it: the shards are decoded, and the tree over the full set of
/// `n` shards must have `h` as its root.
pub open spec fn recovered(c: Config, recs: Seq<RecordView>, h: Seq<u8>) -> Option<Commit> {
    match reconstructed(slots(recs, h, c.n() as nat), c.f() + 1, c.n()) {
        Ok(all) => if all.len() == c.n() && merkle_root(all) == h {
            Some(commit_from(c, all))
        } else {
            None
        },
        Err(_) => None,
    }
}

/// What a party takes from the full set of shards: its own shard, the
/// authentication path of that shard, and the payload, which is the first
/// `f + 1` shards joined.
pub open spec fn commit_from(c: Config, all: Seq<Seq<u8>>) -> Commit {
    Commit {
        shard: all[c.me() as int],
        proof: proof_at(all, c.me() as int),
        message: concat(all.take(c.f() + 1)),
    }
}

/// The message that carries this party's own shard.
pub open spec fn own_msg(c: Config, shard: Seq<u8>, proof: ProofView) -> MsgView {
    MsgView { shard, mp: proof, origin: c.me() }
}

/// The message that this party sends before it has rebuilt the payload:
/// its own fragment if it has one, else the fragment that `msg` carries.
pub open spec fn fragment_or(c: Config, s: StateView, msg: MsgView) -> MsgView {
    match s.fragment {
        Some((shard, proof)) => own_msg(c, shard, proof),
        None => own_msg(c, msg.shard, msg.mp),
    }
}

/// The record of the shard that `msg` carries.
pub open spec fn record_of(msg: MsgView) -> RecordView {
    RecordView { root: msg.mp.root, origin: msg.origin, number: msg.origin, shard: msg.shard }
}

/// The state after the party has committed to `h` with what it rebuilt.
pub open spec fn committed(s: StateView, h: Seq<u8>, cm: Commit) -> StateView {
    StateView {
        echo_root: Some(h),
        fragment: Some((cm.shard, cm.proof)),
        message: Some(cm.message),
        status: s.status.later(Status::OUTPUT),
        ..s
    }
}

/// The state after the payload was delivered.
pub open spec fn delivered(s: StateView) -> StateView {
    StateView { terminated: true, status: Status::TERMINATED, ..s }
}

/// Whether a VOTE or READY is taken as authentic: its shard is the one
/// recorded from the sender's ECHO under the same root, or its proof holds.
pub open spec fn accepts(s: StateView, msg: MsgView) -> bool {
    lookup(s.echos, msg.mp.root, msg.origin) == Some(msg.shard) || msg.mp.binds(msg.shard)
}

// ---------------------------------------------------------------- READY

/// With `f + 1` READYs under a root that this party has not committed to,
/// it rebuilds the payload from them, commits, adds its own shard to the
/// READYs and sends READY.
pub open spec fn amplified(c: Config, s: StateView, h: Seq<u8>) -> (StateView, Seq<ActionView>) {
    if count(s.readys, h) == amplification_threshold(c.f()) && s.echo_root != Some(h) {
        match recovered(c, s.readys, h) {
            Some(cm) => {
                let s1 = committed(s, h, cm);
                let own = RecordView {
                    root: h,
                    origin: c.me(),
                    number: c.me(),
                    shard: cm.shard,
                };
                let s2 = if lookup(s1.readys, h, c.me()) is None {
                    StateView { readys: s1.readys.push(own), ..s1 }
                } else {
                    s1
                };
                (s2, seq![ActionView::Ready(own_msg(c, cm.shard, cm.proof))])
            },
            None => (s, Seq::empty()),
        }
    } else {
        (s, Seq::empty())
    }
}

/// With `2f + 1` READYs under one root the optimistic variant remembers
/// that a READY quorum exists.
pub open spec fn latched(c: Config, s: StateView, h: Seq<u8>) -> StateView {
    if c.optimistic && count(s.readys, h) >= ready_latch_threshold(c.f()) {
        StateView { ready_quorum_reached: true, ..s }
    } else {
        s
    }
}

/// With `n - f` READYs under a root the party delivers: the payload it
/// holds where it has committed to that root, else the payload that it
/// rebuilds from the READYs, committing to the root as it does. Where
/// nothing can be rebuilt, nothing is delivered.
pub open spec fn finished(c: Config, s: StateView, h: Seq<u8>) -> (StateView, Seq<ActionView>) {
    if count(s.readys, h) < quorum(c.n(), c.f()) {
        (s, Seq::empty())
    } else if s.echo_root == Some(h) && s.message is Some {
        (delivered(s), seq![ActionView::Deliver(s.message.unwrap())])
    } else {
        match recovered(c, s.readys, h) {
            Some(cm) => (delivered(committed(s, h, cm)), seq![ActionView::Deliver(cm.message)]),
            None => (s, Seq::empty()),
        }
    }
}

/// The transition on a READY.
pub open spec fn ready_step(c: Config, s: StateView, msg: MsgView) -> (StateView, Seq<ActionView>) {
    let h = msg.mp.root;
    if s.terminated || !accepts(s, msg) || lookup(s.readys, h, msg.origin) is Some {
        (s, Seq::empty())
    } else {
        let s1 = StateView { readys: s.readys.push(record_of(msg)), ..s };
        let (s2, a2) = amplified(c, s1, h);
        let s3 = latched(c, s2, h);
        let (s4, a4) = finished(c, s3, h);
        (s4, a2 + a4)
    }
}

// ----------------------------------------------------------------- VOTE

/// The state after an early READY was sent.
pub open spec fn ready_sent(s: StateView) -> StateView {
    StateView { sent_ready: true, status: s.status.later(Status::READY), ..s }
}

/// The transition on a VOTE.
pub open spec fn vote_step(c: Config, s: StateView, msg: MsgView) -> (StateView, Seq<ActionView>) {
    let h = msg.mp.root;
    if !c.optimistic || s.terminated || !accepts(s, msg) || lookup(s.votes, h, msg.origin)
        is Some {
        (s, Seq::empty())
    } else {
        let s1 = StateView { votes: s.votes.push(record_of(msg)), ..s };
        if !s1.sent_ready && count(s1.votes, h) >= early_ready_threshold(c.n(), c.f()) {
            (ready_sent(s1), seq![ActionView::Ready(fragment_or(c, s1, msg))])
        } else {
            (s1, Seq::empty())
        }
    }
}

// ----------------------------------------------------------------- ECHO

/// With `ceil(n / 2)` ECHOs under one root the optimistic variant sends its
/// VOTE, once.
pub open spec fn early_vote(c: Config, s: StateView, msg: MsgView, size: nat) -> (
    StateView,
    Seq<ActionView>,
) {
    if c.optimistic && !s.sent_vote && size >= vote_threshold(c.n()) {
        (StateView { sent_vote: true, ..s }, seq![ActionView::Vote(fragment_or(c, s, msg))])
    } else {
        (s, Seq::empty())
    }
}

/// With `ceil((n + f - 1) / 2)` ECHOs under one root the optimistic variant
/// sends its early READY, once.
pub open spec fn early_ready(c: Config, s: StateView, msg: MsgView, size: nat) -> (
    StateView,
    Seq<ActionView>,
) {
    if c.optimistic && !s.sent_ready && size >= early_ready_threshold(c.n(), c.f()) {
        (ready_sent(s), seq![ActionView::Ready(fragment_or(c, s, msg))])
    } else {
        (s, Seq::empty())
    }
}

/// Whether the optimistic variant may deliver on `size` ECHOs under one
/// root: `ceil((n + 2f - 2) / 2)` of them, or `ceil((n - f + 1) / 2)` once
/// a READY quorum was seen.
pub open spec fn may_deliver_early(c: Config, s: StateView, size: nat) -> bool {
    c.optimistic && !s.terminated && (size >= optimistic_threshold(c.n(), c.f()) || (
    s.ready_quorum_reached && size >= latched_threshold(c.n(), c.f())))
}

/// Where the optimistic variant may deliver early, it rebuilds the payload
/// from the ECHOs under `h`, commits, sends READY and delivers.
pub open spec fn early_delivery(c: Config, s: StateView, h: Seq<u8>, size: nat) -> (
    StateView,
    Seq<ActionView>,
) {
    if may_deliver_early(c, s, size) {
        match recovered(c, s.echos, h) {
            Some(cm) => (
                delivered(committed(s, h, cm)),
                seq![
                    ActionView::Ready(own_msg(c, cm.shard, cm.proof)),
                    ActionView::Deliver(cm.message),
                ],
            ),
            None => (s, Seq::empty()),
        }
    } else {
        (s, Seq::empty())
    }
}

/// With exactly `n - f` ECHOs under `h` and no root committed to, the
/// party rebuilds the payload, commits, takes its own READY and sends it.
pub open spec fn quorum_commit(c: Config, s: StateView, h: Seq<u8>, size: nat) -> (
    StateView,
    Seq<ActionView>,
) {
    if !s.terminated && size == quorum(c.n(), c.f()) && s.echo_root is None {
        match recovered(c, s.echos, h) {
            Some(cm) => {
                let own = own_msg(c, cm.shard, cm.proof);
                let (s1, a1) = ready_step(c, committed(s, h, cm), own);
                (s1, a1.push(ActionView::Ready(own)))
            },
            None => (s, Seq::empty()),
        }
    } else {
        (s, Seq::empty())
    }
}

/// With ECHOs from all `n` replicas under the root committed to, the party
/// sends READY and delivers.
pub open spec fn full_delivery(c: Config, s: StateView, h: Seq<u8>, size: nat) -> (
    StateView,
    Seq<ActionView>,
) {
    if !s.terminated && size == c.n() && s.echo_root == Some(h) && s.message is Some
        && s.fragment is Some {
        (
            delivered(s),
            seq![
                ActionView::Ready(own_msg(c, s.fragment.unwrap().0, s.fragment.unwrap().1)),
                ActionView::Deliver(s.message.unwrap()),
            ],
        )
    } else {
        (s, Seq::empty())
    }
}

/// The transition on an ECHO.
pub open spec fn echo_step(c: Config, s: StateView, msg: MsgView) -> (StateView, Seq<ActionView>) {
    let h = msg.mp.root;
    if s.terminated || !msg.mp.binds(msg.shard) || lookup(s.echos, h, msg.origin) is Some {
        (s, Seq::empty())
    } else {
        let s1 = StateView { echos: s.echos.push(record_of(msg)), ..s };
        let size = count(s1.echos, h);
        let (s2, a2) = early_vote(c, s1, msg, size);
        let (s3, a3) = early_ready(c, s2, msg, size);
        let (s4, a4) = early_delivery(c, s3, h, size);
        let (s5, a5) = quorum_commit(c, s4, h, size);
        let (s6, a6) = full_delivery(c, s5, h, size);
        (s6, a2 + a3 + a4 + a5 + a6)
    }
}

// ----------------------------------------------------------------- INIT

/// Whether an INIT is taken: the instance has not begun to echo, and the
/// proof binds the shard to this party's position in a tree of `n` leaves.
pub open spec fn init_ok(c: Config, s: StateView, msg: MsgView) -> bool {
    &&& !s.terminated
    &&& s.status.rank() <= Status::INIT.rank()
    &&& msg.mp.index == c.me()
    &&& msg.mp.leaves == c.n()
    &&& msg.mp.binds(msg.shard)
}

/// The transition on an INIT: the party keeps the shard as its fragment,
/// sends its ECHO and takes that ECHO itself.
pub open spec fn init_step(c: Config, s: StateView, msg: MsgView) -> (StateView, Seq<ActionView>) {
    if !init_ok(c, s, msg) {
        (s, Seq::empty())
    } else {
        let own = own_msg(c, msg.shard, msg.mp);
        let s1 = StateView {
            fragment: Some((msg.shard, msg.mp)),
            sent_echo: true,
            status: Status::ECHO,
            ..s
        };
        let (s2, a2) = echo_step(c, s1, own);
        (s2, seq![ActionView::Echo(own)] + a2)
    }
}

/// The INITs for the replicas below `upto` other than this party: each
/// carries the replica's shard, or an empty shard where this party is set
/// to misbehave.
pub open spec fn inits(c: Config, honest: bool, all: Seq<Seq<u8>>, upto: int) -> Seq<ActionView>
    decreases upto,
{
    if upto <= 0 {
        Seq::empty()
    } else if upto - 1 == c.me() {
        inits(c, honest, all, upto - 1)
    } else {
        inits(c, honest, all, upto - 1).push(
            ActionView::Init(
                (upto - 1) as usize,
                own_msg(
                    c,
                    if honest {
                        all[upto - 1]
                    } else {
                        Seq::empty()
                    },
                    proof_at(all, upto - 1),
                ),
            ),
        )
    }
}

/// The transition when this party starts a broadcast of `payload`.
pub open spec fn start_step(c: Config, honest: bool, s: StateView, payload: Seq<u8>) -> Result<
    (StateView, Seq<ActionView>),
    StartError,
> {
    if payload.len() == 0 {
        Err(StartError::EmptyPayload)
    } else if s.terminated || s.status.rank() > Status::INIT.rank() {
        Err(StartError::NotWaiting)
    } else {
        let all = rs_encode((c.f() + 1) as nat, c.n() as nat, payload);
        let mine = own_msg(c, all[c.me() as int], proof_at(all, c.me() as int));
        let s1 = StateView {
            status: Status::INIT,
            fragment: Some((mine.shard, mine.mp)),
            ..s
        };
        let (s2, a2) = init_step(c, s1, mine);
        Ok((s2, inits(c, honest, all, c.n()) + a2))
    }
}

} // verus!
