//! What holds of every state that the transitions reach, and of every
//! sequence of transitions.

use crate::codec::concat;
use crate::ctrbc::context::{dispatch, ProtMsgView};
use crate::ctrbc::msg::{ActionView, MsgView};
use crate::ctrbc::rbc_state::{initial_state, StateView};
use crate::ctrbc::step::{
    accepts, amplified, committed, early_delivery, early_ready, early_vote, echo_step, finished, full_delivery, init_step, latched, quorum_commit, ready_step, record_of, recovered, start_step, vote_step, Config,
};
use crate::merkle::{authenticated, lemma_generated_proof_binds, merkle_root};
use crate::status::Status;
use crate::store::{lemma_lookup_some, lemma_push_record, lookup, unique, RecordView};
use vstd::prelude::*;

verus! {

/// Every shard in the store is bound to the root it is kept under by some
/// authentication path.
pub open spec fn disciplined(recs: Seq<RecordView>) -> bool {
    forall|i: int| 0 <= i < recs.len() ==> authenticated((#[trigger] recs[i]).root, recs[i].shard)
}

/// `m` is the payload of some set of `n` shards whose Merkle root is `h`.
pub open spec fn backed(c: Config, h: Seq<u8>, m: Seq<u8>) -> bool {
    exists|all: Seq<Seq<u8>>|
        all.len() == c.n() && #[trigger] merkle_root(all) == h && concat(all.take(c.f() + 1))
            == m
}

/// What holds of every state of an instance:
/// no sender occurs twice under one root in any store; every stored shard
/// is authenticated; a party that has committed to a root holds a fragment
/// under that root and a payload that the root backs, and has reached the
/// output phase; a party that has delivered has committed and is in its
/// last phase.
pub open spec fn inv(c: Config, s: StateView) -> bool {
    &&& unique(s.echos)
    &&& unique(s.readys)
    &&& unique(s.votes)
    &&& disciplined(s.echos)
    &&& disciplined(s.readys)
    &&& disciplined(s.votes)
    &&& s.echo_root matches Some(h) ==> {
        &&& s.fragment is Some
        &&& s.fragment.unwrap().1.root == h
        &&& s.message is Some
        &&& backed(c, h, s.message.unwrap())
        &&& s.status.rank() >= Status::OUTPUT.rank()
    }
    &&& s.terminated ==> s.status == Status::TERMINATED && s.echo_root is Some
}

/// The initial state satisfies the invariant.
pub proof fn lemma_inv_initial(c: Config)
    ensures
        inv(c, initial_state()),
{
}

/// What was rebuilt behind `h` is backed by `h`, and the party's own shard
/// is authenticated under `h`.
pub proof fn lemma_recovered_backed(c: Config, recs: Seq<RecordView>, h: Seq<u8>)
    requires
        c.params.wf(),
        recovered(c, recs, h) is Some,
    ensures
        backed(c, h, recovered(c, recs, h).unwrap().message),
        authenticated(h, recovered(c, recs, h).unwrap().shard),
        recovered(c, recs, h).unwrap().proof.root == h,
        recovered(c, recs, h).unwrap().proof.binds(recovered(c, recs, h).unwrap().shard),
{
    let all = crate::codec::reconstructed(
        crate::store::slots(recs, h, c.n() as nat),
        c.f() + 1,
        c.n(),
    ).unwrap();
    assert(merkle_root(all) == h);
    lemma_generated_proof_binds(all, c.me() as int);
}

/// Adding an authenticated shard of a new sender keeps a store sound.
proof fn lemma_push_sound(recs: Seq<RecordView>, rec: RecordView)
    requires
        unique(recs),
        disciplined(recs),
        lookup(recs, rec.root, rec.origin) is None,
        authenticated(rec.root, rec.shard),
    ensures
        unique(recs.push(rec)),
        disciplined(recs.push(rec)),
        lookup(recs.push(rec), rec.root, rec.origin) == Some(rec.shard),
{
    lemma_push_record(recs, rec);
    assert forall|i: int| 0 <= i < recs.push(rec).len() implies authenticated(
        (#[trigger] recs.push(rec)[i]).root,
        recs.push(rec)[i].shard,
    ) by {
        if i < recs.len() {
            assert(recs.push(rec)[i] == recs[i]);
        }
    }
}

/// A VOTE or READY that is taken carries an authenticated shard.
proof fn lemma_accepted_authenticated(c: Config, s: StateView, msg: MsgView)
    requires
        inv(c, s),
        accepts(s, msg),
    ensures
        authenticated(msg.mp.root, msg.shard),
{
    if msg.mp.binds(msg.shard) {
    } else {
        lemma_lookup_some(s.echos, msg.mp.root, msg.origin);
        let i = choose|i: int|
            0 <= i < s.echos.len() && (#[trigger] s.echos[i]).root == msg.mp.root
                && s.echos[i].origin == msg.origin && s.echos[i].shard == msg.shard;
        assert(authenticated(s.echos[i].root, s.echos[i].shard));
    }
}

/// Committing to what was rebuilt keeps the invariant and does not go back
/// in phase.
proof fn lemma_committed_inv(c: Config, s: StateView, recs: Seq<RecordView>, h: Seq<u8>)
    requires
        c.params.wf(),
        inv(c, s),
        !s.terminated,
        recovered(c, recs, h) is Some,
    ensures
        inv(c, committed(s, h, recovered(c, recs, h).unwrap())),
        committed(s, h, recovered(c, recs, h).unwrap()).status.rank() >= s.status.rank(),
{
    lemma_recovered_backed(c, recs, h);
}

/// The commitment on `f + 1` READYs keeps the invariant, does not go back in
/// phase and loses no READY.
proof fn lemma_amplified(c: Config, s: StateView, h: Seq<u8>)
    requires
        c.params.wf(),
        inv(c, s),
        !s.terminated,
    ensures
        inv(c, amplified(c, s, h).0),
        !amplified(c, s, h).0.terminated,
        amplified(c, s, h).0.status.rank() >= s.status.rank(),
        amplified(c, s, h).0.echos == s.echos,
        amplified(c, s, h).0.votes == s.votes,
        forall|r: Seq<u8>, o: usize|
            lookup(s.readys, r, o) is Some ==> lookup(amplified(c, s, h).0.readys, r, o) is Some,
{
    if amplified(c, s, h).0 != s {
        let cm = recovered(c, s.readys, h).unwrap();
        lemma_committed_inv(c, s, s.readys, h);
        lemma_recovered_backed(c, s.readys, h);
        let s1 = committed(s, h, cm);
        let own = RecordView { root: h, origin: c.me(), number: c.me(), shard: cm.shard };
        if lookup(s1.readys, h, c.me()) is None {
            lemma_push_sound(s1.readys, own);
            lemma_push_record(s1.readys, own);
        }
    }
}

/// The delivery on a quorum of READYs keeps the invariant.
proof fn lemma_finished(c: Config, s: StateView, h: Seq<u8>)
    requires
        inv(c, s),
        !s.terminated,
    ensures
        inv(c, finished(c, s, h).0),
        finished(c, s, h).0.status.rank() >= s.status.rank(),
{
}

/// A READY keeps the invariant, never lowers the phase, and leaves a
/// state that ignores the same READY.
pub proof fn lemma_ready_step(c: Config, s: StateView, msg: MsgView)
    requires
        c.params.wf(),
        inv(c, s),
    ensures
        inv(c, ready_step(c, s, msg).0),
        ready_step(c, s, msg).0.status.rank() >= s.status.rank(),
        ready_step(c, s, msg).0.echos == s.echos,
        ready_step(c, s, msg).0.votes == s.votes,
        ready_step(c, ready_step(c, s, msg).0, msg) == (
            ready_step(c, s, msg).0,
            Seq::<ActionView>::empty(),
        ),
{
    let h = msg.mp.root;
    if s.terminated || !accepts(s, msg) || lookup(s.readys, h, msg.origin) is Some {
    } else {
        lemma_accepted_authenticated(c, s, msg);
        lemma_push_sound(s.readys, record_of(msg));
        let s1 = StateView { readys: s.readys.push(record_of(msg)), ..s };
        assert(inv(c, s1));
        lemma_amplified(c, s1, h);
        let s2 = amplified(c, s1, h).0;
        let s3 = latched(c, s2, h);
        assert(inv(c, s3));
        lemma_finished(c, s3, h);
        let s4 = finished(c, s3, h).0;
        assert(lookup(s1.readys, h, msg.origin) is Some);
        assert(lookup(s4.readys, h, msg.origin) is Some);
    }
}

/// A VOTE keeps the invariant, never lowers the phase, and leaves a state
/// that ignores the same VOTE.
pub proof fn lemma_vote_step(c: Config, s: StateView, msg: MsgView)
    requires
        c.params.wf(),
        inv(c, s),
    ensures
        inv(c, vote_step(c, s, msg).0),
        vote_step(c, s, msg).0.status.rank() >= s.status.rank(),
        vote_step(c, vote_step(c, s, msg).0, msg) == (
            vote_step(c, s, msg).0,
            Seq::<ActionView>::empty(),
        ),
{
    let h = msg.mp.root;
    if !c.optimistic || s.terminated || !accepts(s, msg) || lookup(s.votes, h, msg.origin)
        is Some {
    } else {
        lemma_accepted_authenticated(c, s, msg);
        lemma_push_sound(s.votes, record_of(msg));
    }
}

/// The delivery below a quorum keeps the invariant and the ECHOs.
pub proof fn lemma_early_delivery(c: Config, s: StateView, h: Seq<u8>, size: nat)
    requires
        c.params.wf(),
        inv(c, s),
    ensures
        inv(c, early_delivery(c, s, h, size).0),
        early_delivery(c, s, h, size).0.status.rank() >= s.status.rank(),
        early_delivery(c, s, h, size).0.echos == s.echos,
{
    if early_delivery(c, s, h, size).0 != s {
        lemma_committed_inv(c, s, s.echos, h);
    }
}

/// The commitment on a quorum of ECHOs keeps the invariant and the ECHOs.
pub proof fn lemma_quorum_commit(c: Config, s: StateView, h: Seq<u8>, size: nat)
    requires
        c.params.wf(),
        inv(c, s),
    ensures
        inv(c, quorum_commit(c, s, h, size).0),
        quorum_commit(c, s, h, size).0.status.rank() >= s.status.rank(),
        quorum_commit(c, s, h, size).0.echos == s.echos,
{
    if !s.terminated && size == crate::params::quorum(c.n(), c.f()) && s.echo_root is None {
        if recovered(c, s.echos, h) is Some {
            let cm = recovered(c, s.echos, h).unwrap();
            lemma_committed_inv(c, s, s.echos, h);
            lemma_ready_step(c, committed(s, h, cm), crate::ctrbc::step::own_msg(
                c,
                cm.shard,
                cm.proof,
            ));
        }
    }
}

/// Recording a new ECHO and casting the early VOTE and READY keeps the
/// invariant.
pub proof fn lemma_echo_insert(c: Config, s: StateView, msg: MsgView)
    requires
        c.params.wf(),
        inv(c, s),
        !s.terminated,
        msg.mp.binds(msg.shard),
        lookup(s.echos, msg.mp.root, msg.origin) is None,
    ensures
        ({
            let s1 = StateView { echos: s.echos.push(record_of(msg)), ..s };
            let size = crate::store::count(s1.echos, msg.mp.root);
            let s2 = early_vote(c, s1, msg, size).0;
            let s3 = early_ready(c, s2, msg, size).0;
            inv(c, s1) && inv(c, s3) && s3.echos == s1.echos && s3.status.rank()
                >= s.status.rank() && lookup(s1.echos, msg.mp.root, msg.origin) is Some
        }),
{
    assert(authenticated(msg.mp.root, msg.shard));
    lemma_push_sound(s.echos, record_of(msg));
}

/// An ECHO keeps the invariant, never lowers the phase, and leaves a state
/// that ignores the same ECHO.
pub proof fn lemma_echo_step(c: Config, s: StateView, msg: MsgView)
    requires
        c.params.wf(),
        inv(c, s),
    ensures
        inv(c, echo_step(c, s, msg).0),
        echo_step(c, s, msg).0.status.rank() >= s.status.rank(),
        echo_step(c, echo_step(c, s, msg).0, msg) == (
            echo_step(c, s, msg).0,
            Seq::<ActionView>::empty(),
        ),
{
    let h = msg.mp.root;
    if s.terminated || !msg.mp.binds(msg.shard) || lookup(s.echos, h, msg.origin) is Some {
    } else {
        lemma_echo_insert(c, s, msg);
        let s1 = StateView { echos: s.echos.push(record_of(msg)), ..s };
        let size = crate::store::count(s1.echos, h);
        let s2 = early_vote(c, s1, msg, size).0;
        let s3 = early_ready(c, s2, msg, size).0;
        lemma_early_delivery(c, s3, h, size);
        let s4 = early_delivery(c, s3, h, size).0;
        lemma_quorum_commit(c, s4, h, size);
        let s5 = quorum_commit(c, s4, h, size).0;
        let s6 = full_delivery(c, s5, h, size).0;
        assert(s6.echos == s1.echos);
        assert(lookup(s6.echos, h, msg.origin) is Some);
    }
}

/// An INIT keeps the invariant, never lowers the phase, and leaves a state
/// that ignores the same INIT.
pub proof fn lemma_init_step(c: Config, s: StateView, msg: MsgView)
    requires
        c.params.wf(),
        inv(c, s),
    ensures
        inv(c, init_step(c, s, msg).0),
        init_step(c, s, msg).0.status.rank() >= s.status.rank(),
        init_step(c, init_step(c, s, msg).0, msg) == (
            init_step(c, s, msg).0,
            Seq::<ActionView>::empty(),
        ),
{
    if crate::ctrbc::step::init_ok(c, s, msg) {
        let own = crate::ctrbc::step::own_msg(c, msg.shard, msg.mp);
        let s1 = StateView {
            fragment: Some((msg.shard, msg.mp)),
            sent_echo: true,
            status: Status::ECHO,
            ..s
        };
        assert(inv(c, s1));
        lemma_echo_step(c, s1, own);
    }
}

/// Starting a broadcast keeps the invariant and never lowers the phase; a
/// second start is refused.
pub proof fn lemma_start_step(c: Config, honest: bool, s: StateView, payload: Seq<u8>)
    requires
        c.params.wf(),
        inv(c, s),
        start_step(c, honest, s, payload) is Ok,
    ensures
        inv(c, start_step(c, honest, s, payload).unwrap().0),
        start_step(c, honest, s, payload).unwrap().0.status.rank() >= s.status.rank(),
{
    let all = crate::codec::rs_encode((c.f() + 1) as nat, c.n() as nat, payload);
    let mine = crate::ctrbc::step::own_msg(
        c,
        all[c.me() as int],
        crate::ctrbc::step::proof_at(all, c.me() as int),
    );
    let s1 = StateView { status: Status::INIT, fragment: Some((mine.shard, mine.mp)), ..s };
    assert(inv(c, s1));
    lemma_init_step(c, s1, mine);
}

/// **Monotone status, proof discipline, unique senders.** Whatever message
/// arrives, the state after it satisfies the invariant and its phase is no
/// earlier than before.
pub proof fn lemma_dispatch_preserves(c: Config, s: StateView, m: ProtMsgView)
    requires
        c.params.wf(),
        inv(c, s),
    ensures
        inv(c, dispatch(c, s, m).0),
        dispatch(c, s, m).0.status.rank() >= s.status.rank(),
{
    match m {
        ProtMsgView::Init(msg, _) => lemma_init_step(c, s, msg),
        ProtMsgView::Echo(msg, _) => lemma_echo_step(c, s, msg),
        ProtMsgView::Vote(msg, _) => lemma_vote_step(c, s, msg),
        ProtMsgView::Ready(msg, _) => lemma_ready_step(c, s, msg),
    }
}

/// **Idempotent absorption.** A message that was taken once changes
/// nothing and causes nothing when it arrives again.
pub proof fn lemma_replay_absorbed(c: Config, s: StateView, m: ProtMsgView)
    requires
        c.params.wf(),
        inv(c, s),
    ensures
        dispatch(c, dispatch(c, s, m).0, m) == (dispatch(c, s, m).0, Seq::<ActionView>::empty()),
{
    match m {
        ProtMsgView::Init(msg, _) => lemma_init_step(c, s, msg),
        ProtMsgView::Echo(msg, _) => lemma_echo_step(c, s, msg),
        ProtMsgView::Vote(msg, _) => lemma_vote_step(c, s, msg),
        ProtMsgView::Ready(msg, _) => lemma_ready_step(c, s, msg),
    }
}

/// **Frozen after delivery.** A party that has delivered ignores every
/// message.
pub proof fn lemma_terminated_frozen(c: Config, s: StateView, m: ProtMsgView)
    requires
        s.terminated,
    ensures
        dispatch(c, s, m) == (s, Seq::<ActionView>::empty()),
{
}

/// **A rebuild that gives no tree with the root changes nothing.** Where
/// the shards under `h` cannot be decoded, or the tree over the decoded set
/// has another root than `h`, neither the commitment on a quorum of ECHOs
/// nor the delivery below a quorum nor the commitment on `f + 1` READYs
/// changes the state or sends anything.
pub proof fn lemma_failed_rebuild_changes_nothing(c: Config, s: StateView, h: Seq<u8>, size: nat)
    ensures
        recovered(c, s.echos, h) is None ==> quorum_commit(c, s, h, size) == (
            s,
            Seq::<ActionView>::empty(),
        ) && early_delivery(c, s, h, size) == (s, Seq::<ActionView>::empty()),
        recovered(c, s.readys, h) is None ==> amplified(c, s, h) == (
            s,
            Seq::<ActionView>::empty(),
        ),
{
}

} // verus!
