//! What one party emits over a whole run of one instance.

use crate::ctrbc::context::{dispatch, ProtMsgView};
use crate::ctrbc::laws::{
    inv, lemma_dispatch_preserves, lemma_echo_step, lemma_ready_step, lemma_start_step,
};
use crate::ctrbc::msg::{ActionView, MsgView};
use crate::ctrbc::rbc_state::{initial_state, StateView};
use crate::ctrbc::step::{
    accepts, amplified, committed, early_delivery, early_ready, early_vote, echo_step, finished,
    full_delivery, init_ok, init_step, inits, latched, own_msg, proof_at, quorum_commit,
    ready_step, record_of, recovered, start_step, vote_step, Config,
};
use crate::status::Status;
use crate::store::{count, lookup};
use vstd::prelude::*;

verus! {

/// What can happen to an instance at one party.
pub enum Input {
    /// The application asks the party to broadcast a payload.
    Start(Seq<u8>),
    /// A message arrives.
    Message(ProtMsgView),
}

/// The kinds of action.
#[derive(PartialEq, Eq, Structural)]
pub enum Kind {
    Init,
    Echo,
    Vote,
    Ready,
    Deliver,
}

/// The kind of an action.
pub open spec fn kind_of(a: ActionView) -> Kind {
    match a {
        ActionView::Init(_, _) => Kind::Init,
        ActionView::Echo(_) => Kind::Echo,
        ActionView::Vote(_) => Kind::Vote,
        ActionView::Ready(_) => Kind::Ready,
        ActionView::Deliver(_) => Kind::Deliver,
    }
}

/// Number of actions of kind `k` among `acts`.
pub open spec fn tally(acts: Seq<ActionView>, k: Kind) -> nat
    decreases acts.len(),
{
    if acts.len() == 0 {
        0
    } else if kind_of(acts.last()) == k {
        tally(acts.drop_last(), k) + 1
    } else {
        tally(acts.drop_last(), k)
    }
}

/// The transition on one input; a start that is refused changes nothing.
pub open spec fn react(c: Config, honest: bool, s: StateView, input: Input) -> (
    StateView,
    Seq<ActionView>,
) {
    match input {
        Input::Start(payload) => match start_step(c, honest, s, payload) {
            Ok(next) => next,
            Err(_) => (s, Seq::empty()),
        },
        Input::Message(m) => dispatch(c, s, m),
    }
}

/// The state after the inputs in order, and everything emitted on the way.
pub open spec fn run(c: Config, honest: bool, s: StateView, inputs: Seq<Input>) -> (
    StateView,
    Seq<ActionView>,
)
    decreases inputs.len(),
{
    if inputs.len() == 0 {
        (s, Seq::empty())
    } else {
        let before = run(c, honest, s, inputs.drop_last());
        let last = react(c, honest, before.0, inputs.last());
        (last.0, before.1 + last.1)
    }
}

/// VOTEs that the party may still send.
pub open spec fn votes_left(s: StateView) -> nat {
    if s.sent_vote {
        0
    } else {
        1
    }
}

/// ECHOs that the party may still send.
pub open spec fn echoes_left(s: StateView) -> nat {
    if s.status.rank() <= Status::INIT.rank() && !s.terminated {
        1
    } else {
        0
    }
}

/// Payloads that the party may still deliver.
pub open spec fn deliveries_left(s: StateView) -> nat {
    if s.terminated {
        0
    } else {
        1
    }
}

/// READYs that the party may still send: one early, one when it commits
/// to a root, one when it delivers.
pub open spec fn readys_left(s: StateView) -> nat {
    (if s.sent_ready {
        0nat
    } else {
        1nat
    }) + (if s.echo_root is Some {
        0nat
    } else {
        1nat
    }) + (if s.terminated {
        0nat
    } else {
        1nat
    })
}

/// Whether the input makes a party that has committed to one root commit
/// to another: a READY that completes `f + 1` READYs under a root other
/// than the one committed to, from which the payload can be rebuilt.
pub open spec fn recommits(c: Config, s: StateView, input: Input) -> bool {
    match input {
        Input::Message(ProtMsgView::Ready(msg, _)) => s.echo_root is Some && ready_step(
            c,
            s,
            msg,
        ).0.echo_root != s.echo_root,
        _ => false,
    }
}

/// Whether no input of the run makes the party commit a second time.
pub open spec fn commits_once(c: Config, honest: bool, s: StateView, inputs: Seq<Input>) -> bool
    decreases inputs.len(),
{
    inputs.len() == 0 || (commits_once(c, honest, s, inputs.drop_last()) && !recommits(
        c,
        run(c, honest, s, inputs.drop_last()).0,
        inputs.last(),
    ))
}

/// Whether a transition from `s` stays within what `s` may still send of
/// VOTEs and ECHOs and may still deliver.
pub open spec fn pays(s: StateView, next: (StateView, Seq<ActionView>)) -> bool {
    &&& tally(next.1, Kind::Vote) + votes_left(next.0) <= votes_left(s)
    &&& tally(next.1, Kind::Echo) + echoes_left(next.0) <= echoes_left(s)
    &&& tally(next.1, Kind::Deliver) + deliveries_left(next.0) <= deliveries_left(s)
}

/// Whether a transition from `s` stays within the READYs that `s` may
/// still send.
pub open spec fn pays_ready(s: StateView, next: (StateView, Seq<ActionView>)) -> bool {
    tally(next.1, Kind::Ready) + readys_left(next.0) <= readys_left(s)
}

/// The tally of a concatenation is the sum of the tallies.
pub proof fn lemma_tally_concat(a: Seq<ActionView>, b: Seq<ActionView>, k: Kind)
    ensures
        tally(a + b, k) == tally(a, k) + tally(b, k),
    decreases b.len(),
{
    if b.len() == 0 {
        assert(a + b =~= a);
    } else {
        assert((a + b).drop_last() =~= a + b.drop_last());
        assert((a + b).last() == b.last());
        lemma_tally_concat(a, b.drop_last(), k);
    }
}

/// The tallies of a list of at most two actions.
proof fn lemma_tally_short(a: Seq<ActionView>)
    requires
        a.len() <= 2,
    ensures
        forall|k: Kind|
            #[trigger] tally(a, k) == (if a.len() >= 1 && kind_of(a[0]) == k {
                1nat
            } else {
                0nat
            }) + (if a.len() >= 2 && kind_of(a[1]) == k {
                1nat
            } else {
                0nat
            }),
{
    reveal_with_fuel(tally, 3);
    assert forall|k: Kind|
        #[trigger] tally(a, k) == (if a.len() >= 1 && kind_of(a[0]) == k {
            1nat
        } else {
            0nat
        }) + (if a.len() >= 2 && kind_of(a[1]) == k {
            1nat
        } else {
            0nat
        }) by {
        if a.len() == 2 {
            assert(a.drop_last().last() == a[0]);
            assert(a.drop_last().drop_last().len() == 0);
        } else if a.len() == 1 {
            assert(a.drop_last().len() == 0);
        }
    }
}

/// Two transitions in a row stay within the budgets if each does.
pub proof fn lemma_chain(
    s: StateView,
    first: (StateView, Seq<ActionView>),
    second: (StateView, Seq<ActionView>),
)
    ensures
        pays(s, first) && pays(first.0, second) ==> pays(s, (second.0, first.1 + second.1)),
        pays_ready(s, first) && pays_ready(first.0, second) ==> pays_ready(
            s,
            (second.0, first.1 + second.1),
        ),
{
    lemma_tally_concat(first.1, second.1, Kind::Vote);
    lemma_tally_concat(first.1, second.1, Kind::Echo);
    lemma_tally_concat(first.1, second.1, Kind::Deliver);
    lemma_tally_concat(first.1, second.1, Kind::Ready);
}

/// The INITs of a start hold no other kind of action.
proof fn lemma_inits_tally(c: Config, honest: bool, all: Seq<Seq<u8>>, upto: int, k: Kind)
    requires
        k != Kind::Init,
    ensures
        tally(inits(c, honest, all, upto), k) == 0,
    decreases upto,
{
    if upto > 0 {
        lemma_inits_tally(c, honest, all, upto - 1, k);
        if upto - 1 != c.me() {
            let prev = inits(c, honest, all, upto - 1);
            assert(inits(c, honest, all, upto).drop_last() =~= prev);
        }
    }
}

/// A READY stays within what the party may still send and deliver; within
/// the READYs only if it does not make the party commit a second time.
proof fn lemma_ready_step_pays(c: Config, s: StateView, msg: MsgView)
    requires
        c.params.wf(),
        inv(c, s),
    ensures
        pays(s, ready_step(c, s, msg)),
        !recommits(c, s, Input::Message(ProtMsgView::Ready(msg, 0))) ==> pays_ready(
            s,
            ready_step(c, s, msg),
        ),
        s.echo_root == Some(msg.mp.root) ==> ready_step(c, s, msg).0.echo_root == s.echo_root,
{
    let h = msg.mp.root;
    lemma_tally_short(Seq::<ActionView>::empty());
    if s.terminated || !accepts(s, msg) || lookup(s.readys, h, msg.origin) is Some {
    } else {
        let s1 = StateView { readys: s.readys.push(record_of(msg)), ..s };
        let first = amplified(c, s1, h);
        let s3 = latched(c, first.0, h);
        let second = finished(c, s3, h);
        lemma_tally_short(first.1);
        lemma_tally_short(second.1);
        lemma_ready_step(c, s, msg);
        assert(pays(s, (s3, first.1)));
        assert(pays(s3, second));
        lemma_chain(s, (s3, first.1), second);
        if !recommits(c, s, Input::Message(ProtMsgView::Ready(msg, 0))) {
            assert(pays_ready(s, (s3, first.1)));
            assert(pays_ready(s3, second));
        }
    }
}

/// A VOTE stays within what the party may still send and deliver.
proof fn lemma_vote_step_pays(c: Config, s: StateView, msg: MsgView)
    requires
        c.params.wf(),
        inv(c, s),
    ensures
        pays(s, vote_step(c, s, msg)),
        pays_ready(s, vote_step(c, s, msg)),
{
    lemma_tally_short(Seq::<ActionView>::empty());
    let next = vote_step(c, s, msg);
    lemma_tally_short(next.1);
}

/// The early VOTE stays within what the party may still send.
proof fn lemma_early_vote_pays(c: Config, s: StateView, msg: MsgView, size: nat)
    ensures
        pays(s, early_vote(c, s, msg, size)),
        pays_ready(s, early_vote(c, s, msg, size)),
{
    lemma_tally_short(early_vote(c, s, msg, size).1);
}

/// The early READY stays within what the party may still send.
proof fn lemma_early_ready_pays(c: Config, s: StateView, msg: MsgView, size: nat)
    ensures
        pays(s, early_ready(c, s, msg, size)),
        pays_ready(s, early_ready(c, s, msg, size)),
{
    lemma_tally_short(early_ready(c, s, msg, size).1);
}

/// The delivery below a quorum stays within what the party may still send
/// and deliver.
proof fn lemma_early_delivery_pays(c: Config, s: StateView, h: Seq<u8>, size: nat)
    ensures
        pays(s, early_delivery(c, s, h, size)),
        pays_ready(s, early_delivery(c, s, h, size)),
{
    lemma_tally_short(early_delivery(c, s, h, size).1);
}

/// The delivery on ECHOs from everyone stays within what the party may
/// still send and deliver.
proof fn lemma_full_delivery_pays(c: Config, s: StateView, h: Seq<u8>, size: nat)
    ensures
        pays(s, full_delivery(c, s, h, size)),
        pays_ready(s, full_delivery(c, s, h, size)),
{
    lemma_tally_short(full_delivery(c, s, h, size).1);
}

/// The commitment on a quorum of ECHOs stays within what the party may
/// still send and deliver.
proof fn lemma_quorum_commit_pays(c: Config, s: StateView, h: Seq<u8>, size: nat)
    requires
        c.params.wf(),
        inv(c, s),
    ensures
        pays(s, quorum_commit(c, s, h, size)),
        pays_ready(s, quorum_commit(c, s, h, size)),
{
    lemma_tally_short(Seq::<ActionView>::empty());
    if !s.terminated && size == crate::params::quorum(c.n(), c.f()) && s.echo_root is None {
        if recovered(c, s.echos, h) is Some {
            let cm = recovered(c, s.echos, h).unwrap();
            let own = own_msg(c, cm.shard, cm.proof);
            let mid = committed(s, h, cm);
            crate::ctrbc::laws::lemma_recovered_backed(c, s.echos, h);
            assert(inv(c, mid));
            lemma_ready_step_pays(c, mid, own);
            let inner = ready_step(c, mid, own);
            assert(!recommits(c, mid, Input::Message(ProtMsgView::Ready(own, 0))));
            lemma_tally_short(seq![ActionView::Ready(own)]);
            let last = seq![ActionView::Ready(own)];
            lemma_tally_concat(inner.1, last, Kind::Vote);
            lemma_tally_concat(inner.1, last, Kind::Echo);
            lemma_tally_concat(inner.1, last, Kind::Deliver);
            lemma_tally_concat(inner.1, last, Kind::Ready);
            assert(readys_left(mid) + 1 == readys_left(s));
            assert(inner.1.push(ActionView::Ready(own)) =~= inner.1 + seq![ActionView::Ready(own)]);
        }
    }
}

/// An ECHO stays within what the party may still send and deliver.
proof fn lemma_echo_step_pays(c: Config, s: StateView, msg: MsgView)
    requires
        c.params.wf(),
        inv(c, s),
    ensures
        pays(s, echo_step(c, s, msg)),
        pays_ready(s, echo_step(c, s, msg)),
{
    let h = msg.mp.root;
    lemma_tally_short(Seq::<ActionView>::empty());
    if s.terminated || !msg.mp.binds(msg.shard) || lookup(s.echos, h, msg.origin) is Some {
    } else {
        let s1 = StateView { echos: s.echos.push(record_of(msg)), ..s };
        let size = count(s1.echos, h);
        let t2 = early_vote(c, s1, msg, size);
        let t3 = early_ready(c, t2.0, msg, size);
        let t4 = early_delivery(c, t3.0, h, size);
        let t5 = quorum_commit(c, t4.0, h, size);
        let t6 = full_delivery(c, t5.0, h, size);
        assert(inv(c, t3.0)) by {
            crate::ctrbc::laws::lemma_echo_insert(c, s, msg);
        }
        crate::ctrbc::laws::lemma_early_delivery(c, t3.0, h, size);
        lemma_early_vote_pays(c, s1, msg, size);
        lemma_early_ready_pays(c, t2.0, msg, size);
        lemma_early_delivery_pays(c, t3.0, h, size);
        lemma_quorum_commit_pays(c, t4.0, h, size);
        lemma_full_delivery_pays(c, t5.0, h, size);
        assert(pays(s, t2) && pays_ready(s, t2)) by {
            assert(votes_left(s1) == votes_left(s));
            assert(echoes_left(s1) == echoes_left(s));
            assert(deliveries_left(s1) == deliveries_left(s));
            assert(readys_left(s1) == readys_left(s));
        }
        lemma_chain(s, t2, t3);
        lemma_chain(s, (t3.0, t2.1 + t3.1), t4);
        lemma_chain(s, (t4.0, t2.1 + t3.1 + t4.1), t5);
        lemma_chain(s, (t5.0, t2.1 + t3.1 + t4.1 + t5.1), t6);
    }
}

/// An INIT stays within what the party may still send and deliver.
proof fn lemma_init_step_pays(c: Config, s: StateView, msg: MsgView)
    requires
        c.params.wf(),
        inv(c, s),
    ensures
        pays(s, init_step(c, s, msg)),
        pays_ready(s, init_step(c, s, msg)),
{
    lemma_tally_short(Seq::<ActionView>::empty());
    if init_ok(c, s, msg) {
        let own = own_msg(c, msg.shard, msg.mp);
        let s1 = StateView {
            fragment: Some((msg.shard, msg.mp)),
            sent_echo: true,
            status: Status::ECHO,
            ..s
        };
        assert(inv(c, s1));
        lemma_echo_step_pays(c, s1, own);
        lemma_echo_step(c, s1, own);
        lemma_tally_short(seq![ActionView::Echo(own)]);
        let first = (s1, seq![ActionView::Echo(own)]);
        assert(pays(s, first) && pays_ready(s, first));
        lemma_chain(s, first, echo_step(c, s1, own));
    }
}

/// **One-shot emissions**, for one input: whatever happens, the party
/// stays within the VOTEs and ECHOs it may still send and the payloads it
/// may still deliver; and within the READYs it may still send, unless the
/// input makes it commit a second time.
pub proof fn lemma_react_pays(c: Config, honest: bool, s: StateView, input: Input)
    requires
        c.params.wf(),
        inv(c, s),
    ensures
        inv(c, react(c, honest, s, input).0),
        react(c, honest, s, input).0.status.rank() >= s.status.rank(),
        pays(s, react(c, honest, s, input)),
        !recommits(c, s, input) ==> pays_ready(s, react(c, honest, s, input)),
{
    lemma_tally_short(Seq::<ActionView>::empty());
    match input {
        Input::Start(payload) => {
            if start_step(c, honest, s, payload) is Ok {
                lemma_start_step(c, honest, s, payload);
                let all = crate::codec::rs_encode((c.f() + 1) as nat, c.n() as nat, payload);
                let mine = own_msg(c, all[c.me() as int], proof_at(all, c.me() as int));
                let s1 = StateView {
                    status: Status::INIT,
                    fragment: Some((mine.shard, mine.mp)),
                    ..s
                };
                assert(inv(c, s1));
                lemma_init_step_pays(c, s1, mine);
                let first = (s1, inits(c, honest, all, c.n()));
                lemma_inits_tally(c, honest, all, c.n(), Kind::Vote);
                lemma_inits_tally(c, honest, all, c.n(), Kind::Echo);
                lemma_inits_tally(c, honest, all, c.n(), Kind::Deliver);
                lemma_inits_tally(c, honest, all, c.n(), Kind::Ready);
                assert(pays(s, first) && pays_ready(s, first));
                lemma_chain(s, first, init_step(c, s1, mine));
            }
        },
        Input::Message(m) => {
            lemma_dispatch_preserves(c, s, m);
            match m {
                ProtMsgView::Init(msg, _) => lemma_init_step_pays(c, s, msg),
                ProtMsgView::Echo(msg, _) => lemma_echo_step_pays(c, s, msg),
                ProtMsgView::Vote(msg, _) => lemma_vote_step_pays(c, s, msg),
                ProtMsgView::Ready(msg, _) => lemma_ready_step_pays(c, s, msg),
            }
        },
    }
}

/// **Monotone status and one-shot emissions**, for a whole run: from a
/// state that satisfies the invariant, any inputs in any order lead to a
/// state that satisfies it, in a phase no earlier than before, and all
/// that was emitted on the way stays within what the first state allowed.
pub proof fn lemma_run_pays(c: Config, honest: bool, s: StateView, inputs: Seq<Input>)
    requires
        c.params.wf(),
        inv(c, s),
    ensures
        inv(c, run(c, honest, s, inputs).0),
        run(c, honest, s, inputs).0.status.rank() >= s.status.rank(),
        pays(s, run(c, honest, s, inputs)),
        commits_once(c, honest, s, inputs) ==> pays_ready(s, run(c, honest, s, inputs)),
    decreases inputs.len(),
{
    lemma_tally_short(Seq::<ActionView>::empty());
    if inputs.len() > 0 {
        lemma_run_pays(c, honest, s, inputs.drop_last());
        let before = run(c, honest, s, inputs.drop_last());
        lemma_react_pays(c, honest, before.0, inputs.last());
        lemma_chain(s, before, react(c, honest, before.0, inputs.last()));
    }
}

/// **One-shot emissions.** Over the whole life of an instance a party
/// sends at most one VOTE and at most one ECHO of its own and delivers at
/// most one payload; it sends at most three READYs (one early, one when it
/// commits, one when it delivers) as long as it commits to one root only.
pub proof fn lemma_one_shot(c: Config, honest: bool, inputs: Seq<Input>)
    requires
        c.params.wf(),
    ensures
        tally(run(c, honest, initial_state(), inputs).1, Kind::Vote) <= 1,
        tally(run(c, honest, initial_state(), inputs).1, Kind::Echo) <= 1,
        tally(run(c, honest, initial_state(), inputs).1, Kind::Deliver) <= 1,
        commits_once(c, honest, initial_state(), inputs) ==> tally(
            run(c, honest, initial_state(), inputs).1,
            Kind::Ready,
        ) <= 3,
{
    lemma_run_pays(c, honest, initial_state(), inputs);
}

/// Whether the payload `m` is delivered among `acts`.
pub open spec fn delivers(acts: Seq<ActionView>, m: Seq<u8>) -> bool {
    exists|j: int| 0 <= j < acts.len() && #[trigger] acts[j] == ActionView::Deliver(m)
}

/// Whether what the transition delivers is what the state after it holds
/// as its payload, having terminated.
pub open spec fn keeps(next: (StateView, Seq<ActionView>)) -> bool {
    forall|m: Seq<u8>| #[trigger]
        delivers(next.1, m) ==> next.0.terminated && next.0.message == Some(m)
}

/// What is delivered in a concatenation is delivered in one of the parts.
proof fn lemma_delivers_concat(a: Seq<ActionView>, b: Seq<ActionView>, m: Seq<u8>)
    ensures
        delivers(a + b, m) == (delivers(a, m) || delivers(b, m)),
{
    if delivers(a + b, m) {
        let j = choose|j: int|
            0 <= j < (a + b).len() && #[trigger] (a + b)[j] == ActionView::Deliver(m);
        if j < a.len() {
            assert(a[j] == ActionView::Deliver(m));
        } else {
            assert(b[j - a.len()] == ActionView::Deliver(m));
        }
    }
    if delivers(a, m) {
        let j = choose|j: int| 0 <= j < a.len() && #[trigger] a[j] == ActionView::Deliver(m);
        assert((a + b)[j] == ActionView::Deliver(m));
    }
    if delivers(b, m) {
        let j = choose|j: int| 0 <= j < b.len() && #[trigger] b[j] == ActionView::Deliver(m);
        assert((a + b)[a.len() + j] == ActionView::Deliver(m));
    }
}

/// A transition that keeps what it delivers, followed by one that does
/// nothing once the party has terminated and keeps what it delivers, keeps
/// what it delivers.
proof fn lemma_keeps_chain(
    first: (StateView, Seq<ActionView>),
    second: (StateView, Seq<ActionView>),
)
    requires
        keeps(first),
        keeps(second),
        first.0.terminated ==> second == (first.0, Seq::<ActionView>::empty()),
    ensures
        keeps((second.0, first.1 + second.1)),
{
    assert forall|m: Seq<u8>| #[trigger]
        delivers(first.1 + second.1, m) implies second.0.terminated && second.0.message == Some(
        m,
    ) by {
        lemma_delivers_concat(first.1, second.1, m);
        if delivers(first.1, m) {
            assert(second.1.len() == 0);
        }
    }
}

/// Nothing is delivered by a list that holds no delivery.
proof fn lemma_no_delivery(acts: Seq<ActionView>)
    requires
        forall|j: int| 0 <= j < acts.len() ==> !((#[trigger] acts[j]) is Deliver),
    ensures
        forall|m: Seq<u8>| !(#[trigger] delivers(acts, m)),
{
    assert forall|m: Seq<u8>| !(#[trigger] delivers(acts, m)) by {
        if delivers(acts, m) {
            let j = choose|j: int|
                0 <= j < acts.len() && #[trigger] acts[j] == ActionView::Deliver(m);
            assert(acts[j] is Deliver);
        }
    }
}

/// A READY keeps what it delivers.
proof fn lemma_ready_step_keeps(c: Config, s: StateView, msg: MsgView)
    ensures
        keeps(ready_step(c, s, msg)),
{
    let h = msg.mp.root;
    let next = ready_step(c, s, msg);
    if s.terminated || !accepts(s, msg) || lookup(s.readys, h, msg.origin) is Some {
        lemma_no_delivery(next.1);
    } else {
        let s1 = StateView { readys: s.readys.push(record_of(msg)), ..s };
        let first = amplified(c, s1, h);
        let s3 = latched(c, first.0, h);
        let second = finished(c, s3, h);
        lemma_no_delivery(first.1);
        assert forall|m: Seq<u8>| #[trigger]
            delivers(next.1, m) implies next.0.terminated && next.0.message == Some(m) by {
            lemma_delivers_concat(first.1, second.1, m);
            let j = choose|j: int|
                0 <= j < second.1.len() && #[trigger] second.1[j] == ActionView::Deliver(m);
        }
    }
}

/// An ECHO keeps what it delivers.
proof fn lemma_echo_step_keeps(c: Config, s: StateView, msg: MsgView)
    ensures
        keeps(echo_step(c, s, msg)),
{
    let h = msg.mp.root;
    let next = echo_step(c, s, msg);
    if s.terminated || !msg.mp.binds(msg.shard) || lookup(s.echos, h, msg.origin) is Some {
        lemma_no_delivery(next.1);
    } else {
        let s1 = StateView { echos: s.echos.push(record_of(msg)), ..s };
        let size = count(s1.echos, h);
        let t2 = early_vote(c, s1, msg, size);
        let t3 = early_ready(c, t2.0, msg, size);
        let t4 = early_delivery(c, t3.0, h, size);
        let t5 = quorum_commit(c, t4.0, h, size);
        let t6 = full_delivery(c, t5.0, h, size);
        lemma_no_delivery(t2.1);
        lemma_no_delivery(t3.1);
        assert(keeps(t2));
        assert(keeps(t3));
        assert(keeps(t4)) by {
            assert forall|m: Seq<u8>| #[trigger]
                delivers(t4.1, m) implies t4.0.terminated && t4.0.message == Some(m) by {
                let j = choose|j: int|
                    0 <= j < t4.1.len() && #[trigger] t4.1[j] == ActionView::Deliver(m);
            }
        }
        assert(keeps(t5)) by {
            if t5.1.len() > 0 {
                let cm = recovered(c, t4.0.echos, h).unwrap();
                let own = own_msg(c, cm.shard, cm.proof);
                let inner = ready_step(c, committed(t4.0, h, cm), own);
                lemma_ready_step_keeps(c, committed(t4.0, h, cm), own);
                assert forall|m: Seq<u8>| #[trigger]
                    delivers(t5.1, m) implies t5.0.terminated && t5.0.message == Some(m) by {
                    let j = choose|j: int|
                        0 <= j < t5.1.len() && #[trigger] t5.1[j] == ActionView::Deliver(m);
                    assert(j < inner.1.len());
                    assert(inner.1[j] == ActionView::Deliver(m));
                    assert(delivers(inner.1, m));
                }
            } else {
                lemma_no_delivery(t5.1);
            }
        }
        assert(keeps(t6)) by {
            assert forall|m: Seq<u8>| #[trigger]
                delivers(t6.1, m) implies t6.0.terminated && t6.0.message == Some(m) by {
                let j = choose|j: int|
                    0 <= j < t6.1.len() && #[trigger] t6.1[j] == ActionView::Deliver(m);
            }
        }
        lemma_keeps_chain(t2, t3);
        lemma_keeps_chain((t3.0, t2.1 + t3.1), t4);
        lemma_keeps_chain((t4.0, t2.1 + t3.1 + t4.1), t5);
        lemma_keeps_chain((t5.0, t2.1 + t3.1 + t4.1 + t5.1), t6);
    }
}

/// **What is delivered is kept.** Whatever happens, a payload that the
/// party delivers is the payload that its state holds from then on, and
/// the party has terminated.
pub proof fn lemma_react_keeps(c: Config, honest: bool, s: StateView, input: Input)
    ensures
        keeps(react(c, honest, s, input)),
{
    let next = react(c, honest, s, input);
    match input {
        Input::Start(payload) => {
            if start_step(c, honest, s, payload) is Ok {
                let all = crate::codec::rs_encode((c.f() + 1) as nat, c.n() as nat, payload);
                let mine = own_msg(c, all[c.me() as int], proof_at(all, c.me() as int));
                let s1 = StateView {
                    status: Status::INIT,
                    fragment: Some((mine.shard, mine.mp)),
                    ..s
                };
                let first = inits(c, honest, all, c.n());
                lemma_init_step_keeps(c, s1, mine);
                assert forall|j: int| 0 <= j < first.len() implies !((#[trigger] first[j])
                    is Deliver) by {
                    lemma_inits_tally(c, honest, all, c.n(), Kind::Deliver);
                    lemma_tally_positive(first, j);
                }
                lemma_no_delivery(first);
                assert forall|m: Seq<u8>| #[trigger]
                    delivers(next.1, m) implies next.0.terminated && next.0.message == Some(
                    m,
                ) by {
                    lemma_delivers_concat(first, init_step(c, s1, mine).1, m);
                }
            } else {
                lemma_no_delivery(next.1);
            }
        },
        Input::Message(m) => {
            match m {
                ProtMsgView::Init(msg, _) => lemma_init_step_keeps(c, s, msg),
                ProtMsgView::Echo(msg, _) => lemma_echo_step_keeps(c, s, msg),
                ProtMsgView::Vote(msg, _) => lemma_no_delivery(next.1),
                ProtMsgView::Ready(msg, _) => lemma_ready_step_keeps(c, s, msg),
            }
        },
    }
}

/// A message from the originator keeps what it delivers.
proof fn lemma_init_step_keeps(c: Config, s: StateView, msg: MsgView)
    ensures
        keeps(init_step(c, s, msg)),
{
    let next = init_step(c, s, msg);
    if init_ok(c, s, msg) {
        let own = own_msg(c, msg.shard, msg.mp);
        let s1 = StateView {
            fragment: Some((msg.shard, msg.mp)),
            sent_echo: true,
            status: Status::ECHO,
            ..s
        };
        lemma_echo_step_keeps(c, s1, own);
        let first = seq![ActionView::Echo(own)];
        lemma_no_delivery(first);
        assert forall|m: Seq<u8>| #[trigger]
            delivers(next.1, m) implies next.0.terminated && next.0.message == Some(m) by {
            lemma_delivers_concat(first, echo_step(c, s1, own).1, m);
        }
    } else {
        lemma_no_delivery(next.1);
    }
}

/// An action of a kind counts in the tally of that kind.
proof fn lemma_tally_positive(acts: Seq<ActionView>, j: int)
    requires
        0 <= j < acts.len(),
    ensures
        tally(acts, kind_of(acts[j])) >= 1,
    decreases acts.len(),
{
    if j < acts.len() - 1 {
        lemma_tally_positive(acts.drop_last(), j);
    }
}

/// **What is delivered is backed by the root committed to.** From a state
/// that satisfies the invariant, a payload that the party delivers is the
/// first `f + 1` shards, joined, of a set of `n` shards whose Merkle root
/// is the root that the party is committed to from then on.
pub proof fn lemma_delivered_is_backed(
    c: Config,
    honest: bool,
    s: StateView,
    input: Input,
    m: Seq<u8>,
)
    requires
        c.params.wf(),
        inv(c, s),
        delivers(react(c, honest, s, input).1, m),
    ensures
        react(c, honest, s, input).0.terminated,
        react(c, honest, s, input).0.message == Some(m),
        react(c, honest, s, input).0.echo_root is Some,
        crate::ctrbc::laws::backed(c, react(c, honest, s, input).0.echo_root.unwrap(), m),
{
    lemma_react_keeps(c, honest, s, input);
    lemma_react_pays(c, honest, s, input);
}

} // verus!
