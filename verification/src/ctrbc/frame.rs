//! What one transition of the variant without the optimistic thresholds
//! adds to the stores and says to the network.

use crate::ctrbc::context::ProtMsgView;
use crate::ctrbc::laws::{inv, lemma_echo_step, lemma_ready_step, lemma_recovered_backed};
use crate::ctrbc::msg::{ActionView, MsgView};
use crate::ctrbc::rbc_state::StateView;
use crate::ctrbc::step::{
    accepts, amplified, committed, early_delivery, early_ready, early_vote, echo_step, finished, full_delivery, init_ok, init_step, inits, latched, own_msg, proof_at, quorum_commit, ready_step, record_of, recovered, start_step, Config,
};
use crate::ctrbc::trace::{react, Input, Kind};
use crate::merkle::merkle_root;
use crate::params::{amplification_threshold, quorum};
use crate::status::Status;
use crate::store::{count, lookup, RecordView};
use vstd::prelude::*;

verus! {

/// Whether the action is an ECHO or READY, as `k` says, under root `h`.
pub open spec fn says(a: ActionView, k: Kind, h: Seq<u8>) -> bool {
    match a {
        ActionView::Echo(m) => k == Kind::Echo && m.mp.root == h,
        ActionView::Ready(m) => k == Kind::Ready && m.mp.root == h,
        _ => false,
    }
}

/// Whether some action among `acts` is an ECHO or READY, as `k` says,
/// under root `h`.
pub open spec fn said(acts: Seq<ActionView>, k: Kind, h: Seq<u8>) -> bool {
    exists|j: int| 0 <= j < acts.len() && says(#[trigger] acts[j], k, h)
}

/// Whether `new` is `old` with records added at its end, each of which is
/// the record `taken` from the message received, or a record of this party
/// under a root that the party names in an action of kind `k`.
pub open spec fn grown(
    old: Seq<RecordView>,
    new: Seq<RecordView>,
    taken: Option<RecordView>,
    me: usize,
    acts: Seq<ActionView>,
    k: Kind,
) -> bool {
    &&& old.len() <= new.len()
    &&& forall|i: int| 0 <= i < old.len() ==> #[trigger] new[i] == old[i]
    &&& forall|i: int|
        old.len() <= i < new.len() ==> taken == Some(#[trigger] new[i]) || (new[i].origin == me
            && said(acts, k, new[i].root))
}

/// The record that the input adds to the ECHOs, if any.
pub open spec fn echo_in(input: Input) -> Option<RecordView> {
    match input {
        Input::Message(ProtMsgView::Echo(m, _)) => Some(record_of(m)),
        _ => None,
    }
}

/// The record that the input adds to the READYs, if any.
pub open spec fn ready_in(input: Input) -> Option<RecordView> {
    match input {
        Input::Message(ProtMsgView::Ready(m, _)) => Some(record_of(m)),
        _ => None,
    }
}

/// The root that the party echoes on the input, if it echoes.
pub open spec fn own_root(c: Config, input: Input) -> Option<Seq<u8>> {
    match input {
        Input::Message(ProtMsgView::Init(m, _)) => Some(m.mp.root),
        Input::Start(payload) => Some(
            merkle_root(crate::codec::rs_encode((c.f() + 1) as nat, c.n() as nat, payload)),
        ),
        _ => None,
    }
}

/// What a transition from `s` to `next` adds and says:
/// the stores only grow, by the record taken from the message or by
/// records of this party under roots that it names in its own ECHO or
/// READY; the party echoes only as it enters the ECHO phase, and only the
/// root `echoes`; it sends READY only under the root that it is committed
/// to afterwards; and it commits to a root only with a quorum of ECHOs
/// under that root, or with `f + 1` READYs under it.
pub open spec fn framed(
    c: Config,
    s: StateView,
    next: (StateView, Seq<ActionView>),
    echo: Option<RecordView>,
    ready: Option<RecordView>,
    echoes: Option<Seq<u8>>,
) -> bool {
    &&& grown(s.echos, next.0.echos, echo, c.me(), next.1, Kind::Echo)
    &&& grown(s.readys, next.0.readys, ready, c.me(), next.1, Kind::Ready)
    &&& next.0.status.rank() >= s.status.rank()
    &&& forall|h: Seq<u8>| #[trigger]
        said(next.1, Kind::Echo, h) ==> s.status.rank() <= Status::INIT.rank()
            && next.0.status.rank() >= Status::ECHO.rank() && echoes == Some(h)
    &&& forall|h: Seq<u8>| #[trigger] said(next.1, Kind::Ready, h) ==> next.0.echo_root == Some(h)
    &&& next.0.echo_root matches Some(h) ==> {
        ||| s.echo_root == Some(h)
        ||| count(next.0.echos, h) >= quorum(c.n(), c.f())
        ||| (ready matches Some(r) && r.root == h && count(s.readys.push(r), h)
            >= amplification_threshold(c.f()))
    }
}

/// What is said in a concatenation is what is said in either part.
pub proof fn lemma_said_concat(a: Seq<ActionView>, b: Seq<ActionView>, k: Kind, h: Seq<u8>)
    ensures
        said(a + b, k, h) == (said(a, k, h) || said(b, k, h)),
{
    if said(a + b, k, h) {
        let j = choose|j: int| 0 <= j < (a + b).len() && says(#[trigger] (a + b)[j], k, h);
        if j < a.len() {
            assert(says(a[j], k, h));
        } else {
            assert(says(b[j - a.len()], k, h));
        }
    }
    if said(a, k, h) {
        let j = choose|j: int| 0 <= j < a.len() && says(#[trigger] a[j], k, h);
        assert(says((a + b)[j], k, h));
    }
    if said(b, k, h) {
        let j = choose|j: int| 0 <= j < b.len() && says(#[trigger] b[j], k, h);
        assert(says((a + b)[a.len() + j], k, h));
    }
}

/// What a READY adds and says.
pub proof fn lemma_ready_step_framed(c: Config, s: StateView, msg: MsgView)
    requires
        c.params.wf(),
        !c.optimistic,
        inv(c, s),
    ensures
        framed(c, s, ready_step(c, s, msg), None, Some(record_of(msg)), None),
        ready_step(c, s, msg).0.echos == s.echos,
        s.echo_root == Some(msg.mp.root) ==> ready_step(c, s, msg).0.echo_root == s.echo_root && (
        forall|h: Seq<u8>| !(#[trigger] said(ready_step(c, s, msg).1, Kind::Ready, h))),
{
    let h = msg.mp.root;
    let next = ready_step(c, s, msg);
    if s.terminated || !accepts(s, msg) || lookup(s.readys, h, msg.origin) is Some {
    } else {
        let s1 = StateView { readys: s.readys.push(record_of(msg)), ..s };
        let first = amplified(c, s1, h);
        let s3 = latched(c, first.0, h);
        let second = finished(c, s3, h);
        assert(s3 == first.0);
        assert(next.1 == first.1 + second.1);
        assert forall|x: Seq<u8>| #[trigger] said(second.1, Kind::Ready, x) implies false by {
            let j = choose|j: int| 0 <= j < second.1.len() && says(
                #[trigger] second.1[j],
                Kind::Ready,
                x,
            );
        }
        assert forall|x: Seq<u8>| #[trigger] said(next.1, Kind::Echo, x) implies false by {
            let j = choose|j: int| 0 <= j < next.1.len() && says(
                #[trigger] next.1[j],
                Kind::Echo,
                x,
            );
            if j < first.1.len() {
                assert(next.1[j] == first.1[j]);
            } else {
                assert(next.1[j] == second.1[j - first.1.len()]);
            }
        }
        if first.0 != s1 {
            let cm = recovered(c, s1.readys, h).unwrap();
            lemma_recovered_backed(c, s1.readys, h);
            let own = ActionView::Ready(own_msg(c, cm.shard, cm.proof));
            assert(first.1[0] == own);
            assert(says(next.1[0], Kind::Ready, h));
            assert(said(next.1, Kind::Ready, h));
            assert forall|x: Seq<u8>| #[trigger]
                said(next.1, Kind::Ready, x) implies next.0.echo_root == Some(x) by {
                lemma_said_concat(first.1, second.1, Kind::Ready, x);
                let j = choose|j: int| 0 <= j < first.1.len() && says(
                    #[trigger] first.1[j],
                    Kind::Ready,
                    x,
                );
            }
        } else {
            assert forall|x: Seq<u8>| #[trigger] said(next.1, Kind::Ready, x) implies false by {
                lemma_said_concat(first.1, second.1, Kind::Ready, x);
                if said(first.1, Kind::Ready, x) {
                    let j = choose|j: int| 0 <= j < first.1.len() && says(
                        #[trigger] first.1[j],
                        Kind::Ready,
                        x,
                    );
                }
            }
        }
    }
}

/// What the commitment on a quorum of ECHOs adds and says.
proof fn lemma_quorum_commit_framed(c: Config, s: StateView, h: Seq<u8>, size: nat)
    requires
        c.params.wf(),
        !c.optimistic,
        inv(c, s),
        size == count(s.echos, h),
    ensures
        framed(c, s, quorum_commit(c, s, h, size), None, None, None),
        inv(c, quorum_commit(c, s, h, size).0),
        quorum_commit(c, s, h, size).0.echos == s.echos,
        s.echo_root is Some ==> quorum_commit(c, s, h, size).0.echo_root == s.echo_root,
        quorum_commit(c, s, h, size).0.echo_root is Some && s.echo_root is None ==> quorum_commit(
            c,
            s,
            h,
            size,
        ).0.echo_root == Some(h),
{
    let next = quorum_commit(c, s, h, size);
    crate::ctrbc::laws::lemma_quorum_commit(c, s, h, size);
    if next.0 != s || next.1.len() > 0 {
        let cm = recovered(c, s.echos, h).unwrap();
        lemma_recovered_backed(c, s.echos, h);
        let own = own_msg(c, cm.shard, cm.proof);
        let mid = committed(s, h, cm);
        assert(inv(c, mid));
        lemma_ready_step_framed(c, mid, own);
        lemma_ready_step(c, mid, own);
        let inner = ready_step(c, mid, own);
        assert(next.1 == inner.1.push(ActionView::Ready(own)));
        assert(says(next.1[inner.1.len() as int], Kind::Ready, h));
        assert(said(next.1, Kind::Ready, h));
        assert forall|x: Seq<u8>| #[trigger]
            said(next.1, Kind::Ready, x) implies next.0.echo_root == Some(x) by {
            let j = choose|j: int| 0 <= j < next.1.len() && says(
                #[trigger] next.1[j],
                Kind::Ready,
                x,
            );
            if j < inner.1.len() {
                assert(next.1[j] == inner.1[j]);
                assert(said(inner.1, Kind::Ready, x));
            }
        }
        assert forall|x: Seq<u8>| #[trigger] said(next.1, Kind::Echo, x) implies false by {
            let j = choose|j: int| 0 <= j < next.1.len() && says(
                #[trigger] next.1[j],
                Kind::Echo,
                x,
            );
            if j < inner.1.len() {
                assert(next.1[j] == inner.1[j]);
                assert(said(inner.1, Kind::Echo, x));
            }
        }
        assert forall|i: int| s.readys.len() <= i < next.0.readys.len() implies (
        #[trigger] next.0.readys[i]).origin == c.me() && said(
            next.1,
            Kind::Ready,
            next.0.readys[i].root,
        ) by {
            if Some(next.0.readys[i]) == Some(record_of(own)) {
            } else {
                assert(said(inner.1, Kind::Ready, next.0.readys[i].root));
            }
        }
    }
}

/// What an ECHO adds and says.
pub proof fn lemma_echo_step_framed(c: Config, s: StateView, msg: MsgView)
    requires
        c.params.wf(),
        !c.optimistic,
        inv(c, s),
    ensures
        framed(c, s, echo_step(c, s, msg), Some(record_of(msg)), None, None),
{
    let h = msg.mp.root;
    let next = echo_step(c, s, msg);
    if s.terminated || !msg.mp.binds(msg.shard) || lookup(s.echos, h, msg.origin) is Some {
    } else {
        let s1 = StateView { echos: s.echos.push(record_of(msg)), ..s };
        let size = count(s1.echos, h);
        crate::ctrbc::laws::lemma_echo_insert(c, s, msg);
        let t2 = early_vote(c, s1, msg, size);
        let t3 = early_ready(c, t2.0, msg, size);
        let t4 = early_delivery(c, t3.0, h, size);
        assert(t4.0 == s1);
        let t5 = quorum_commit(c, s1, h, size);
        let t6 = full_delivery(c, t5.0, h, size);
        lemma_quorum_commit_framed(c, s1, h, size);
        assert(next.1 =~= t5.1 + t6.1);
        assert(next.0 == t6.0);
        assert forall|x: Seq<u8>| #[trigger] said(next.1, Kind::Echo, x) implies false by {
            lemma_said_concat(t5.1, t6.1, Kind::Echo, x);
            if said(t6.1, Kind::Echo, x) {
                let j = choose|j: int| 0 <= j < t6.1.len() && says(
                    #[trigger] t6.1[j],
                    Kind::Echo,
                    x,
                );
            }
        }
        assert forall|x: Seq<u8>| #[trigger]
            said(next.1, Kind::Ready, x) implies next.0.echo_root == Some(x) by {
            lemma_said_concat(t5.1, t6.1, Kind::Ready, x);
            if said(t6.1, Kind::Ready, x) {
                let j = choose|j: int| 0 <= j < t6.1.len() && says(
                    #[trigger] t6.1[j],
                    Kind::Ready,
                    x,
                );
            }
        }
        assert forall|i: int| s.readys.len() <= i < next.0.readys.len() implies (
        #[trigger] next.0.readys[i]).origin == c.me() && said(
            next.1,
            Kind::Ready,
            next.0.readys[i].root,
        ) by {
            assert(t5.0.readys[i] == next.0.readys[i]);
            assert(said(t5.1, Kind::Ready, next.0.readys[i].root));
            lemma_said_concat(t5.1, t6.1, Kind::Ready, next.0.readys[i].root);
        }
        if next.0.echo_root is Some && s.echo_root != next.0.echo_root {
            assert(next.0.echo_root == Some(h));
            assert(count(next.0.echos, h) >= quorum(c.n(), c.f()));
        }
    }
}

/// What an INIT adds and says.
pub proof fn lemma_init_step_framed(c: Config, s: StateView, msg: MsgView)
    requires
        c.params.wf(),
        !c.optimistic,
        inv(c, s),
    ensures
        framed(c, s, init_step(c, s, msg), None, None, Some(msg.mp.root)),
{
    let next = init_step(c, s, msg);
    if init_ok(c, s, msg) {
        let own = own_msg(c, msg.shard, msg.mp);
        let s1 = StateView {
            fragment: Some((msg.shard, msg.mp)),
            sent_echo: true,
            status: Status::ECHO,
            ..s
        };
        assert(inv(c, s1));
        lemma_echo_step_framed(c, s1, own);
        lemma_echo_step(c, s1, own);
        let inner = echo_step(c, s1, own);
        let first = seq![ActionView::Echo(own)];
        assert(next.1 == first + inner.1);
        assert(says(next.1[0], Kind::Echo, msg.mp.root));
        assert(said(next.1, Kind::Echo, msg.mp.root));
        assert forall|x: Seq<u8>| #[trigger]
            said(next.1, Kind::Echo, x) implies x == msg.mp.root by {
            lemma_said_concat(first, inner.1, Kind::Echo, x);
            if said(first, Kind::Echo, x) {
                let j = choose|j: int| 0 <= j < first.len() && says(
                    #[trigger] first[j],
                    Kind::Echo,
                    x,
                );
            }
        }
        assert forall|x: Seq<u8>| #[trigger]
            said(next.1, Kind::Ready, x) implies next.0.echo_root == Some(x) by {
            lemma_said_concat(first, inner.1, Kind::Ready, x);
            if said(first, Kind::Ready, x) {
                let j = choose|j: int| 0 <= j < first.len() && says(
                    #[trigger] first[j],
                    Kind::Ready,
                    x,
                );
            }
        }
        assert forall|i: int| s.readys.len() <= i < next.0.readys.len() implies (
        #[trigger] next.0.readys[i]).origin == c.me() && said(
            next.1,
            Kind::Ready,
            next.0.readys[i].root,
        ) by {
            lemma_said_concat(first, inner.1, Kind::Ready, next.0.readys[i].root);
        }
        assert forall|i: int| s.echos.len() <= i < next.0.echos.len() implies (
        #[trigger] next.0.echos[i]).origin == c.me() && said(
            next.1,
            Kind::Echo,
            next.0.echos[i].root,
        ) by {
            assert(Some(next.0.echos[i]) == Some(record_of(own)));
        }
    }
}

/// INITs say nothing to the stores of others.
proof fn lemma_inits_say_nothing(c: Config, honest: bool, all: Seq<Seq<u8>>, upto: int, k: Kind)
    ensures
        forall|h: Seq<u8>| !(#[trigger] said(inits(c, honest, all, upto), k, h)),
    decreases upto,
{
    assert forall|h: Seq<u8>| !(#[trigger] said(inits(c, honest, all, upto), k, h)) by {
        if said(inits(c, honest, all, upto), k, h) {
            let j = choose|j: int|
                0 <= j < inits(c, honest, all, upto).len() && says(
                    #[trigger] inits(c, honest, all, upto)[j],
                    k,
                    h,
                );
            lemma_inits_are_inits(c, honest, all, upto, j);
        }
    }
}

/// A start hands out INITs only.
proof fn lemma_inits_are_inits(c: Config, honest: bool, all: Seq<Seq<u8>>, upto: int, j: int)
    requires
        0 <= j < inits(c, honest, all, upto).len(),
    ensures
        inits(c, honest, all, upto)[j] is Init,
    decreases upto,
{
    if upto > 0 {
        if j < inits(c, honest, all, upto - 1).len() {
            lemma_inits_are_inits(c, honest, all, upto - 1, j);
        }
    }
}

/// What any input adds and says.
pub proof fn lemma_react_framed(c: Config, s: StateView, input: Input)
    requires
        c.params.wf(),
        !c.optimistic,
        inv(c, s),
    ensures
        framed(
            c,
            s,
            react(c, true, s, input),
            echo_in(input),
            ready_in(input),
            own_root(c, input),
        ),
        inv(c, react(c, true, s, input).0),
{
    crate::ctrbc::trace::lemma_react_pays(c, true, s, input);
    let next = react(c, true, s, input);
    match input {
        Input::Start(payload) => {
            if start_step(c, true, s, payload) is Ok {
                let all = crate::codec::rs_encode((c.f() + 1) as nat, c.n() as nat, payload);
                let mine = own_msg(c, all[c.me() as int], proof_at(all, c.me() as int));
                let s1 = StateView {
                    status: Status::INIT,
                    fragment: Some((mine.shard, mine.mp)),
                    ..s
                };
                assert(inv(c, s1));
                lemma_init_step_framed(c, s1, mine);
                let inner = init_step(c, s1, mine);
                let first = inits(c, true, all, c.n());
                lemma_inits_say_nothing(c, true, all, c.n(), Kind::Echo);
                lemma_inits_say_nothing(c, true, all, c.n(), Kind::Ready);
                assert(next.1 == first + inner.1);
                assert forall|x: Seq<u8>| #[trigger]
                    said(next.1, Kind::Echo, x) implies said(inner.1, Kind::Echo, x) by {
                    lemma_said_concat(first, inner.1, Kind::Echo, x);
                }
                assert forall|x: Seq<u8>| #[trigger]
                    said(next.1, Kind::Ready, x) implies said(inner.1, Kind::Ready, x) by {
                    lemma_said_concat(first, inner.1, Kind::Ready, x);
                }
                assert forall|i: int| s.readys.len() <= i < next.0.readys.len() implies (
                #[trigger] next.0.readys[i]).origin == c.me() && said(
                    next.1,
                    Kind::Ready,
                    next.0.readys[i].root,
                ) by {
                    lemma_said_concat(first, inner.1, Kind::Ready, next.0.readys[i].root);
                }
                assert forall|i: int| s.echos.len() <= i < next.0.echos.len() implies (
                #[trigger] next.0.echos[i]).origin == c.me() && said(
                    next.1,
                    Kind::Echo,
                    next.0.echos[i].root,
                ) by {
                    lemma_said_concat(first, inner.1, Kind::Echo, next.0.echos[i].root);
                }
            }
        },
        Input::Message(m) => {
            match m {
                ProtMsgView::Init(msg, _) => lemma_init_step_framed(c, s, msg),
                ProtMsgView::Echo(msg, _) => lemma_echo_step_framed(c, s, msg),
                ProtMsgView::Vote(msg, _) => {},
                ProtMsgView::Ready(msg, _) => lemma_ready_step_framed(c, s, msg),
            }
        },
    }
}

/// A READY leaves a party that has committed committed.
pub proof fn lemma_echo_root_stays_set(c: Config, s: StateView, msg: MsgView)
    requires
        s.echo_root is Some,
    ensures
        ready_step(c, s, msg).0.echo_root is Some,
{
}

} // verus!
