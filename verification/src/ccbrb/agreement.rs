//! Agreement among the parties that follow the protocol.
//!
//! The network is modelled as follows. Of the `n` replicas at most `f` are
//! faulty. A party that is not faulty takes inputs one at a time: the
//! application's request to start a broadcast, or a message. A message can
//! name any replica as its origin; but an ECHO or READY that names a party
//! that is not faulty was sent by that party, under the same vector hash.
//! What the faulty replicas do is not constrained otherwise.
//!
//! That a message which names a party was sent by it is asked of the
//! transport: the dispatcher takes every message whose tag holds and does
//! not compare the origin that a message names with its sender.

use crate::ccbrb::laws::{
    inv, lemma_echo_step, lemma_init_step, lemma_react_sound, lemma_ready_step, react, vouched, Input, Kind,
};
use crate::ccbrb::msg::{ActionView, EchoView, ProtMsgView, ReadyView, SendView};
use crate::ccbrb::rbc_state::{initial_state, StateView};
use crate::ccbrb::step::{
    content_hash, echo_step, init_ok, init_step, k_of, ready_due, ready_step, record, sends, start_step,
};
use crate::codec::{concat, rs_encode};
use crate::merkle::{collide, leaf_hashes};
use crate::params::{Params, MAX_NODES};
use crate::quorum::{lemma_quorums_share_honest, lemma_some_honest, within};
use crate::share::ShareView;
use crate::status::Status;
use crate::store::{count, lemma_mode_count, lookup, RecordView};
use vstd::prelude::*;

verus! {

/// Whether the action is an ECHO or READY, as `k` says, under vector hash
/// `c`.
pub open spec fn says(a: ActionView, k: Kind, c: Seq<u8>) -> bool {
    match a {
        ActionView::Echo(m) => k == Kind::Echo && m.c == c,
        ActionView::Ready(m) => k == Kind::Ready && m.c == c,
        _ => false,
    }
}

/// Whether some action among `acts` is an ECHO or READY, as `k` says,
/// under vector hash `c`.
pub open spec fn said(acts: Seq<ActionView>, k: Kind, c: Seq<u8>) -> bool {
    exists|j: int| 0 <= j < acts.len() && says(#[trigger] acts[j], k, c)
}

/// Whether `new` is `old` with records added at its end, each of which is
/// the record `taken` from the message received, or a record of this party
/// under a vector hash that the party names in an action of kind `k`.
pub open spec fn grown(
    old: Seq<RecordView>,
    new: Seq<RecordView>,
    taken: Option<RecordView>,
    me: usize,
    acts: Seq<ActionView>,
    k: Kind,
) -> bool {
    &&& old.len() <= new.len()
    &&& forall|i: int| 0 <= i < old.len() ==> #[trigger] new[i] == old[i]
    &&& forall|i: int|
        old.len() <= i < new.len() ==> taken == Some(#[trigger] new[i]) || (new[i].origin == me
            && said(acts, k, new[i].root))
}

/// The record that the input adds to the ECHOs, if any.
pub open spec fn echo_in(input: Input) -> Option<RecordView> {
    match input {
        Input::Message(ProtMsgView::Echo(m, _)) => Some(record(m.c, m.origin, m.d_i)),
        _ => None,
    }
}

/// The record that the input adds to the READYs, if any.
pub open spec fn ready_in(input: Input) -> Option<RecordView> {
    match input {
        Input::Message(ProtMsgView::Ready(m, _)) => Some(record(m.c, m.origin, m.pi_i)),
        _ => None,
    }
}

/// The vector hash that the party echoes on the input, if it echoes.
pub open spec fn own_root(p: Params, input: Input) -> Option<Seq<u8>> {
    match input {
        Input::Message(ProtMsgView::Init(m, _)) => Some(content_hash(m.d_hashes)),
        Input::Start(payload, _) => Some(
            content_hash(leaf_hashes(rs_encode(k_of(p) as nat, p.num_nodes as nat, payload))),
        ),
        _ => None,
    }
}

/// What a transition from `s` to `next` adds and says: the stores only
/// grow, by the record taken from the message or by records of this party
/// under vector hashes that it names in its own ECHO or READY; the party
/// echoes only as it enters the ECHO phase, and only the hash `echoes`;
/// and it sends READY only under a hash under which it holds a quorum of
/// ECHOs.
pub open spec fn framed(
    p: Params,
    s: StateView,
    next: (StateView, Seq<ActionView>),
    echo: Option<RecordView>,
    ready: Option<RecordView>,
    echoes: Option<Seq<u8>>,
) -> bool {
    &&& grown(s.fragments_data, next.0.fragments_data, echo, p.myid, next.1, Kind::Echo)
    &&& grown(s.fragments_hashes, next.0.fragments_hashes, ready, p.myid, next.1, Kind::Ready)
    &&& next.0.status.rank() >= s.status.rank()
    &&& inv(p, next.0)
    &&& forall|h: Seq<u8>| #[trigger]
        said(next.1, Kind::Echo, h) ==> s.status.rank() <= Status::INIT.rank()
            && next.0.status.rank() >= Status::ECHO.rank() && echoes == Some(h)
    &&& forall|h: Seq<u8>| #[trigger]
        said(next.1, Kind::Ready, h) ==> count(next.0.fragments_data, h) >= p.num_nodes
            - p.num_faults
}

/// What is said in a concatenation is what is said in either part.
pub proof fn lemma_said_concat(a: Seq<ActionView>, b: Seq<ActionView>, k: Kind, h: Seq<u8>)
    ensures
        said(a + b, k, h) == (said(a, k, h) || said(b, k, h)),
{
    if said(a + b, k, h) {
        let j = choose|j: int| 0 <= j < (a + b).len() && says(#[trigger] (a + b)[j], k, h);
        if j < a.len() {
            assert(says(a[j], k, h));
        } else {
            assert(says(b[j - a.len()], k, h));
        }
    }
    if said(a, k, h) {
        let j = choose|j: int| 0 <= j < a.len() && says(#[trigger] a[j], k, h);
        assert(says((a + b)[j], k, h));
    }
    if said(b, k, h) {
        let j = choose|j: int| 0 <= j < b.len() && says(#[trigger] b[j], k, h);
        assert(says((a + b)[a.len() + j], k, h));
    }
}

/// What a READY adds and says.
pub proof fn lemma_ready_step_framed(p: Params, s: StateView, msg: ReadyView)
    requires
        p.wf(),
        inv(p, s),
    ensures
        framed(p, s, ready_step(p, s, msg), None, Some(record(msg.c, msg.origin, msg.pi_i)), None),
        ready_step(p, s, msg).0.fragments_data == s.fragments_data,
        forall|h: Seq<u8>| !(#[trigger] said(ready_step(p, s, msg).1, Kind::Ready, h)),
{
    lemma_ready_step(p, s, msg);
    let next = ready_step(p, s, msg);
    assert forall|h: Seq<u8>| !(#[trigger] said(next.1, Kind::Ready, h)) by {
        if said(next.1, Kind::Ready, h) {
            let j = choose|j: int| 0 <= j < next.1.len() && says(
                #[trigger] next.1[j],
                Kind::Ready,
                h,
            );
        }
    }
    assert forall|h: Seq<u8>| !(#[trigger] said(next.1, Kind::Echo, h)) by {
        if said(next.1, Kind::Echo, h) {
            let j = choose|j: int| 0 <= j < next.1.len() && says(
                #[trigger] next.1[j],
                Kind::Echo,
                h,
            );
        }
    }
}

/// What an ECHO adds and says.
pub proof fn lemma_echo_step_framed(p: Params, s: StateView, msg: EchoView, id: u64)
    requires
        p.wf(),
        inv(p, s),
    ensures
        framed(p, s, echo_step(p, s, msg, id), Some(record(msg.c, msg.origin, msg.d_i)), None, None),
{
    lemma_echo_step(p, s, msg, id);
    let next = echo_step(p, s, msg, id);
    if !(s.status == Status::TERMINATED || lookup(s.fragments_data, msg.c, msg.origin) is Some) {
        let s1 = StateView {
            fragments_data: s.fragments_data.push(record(msg.c, msg.origin, msg.d_i)),
            ..s
        };
        if ready_due(p, s1) {
            let c = s1.hash_share.unwrap().0;
            let pi = s1.hash_share.unwrap().1;
            let s2 = StateView { status: Status::READY, ..s1 };
            let own = ReadyView { id, c, pi_i: pi, origin: p.myid };
            crate::store::lemma_push_record(
                s.fragments_data,
                record(msg.c, msg.origin, msg.d_i),
            );
            assert(inv(p, s2));
            lemma_ready_step_framed(p, s2, own);
            let inner = ready_step(p, s2, own);
            let first = seq![ActionView::Ready(own)];
            assert(next.1 == first + inner.1);
            lemma_mode_count(s1.fragments_data);
            assert(says(next.1[0], Kind::Ready, c));
            assert(said(next.1, Kind::Ready, c));
            assert forall|h: Seq<u8>| #[trigger]
                said(next.1, Kind::Ready, h) implies count(next.0.fragments_data, h)
                >= p.num_nodes - p.num_faults by {
                lemma_said_concat(first, inner.1, Kind::Ready, h);
                let j = choose|j: int| 0 <= j < first.len() && says(
                    #[trigger] first[j],
                    Kind::Ready,
                    h,
                );
            }
            assert forall|h: Seq<u8>| !(#[trigger] said(next.1, Kind::Echo, h)) by {
                lemma_said_concat(first, inner.1, Kind::Echo, h);
                if said(first, Kind::Echo, h) {
                    let j = choose|j: int| 0 <= j < first.len() && says(
                        #[trigger] first[j],
                        Kind::Echo,
                        h,
                    );
                }
            }
            assert forall|i: int|
                s.fragments_hashes.len() <= i < next.0.fragments_hashes.len() implies (
            #[trigger] next.0.fragments_hashes[i]).origin == p.myid && said(
                next.1,
                Kind::Ready,
                next.0.fragments_hashes[i].root,
            ) by {
                assert(Some(next.0.fragments_hashes[i]) == Some(record(c, p.myid, pi)));
            }
        } else {
            assert forall|h: Seq<u8>| !(#[trigger] said(next.1, Kind::Echo, h)) by {
                if said(next.1, Kind::Echo, h) {
                    let j = choose|j: int| 0 <= j < next.1.len() && says(
                        #[trigger] next.1[j],
                        Kind::Echo,
                        h,
                    );
                }
            }
            assert forall|h: Seq<u8>| !(#[trigger] said(next.1, Kind::Ready, h)) by {
                if said(next.1, Kind::Ready, h) {
                    let j = choose|j: int| 0 <= j < next.1.len() && says(
                        #[trigger] next.1[j],
                        Kind::Ready,
                        h,
                    );
                }
            }
        }
    } else {
        assert forall|h: Seq<u8>| !(#[trigger] said(next.1, Kind::Echo, h)) by {
            if said(next.1, Kind::Echo, h) {
                let j = choose|j: int| 0 <= j < next.1.len() && says(
                    #[trigger] next.1[j],
                    Kind::Echo,
                    h,
                );
            }
        }
        assert forall|h: Seq<u8>| !(#[trigger] said(next.1, Kind::Ready, h)) by {
            if said(next.1, Kind::Ready, h) {
                let j = choose|j: int| 0 <= j < next.1.len() && says(
                    #[trigger] next.1[j],
                    Kind::Ready,
                    h,
                );
            }
        }
    }
}

/// What a SEND adds and says.
pub proof fn lemma_init_step_framed(p: Params, s: StateView, msg: SendView, id: u64)
    requires
        p.wf(),
        inv(p, s),
    ensures
        framed(p, s, init_step(p, s, msg, id), None, None, Some(content_hash(msg.d_hashes))),
{
    lemma_init_step(p, s, msg, id);
    let next = init_step(p, s, msg, id);
    if init_ok(p, s, msg) {
        let c = content_hash(msg.d_hashes);
        let pis = rs_encode(k_of(p) as nat, p.num_nodes as nat, concat(msg.d_hashes));
        let mine = ShareView { number: p.myid, data: pis[p.myid as int] };
        let s1 = StateView {
            fragment: msg.d_j,
            hash_share: Some((c, mine)),
            status: Status::ECHO,
            ..s
        };
        let own = EchoView { id, d_i: msg.d_j, pi_i: mine, c, origin: p.myid };
        assert(inv(p, s1));
        lemma_echo_step_framed(p, s1, own, id);
        let inner = echo_step(p, s1, own, id);
        let first = seq![ActionView::Echo(own)];
        assert(next.1 == first + inner.1);
        assert(says(next.1[0], Kind::Echo, c));
        assert(said(next.1, Kind::Echo, c));
        assert forall|h: Seq<u8>| #[trigger] said(next.1, Kind::Echo, h) implies h == c by {
            lemma_said_concat(first, inner.1, Kind::Echo, h);
            if said(first, Kind::Echo, h) {
                let j = choose|j: int| 0 <= j < first.len() && says(
                    #[trigger] first[j],
                    Kind::Echo,
                    h,
                );
            }
        }
        assert forall|h: Seq<u8>| #[trigger]
            said(next.1, Kind::Ready, h) implies said(inner.1, Kind::Ready, h) by {
            lemma_said_concat(first, inner.1, Kind::Ready, h);
            if said(first, Kind::Ready, h) {
                let j = choose|j: int| 0 <= j < first.len() && says(
                    #[trigger] first[j],
                    Kind::Ready,
                    h,
                );
            }
        }
        assert forall|i: int|
            s.fragments_hashes.len() <= i < next.0.fragments_hashes.len() implies (
        #[trigger] next.0.fragments_hashes[i]).origin == p.myid && said(
            next.1,
            Kind::Ready,
            next.0.fragments_hashes[i].root,
        ) by {
            lemma_said_concat(first, inner.1, Kind::Ready, next.0.fragments_hashes[i].root);
        }
        assert forall|i: int|
            s.fragments_data.len() <= i < next.0.fragments_data.len() implies (
        #[trigger] next.0.fragments_data[i]).origin == p.myid && said(
            next.1,
            Kind::Echo,
            next.0.fragments_data[i].root,
        ) by {
            assert(Some(next.0.fragments_data[i]) == Some(record(c, p.myid, msg.d_j)));
        }
    } else {
        assert forall|h: Seq<u8>| !(#[trigger] said(next.1, Kind::Echo, h)) by {
            if said(next.1, Kind::Echo, h) {
                let j = choose|j: int| 0 <= j < next.1.len() && says(
                    #[trigger] next.1[j],
                    Kind::Echo,
                    h,
                );
            }
        }
        assert forall|h: Seq<u8>| !(#[trigger] said(next.1, Kind::Ready, h)) by {
            if said(next.1, Kind::Ready, h) {
                let j = choose|j: int| 0 <= j < next.1.len() && says(
                    #[trigger] next.1[j],
                    Kind::Ready,
                    h,
                );
            }
        }
    }
}

/// A start hands out SENDs only.
proof fn lemma_sends_are_sends(
    p: Params,
    honest: bool,
    id: u64,
    all: Seq<Seq<u8>>,
    upto: int,
    j: int,
)
    requires
        0 <= j < sends(p, honest, id, all, upto).len(),
    ensures
        sends(p, honest, id, all, upto)[j] is Send,
    decreases upto,
{
    if upto > 0 {
        if j < sends(p, honest, id, all, upto - 1).len() {
            lemma_sends_are_sends(p, honest, id, all, upto - 1, j);
        }
    }
}

/// What any input adds and says.
pub proof fn lemma_react_framed(p: Params, s: StateView, input: Input)
    requires
        p.wf(),
        inv(p, s),
    ensures
        framed(p, s, react(p, true, s, input), echo_in(input), ready_in(input), own_root(p, input)),
{
    lemma_react_sound(p, true, s, input);
    let next = react(p, true, s, input);
    match input {
        Input::Start(payload, id) => {
            if start_step(p, true, s, payload, id) is Ok {
                let all = rs_encode(k_of(p) as nat, p.num_nodes as nat, payload);
                let mine = ShareView { number: p.myid, data: all[p.myid as int] };
                let s1 = StateView { status: Status::INIT, fragment: mine, ..s };
                let own = SendView { id, d_j: mine, d_hashes: leaf_hashes(all), origin: p.myid };
                assert(inv(p, s1));
                lemma_init_step_framed(p, s1, own, id);
                let inner = init_step(p, s1, own, id);
                let first = sends(p, true, id, all, p.num_nodes as int);
                assert(next.1 == first + inner.1);
                assert forall|h: Seq<u8>, k: Kind| !(#[trigger] said(first, k, h)) by {
                    if said(first, k, h) {
                        let j = choose|j: int| 0 <= j < first.len() && says(
                            #[trigger] first[j],
                            k,
                            h,
                        );
                        lemma_sends_are_sends(p, true, id, all, p.num_nodes as int, j);
                    }
                }
                assert forall|h: Seq<u8>| #[trigger]
                    said(next.1, Kind::Echo, h) implies said(inner.1, Kind::Echo, h) by {
                    lemma_said_concat(first, inner.1, Kind::Echo, h);
                }
                assert forall|h: Seq<u8>| #[trigger]
                    said(next.1, Kind::Ready, h) implies said(inner.1, Kind::Ready, h) by {
                    lemma_said_concat(first, inner.1, Kind::Ready, h);
                }
                assert forall|i: int|
                    s.fragments_hashes.len() <= i < next.0.fragments_hashes.len() implies (
                #[trigger] next.0.fragments_hashes[i]).origin == p.myid && said(
                    next.1,
                    Kind::Ready,
                    next.0.fragments_hashes[i].root,
                ) by {
                    lemma_said_concat(
                        first,
                        inner.1,
                        Kind::Ready,
                        next.0.fragments_hashes[i].root,
                    );
                }
                assert forall|i: int|
                    s.fragments_data.len() <= i < next.0.fragments_data.len() implies (
                #[trigger] next.0.fragments_data[i]).origin == p.myid && said(
                    next.1,
                    Kind::Echo,
                    next.0.fragments_data[i].root,
                ) by {
                    lemma_said_concat(first, inner.1, Kind::Echo, next.0.fragments_data[i].root);
                }
            } else {
                lemma_nothing_said(next.1);
            }
        },
        Input::Message(m) => {
            match m {
                ProtMsgView::Init(msg, i) => lemma_init_step_framed(p, s, msg, i as u64),
                ProtMsgView::Echo(msg, i) => lemma_echo_step_framed(p, s, msg, i as u64),
                ProtMsgView::Ready(msg, _) => lemma_ready_step_framed(p, s, msg),
            }
        },
    }
}

/// Nothing is said where nothing is done.
proof fn lemma_nothing_said(acts: Seq<ActionView>)
    requires
        acts.len() == 0,
    ensures
        forall|h: Seq<u8>, k: Kind| !(#[trigger] said(acts, k, h)),
{
}

/// The size of the network and its faulty replicas.
pub struct Network {
    pub n: usize,
    pub f: usize,
    pub faulty: Set<int>,
}

impl Network {
    /// `n > 3f`, and at most `f` replicas are faulty.
    pub open spec fn wf(self) -> bool {
        &&& 3 * self.f < self.n
        &&& self.n <= MAX_NODES
        &&& self.faulty.finite()
        &&& self.faulty.len() <= self.f
    }

    /// Whether `p` is a replica that follows the protocol.
    pub open spec fn honest(self, p: usize) -> bool {
        p < self.n && !self.faulty.contains(p as int)
    }

    /// The parameters of party `p`.
    pub open spec fn params(self, p: usize) -> Params {
        Params { num_nodes: self.n, num_faults: self.f, myid: p }
    }
}

/// The states of the parties for one instance, and what the parties that
/// follow the protocol have sent so far: the pairs of sender and vector
/// hash of their ECHOs and of their READYs.
pub struct World {
    pub states: Map<usize, StateView>,
    pub echoed: Set<(usize, Seq<u8>)>,
    pub readied: Set<(usize, Seq<u8>)>,
}

impl World {
    /// The state of party `p`.
    pub open spec fn state(self, p: usize) -> StateView {
        if self.states.contains_key(p) {
            self.states[p]
        } else {
            initial_state()
        }
    }
}

/// The world in which nothing has happened.
pub open spec fn initial_world() -> World {
    World { states: Map::empty(), echoed: Set::empty(), readied: Set::empty() }
}

/// One party takes one input.
pub struct Event {
    pub party: usize,
    pub input: Input,
}

/// Whether the event can happen: the party follows the protocol, a message
/// names a replica as its origin, and an ECHO or READY that names a party
/// which follows the protocol was sent by it.
pub open spec fn admissible(net: Network, w: World, e: Event) -> bool {
    &&& net.honest(e.party)
    &&& match e.input {
        Input::Start(_, _) => true,
        Input::Message(m) => m.origin() < net.n && (net.honest(m.origin()) ==> match m {
            ProtMsgView::Echo(msg, _) => w.echoed.contains((msg.origin, msg.c)),
            ProtMsgView::Ready(msg, _) => w.readied.contains((msg.origin, msg.c)),
            _ => true,
        }),
    }
}

/// The pairs of sender `p` and vector hash of the actions of kind `k` in
/// what `p` emitted.
pub open spec fn sent_by(p: usize, acts: Seq<ActionView>, k: Kind) -> Set<(usize, Seq<u8>)> {
    Set::new(|x: (usize, Seq<u8>)| x.0 == p && said(acts, k, x.1))
}

/// The world after the event.
pub open spec fn apply(net: Network, w: World, e: Event) -> World {
    let next = react(net.params(e.party), true, w.state(e.party), e.input);
    World {
        states: w.states.insert(e.party, next.0),
        echoed: w.echoed.union(sent_by(e.party, next.1, Kind::Echo)),
        readied: w.readied.union(sent_by(e.party, next.1, Kind::Ready)),
    }
}

/// The world after the events in order.
pub open spec fn world_after(net: Network, trace: Seq<Event>) -> World
    decreases trace.len(),
{
    if trace.len() == 0 {
        initial_world()
    } else {
        apply(net, world_after(net, trace.drop_last()), trace.last())
    }
}

/// Whether each event can happen in the world that the events before it
/// lead to.
pub open spec fn valid(net: Network, trace: Seq<Event>) -> bool
    decreases trace.len(),
{
    trace.len() == 0 || (valid(net, trace.drop_last()) && admissible(
        net,
        world_after(net, trace.drop_last()),
        trace.last(),
    ))
}

/// Whether some party that follows the protocol holds a quorum of ECHOs
/// under `h`.
pub open spec fn quorum_seen(net: Network, w: World, h: Seq<u8>) -> bool {
    exists|r: usize|
        net.honest(r) && count((#[trigger] w.state(r)).fragments_data, h) >= net.n - net.f
}

/// Whether the sender of the record is a replica, and sent what the record
/// says if it follows the protocol.
pub open spec fn origin_ok(net: Network, sent: Set<(usize, Seq<u8>)>, r: RecordView) -> bool {
    r.origin < net.n && (net.honest(r.origin) ==> sent.contains((r.origin, r.root)))
}

/// What holds of every world that the parties can reach: every party that
/// follows the protocol is in a state that satisfies the invariant of
/// states; every ECHO and READY recorded was sent; a party echoes one
/// vector hash only, and is in the ECHO phase or beyond once it has; and a
/// READY is sent only under a hash under which a quorum of ECHOs was seen.
pub open spec fn world_inv(net: Network, w: World) -> bool {
    &&& forall|p: usize| net.honest(p) ==> inv(net.params(p), #[trigger] w.state(p))
    &&& forall|p: usize, i: int|
        net.honest(p) && 0 <= i < w.state(p).fragments_data.len() ==> origin_ok(
            net,
            w.echoed,
            #[trigger] w.state(p).fragments_data[i],
        )
    &&& forall|p: usize, i: int|
        net.honest(p) && 0 <= i < w.state(p).fragments_hashes.len() ==> origin_ok(
            net,
            w.readied,
            #[trigger] w.state(p).fragments_hashes[i],
        )
    &&& forall|o: usize, h: Seq<u8>, h2: Seq<u8>|
        net.honest(o) && #[trigger] w.echoed.contains((o, h)) && #[trigger] w.echoed.contains(
            (o, h2),
        ) ==> h == h2
    &&& forall|o: usize, h: Seq<u8>|
        net.honest(o) && #[trigger] w.echoed.contains((o, h)) ==> w.state(o).status.rank()
            >= Status::ECHO.rank()
    &&& forall|o: usize, h: Seq<u8>|
        net.honest(o) && #[trigger] w.readied.contains((o, h)) ==> quorum_seen(net, w, h)
}

/// A quorum that was seen stays seen.
proof fn lemma_quorum_stays(net: Network, w: World, e: Event, h: Seq<u8>)
    requires
        net.wf(),
        world_inv(net, w),
        admissible(net, w, e),
        quorum_seen(net, w, h),
    ensures
        quorum_seen(net, apply(net, w, e), h),
{
    let r = choose|r: usize|
        net.honest(r) && count((#[trigger] w.state(r)).fragments_data, h) >= net.n - net.f;
    let w2 = apply(net, w, e);
    if r == e.party {
        lemma_react_framed(net.params(r), w.state(r), e.input);
        crate::store::lemma_count_grows(
            w.state(r).fragments_data,
            w2.state(r).fragments_data,
            h,
        );
    } else {
        assert(w2.state(r) == w.state(r));
    }
    assert(count(w2.state(r).fragments_data, h) >= net.n - net.f);
}

/// Every event keeps the invariant of worlds.
pub proof fn lemma_apply_preserves(net: Network, w: World, e: Event)
    requires
        net.wf(),
        world_inv(net, w),
        admissible(net, w, e),
    ensures
        world_inv(net, apply(net, w, e)),
{
    let w2 = apply(net, w, e);
    let p0 = net.params(e.party);
    let s = w.state(e.party);
    let next = react(p0, true, s, e.input);
    lemma_react_framed(p0, s, e.input);
    assert forall|p: usize| net.honest(p) implies inv(net.params(p), #[trigger] w2.state(p)) by {
        if p != e.party {
            assert(w2.state(p) == w.state(p));
        }
    }
    assert forall|p: usize, i: int|
        net.honest(p) && 0 <= i < w2.state(p).fragments_data.len() implies origin_ok(
        net,
        w2.echoed,
        #[trigger] w2.state(p).fragments_data[i],
    ) by {
        let r = w2.state(p).fragments_data[i];
        if p != e.party {
            assert(w2.state(p) == w.state(p));
            assert(origin_ok(net, w.echoed, w.state(p).fragments_data[i]));
        } else if i < s.fragments_data.len() {
            assert(next.0.fragments_data[i] == s.fragments_data[i]);
            assert(origin_ok(net, w.echoed, s.fragments_data[i]));
        } else {
            assert(echo_in(e.input) == Some(next.0.fragments_data[i]) || (
            next.0.fragments_data[i].origin == p0.myid && said(
                next.1,
                Kind::Echo,
                next.0.fragments_data[i].root,
            )));
            if echo_in(e.input) == Some(r) {
            } else {
                assert(sent_by(e.party, next.1, Kind::Echo).contains((e.party, r.root)));
            }
        }
    }
    assert forall|p: usize, i: int|
        net.honest(p) && 0 <= i < w2.state(p).fragments_hashes.len() implies origin_ok(
        net,
        w2.readied,
        #[trigger] w2.state(p).fragments_hashes[i],
    ) by {
        let r = w2.state(p).fragments_hashes[i];
        if p != e.party {
            assert(w2.state(p) == w.state(p));
            assert(origin_ok(net, w.readied, w.state(p).fragments_hashes[i]));
        } else if i < s.fragments_hashes.len() {
            assert(next.0.fragments_hashes[i] == s.fragments_hashes[i]);
            assert(origin_ok(net, w.readied, s.fragments_hashes[i]));
        } else {
            assert(ready_in(e.input) == Some(next.0.fragments_hashes[i]) || (
            next.0.fragments_hashes[i].origin == p0.myid && said(
                next.1,
                Kind::Ready,
                next.0.fragments_hashes[i].root,
            )));
            if ready_in(e.input) == Some(r) {
            } else {
                assert(sent_by(e.party, next.1, Kind::Ready).contains((e.party, r.root)));
            }
        }
    }
    assert forall|o: usize, h: Seq<u8>|
        net.honest(o) && #[trigger] w2.echoed.contains((o, h)) implies w2.state(o).status.rank()
        >= Status::ECHO.rank() by {
        if w.echoed.contains((o, h)) {
            if o != e.party {
                assert(w2.state(o) == w.state(o));
            }
        } else {
            assert(sent_by(e.party, next.1, Kind::Echo).contains((o, h)));
            assert(said(next.1, Kind::Echo, h));
        }
    }
    assert forall|o: usize, h: Seq<u8>, h2: Seq<u8>|
        net.honest(o) && #[trigger] w2.echoed.contains((o, h)) && #[trigger] w2.echoed.contains(
            (o, h2),
        ) implies h == h2 by {
        let new1 = !w.echoed.contains((o, h));
        let new2 = !w.echoed.contains((o, h2));
        if new1 {
            assert(sent_by(e.party, next.1, Kind::Echo).contains((o, h)));
            assert(said(next.1, Kind::Echo, h));
        }
        if new2 {
            assert(sent_by(e.party, next.1, Kind::Echo).contains((o, h2)));
            assert(said(next.1, Kind::Echo, h2));
        }
        if new1 != new2 {
            // the party echoes only before it has echoed
            assert(w.state(o).status.rank() >= Status::ECHO.rank());
        }
    }
    assert forall|o: usize, h: Seq<u8>|
        net.honest(o) && #[trigger] w2.readied.contains((o, h)) implies quorum_seen(
        net,
        w2,
        h,
    ) by {
        if w.readied.contains((o, h)) {
            lemma_quorum_stays(net, w, e, h);
        } else {
            assert(sent_by(e.party, next.1, Kind::Ready).contains((o, h)));
            assert(said(next.1, Kind::Ready, h));
            assert(count(w2.state(e.party).fragments_data, h) >= net.n - net.f);
        }
    }
}

/// Every world that the parties can reach satisfies the invariant of
/// worlds.
pub proof fn lemma_reachable(net: Network, trace: Seq<Event>)
    requires
        net.wf(),
        valid(net, trace),
    ensures
        world_inv(net, world_after(net, trace)),
    decreases trace.len(),
{
    if trace.len() > 0 {
        lemma_reachable(net, trace.drop_last());
        lemma_apply_preserves(net, world_after(net, trace.drop_last()), trace.last());
    }
}

/// A party that has delivered has done so under a vector hash under which
/// a quorum of ECHOs was seen.
proof fn lemma_delivery_backed(net: Network, w: World, p: usize)
    requires
        net.wf(),
        world_inv(net, w),
        net.honest(p),
        w.state(p).status == Status::TERMINATED,
    ensures
        w.state(p).echo_root is Some,
        quorum_seen(net, w, w.state(p).echo_root.unwrap()),
{
    let s = w.state(p);
    assert(inv(net.params(p), s));
    let c = s.echo_root.unwrap();
    lemma_some_honest(s.fragments_hashes, c, net.faulty);
    let i = choose|i: int|
        0 <= i < s.fragments_hashes.len() && (#[trigger] s.fragments_hashes[i]).root == c
            && !net.faulty.contains(s.fragments_hashes[i].origin as int);
    assert(origin_ok(net, w.readied, w.state(p).fragments_hashes[i]));
    assert(w.readied.contains((s.fragments_hashes[i].origin, c)));
}

/// Two vector hashes under each of which a quorum of ECHOs was seen are
/// one hash.
pub proof fn lemma_one_quorum(net: Network, w: World, h: Seq<u8>, h2: Seq<u8>)
    requires
        net.wf(),
        world_inv(net, w),
        quorum_seen(net, w, h),
        quorum_seen(net, w, h2),
    ensures
        h == h2,
{
    let r = choose|r: usize|
        net.honest(r) && count((#[trigger] w.state(r)).fragments_data, h) >= net.n - net.f;
    let r2 = choose|r: usize|
        net.honest(r) && count((#[trigger] w.state(r)).fragments_data, h2) >= net.n - net.f;
    let a = w.state(r).fragments_data;
    let b = w.state(r2).fragments_data;
    assert(inv(net.params(r), w.state(r)));
    assert(inv(net.params(r2), w.state(r2)));
    assert(within(a, net.n as int)) by {
        assert forall|i: int| 0 <= i < a.len() implies (#[trigger] a[i]).origin < net.n by {
            assert(origin_ok(net, w.echoed, w.state(r).fragments_data[i]));
        }
    }
    assert(within(b, net.n as int)) by {
        assert forall|i: int| 0 <= i < b.len() implies (#[trigger] b[i]).origin < net.n by {
            assert(origin_ok(net, w.echoed, w.state(r2).fragments_data[i]));
        }
    }
    lemma_quorums_share_honest(a, h, b, h2, net.n as int, net.f as int, net.faulty);
    let (i, j) = choose|i: int, j: int|
        0 <= i < a.len() && 0 <= j < b.len() && (#[trigger] a[i]).root == h && (#[trigger] b[j]).root
            == h2 && a[i].origin == b[j].origin && !net.faulty.contains(a[i].origin as int);
    let o = a[i].origin;
    assert(origin_ok(net, w.echoed, w.state(r).fragments_data[i]));
    assert(origin_ok(net, w.echoed, w.state(r2).fragments_data[j]));
    assert(net.honest(o));
    assert(w.echoed.contains((o, h)));
    assert(w.echoed.contains((o, h2)));
}

/// **Agreement.** In every world that the parties can reach, two parties
/// that follow the protocol and have delivered have done so under the same
/// vector hash, and what each has delivered is empty or the payload of a
/// set of `n` shards whose hashes, joined, have that hash.
pub proof fn theorem_agreement(net: Network, trace: Seq<Event>, p: usize, q: usize)
    requires
        net.wf(),
        valid(net, trace),
        net.honest(p),
        net.honest(q),
        world_after(net, trace).state(p).status == Status::TERMINATED,
        world_after(net, trace).state(q).status == Status::TERMINATED,
    ensures
        world_after(net, trace).state(p).echo_root is Some,
        world_after(net, trace).state(p).echo_root == world_after(net, trace).state(q).echo_root,
        vouched(
            net.params(p),
            world_after(net, trace).state(p).echo_root.unwrap(),
            world_after(net, trace).state(p).output_message,
        ),
        vouched(
            net.params(q),
            world_after(net, trace).state(p).echo_root.unwrap(),
            world_after(net, trace).state(q).output_message,
        ),
{
    let w = world_after(net, trace);
    lemma_reachable(net, trace);
    lemma_delivery_backed(net, w, p);
    lemma_delivery_backed(net, w, q);
    assert(inv(net.params(p), w.state(p)));
    assert(inv(net.params(q), w.state(q)));
    lemma_one_quorum(net, w, w.state(p).echo_root.unwrap(), w.state(q).echo_root.unwrap());
}

/// `all` is a set of `n` shards whose hashes, joined, have the hash `c`, and
/// whose payload is `m`.
pub open spec fn vouches(p: Params, c: Seq<u8>, m: Seq<u8>, all: Seq<Seq<u8>>) -> bool {
    all.len() == p.num_nodes && content_hash(leaf_hashes(all)) == c && concat(all.take(k_of(p)))
        == m
}

/// The sets of shards `a` and `b` yield different values with the same
/// digest: their vectors of hashes, joined, or two shards at one position.
pub open spec fn vectors_collide(a: Seq<Seq<u8>>, b: Seq<Seq<u8>>) -> bool {
    collide(concat(leaf_hashes(a)), concat(leaf_hashes(b))) || exists|i: int|
        0 <= i < a.len() && collide(#[trigger] a[i], b[i])
}

/// The payloads `m` and `m2` come from two sets of shards under the vector
/// hash `c` that yield different values with the same digest.
pub open spec fn vouchers_collide(p: Params, c: Seq<u8>, m: Seq<u8>, m2: Seq<u8>) -> bool {
    exists|a: Seq<Seq<u8>>, b: Seq<Seq<u8>>|
        vouches(p, c, m, a) && vouches(p, c, m2, b) && #[trigger] vectors_collide(a, b)
}

/// Two payloads that one vector hash vouches for are one payload, or one of
/// them is empty, or they come from two sets of shards that yield different
/// values with the same digest.
pub proof fn lemma_vouched_once(p: Params, c: Seq<u8>, m: Seq<u8>, m2: Seq<u8>)
    requires
        vouched(p, c, m),
        vouched(p, c, m2),
    ensures
        m == m2 || m.len() == 0 || m2.len() == 0 || vouchers_collide(p, c, m, m2),
{
    if m.len() != 0 && m2.len() != 0 {
        let a = choose|all: Seq<Seq<u8>>|
            all.len() == p.num_nodes && #[trigger] content_hash(leaf_hashes(all)) == c && concat(
                all.take(k_of(p)),
            ) == m;
        let b = choose|all: Seq<Seq<u8>>|
            all.len() == p.num_nodes && #[trigger] content_hash(leaf_hashes(all)) == c && concat(
                all.take(k_of(p)),
            ) == m2;
        if vectors_collide(a, b) {
            assert(vouches(p, c, m, a) && vouches(p, c, m2, b) && vectors_collide(a, b));
        } else {
            let ha = leaf_hashes(a);
            let hb = leaf_hashes(b);
            assert(concat(ha) == concat(hb));
            crate::codec::lemma_concat_pieces(ha, 32);
            crate::codec::lemma_concat_pieces(hb, 32);
            assert forall|i: int| 0 <= i < a.len() implies a[i] == b[i] by {
                assert(ha[i] == hb[i]);
                assert(!collide(a[i], b[i]));
            }
            assert(a =~= b);
        }
    }
}

/// **Agreement on the payload.** In every world that the parties can
/// reach, two parties that follow the protocol and have delivered have
/// delivered the same payload; or one of them has delivered the empty
/// payload; or the two payloads come from two sets of shards under the
/// vector hash of both deliveries that yield different values with the
/// same digest.
pub proof fn theorem_agreement_on_payload(net: Network, trace: Seq<Event>, p: usize, q: usize)
    requires
        net.wf(),
        valid(net, trace),
        net.honest(p),
        net.honest(q),
        world_after(net, trace).state(p).status == Status::TERMINATED,
        world_after(net, trace).state(q).status == Status::TERMINATED,
    ensures
        ({
            let m = world_after(net, trace).state(p).output_message;
            let m2 = world_after(net, trace).state(q).output_message;
            m == m2 || m.len() == 0 || m2.len() == 0 || vouchers_collide(
                net.params(p),
                world_after(net, trace).state(p).echo_root.unwrap(),
                m,
                m2,
            )
        }),
{
    theorem_agreement(net, trace, p, q);
    let w = world_after(net, trace);
    let c = w.state(p).echo_root.unwrap();
    assert(vouched(net.params(p), c, w.state(q).output_message)) by {
        if w.state(q).output_message.len() != 0 {
            let all = choose|all: Seq<Seq<u8>>|
                all.len() == net.params(q).num_nodes && #[trigger] content_hash(leaf_hashes(all))
                    == c && concat(all.take(k_of(net.params(q)))) == w.state(q).output_message;
            assert(content_hash(leaf_hashes(all)) == c);
        }
    }
    lemma_vouched_once(net.params(p), c, w.state(p).output_message, w.state(q).output_message);
}

} // verus!
