//! Agreement among the parties that follow the protocol, for the variant
//! without the optimistic thresholds.
//!
//! The network is modelled as follows. Of the `n` replicas at most `f` are
//! faulty. A party that is not faulty takes inputs one at a time: the
//! application's request to start a broadcast, or a message. A message can
//! name any replica as its origin; but an ECHO or READY that names a party
//! that is not faulty was sent by that party, under the same root. What
//! the faulty replicas do is not constrained otherwise.
//!
//! That a message which names a party was sent by it is asked of the
//! transport: the dispatcher takes every message whose tag holds and does
//! not compare the origin that a message names with its sender.

use crate::ctrbc::context::ProtMsgView;
use crate::ctrbc::frame::{echo_in, lemma_react_framed, ready_in, said};
use crate::ctrbc::laws::{backed, inv, lemma_inv_initial};
use crate::ctrbc::rbc_state::{initial_state, StateView};
use crate::ctrbc::step::Config;
use crate::ctrbc::msg::ActionView;
use crate::ctrbc::trace::{pays, pays_ready, react, recommits, tally, Input, Kind};
use crate::merkle::{lemma_root_binds_shards, merkle_root, shards_collide};
use crate::params::{Params, MAX_NODES};
use crate::quorum::{lemma_quorums_share_honest, lemma_some_honest, within};
use crate::status::Status;
use crate::store::{count, lemma_count_grows, lemma_push_record, RecordView};
use vstd::prelude::*;

verus! {

/// The size of the network and its faulty replicas.
pub struct Network {
    pub n: usize,
    pub f: usize,
    pub faulty: Set<int>,
}

impl Network {
    /// `n > 3f`, and at most `f` replicas are faulty.
    pub open spec fn wf(self) -> bool {
        &&& 3 * self.f < self.n
        &&& self.n <= MAX_NODES
        &&& self.faulty.finite()
        &&& self.faulty.len() <= self.f
    }

    /// Whether `p` is a replica that follows the protocol.
    pub open spec fn honest(self, p: usize) -> bool {
        p < self.n && !self.faulty.contains(p as int)
    }

    /// The configuration of party `p`.
    pub open spec fn config(self, p: usize) -> Config {
        Config {
            params: Params { num_nodes: self.n, num_faults: self.f, myid: p },
            optimistic: false,
        }
    }
}

/// The states of the parties for one instance, and what the parties that
/// follow the protocol have sent so far: the pairs of sender and root of
/// their ECHOs and of their READYs.
pub struct World {
    pub states: Map<usize, StateView>,
    pub echoed: Set<(usize, Seq<u8>)>,
    pub readied: Set<(usize, Seq<u8>)>,
}

impl World {
    /// The state of party `p`.
    pub open spec fn state(self, p: usize) -> StateView {
        if self.states.contains_key(p) {
            self.states[p]
        } else {
            initial_state()
        }
    }
}

/// The world in which nothing has happened.
pub open spec fn initial_world() -> World {
    World { states: Map::empty(), echoed: Set::empty(), readied: Set::empty() }
}

/// One party takes one input.
pub struct Event {
    pub party: usize,
    pub input: Input,
}

/// Whether the event can happen: the party follows the protocol, a message
/// names a replica as its origin, and an ECHO or READY that names a party
/// which follows the protocol was sent by it.
pub open spec fn admissible(net: Network, w: World, e: Event) -> bool {
    &&& net.honest(e.party)
    &&& match e.input {
        Input::Start(_) => true,
        Input::Message(m) => m.origin() < net.n && (net.honest(m.origin()) ==> match m {
            ProtMsgView::Echo(msg, _) => w.echoed.contains((msg.origin, msg.mp.root)),
            ProtMsgView::Ready(msg, _) => w.readied.contains((msg.origin, msg.mp.root)),
            _ => true,
        }),
    }
}

/// The pairs of sender `p` and root of the actions of kind `k` in what `p`
/// emitted.
pub open spec fn sent_by(
    p: usize,
    acts: Seq<crate::ctrbc::msg::ActionView>,
    k: Kind,
) -> Set<(usize, Seq<u8>)> {
    Set::new(|x: (usize, Seq<u8>)| x.0 == p && said(acts, k, x.1))
}

/// The world after the event.
pub open spec fn apply(net: Network, w: World, e: Event) -> World {
    let next = react(net.config(e.party), true, w.state(e.party), e.input);
    World {
        states: w.states.insert(e.party, next.0),
        echoed: w.echoed.union(sent_by(e.party, next.1, Kind::Echo)),
        readied: w.readied.union(sent_by(e.party, next.1, Kind::Ready)),
    }
}

/// The world after the events in order.
pub open spec fn world_after(net: Network, trace: Seq<Event>) -> World
    decreases trace.len(),
{
    if trace.len() == 0 {
        initial_world()
    } else {
        apply(net, world_after(net, trace.drop_last()), trace.last())
    }
}

/// Whether each event can happen in the world that the events before it
/// lead to.
pub open spec fn valid(net: Network, trace: Seq<Event>) -> bool
    decreases trace.len(),
{
    trace.len() == 0 || (valid(net, trace.drop_last()) && admissible(
        net,
        world_after(net, trace.drop_last()),
        trace.last(),
    ))
}

/// Whether some party that follows the protocol holds a quorum of ECHOs
/// under `h`.
pub open spec fn quorum_seen(net: Network, w: World, h: Seq<u8>) -> bool {
    exists|r: usize| net.honest(r) && count((#[trigger] w.state(r)).echos, h) >= net.n - net.f
}

/// Whether the sender of the record is a replica, and sent what the record
/// says if it follows the protocol.
pub open spec fn origin_ok(net: Network, sent: Set<(usize, Seq<u8>)>, r: RecordView) -> bool {
    r.origin < net.n && (net.honest(r.origin) ==> sent.contains((r.origin, r.root)))
}

/// Every party that follows the protocol is in a state that satisfies the
/// invariant of states.
pub open spec fn local_ok(net: Network, w: World) -> bool {
    forall|p: usize| net.honest(p) ==> inv(net.config(p), #[trigger] w.state(p))
}

/// Every ECHO recorded was sent.
pub open spec fn echos_ok(net: Network, w: World) -> bool {
    forall|p: usize, i: int|
        net.honest(p) && 0 <= i < w.state(p).echos.len() ==> origin_ok(
            net,
            w.echoed,
            #[trigger] w.state(p).echos[i],
        )
}

/// Every READY recorded was sent.
pub open spec fn readys_ok(net: Network, w: World) -> bool {
    forall|p: usize, i: int|
        net.honest(p) && 0 <= i < w.state(p).readys.len() ==> origin_ok(
            net,
            w.readied,
            #[trigger] w.state(p).readys[i],
        )
}

/// A party echoes one root only.
pub open spec fn echo_once(net: Network, w: World) -> bool {
    forall|o: usize, h: Seq<u8>, h2: Seq<u8>|
        net.honest(o) && #[trigger] w.echoed.contains((o, h)) && #[trigger] w.echoed.contains(
            (o, h2),
        ) ==> h == h2
}

/// A party that has echoed is in the ECHO phase or beyond.
pub open spec fn echo_phase(net: Network, w: World) -> bool {
    forall|o: usize, h: Seq<u8>|
        net.honest(o) && #[trigger] w.echoed.contains((o, h)) ==> w.state(o).status.rank()
            >= Status::ECHO.rank()
}

/// A READY is sent only under a root under which a quorum of ECHOs was
/// seen.
pub open spec fn ready_backed(net: Network, w: World) -> bool {
    forall|o: usize, h: Seq<u8>|
        net.honest(o) && #[trigger] w.readied.contains((o, h)) ==> quorum_seen(net, w, h)
}

/// A party commits only to a root under which a quorum of ECHOs was seen.
pub open spec fn commit_backed(net: Network, w: World) -> bool {
    forall|p: usize|
        net.honest(p) && (#[trigger] w.state(p)).echo_root is Some ==> quorum_seen(
            net,
            w,
            w.state(p).echo_root.unwrap(),
        )
}

/// What holds of every world that the parties can reach.
pub open spec fn world_inv(net: Network, w: World) -> bool {
    &&& local_ok(net, w)
    &&& echos_ok(net, w)
    &&& readys_ok(net, w)
    &&& echo_once(net, w)
    &&& echo_phase(net, w)
    &&& ready_backed(net, w)
    &&& commit_backed(net, w)
}

/// A quorum that was seen stays seen.
proof fn lemma_quorum_stays(net: Network, w: World, e: Event, h: Seq<u8>)
    requires
        net.wf(),
        world_inv(net, w),
        admissible(net, w, e),
        quorum_seen(net, w, h),
    ensures
        quorum_seen(net, apply(net, w, e), h),
{
    let r = choose|r: usize| net.honest(r) && count((#[trigger] w.state(r)).echos, h) >= net.n - net.f;
    let w2 = apply(net, w, e);
    if r == e.party {
        lemma_react_framed(net.config(r), w.state(r), e.input);
        lemma_count_grows(w.state(r).echos, w2.state(r).echos, h);
    } else {
        assert(w2.state(r) == w.state(r));
    }
    assert(count(w2.state(r).echos, h) >= net.n - net.f);
}

/// Every event keeps the states sound.
proof fn lemma_local_ok(net: Network, w: World, e: Event)
    requires
        net.wf(),
        world_inv(net, w),
        admissible(net, w, e),
    ensures
        local_ok(net, apply(net, w, e)),
{
    let w2 = apply(net, w, e);
    lemma_react_framed(net.config(e.party), w.state(e.party), e.input);
    assert forall|p: usize| net.honest(p) implies inv(net.config(p), #[trigger] w2.state(p)) by {
        if p != e.party {
            assert(w2.state(p) == w.state(p));
        }
    }
}

/// Every event keeps the ECHOs recorded among those sent.
proof fn lemma_echos_ok(net: Network, w: World, e: Event)
    requires
        net.wf(),
        world_inv(net, w),
        admissible(net, w, e),
    ensures
        echos_ok(net, apply(net, w, e)),
{
    let w2 = apply(net, w, e);
    let c = net.config(e.party);
    let s = w.state(e.party);
    let next = react(c, true, s, e.input);
    lemma_react_framed(c, s, e.input);
    assert forall|p: usize, i: int|
        net.honest(p) && 0 <= i < w2.state(p).echos.len() implies origin_ok(
        net,
        w2.echoed,
        #[trigger] w2.state(p).echos[i],
    ) by {
        let r = w2.state(p).echos[i];
        if p != e.party {
            assert(w2.state(p) == w.state(p));
            assert(origin_ok(net, w.echoed, w.state(p).echos[i]));
        } else if i < s.echos.len() {
            assert(next.0.echos[i] == s.echos[i]);
            assert(origin_ok(net, w.echoed, s.echos[i]));
        } else {
            assert(echo_in(e.input) == Some(next.0.echos[i]) || (next.0.echos[i].origin == c.me()
                && said(next.1, Kind::Echo, next.0.echos[i].root)));
            if echo_in(e.input) == Some(r) {
            } else {
                assert(sent_by(e.party, next.1, Kind::Echo).contains((e.party, r.root)));
            }
        }
    }
}

/// Every event keeps the READYs recorded among those sent.
proof fn lemma_readys_ok(net: Network, w: World, e: Event)
    requires
        net.wf(),
        world_inv(net, w),
        admissible(net, w, e),
    ensures
        readys_ok(net, apply(net, w, e)),
{
    let w2 = apply(net, w, e);
    let c = net.config(e.party);
    let s = w.state(e.party);
    let next = react(c, true, s, e.input);
    lemma_react_framed(c, s, e.input);
    assert forall|p: usize, i: int|
        net.honest(p) && 0 <= i < w2.state(p).readys.len() implies origin_ok(
        net,
        w2.readied,
        #[trigger] w2.state(p).readys[i],
    ) by {
        let r = w2.state(p).readys[i];
        if p != e.party {
            assert(w2.state(p) == w.state(p));
            assert(origin_ok(net, w.readied, w.state(p).readys[i]));
        } else if i < s.readys.len() {
            assert(next.0.readys[i] == s.readys[i]);
            assert(origin_ok(net, w.readied, s.readys[i]));
        } else {
            assert(ready_in(e.input) == Some(next.0.readys[i]) || (next.0.readys[i].origin
                == c.me() && said(next.1, Kind::Ready, next.0.readys[i].root)));
            if ready_in(e.input) == Some(r) {
            } else {
                assert(sent_by(e.party, next.1, Kind::Ready).contains((e.party, r.root)));
            }
        }
    }
}

/// After every event each party has echoed one root at most, and is in the
/// ECHO phase or beyond if it has.
proof fn lemma_echo_once_and_phase(net: Network, w: World, e: Event)
    requires
        net.wf(),
        world_inv(net, w),
        admissible(net, w, e),
    ensures
        echo_once(net, apply(net, w, e)),
        echo_phase(net, apply(net, w, e)),
{
    let w2 = apply(net, w, e);
    let c = net.config(e.party);
    let s = w.state(e.party);
    let next = react(c, true, s, e.input);
    lemma_react_framed(c, s, e.input);
    assert forall|o: usize, h: Seq<u8>|
        net.honest(o) && #[trigger] w2.echoed.contains((o, h)) implies w2.state(o).status.rank()
        >= Status::ECHO.rank() by {
        if w.echoed.contains((o, h)) {
            if o != e.party {
                assert(w2.state(o) == w.state(o));
            }
        } else {
            assert(sent_by(e.party, next.1, Kind::Echo).contains((o, h)));
            assert(said(next.1, Kind::Echo, h));
        }
    }
    assert forall|o: usize, h: Seq<u8>, h2: Seq<u8>|
        net.honest(o) && #[trigger] w2.echoed.contains((o, h)) && #[trigger] w2.echoed.contains(
            (o, h2),
        ) implies h == h2 by {
        let new1 = !w.echoed.contains((o, h));
        let new2 = !w.echoed.contains((o, h2));
        if new1 {
            assert(sent_by(e.party, next.1, Kind::Echo).contains((o, h)));
            assert(said(next.1, Kind::Echo, h));
        }
        if new2 {
            assert(sent_by(e.party, next.1, Kind::Echo).contains((o, h2)));
            assert(said(next.1, Kind::Echo, h2));
        }
        if new1 && !new2 {
            // the party echoes only before it has echoed
            assert(w.state(o).status.rank() >= Status::ECHO.rank());
        }
        if new2 && !new1 {
            assert(w.state(o).status.rank() >= Status::ECHO.rank());
        }
    }
}

/// After every event each root committed to has had its quorum of ECHOs.
proof fn lemma_commit_backed(net: Network, w: World, e: Event)
    requires
        net.wf(),
        world_inv(net, w),
        admissible(net, w, e),
    ensures
        commit_backed(net, apply(net, w, e)),
{
    let w2 = apply(net, w, e);
    let c = net.config(e.party);
    let s = w.state(e.party);
    let next = react(c, true, s, e.input);
    lemma_react_framed(c, s, e.input);
    assert forall|p: usize|
        net.honest(p) && (#[trigger] w2.state(p)).echo_root is Some implies quorum_seen(
        net,
        w2,
        w2.state(p).echo_root.unwrap(),
    ) by {
        let h = w2.state(p).echo_root.unwrap();
        if p != e.party {
            assert(w2.state(p) == w.state(p));
            lemma_quorum_stays(net, w, e, h);
        } else if s.echo_root == Some(h) {
            assert(w.state(p).echo_root is Some);
            lemma_quorum_stays(net, w, e, h);
        } else if count(next.0.echos, h) >= net.n - net.f {
            assert(count(w2.state(p).echos, h) >= net.n - net.f);
        } else {
            // f + 1 READYs under h, one of them from a party that follows
            // the protocol
            let r = ready_in(e.input).unwrap();
            let all = s.readys.push(r);
            assert(crate::store::lookup(s.readys, r.root, r.origin) is None) by {
                if crate::store::lookup(s.readys, r.root, r.origin) is Some {
                    assert(next.0 == s);
                }
            }
            lemma_push_record(s.readys, r);
            lemma_some_honest(all, h, net.faulty);
            let i = choose|i: int|
                0 <= i < all.len() && (#[trigger] all[i]).root == h && !net.faulty.contains(
                    all[i].origin as int,
                );
            if i < s.readys.len() {
                assert(all[i] == s.readys[i]);
                assert(origin_ok(net, w.readied, w.state(p).readys[i]));
                assert(w.readied.contains((all[i].origin, h)));
            } else {
                assert(all[i] == r);
                assert(w.readied.contains((r.origin, h)));
            }
            assert(net.honest(all[i].origin));
            assert(quorum_seen(net, w, h));
            lemma_quorum_stays(net, w, e, h);
        }
    }
}

/// After every event each READY sent stands under a root that has had its
/// quorum of ECHOs.
proof fn lemma_ready_backed(net: Network, w: World, e: Event)
    requires
        net.wf(),
        world_inv(net, w),
        admissible(net, w, e),
    ensures
        ready_backed(net, apply(net, w, e)),
{
    let w2 = apply(net, w, e);
    let c = net.config(e.party);
    let s = w.state(e.party);
    let next = react(c, true, s, e.input);
    lemma_react_framed(c, s, e.input);
    lemma_commit_backed(net, w, e);
    assert forall|o: usize, h: Seq<u8>|
        net.honest(o) && #[trigger] w2.readied.contains((o, h)) implies quorum_seen(
        net,
        w2,
        h,
    ) by {
        if w.readied.contains((o, h)) {
            lemma_quorum_stays(net, w, e, h);
        } else {
            assert(sent_by(e.party, next.1, Kind::Ready).contains((o, h)));
            assert(said(next.1, Kind::Ready, h));
            assert(w2.state(e.party).echo_root == Some(h));
        }
    }
}

/// Every event keeps the invariant of worlds.
pub proof fn lemma_apply_preserves(net: Network, w: World, e: Event)
    requires
        net.wf(),
        world_inv(net, w),
        admissible(net, w, e),
    ensures
        world_inv(net, apply(net, w, e)),
{
    lemma_local_ok(net, w, e);
    lemma_echos_ok(net, w, e);
    lemma_readys_ok(net, w, e);
    lemma_echo_once_and_phase(net, w, e);
    lemma_commit_backed(net, w, e);
    lemma_ready_backed(net, w, e);
}

/// Every world that the parties can reach satisfies the invariant of
/// worlds.
pub proof fn lemma_reachable(net: Network, trace: Seq<Event>)
    requires
        net.wf(),
        valid(net, trace),
    ensures
        world_inv(net, world_after(net, trace)),
    decreases trace.len(),
{
    if trace.len() == 0 {
        let w = initial_world();
        assert forall|p: usize| net.honest(p) implies inv(net.config(p), #[trigger] w.state(p)) by {
            lemma_inv_initial(net.config(p));
        }
    } else {
        lemma_reachable(net, trace.drop_last());
        lemma_apply_preserves(net, world_after(net, trace.drop_last()), trace.last());
    }
}

/// Two roots under each of which a quorum of ECHOs was seen are one root.
pub proof fn lemma_one_quorum(net: Network, w: World, h: Seq<u8>, h2: Seq<u8>)
    requires
        net.wf(),
        world_inv(net, w),
        quorum_seen(net, w, h),
        quorum_seen(net, w, h2),
    ensures
        h == h2,
{
    let r = choose|r: usize| net.honest(r) && count((#[trigger] w.state(r)).echos, h) >= net.n - net.f;
    let r2 = choose|r: usize|
        net.honest(r) && count((#[trigger] w.state(r)).echos, h2) >= net.n - net.f;
    let a = w.state(r).echos;
    let b = w.state(r2).echos;
    assert(inv(net.config(r), w.state(r)));
    assert(inv(net.config(r2), w.state(r2)));
    assert(within(a, net.n as int)) by {
        assert forall|i: int| 0 <= i < a.len() implies (#[trigger] a[i]).origin < net.n by {
            assert(origin_ok(net, w.echoed, w.state(r).echos[i]));
        }
    }
    assert(within(b, net.n as int)) by {
        assert forall|i: int| 0 <= i < b.len() implies (#[trigger] b[i]).origin < net.n by {
            assert(origin_ok(net, w.echoed, w.state(r2).echos[i]));
        }
    }
    lemma_quorums_share_honest(a, h, b, h2, net.n as int, net.f as int, net.faulty);
    let (i, j) = choose|i: int, j: int|
        0 <= i < a.len() && 0 <= j < b.len() && (#[trigger] a[i]).root == h && (#[trigger] b[j]).root
            == h2 && a[i].origin == b[j].origin && !net.faulty.contains(a[i].origin as int);
    let o = a[i].origin;
    assert(origin_ok(net, w.echoed, w.state(r).echos[i]));
    assert(origin_ok(net, w.echoed, w.state(r2).echos[j]));
    assert(net.honest(o));
    assert(w.echoed.contains((o, h)));
    assert(w.echoed.contains((o, h2)));
}

/// **Agreement.** In every world that the parties can reach, two parties
/// that follow the protocol and have delivered have committed to the same
/// root, and the payload that each has delivered is the payload of a set
/// of `n` shards with that root.
pub proof fn theorem_agreement(net: Network, trace: Seq<Event>, p: usize, q: usize)
    requires
        net.wf(),
        valid(net, trace),
        net.honest(p),
        net.honest(q),
        world_after(net, trace).state(p).terminated,
        world_after(net, trace).state(q).terminated,
    ensures
        world_after(net, trace).state(p).echo_root is Some,
        world_after(net, trace).state(p).echo_root == world_after(net, trace).state(q).echo_root,
        world_after(net, trace).state(p).message is Some,
        world_after(net, trace).state(q).message is Some,
        backed(
            net.config(p),
            world_after(net, trace).state(p).echo_root.unwrap(),
            world_after(net, trace).state(p).message.unwrap(),
        ),
        backed(
            net.config(q),
            world_after(net, trace).state(p).echo_root.unwrap(),
            world_after(net, trace).state(q).message.unwrap(),
        ),
{
    let w = world_after(net, trace);
    lemma_reachable(net, trace);
    assert(inv(net.config(p), w.state(p)));
    assert(inv(net.config(q), w.state(q)));
    lemma_one_quorum(net, w, w.state(p).echo_root.unwrap(), w.state(q).echo_root.unwrap());
}

/// `all` is a set of `n` shards with root `h` whose payload is `m`.
pub open spec fn backs(c: Config, h: Seq<u8>, m: Seq<u8>, all: Seq<Seq<u8>>) -> bool {
    all.len() == c.n() && merkle_root(all) == h && crate::codec::concat(all.take(c.f() + 1)) == m
}

/// The payloads `m` and `m2` come from two sets of shards with root `h`
/// whose trees hash different values to the same digest at the same place.
pub open spec fn backers_collide(c: Config, h: Seq<u8>, m: Seq<u8>, m2: Seq<u8>) -> bool {
    exists|a: Seq<Seq<u8>>, b: Seq<Seq<u8>>|
        backs(c, h, m, a) && backs(c, h, m2, b) && #[trigger] shards_collide(a, b)
}

/// Two payloads that one root backs are one payload, or they come from two
/// sets of shards whose trees hash different values to the same digest.
pub proof fn lemma_backed_once(c: Config, h: Seq<u8>, m: Seq<u8>, m2: Seq<u8>)
    requires
        backed(c, h, m),
        backed(c, h, m2),
    ensures
        m == m2 || backers_collide(c, h, m, m2),
{
    let a = choose|all: Seq<Seq<u8>>|
        all.len() == c.n() && #[trigger] merkle_root(all) == h && crate::codec::concat(
            all.take(c.f() + 1),
        ) == m;
    let b = choose|all: Seq<Seq<u8>>|
        all.len() == c.n() && #[trigger] merkle_root(all) == h && crate::codec::concat(
            all.take(c.f() + 1),
        ) == m2;
    lemma_root_binds_shards(a, b);
    if a != b {
        assert(backs(c, h, m, a) && backs(c, h, m2, b) && shards_collide(a, b));
    }
}

/// **Agreement on the payload.** In every world that the parties can
/// reach, two parties that follow the protocol and have delivered have
/// delivered the same payload; or the two payloads come from two sets of
/// shards under the root both have committed to, and the trees over these
/// sets hash different values to the same digest at the same place.
pub proof fn theorem_agreement_on_payload(net: Network, trace: Seq<Event>, p: usize, q: usize)
    requires
        net.wf(),
        valid(net, trace),
        net.honest(p),
        net.honest(q),
        world_after(net, trace).state(p).terminated,
        world_after(net, trace).state(q).terminated,
    ensures
        world_after(net, trace).state(p).message == world_after(net, trace).state(q).message
            || backers_collide(
            net.config(p),
            world_after(net, trace).state(p).echo_root.unwrap(),
            world_after(net, trace).state(p).message.unwrap(),
            world_after(net, trace).state(q).message.unwrap(),
        ),
{
    theorem_agreement(net, trace, p, q);
    let w = world_after(net, trace);
    let h = w.state(p).echo_root.unwrap();
    assert(backed(net.config(p), h, w.state(q).message.unwrap())) by {
        let all = choose|all: Seq<Seq<u8>>|
            all.len() == net.config(q).n() && #[trigger] merkle_root(all) == h
                && crate::codec::concat(all.take(net.config(q).f() + 1)) == w.state(
                q,
            ).message.unwrap();
        assert(merkle_root(all) == h);
    }
    lemma_backed_once(net.config(p), h, w.state(p).message.unwrap(), w.state(q).message.unwrap());
}

/// Everything that party `p` has emitted over the events, in order.
pub open spec fn emitted_by(net: Network, trace: Seq<Event>, p: usize) -> Seq<ActionView>
    decreases trace.len(),
{
    if trace.len() == 0 {
        Seq::empty()
    } else {
        let before = emitted_by(net, trace.drop_last(), p);
        if trace.last().party == p {
            before + react(
                net.config(p),
                true,
                world_after(net, trace.drop_last()).state(p),
                trace.last().input,
            ).1
        } else {
            before
        }
    }
}

/// In a world that the parties can reach, no event makes a party that has
/// committed to one root commit to another.
pub proof fn lemma_commits_once(net: Network, w: World, e: Event)
    requires
        net.wf(),
        world_inv(net, w),
        admissible(net, w, e),
    ensures
        !recommits(net.config(e.party), w.state(e.party), e.input),
{
    let c = net.config(e.party);
    let s = w.state(e.party);
    if recommits(c, s, e.input) {
        let w2 = apply(net, w, e);
        lemma_apply_preserves(net, w, e);
        let h = s.echo_root.unwrap();
        assert(w.state(e.party).echo_root is Some);
        lemma_quorum_stays(net, w, e, h);
        assert(inv(c, w2.state(e.party)));
        crate::ctrbc::frame::lemma_react_framed(c, s, e.input);
        let msg = match e.input {
            Input::Message(ProtMsgView::Ready(msg, _)) => msg,
            _ => arbitrary(),
        };
        crate::ctrbc::laws::lemma_ready_step(c, s, msg);
        assert(w2.state(e.party).echo_root is Some) by {
            assert(w2.state(e.party) == crate::ctrbc::step::ready_step(c, s, msg).0);
            crate::ctrbc::frame::lemma_echo_root_stays_set(c, s, msg);
        }
        lemma_one_quorum(net, w2, h, w2.state(e.party).echo_root.unwrap());
    }
}

/// **One-shot emissions in the network.** In every world that the parties
/// can reach, a party that follows the protocol has sent at most one ECHO
/// of its own and at most one VOTE, has sent READY at most three times
/// (early, when it commits, and when it delivers), and has delivered at
/// most one payload.
pub proof fn theorem_one_shot(net: Network, trace: Seq<Event>, p: usize)
    requires
        net.wf(),
        valid(net, trace),
        net.honest(p),
    ensures
        pays(initial_state(), (world_after(net, trace).state(p), emitted_by(net, trace, p))),
        pays_ready(
            initial_state(),
            (world_after(net, trace).state(p), emitted_by(net, trace, p)),
        ),
        tally(emitted_by(net, trace, p), Kind::Echo) <= 1,
        tally(emitted_by(net, trace, p), Kind::Vote) <= 1,
        tally(emitted_by(net, trace, p), Kind::Ready) <= 3,
        tally(emitted_by(net, trace, p), Kind::Deliver) <= 1,
    decreases trace.len(),
{
    if trace.len() == 0 {
        reveal_with_fuel(tally, 1);
    } else {
        let prefix = trace.drop_last();
        let w = world_after(net, prefix);
        let e = trace.last();
        theorem_one_shot(net, prefix, p);
        lemma_reachable(net, prefix);
        if e.party == p {
            let c = net.config(p);
            assert(inv(c, w.state(p)));
            lemma_commits_once(net, w, e);
            crate::ctrbc::trace::lemma_react_pays(c, true, w.state(p), e.input);
            crate::ctrbc::trace::lemma_chain(
                initial_state(),
                (w.state(p), emitted_by(net, prefix, p)),
                react(c, true, w.state(p), e.input),
            );
        } else {
            assert(world_after(net, trace).state(p) == w.state(p));
        }
    }
}

} // verus!
