//! What holds of every state that the transitions reach, and of every
//! sequence of transitions.

use crate::ccbrb::msg::{ActionView, EchoView, ProtMsgView, ReadyView, SendView};
use crate::share::{ShareView};
use crate::ccbrb::process::dispatch;
use crate::ccbrb::rbc_state::{initial_state, StateView};
use crate::ccbrb::step::{
    content_hash, echo_step, init_ok, init_step, k_of, ready_due, ready_step, record, sends,
    start_echo_step, start_ready_step, start_step,
};
use crate::codec::{concat, rs_encode};
use crate::merkle::leaf_hashes;
use crate::params::Params;
use crate::status::Status;
use crate::store::{count, lemma_push_record, lookup, unique};
use vstd::prelude::*;

verus! {

/// `m` is empty, or it is the payload of a set of `n` shards whose hashes,
/// joined, have the hash `c`.
pub open spec fn vouched(p: Params, c: Seq<u8>, m: Seq<u8>) -> bool {
    m.len() == 0 || exists|all: Seq<Seq<u8>>|
        all.len() == p.num_nodes && #[trigger] content_hash(leaf_hashes(all)) == c && concat(
            all.take(k_of(p)),
        ) == m
}

/// What holds of every state of an instance: no sender occurs twice under
/// one vector hash, neither among the ECHOs nor among the READYs; and a
/// party that has delivered has done so under a vector hash under which it
/// holds a quorum of READYs and which vouches for the payload.
pub open spec fn inv(p: Params, s: StateView) -> bool {
    &&& unique(s.fragments_data)
    &&& unique(s.fragments_hashes)
    &&& s.status == Status::TERMINATED ==> {
        &&& s.echo_root is Some
        &&& count(s.fragments_hashes, s.echo_root.unwrap()) >= p.num_nodes - p.num_faults
        &&& vouched(p, s.echo_root.unwrap(), s.output_message)
    }
}

/// What is delivered under `c` is vouched for by `c`.
pub proof fn lemma_outcome_vouched(p: Params, s: StateView, c: Seq<u8>)
    requires
        p.wf(),
        crate::ccbrb::step::outcome(p, s, c) is Some,
    ensures
        vouched(p, c, crate::ccbrb::step::outcome(p, s, c).unwrap()),
{
    let m = crate::ccbrb::step::outcome(p, s, c).unwrap();
    if m.len() != 0 {
        let n = p.num_nodes as nat;
        let hashes = crate::ccbrb::step::vector_behind(p, s, c).unwrap();
        let slots = crate::ccbrb::step::placed(s.fragments_data, c, n, Some(hashes));
        let all = crate::codec::reconstructed(slots, k_of(p), n as int).unwrap();
        let decoded = crate::codec::corrected(
            crate::ccbrb::step::placed(s.fragments_hashes, c, n, None),
            k_of(p),
            n as int,
        ).unwrap();
        let bytes = decoded.take(32 * n as int);
        assert(hashes == crate::ccbrb::step::chunks(bytes, n));
        crate::codec::lemma_slices_join(hashes, bytes, 32, n as int);
        assert(hashes.take(n as int) =~= hashes);
        assert(bytes.subrange(0, (n as int) * 32) =~= bytes);
        assert(concat(hashes) == bytes);
        assert(content_hash(leaf_hashes(all)) == c);
    }
}

/// What can happen to an instance at one party.
pub enum Input {
    /// The application asks the party to broadcast a payload under an id.
    Start(Seq<u8>, u64),
    /// A message arrives.
    Message(ProtMsgView),
}

/// The kinds of action.
#[derive(PartialEq, Eq, Structural)]
pub enum Kind {
    Send,
    Echo,
    Ready,
    Deliver,
}

/// The kind of an action.
pub open spec fn kind_of(a: ActionView) -> Kind {
    match a {
        ActionView::Send(_, _) => Kind::Send,
        ActionView::Echo(_) => Kind::Echo,
        ActionView::Ready(_) => Kind::Ready,
        ActionView::Deliver(_) => Kind::Deliver,
    }
}

/// Number of actions of kind `k` among `acts`.
pub open spec fn tally(acts: Seq<ActionView>, k: Kind) -> nat
    decreases acts.len(),
{
    if acts.len() == 0 {
        0
    } else if kind_of(acts.last()) == k {
        tally(acts.drop_last(), k) + 1
    } else {
        tally(acts.drop_last(), k)
    }
}

/// The transition on one input; a start that is refused changes nothing.
pub open spec fn react(p: Params, honest: bool, s: StateView, input: Input) -> (
    StateView,
    Seq<ActionView>,
) {
    match input {
        Input::Start(payload, id) => match start_step(p, honest, s, payload, id) {
            Ok(next) => next,
            Err(_) => (s, Seq::empty()),
        },
        Input::Message(m) => dispatch(p, s, m),
    }
}

/// The state after the inputs in order, and everything emitted on the way.
pub open spec fn run(p: Params, honest: bool, s: StateView, inputs: Seq<Input>) -> (
    StateView,
    Seq<ActionView>,
)
    decreases inputs.len(),
{
    if inputs.len() == 0 {
        (s, Seq::empty())
    } else {
        let before = run(p, honest, s, inputs.drop_last());
        let last = react(p, honest, before.0, inputs.last());
        (last.0, before.1 + last.1)
    }
}

/// ECHOs that the party may still send.
pub open spec fn echoes_left(s: StateView) -> nat {
    if s.status.rank() <= Status::INIT.rank() {
        1
    } else {
        0
    }
}

/// READYs that the party may still send.
pub open spec fn readys_left(s: StateView) -> nat {
    if s.status.rank() <= Status::ECHO.rank() {
        1
    } else {
        0
    }
}

/// Payloads that the party may still deliver.
pub open spec fn deliveries_left(s: StateView) -> nat {
    if s.status == Status::TERMINATED {
        0
    } else {
        1
    }
}

/// Whether a transition from `s` keeps the invariant, does not go back in
/// phase, and stays within what `s` may still send and deliver.
pub open spec fn sound(p: Params, s: StateView, next: (StateView, Seq<ActionView>)) -> bool {
    &&& inv(p, next.0)
    &&& next.0.status.rank() >= s.status.rank()
    &&& tally(next.1, Kind::Echo) + echoes_left(next.0) <= echoes_left(s)
    &&& tally(next.1, Kind::Ready) + readys_left(next.0) <= readys_left(s)
    &&& tally(next.1, Kind::Deliver) + deliveries_left(next.0) <= deliveries_left(s)
}

/// The tally of a concatenation is the sum of the tallies.
pub proof fn lemma_tally_concat(a: Seq<ActionView>, b: Seq<ActionView>, k: Kind)
    ensures
        tally(a + b, k) == tally(a, k) + tally(b, k),
    decreases b.len(),
{
    if b.len() == 0 {
        assert(a + b =~= a);
    } else {
        assert((a + b).drop_last() =~= a + b.drop_last());
        assert((a + b).last() == b.last());
        lemma_tally_concat(a, b.drop_last(), k);
    }
}

/// The tallies of a list of at most one action.
proof fn lemma_tally_short(a: Seq<ActionView>)
    requires
        a.len() <= 1,
    ensures
        forall|k: Kind|
            #[trigger] tally(a, k) == if a.len() == 1 && kind_of(a[0]) == k {
                1nat
            } else {
                0nat
            },
{
    reveal_with_fuel(tally, 2);
    assert forall|k: Kind|
        #[trigger] tally(a, k) == if a.len() == 1 && kind_of(a[0]) == k {
            1nat
        } else {
            0nat
        } by {
        if a.len() == 1 {
            assert(a.drop_last().len() == 0);
        }
    }
}

/// Two transitions in a row are sound if each is.
proof fn lemma_chain(
    p: Params,
    s: StateView,
    first: (StateView, Seq<ActionView>),
    second: (StateView, Seq<ActionView>),
)
    requires
        sound(p, s, first),
        sound(p, first.0, second),
    ensures
        sound(p, s, (second.0, first.1 + second.1)),
{
    lemma_tally_concat(first.1, second.1, Kind::Echo);
    lemma_tally_concat(first.1, second.1, Kind::Ready);
    lemma_tally_concat(first.1, second.1, Kind::Deliver);
}

/// The SENDs of a start hold no other kind of action.
proof fn lemma_sends_tally(
    p: Params,
    honest: bool,
    id: u64,
    all: Seq<Seq<u8>>,
    upto: int,
    k: Kind,
)
    requires
        k != Kind::Send,
    ensures
        tally(sends(p, honest, id, all, upto), k) == 0,
    decreases upto,
{
    if upto > 0 {
        lemma_sends_tally(p, honest, id, all, upto - 1, k);
        if upto - 1 != p.myid {
            assert(sends(p, honest, id, all, upto).drop_last() =~= sends(
                p,
                honest,
                id,
                all,
                upto - 1,
            ));
        }
    }
}

/// A READY is sound and leaves a state that ignores the same READY.
pub proof fn lemma_ready_step(p: Params, s: StateView, msg: ReadyView)
    requires
        p.wf(),
        inv(p, s),
    ensures
        sound(p, s, ready_step(p, s, msg)),
        ready_step(p, s, msg).0.fragments_data == s.fragments_data,
        ready_step(p, s, msg).0.hash_share == s.hash_share,
        ready_step(p, ready_step(p, s, msg).0, msg) == (
            ready_step(p, s, msg).0,
            Seq::<ActionView>::empty(),
        ),
{
    lemma_tally_short(ready_step(p, s, msg).1);
    if !(s.status == Status::TERMINATED || lookup(s.fragments_hashes, msg.c, msg.origin)
        is Some) {
        lemma_push_record(s.fragments_hashes, record(msg.c, msg.origin, msg.pi_i));
        let s1 = StateView {
            fragments_hashes: s.fragments_hashes.push(record(msg.c, msg.origin, msg.pi_i)),
            ..s
        };
        if crate::ccbrb::step::outcome(p, s1, msg.c) is Some {
            lemma_outcome_vouched(p, s1, msg.c);
        }
    }
}

/// Sending READY is sound.
pub proof fn lemma_start_ready_step(p: Params, s: StateView, c: Seq<u8>, pi_i: ShareView, id: u64)
    requires
        p.wf(),
        inv(p, s),
    ensures
        inv(p, start_ready_step(p, s, c, pi_i, id).0),
        start_ready_step(p, s, c, pi_i, id).0.status.rank() >= s.status.rank(),
        start_ready_step(p, s, c, pi_i, id).0.fragments_data == s.fragments_data,
        tally(start_ready_step(p, s, c, pi_i, id).1, Kind::Echo) == 0,
        tally(start_ready_step(p, s, c, pi_i, id).1, Kind::Ready) <= 1,
        tally(start_ready_step(p, s, c, pi_i, id).1, Kind::Deliver) + deliveries_left(
            start_ready_step(p, s, c, pi_i, id).0,
        ) <= deliveries_left(s),
{
    lemma_tally_short(Seq::<ActionView>::empty());
    if s.status == Status::READY {
        let own = ReadyView { id, c, pi_i, origin: p.myid };
        lemma_ready_step(p, s, own);
        lemma_tally_short(seq![ActionView::Ready(own)]);
        lemma_tally_concat(seq![ActionView::Ready(own)], ready_step(p, s, own).1, Kind::Echo);
        lemma_tally_concat(seq![ActionView::Ready(own)], ready_step(p, s, own).1, Kind::Ready);
        lemma_tally_concat(seq![ActionView::Ready(own)], ready_step(p, s, own).1, Kind::Deliver);
    }
}

/// An ECHO is sound and leaves a state that ignores the same ECHO.
pub proof fn lemma_echo_step(p: Params, s: StateView, msg: EchoView, id: u64)
    requires
        p.wf(),
        inv(p, s),
    ensures
        sound(p, s, echo_step(p, s, msg, id)),
        echo_step(p, echo_step(p, s, msg, id).0, msg, id) == (
            echo_step(p, s, msg, id).0,
            Seq::<ActionView>::empty(),
        ),
{
    lemma_tally_short(Seq::<ActionView>::empty());
    if !(s.status == Status::TERMINATED || lookup(s.fragments_data, msg.c, msg.origin) is Some) {
        lemma_push_record(s.fragments_data, record(msg.c, msg.origin, msg.d_i));
        let s1 = StateView {
            fragments_data: s.fragments_data.push(record(msg.c, msg.origin, msg.d_i)),
            ..s
        };
        if ready_due(p, s1) {
            lemma_start_ready_step(
                p,
                StateView { status: Status::READY, ..s1 },
                s1.hash_share.unwrap().0,
                s1.hash_share.unwrap().1,
                id,
            );
        }
    }
}

/// **Monotone status**: echoing a SEND is sound and ends in the ECHO phase
/// or beyond, whatever the phase before, and echoing again changes nothing.
pub proof fn lemma_start_echo_step(p: Params, s: StateView, msg: SendView, id: u64)
    requires
        p.wf(),
        inv(p, s),
    ensures
        sound(p, s, start_echo_step(p, s, msg, id)),
        start_echo_step(p, s, msg, id).0.status.rank() >= Status::ECHO.rank(),
        start_echo_step(p, start_echo_step(p, s, msg, id).0, msg, id) == (
            start_echo_step(p, s, msg, id).0,
            Seq::<ActionView>::empty(),
        ),
{
    lemma_tally_short(Seq::<ActionView>::empty());
    if s.status.rank() <= Status::INIT.rank() {
        let c = content_hash(msg.d_hashes);
        let pis = rs_encode(k_of(p) as nat, p.num_nodes as nat, concat(msg.d_hashes));
        let mine = ShareView { number: p.myid, data: pis[p.myid as int] };
        let s1 = StateView {
            fragment: msg.d_j,
            hash_share: Some((c, mine)),
            status: Status::ECHO,
            ..s
        };
        let own = EchoView { id, d_i: msg.d_j, pi_i: mine, c, origin: p.myid };
        lemma_echo_step(p, s1, own, id);
        lemma_tally_short(seq![ActionView::Echo(own)]);
        lemma_chain(p, s, (s1, seq![ActionView::Echo(own)]), echo_step(p, s1, own, id));
    }
}

/// A SEND is sound and leaves a state that ignores the same SEND.
pub proof fn lemma_init_step(p: Params, s: StateView, msg: SendView, id: u64)
    requires
        p.wf(),
        inv(p, s),
    ensures
        sound(p, s, init_step(p, s, msg, id)),
        init_step(p, init_step(p, s, msg, id).0, msg, id) == (
            init_step(p, s, msg, id).0,
            Seq::<ActionView>::empty(),
        ),
{
    lemma_tally_short(Seq::<ActionView>::empty());
    if init_ok(p, s, msg) {
        lemma_start_echo_step(p, s, msg, id);
    }
}

/// **Monotone status, unique senders, one-shot emissions**, for one input.
pub proof fn lemma_react_sound(p: Params, honest: bool, s: StateView, input: Input)
    requires
        p.wf(),
        inv(p, s),
    ensures
        sound(p, s, react(p, honest, s, input)),
{
    lemma_tally_short(Seq::<ActionView>::empty());
    match input {
        Input::Start(payload, id) => {
            if start_step(p, honest, s, payload, id) is Ok {
                let all = rs_encode(k_of(p) as nat, p.num_nodes as nat, payload);
                let mine = ShareView { number: p.myid, data: all[p.myid as int] };
                let s1 = StateView { status: Status::INIT, fragment: mine, ..s };
                let own = SendView { id, d_j: mine, d_hashes: leaf_hashes(all), origin: p.myid };
                lemma_init_step(p, s1, own, id);
                lemma_sends_tally(p, honest, id, all, p.num_nodes as int, Kind::Echo);
                lemma_sends_tally(p, honest, id, all, p.num_nodes as int, Kind::Ready);
                lemma_sends_tally(p, honest, id, all, p.num_nodes as int, Kind::Deliver);
                lemma_chain(p, s,
                    (s1, sends(p, honest, id, all, p.num_nodes as int)),
                    init_step(p, s1, own, id),
                );
            }
        },
        Input::Message(m) => {
            match m {
                ProtMsgView::Init(msg, i) => lemma_init_step(p, s, msg, i as u64),
                ProtMsgView::Echo(msg, i) => lemma_echo_step(p, s, msg, i as u64),
                ProtMsgView::Ready(msg, _) => lemma_ready_step(p, s, msg),
            }
        },
    }
}

/// **Idempotent absorption.** A message that was taken once changes
/// nothing and causes nothing when it arrives again.
pub proof fn lemma_replay_absorbed(p: Params, s: StateView, m: ProtMsgView)
    requires
        p.wf(),
        inv(p, s),
    ensures
        dispatch(p, dispatch(p, s, m).0, m) == (dispatch(p, s, m).0, Seq::<ActionView>::empty()),
{
    match m {
        ProtMsgView::Init(msg, i) => lemma_init_step(p, s, msg, i as u64),
        ProtMsgView::Echo(msg, i) => lemma_echo_step(p, s, msg, i as u64),
        ProtMsgView::Ready(msg, _) => lemma_ready_step(p, s, msg),
    }
}

/// **Frozen after delivery.** A party that has delivered ignores every
/// message.
pub proof fn lemma_terminated_frozen(p: Params, s: StateView, m: ProtMsgView)
    requires
        s.status == Status::TERMINATED,
    ensures
        dispatch(p, s, m) == (s, Seq::<ActionView>::empty()),
{
}

/// **Monotone status and one-shot emissions**, for a whole run.
pub proof fn lemma_run_sound(p: Params, honest: bool, s: StateView, inputs: Seq<Input>)
    requires
        p.wf(),
        inv(p, s),
    ensures
        sound(p, s, run(p, honest, s, inputs)),
    decreases inputs.len(),
{
    lemma_tally_short(Seq::<ActionView>::empty());
    if inputs.len() > 0 {
        lemma_run_sound(p, honest, s, inputs.drop_last());
        let before = run(p, honest, s, inputs.drop_last());
        lemma_react_sound(p, honest, before.0, inputs.last());
        lemma_chain(p, s, before, react(p, honest, before.0, inputs.last()));
    }
}

/// **One-shot emissions.** Over the whole life of an instance a party
/// sends at most one ECHO and at most one READY and delivers at most one
/// payload.
pub proof fn lemma_one_shot(p: Params, honest: bool, inputs: Seq<Input>)
    requires
        p.wf(),
    ensures
        tally(run(p, honest, initial_state(), inputs).1, Kind::Echo) <= 1,
        tally(run(p, honest, initial_state(), inputs).1, Kind::Ready) <= 1,
        tally(run(p, honest, initial_state(), inputs).1, Kind::Deliver) <= 1,
{
    lemma_run_sound(p, honest, initial_state(), inputs);
}

/// Whether the payload `m` is delivered among `acts`.
pub open spec fn delivers(acts: Seq<ActionView>, m: Seq<u8>) -> bool {
    exists|j: int| 0 <= j < acts.len() && #[trigger] acts[j] == ActionView::Deliver(m)
}

/// What is delivered in a concatenation is delivered in one of the parts.
proof fn lemma_delivers_concat(a: Seq<ActionView>, b: Seq<ActionView>, m: Seq<u8>)
    ensures
        delivers(a + b, m) == (delivers(a, m) || delivers(b, m)),
{
    if delivers(a + b, m) {
        let j = choose|j: int|
            0 <= j < (a + b).len() && #[trigger] (a + b)[j] == ActionView::Deliver(m);
        if j < a.len() {
            assert(a[j] == ActionView::Deliver(m));
        } else {
            assert(b[j - a.len()] == ActionView::Deliver(m));
        }
    }
    if delivers(a, m) {
        let j = choose|j: int| 0 <= j < a.len() && #[trigger] a[j] == ActionView::Deliver(m);
        assert((a + b)[j] == ActionView::Deliver(m));
    }
    if delivers(b, m) {
        let j = choose|j: int| 0 <= j < b.len() && #[trigger] b[j] == ActionView::Deliver(m);
        assert((a + b)[a.len() + j] == ActionView::Deliver(m));
    }
}

/// Whether what the transition delivers is what the state after it holds
/// as its payload, having terminated.
pub open spec fn keeps(next: (StateView, Seq<ActionView>)) -> bool {
    forall|m: Seq<u8>| #[trigger]
        delivers(next.1, m) ==> next.0.status == Status::TERMINATED && next.0.output_message
            == m
}

/// An action of a kind counts in the tally of that kind.
proof fn lemma_tally_positive(acts: Seq<ActionView>, j: int)
    requires
        0 <= j < acts.len(),
    ensures
        tally(acts, kind_of(acts[j])) >= 1,
    decreases acts.len(),
{
    if j < acts.len() - 1 {
        lemma_tally_positive(acts.drop_last(), j);
    }
}

/// A READY keeps what it delivers.
proof fn lemma_ready_step_keeps(p: Params, s: StateView, msg: ReadyView)
    ensures
        keeps(ready_step(p, s, msg)),
{
    let next = ready_step(p, s, msg);
    assert forall|m: Seq<u8>| #[trigger]
        delivers(next.1, m) implies next.0.status == Status::TERMINATED
        && next.0.output_message == m by {
        let j = choose|j: int|
            0 <= j < next.1.len() && #[trigger] next.1[j] == ActionView::Deliver(m);
    }
}

/// An ECHO keeps what it delivers.
proof fn lemma_echo_step_keeps(p: Params, s: StateView, msg: EchoView, id: u64)
    ensures
        keeps(echo_step(p, s, msg, id)),
{
    let next = echo_step(p, s, msg, id);
    assert forall|m: Seq<u8>| #[trigger]
        delivers(next.1, m) implies next.0.status == Status::TERMINATED
        && next.0.output_message == m by {
        let j = choose|j: int|
            0 <= j < next.1.len() && #[trigger] next.1[j] == ActionView::Deliver(m);
        let s1 = StateView {
            fragments_data: s.fragments_data.push(record(msg.c, msg.origin, msg.d_i)),
            ..s
        };
        let s2 = StateView { status: Status::READY, ..s1 };
        let own = ReadyView {
            id,
            c: s1.hash_share.unwrap().0,
            pi_i: s1.hash_share.unwrap().1,
            origin: p.myid,
        };
        lemma_ready_step_keeps(p, s2, own);
        lemma_delivers_concat(seq![ActionView::Ready(own)], ready_step(p, s2, own).1, m);
        if delivers(seq![ActionView::Ready(own)], m) {
            let t = choose|t: int|
                0 <= t < 1 && #[trigger] seq![ActionView::Ready(own)][t] == ActionView::Deliver(
                    m,
                );
        }
    }
}

/// A message from the originator keeps what it delivers.
proof fn lemma_init_step_keeps(p: Params, s: StateView, msg: SendView, id: u64)
    ensures
        keeps(init_step(p, s, msg, id)),
{
    let next = init_step(p, s, msg, id);
    assert forall|m: Seq<u8>| #[trigger]
        delivers(next.1, m) implies next.0.status == Status::TERMINATED
        && next.0.output_message == m by {
        let j = choose|j: int|
            0 <= j < next.1.len() && #[trigger] next.1[j] == ActionView::Deliver(m);
        let c = content_hash(msg.d_hashes);
        let pis = rs_encode(k_of(p) as nat, p.num_nodes as nat, concat(msg.d_hashes));
        let mine = ShareView { number: p.myid, data: pis[p.myid as int] };
        let s1 = StateView {
            fragment: msg.d_j,
            hash_share: Some((c, mine)),
            status: Status::ECHO,
            ..s
        };
        let own = EchoView { id, d_i: msg.d_j, pi_i: mine, c, origin: p.myid };
        lemma_echo_step_keeps(p, s1, own, id);
        lemma_delivers_concat(seq![ActionView::Echo(own)], echo_step(p, s1, own, id).1, m);
        if delivers(seq![ActionView::Echo(own)], m) {
            let t = choose|t: int|
                0 <= t < 1 && #[trigger] seq![ActionView::Echo(own)][t] == ActionView::Deliver(m);
        }
    }
}

/// **What is delivered is kept.** Whatever happens, a payload that the
/// party delivers is the payload that its state holds from then on, and
/// the party has terminated.
pub proof fn lemma_react_keeps(p: Params, honest: bool, s: StateView, input: Input)
    ensures
        keeps(react(p, honest, s, input)),
{
    let next = react(p, honest, s, input);
    match input {
        Input::Start(payload, id) => {
            assert forall|m: Seq<u8>| #[trigger]
                delivers(next.1, m) implies next.0.status == Status::TERMINATED
                && next.0.output_message == m by {
                let j = choose|j: int|
                    0 <= j < next.1.len() && #[trigger] next.1[j] == ActionView::Deliver(m);
                let all = rs_encode(k_of(p) as nat, p.num_nodes as nat, payload);
                let mine = ShareView { number: p.myid, data: all[p.myid as int] };
                let s1 = StateView { status: Status::INIT, fragment: mine, ..s };
                let own = SendView { id, d_j: mine, d_hashes: leaf_hashes(all), origin: p.myid };
                let first = sends(p, honest, id, all, p.num_nodes as int);
                lemma_init_step_keeps(p, s1, own, id);
                lemma_delivers_concat(first, init_step(p, s1, own, id).1, m);
                if delivers(first, m) {
                    let t = choose|t: int|
                        0 <= t < first.len() && #[trigger] first[t] == ActionView::Deliver(m);
                    lemma_sends_tally(p, honest, id, all, p.num_nodes as int, Kind::Deliver);
                    lemma_tally_positive(first, t);
                }
            }
        },
        Input::Message(m) => {
            match m {
                ProtMsgView::Init(msg, i) => lemma_init_step_keeps(p, s, msg, i as u64),
                ProtMsgView::Echo(msg, i) => lemma_echo_step_keeps(p, s, msg, i as u64),
                ProtMsgView::Ready(msg, _) => lemma_ready_step_keeps(p, s, msg),
            }
        },
    }
}

} // verus!
