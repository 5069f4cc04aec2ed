//! What holds of every state that the transitions reach.

use crate::addrbc::msg::{ActionView, MsgView, ShareMsgView};
use crate::addrbc::rbc_state::StateView;
use crate::addrbc::step::{
    counted, echo_step, echoed, init_step, promoted, start_echo_step, start_step,
};
use crate::params::Params;
use crate::status::{StartError, Status};
use crate::store::{lemma_push_record, lookup, unique, RecordView};
use vstd::prelude::*;

verus! {

/// What holds of every state of an instance: no sender occurs twice under
/// one hash among the ECHOs, and a party that has sent READY has reached
/// the READY phase.
pub open spec fn inv(s: StateView) -> bool {
    &&& unique(s.received_echos)
    &&& s.sent_ready ==> s.status.rank() >= Status::READY.rank()
}

/// Whether a transition from `s` keeps the invariant, does not go back in
/// phase, and sends READY only as it moves from the ECHO phase into the
/// READY phase.
pub open spec fn sound(s: StateView, next: (StateView, Seq<ActionView>)) -> bool {
    &&& inv(next.0)
    &&& next.0.status.rank() >= s.status.rank()
    &&& s.sent_ready ==> next.0.sent_ready
    &&& forall|i: int|
        0 <= i < next.1.len() && (#[trigger] next.1[i]) is Ready ==> s.status.rank()
            <= Status::ECHO.rank() && next.0.status == Status::READY && next.0.sent_ready
}

/// Counting an ECHO keeps the invariant and makes the ECHO found.
proof fn lemma_counted(s: StateView, msg: ShareMsgView)
    requires
        inv(s),
    ensures
        inv(counted(s, msg)),
        counted(s, msg).status == s.status,
        counted(s, msg).sent_ready == s.sent_ready,
        lookup(counted(s, msg).received_echos, msg.hash, msg.origin) is Some,
{
    if lookup(s.received_echos, msg.hash, msg.origin) is None {
        lemma_push_record(
            s.received_echos,
            RecordView {
                root: msg.hash,
                origin: msg.origin,
                number: msg.share.number,
                shard: msg.share.data,
            },
        );
    }
}

/// **Monotone status, idempotent absorption**: an ECHO is sound and leaves
/// a state that ignores the same ECHO.
pub proof fn lemma_echo_step(p: Params, s: StateView, msg: ShareMsgView)
    requires
        inv(s),
    ensures
        sound(s, echo_step(p, s, msg)),
        echo_step(p, echo_step(p, s, msg).0, msg) == (
            echo_step(p, s, msg).0,
            Seq::<ActionView>::empty(),
        ),
{
    lemma_counted(s, msg);
}

/// **Monotone status**: echoing a payload is sound and ends in the ECHO
/// phase or beyond; a party that has echoed refuses to echo again.
pub proof fn lemma_start_echo_step(
    p: Params,
    honest: bool,
    alive: bool,
    s: StateView,
    content: Seq<u8>,
)
    requires
        inv(s),
        start_echo_step(p, honest, alive, s, content) is Ok,
    ensures
        sound(s, start_echo_step(p, honest, alive, s, content).unwrap()),
        start_echo_step(p, honest, alive, s, content).unwrap().0.status.rank()
            >= Status::ECHO.rank(),
        start_echo_step(
            p,
            honest,
            alive,
            start_echo_step(p, honest, alive, s, content).unwrap().0,
            content,
        ) == Err::<(StateView, Seq<ActionView>), _>(StartError::NotWaiting),
{
    let hash = crate::hash::digest(content);
    let all = crate::codec::rs_encode((p.num_faults + 1) as nat, p.num_nodes as nat, content);
    let mine = crate::share::ShareView { number: p.myid, data: all[p.myid as int] };
    let own = ShareMsgView { share: mine, hash, origin: p.myid };
    lemma_counted(StateView { fragment: mine, ..s }, own);
    let next = promoted(p, echoed(p, alive, s, content));
    lemma_echoes_only(p, honest, hash, all, p.num_nodes as int);
    let sent = crate::addrbc::step::echoes(p, honest, hash, all, p.num_nodes as int);
    assert forall|i: int| 0 <= i < (sent + next.1).len() && (#[trigger] (sent + next.1)[i])
        is Ready implies s.status.rank() <= Status::ECHO.rank() && next.0.status == Status::READY
        && next.0.sent_ready by {
        if i < sent.len() {
            assert((sent + next.1)[i] == sent[i]);
        } else {
            assert((sent + next.1)[i] == next.1[i - sent.len()]);
        }
    }
}

/// **Monotone status, idempotent absorption**: a payload from the
/// originator is sound and leaves a state that ignores the same payload.
pub proof fn lemma_init_step(p: Params, honest: bool, alive: bool, s: StateView, msg: MsgView)
    requires
        inv(s),
    ensures
        sound(s, init_step(p, honest, alive, s, msg)),
        init_step(p, honest, alive, init_step(p, honest, alive, s, msg).0, msg) == (
            init_step(p, honest, alive, s, msg).0,
            Seq::<ActionView>::empty(),
        ),
{
    if start_echo_step(p, honest, alive, s, msg.content) is Ok {
        lemma_start_echo_step(p, honest, alive, s, msg.content);
    }
}

/// **Monotone status**: starting a broadcast keeps the invariant and does
/// not go back in phase, and a second start is refused.
pub proof fn lemma_start_step(p: Params, honest: bool, alive: bool, s: StateView, payload: Seq<u8>)
    requires
        inv(s),
        start_step(p, honest, alive, s, payload) is Ok,
    ensures
        inv(start_step(p, honest, alive, s, payload).unwrap().0),
        start_step(p, honest, alive, s, payload).unwrap().0.status.rank() >= s.status.rank(),
        start_step(p, honest, alive, start_step(p, honest, alive, s, payload).unwrap().0, payload)
            == Err::<(StateView, Seq<ActionView>), _>(StartError::NotWaiting),
{
    lemma_start_echo_step(p, honest, alive, s, payload);
}

/// The ECHOs that a party hands out hold no other kind of action.
proof fn lemma_echoes_only(p: Params, honest: bool, hash: Seq<u8>, all: Seq<Seq<u8>>, upto: int)
    ensures
        forall|i: int|
            0 <= i < crate::addrbc::step::echoes(p, honest, hash, all, upto).len()
                ==> (#[trigger] crate::addrbc::step::echoes(p, honest, hash, all, upto)[i])
                is Echo,
    decreases upto,
{
    if upto > 0 {
        lemma_echoes_only(p, honest, hash, all, upto - 1);
    }
}

} // verus!
