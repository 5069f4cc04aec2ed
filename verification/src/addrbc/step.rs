//! The transitions of one instance, as functions from the state before and
//! the message received to the state after and the actions to take.

use crate::addrbc::msg::{ActionView, MsgView, ShareMsgView};
use crate::addrbc::rbc_state::StateView;
use crate::codec::rs_encode;
use crate::hash::digest;
use crate::params::{quorum, Params};
use crate::share::ShareView;
use crate::status::{StartError, Status};
use crate::store::{lookup, mode, RecordView};
use vstd::prelude::*;

verus! {

/// Whether READY is due: the party has echoed and not gone further, and
/// `n - f` parties have echoed one hash.
pub open spec fn ready_due(p: Params, s: StateView) -> bool {
    &&& mode(s.received_echos).0 >= quorum(p.num_nodes as int, p.num_faults as int)
    &&& s.status == Status::ECHO
    &&& mode(s.received_echos).1 is Some
}

/// Where READY is due, the party moves to the READY phase and sends READY
/// with its own fragment under the hash that most parties echoed.
pub open spec fn promoted(p: Params, s: StateView) -> (StateView, Seq<ActionView>) {
    if ready_due(p, s) {
        (
            StateView { status: Status::READY, sent_ready: true, ..s },
            seq![
                ActionView::Ready(
                    ShareMsgView {
                        share: s.fragment,
                        hash: mode(s.received_echos).1.unwrap(),
                        origin: p.myid,
                    },
                ),
            ],
        )
    } else {
        (s, Seq::empty())
    }
}

/// The state after the ECHO was counted; an ECHO of a sender that has
/// echoed the same hash before is not counted.
pub open spec fn counted(s: StateView, msg: ShareMsgView) -> StateView {
    if lookup(s.received_echos, msg.hash, msg.origin) is Some {
        s
    } else {
        StateView {
            received_echos: s.received_echos.push(
                RecordView {
                    root: msg.hash,
                    origin: msg.origin,
                    number: msg.share.number,
                    shard: msg.share.data,
                },
            ),
            ..s
        }
    }
}

/// The transition on an ECHO: it is dropped once the instance has
/// terminated, and where its sender has echoed the same hash before.
pub open spec fn echo_step(p: Params, s: StateView, msg: ShareMsgView) -> (
    StateView,
    Seq<ActionView>,
) {
    if s.status == Status::TERMINATED || lookup(s.received_echos, msg.hash, msg.origin) is Some {
        (s, Seq::empty())
    } else {
        promoted(p, counted(s, msg))
    }
}

/// The ECHOs for the replicas below `upto` other than this party: each
/// carries the replica's fragment, or an empty one where this party is set
/// to misbehave.
pub open spec fn echoes(
    p: Params,
    honest: bool,
    hash: Seq<u8>,
    all: Seq<Seq<u8>>,
    upto: int,
) -> Seq<ActionView>
    decreases upto,
{
    if upto <= 0 {
        Seq::empty()
    } else if upto - 1 == p.myid {
        echoes(p, honest, hash, all, upto - 1)
    } else {
        echoes(p, honest, hash, all, upto - 1).push(
            ActionView::Echo(
                (upto - 1) as usize,
                ShareMsgView {
                    share: ShareView {
                        number: (upto - 1) as usize,
                        data: if honest {
                            all[upto - 1]
                        } else {
                            Seq::empty()
                        },
                    },
                    hash,
                    origin: p.myid,
                },
            ),
        )
    }
}

/// Why the party cannot echo `content`, if it cannot: the payload is empty,
/// or the party has echoed before.
pub open spec fn echo_refusal(s: StateView, content: Seq<u8>) -> Option<StartError> {
    if content.len() == 0 {
        Some(StartError::EmptyPayload)
    } else if s.status.rank() > Status::INIT.rank() {
        Some(StartError::NotWaiting)
    } else {
        None
    }
}

/// The state after the party has echoed `content`: it holds its own
/// fragment, has counted its own ECHO unless it is set to play dead, and is
/// in the ECHO phase.
pub open spec fn echoed(p: Params, alive: bool, s: StateView, content: Seq<u8>) -> StateView {
    let all = rs_encode((p.num_faults + 1) as nat, p.num_nodes as nat, content);
    let mine = ShareView { number: p.myid, data: all[p.myid as int] };
    let own = ShareMsgView { share: mine, hash: digest(content), origin: p.myid };
    let s1 = StateView { fragment: mine, ..s };
    let s2 = if alive {
        counted(s1, own)
    } else {
        s1
    };
    StateView { status: Status::ECHO, ..s2 }
}

/// The transition when the party echoes `content`: it encodes the payload,
/// keeps its own fragment, counts its own ECHO unless it is set to play
/// dead, hands every other replica that replica's fragment, and sends READY
/// if that is due already. An empty payload and a second echo are refused
/// and change nothing.
pub open spec fn start_echo_step(
    p: Params,
    honest: bool,
    alive: bool,
    s: StateView,
    content: Seq<u8>,
) -> Result<(StateView, Seq<ActionView>), StartError> {
    match echo_refusal(s, content) {
        Some(e) => Err(e),
        None => {
            let all = rs_encode((p.num_faults + 1) as nat, p.num_nodes as nat, content);
            let next = promoted(p, echoed(p, alive, s, content));
            Ok((next.0, echoes(p, honest, digest(content), all, p.num_nodes as int) + next.1))
        },
    }
}

/// The transition on a payload received from its originator: the party
/// echoes it; a payload that it cannot echo is dropped.
pub open spec fn init_step(p: Params, honest: bool, alive: bool, s: StateView, msg: MsgView) -> (
    StateView,
    Seq<ActionView>,
) {
    match start_echo_step(p, honest, alive, s, msg.content) {
        Ok(next) => next,
        Err(_) => (s, Seq::empty()),
    }
}

/// The transition when this party starts a broadcast of `payload`: it
/// takes the payload itself and sends it to everyone.
pub open spec fn start_step(
    p: Params,
    honest: bool,
    alive: bool,
    s: StateView,
    payload: Seq<u8>,
) -> Result<(StateView, Seq<ActionView>), StartError> {
    match start_echo_step(p, honest, alive, s, payload) {
        Ok(next) => Ok(
            (next.0, next.1.push(ActionView::Sendall(MsgView { content: payload, origin: p.myid }))),
        ),
        Err(e) => Err(e),
    }
}

} // verus!
