//! The transitions of one instance, as functions from the state before and
//! the message received to the state after and the actions to take.

use crate::ccbrb::msg::{ActionView, EchoView, ReadyView, SendView};
use crate::share::{ShareView};
use crate::ccbrb::rbc_state::StateView;
use crate::codec::{concat, corrected, present_numbers, reconstructed, rs_encode, CodecError};
use crate::hash::digest;
use crate::merkle::leaf_hashes;
use crate::params::{quorum, Params};
use crate::status::{StartError, Status};
use crate::store::{count, lookup, mode, RecordView};
use vstd::prelude::*;

verus! {

/// Number of data shards, `f + 1`.
pub open spec fn k_of(p: Params) -> int {
    p.num_faults + 1
}

/// The hash that stands for the vector `hashes`.
pub open spec fn content_hash(hashes: Seq<Seq<u8>>) -> Seq<u8> {
    digest(concat(hashes))
}

/// The shards received under `c`, each at the position that its sender
/// named for it; a later one replaces an earlier one. Where `hashes` is
/// given, only shards are placed whose hash is the one that `hashes` has at
/// their position.
pub open spec fn placed(
    recs: Seq<RecordView>,
    c: Seq<u8>,
    n: nat,
    hashes: Option<Seq<Seq<u8>>>,
) -> Seq<Option<Seq<u8>>>
    decreases recs.len(),
{
    if recs.len() == 0 {
        Seq::new(n, |i: int| None)
    } else {
        let prev = placed(recs.drop_last(), c, n, hashes);
        let r = recs.last();
        if r.root == c && r.number < n && fits(r, hashes) {
            prev.update(r.number as int, Some(r.shard))
        } else {
            prev
        }
    }
}

/// Whether the shard of `r` has the hash that `hashes` has at its position.
pub open spec fn fits(r: RecordView, hashes: Option<Seq<Seq<u8>>>) -> bool {
    match hashes {
        Some(hs) => r.number < hs.len() && digest(r.shard) == hs[r.number as int],
        None => true,
    }
}

/// The string `bytes` cut into pieces of 32 bytes.
pub open spec fn chunks(bytes: Seq<u8>, n: nat) -> Seq<Seq<u8>> {
    Seq::new(n, |j: int| bytes.subrange(32 * j, 32 * j + 32))
}

/// The vector of shard hashes behind `c`, as far as the vector shards
/// received under `c` determine it: what the decoder makes of them, wrong
/// shards corrected as far as their number allows, is taken where its first
/// `32 n` bytes have the hash `c`.
pub open spec fn vector_behind(p: Params, s: StateView, c: Seq<u8>) -> Option<Seq<Seq<u8>>> {
    let n = p.num_nodes as nat;
    match corrected(placed(s.fragments_hashes, c, n, None), k_of(p), n as int) {
        Err(_) => None,
        Ok(bytes) => {
            if bytes.len() >= 32 * n && digest(bytes.take(32 * n as int)) == c {
                Some(chunks(bytes.take(32 * n as int), n))
            } else {
                None
            }
        },
    }
}

/// What a party delivers once `n - f` vector shards under `c` are in:
/// nothing where the vector or the payload cannot be rebuilt yet; the
/// payload where the shards that fit the vector are shards of one payload
/// all of whose shards fit the vector; the empty string where they are not.
pub open spec fn outcome(p: Params, s: StateView, c: Seq<u8>) -> Option<Seq<u8>> {
    let n = p.num_nodes as nat;
    match vector_behind(p, s, c) {
        None => None,
        Some(hashes) => {
            let slots = placed(s.fragments_data, c, n, Some(hashes));
            if present_numbers(slots, n as int).len() < k_of(p) {
                None
            } else {
                match reconstructed(slots, k_of(p), n as int) {
                    Err(CodecError::Inconsistent) => Some(Seq::empty()),
                    Err(_) => None,
                    Ok(all) => if all.len() == n && leaf_hashes(all) == hashes {
                        Some(concat(all.take(k_of(p))))
                    } else {
                        Some(Seq::empty())
                    },
                }
            }
        },
    }
}

/// The record of a shard received under `c` from `origin`.
pub open spec fn record(c: Seq<u8>, origin: usize, share: ShareView) -> RecordView {
    RecordView { root: c, origin, number: share.number, shard: share.data }
}

/// The transition on a READY.
pub open spec fn ready_step(p: Params, s: StateView, msg: ReadyView) -> (
    StateView,
    Seq<ActionView>,
) {
    if s.status == Status::TERMINATED || lookup(s.fragments_hashes, msg.c, msg.origin) is Some {
        (s, Seq::empty())
    } else {
        let s1 = StateView {
            fragments_hashes: s.fragments_hashes.push(record(msg.c, msg.origin, msg.pi_i)),
            ..s
        };
        if count(s1.fragments_hashes, msg.c) >= quorum(p.num_nodes as int, p.num_faults as int) {
            match outcome(p, s1, msg.c) {
                Some(m) => (
                    StateView {
                        status: Status::TERMINATED,
                        output_message: m,
                        echo_root: Some(msg.c),
                        ..s1
                    },
                    seq![ActionView::Deliver(m)],
                ),
                None => (s1, Seq::empty()),
            }
        } else {
            (s1, Seq::empty())
        }
    }
}

/// Whether the party may send READY under the vector hash that most ECHOs
/// name: `n - f` ECHOs name it, the party has echoed and not yet sent
/// READY, and it is the hash that the party itself echoed.
pub open spec fn ready_due(p: Params, s: StateView) -> bool {
    &&& mode(s.fragments_data).0 >= quorum(p.num_nodes as int, p.num_faults as int)
    &&& s.status == Status::ECHO
    &&& s.hash_share is Some
    &&& mode(s.fragments_data).1 == Some(s.hash_share.unwrap().0)
}

/// The transition when the party sends READY with the vector shard `pi_i`
/// under `c`: it sends the READY and takes it itself. Nothing happens
/// unless the party is in the READY phase.
pub open spec fn start_ready_step(p: Params, s: StateView, c: Seq<u8>, pi_i: ShareView, id: u64) -> (
    StateView,
    Seq<ActionView>,
) {
    if s.status != Status::READY {
        (s, Seq::empty())
    } else {
        let own = ReadyView { id, c, pi_i, origin: p.myid };
        let next = ready_step(p, s, own);
        (next.0, seq![ActionView::Ready(own)] + next.1)
    }
}

/// The transition on an ECHO for the instance with id `id`.
pub open spec fn echo_step(p: Params, s: StateView, msg: EchoView, id: u64) -> (
    StateView,
    Seq<ActionView>,
) {
    if s.status == Status::TERMINATED || lookup(s.fragments_data, msg.c, msg.origin) is Some {
        (s, Seq::empty())
    } else {
        let s1 = StateView {
            fragments_data: s.fragments_data.push(record(msg.c, msg.origin, msg.d_i)),
            ..s
        };
        if ready_due(p, s1) {
            start_ready_step(
                p,
                StateView { status: Status::READY, ..s1 },
                s1.hash_share.unwrap().0,
                s1.hash_share.unwrap().1,
                id,
            )
        } else {
            (s1, Seq::empty())
        }
    }
}

/// Whether a SEND is taken: the instance has not begun to echo, the vector
/// has `n` hashes, and the shard has the hash that the vector has at this
/// party's position.
pub open spec fn init_ok(p: Params, s: StateView, msg: SendView) -> bool {
    &&& s.status.rank() <= Status::INIT.rank()
    &&& msg.d_hashes.len() == p.num_nodes
    &&& digest(msg.d_j.data) == msg.d_hashes[p.myid as int]
}

/// The transition when the party echoes a SEND for the instance with id
/// `id`: it keeps the shard, encodes the vector, sends its ECHO under `id`
/// and takes that ECHO itself. A party that has echoed before does nothing.
pub open spec fn start_echo_step(p: Params, s: StateView, msg: SendView, id: u64) -> (
    StateView,
    Seq<ActionView>,
) {
    if s.status.rank() > Status::INIT.rank() {
        (s, Seq::empty())
    } else {
        let c = content_hash(msg.d_hashes);
        let pis = rs_encode(k_of(p) as nat, p.num_nodes as nat, concat(msg.d_hashes));
        let mine = ShareView { number: p.myid, data: pis[p.myid as int] };
        let s1 = StateView {
            fragment: msg.d_j,
            hash_share: Some((c, mine)),
            status: Status::ECHO,
            ..s
        };
        let own = EchoView { id, d_i: msg.d_j, pi_i: mine, c, origin: p.myid };
        let next = echo_step(p, s1, own, id);
        (next.0, seq![ActionView::Echo(own)] + next.1)
    }
}

/// The transition on a SEND for the instance with id `id`.
pub open spec fn init_step(p: Params, s: StateView, msg: SendView, id: u64) -> (
    StateView,
    Seq<ActionView>,
) {
    if init_ok(p, s, msg) {
        start_echo_step(p, s, msg, id)
    } else {
        (s, Seq::empty())
    }
}

/// The SENDs for the replicas below `upto` other than this party: each
/// carries the replica's shard, or an empty shard where this party is set
/// to misbehave.
pub open spec fn sends(
    p: Params,
    honest: bool,
    id: u64,
    all: Seq<Seq<u8>>,
    upto: int,
) -> Seq<ActionView>
    decreases upto,
{
    if upto <= 0 {
        Seq::empty()
    } else if upto - 1 == p.myid {
        sends(p, honest, id, all, upto - 1)
    } else {
        sends(p, honest, id, all, upto - 1).push(
            ActionView::Send(
                (upto - 1) as usize,
                SendView {
                    id,
                    d_j: ShareView {
                        number: (upto - 1) as usize,
                        data: if honest {
                            all[upto - 1]
                        } else {
                            Seq::empty()
                        },
                    },
                    d_hashes: leaf_hashes(all),
                    origin: p.myid,
                },
            ),
        )
    }
}

/// The transition when this party starts a broadcast of `payload`.
pub open spec fn start_step(p: Params, honest: bool, s: StateView, payload: Seq<u8>, id: u64) -> Result<
    (StateView, Seq<ActionView>),
    StartError,
> {
    if payload.len() == 0 {
        Err(StartError::EmptyPayload)
    } else if s.status.rank() > Status::INIT.rank() {
        Err(StartError::NotWaiting)
    } else {
        let all = rs_encode(k_of(p) as nat, p.num_nodes as nat, payload);
        let mine = ShareView { number: p.myid, data: all[p.myid as int] };
        let s1 = StateView { status: Status::INIT, fragment: mine, ..s };
        let own = SendView { id, d_j: mine, d_hashes: leaf_hashes(all), origin: p.myid };
        let next = init_step(p, s1, own, id);
        Ok((next.0, sends(p, honest, id, all, p.num_nodes as int) + next.1))
    }
}

} // verus!
