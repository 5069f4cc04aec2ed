//! Rebuilding the vector of shard hashes, and with it the payload.

use crate::ccbrb::rbc_state::RBCState;
use crate::ccbrb::step::{chunks, fits, outcome, placed, vector_behind};
use crate::codec::{
    clone_bytes, concat_shards, decode_data, present_numbers, reconstruct_data, shards_view,
    slots_view, CodecError,
};
use crate::hash;
use crate::hash::{do_hash, hash_eq, digest};
use crate::merkle::{hashes_view, leaf_hashes};
use crate::params::Params;
use crate::store::ShardStore;
use vstd::prelude::*;

verus! {

/// The hashes that an optional vector of hashes stands for.
pub open spec fn optional_hashes(hashes: Option<&Vec<hash::Hash>>) -> Option<Seq<Seq<u8>>> {
    match hashes {
        Some(hs) => Some(hashes_view(hs@)),
        None => None,
    }
}

/// Puts the shards received under `c` at the positions that their senders
/// named: see [`placed`].
pub fn place(store: &ShardStore, c: &hash::Hash, n: usize, hashes: Option<&Vec<hash::Hash>>) -> (r:
    Vec<Option<Vec<u8>>>)
    ensures
        slots_view(r@) == placed(store@, c@, n as nat, optional_hashes(hashes)),
        r.len() == n,
{
    let ghost hv = optional_hashes(hashes);
    let mut r: Vec<Option<Vec<u8>>> = Vec::new();
    let mut j: usize = 0;
    while j < n
        invariant
            j <= n,
            r.len() == j,
            forall|t: int| 0 <= t < j ==> (#[trigger] r@[t]) is None,
        decreases n - j,
    {
        r.push(None);
        j += 1;
    }
    assert(slots_view(r@) =~= placed(store@.take(0), c@, n as nat, hv));
    let mut i: usize = 0;
    while i < store.records.len()
        invariant
            i <= store.records.len(),
            r.len() == n,
            hv == optional_hashes(hashes),
            slots_view(r@) == placed(store@.take(i as int), c@, n as nat, hv),
        decreases store.records.len() - i,
    {
        let rec = &store.records[i];
        assert(store@.take(i + 1).last() == rec@);
        assert(store@.take(i + 1).drop_last() =~= store@.take(i as int));
        if hash_eq(&rec.root, c) && rec.number < n {
            let ok = match hashes {
                Some(hs) => rec.number < hs.len() && hash_eq(
                    &do_hash(rec.shard.as_slice()),
                    &hs[rec.number],
                ),
                None => true,
            };
            assert(ok == fits(rec@, hv));
            if ok {
                let ghost before = slots_view(r@);
                r[rec.number] = Some(clone_bytes(&rec.shard));
                assert(slots_view(r@) =~= before.update(rec.number as int, Some(rec.shard@)));
            }
        }
        i += 1;
    }
    assert(store@.take(store.records.len() as int) =~= store@);
    r
}

/// Cuts the first `32 n` bytes into `n` hashes.
pub fn cut_hashes(bytes: &Vec<u8>, n: usize) -> (r: Vec<hash::Hash>)
    requires
        bytes.len() >= 32 * n,
    ensures
        hashes_view(r@) == chunks(bytes@.take(32 * n as int), n as nat),
        r.len() == n,
{
    let mut r: Vec<hash::Hash> = Vec::new();
    let mut j: usize = 0;
    while j < n
        invariant
            j <= n,
            bytes.len() >= 32 * n,
            r.len() == j,
            forall|t: int|
                0 <= t < j ==> (#[trigger] r@[t])@ == bytes@.take(32 * n as int).subrange(
                    32 * t,
                    32 * t + 32,
                ),
        decreases n - j,
    {
        let mut h: hash::Hash = [0u8;32];
        let mut t: usize = 0;
        while t < 32
            invariant
                t <= 32,
                j < n,
                bytes.len() >= 32 * n,
                forall|u: int| 0 <= u < t ==> h@[u] == bytes@[32 * j + u],
            decreases 32 - t,
        {
            h[t] = bytes[32 * j + t];
            t += 1;
        }
        assert(h@ =~= bytes@.take(32 * n as int).subrange(32 * j, 32 * j + 32));
        r.push(h);
        j += 1;
    }
    assert(hashes_view(r@) =~= chunks(bytes@.take(32 * n as int), n as nat));
    r
}

/// Number of shards present.
pub fn count_present(slots: &Vec<Option<Vec<u8>>>) -> (c: usize)
    ensures
        c == present_numbers(slots_view(slots@), slots.len() as int).len(),
{
    let ghost sv = slots_view(slots@);
    let mut c: usize = 0;
    let mut i: usize = 0;
    while i < slots.len()
        invariant
            i <= slots.len(),
            c <= i,
            sv == slots_view(slots@),
            c == present_numbers(sv, i as int).len(),
        decreases slots.len() - i,
    {
        if slots[i].is_some() {
            c += 1;
        }
        i += 1;
    }
    c
}

/// Whether the hashes of `all` are `hashes`.
pub fn hashes_match(all: &Vec<Vec<u8>>, hashes: &Vec<hash::Hash>) -> (r: bool)
    ensures
        r == (leaf_hashes(shards_view(all@)) == hashes_view(hashes@)),
{
    let ghost av = shards_view(all@);
    let ghost hv = hashes_view(hashes@);
    if all.len() != hashes.len() {
        assert(leaf_hashes(av).len() != hv.len());
        return false;
    }
    let mut i: usize = 0;
    while i < all.len()
        invariant
            i <= all.len(),
            all.len() == hashes.len(),
            av == shards_view(all@),
            hv == hashes_view(hashes@),
            forall|j: int| 0 <= j < i ==> digest(#[trigger] av[j]) == hv[j],
        decreases all.len() - i,
    {
        if !hash_eq(&do_hash(all[i].as_slice()), &hashes[i]) {
            assert(leaf_hashes(av)[i as int] != hv[i as int]);
            return false;
        }
        i += 1;
    }
    assert(leaf_hashes(av) =~= hv);
    true
}

impl RBCState {
    /// Rebuilds the vector of shard hashes behind `c`: see
    /// [`vector_behind`].
    pub fn vector_behind(&self, p: &Params, c: &hash::Hash) -> (r: Option<Vec<hash::Hash>>)
        requires
            p.wf(),
        ensures
            match r {
                Some(hs) => vector_behind(*p, self@, c@) == Some(hashes_view(hs@)) && hs.len()
                    == p.num_nodes,
                None => vector_behind(*p, self@, c@) is None,
            },
    {
        let n = p.num_nodes;
        let k = p.num_faults + 1;
        let slots = place(&self.fragments_hashes, c, n, None);
        match decode_data(&slots, k, n) {
            Err(_) => None,
            Ok(decoded) => {
                let mut bytes = decoded;
                if bytes.len() < 32 * n {
                    return None;
                }
                let hs = cut_hashes(&bytes, n);
                let ghost whole = bytes@;
                bytes.truncate(32 * n);
                assert(bytes@ =~= whole.take(32 * n as int));
                if hash_eq(&do_hash(bytes.as_slice()), c) {
                    Some(hs)
                } else {
                    None
                }
            },
        }
    }

    /// What the party delivers under `c`, if anything: see [`outcome`].
    pub fn outcome(&self, p: &Params, c: &hash::Hash) -> (r: Option<Vec<u8>>)
        requires
            p.wf(),
        ensures
            match r {
                Some(m) => outcome(*p, self@, c@) == Some(m@),
                None => outcome(*p, self@, c@) is None,
            },
    {
        let n = p.num_nodes;
        let k = p.num_faults + 1;
        match self.vector_behind(p, c) {
            None => None,
            Some(hashes) => {
                let slots = place(&self.fragments_data, c, n, Some(&hashes));
                if count_present(&slots) < k {
                    return None;
                }
                match reconstruct_data(&slots, k, n) {
                    Err(CodecError::Inconsistent) => {
                        let m: Vec<u8> = Vec::new();
                        assert(m@ =~= Seq::<u8>::empty());
                        Some(m)
                    },
                    Err(_) => None,
                    Ok(all) => {
                        if hashes_match(&all, &hashes) {
                            Some(concat_shards(&all, k))
                        } else {
                            let m: Vec<u8> = Vec::new();
                            assert(m@ =~= Seq::<u8>::empty());
                            Some(m)
                        }
                    },
                }
            },
        }
    }
}

} // verus!
