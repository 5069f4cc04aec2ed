//! Counting arguments over the senders in a store: among enough senders
//! one follows the protocol, and two quorums share such a sender.

use crate::store::{count, unique, RecordView};
use vstd::prelude::*;
use vstd::set_lib::{
    lemma_int_range, lemma_len_intersect, lemma_len_subset, lemma_len_union,
    lemma_set_intersect_union_lens, set_int_range,
};

verus! {

/// The replicas that sent a shard under `root`.
pub open spec fn senders(recs: Seq<RecordView>, root: Seq<u8>) -> Set<int> {
    Set::new(
        |o: int|
            exists|i: int|
                0 <= i < recs.len() && (#[trigger] recs[i]).root == root && recs[i].origin == o,
    )
}

/// Every sender in the store is one of the replicas `0..n`.
pub open spec fn within(recs: Seq<RecordView>, n: int) -> bool {
    forall|i: int| 0 <= i < recs.len() ==> (#[trigger] recs[i]).origin < n
}

/// In a store without repeated senders the count under a root is the
/// number of senders under that root.
pub proof fn lemma_senders_count(recs: Seq<RecordView>, root: Seq<u8>)
    requires
        unique(recs),
    ensures
        senders(recs, root).finite(),
        senders(recs, root).len() == count(recs, root),
    decreases recs.len(),
{
    if recs.len() == 0 {
        assert(senders(recs, root) =~= Set::<int>::empty());
    } else {
        let prev = recs.drop_last();
        let last = recs.last();
        assert(unique(prev)) by {
            assert forall|i: int, j: int| 0 <= i < j < prev.len() implies !(prev[i].root
                == prev[j].root && prev[i].origin == prev[j].origin) by {
                assert(prev[i] == recs[i] && prev[j] == recs[j]);
            }
        }
        lemma_senders_count(prev, root);
        if last.root == root {
            assert(!senders(prev, root).contains(last.origin as int)) by {
                if senders(prev, root).contains(last.origin as int) {
                    let i = choose|i: int|
                        0 <= i < prev.len() && (#[trigger] prev[i]).root == root && prev[i].origin
                            == last.origin as int;
                    assert(recs[i] == prev[i]);
                    assert(recs[recs.len() - 1] == last);
                }
            }
            assert(senders(recs, root) =~= senders(prev, root).insert(last.origin as int)) by {
                assert forall|o: int| senders(recs, root).contains(o) implies senders(
                    prev,
                    root,
                ).insert(last.origin as int).contains(o) by {
                    let i = choose|i: int|
                        0 <= i < recs.len() && (#[trigger] recs[i]).root == root && recs[i].origin
                            == o;
                    if i < prev.len() {
                        assert(prev[i] == recs[i]);
                    }
                }
                assert forall|o: int|
                    senders(prev, root).insert(last.origin as int).contains(o) implies senders(
                    recs,
                    root,
                ).contains(o) by {
                    if o == last.origin as int {
                        assert(recs[recs.len() - 1].root == root);
                    } else {
                        let i = choose|i: int|
                            0 <= i < prev.len() && (#[trigger] prev[i]).root == root
                                && prev[i].origin == o;
                        assert(recs[i] == prev[i]);
                    }
                }
            }
        } else {
            assert(senders(recs, root) =~= senders(prev, root)) by {
                assert forall|o: int| senders(recs, root).contains(o) implies senders(
                    prev,
                    root,
                ).contains(o) by {
                    let i = choose|i: int|
                        0 <= i < recs.len() && (#[trigger] recs[i]).root == root && recs[i].origin
                            == o;
                    assert(prev[i] == recs[i]);
                }
                assert forall|o: int| senders(prev, root).contains(o) implies senders(
                    recs,
                    root,
                ).contains(o) by {
                    let i = choose|i: int|
                        0 <= i < prev.len() && (#[trigger] prev[i]).root == root && prev[i].origin
                            == o;
                    assert(recs[i] == prev[i]);
                }
            }
        }
    }
}

/// **One of `f + 1` is honest.** Where more senders stand under a root
/// than there are faulty replicas, one of them is not faulty.
pub proof fn lemma_some_honest(recs: Seq<RecordView>, root: Seq<u8>, faulty: Set<int>)
    requires
        unique(recs),
        faulty.finite(),
        count(recs, root) > faulty.len(),
    ensures
        exists|i: int|
            0 <= i < recs.len() && (#[trigger] recs[i]).root == root && !faulty.contains(
                recs[i].origin as int,
            ),
{
    lemma_senders_count(recs, root);
    let s = senders(recs, root);
    if s.subset_of(faulty) {
        lemma_len_subset(s, faulty);
        assert(false);
    }
    let o = choose|o: int| s.contains(o) && !faulty.contains(o);
    let i = choose|i: int|
        0 <= i < recs.len() && (#[trigger] recs[i]).root == root && recs[i].origin == o;
    assert(!faulty.contains(recs[i].origin as int));
}

/// **Quorums intersect.** Two quorums of `n - f` senders among `n > 3f`
/// replicas, at most `f` of them faulty, share a sender that is not
/// faulty.
pub proof fn lemma_quorums_share_honest(
    a: Seq<RecordView>,
    root_a: Seq<u8>,
    b: Seq<RecordView>,
    root_b: Seq<u8>,
    n: int,
    f: int,
    faulty: Set<int>,
)
    requires
        unique(a),
        unique(b),
        within(a, n),
        within(b, n),
        0 <= f,
        3 * f < n,
        faulty.finite(),
        faulty.len() <= f,
        count(a, root_a) >= n - f,
        count(b, root_b) >= n - f,
    ensures
        exists|i: int, j: int|
            0 <= i < a.len() && 0 <= j < b.len() && (#[trigger] a[i]).root == root_a && (
            #[trigger] b[j]).root == root_b && a[i].origin == b[j].origin && !faulty.contains(
                a[i].origin as int,
            ),
{
    lemma_senders_count(a, root_a);
    lemma_senders_count(b, root_b);
    let sa = senders(a, root_a);
    let sb = senders(b, root_b);
    let all = set_int_range(0, n);
    lemma_int_range(0, n);
    assert((sa + sb).subset_of(all)) by {
        assert forall|o: int| (sa + sb).contains(o) implies all.contains(o) by {
            if sa.contains(o) {
                let i = choose|i: int|
                    0 <= i < a.len() && (#[trigger] a[i]).root == root_a && a[i].origin == o;
            } else {
                let j = choose|j: int|
                    0 <= j < b.len() && (#[trigger] b[j]).root == root_b && b[j].origin == o;
            }
        }
    }
    lemma_len_subset(sa + sb, all);
    lemma_set_intersect_union_lens(sa, sb);
    let both = sa.intersect(sb);
    lemma_len_intersect(sa, sb);
    assert(both.finite());
    assert(both.len() >= n - 2 * f);
    if both.subset_of(faulty) {
        lemma_len_subset(both, faulty);
        assert(false);
    }
    let o = choose|o: int| both.contains(o) && !faulty.contains(o);
    let i = choose|i: int| 0 <= i < a.len() && (#[trigger] a[i]).root == root_a && a[i].origin == o;
    let j = choose|j: int| 0 <= j < b.len() && (#[trigger] b[j]).root == root_b && b[j].origin == o;
    assert(a[i].origin == b[j].origin);
}

} // verus!
