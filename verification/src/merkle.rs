//! A binary Merkle tree over the shards of one payload.
//!
//! The leaves are the hashes of the shards. A level with an odd number of
//! nodes passes its last node up unchanged. The root commits to every shard
//! and its position; a proof is the list of siblings met on the way from a
//! leaf to the root.

use crate::hash;
use crate::hash::{do_hash, hash_eq, digest};
use vstd::prelude::*;

verus! {

/// The hash of an inner node with the given children.
pub open spec fn node_hash(left: Seq<u8>, right: Seq<u8>) -> Seq<u8> {
    digest(left + right)
}

/// The position of the node that shares a parent with node `i`.
pub open spec fn sibling(i: int) -> int {
    if i % 2 == 0 {
        i + 1
    } else {
        i - 1
    }
}

/// The level above `level`.
pub open spec fn parent_level(level: Seq<Seq<u8>>) -> Seq<Seq<u8>> {
    Seq::new(
        ((level.len() + 1) / 2) as nat,
        |j: int|
            if 2 * j + 1 < level.len() {
                node_hash(level[2 * j], level[2 * j + 1])
            } else {
                level[2 * j]
            },
    )
}

/// The root above `level`. The empty tree has the hash of the empty string
/// as its root.
pub open spec fn root_of(level: Seq<Seq<u8>>) -> Seq<u8>
    decreases level.len(),
{
    if level.len() == 0 {
        digest(Seq::empty())
    } else if level.len() == 1 {
        level[0]
    } else {
        root_of(parent_level(level))
    }
}

/// The siblings met on the way from node `i` of `level` to the root, lowest
/// first. A node without a sibling contributes nothing.
pub open spec fn path_of(level: Seq<Seq<u8>>, i: int) -> Seq<Seq<u8>>
    decreases level.len(),
{
    if level.len() <= 1 {
        Seq::empty()
    } else {
        let rest = path_of(parent_level(level), i / 2);
        if sibling(i) < level.len() {
            seq![level[sibling(i)]] + rest
        } else {
            rest
        }
    }
}

/// The root reached from a node with hash `acc` at position `i` of a level
/// of `len` nodes when `path` supplies the siblings, or `None` when `path`
/// has too few or too many entries.
pub open spec fn climb(acc: Seq<u8>, i: int, len: int, path: Seq<Seq<u8>>) -> Option<Seq<u8>>
    decreases len,
{
    if len <= 1 {
        if path.len() == 0 {
            Some(acc)
        } else {
            None
        }
    } else if sibling(i) < len {
        if path.len() == 0 {
            None
        } else if i % 2 == 0 {
            climb(node_hash(acc, path[0]), i / 2, (len + 1) / 2, path.drop_first())
        } else {
            climb(node_hash(path[0], acc), i / 2, (len + 1) / 2, path.drop_first())
        }
    } else {
        climb(acc, i / 2, (len + 1) / 2, path)
    }
}

/// The hashes of `shards`, in order.
pub open spec fn leaf_hashes(shards: Seq<Seq<u8>>) -> Seq<Seq<u8>> {
    Seq::new(shards.len(), |i: int| digest(shards[i]))
}

/// The Merkle root over `shards`.
pub open spec fn merkle_root(shards: Seq<Seq<u8>>) -> Seq<u8> {
    root_of(leaf_hashes(shards))
}

/// The byte strings that a vector of hashes stands for.
pub open spec fn hashes_view(v: Seq<hash::Hash>) -> Seq<Seq<u8>> {
    Seq::new(v.len(), |i: int| v[i]@)
}

/// What a [`Proof`] holds, as mathematical values.
pub struct ProofView {
    pub root: Seq<u8>,
    pub index: nat,
    pub leaves: nat,
    pub path: Seq<Seq<u8>>,
}

impl ProofView {
    /// Whether the proof binds `shard` to position `index` under `root`.
    pub open spec fn binds(self, shard: Seq<u8>) -> bool {
        &&& self.index < self.leaves
        &&& climb(digest(shard), self.index as int, self.leaves as int, self.path) == Some(
            self.root,
        )
    }
}

/// Whether some authentication path binds `shard` to a position under `root`.
pub open spec fn authenticated(root: Seq<u8>, shard: Seq<u8>) -> bool {
    exists|p: ProofView| p.root == root && #[trigger] p.binds(shard)
}

/// An authentication path for one leaf, with the root it leads to.
#[derive(Debug)]
pub struct Proof {
    /// The root that the path is claimed to lead to.
    pub root: hash::Hash,
    /// Position of the leaf.
    pub index: usize,
    /// Number of leaves of the tree.
    pub leaves: usize,
    /// Siblings from the leaf's level upwards.
    pub path: Vec<hash::Hash>,
}

impl View for Proof {
    type V = ProofView;

    open spec fn view(&self) -> ProofView {
        ProofView {
            root: self.root@,
            index: self.index as nat,
            leaves: self.leaves as nat,
            path: hashes_view(self.path@),
        }
    }
}

/// Hashes the concatenation of two child hashes.
pub fn hash_pair(left: &hash::Hash, right: &hash::Hash) -> (h: hash::Hash)
    ensures
        h@ == node_hash(left@, right@),
{
    let mut buf: Vec<u8> = Vec::new();
    buf.extend_from_slice(left.as_slice());
    buf.extend_from_slice(right.as_slice());
    assert(buf@ =~= left@ + right@);
    do_hash(buf.as_slice())
}

/// Copies a vector of hashes.
pub fn clone_hashes(v: &Vec<hash::Hash>) -> (r: Vec<hash::Hash>)
    ensures
        r@ == v@,
{
    let mut r: Vec<hash::Hash> = Vec::new();
    let mut i: usize = 0;
    while i < v.len()
        invariant
            i <= v.len(),
            r@ == v@.take(i as int),
        decreases v.len() - i,
    {
        r.push(v[i]);
        assert(r@ =~= v@.take(i + 1));
        i += 1;
    }
    assert(v@.take(v.len() as int) =~= v@);
    r
}

/// Computes the level above `level`.
fn parent_level_of(level: &Vec<hash::Hash>) -> (up: Vec<hash::Hash>)
    ensures
        hashes_view(up@) == parent_level(hashes_view(level@)),
        up.len() == (level.len() + 1) / 2,
{
    let ghost lv = hashes_view(level@);
    let count: usize = level.len() / 2 + level.len() % 2;
    let mut up: Vec<hash::Hash> = Vec::new();
    let mut t: usize = 0;
    while t < count
        invariant
            lv == hashes_view(level@),
            count == (level.len() + 1) / 2,
            t <= count,
            up.len() == t,
            forall|j: int| 0 <= j < t ==> (#[trigger] up@[j])@ == parent_level(lv)[j],
        decreases count - t,
    {
        if level.len() - 2 * t >= 2 {
            let h = hash_pair(&level[2 * t], &level[2 * t + 1]);
            up.push(h);
        } else {
            up.push(level[2 * t]);
        }
        t += 1;
    }
    assert(hashes_view(up@) =~= parent_level(lv));
    up
}

impl Proof {
    /// Copies the proof.
    pub fn duplicate(&self) -> (r: Proof)
        ensures
            r@ == self@,
            r.root == self.root,
    {
        Proof {
            root: self.root,
            index: self.index,
            leaves: self.leaves,
            path: clone_hashes(&self.path),
        }
    }

    /// The root that the proof commits to.
    pub fn root(&self) -> (h: hash::Hash)
        ensures
            h == self.root,
    {
        self.root
    }

    /// Recomputes the root from `shard` and the path and compares it with
    /// the root of the proof.
    pub fn validate(&self, shard: &[u8]) -> (ok: bool)
        ensures
            ok == self@.binds(shard@),
            ok ==> authenticated(self.root@, shard@),
    {
        if self.index >= self.leaves {
            return false;
        }
        let ghost path = hashes_view(self.path@);
        let ghost goal = climb(digest(shard@), self.index as int, self.leaves as int, path);
        let mut acc: hash::Hash = do_hash(shard);
        let mut i: usize = self.index;
        let mut len: usize = self.leaves;
        let mut pos: usize = 0;
        assert(path.skip(0) =~= path);
        while len > 1
            invariant
                path == hashes_view(self.path@),
                goal == climb(digest(shard@), self.index as int, self.leaves as int, path),
                i < len,
                pos <= self.path.len(),
                climb(acc@, i as int, len as int, path.skip(pos as int)) == goal,
            decreases len,
        {
            let ghost rest = path.skip(pos as int);
            let has_sibling: bool = if i % 2 == 0 {
                len - i >= 2
            } else {
                true
            };
            if has_sibling {
                if pos >= self.path.len() {
                    assert(rest.len() == 0);
                    assert(climb(acc@, i as int, len as int, rest) is None);
                    return false;
                }
                assert(rest[0] == self.path@[pos as int]@);
                assert(rest.drop_first() =~= path.skip(pos + 1));
                if i % 2 == 0 {
                    acc = hash_pair(&acc, &self.path[pos]);
                } else {
                    acc = hash_pair(&self.path[pos], &acc);
                }
                pos += 1;
            }
            i = i / 2;
            len = len / 2 + len % 2;
        }
        if pos != self.path.len() {
            assert(path.skip(pos as int).len() != 0);
            assert(climb(acc@, i as int, len as int, path.skip(pos as int)) is None);
            return false;
        }
        assert(path.skip(pos as int).len() == 0);
        let ok = hash_eq(&acc, &self.root);
        proof {
            if ok {
                assert(self@.binds(shard@));
            }
        }
        ok
    }
}

/// A node climbs along its own path to the root of its level.
pub proof fn lemma_path_climbs(level: Seq<Seq<u8>>, i: int)
    requires
        0 <= i < level.len(),
    ensures
        climb(level[i], i, level.len() as int, path_of(level, i)) == Some(root_of(level)),
    decreases level.len(),
{
    if level.len() > 1 {
        let up = parent_level(level);
        lemma_path_climbs(up, i / 2);
        let rest = path_of(up, i / 2);
        if sibling(i) < level.len() {
            let p = seq![level[sibling(i)]] + rest;
            assert(p.drop_first() =~= rest);
            assert(p[0] == level[sibling(i)]);
        }
    }
}

/// The Merkle tree over the shards of one payload.
pub struct MerkleTree {
    leaves: Vec<hash::Hash>,
    top: hash::Hash,
}

impl MerkleTree {
    /// The leaf hashes of the tree.
    pub closed spec fn leaves(&self) -> Seq<Seq<u8>> {
        hashes_view(self.leaves@)
    }

    /// The cached root is the root over the leaves.
    pub closed spec fn wf(&self) -> bool {
        self.top@ == root_of(self.leaves())
    }

    /// Number of leaves.
    pub fn num_leaves(&self) -> (n: usize)
        ensures
            n == self.leaves().len(),
    {
        self.leaves.len()
    }

    /// The root of the tree.
    pub fn root(&self) -> (h: hash::Hash)
        requires
            self.wf(),
        ensures
            h@ == root_of(self.leaves()),
    {
        self.top
    }

    /// The authentication path of leaf `i`.
    pub fn gen_proof(&self, i: usize) -> (p: Proof)
        requires
            self.wf(),
            i < self.leaves().len(),
        ensures
            p@ == (ProofView {
                root: root_of(self.leaves()),
                index: i as nat,
                leaves: self.leaves().len(),
                path: path_of(self.leaves(), i as int),
            }),
            climb(self.leaves()[i as int], i as int, self.leaves().len() as int, p@.path) == Some(
                p@.root,
            ),
    {
        let ghost leaves = self.leaves();
        let mut level: Vec<hash::Hash> = clone_hashes(&self.leaves);
        let mut idx: usize = i;
        let mut path: Vec<hash::Hash> = Vec::new();
        while level.len() > 1
            invariant
                idx < level.len(),
                hashes_view(path@) + path_of(hashes_view(level@), idx as int) == path_of(
                    leaves,
                    i as int,
                ),
            decreases level.len(),
        {
            let ghost lv = hashes_view(level@);
            let ghost before = hashes_view(path@);
            let up = parent_level_of(&level);
            if idx % 2 == 0 {
                if level.len() - idx >= 2 {
                    path.push(level[idx + 1]);
                }
            } else {
                path.push(level[idx - 1]);
            }
            proof {
                let rest = path_of(parent_level(lv), idx as int / 2);
                if sibling(idx as int) < lv.len() {
                    assert(hashes_view(path@) =~= before + seq![lv[sibling(idx as int)]]);
                    assert(hashes_view(path@) + rest =~= before + (seq![lv[sibling(idx as int)]]
                        + rest));
                } else {
                    assert(hashes_view(path@) =~= before);
                }
            }
            idx = idx / 2;
            level = up;
        }
        proof {
            assert(hashes_view(path@) =~= path_of(leaves, i as int));
            lemma_path_climbs(leaves, i as int);
        }
        Proof { root: self.top, index: i, leaves: self.leaves.len(), path }
    }
}

/// Computes the root above `level`.
fn root_of_level(level: &Vec<hash::Hash>) -> (h: hash::Hash)
    ensures
        h@ == root_of(hashes_view(level@)),
{
    if level.len() == 0 {
        let nothing: Vec<u8> = Vec::new();
        assert(nothing@ =~= Seq::<u8>::empty());
        return do_hash(nothing.as_slice());
    }
    let mut cur: Vec<hash::Hash> = clone_hashes(level);
    while cur.len() > 1
        invariant
            cur.len() >= 1,
            root_of(hashes_view(cur@)) == root_of(hashes_view(level@)),
        decreases cur.len(),
    {
        cur = parent_level_of(&cur);
    }
    cur[0]
}

/// Builds the Merkle tree over `shards`.
pub fn construct_merkle_tree(shards: &Vec<Vec<u8>>) -> (tree: MerkleTree)
    ensures
        tree.wf(),
        tree.leaves() == leaf_hashes(Seq::new(shards@.len(), |i: int| shards@[i]@)),
{
    let ghost sv = Seq::new(shards@.len(), |i: int| shards@[i]@);
    let mut leaves: Vec<hash::Hash> = Vec::new();
    let mut i: usize = 0;
    while i < shards.len()
        invariant
            i <= shards.len(),
            leaves.len() == i,
            sv == Seq::new(shards@.len(), |i: int| shards@[i]@),
            forall|t: int| 0 <= t < i ==> (#[trigger] leaves@[t])@ == digest(sv[t]),
        decreases shards.len() - i,
    {
        let h = do_hash(shards[i].as_slice());
        leaves.push(h);
        i += 1;
    }
    assert(hashes_view(leaves@) =~= leaf_hashes(sv));
    let top = root_of_level(&leaves);
    MerkleTree { leaves, top }
}

/// Every proof that a tree generates binds the shard at its position to the
/// root of the tree.
pub proof fn lemma_generated_proof_binds(shards: Seq<Seq<u8>>, i: int)
    requires
        0 <= i < shards.len(),
    ensures
        (ProofView {
            root: merkle_root(shards),
            index: i as nat,
            leaves: shards.len(),
            path: path_of(leaf_hashes(shards), i),
        }).binds(shards[i]),
        authenticated(merkle_root(shards), shards[i]),
{
    lemma_path_climbs(leaf_hashes(shards), i);
    let p = ProofView {
        root: merkle_root(shards),
        index: i as nat,
        leaves: shards.len(),
        path: path_of(leaf_hashes(shards), i),
    };
    assert(p.binds(shards[i]));
}

/// The byte strings `x` and `y` differ and have the same digest.
pub open spec fn collide(x: Seq<u8>, y: Seq<u8>) -> bool {
    x != y && digest(x) == digest(y)
}

/// What is hashed for node `j` of the level above `level`: its two children
/// joined.
pub open spec fn joined(level: Seq<Seq<u8>>, j: int) -> Seq<u8> {
    level[2 * j] + level[2 * j + 1]
}

/// Somewhere above the levels `a` and `b` the trees hash different children
/// to the same node at the same place.
pub open spec fn levels_collide(a: Seq<Seq<u8>>, b: Seq<Seq<u8>>) -> bool
    decreases a.len(),
{
    a.len() > 1 && ((exists|j: int|
        0 <= j && 2 * j + 1 < a.len() && collide(#[trigger] joined(a, j), joined(b, j)))
        || levels_collide(parent_level(a), parent_level(b)))
}

/// The trees over the shards `a` and `b` hash different values to the same
/// digest at the same place: two shards at one position, or the children of
/// two nodes at one place.
pub open spec fn shards_collide(a: Seq<Seq<u8>>, b: Seq<Seq<u8>>) -> bool {
    (exists|i: int| 0 <= i < a.len() && collide(#[trigger] a[i], b[i])) || levels_collide(
        leaf_hashes(a),
        leaf_hashes(b),
    )
}

/// On the way from position `i` of a level of `len` nodes to the root along
/// `path`, the nodes above `x` and above `y` are hashed from different
/// children to the same node.
pub open spec fn climbs_collide(x: Seq<u8>, y: Seq<u8>, i: int, len: int, path: Seq<Seq<u8>>) -> bool
    decreases len,
{
    len > 1 && (if sibling(i) < len {
        path.len() > 0 && (if i % 2 == 0 {
            collide(x + path[0], y + path[0]) || climbs_collide(
                node_hash(x, path[0]),
                node_hash(y, path[0]),
                i / 2,
                (len + 1) / 2,
                path.drop_first(),
            )
        } else {
            collide(path[0] + x, path[0] + y) || climbs_collide(
                node_hash(path[0], x),
                node_hash(path[0], y),
                i / 2,
                (len + 1) / 2,
                path.drop_first(),
            )
        })
    } else {
        climbs_collide(x, y, i / 2, (len + 1) / 2, path)
    })
}

/// Every node of the level has 32 bytes.
pub open spec fn digests(level: Seq<Seq<u8>>) -> bool {
    forall|i: int| 0 <= i < level.len() ==> (#[trigger] level[i]).len() == 32
}

/// Two levels of the same width with the same root are the same level, or
/// the trees above them hash different children to the same node.
pub proof fn lemma_root_binds_level(a: Seq<Seq<u8>>, b: Seq<Seq<u8>>)
    requires
        digests(a),
        digests(b),
        a.len() == b.len(),
        root_of(a) == root_of(b),
    ensures
        a == b || levels_collide(a, b),
    decreases a.len(),
{
    if a.len() <= 1 {
        assert(a =~= b);
    } else {
        let pa = parent_level(a);
        let pb = parent_level(b);
        lemma_root_binds_level(pa, pb);
        if !levels_collide(a, b) {
            assert(pa == pb);
            assert forall|i: int| 0 <= i < a.len() implies a[i] == b[i] by {
                let j = i / 2;
                assert(pa[j] == pb[j]);
                if 2 * j + 1 < a.len() {
                    let x = joined(a, j);
                    let y = joined(b, j);
                    assert(digest(x) == digest(y));
                    assert(!collide(x, y));
                    assert(a[2 * j] =~= x.take(32));
                    assert(b[2 * j] =~= y.take(32));
                    assert(a[2 * j + 1] =~= x.skip(32));
                    assert(b[2 * j + 1] =~= y.skip(32));
                }
            }
            assert(a =~= b);
        }
    }
}

/// **The root binds the shards.** Two sets of equally many shards with the
/// same Merkle root are the same set, or their trees hash different values
/// to the same digest at the same place.
pub proof fn lemma_root_binds_shards(a: Seq<Seq<u8>>, b: Seq<Seq<u8>>)
    requires
        a.len() == b.len(),
        merkle_root(a) == merkle_root(b),
    ensures
        a == b || shards_collide(a, b),
{
    lemma_root_binds_level(leaf_hashes(a), leaf_hashes(b));
    if !shards_collide(a, b) {
        assert forall|i: int| 0 <= i < a.len() implies a[i] == b[i] by {
            assert(leaf_hashes(a)[i] == leaf_hashes(b)[i]);
            assert(!collide(a[i], b[i]));
        }
        assert(a =~= b);
    }
}

/// Two nodes that climb along one path from one position to one root are
/// one node, or on the way two nodes are hashed from different children to
/// the same node.
pub proof fn lemma_climb_binds(x: Seq<u8>, y: Seq<u8>, i: int, len: int, path: Seq<Seq<u8>>)
    requires
        climb(x, i, len, path) is Some,
        climb(x, i, len, path) == climb(y, i, len, path),
    ensures
        x == y || climbs_collide(x, y, i, len, path),
    decreases len,
{
    if len > 1 && !climbs_collide(x, y, i, len, path) {
        if sibling(i) < len {
            if i % 2 == 0 {
                lemma_climb_binds(
                    node_hash(x, path[0]),
                    node_hash(y, path[0]),
                    i / 2,
                    (len + 1) / 2,
                    path.drop_first(),
                );
                assert(!collide(x + path[0], y + path[0]));
                assert(x + path[0] == y + path[0]);
                assert(x =~= (x + path[0]).take((x + path[0]).len() - path[0].len()));
                assert(y =~= (y + path[0]).take((y + path[0]).len() - path[0].len()));
            } else {
                lemma_climb_binds(
                    node_hash(path[0], x),
                    node_hash(path[0], y),
                    i / 2,
                    (len + 1) / 2,
                    path.drop_first(),
                );
                assert(!collide(path[0] + x, path[0] + y));
                assert(path[0] + x == path[0] + y);
                assert(x =~= (path[0] + x).skip(path[0].len() as int));
                assert(y =~= (path[0] + y).skip(path[0].len() as int));
            }
        } else {
            lemma_climb_binds(x, y, i / 2, (len + 1) / 2, path);
        }
    }
}

/// **A proof binds one shard.** A proof binds at most one shard to its
/// position and root: two shards that it binds are one shard, or they have
/// the same digest, or on the way to the root two nodes are hashed from
/// different children to the same node.
pub proof fn lemma_proof_binds_one_shard(p: ProofView, a: Seq<u8>, b: Seq<u8>)
    requires
        p.binds(a),
        p.binds(b),
    ensures
        a == b || collide(a, b) || climbs_collide(
            digest(a),
            digest(b),
            p.index as int,
            p.leaves as int,
            p.path,
        ),
{
    lemma_climb_binds(digest(a), digest(b), p.index as int, p.leaves as int, p.path);
}

} // verus!
