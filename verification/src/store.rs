//! The shards received for one kind of message, kept per content hash and
//! sender in the order in which they arrived.

use crate::codec::{clone_bytes, slots_view};
use crate::hash;
use crate::hash::hash_eq;
use vstd::prelude::*;

verus! {

/// One received shard, as mathematical values.
pub struct RecordView {
    /// The content hash that the shard was sent under.
    pub root: Seq<u8>,
    /// The replica that sent it.
    pub origin: usize,
    /// The position that the sender names for the shard.
    pub number: usize,
    /// The shard.
    pub shard: Seq<u8>,
}

/// The shard that `origin` sent under `root`, if any.
pub open spec fn lookup(recs: Seq<RecordView>, root: Seq<u8>, origin: usize) -> Option<Seq<u8>>
    decreases recs.len(),
{
    if recs.len() == 0 {
        None
    } else if recs.last().root == root && recs.last().origin == origin {
        Some(recs.last().shard)
    } else {
        lookup(recs.drop_last(), root, origin)
    }
}

/// Number of shards received under `root`.
pub open spec fn count(recs: Seq<RecordView>, root: Seq<u8>) -> nat
    decreases recs.len(),
{
    if recs.len() == 0 {
        0
    } else if recs.last().root == root {
        count(recs.drop_last(), root) + 1
    } else {
        count(recs.drop_last(), root)
    }
}

/// No sender occurs twice under one hash.
pub open spec fn unique(recs: Seq<RecordView>) -> bool {
    forall|i: int, j: int|
        0 <= i < j < recs.len() ==> !(recs[i].root == recs[j].root && recs[i].origin
            == recs[j].origin)
}

/// The shards received under `root` from the replicas `0..n`, by replica.
pub open spec fn slots(recs: Seq<RecordView>, root: Seq<u8>, n: nat) -> Seq<Option<Seq<u8>>> {
    Seq::new(n, |r: int| lookup(recs, root, r as usize))
}

/// The largest number of shards received under one hash, with the first
/// hash to reach it; `(0, None)` for the empty store.
pub open spec fn mode(recs: Seq<RecordView>) -> (nat, Option<Seq<u8>>)
    decreases recs.len(),
{
    if recs.len() == 0 {
        (0, None)
    } else {
        let prev = mode(recs.drop_last());
        let here = count(recs, recs.last().root);
        if here > prev.0 {
            (here, Some(recs.last().root))
        } else {
            (prev.0, prev.1)
        }
    }
}

/// A shard is found exactly where a record holds it.
pub proof fn lemma_lookup_some(recs: Seq<RecordView>, root: Seq<u8>, origin: usize)
    ensures
        lookup(recs, root, origin) is Some <==> exists|i: int|
            0 <= i < recs.len() && (#[trigger] recs[i]).root == root && recs[i].origin == origin,
        lookup(recs, root, origin) matches Some(s) ==> exists|i: int|
            0 <= i < recs.len() && (#[trigger] recs[i]).root == root && recs[i].origin == origin
                && recs[i].shard == s,
    decreases recs.len(),
{
    if recs.len() > 0 {
        lemma_lookup_some(recs.drop_last(), root, origin);
        if recs.last().root == root && recs.last().origin == origin {
            assert(recs[recs.len() - 1].root == root);
        } else {
            if lookup(recs.drop_last(), root, origin) is Some {
                let i = choose|i: int|
                    0 <= i < recs.drop_last().len() && (#[trigger] recs.drop_last()[i]).root == root
                        && recs.drop_last()[i].origin == origin && recs.drop_last()[i].shard
                        == lookup(recs.drop_last(), root, origin).unwrap();
                assert(recs[i].root == root);
            }
            if exists|i: int|
                0 <= i < recs.len() && (#[trigger] recs[i]).root == root && recs[i].origin
                    == origin {
                let i = choose|i: int|
                    0 <= i < recs.len() && (#[trigger] recs[i]).root == root && recs[i].origin
                        == origin;
                assert(recs.drop_last()[i].root == root);
            }
        }
    }
}

/// Adding the shard of a new sender keeps senders unique, makes that shard
/// found, leaves every other lookup as it was and raises the count under
/// its hash by one.
pub proof fn lemma_push_record(recs: Seq<RecordView>, rec: RecordView)
    requires
        unique(recs),
        lookup(recs, rec.root, rec.origin) is None,
    ensures
        unique(recs.push(rec)),
        lookup(recs.push(rec), rec.root, rec.origin) == Some(rec.shard),
        forall|root: Seq<u8>, origin: usize|
            !(root == rec.root && origin == rec.origin) ==> #[trigger] lookup(
                recs.push(rec),
                root,
                origin,
            ) == lookup(recs, root, origin),
        count(recs.push(rec), rec.root) == count(recs, rec.root) + 1,
        forall|root: Seq<u8>| root != rec.root ==> #[trigger] count(recs.push(rec), root) == count(
            recs,
            root,
        ),
{
    let next = recs.push(rec);
    assert(next.drop_last() =~= recs);
    lemma_lookup_some(recs, rec.root, rec.origin);
    assert forall|i: int, j: int| 0 <= i < j < next.len() implies !(next[i].root == next[j].root
        && next[i].origin == next[j].origin) by {
        if j == recs.len() {
            assert(recs[i] == next[i]);
        }
    }
}

/// A store that begins with another holds at least as many records under
/// each root.
pub proof fn lemma_count_grows(old: Seq<RecordView>, new: Seq<RecordView>, h: Seq<u8>)
    requires
        old.len() <= new.len(),
        forall|i: int| 0 <= i < old.len() ==> #[trigger] new[i] == old[i],
    ensures
        count(old, h) <= count(new, h),
    decreases new.len(),
{
    if new.len() == old.len() {
        assert(new =~= old);
    } else {
        lemma_count_grows(old, new.drop_last(), h);
    }
}

/// The hash that the mode names holds at least as many shards as the mode
/// counts.
pub proof fn lemma_mode_count(recs: Seq<RecordView>)
    ensures
        mode(recs).1 matches Some(h) ==> count(recs, h) >= mode(recs).0,
        mode(recs).1 is None ==> mode(recs).0 == 0,
    decreases recs.len(),
{
    if recs.len() > 0 {
        lemma_mode_count(recs.drop_last());
    }
}

/// One received shard.
#[derive(Debug)]
pub struct Record {
    /// The content hash that the shard was sent under.
    pub root: hash::Hash,
    /// The replica that sent it.
    pub origin: usize,
    /// The position that the sender names for the shard.
    pub number: usize,
    /// The shard.
    pub shard: Vec<u8>,
}

impl View for Record {
    type V = RecordView;

    open spec fn view(&self) -> RecordView {
        RecordView {
            root: self.root@,
            origin: self.origin,
            number: self.number,
            shard: self.shard@,
        }
    }
}

/// The shards received for one kind of message.
#[derive(Debug)]
pub struct ShardStore {
    pub records: Vec<Record>,
}

impl View for ShardStore {
    type V = Seq<RecordView>;

    open spec fn view(&self) -> Seq<RecordView> {
        Seq::new(self.records@.len(), |i: int| self.records@[i]@)
    }
}

impl ShardStore {
    /// The empty store.
    pub fn new() -> (s: ShardStore)
        ensures
            s@ == Seq::<RecordView>::empty(),
    {
        let s = ShardStore { records: Vec::new() };
        assert(s@ =~= Seq::<RecordView>::empty());
        s
    }

    /// Number of records.
    pub fn len(&self) -> (n: usize)
        ensures
            n == self@.len(),
    {
        self.records.len()
    }

    /// The shard that `origin` sent under `root`, if any.
    pub fn get(&self, root: &hash::Hash, origin: usize) -> (r: Option<&Vec<u8>>)
        ensures
            match r {
                Some(s) => lookup(self@, root@, origin) == Some(s@),
                None => lookup(self@, root@, origin) is None,
            },
    {
        let mut i: usize = self.records.len();
        assert(self@.take(i as int) =~= self@);
        while i > 0
            invariant
                i <= self.records.len(),
                lookup(self@, root@, origin) == lookup(self@.take(i as int), root@, origin),
            decreases i,
        {
            let rec = &self.records[i - 1];
            assert(self@.take(i as int).last() == rec@);
            assert(self@.take(i as int).drop_last() =~= self@.take(i - 1));
            if rec.origin == origin && hash_eq(&rec.root, root) {
                return Some(&rec.shard);
            }
            i -= 1;
        }
        None
    }

    /// Whether `origin` sent a shard under `root`.
    pub fn contains(&self, root: &hash::Hash, origin: usize) -> (r: bool)
        ensures
            r == lookup(self@, root@, origin).is_some(),
    {
        self.get(root, origin).is_some()
    }

    /// Number of shards received under `root`.
    pub fn count(&self, root: &hash::Hash) -> (c: usize)
        ensures
            c == count(self@, root@),
    {
        let mut c: usize = 0;
        let mut i: usize = 0;
        while i < self.records.len()
            invariant
                i <= self.records.len(),
                c <= i,
                c == count(self@.take(i as int), root@),
            decreases self.records.len() - i,
        {
            assert(self@.take(i + 1).last() == self.records@[i as int]@);
            assert(self@.take(i + 1).drop_last() =~= self@.take(i as int));
            if hash_eq(&self.records[i].root, root) {
                c += 1;
            }
            i += 1;
        }
        assert(self@.take(self.records.len() as int) =~= self@);
        c
    }

    /// Records the shard that `origin` sent under `root` for position
    /// `number`. The sender must not have a shard under `root` yet, so that
    /// no sender comes to stand twice under one hash.
    pub fn insert(&mut self, root: hash::Hash, origin: usize, number: usize, shard: Vec<u8>)
        requires
            lookup(old(self)@, root@, origin) is None,
        ensures
            final(self)@ == old(self)@.push(
                RecordView { root: root@, origin, number, shard: shard@ },
            ),
            unique(old(self)@) ==> unique(final(self)@),
            lookup(final(self)@, root@, origin) == Some(shard@),
            count(final(self)@, root@) == count(old(self)@, root@) + 1,
    {
        proof {
            if unique(self@) {
                lemma_push_record(self@, RecordView { root: root@, origin, number, shard: shard@ });
            }
            let next = self@.push(RecordView { root: root@, origin, number, shard: shard@ });
            assert(next.drop_last() =~= self@);
        }
        self.records.push(Record { root, origin, number, shard });
        assert(self@ =~= old(self)@.push(
            RecordView { root: root@, origin, number, shard: shard@ },
        ));
    }

    /// The shards received under `root` from the replicas `0..n`, by replica.
    pub fn slots(&self, root: &hash::Hash, n: usize) -> (r: Vec<Option<Vec<u8>>>)
        ensures
            slots_view(r@) == slots(self@, root@, n as nat),
            r.len() == n,
    {
        let mut r: Vec<Option<Vec<u8>>> = Vec::new();
        let mut rep: usize = 0;
        while rep < n
            invariant
                rep <= n,
                r.len() == rep,
                forall|j: int|
                    0 <= j < rep ==> (#[trigger] slots_view(r@)[j]) == lookup(
                        self@,
                        root@,
                        j as usize,
                    ),
            decreases n - rep,
        {
            let ghost before = slots_view(r@);
            match self.get(root, rep) {
                Some(s) => {
                    r.push(Some(clone_bytes(s)));
                },
                None => {
                    r.push(None);
                },
            }
            assert forall|j: int| 0 <= j < rep + 1 implies (#[trigger] slots_view(r@)[j])
                == lookup(self@, root@, j as usize) by {
                if j < rep {
                    assert(slots_view(r@)[j] == before[j]);
                }
            }
            rep += 1;
        }
        assert(slots_view(r@) =~= slots(self@, root@, n as nat));
        r
    }

    /// The largest number of shards received under one hash, with the first
    /// hash that reached it.
    pub fn mode(&self) -> (r: (usize, Option<hash::Hash>))
        ensures
            r.0 == mode(self@).0,
            match r.1 {
                Some(h) => mode(self@).1 == Some(h@),
                None => mode(self@).1 is None,
            },
    {
        let mut best: usize = 0;
        let mut content: Option<hash::Hash> = None;
        let mut i: usize = 0;
        while i < self.records.len()
            invariant
                i <= self.records.len(),
                best == mode(self@.take(i as int)).0,
                match content {
                    Some(h) => mode(self@.take(i as int)).1 == Some(h@),
                    None => mode(self@.take(i as int)).1 is None,
                },
            decreases self.records.len() - i,
        {
            let root = self.records[i].root;
            let here = self.count_upto(&root, i + 1);
            assert(self@.take(i + 1).last() == self.records@[i as int]@);
            assert(self@.take(i + 1).drop_last() =~= self@.take(i as int));
            if here > best {
                best = here;
                content = Some(root);
            }
            i += 1;
        }
        assert(self@.take(self.records.len() as int) =~= self@);
        (best, content)
    }

    /// Number of shards under `root` among the first `upto` records.
    fn count_upto(&self, root: &hash::Hash, upto: usize) -> (c: usize)
        requires
            upto <= self@.len(),
        ensures
            c == count(self@.take(upto as int), root@),
    {
        let mut c: usize = 0;
        let mut i: usize = 0;
        while i < upto
            invariant
                i <= upto <= self.records.len(),
                c <= i,
                c == count(self@.take(i as int), root@),
            decreases upto - i,
        {
            assert(self@.take(i + 1).last() == self.records@[i as int]@);
            assert(self@.take(i + 1).drop_last() =~= self@.take(i as int));
            if hash_eq(&self.records[i].root, root) {
                c += 1;
            }
            i += 1;
        }
        c
    }
}

} // verus!
