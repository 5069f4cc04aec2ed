//! The benchmark synchronizer's bookkeeping: it waits until every party is
//! alive, hands out the payload, and reports the latencies once every party
//! has delivered.

use crate::hash::bytes_eq;
use std::collections::HashSet;
use vstd::prelude::*;

verus! {

broadcast use vstd::std_specs::hash::group_hash_axioms;

/// What a message between a party and the synchronizer announces.
#[derive(Clone, Copy, PartialEq, Eq, Structural, Debug)]
pub enum SyncState {
    ALIVE,
    STARTED,
    START,
    COMPLETED,
    STOP,
}

/// A message between a party and the synchronizer.
#[derive(Debug)]
pub struct SyncMsg {
    pub sender: usize,
    pub state: SyncState,
    pub value: Vec<u8>,
}

/// The payload of one broadcast, as the synchronizer hands it to the
/// parties and takes it back from them.
#[derive(Debug)]
pub struct RBCSyncMsg {
    /// The id of the broadcast.
    pub id: usize,
    /// The payload.
    pub msg: Vec<u8>,
}

/// What happens to the synchronizer.
#[derive(Debug)]
pub enum SyncEvent {
    /// A party says that it is up.
    Alive(usize),
    /// A party says that it has begun.
    Started(usize),
    /// A party says at time `now` that it has delivered `msg`.
    Completed { sender: usize, msg: RBCSyncMsg, now: u128 },
    /// The clock has reached `now`.
    Tick { now: u128 },
}

/// What happens to the synchronizer, as mathematical values.
pub enum EventView {
    Alive(usize),
    Started(usize),
    Completed { sender: usize, id: usize, msg: Seq<u8>, now: u128 },
    Tick { now: u128 },
}

impl View for SyncEvent {
    type V = EventView;

    open spec fn view(&self) -> EventView {
        match self {
            SyncEvent::Alive(s) => EventView::Alive(*s),
            SyncEvent::Started(s) => EventView::Started(*s),
            SyncEvent::Completed { sender, msg, now } => EventView::Completed {
                sender: *sender,
                id: msg.id,
                msg: msg.msg@,
                now: *now,
            },
            SyncEvent::Tick { now } => EventView::Tick { now: *now },
        }
    }
}

/// What the synchronizer asks its caller to do.
#[derive(Debug)]
pub enum SyncAction {
    /// Send START with the payload to the replica.
    Start { replica: usize, msg: RBCSyncMsg },
    /// Send STOP to the replica.
    Stop { replica: usize },
    /// Report that every party has delivered: the latencies in ascending
    /// order, and whether all delivered the same payload.
    Report { id: usize, latencies: Vec<u128>, agreed: bool },
    /// Report that every party has delivered a broadcast that was never
    /// started.
    MissingStart { id: usize },
}

/// What the synchronizer asks its caller to do, as mathematical values.
pub enum SyncActionView {
    Start { replica: usize, id: usize, msg: Seq<u8> },
    Stop { replica: usize },
    Report { id: usize, latencies: Seq<u128>, agreed: bool },
    MissingStart { id: usize },
}

impl View for SyncAction {
    type V = SyncActionView;

    open spec fn view(&self) -> SyncActionView {
        match self {
            SyncAction::Start { replica, msg } => SyncActionView::Start {
                replica: *replica,
                id: msg.id,
                msg: msg.msg@,
            },
            SyncAction::Stop { replica } => SyncActionView::Stop { replica: *replica },
            SyncAction::Report { id, latencies, agreed } => SyncActionView::Report {
                id: *id,
                latencies: latencies@,
                agreed: *agreed,
            },
            SyncAction::MissingStart { id } => SyncActionView::MissingStart { id: *id },
        }
    }
}

/// The actions that a vector of actions stands for.
pub open spec fn sync_actions_view(v: Seq<SyncAction>) -> Seq<SyncActionView> {
    Seq::new(v.len(), |i: int| v[i]@)
}

/// The state of the synchronizer, as mathematical values.
pub struct SyncView {
    pub num_nodes: usize,
    pub ready_for_broadcast: bool,
    pub rbc_id: usize,
    pub alive: Set<usize>,
    pub rbc_complete_times: Seq<(usize, u128)>,
    pub rbc_comp_values: Seq<Seq<u8>>,
    pub rbc_start_time: Option<u128>,
    pub broadcast_msgs: Seq<u8>,
}

/// The state of the synchronizer.
#[derive(Debug)]
pub struct Syncer {
    /// Number of parties.
    pub num_nodes: usize,
    /// Whether the next tick starts a broadcast.
    pub ready_for_broadcast: bool,
    /// Number of broadcasts started.
    pub rbc_id: usize,
    /// The parties that are up.
    pub alive: HashSet<usize>,
    /// When each party delivered, each party once.
    pub rbc_complete_times: Vec<(usize, u128)>,
    /// The payloads delivered, each once.
    pub rbc_comp_values: Vec<Vec<u8>>,
    /// When the broadcast was started.
    pub rbc_start_time: Option<u128>,
    /// The payload that the parties are asked to broadcast.
    pub broadcast_msgs: Vec<u8>,
}

impl View for Syncer {
    type V = SyncView;

    open spec fn view(&self) -> SyncView {
        SyncView {
            num_nodes: self.num_nodes,
            ready_for_broadcast: self.ready_for_broadcast,
            rbc_id: self.rbc_id,
            alive: self.alive@,
            rbc_complete_times: self.rbc_complete_times@,
            rbc_comp_values: Seq::new(
                self.rbc_comp_values@.len(),
                |i: int| self.rbc_comp_values@[i]@,
            ),
            rbc_start_time: self.rbc_start_time,
            broadcast_msgs: self.broadcast_msgs@,
        }
    }
}

/// `s` with `x` added unless it is there.
pub open spec fn with_member<T>(s: Seq<T>, x: T) -> Seq<T> {
    if s.contains(x) {
        s
    } else {
        s.push(x)
    }
}

/// The position of `sender` among the delivery times, or their number.
pub open spec fn position(times: Seq<(usize, u128)>, sender: usize) -> int
    decreases times.len(),
{
    if times.len() == 0 {
        0
    } else if times[0].0 == sender {
        0
    } else {
        1 + position(times.drop_first(), sender)
    }
}

/// The delivery times with that of `sender` set to `now`.
pub open spec fn with_time(times: Seq<(usize, u128)>, sender: usize, now: u128) -> Seq<
    (usize, u128),
> {
    let i = position(times, sender);
    if i < times.len() {
        times.update(i, (sender, now))
    } else {
        times.push((sender, now))
    }
}

/// The time from `start` to `t`; zero where `t` is before `start`.
pub open spec fn elapsed(t: u128, start: u128) -> u128 {
    if t >= start {
        (t - start) as u128
    } else {
        0
    }
}

/// `sorted` with `x` put before the first element that is larger.
pub open spec fn inserted(sorted: Seq<u128>, x: u128) -> Seq<u128>
    decreases sorted.len(),
{
    if sorted.len() == 0 {
        seq![x]
    } else if sorted[0] > x {
        seq![x] + sorted
    } else {
        seq![sorted[0]] + inserted(sorted.drop_first(), x)
    }
}

/// The latencies of the first `upto` deliveries in ascending order.
pub open spec fn latencies(times: Seq<(usize, u128)>, start: u128, upto: int) -> Seq<u128>
    decreases upto,
{
    if upto <= 0 {
        Seq::empty()
    } else {
        inserted(latencies(times, start, upto - 1), elapsed(times[upto - 1].1, start))
    }
}

/// Whether the sequence ascends.
pub open spec fn ascending(s: Seq<u128>) -> bool {
    forall|i: int, j: int| 0 <= i <= j < s.len() ==> s[i] <= s[j]
}

/// START for the replicas below `upto`.
pub open spec fn starts(payload: Seq<u8>, upto: int) -> Seq<SyncActionView>
    decreases upto,
{
    if upto <= 0 {
        Seq::empty()
    } else {
        starts(payload, upto - 1).push(
            SyncActionView::Start { replica: (upto - 1) as usize, id: 0, msg: payload },
        )
    }
}

/// STOP for the replicas below `upto`.
pub open spec fn stops(upto: int) -> Seq<SyncActionView>
    decreases upto,
{
    if upto <= 0 {
        Seq::empty()
    } else {
        stops(upto - 1).push(SyncActionView::Stop { replica: (upto - 1) as usize })
    }
}

/// What the synchronizer does once every party has delivered: it reports,
/// and stops the parties where all broadcasts asked for were started.
pub open spec fn conclusion(s: SyncView, id: usize) -> Seq<SyncActionView> {
    match s.rbc_start_time {
        None => seq![SyncActionView::MissingStart { id }],
        Some(start) => seq![
            SyncActionView::Report {
                id,
                latencies: latencies(s.rbc_complete_times, start, s.rbc_complete_times.len() as int),
                agreed: s.rbc_comp_values.len() <= 1,
            },
        ] + (if s.rbc_id >= s.num_nodes * s.broadcast_msgs.len() {
            stops(s.num_nodes as int)
        } else {
            Seq::empty()
        }),
    }
}

/// No party stands twice among the delivery times, and no payload stands
/// twice among the payloads delivered.
pub open spec fn tidy(s: SyncView) -> bool {
    &&& forall|i: int, j: int|
        0 <= i < j < s.rbc_complete_times.len() ==> s.rbc_complete_times[i].0
            != s.rbc_complete_times[j].0
    &&& s.rbc_comp_values.no_duplicates()
}

/// The transition of the synchronizer on one event.
pub open spec fn sync_step(s: SyncView, e: EventView) -> (SyncView, Seq<SyncActionView>) {
    match e {
        EventView::Alive(sender) => {
            let alive = s.alive.insert(sender);
            (
                SyncView {
                    alive,
                    ready_for_broadcast: s.ready_for_broadcast || alive.len() == s.num_nodes,
                    ..s
                },
                Seq::empty(),
            )
        },
        EventView::Started(_) => (s, Seq::empty()),
        EventView::Completed { sender, id, msg, now } => {
            let times = with_time(s.rbc_complete_times, sender, now);
            let values = with_member(s.rbc_comp_values, msg);
            let s1 = SyncView { rbc_complete_times: times, rbc_comp_values: values, ..s };
            if times.len() == s.num_nodes {
                let s2 = SyncView { ready_for_broadcast: true, ..s1 };
                (s2, conclusion(s2, id))
            } else {
                (s1, Seq::empty())
            }
        },
        EventView::Tick { now } => {
            if s.ready_for_broadcast && s.rbc_id < 1 {
                (
                    SyncView {
                        ready_for_broadcast: false,
                        rbc_id: (s.rbc_id + 1) as usize,
                        rbc_start_time: Some(now),
                        ..s
                    },
                    starts(s.broadcast_msgs, s.num_nodes as int),
                )
            } else {
                (s, Seq::empty())
            }
        },
    }
}

/// The state after the events in order, and everything asked for on the
/// way.
pub open spec fn sync_run(s: SyncView, events: Seq<EventView>) -> (SyncView, Seq<SyncActionView>)
    decreases events.len(),
{
    if events.len() == 0 {
        (s, Seq::empty())
    } else {
        let before = sync_run(s, events.drop_last());
        let last = sync_step(before.0, events.last());
        (last.0, before.1 + last.1)
    }
}

/// The position of `sender` is where its delivery time stands, or past
/// the end where it has none.
pub proof fn lemma_position(times: Seq<(usize, u128)>, sender: usize)
    ensures
        0 <= position(times, sender) <= times.len(),
        position(times, sender) < times.len() ==> times[position(times, sender)].0 == sender,
        forall|i: int| 0 <= i < position(times, sender) ==> (#[trigger] times[i]).0 != sender,
    decreases times.len(),
{
    if times.len() > 0 && times[0].0 != sender {
        let rest = times.drop_first();
        lemma_position(rest, sender);
        assert forall|i: int| 0 <= i < position(times, sender) implies (#[trigger] times[i]).0
            != sender by {
            if i > 0 {
                assert(times[i] == rest[i - 1]);
            }
        }
    }
}

/// **Each party and payload stands once.** An event leaves no party twice
/// among the delivery times and no payload twice among the payloads
/// delivered, where none stood twice before.
pub proof fn lemma_step_tidy(s: SyncView, e: EventView)
    requires
        tidy(s),
    ensures
        tidy(sync_step(s, e).0),
{
    match e {
        EventView::Completed { sender, id, msg, now } => {
            lemma_position(s.rbc_complete_times, sender);
            let times = with_time(s.rbc_complete_times, sender, now);
            assert forall|i: int, j: int| 0 <= i < j < times.len() implies times[i].0
                != times[j].0 by {
                if j < s.rbc_complete_times.len() {
                    assert(times[i].0 == s.rbc_complete_times[i].0);
                    assert(times[j].0 == s.rbc_complete_times[j].0);
                }
            }
        },
        _ => {},
    }
}

/// A run of events leaves each party and payload standing once, where each
/// stood once before.
pub proof fn lemma_run_tidy(s: SyncView, events: Seq<EventView>)
    requires
        tidy(s),
    ensures
        tidy(sync_run(s, events).0),
    decreases events.len(),
{
    if events.len() > 0 {
        lemma_run_tidy(s, events.drop_last());
        lemma_step_tidy(sync_run(s, events.drop_last()).0, events.last());
    }
}

/// Inserting into an ascending sequence gives an ascending sequence with
/// one more element, the same elements and the new one.
pub proof fn lemma_inserted(sorted: Seq<u128>, x: u128)
    requires
        ascending(sorted),
    ensures
        ascending(inserted(sorted, x)),
        inserted(sorted, x).len() == sorted.len() + 1,
        inserted(sorted, x).to_multiset() == sorted.to_multiset().insert(x),
    decreases sorted.len(),
{
    broadcast use vstd::seq_lib::group_to_multiset_ensures;

    if sorted.len() == 0 {
        assert(seq![x] =~= Seq::<u128>::empty().push(x));
    } else if sorted[0] > x {
        assert(seq![x] + sorted =~= sorted.insert(0, x));
        assert forall|i: int, j: int| 0 <= i <= j < (seq![x] + sorted).len() implies (seq![x]
            + sorted)[i] <= (seq![x] + sorted)[j] by {
            if i > 0 {
                assert(sorted[i - 1] <= sorted[j - 1]);
            } else if j > 0 {
                assert(sorted[0] <= sorted[j - 1]);
            }
        }
    } else {
        let rest = sorted.drop_first();
        assert(ascending(rest)) by {
            assert forall|i: int, j: int| 0 <= i <= j < rest.len() implies rest[i] <= rest[j] by {
                assert(sorted[i + 1] <= sorted[j + 1]);
            }
        }
        lemma_inserted(rest, x);
        let tail = inserted(rest, x);
        let out = seq![sorted[0]] + tail;
        assert(out =~= tail.insert(0, sorted[0]));
        assert(sorted =~= rest.insert(0, sorted[0]));
        assert(out.to_multiset() =~= sorted.to_multiset().insert(x));
        assert forall|i: int, j: int| 0 <= i <= j < out.len() implies out[i] <= out[j] by {
            if i > 0 {
                assert(tail[i - 1] <= tail[j - 1]);
            } else if j > 0 {
                assert(tail.to_multiset().contains(tail[j - 1]));
                if tail[j - 1] != x {
                    assert(rest.to_multiset().contains(tail[j - 1]));
                    let t = choose|t: int| 0 <= t < rest.len() && rest[t] == tail[j - 1];
                    assert(sorted[0] <= sorted[t + 1]);
                }
            }
        }
    }
}

/// The latencies reported ascend, and there is one for each delivery.
pub proof fn lemma_latencies_ascend(times: Seq<(usize, u128)>, start: u128, upto: int)
    requires
        0 <= upto <= times.len(),
    ensures
        ascending(latencies(times, start, upto)),
        latencies(times, start, upto).len() == upto,
    decreases upto,
{
    if upto > 0 {
        lemma_latencies_ascend(times, start, upto - 1);
        lemma_inserted(latencies(times, start, upto - 1), elapsed(times[upto - 1].1, start));
    }
}

/// The byte strings that a vector of byte vectors stands for.
pub open spec fn values_view(v: Seq<Vec<u8>>) -> Seq<Seq<u8>> {
    Seq::new(v.len(), |i: int| v[i]@)
}

/// Adds `x` to `v` unless a vector of the same bytes is there.
fn add_value(v: &mut Vec<Vec<u8>>, x: Vec<u8>)
    ensures
        values_view(final(v)@) == with_member(values_view(old(v)@), x@),
{
    let ghost before = values_view(v@);
    let mut i: usize = 0;
    while i < v.len()
        invariant
            i <= v.len(),
            v@ == old(v)@,
            before == values_view(v@),
            forall|j: int| 0 <= j < i ==> before[j] != x@,
        decreases v.len() - i,
    {
        if bytes_eq(v[i].as_slice(), x.as_slice()) {
            assert(before[i as int] == x@);
            assert(before.contains(x@));
            return ;
        }
        i += 1;
    }
    assert(!before.contains(x@));
    v.push(x);
    assert(values_view(v@) =~= before.push(x@));
}

/// Where `sender` stands among the first elements, it stands in the whole.
proof fn lemma_position_skip(times: Seq<(usize, u128)>, sender: usize, i: int)
    requires
        0 <= i <= times.len(),
        forall|j: int| 0 <= j < i ==> times[j].0 != sender,
    ensures
        position(times, sender) == i + position(times.skip(i), sender),
    decreases i,
{
    if i == 0 {
        assert(times.skip(0) =~= times);
    } else {
        assert(times.drop_first().skip(i - 1) =~= times.skip(i));
        lemma_position_skip(times.drop_first(), sender, i - 1);
    }
}

/// Sets the delivery time of `sender` to `now`.
fn set_time(v: &mut Vec<(usize, u128)>, sender: usize, now: u128)
    ensures
        final(v)@ == with_time(old(v)@, sender, now),
{
    let mut i: usize = 0;
    while i < v.len()
        invariant
            i <= v.len(),
            v@ == old(v)@,
            forall|j: int| 0 <= j < i ==> v@[j].0 != sender,
        decreases v.len() - i,
    {
        if v[i].0 == sender {
            proof {
                lemma_position_skip(v@, sender, i as int);
                assert(v@.skip(i as int)[0] == v@[i as int]);
            }
            v[i] = (sender, now);
            return ;
        }
        i += 1;
    }
    proof {
        lemma_position_skip(v@, sender, v.len() as int);
    }
    v.push((sender, now));
}

/// Puts `x` before the first element of `v` that is larger.
fn insert_ascending(v: &mut Vec<u128>, x: u128)
    ensures
        final(v)@ == inserted(old(v)@, x),
{
    let mut i: usize = 0;
    assert(v@.take(0) + inserted(v@.skip(0), x) =~= inserted(v@, x)) by {
        assert(v@.skip(0) =~= v@);
    }
    while i < v.len() && v[i] <= x
        invariant
            i <= v.len(),
            v@ == old(v)@,
            inserted(v@, x) == v@.take(i as int) + inserted(v@.skip(i as int), x),
        decreases v.len() - i,
    {
        proof {
            let rest = v@.skip(i as int);
            assert(rest[0] == v@[i as int]);
            assert(rest.drop_first() =~= v@.skip(i + 1));
            assert(v@.take(i as int) + (seq![rest[0]] + inserted(rest.drop_first(), x))
                =~= v@.take(i + 1) + inserted(v@.skip(i + 1), x));
        }
        i += 1;
    }
    proof {
        let rest = v@.skip(i as int);
        if i < v.len() {
            assert(rest[0] == v@[i as int]);
            assert(v@.take(i as int) + (seq![x] + rest) =~= v@.insert(i as int, x));
        } else {
            assert(rest.len() == 0);
            assert(v@.take(i as int) + seq![x] =~= v@.insert(i as int, x));
        }
    }
    v.insert(i, x);
}

impl Syncer {
    /// A synchronizer for `num_nodes` parties that asks for one broadcast
    /// of `rbc_msg_size` zero bytes.
    pub fn spawn(num_nodes: usize, rbc_msg_size: u64) -> (s: Syncer)
        ensures
            s@ == (SyncView {
                num_nodes,
                ready_for_broadcast: false,
                rbc_id: 0,
                alive: Set::empty(),
                rbc_complete_times: Seq::empty(),
                rbc_comp_values: Seq::empty(),
                rbc_start_time: None,
                broadcast_msgs: Seq::new(rbc_msg_size as nat, |i: int| 0u8),
            }),
            tidy(s@),
    {
        let mut broadcast_msgs: Vec<u8> = Vec::new();
        let mut i: u64 = 0;
        while i < rbc_msg_size
            invariant
                i <= rbc_msg_size,
                broadcast_msgs@ == Seq::new(i as nat, |i: int| 0u8),
            decreases rbc_msg_size - i,
        {
            broadcast_msgs.push(0u8);
            assert(broadcast_msgs@ =~= Seq::new((i + 1) as nat, |i: int| 0u8));
            i += 1;
        }
        let s = Syncer {
            num_nodes,
            ready_for_broadcast: false,
            rbc_id: 0,
            alive: HashSet::new(),
            rbc_complete_times: Vec::new(),
            rbc_comp_values: Vec::new(),
            rbc_start_time: None,
            broadcast_msgs,
        };
        assert(s@.rbc_comp_values =~= Seq::<Seq<u8>>::empty());
        s
    }

    /// The message for each party, in the order of the replica ids.
    pub fn broadcast(&self, sync_msg: SyncMsg) -> (out: Vec<(usize, SyncMsg)>)
        ensures
            out.len() == self.num_nodes,
            forall|i: int|
                0 <= i < out.len() ==> {
                    &&& (#[trigger] out@[i]).0 == i
                    &&& out@[i].1.sender == sync_msg.sender
                    &&& out@[i].1.state == sync_msg.state
                    &&& out@[i].1.value@ == sync_msg.value@
                },
    {
        let mut out: Vec<(usize, SyncMsg)> = Vec::new();
        let mut replica: usize = 0;
        while replica < self.num_nodes
            invariant
                replica <= self.num_nodes,
                out.len() == replica,
                forall|i: int|
                    0 <= i < out.len() ==> {
                        &&& (#[trigger] out@[i]).0 == i
                        &&& out@[i].1.sender == sync_msg.sender
                        &&& out@[i].1.state == sync_msg.state
                        &&& out@[i].1.value@ == sync_msg.value@
                    },
            decreases self.num_nodes - replica,
        {
            let value = sync_msg.value.clone();
            assert(value@ =~= sync_msg.value@);
            out.push((replica, SyncMsg { sender: sync_msg.sender, state: sync_msg.state, value }));
            replica += 1;
        }
        out
    }

    /// The latencies of all deliveries in ascending order.
    fn sorted_latencies(&self, start: u128) -> (out: Vec<u128>)
        ensures
            out@ == latencies(
                self@.rbc_complete_times,
                start,
                self@.rbc_complete_times.len() as int,
            ),
    {
        let mut out: Vec<u128> = Vec::new();
        let mut i: usize = 0;
        while i < self.rbc_complete_times.len()
            invariant
                i <= self.rbc_complete_times.len(),
                out@ == latencies(self@.rbc_complete_times, start, i as int),
            decreases self.rbc_complete_times.len() - i,
        {
            let t = self.rbc_complete_times[i].1;
            let d: u128 = if t >= start {
                t - start
            } else {
                0
            };
            insert_ascending(&mut out, d);
            i += 1;
        }
        out
    }

    /// Whether every broadcast asked for was started.
    fn all_started(&self) -> (r: bool)
        ensures
            r == (self.rbc_id >= self.num_nodes * self.broadcast_msgs.len()),
    {
        let n = self.num_nodes as u128;
        let len = self.broadcast_msgs.len() as u128;
        assert(n * len <= 0xffff_ffff_ffff_ffff * 0xffff_ffff_ffff_ffff) by (nonlinear_arith)
            requires
                0 <= n <= 0xffff_ffff_ffff_ffff,
                0 <= len <= 0xffff_ffff_ffff_ffff,
        ;
        self.rbc_id as u128 >= n * len
    }

    /// What is to be done once every party has delivered: see
    /// [`conclusion`].
    fn conclude(&self, id: usize) -> (acts: Vec<SyncAction>)
        ensures
            sync_actions_view(acts@) == conclusion(self@, id),
    {
        let mut acts: Vec<SyncAction> = Vec::new();
        match self.rbc_start_time {
            None => {
                acts.push(SyncAction::MissingStart { id });
                assert(sync_actions_view(acts@) =~= seq![SyncActionView::MissingStart { id }]);
            },
            Some(start) => {
                let latencies = self.sorted_latencies(start);
                let agreed = self.rbc_comp_values.len() <= 1;
                acts.push(SyncAction::Report { id, latencies, agreed });
                let ghost first = sync_actions_view(acts@);
                assert(first =~= seq![
                    SyncActionView::Report {
                        id,
                        latencies: latencies@,
                        agreed,
                    },
                ]);
                if self.all_started() {
                    let mut replica: usize = 0;
                    while replica < self.num_nodes
                        invariant
                            replica <= self.num_nodes,
                            sync_actions_view(acts@) == first + stops(replica as int),
                        decreases self.num_nodes - replica,
                    {
                        let ghost so_far = sync_actions_view(acts@);
                        acts.push(SyncAction::Stop { replica });
                        assert(sync_actions_view(acts@) =~= so_far.push(
                            SyncActionView::Stop { replica },
                        ));
                        assert(sync_actions_view(acts@) =~= first + stops(replica + 1));
                        replica += 1;
                    }
                } else {
                    assert(sync_actions_view(acts@) =~= first + Seq::<SyncActionView>::empty());
                }
            },
        }
        acts
    }

    /// Takes one event: see [`sync_step`].
    pub fn step(&mut self, event: SyncEvent) -> (acts: Vec<SyncAction>)
        ensures
            (final(self)@, sync_actions_view(acts@)) == sync_step(old(self)@, event@),
            tidy(old(self)@) ==> tidy(final(self)@),
    {
        proof {
            if tidy(self@) {
                lemma_step_tidy(self@, event@);
            }
        }
        let mut acts: Vec<SyncAction> = Vec::new();
        assert(sync_actions_view(acts@) =~= Seq::<SyncActionView>::empty());
        match event {
            SyncEvent::Alive(sender) => {
                self.alive.insert(sender);
                if self.alive.len() == self.num_nodes {
                    self.ready_for_broadcast = true;
                }
            },
            SyncEvent::Started(_) => {},
            SyncEvent::Completed { sender, msg, now } => {
                set_time(&mut self.rbc_complete_times, sender, now);
                add_value(&mut self.rbc_comp_values, msg.msg);
                if self.rbc_complete_times.len() == self.num_nodes {
                    self.ready_for_broadcast = true;
                    acts = self.conclude(msg.id);
                }
            },
            SyncEvent::Tick { now } => {
                if self.ready_for_broadcast && self.rbc_id < 1 {
                    self.ready_for_broadcast = false;
                    self.rbc_id += 1;
                    let mut replica: usize = 0;
                    while replica < self.num_nodes
                        invariant
                            replica <= self.num_nodes,
                            sync_actions_view(acts@) == starts(
                                self.broadcast_msgs@,
                                replica as int,
                            ),
                        decreases self.num_nodes - replica,
                    {
                        let payload = self.broadcast_msgs.clone();
                        assert(payload@ =~= self.broadcast_msgs@);
                        acts.push(
                            SyncAction::Start { replica, msg: RBCSyncMsg { id: 0, msg: payload } },
                        );
                        assert(sync_actions_view(acts@) =~= starts(
                            self.broadcast_msgs@,
                            replica + 1,
                        ));
                        replica += 1;
                    }
                    self.rbc_start_time = Some(now);
                }
            },
        }
        acts
    }

    /// Takes the events in order: see [`sync_run`].
    pub fn run(&mut self, events: Vec<SyncEvent>) -> (acts: Vec<SyncAction>)
        ensures
            (final(self)@, sync_actions_view(acts@)) == sync_run(
                old(self)@,
                Seq::new(events@.len(), |i: int| events@[i]@),
            ),
            tidy(old(self)@) ==> tidy(final(self)@),
    {
        proof {
            if tidy(self@) {
                lemma_run_tidy(self@, Seq::new(events@.len(), |i: int| events@[i]@));
            }
        }
        let ghost all = Seq::new(events@.len(), |i: int| events@[i]@);
        let mut events = events;
        let total: usize = events.len();
        assert(all.len() == total);
        let mut pending: Vec<SyncEvent> = Vec::new();
        // the events are taken from the back, so they are turned round first
        while events.len() > 0
            invariant
                pending@.len() + events@.len() == all.len(),
                all.len() <= usize::MAX,
                forall|i: int| 0 <= i < events@.len() ==> (#[trigger] events@[i])@ == all[i],
                forall|i: int|
                    0 <= i < pending@.len() ==> (#[trigger] pending@[i])@ == all[all.len() - 1 - i],
            decreases events.len(),
        {
            let e = events.pop().unwrap();
            pending.push(e);
        }
        let mut acts: Vec<SyncAction> = Vec::new();
        let mut done: usize = 0;
        assert(sync_actions_view(acts@) =~= Seq::<SyncActionView>::empty());
        assert(all.take(0) =~= Seq::<EventView>::empty());
        while pending.len() > 0
            invariant
                done + pending@.len() == all.len(),
                all.len() <= usize::MAX,
                forall|i: int|
                    0 <= i < pending@.len() ==> (#[trigger] pending@[i])@ == all[all.len() - 1 - i],
                (self@, sync_actions_view(acts@)) == sync_run(old(self)@, all.take(done as int)),
            decreases pending.len(),
        {
            let e = pending.pop().unwrap();
            let ghost before = sync_actions_view(acts@);
            assert(e@ == all[done as int]);
            let mut more = self.step(e);
            let ghost added = sync_actions_view(more@);
            acts.append(&mut more);
            proof {
                assert(sync_actions_view(acts@) =~= before + added);
                assert(all.take(done + 1).drop_last() =~= all.take(done as int));
                assert(all.take(done + 1).last() == all[done as int]);
            }
            done += 1;
        }
        assert(all.take(done as int) =~= all);
        acts
    }
}

} // verus!
