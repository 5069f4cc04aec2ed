use rbc::ctrbc::context::Context;
use rbc::ctrbc::msg::{Action, CTRBCMsg, ProtMsg};
use rbc::ctrbc::step::Config;
use rbc::params::Params;
use rbc::status::{StartError, Status};
use std::collections::{HashMap, VecDeque};

struct Net {
    nodes: Vec<Context>,
    queue: VecDeque<(usize, ProtMsg)>,
    delivered: Vec<Vec<Vec<u8>>>,
    sent: Vec<[usize; 4]>,
}

fn copy(m: &CTRBCMsg) -> CTRBCMsg {
    m.duplicate()
}

impl Net {
    fn new(n: usize, f: usize, optimistic: bool, byzantine: &[usize]) -> Net {
        let nodes = (0..n)
            .map(|id| {
                let params = Params::new(n, f, id).unwrap();
                Context::new(
                    Config { params, optimistic },
                    !byzantine.contains(&id),
                    true,
                    HashMap::new(),
                )
            })
            .collect();
        Net { nodes, queue: VecDeque::new(), delivered: vec![Vec::new(); n], sent: vec![[0; 4]; n] }
    }

    fn perform(&mut self, from: usize, acts: Vec<Action>, id: usize) {
        let n = self.nodes.len();
        for a in acts {
            match a {
                Action::Init(to, m) => {
                    self.sent[from][0] += 1;
                    self.queue.push_back((to, ProtMsg::Init(m, id)));
                }
                Action::Echo(m) => {
                    self.sent[from][1] += 1;
                    for to in (0..n).filter(|to| *to != from) {
                        self.queue.push_back((to, ProtMsg::Echo(copy(&m), id)));
                    }
                }
                Action::Vote(m) => {
                    self.sent[from][2] += 1;
                    for to in (0..n).filter(|to| *to != from) {
                        self.queue.push_back((to, ProtMsg::Vote(copy(&m), id)));
                    }
                }
                Action::Ready(m) => {
                    self.sent[from][3] += 1;
                    for to in (0..n).filter(|to| *to != from) {
                        self.queue.push_back((to, ProtMsg::Ready(copy(&m), id)));
                    }
                }
                Action::Deliver(p) => self.delivered[from].push(p),
            }
        }
    }

    fn start(&mut self, who: usize, payload: &[u8], id: usize) -> Result<(), StartError> {
        let acts = self.nodes[who].start_init(payload.to_vec(), id)?;
        self.perform(who, acts, id);
        Ok(())
    }

    fn step(&mut self, to: usize, m: ProtMsg) {
        let (acts, id) = match m {
            ProtMsg::Init(m, id) => (self.nodes[to].handle_init(m, id), id),
            ProtMsg::Echo(m, id) => (self.nodes[to].handle_echo(m, id), id),
            ProtMsg::Vote(m, id) => (self.nodes[to].handle_vote(m, id), id),
            ProtMsg::Ready(m, id) => (self.nodes[to].handle_ready(m, id), id),
        };
        self.perform(to, acts, id);
    }

    fn run(&mut self, max_steps: usize) -> usize {
        let mut steps = 0;
        while let Some((to, m)) = self.queue.pop_front() {
            assert!(steps < max_steps, "the network did not quiesce");
            self.step(to, m);
            steps += 1;
        }
        steps
    }

    /// Delivers everything except what is addressed to `late`, then the rest.
    fn run_with_late(&mut self, late: usize, max_steps: usize) {
        let mut held: VecDeque<(usize, ProtMsg)> = VecDeque::new();
        let mut steps = 0;
        while let Some((to, m)) = self.queue.pop_front() {
            assert!(steps < max_steps);
            if to == late {
                held.push_back((to, m));
            } else {
                self.step(to, m);
            }
            steps += 1;
        }
        self.queue = held;
        self.run(max_steps);
    }
}

#[test]
fn four_parties_deliver_hello() {
    let mut net = Net::new(4, 1, false, &[]);
    net.start(0, b"hello", 7).unwrap();
    net.run(10_000);
    for id in 0..4 {
        assert_eq!(net.delivered[id], vec![b"hello_".to_vec()], "party {}", id);
        assert_eq!(net.sent[id][1], 1, "party {} sends one ECHO", id);
        assert_eq!(net.sent[id][2], 0, "no VOTE without the optimistic variant");
        assert!(net.sent[id][3] >= 1 && net.sent[id][3] <= 3);
        assert_eq!(net.nodes[id].rbc_context[&7].status, Status::TERMINATED);
        assert!(net.nodes[id].rbc_context[&7].terminated);
    }
    assert_eq!(net.sent[0][0], 3);
}

#[test]
fn payload_of_even_length_is_delivered_unpadded() {
    let mut net = Net::new(4, 1, false, &[]);
    net.start(2, b"hello!", 0).unwrap();
    net.run(10_000);
    for id in 0..4 {
        assert_eq!(net.delivered[id], vec![b"hello!".to_vec()]);
    }
}

#[test]
fn byzantine_originator_with_empty_shards_stalls_everyone() {
    let mut net = Net::new(4, 1, false, &[0]);
    net.start(0, b"hello", 1).unwrap();
    let steps = net.run(10_000);
    assert!(steps < 100);
    for id in 0..4 {
        assert!(net.delivered[id].is_empty(), "party {} must not deliver", id);
    }
    for id in 1..4 {
        assert_eq!(net.sent[id][1], 0, "an empty shard fails its proof: no ECHO");
    }
}

#[test]
fn seven_parties_large_payload() {
    let payload: Vec<u8> = (0..30_000u32).map(|i| (i.wrapping_mul(2654435761) >> 13) as u8).collect();
    let mut net = Net::new(7, 2, false, &[]);
    net.start(3, &payload, 3).unwrap();
    net.run(100_000);
    for id in 0..7 {
        assert_eq!(net.delivered[id].len(), 1);
        assert_eq!(net.delivered[id][0], payload);
        assert_eq!(net.sent[id][1], 1);
    }
}

#[test]
fn optimistic_with_one_late_party() {
    let mut net = Net::new(7, 2, true, &[]);
    net.start(0, b"balanced optimistic", 9).unwrap();
    net.run_with_late(6, 100_000);
    let expected = b"balanced optimistic__".to_vec();
    for id in 0..7 {
        assert_eq!(net.delivered[id], vec![expected.clone()], "party {}", id);
        assert_eq!(net.sent[id][1], 1);
        assert!(net.sent[id][2] <= 1, "at most one VOTE");
    }
}

#[test]
fn replayed_echo_is_counted_once() {
    let mut net = Net::new(4, 1, false, &[]);
    net.start(0, b"hello", 5).unwrap();
    // hand party 1 its INIT, which makes it echo
    let mut echo_of_1 = None;
    while let Some((to, m)) = net.queue.pop_front() {
        if to == 1 {
            if let ProtMsg::Init(m, id) = m {
                let acts = net.nodes[1].handle_init(m, id);
                for a in acts {
                    if let Action::Echo(e) = a {
                        echo_of_1 = Some(e);
                    }
                }
            }
        }
    }
    let echo = echo_of_1.unwrap();
    let root = echo.mp.root();
    let first = net.nodes[2].handle_echo(echo.duplicate(), 5);
    assert!(first.is_empty());
    let status = net.nodes[2].rbc_context[&5].status;
    assert_eq!(net.nodes[2].rbc_context[&5].echos.count(&root), 1);
    for _ in 0..100 {
        let again = net.nodes[2].handle_echo(echo.duplicate(), 5);
        assert!(again.is_empty());
        assert_eq!(net.nodes[2].rbc_context[&5].echos.count(&root), 1);
        assert_eq!(net.nodes[2].rbc_context[&5].echos.len(), 1);
        assert_eq!(net.nodes[2].rbc_context[&5].status, status);
    }
}

#[test]
fn start_is_refused_on_empty_payload_and_second_time() {
    let mut net = Net::new(4, 1, false, &[]);
    assert_eq!(net.start(0, b"", 0), Err(StartError::EmptyPayload));
    assert_eq!(net.start(0, b"x", 0), Ok(()));
    assert_eq!(net.start(0, b"x", 0), Err(StartError::NotWaiting));
    assert_eq!(net.start(0, b"y", 1), Ok(()));
}

#[test]
fn crashed_party_emits_nothing() {
    let params = Params::new(4, 1, 0).unwrap();
    let mut c = Context::new(Config { params, optimistic: false }, true, false, HashMap::new());
    assert_eq!(c.start_init(b"hello".to_vec(), 0).map(|a| a.len()), Ok(0));
    assert_eq!(c.rbc_context[&0].status, Status::ECHO);
}

fn inits_over(shards: &[Vec<u8>], origin: usize) -> Vec<CTRBCMsg> {
    let tree = rbc::merkle::construct_merkle_tree(&shards.to_vec());
    (0..shards.len())
        .map(|j| CTRBCMsg { shard: shards[j].clone(), mp: tree.gen_proof(j), origin })
        .collect()
}

#[test]
fn inconsistent_shards_under_one_root_stall_everyone() {
    // the originator commits to shards that are no code word
    let mut shards = rbc::codec::get_shards(b"hello!", 2, 4).unwrap();
    shards[3] = vec![0xaa, 0xbb, 0xcc];
    let inits = inits_over(&shards, 0);
    let mut net = Net::new(4, 1, false, &[0]);
    for (to, m) in inits.into_iter().enumerate().skip(1) {
        net.queue.push_back((to, ProtMsg::Init(m, 4)));
    }
    net.run(10_000);
    for id in 1..4 {
        assert_eq!(net.sent[id][1], 1, "party {} echoes: its proof holds", id);
        assert!(net.delivered[id].is_empty(), "party {} must not deliver", id);
        assert!(!net.nodes[id].rbc_context[&4].terminated);
        assert_eq!(net.nodes[id].rbc_context[&4].echo_root, None);
    }
}

#[test]
fn single_byte_and_boundary_payloads_are_delivered() {
    for payload in [vec![7u8], vec![1u8, 2], (0..8u8).collect::<Vec<u8>>()] {
        let mut net = Net::new(4, 1, false, &[]);
        net.start(1, &payload, 0).unwrap();
        net.run(10_000);
        let mut expected = payload.clone();
        if expected.len() % 2 == 1 {
            expected.push(b'_');
        }
        for id in 0..4 {
            assert_eq!(net.delivered[id], vec![expected.clone()]);
        }
    }
}

#[test]
fn optimistic_thresholds_split_two_parties_at_n4_f1() {
    // a faulty originator shows one payload to party 1 and another to
    // party 2, and echoes to each under the root it has shown it
    let a = inits_over(&rbc::codec::get_shards(b"heads!", 2, 4).unwrap(), 0);
    let b = inits_over(&rbc::codec::get_shards(b"tails!", 2, 4).unwrap(), 0);
    let mut net = Net::new(4, 1, true, &[0]);
    let mut out1 = net.nodes[1].handle_init(a[1].duplicate(), 0);
    out1.extend(net.nodes[1].handle_echo(a[0].duplicate(), 0));
    let mut out2 = net.nodes[2].handle_init(b[2].duplicate(), 0);
    out2.extend(net.nodes[2].handle_echo(b[0].duplicate(), 0));
    let delivered = |acts: &[Action]| -> Vec<Vec<u8>> {
        acts.iter()
            .filter_map(|a| match a {
                Action::Deliver(p) => Some(p.clone()),
                _ => None,
            })
            .collect()
    };
    assert_eq!(delivered(&out1), vec![b"heads!".to_vec()]);
    assert_eq!(delivered(&out2), vec![b"tails!".to_vec()]);
    // without the optimistic thresholds neither party delivers
    let mut net = Net::new(4, 1, false, &[0]);
    let mut out1 = net.nodes[1].handle_init(a[1].duplicate(), 0);
    out1.extend(net.nodes[1].handle_echo(a[0].duplicate(), 0));
    assert!(delivered(&out1).is_empty());
}

#[test]
fn shards_without_a_valid_proof_are_not_stored() {
    let inits = inits_over(&rbc::codec::get_shards(b"hello!", 2, 4).unwrap(), 0);
    let mut forged = inits[1].duplicate();
    forged.shard[0] ^= 1;
    for optimistic in [false, true] {
        let mut net = Net::new(4, 1, optimistic, &[]);
        let mut m = forged.duplicate();
        m.origin = 3;
        assert!(net.nodes[2].handle_echo(m.duplicate(), 0).is_empty());
        assert!(net.nodes[2].handle_vote(m.duplicate(), 0).is_empty());
        assert!(net.nodes[2].handle_ready(m.duplicate(), 0).is_empty());
        assert!(net.nodes[2].handle_init(forged.duplicate(), 0).is_empty());
        let st = &net.nodes[2].rbc_context[&0];
        assert_eq!(st.echos.len(), 0);
        assert_eq!(st.votes.len(), 0);
        assert_eq!(st.readys.len(), 0);
        assert_eq!(st.status, Status::WAITING);
        assert!(st.fragment.is_none());
    }
}

#[test]
fn init_is_taken_only_for_the_own_position() {
    let inits = inits_over(&rbc::codec::get_shards(b"hello!", 2, 4).unwrap(), 0);
    let mut net = Net::new(4, 1, false, &[]);
    assert!(net.nodes[2].handle_init(inits[1].duplicate(), 0).is_empty());
    assert_eq!(net.nodes[2].rbc_context[&0].status, Status::WAITING);
    let acts = net.nodes[2].handle_init(inits[2].duplicate(), 0);
    assert_eq!(acts.len(), 1);
    assert_eq!(net.nodes[2].rbc_context[&0].status, Status::ECHO);
    assert!(net.nodes[2].rbc_context[&0].sent_echo);
    assert!(net.nodes[2].handle_init(inits[2].duplicate(), 0).is_empty());
}

#[test]
fn vote_and_ready_are_taken_on_the_echoed_shard_or_a_valid_proof() {
    let inits = inits_over(&rbc::codec::get_shards(b"hello!", 2, 4).unwrap(), 0);
    let mut net = Net::new(7, 2, true, &[]);
    let root = inits[1].mp.root();
    let mut echo = inits[1].duplicate();
    echo.origin = 1;
    assert!(net.nodes[2].handle_echo(echo.duplicate(), 0).is_empty());
    // the same shard under a broken path, from the sender of the ECHO
    let mut broken = echo.duplicate();
    broken.mp.path.clear();
    assert!(net.nodes[2].handle_vote(broken.duplicate(), 0).is_empty());
    assert!(net.nodes[2].handle_ready(broken.duplicate(), 0).is_empty());
    assert_eq!(net.nodes[2].rbc_context[&0].votes.count(&root), 1);
    assert_eq!(net.nodes[2].rbc_context[&0].readys.count(&root), 1);
    // the same from a sender that has not echoed
    broken.origin = 4;
    assert!(net.nodes[2].handle_vote(broken.duplicate(), 0).is_empty());
    assert!(net.nodes[2].handle_ready(broken.duplicate(), 0).is_empty());
    assert_eq!(net.nodes[2].rbc_context[&0].votes.count(&root), 1);
    assert_eq!(net.nodes[2].rbc_context[&0].readys.count(&root), 1);
    // votes are not taken without the optimistic thresholds
    let mut plain = Net::new(7, 2, false, &[]);
    assert!(plain.nodes[2].handle_vote(echo.duplicate(), 0).is_empty());
    assert_eq!(plain.nodes[2].rbc_context[&0].votes.len(), 0);
}

#[test]
fn early_ready_follows_enough_votes() {
    let inits = inits_over(&rbc::codec::get_shards(b"hello!", 3, 7).unwrap(), 0);
    let mut net = Net::new(7, 2, true, &[]);
    let mut sent = 0;
    for origin in 0..4 {
        let mut vote = inits[origin].duplicate();
        vote.origin = origin;
        let acts = net.nodes[5].handle_vote(vote, 0);
        for a in &acts {
            match a {
                Action::Ready(m) => {
                    assert_eq!(origin, 3, "the fourth VOTE reaches the threshold");
                    assert_eq!(m.origin, 5);
                    sent += 1;
                }
                other => panic!("unexpected {:?}", other),
            }
        }
    }
    assert_eq!(sent, 1);
    assert!(net.nodes[5].rbc_context[&0].sent_ready);
    assert_eq!(net.nodes[5].rbc_context[&0].status, Status::READY);
    let mut vote = inits[4].duplicate();
    vote.origin = 4;
    assert!(net.nodes[5].handle_vote(vote, 0).is_empty());
}

fn from_position(inits: &[CTRBCMsg], position: usize) -> CTRBCMsg {
    let mut m = inits[position].duplicate();
    m.origin = position;
    m
}

fn payloads(acts: &[Action]) -> Vec<Vec<u8>> {
    acts.iter()
        .filter_map(|a| match a {
            Action::Deliver(p) => Some(p.clone()),
            _ => None,
        })
        .collect()
}

#[test]
fn readys_from_parity_positions_alone_lead_to_delivery() {
    let inits = inits_over(&rbc::codec::get_shards(b"hello!", 2, 4).unwrap(), 1);
    let mut net = Net::new(4, 1, false, &[]);
    let party = &mut net.nodes[0];
    assert!(party.handle_ready(from_position(&inits, 2), 0).is_empty());
    // the second READY completes f + 1: the payload is rebuilt from shards 2
    // and 3, the party's own READY is the third, and three are a quorum
    let acts = party.handle_ready(from_position(&inits, 3), 0);
    assert_eq!(acts.len(), 2);
    match &acts[0] {
        Action::Ready(m) => {
            assert_eq!(m.origin, 0);
            assert_eq!(m.shard, inits[0].shard);
            assert!(m.verify_mr_proof());
        }
        other => panic!("unexpected {:?}", other),
    }
    assert_eq!(payloads(&acts), vec![b"hello!".to_vec()]);
    let st = &party.rbc_context[&0];
    assert!(st.terminated);
    assert_eq!(st.echo_root, Some(inits[0].mp.root()));
    assert_eq!(st.readys.count(&inits[0].mp.root()), 3);
    assert!(party.handle_ready(from_position(&inits, 1), 0).is_empty());
}

#[test]
fn quorum_of_readys_delivers_though_nothing_was_committed() {
    let inits = inits_over(&rbc::codec::get_shards(b"hello!", 2, 4).unwrap(), 1);
    let root = inits[0].mp.root();
    let mut state = rbc::ctrbc::rbc_state::RBCState::new();
    state.readys.insert(root, 1, 1, inits[1].shard.clone());
    state.readys.insert(root, 2, 2, inits[2].shard.clone());
    let mut net = Net::new(4, 1, false, &[]);
    net.nodes[0].rbc_context.insert(0, state);
    let acts = net.nodes[0].handle_ready(from_position(&inits, 3), 0);
    assert_eq!(acts.len(), 1);
    assert_eq!(payloads(&acts), vec![b"hello!".to_vec()]);
    let st = &net.nodes[0].rbc_context[&0];
    assert!(st.terminated);
    assert_eq!(st.status, Status::TERMINATED);
    assert_eq!(st.echo_root, Some(root));
    assert_eq!(st.message, Some(b"hello!".to_vec()));
    assert_eq!(st.fragment.as_ref().map(|f| f.0.clone()), Some(inits[0].shard.clone()));
}

#[test]
fn quorum_of_readys_that_do_not_fit_delivers_nothing() {
    let inits = inits_over(&rbc::codec::get_shards(b"hello!", 2, 4).unwrap(), 1);
    let root = inits[0].mp.root();
    let mut state = rbc::ctrbc::rbc_state::RBCState::new();
    // replica 1 has passed on the shard of position 2
    state.readys.insert(root, 1, 1, inits[2].shard.clone());
    state.readys.insert(root, 2, 2, inits[2].shard.clone());
    let mut net = Net::new(4, 1, false, &[]);
    net.nodes[0].rbc_context.insert(0, state);
    assert!(net.nodes[0].handle_ready(from_position(&inits, 3), 0).is_empty());
    let st = &net.nodes[0].rbc_context[&0];
    assert!(!st.terminated);
    assert_eq!(st.echo_root, None);
    assert_eq!(st.readys.count(&root), 3);
}

#[test]
fn latched_delivery_from_three_parity_echoes_of_seven() {
    let shards = rbc::codec::get_shards(b"twenty-one bytes long", 3, 7).unwrap();
    let inits = inits_over(&shards, 0);
    for latched in [true, false] {
        let mut net = Net::new(7, 2, true, &[]);
        let mut state = rbc::ctrbc::rbc_state::RBCState::new();
        state.ready_quorum_reached = latched;
        net.nodes[1].rbc_context.insert(0, state);
        let party = &mut net.nodes[1];
        assert!(payloads(&party.handle_echo(from_position(&inits, 4), 0)).is_empty());
        assert!(payloads(&party.handle_echo(from_position(&inits, 6), 0)).is_empty());
        let acts = party.handle_echo(from_position(&inits, 5), 0);
        let st = &party.rbc_context[&0];
        if latched {
            assert_eq!(payloads(&acts), vec![b"twenty-one bytes long".to_vec()]);
            assert!(st.terminated);
            assert_eq!(st.echo_root, Some(inits[0].mp.root()));
            assert_eq!(st.message, Some(shards[..3].concat()));
        } else {
            assert!(payloads(&acts).is_empty());
            assert!(!st.terminated);
        }
    }
}
