use rbc::ccbrb::msg::{Action, EchoMsg, ProtMsg, ReadyMsg, SendMsg};
use rbc::ccbrb::process::Context;
use rbc::codec::get_shards;
use rbc::hash::do_hash;
use rbc::params::Params;
use rbc::status::{StartError, Status};
use std::collections::{HashMap, VecDeque};

struct HashNet {
    nodes: Vec<Context>,
    queue: VecDeque<(usize, ProtMsg)>,
    delivered: Vec<Vec<Vec<u8>>>,
    echoes: Vec<usize>,
    readys: Vec<usize>,
    seen_sends: Vec<SendMsg>,
    seen_echoes: Vec<EchoMsg>,
    seen_readys: Vec<ReadyMsg>,
}

impl HashNet {
    fn new(n: usize, f: usize, byzantine: &[usize]) -> HashNet {
        let nodes = (0..n)
            .map(|id| {
                Context::new(
                    Params::new(n, f, id).unwrap(),
                    !byzantine.contains(&id),
                    true,
                    HashMap::new(),
                )
            })
            .collect();
        HashNet {
            nodes,
            queue: VecDeque::new(),
            delivered: vec![Vec::new(); n],
            echoes: vec![0; n],
            readys: vec![0; n],
            seen_sends: Vec::new(),
            seen_echoes: Vec::new(),
            seen_readys: Vec::new(),
        }
    }

    fn perform(&mut self, from: usize, acts: Vec<Action>, id: usize) {
        let n = self.nodes.len();
        for a in acts {
            match a {
                Action::Send(to, m) => {
                    self.seen_sends.push(m.duplicate());
                    self.queue.push_back((to, ProtMsg::Init(m, id)));
                }
                Action::Echo(m) => {
                    self.echoes[from] += 1;
                    self.seen_echoes.push(m.duplicate());
                    for to in (0..n).filter(|to| *to != from) {
                        self.queue.push_back((to, ProtMsg::Echo(m.duplicate(), id)));
                    }
                }
                Action::Ready(m) => {
                    self.readys[from] += 1;
                    self.seen_readys.push(m.duplicate());
                    for to in (0..n).filter(|to| *to != from) {
                        self.queue.push_back((to, ProtMsg::Ready(m.duplicate(), id)));
                    }
                }
                Action::Deliver(p) => self.delivered[from].push(p),
            }
        }
    }

    fn start(&mut self, who: usize, payload: &[u8], id: usize) -> Result<(), StartError> {
        let acts = self.nodes[who].start_init(payload.to_vec(), id)?;
        self.perform(who, acts, id);
        Ok(())
    }

    fn run(&mut self, max_steps: usize) {
        let mut steps = 0;
        while let Some((to, m)) = self.queue.pop_front() {
            assert!(steps < max_steps, "the network did not quiesce");
            let (acts, id) = match m {
                ProtMsg::Init(m, id) => (self.nodes[to].handle_init(m, id), id),
                ProtMsg::Echo(m, id) => (self.nodes[to].handle_echo(m, id), id),
                ProtMsg::Ready(m, id) => (self.nodes[to].handle_ready(m, id), id),
            };
            self.perform(to, acts, id);
            steps += 1;
        }
    }
}

#[test]
fn hash_vector_broadcast_delivers_payload() {
    let payload: Vec<u8> = (0..32u8).map(|i| i.wrapping_mul(37).wrapping_add(11)).collect();
    let mut net = HashNet::new(4, 1, &[]);
    net.start(0, &payload, 2).unwrap();
    net.run(10_000);
    let shards = get_shards(&payload, 2, 4).unwrap();
    let d: Vec<[u8; 32]> = shards.iter().map(|s| do_hash(s)).collect();
    let c = do_hash(&d.concat());
    for m in &net.seen_sends {
        assert_eq!(m.d_hashes, d);
        assert_eq!(m.d_j.data, shards[m.d_j.number]);
        assert_eq!(m.id, 2);
    }
    assert_eq!(net.seen_sends.len(), 3);
    for m in &net.seen_echoes {
        assert_eq!(m.c, c);
        assert_eq!(m.d_i.data, shards[m.origin]);
        assert_eq!(m.d_i.number, m.origin);
    }
    for m in &net.seen_readys {
        assert_eq!(m.c, c);
        assert_eq!(m.pi_i.number, m.origin);
    }
    for id in 0..4 {
        assert_eq!(net.delivered[id], vec![payload.clone()], "party {}", id);
        assert_eq!(net.echoes[id], 1);
        assert_eq!(net.readys[id], 1);
        assert_eq!(net.nodes[id].rbc_context[&2].status, Status::TERMINATED);
        assert_eq!(net.nodes[id].rbc_context[&2].output_message, payload);
        assert_eq!(net.nodes[id].rbc_context[&2].get_max_echo_count(), (4, Some(c)));
    }
}

#[test]
fn hash_vector_broadcast_with_seven_parties_and_padding() {
    let payload = b"seven parties, two faults".to_vec();
    let mut net = HashNet::new(7, 2, &[]);
    net.start(4, &payload, 0).unwrap();
    net.run(100_000);
    let mut expected = payload.clone();
    expected.extend_from_slice(b"__");
    for id in 0..7 {
        assert_eq!(net.delivered[id], vec![expected.clone()], "party {}", id);
    }
}

#[test]
fn hash_vector_byzantine_originator_stalls_everyone() {
    let mut net = HashNet::new(4, 1, &[0]);
    net.start(0, b"hello", 1).unwrap();
    net.run(10_000);
    for id in 0..4 {
        assert!(net.delivered[id].is_empty());
    }
    for id in 1..4 {
        assert_eq!(net.echoes[id], 0, "an empty shard does not fit the vector");
    }
}

#[test]
fn hash_vector_start_errors() {
    let mut net = HashNet::new(4, 1, &[]);
    assert_eq!(net.start(1, b"", 0), Err(StartError::EmptyPayload));
    assert_eq!(net.start(1, b"abc", 0), Ok(()));
    assert_eq!(net.start(1, b"abc", 0), Err(StartError::NotWaiting));
}

#[test]
fn hash_vector_replayed_ready_is_counted_once() {
    let payload = b"0123456789abcdef".to_vec();
    let mut net = HashNet::new(4, 1, &[]);
    net.start(0, &payload, 3).unwrap();
    net.run(10_000);
    let ready = net.seen_readys[0].duplicate();
    let mut fresh = Context::new(Params::new(4, 1, 3).unwrap(), true, true, HashMap::new());
    assert!(fresh.handle_ready(ready.duplicate(), 3).is_empty());
    for _ in 0..100 {
        assert!(fresh.handle_ready(ready.duplicate(), 3).is_empty());
        assert_eq!(fresh.rbc_context[&3].fragments_hashes.len(), 1);
        assert_eq!(fresh.rbc_context[&3].get_max_ready_count(), (1, Some(ready.c)));
        assert_eq!(fresh.rbc_context[&3].status, Status::WAITING);
    }
}

fn honest_run(payload: &[u8]) -> HashNet {
    let mut net = HashNet::new(4, 1, &[]);
    net.start(1, payload, 5).unwrap();
    net.run(10_000);
    net
}

fn echo_of(net: &HashNet, origin: usize) -> EchoMsg {
    net.seen_echoes.iter().find(|m| m.origin == origin).unwrap().duplicate()
}

fn ready_of(net: &HashNet, origin: usize) -> ReadyMsg {
    net.seen_readys.iter().find(|m| m.origin == origin).unwrap().duplicate()
}

#[test]
fn payload_shards_at_parity_positions_alone_lead_to_delivery() {
    let payload: Vec<u8> = (0..32u8).collect();
    let net = honest_run(&payload);
    let mut party = Context::new(Params::new(4, 1, 0).unwrap(), true, true, HashMap::new());
    assert!(party.handle_echo(echo_of(&net, 2), 5).is_empty());
    assert!(party.handle_echo(echo_of(&net, 3), 5).is_empty());
    assert!(party.handle_ready(ready_of(&net, 1), 5).is_empty());
    assert!(party.handle_ready(ready_of(&net, 3), 5).is_empty());
    let acts = party.handle_ready(ready_of(&net, 2), 5);
    assert_eq!(acts.len(), 1);
    match &acts[0] {
        Action::Deliver(p) => assert_eq!(p, &payload),
        other => panic!("unexpected {:?}", other),
    }
    assert_eq!(party.rbc_context[&5].status, Status::TERMINATED);
    assert_eq!(party.rbc_context[&5].echo_root, Some(ready_of(&net, 1).c));
}

#[test]
fn one_wrong_vector_shard_is_corrected_once_all_four_are_in() {
    let payload: Vec<u8> = (0..32u8).map(|i| i.wrapping_mul(7)).collect();
    let net = honest_run(&payload);
    let mut party = Context::new(Params::new(4, 1, 0).unwrap(), true, true, HashMap::new());
    assert!(party.handle_echo(echo_of(&net, 1), 5).is_empty());
    assert!(party.handle_echo(echo_of(&net, 3), 5).is_empty());
    let mut forged = ready_of(&net, 2);
    for b in forged.pi_i.data.iter_mut() {
        *b ^= 0x5a;
    }
    assert!(party.handle_ready(forged, 5).is_empty());
    assert!(party.handle_ready(ready_of(&net, 0), 5).is_empty());
    // three vector shards, one of them wrong: found out, not corrected
    assert!(party.handle_ready(ready_of(&net, 1), 5).is_empty());
    assert_eq!(party.rbc_context[&5].status, Status::WAITING);
    let acts = party.handle_ready(ready_of(&net, 3), 5);
    assert_eq!(acts.len(), 1);
    match &acts[0] {
        Action::Deliver(p) => assert_eq!(p, &payload),
        other => panic!("unexpected {:?}", other),
    }
}
