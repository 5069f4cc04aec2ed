use rbc::addrbc::init::{Context as Party, WrapperMsg as Wrapped};
use rbc::addrbc::msg::{Action as Act, Msg, ProtMsg as Prot, ShareMsg};
use rbc::ctrbc::context::{Context, WrapperMsg};
use rbc::ctrbc::msg::{Action, CTRBCMsg, ProtMsg};
use rbc::ctrbc::step::Config;
use rbc::hash::do_mac;
use rbc::params::Params;
use rbc::syncer::SyncState;
use std::collections::HashMap;

fn keyed(id: usize) -> Context {
    let mut keys = HashMap::new();
    for peer in 0..4usize {
        keys.insert(peer, vec![peer as u8; 16]);
    }
    keys.insert(9, vec![9u8; 16]);
    Context::new(Config { params: Params::new(4, 1, id).unwrap(), optimistic: false }, true, true, keys)
}

fn init_for(to: usize) -> CTRBCMsg {
    let mut origin = keyed(0);
    let acts = origin.start_init(b"hello".to_vec(), 0).unwrap();
    for a in acts {
        if let Action::Init(t, m) = a {
            if t == to {
                return m;
            }
        }
    }
    panic!("no INIT for {}", to);
}

fn wrap(m: CTRBCMsg, sender: usize, key: &[u8]) -> WrapperMsg {
    let encoded = b"the encoded message".to_vec();
    let mac = do_mac(&encoded, key).to_vec();
    WrapperMsg { protmsg: ProtMsg::Init(m, 0), encoded, sender, mac }
}

#[test]
fn dispatcher_takes_an_authentic_message() {
    let mut c = keyed(1);
    let w = wrap(init_for(1), 0, &[0u8; 16]);
    assert!(c.check_proposal(&w));
    let acts = c.process_msg(w);
    assert_eq!(acts.len(), 1);
    assert!(matches!(acts[0], Action::Echo(_)));
}

#[test]
fn dispatcher_drops_a_wrong_tag() {
    let mut c = keyed(1);
    let w = wrap(init_for(1), 0, &[1u8; 16]);
    assert!(!c.check_proposal(&w));
    assert!(c.process_msg(w).is_empty());
    assert!(c.rbc_context.get(&0).is_none());
}

#[test]
fn dispatcher_takes_every_message_whose_tag_holds() {
    // replica 2 passes on the originator's INIT under its own, valid tag
    let mut c = keyed(1);
    let w = wrap(init_for(1), 2, &[2u8; 16]);
    assert!(c.check_proposal(&w));
    assert_eq!(c.process_msg(w).len(), 1);
    // a sender with a key that is no replica of the network
    let mut c = keyed(1);
    let mut m = init_for(1);
    m.origin = 9;
    assert_eq!(c.process_msg(wrap(m, 9, &[9u8; 16])).len(), 1);
}

#[test]
fn dispatcher_drops_senders_without_a_key() {
    let mut c = keyed(1);
    let mut m = init_for(1);
    m.origin = 7;
    assert!(c.process_msg(wrap(m, 7, &[7u8; 16])).is_empty());
    assert!(c.rbc_context.get(&0).is_none());
}

#[test]
fn terminate_builds_the_completed_report() {
    let c = keyed(3);
    let m = c.terminate(b"payload".to_vec());
    assert_eq!(m.sender, 3);
    assert_eq!(m.state, SyncState::COMPLETED);
    assert_eq!(m.value, b"payload".to_vec());
}

fn vector_party(id: usize) -> rbc::ccbrb::process::Context {
    let mut keys = HashMap::new();
    for peer in 0..4usize {
        keys.insert(peer, vec![peer as u8 + 1; 8]);
    }
    rbc::ccbrb::process::Context::new(Params::new(4, 1, id).unwrap(), true, true, keys)
}

fn send_for(to: usize) -> rbc::ccbrb::msg::SendMsg {
    let mut origin = vector_party(0);
    for a in origin.start_init(b"payload!".to_vec(), 6).unwrap() {
        if let rbc::ccbrb::msg::Action::Send(t, m) = a {
            if t == to {
                return m;
            }
        }
    }
    panic!("no SEND for {}", to);
}

#[test]
fn vector_dispatcher_checks_the_tag() {
    let wrap = |m: rbc::ccbrb::msg::SendMsg, sender: usize, key: &[u8]| {
        let encoded = vec![1u8, 2, 3];
        let mac = do_mac(&encoded, key).to_vec();
        rbc::ccbrb::process::WrapperMsg {
            protmsg: rbc::ccbrb::msg::ProtMsg::Init(m, 6),
            encoded,
            sender,
            mac,
        }
    };
    let mut c = vector_party(2);
    assert!(c.process_msg(wrap(send_for(2), 0, &[9u8; 8])).is_empty(), "wrong key");
    assert!(c.process_msg(wrap(send_for(2), 5, &[6u8; 8])).is_empty(), "no key");
    assert!(c.process_msg(wrap(send_for(3), 0, &[1u8; 8])).is_empty(), "another's shard");
    assert!(c.rbc_context.get(&6).map_or(true, |s| s.fragments_data.len() == 0));
    let acts = c.process_msg(wrap(send_for(2), 1, &[2u8; 8]));
    assert_eq!(acts.len(), 1);
    match &acts[0] {
        rbc::ccbrb::msg::Action::Echo(m) => {
            assert_eq!(m.origin, 2);
            assert_eq!(m.d_i.number, 2);
            assert_eq!(m.pi_i.number, 2);
            assert_eq!(m.id, 6);
        }
        other => panic!("unexpected {:?}", other),
    }
    let m = c.terminate(vec![1, 2]);
    assert_eq!((m.sender, m.state, m.value), (2, SyncState::COMPLETED, vec![1, 2]));
}

#[test]
fn vector_echo_goes_out_under_the_instance_it_was_taken_for() {
    let mut c = vector_party(3);
    let mut send = send_for(3);
    send.id = 77;
    let acts = c.handle_init(send, 6);
    assert_eq!(acts.len(), 1);
    match &acts[0] {
        rbc::ccbrb::msg::Action::Echo(m) => assert_eq!(m.id, 6),
        other => panic!("unexpected {:?}", other),
    }
}

#[test]
fn vector_start_echo_never_goes_back_in_phase() {
    let mut c = vector_party(1);
    assert_eq!(c.start_echo(send_for(1), 0).len(), 1);
    assert_eq!(c.rbc_context[&0].status, rbc::status::Status::ECHO);
    assert!(c.start_echo(send_for(1), 0).is_empty());
    let mut st = c.rbc_context.remove(&0).unwrap();
    st.status = rbc::status::Status::TERMINATED;
    st.output_message = vec![1, 2, 3];
    c.rbc_context.insert(0, st);
    assert!(c.start_echo(send_for(1), 0).is_empty());
    assert!(c.handle_init(send_for(1), 0).is_empty());
    assert_eq!(c.rbc_context[&0].status, rbc::status::Status::TERMINATED);
    assert_eq!(c.rbc_context[&0].fragments_data.len(), 1);
}

#[test]
fn vector_start_is_taken_in_the_init_phase() {
    let mut c = vector_party(1);
    let mut st = rbc::ccbrb::rbc_state::RBCState::new();
    st.status = rbc::status::Status::INIT;
    c.rbc_context.insert(4, st);
    let acts = c.start_init(b"started from INIT".to_vec(), 4).unwrap();
    assert_eq!(acts.len(), 4);
    assert_eq!(c.rbc_context[&4].status, rbc::status::Status::ECHO);
    assert_eq!(
        c.start_init(b"again".to_vec(), 4).map(|a| a.len()),
        Err(rbc::status::StartError::NotWaiting)
    );
}

#[test]
fn start_ready_acts_only_in_the_ready_phase() {
    let mut c = vector_party(1);
    let share = rbc::share::Share { number: 1, data: vec![5; 4] };
    assert!(c.start_ready([7u8; 32], share.duplicate(), 0).is_empty());
    let acts = c.start_echo(send_for(1), 0);
    assert_eq!(acts.len(), 1);
    assert!(c.start_ready([7u8; 32], share.duplicate(), 0).is_empty());
    assert_eq!(c.rbc_context[&0].fragments_hashes.len(), 0);
}

#[test]
fn dispersal_dispatcher_checks_the_tag() {
    let mut keys = HashMap::new();
    for peer in 0..4usize {
        keys.insert(peer, vec![peer as u8; 4]);
    }
    let mut c = Party::new(Params::new(4, 1, 1).unwrap(), true, true, keys);
    let wrap = |protmsg: Prot, sender: usize, key: &[u8]| {
        let encoded = vec![0u8; 9];
        let mac = do_mac(&encoded, key).to_vec();
        Wrapped { protmsg, encoded, sender, mac }
    };
    let payload = || Msg { content: b"abc".to_vec(), origin: 0 };
    assert!(c.process_msg(wrap(Prot::Sendall(payload(), 0), 0, &[1u8; 4])).is_empty());
    assert!(c.process_msg(wrap(Prot::Sendall(payload(), 0), 8, &[8u8; 4])).is_empty());
    let acts = c.process_msg(wrap(Prot::Sendall(payload(), 0), 2, &[2u8; 4]));
    assert_eq!(acts.len(), 3);
    assert!(c.process_msg(wrap(Prot::Sendall(payload(), 0), 0, &[0u8; 4])).is_empty());
    assert!(acts.iter().all(|a| matches!(a, Act::Echo(_, _))));
    let ready = ShareMsg {
        share: rbc::share::Share { number: 2, data: vec![1] },
        hash: [0u8; 32],
        origin: 2,
    };
    assert!(c.process_msg(wrap(Prot::Ready(ready, 0), 2, &[2u8; 4])).is_empty());
    assert_eq!(c.rbc_context[&0].received_readys.len(), 0);
}
