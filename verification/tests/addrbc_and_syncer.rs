use rbc::addrbc::init::Context;
use rbc::addrbc::msg::{Action, Msg, ShareMsg};
use rbc::addrbc::rbc_state::RBCState;
use rbc::codec::get_shards;
use rbc::hash::do_hash;
use rbc::params::Params;
use rbc::share::Share;
use rbc::status::{StartError, Status};
use rbc::syncer::{RBCSyncMsg, SyncAction, SyncEvent, SyncMsg, SyncState, Syncer};

fn party(id: usize, honest: bool) -> Context {
    Context::new(Params::new(4, 1, id).unwrap(), honest, true, std::collections::HashMap::new())
}

#[test]
fn dispersal_start_hands_each_replica_its_fragment() {
    let mut c = party(1, true);
    let acts = c.start_init(b"hello".to_vec(), 0).unwrap();
    let shards = get_shards(b"hello", 2, 4).unwrap();
    let hash = do_hash(b"hello");
    assert_eq!(acts.len(), 4);
    let mut seen = Vec::new();
    for a in &acts[..3] {
        match a {
            Action::Echo(to, m) => {
                assert_eq!(m.share.number, *to);
                assert_eq!(m.share.data, shards[*to]);
                assert_eq!(m.hash, hash);
                assert_eq!(m.origin, 1);
                seen.push(*to);
            }
            other => panic!("unexpected {:?}", other),
        }
    }
    assert_eq!(seen, vec![0, 2, 3]);
    match &acts[3] {
        Action::Sendall(m) => {
            assert_eq!(m.content, b"hello".to_vec());
            assert_eq!(m.origin, 1);
        }
        other => panic!("unexpected {:?}", other),
    }
    let st = &c.rbc_context[&0];
    assert_eq!(st.status, Status::ECHO);
    assert_eq!(st.fragment.data, shards[1]);
    assert_eq!(st.get_max_echo_count(), (1, Some(hash)));
    assert_eq!(st.get_max_ready_count(), (0, None));
}

#[test]
fn dispersal_byzantine_party_hands_out_empty_fragments() {
    let mut c = party(0, false);
    let acts = c.handle_init(Msg { content: b"hello".to_vec(), origin: 0 }, 0);
    assert_eq!(acts.len(), 3);
    for a in acts {
        match a {
            Action::Echo(_, m) => assert!(m.share.data.is_empty()),
            other => panic!("unexpected {:?}", other),
        }
    }
}

#[test]
fn dispersal_ready_after_quorum_of_echoes_once() {
    let mut c = party(0, true);
    c.handle_init(Msg { content: b"hello".to_vec(), origin: 2 }, 0);
    let hash = do_hash(b"hello");
    let shards = get_shards(b"hello", 2, 4).unwrap();
    let echo = |from: usize| ShareMsg {
        share: Share { number: 0, data: shards[0].clone() },
        hash,
        origin: from,
    };
    assert!(c.handle_echo(echo(1), 0).is_empty());
    assert!(c.handle_echo(echo(1), 0).is_empty());
    assert_eq!(c.rbc_context[&0].get_max_echo_count(), (2, Some(hash)));
    let acts = c.handle_echo(echo(2), 0);
    assert_eq!(acts.len(), 1);
    match &acts[0] {
        Action::Ready(m) => {
            assert_eq!(m.hash, hash);
            assert_eq!(m.origin, 0);
            assert_eq!(m.share.data, shards[0]);
        }
        other => panic!("unexpected {:?}", other),
    }
    assert_eq!(c.rbc_context[&0].status, Status::READY);
    assert!(c.rbc_context[&0].sent_ready);
    assert!(c.handle_echo(echo(3), 0).is_empty());
    assert!(c.handle_echo(echo(2), 0).is_empty());
    assert_eq!(c.rbc_context[&0].status, Status::READY);
}

#[test]
fn dispersal_start_errors() {
    let mut c = party(2, true);
    assert_eq!(c.start_init(Vec::new(), 0).map(|a| a.len()), Err(StartError::EmptyPayload));
    assert_eq!(c.start_init(b"x".to_vec(), 0).map(|a| a.len()), Ok(4));
    assert_eq!(c.start_init(b"x".to_vec(), 0).map(|a| a.len()), Err(StartError::NotWaiting));
}

#[test]
fn dispersal_ignores_empty_payload_and_second_payload() {
    let mut c = party(0, true);
    assert!(c.handle_init(Msg { content: Vec::new(), origin: 1 }, 0).is_empty());
    assert_eq!(c.rbc_context[&0].status, Status::INIT);
    assert_eq!(c.handle_init(Msg { content: b"a".to_vec(), origin: 1 }, 0).len(), 3);
    assert!(c.handle_init(Msg { content: b"a".to_vec(), origin: 1 }, 0).is_empty());
    assert_eq!(c.start_echo(b"b".to_vec(), 0).map(|a| a.len()), Err(StartError::NotWaiting));
    assert_eq!(c.start_echo(Vec::new(), 1).map(|a| a.len()), Err(StartError::EmptyPayload));
    assert!(c.rbc_context.get(&1).map_or(true, |s| s.status == Status::INIT));
    assert_eq!(c.start_echo(b"b".to_vec(), 1).map(|a| a.len()), Ok(3));
}

#[test]
fn dispersal_crashed_party_keeps_its_fragment_and_counts_no_own_echo() {
    let mut c = Context::new(
        Params::new(4, 1, 2).unwrap(),
        true,
        false,
        std::collections::HashMap::new(),
    );
    assert_eq!(c.start_init(b"hello".to_vec(), 0).map(|a| a.len()), Ok(0));
    let shards = get_shards(b"hello", 2, 4).unwrap();
    let st = &c.rbc_context[&0];
    assert_eq!(st.fragment.data, shards[2]);
    assert_eq!(st.fragment.number, 2);
    assert_eq!(st.status, Status::ECHO);
    assert_eq!(st.received_echos.len(), 0);
    assert_eq!(st.get_max_echo_count(), (0, None));
}

#[test]
fn dispersal_drops_echoes_after_termination() {
    let mut c = party(0, true);
    c.handle_init(Msg { content: b"hello".to_vec(), origin: 2 }, 0);
    let mut st = c.rbc_context.remove(&0).unwrap();
    st.status = Status::TERMINATED;
    c.rbc_context.insert(0, st);
    let echo = ShareMsg { share: Share { number: 0, data: vec![1] }, hash: do_hash(b"hello"), origin: 3 };
    assert!(c.handle_echo(echo, 0).is_empty());
    assert_eq!(c.rbc_context[&0].received_echos.len(), 1);
    assert_eq!(c.rbc_context[&0].status, Status::TERMINATED);
}

#[test]
fn dispersal_echo_self_counts_own_echo() {
    let mut c = party(3, true);
    let hash = do_hash(b"x");
    assert!(c.echo_self(hash, Share { number: 3, data: vec![1] }, 8).is_empty());
    assert_eq!(c.rbc_context[&8].received_echos.len(), 1);
    assert_eq!(c.rbc_context[&8].received_echos.records[0].origin, 3);
    assert_eq!(RBCState::default().status, Status::INIT);
}

#[test]
fn syncer_runs_one_broadcast() {
    let mut s = Syncer::spawn(3, 4);
    assert_eq!(s.broadcast_msgs, vec![0u8; 4]);
    assert!(s.step(SyncEvent::Tick { now: 5 }).is_empty());
    assert!(s.step(SyncEvent::Alive(0)).is_empty());
    assert!(s.step(SyncEvent::Alive(0)).is_empty());
    assert!(s.step(SyncEvent::Alive(2)).is_empty());
    assert!(!s.ready_for_broadcast);
    assert!(s.step(SyncEvent::Started(1)).is_empty());
    assert!(s.step(SyncEvent::Alive(1)).is_empty());
    assert!(s.ready_for_broadcast);
    let starts = s.step(SyncEvent::Tick { now: 100 });
    assert_eq!(starts.len(), 3);
    for (i, a) in starts.iter().enumerate() {
        match a {
            SyncAction::Start { replica, msg } => {
                assert_eq!(*replica, i);
                assert_eq!(msg.id, 0);
                assert_eq!(msg.msg, vec![0u8; 4]);
            }
            other => panic!("unexpected {:?}", other),
        }
    }
    assert_eq!(s.rbc_id, 1);
    assert_eq!(s.rbc_start_time, Some(100));
    assert!(s.step(SyncEvent::Tick { now: 200 }).is_empty());
    let done = |sender: usize, now: u128| SyncEvent::Completed {
        sender,
        msg: RBCSyncMsg { id: 0, msg: vec![0u8; 4] },
        now,
    };
    assert!(s.step(done(2, 190)).is_empty());
    assert!(s.step(done(0, 130)).is_empty());
    assert!(s.step(done(0, 150)).is_empty());
    let acts = s.step(done(1, 90));
    assert_eq!(acts.len(), 1);
    match &acts[0] {
        SyncAction::Report { id, latencies, agreed } => {
            assert_eq!(*id, 0);
            assert_eq!(latencies, &vec![0u128, 50, 90]);
            assert!(*agreed);
        }
        other => panic!("unexpected {:?}", other),
    }
}

#[test]
fn syncer_reports_disagreement_and_stops_when_nothing_is_left() {
    let mut s = Syncer::spawn(2, 0);
    let events = vec![
        SyncEvent::Alive(1),
        SyncEvent::Alive(0),
        SyncEvent::Tick { now: 10 },
        SyncEvent::Completed { sender: 0, msg: RBCSyncMsg { id: 0, msg: vec![1] }, now: 30 },
        SyncEvent::Completed { sender: 1, msg: RBCSyncMsg { id: 0, msg: vec![2] }, now: 20 },
    ];
    let acts = s.run(events);
    assert_eq!(acts.len(), 5);
    assert!(matches!(acts[0], SyncAction::Start { replica: 0, .. }));
    assert!(matches!(acts[1], SyncAction::Start { replica: 1, .. }));
    match &acts[2] {
        SyncAction::Report { latencies, agreed, .. } => {
            assert_eq!(latencies, &vec![10u128, 20]);
            assert!(!*agreed);
        }
        other => panic!("unexpected {:?}", other),
    }
    assert!(matches!(acts[3], SyncAction::Stop { replica: 0 }));
    assert!(matches!(acts[4], SyncAction::Stop { replica: 1 }));
}

#[test]
fn syncer_without_start_time_reports_it() {
    let mut s = Syncer::spawn(1, 1);
    let acts = s.step(SyncEvent::Completed {
        sender: 0,
        msg: RBCSyncMsg { id: 4, msg: vec![] },
        now: 1,
    });
    assert!(matches!(acts[..], [SyncAction::MissingStart { id: 4 }]));
}

#[test]
fn syncer_broadcast_addresses_every_replica() {
    let s = Syncer::spawn(3, 0);
    let out = s.broadcast(SyncMsg { sender: 3, state: SyncState::STOP, value: vec![7] });
    assert_eq!(out.len(), 3);
    for (i, (to, m)) in out.iter().enumerate() {
        assert_eq!(*to, i);
        assert_eq!(m.sender, 3);
        assert_eq!(m.state, SyncState::STOP);
        assert_eq!(m.value, vec![7]);
    }
}
