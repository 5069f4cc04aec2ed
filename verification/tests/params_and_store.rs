use rbc::codec::{get_shards, reconstruct_data, select_pieces, check_against, CodecError};
use rbc::hash::do_hash;
use rbc::params::Params;
use rbc::status::Status;
use rbc::store::ShardStore;

#[test]
fn thresholds_at_the_smallest_network() {
    let p = Params::new(4, 1, 0).unwrap();
    assert_eq!(p.vote_threshold(), 2);
    assert_eq!(p.early_ready_threshold(), 2);
    assert_eq!(p.optimistic_threshold(), 2);
    assert_eq!(p.latched_threshold(), 2);
    assert_eq!(p.quorum(), 3);
    assert_eq!(p.amplification_threshold(), 2);
    assert_eq!(p.ready_latch_threshold(), 3);
}

#[test]
fn thresholds_with_seven_and_ten_parties() {
    let p = Params::new(7, 2, 6).unwrap();
    assert_eq!(p.vote_threshold(), 4);
    assert_eq!(p.early_ready_threshold(), 4);
    assert_eq!(p.optimistic_threshold(), 5);
    assert_eq!(p.latched_threshold(), 3);
    assert_eq!(p.quorum(), 5);
    assert_eq!(p.amplification_threshold(), 3);
    assert_eq!(p.ready_latch_threshold(), 5);
    let p = Params::new(10, 3, 0).unwrap();
    assert_eq!(p.vote_threshold(), 5);
    assert_eq!(p.early_ready_threshold(), 6);
    assert_eq!(p.optimistic_threshold(), 7);
    assert_eq!(p.latched_threshold(), 4);
    assert_eq!(p.quorum(), 7);
    let p = Params::new(1, 0, 0).unwrap();
    assert_eq!(p.vote_threshold(), 1);
    assert_eq!(p.early_ready_threshold(), 0);
    assert_eq!(p.optimistic_threshold(), 0);
    assert_eq!(p.quorum(), 1);
}

#[test]
fn parameters_need_n_above_3f_within_the_code_and_a_valid_id() {
    assert!(Params::new(3, 1, 0).is_none());
    assert!(Params::new(4, 1, 4).is_none());
    assert!(Params::new(257, 1, 0).is_none());
    assert!(Params::new(0, 0, 0).is_none());
    assert!(Params::new(256, 85, 255).is_some());
    assert!(Params::new(256, 86, 0).is_none());
    assert!(Params::new(4, usize::MAX, 0).is_none());
}

#[test]
fn status_only_advances() {
    let order = [
        Status::WAITING,
        Status::INIT,
        Status::ECHO,
        Status::READY,
        Status::OUTPUT,
        Status::TERMINATED,
    ];
    for (i, a) in order.iter().enumerate() {
        assert_eq!(a.rank_of() as usize, i);
        for (j, b) in order.iter().enumerate() {
            let later = a.advance(*b);
            assert_eq!(later, if j > i { *b } else { *a });
        }
    }
}

#[test]
fn store_counts_per_root_and_finds_the_first_mode() {
    let a = do_hash(b"a");
    let b = do_hash(b"b");
    let mut s = ShardStore::new();
    assert_eq!(s.mode(), (0, None));
    s.insert(a, 1, 1, vec![1]);
    s.insert(b, 1, 1, vec![2]);
    s.insert(b, 2, 2, vec![3]);
    assert_eq!(s.mode(), (2, Some(b)));
    s.insert(a, 3, 3, vec![4]);
    assert_eq!(s.mode(), (2, Some(b)), "the first root to reach the maximum stays");
    s.insert(a, 0, 0, vec![5]);
    assert_eq!(s.mode(), (3, Some(a)));
    assert_eq!(s.count(&a), 3);
    assert_eq!(s.count(&b), 2);
    assert_eq!(s.count(&do_hash(b"c")), 0);
    assert_eq!(s.len(), 5);
    assert_eq!(s.get(&a, 3), Some(&vec![4u8]));
    assert_eq!(s.get(&b, 3), None);
    assert!(s.contains(&b, 2));
    assert_eq!(
        s.slots(&a, 4),
        vec![Some(vec![5u8]), Some(vec![1u8]), None, Some(vec![4u8])]
    );
}

#[test]
fn selection_and_check_around_the_decoder() {
    let shards = get_shards(b"hello!", 2, 4).unwrap();
    let slots = vec![Some(shards[0].clone()), None, Some(shards[2].clone()), None];
    assert_eq!(
        select_pieces(&slots, 2, 4),
        Ok((vec![0usize, 2], vec![shards[0].clone(), shards[2].clone()]))
    );
    assert_eq!(select_pieces(&slots, 3, 4), Err(CodecError::TooFewShards));
    assert_eq!(check_against(&slots, shards.clone()), Ok(shards.clone()));
    let mut other = shards.clone();
    other[2][0] ^= 1;
    assert_eq!(check_against(&slots, other.clone()), Err(CodecError::Inconsistent));
    other[2][0] ^= 1;
    other[1][0] ^= 1;
    assert_eq!(check_against(&slots, other.clone()), Ok(other));
}

#[test]
fn largest_code_decodes_from_one_data_and_one_parity_shard() {
    let payload = b"ab".to_vec();
    let shards = get_shards(&payload, 2, 256).unwrap();
    assert_eq!(shards.len(), 256);
    for j in 2..256 {
        let mut slots: Vec<Option<Vec<u8>>> = vec![None; 256];
        slots[0] = Some(shards[0].clone());
        slots[j] = Some(shards[j].clone());
        assert_eq!(reconstruct_data(&slots, 2, 256), Ok(shards.clone()));
    }
}
