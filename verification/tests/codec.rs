use rbc::codec::{decode_data, get_shards, reconstruct_data, CodecError};
use rbc::hash::{do_hash, do_mac, verf_mac};
use rbc::merkle::construct_merkle_tree;

#[test]
fn encode_pads_and_keeps_payload_in_data_shards() {
    let shards = get_shards(b"hello", 2, 4).unwrap();
    assert_eq!(shards.len(), 4);
    assert_eq!(shards[0], b"hel".to_vec());
    assert_eq!(shards[1], b"lo_".to_vec());
    assert_eq!(shards[2].len(), 3);
    assert_eq!(shards[3].len(), 3);
    assert_ne!(shards[2], shards[0]);
}

#[test]
fn encode_refuses_codes_outside_range() {
    assert!(get_shards(b"x", 0, 4).is_none());
    assert!(get_shards(b"x", 5, 4).is_none());
    assert!(get_shards(b"x", 2, 257).is_none());
    assert!(get_shards(b"x", 256, 256).is_some());
}

#[test]
fn reconstruct_from_any_three_of_four() {
    let shards = get_shards(b"hello", 2, 4).unwrap();
    for missing in 0..4 {
        let slots: Vec<Option<Vec<u8>>> = (0..4)
            .map(|i| if i == missing { None } else { Some(shards[i].clone()) })
            .collect();
        assert_eq!(reconstruct_data(&slots, 2, 4), Ok(shards.clone()));
    }
}

#[test]
fn reconstruct_from_one_data_and_one_parity_shard() {
    let shards = get_shards(b"hello!", 2, 4).unwrap();
    let slots = vec![None, Some(shards[1].clone()), None, Some(shards[3].clone())];
    assert_eq!(reconstruct_data(&slots, 2, 4), Ok(shards.clone()));
    let slots = vec![Some(shards[0].clone()), None, Some(shards[2].clone()), None];
    assert_eq!(reconstruct_data(&slots, 2, 4), Ok(shards));
}

#[test]
fn reconstruct_from_parity_shards_alone() {
    let shards = get_shards(b"hello", 2, 4).unwrap();
    let parity = vec![None, None, Some(shards[2].clone()), Some(shards[3].clone())];
    assert_eq!(reconstruct_data(&parity, 2, 4), Ok(shards));
    // every choice of k = 3 parity positions out of the four of the (3, 7) code
    let shards = get_shards(b"parity shards only!!", 3, 7).unwrap();
    for left_out in 3..7 {
        let slots: Vec<Option<Vec<u8>>> = (0..7)
            .map(|i| if i < 3 || i == left_out { None } else { Some(shards[i].clone()) })
            .collect();
        assert_eq!(reconstruct_data(&slots, 3, 7), Ok(shards.clone()), "without {}", left_out);
    }
    // one shard under the (1, 4) code, at each position
    let shards = get_shards(b"x", 1, 4).unwrap();
    for at in 0..4 {
        let slots: Vec<Option<Vec<u8>>> =
            (0..4).map(|i| if i == at { Some(shards[i].clone()) } else { None }).collect();
        assert_eq!(reconstruct_data(&slots, 1, 4), Ok(shards.clone()), "from {}", at);
    }
    // a wrong parity shard among exactly k is told by the comparison
    let shards = get_shards(b"hello", 2, 4).unwrap();
    let wrong = vec![None, None, Some(shards[2].clone()), Some(vec![9u8, 9, 9])];
    let rebuilt = reconstruct_data(&wrong, 2, 4).unwrap();
    assert_ne!(rebuilt, shards);
    assert_eq!(rebuilt[2], shards[2]);
    assert_eq!(rebuilt[3], vec![9u8, 9, 9]);
}

#[test]
fn reconstruct_errors() {
    let shards = get_shards(b"hello", 2, 4).unwrap();
    let one = vec![Some(shards[0].clone()), None, None, None];
    assert_eq!(reconstruct_data(&one, 2, 4), Err(CodecError::TooFewShards));
    let short = vec![Some(shards[0].clone()), Some(vec![1u8]), None, None];
    assert_eq!(reconstruct_data(&short, 2, 4), Err(CodecError::LengthMismatch));
    let wrong = vec![
        Some(shards[0].clone()),
        Some(shards[1].clone()),
        Some(vec![0u8, 0, 0]),
        None,
    ];
    assert_eq!(reconstruct_data(&wrong, 2, 4), Err(CodecError::Inconsistent));
    assert_eq!(reconstruct_data(&one, 0, 4), Err(CodecError::BadParameters));
    assert_eq!(reconstruct_data(&one, 2, 5), Err(CodecError::BadParameters));
}

#[test]
fn sha256_of_abc() {
    let h = do_hash(b"abc");
    assert_eq!(
        h.to_vec(),
        vec![
            0xba, 0x78, 0x16, 0xbf, 0x8f, 0x01, 0xcf, 0xea, 0x41, 0x41, 0x40, 0xde, 0x5d, 0xae,
            0x22, 0x23, 0xb0, 0x03, 0x61, 0xa3, 0x96, 0x17, 0x7a, 0x9c, 0xb4, 0x10, 0xff, 0x61,
            0xf2, 0x00, 0x15, 0xad
        ]
    );
}

#[test]
fn mac_accepts_own_tag_only() {
    let tag = do_mac(b"message", b"key");
    assert!(verf_mac(b"message", b"key", &tag));
    assert!(!verf_mac(b"message!", b"key", &tag));
    assert!(!verf_mac(b"message", b"yek", &tag));
    assert!(!verf_mac(b"message", b"key", &tag[..31]));
    assert_ne!(tag, do_hash(b"message"));
}

#[test]
fn every_generated_proof_validates() {
    for n in 1..10usize {
        let shards: Vec<Vec<u8>> = (0..n).map(|i| vec![i as u8; 3]).collect();
        let tree = construct_merkle_tree(&shards);
        for i in 0..n {
            let proof = tree.gen_proof(i);
            assert_eq!(proof.root(), tree.root());
            assert!(proof.validate(&shards[i]));
            assert!(!proof.validate(b"other"));
            if n > 1 {
                assert!(!proof.validate(&shards[(i + 1) % n]));
            }
        }
    }
}

#[test]
fn any_quorum_of_shards_gives_back_the_payload() {
    // n = 7, f = 2: any n - f = 5 positions, payload is a multiple of f + 1
    let payload = b"exactly 21 bytes long".to_vec();
    let shards = get_shards(&payload, 3, 7).unwrap();
    for a in 0..7 {
        for b in (a + 1)..7 {
            let slots: Vec<Option<Vec<u8>>> = (0..7)
                .map(|i| if i == a || i == b { None } else { Some(shards[i].clone()) })
                .collect();
            let all = reconstruct_data(&slots, 3, 7).unwrap();
            assert_eq!(all, shards);
            assert_eq!(all[..3].concat(), payload);
        }
    }
}

#[test]
fn single_byte_and_boundary_payloads_encode() {
    let one = get_shards(&[9u8], 2, 4).unwrap();
    assert_eq!(one[0], vec![9u8]);
    assert_eq!(one[1], vec![b'_']);
    assert!(one.iter().all(|s| s.len() == 1));
    let eight: Vec<u8> = (0..8).collect();
    let full = get_shards(&eight, 2, 4).unwrap();
    assert_eq!(full[0], vec![0, 1, 2, 3]);
    assert_eq!(full[1], vec![4, 5, 6, 7]);
    let nine: Vec<u8> = (0..9).collect();
    let over = get_shards(&nine, 2, 4).unwrap();
    assert!(over.iter().all(|s| s.len() == 5));
    assert_eq!(over[1], vec![5, 6, 7, 8, b'_']);
    assert!(get_shards(&[], 2, 4).unwrap().iter().all(|s| s.is_empty()));
}

#[test]
fn tree_of_encoded_shards_validates_every_position() {
    let shards = get_shards(b"merkle over shards", 3, 7).unwrap();
    let tree = construct_merkle_tree(&shards);
    assert_eq!(tree.num_leaves(), 7);
    for i in 0..7 {
        let p = tree.gen_proof(i);
        assert_eq!(p.index, i);
        assert_eq!(p.leaves, 7);
        assert!(p.validate(&shards[i]));
        let mut bad = p.duplicate();
        bad.index = (i + 1) % 7;
        assert!(!bad.validate(&shards[i]));
        let mut short = p.duplicate();
        short.path.pop();
        assert!(!short.validate(&shards[i]));
        let mut out = p.duplicate();
        out.index = 7;
        assert!(!out.validate(&shards[i]));
    }
}

#[test]
fn empty_tree_has_the_hash_of_nothing_as_root() {
    let tree = construct_merkle_tree(&Vec::new());
    assert_eq!(tree.num_leaves(), 0);
    assert_eq!(tree.root(), do_hash(b""));
    let one = construct_merkle_tree(&vec![b"only".to_vec()]);
    assert_eq!(one.root(), do_hash(b"only"));
    let p = one.gen_proof(0);
    assert!(p.path.is_empty());
    assert!(p.validate(b"only"));
    let two = construct_merkle_tree(&vec![b"l".to_vec(), b"r".to_vec()]);
    let mut joined = do_hash(b"l").to_vec();
    joined.extend_from_slice(&do_hash(b"r"));
    assert_eq!(two.root(), do_hash(&joined));
    assert_eq!(two.gen_proof(0).path, vec![do_hash(b"r")]);
    assert_eq!(two.gen_proof(1).path, vec![do_hash(b"l")]);
    let three = construct_merkle_tree(&vec![b"l".to_vec(), b"r".to_vec(), b"x".to_vec()]);
    let mut top = do_hash(&joined).to_vec();
    top.extend_from_slice(&do_hash(b"x"));
    assert_eq!(three.root(), do_hash(&top));
    assert_eq!(three.gen_proof(2).path, vec![do_hash(&joined)]);
}

#[test]
fn decoder_corrects_one_wrong_shard_of_four() {
    let payload = b"hello!".to_vec();
    let shards = get_shards(&payload, 2, 4).unwrap();
    let all: Vec<Option<Vec<u8>>> = shards.iter().cloned().map(Some).collect();
    assert_eq!(decode_data(&all, 2, 4), Ok(payload.clone()));
    for bad in 0..4 {
        let mut slots = all.clone();
        slots[bad] = Some(vec![0xaa, 0xbb, 0xcc]);
        assert_eq!(decode_data(&slots, 2, 4), Ok(payload.clone()), "wrong shard {}", bad);
        assert_eq!(reconstruct_data(&slots, 2, 4), Err(CodecError::Inconsistent));
    }
}

#[test]
fn decoder_needs_two_shards_more_for_each_wrong_one() {
    let payload = b"hello!".to_vec();
    let shards = get_shards(&payload, 2, 4).unwrap();
    // three shards, one of them wrong: found out, not corrected
    let slots = vec![Some(shards[0].clone()), Some(vec![1u8, 2, 3]), Some(shards[2].clone()), None];
    assert_eq!(decode_data(&slots, 2, 4), Err(CodecError::DecodeFailed));
    // two shards: nothing to hold them against
    let slots = vec![Some(shards[0].clone()), Some(vec![1u8, 2, 3]), None, None];
    assert_eq!(decode_data(&slots, 2, 4), Ok(vec![shards[0].clone(), vec![1u8, 2, 3]].concat()));
    // parity shards alone
    let slots = vec![None, None, Some(shards[2].clone()), Some(shards[3].clone())];
    assert_eq!(decode_data(&slots, 2, 4), Ok(payload.clone()));
    // seven shards of the (3, 7) code, two of them wrong
    let long = b"twenty-one bytes long".to_vec();
    let seven = get_shards(&long, 3, 7).unwrap();
    let mut slots: Vec<Option<Vec<u8>>> = seven.iter().cloned().map(Some).collect();
    slots[1] = Some(vec![0u8; 7]);
    slots[5] = Some(vec![0xffu8; 7]);
    assert_eq!(decode_data(&slots, 3, 7), Ok(long));
}

#[test]
fn decoder_errors() {
    let shards = get_shards(b"hello", 2, 4).unwrap();
    let one = vec![Some(shards[0].clone()), None, None, None];
    assert_eq!(decode_data(&one, 2, 4), Err(CodecError::TooFewShards));
    let short = vec![Some(shards[0].clone()), Some(vec![1u8]), None, None];
    assert_eq!(decode_data(&short, 2, 4), Err(CodecError::LengthMismatch));
    assert_eq!(decode_data(&one, 3, 2), Err(CodecError::BadParameters));
    assert_eq!(decode_data(&one, 2, 3), Err(CodecError::BadParameters));
}
