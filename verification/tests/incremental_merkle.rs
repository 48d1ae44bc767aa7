use accensa_contracts::error::Error;
use accensa_contracts::incremental_merkle::{
    compute_root, empty, hash_pair, insert, set_slot, slot, IncrementalTree, MAX_DEPTH, MAX_LEAVES,
};
use sha2::{Digest, Sha256};

fn sha(data: &[u8]) -> [u8; 32] {
    Sha256::digest(data).into()
}

/// Reference batch builder: duplicate the last node at every odd level.
fn batch_root(leaves: &[[u8; 32]]) -> [u8; 32] {
    let mut level: Vec<[u8; 32]> = leaves.to_vec();
    while level.len() > 1 {
        if level.len() % 2 == 1 {
            level.push(*level.last().unwrap());
        }
        level = level.chunks(2).map(|p| hash_pair(&p[0], &p[1])).collect();
    }
    level[0]
}

/// Reference proof builder: the sibling of the leaf at every level.
fn batch_proof(leaves: &[[u8; 32]], index: usize) -> Vec<[u8; 32]> {
    let mut proof: Vec<[u8; 32]> = Vec::new();
    let mut level: Vec<[u8; 32]> = leaves.to_vec();
    let mut at: usize = index;
    while level.len() > 1 {
        if level.len() % 2 == 1 {
            level.push(*level.last().unwrap());
        }
        proof.push(level[at ^ 1]);
        level = level.chunks(2).map(|p| hash_pair(&p[0], &p[1])).collect();
        at /= 2;
    }
    proof
}

fn leaves(n: usize) -> Vec<[u8; 32]> {
    (0..n).map(|i| sha(&(i as u64).to_le_bytes())).collect()
}

/// The root of a tree that holds at least one leaf.
fn incremental_root(tree: &IncrementalTree) -> Result<[u8; 32], Error> {
    if tree.count == 0 {
        Err(Error::RootNotFound)
    } else {
        Ok(tree.root)
    }
}

#[test]
fn matches_batch_root_for_every_size() {
    let all = leaves(130);
    let mut tree = empty();
    for (i, leaf) in all.iter().enumerate() {
        let idx = insert(&mut tree, leaf).unwrap();
        assert_eq!(idx, i as u64);
        assert_eq!(
            tree.root,
            batch_root(&all[..=i]),
            "root mismatch at {} leaves",
            i + 1
        );
    }
}

#[test]
fn matches_canonical_sdk_vector() {
    // `five-leaf batch` in merkle-vectors.json: leaves are
    // sha256("accensa-edge-5-{i}").
    let mut tree = empty();
    for i in 0..5 {
        let leaf = sha(format!("accensa-edge-5-{i}").as_bytes());
        insert(&mut tree, &leaf).unwrap();
    }
    let expected: [u8; 32] = [
        0x10, 0xef, 0x69, 0x1d, 0xb1, 0xdb, 0xc4, 0x9b, 0x95, 0xf3, 0x8f, 0xee, 0xf2, 0x01, 0xfa,
        0x5d, 0x26, 0xec, 0x7e, 0xf8, 0x51, 0xfc, 0x81, 0x8c, 0x04, 0x1f, 0xbd, 0x6c, 0x8a, 0x83,
        0x46, 0xf1,
    ];
    assert_eq!(tree.root, expected);
}

#[test]
fn frontier_stays_logarithmic() {
    let mut tree = empty();
    for leaf in leaves(1024) {
        insert(&mut tree, &leaf).unwrap();
    }
    // 1024 = 2^10: eleven levels (0..=10) ever used.
    assert_eq!(tree.frontier.len(), 11 * 32);
}

#[test]
fn supports_depth_thirty_two() {
    // Jump to one leaf short of a full depth-32 tree: every lower level
    // holds a complete subtree, so the last insert carries all the way
    // up to level 32.
    let mut frontier: Vec<u8> = Vec::new();
    let mut full = sha(b"leaf");
    for _ in 0..MAX_DEPTH {
        frontier.extend_from_slice(&full);
        full = hash_pair(&full, &full);
    }
    let mut tree = IncrementalTree {
        count: MAX_LEAVES - 1,
        root: [0u8; 32],
        frontier,
    };
    let idx = insert(&mut tree, &sha(b"leaf")).unwrap();
    assert_eq!(idx, MAX_LEAVES - 1);
    assert_eq!(tree.count, MAX_LEAVES);
    // 2^32 identical leaves: the root is the leaf hashed with itself 32 times.
    assert_eq!(tree.root, full);
    assert_eq!(insert(&mut tree, &sha(b"x")), Err(Error::BatchTooLarge));
}

#[test]
fn insert_returns_sequential_indices_and_tracks_root() {
    let mut tree = empty();
    assert_eq!(tree.count, 0);
    assert_eq!(incremental_root(&tree), Err(Error::RootNotFound));

    assert_eq!(insert(&mut tree, &[1; 32]), Ok(0));
    // A single-leaf tree's root is the leaf itself.
    assert_eq!(incremental_root(&tree), Ok([1; 32]));

    assert_eq!(insert(&mut tree, &[2; 32]), Ok(1));
    assert_eq!(insert(&mut tree, &[3; 32]), Ok(2));
    assert_eq!(tree.count, 3);
}

#[test]
fn batch_proof_verifies_against_incremental_root() {
    let (a, b, c) = ([1u8; 32], [2u8; 32], [3u8; 32]);
    let mut tree = empty();
    for l in [&a, &b, &c] {
        insert(&mut tree, l).unwrap();
    }

    // Three leaves: root = H(H(a, b), H(c, c)). Proof for `c` is [c, H(a, b)].
    let ab = hash_pair(&a, &b);
    let cc = hash_pair(&c, &c);
    let expected = hash_pair(&ab, &cc);
    assert_eq!(incremental_root(&tree), Ok(expected));

    let proof = vec![c, ab];
    let mut folded = c;
    for sibling in proof.iter() {
        folded = hash_pair(&folded, sibling);
    }
    assert_eq!(folded, expected);
}

#[test]
fn every_batch_proof_folds_to_the_incremental_root() {
    let all = leaves(37);
    let mut tree = empty();
    for (i, leaf) in all.iter().enumerate() {
        insert(&mut tree, leaf).unwrap();
        for (j, start) in all[..=i].iter().enumerate() {
            let mut folded = *start;
            for sibling in batch_proof(&all[..=i], j).iter() {
                folded = hash_pair(&folded, sibling);
            }
            assert_eq!(folded, tree.root);
        }
    }
}

#[test]
fn hash_pair_is_the_digest_of_the_sorted_pair() {
    let (lo, hi) = ([1u8; 32], [2u8; 32]);
    let mut both = lo.to_vec();
    both.extend_from_slice(&hi);
    assert_eq!(hash_pair(&lo, &hi), sha(&both));
    assert_eq!(hash_pair(&hi, &lo), sha(&both));

    // The pair is sorted by its first difference, not by its last byte.
    let (mut early, mut late) = ([0u8; 32], [0u8; 32]);
    early[31] = 0xff;
    late[0] = 0x01;
    let mut sorted = early.to_vec();
    sorted.extend_from_slice(&late);
    assert_eq!(hash_pair(&late, &early), sha(&sorted));
}

#[test]
fn hash_pair_has_the_standard_digest() {
    // SHA-256 of 64 zero bytes.
    let expected: [u8; 32] = [
        0xf5, 0xa5, 0xfd, 0x42, 0xd1, 0x6a, 0x20, 0x30, 0x27, 0x98, 0xef, 0x6e, 0xd3, 0x09, 0x97,
        0x9b, 0x43, 0x00, 0x3d, 0x23, 0x20, 0xd9, 0xf0, 0xe8, 0xea, 0x98, 0x31, 0xa9, 0x27, 0x59,
        0xfb, 0x4b,
    ];
    assert_eq!(hash_pair(&[0; 32], &[0; 32]), expected);
}

#[test]
fn an_empty_tree_has_no_leaf() {
    let tree = empty();
    assert_eq!(tree.count, 0);
    assert_eq!(tree.root, [0u8; 32]);
    assert!(tree.frontier.is_empty());
}

#[test]
fn a_full_tree_is_left_alone() {
    let mut tree = IncrementalTree {
        count: MAX_LEAVES,
        root: [9; 32],
        frontier: vec![5; 33 * 32],
    };
    let before = tree.clone();
    assert_eq!(insert(&mut tree, &[1; 32]), Err(Error::BatchTooLarge));
    assert_eq!(tree, before);
}

#[test]
fn equal_leaves_in_equal_order_give_equal_trees() {
    let (mut a, mut b) = (empty(), empty());
    for leaf in leaves(9) {
        insert(&mut a, &leaf).unwrap();
        insert(&mut b, &leaf).unwrap();
    }
    assert_eq!(a.root, b.root);
    insert(&mut b, &[7; 32]).unwrap();
    assert_ne!(a.root, b.root);
}

#[test]
fn slots_of_clear_bits_do_not_matter() {
    let mut tree = empty();
    for leaf in leaves(5) {
        insert(&mut tree, &leaf).unwrap();
    }
    // 5 = 0b101: the slot of level 1 is left over from an earlier count.
    let mut other = tree.clone();
    for byte in other.frontier[32..64].iter_mut() {
        *byte = 0xee;
    }
    assert_ne!(tree.frontier, other.frontier);
    for leaf in leaves(40).iter().rev() {
        insert(&mut tree, leaf).unwrap();
        insert(&mut other, leaf).unwrap();
        assert_eq!(tree.root, other.root);
    }
}

#[test]
fn one_insertion_writes_one_slot() {
    let mut tree = empty();
    for leaf in leaves(6) {
        insert(&mut tree, &leaf).unwrap();
    }
    // 6 = 0b110: the next leaf goes into the slot of level 0.
    let before = tree.frontier.clone();
    insert(&mut tree, &[9; 32]).unwrap();
    assert_eq!(tree.frontier[..32], [9; 32]);
    assert_eq!(tree.frontier[32..], before[32..]);
    assert_eq!(tree.frontier.len(), before.len());
    // 7 = 0b111: the next leaf is carried into a new slot.
    let before = tree.frontier.clone();
    insert(&mut tree, &[8; 32]).unwrap();
    assert_eq!(tree.frontier[..96], before[..]);
    assert_eq!(tree.frontier.len(), 128);
    assert_eq!(tree.frontier[96..], tree.root);
}

#[test]
fn a_longer_frontier_is_used_like_the_tree_it_holds() {
    let mut tree = empty();
    let mut longer = IncrementalTree {
        count: 0,
        root: [0; 32],
        frontier: vec![0xaa; 100],
    };
    for leaf in leaves(7) {
        assert_eq!(
            insert(&mut longer, &leaf).unwrap(),
            insert(&mut tree, &leaf).unwrap()
        );
        assert_eq!(longer.root, tree.root);
        assert_eq!(longer.frontier.len(), 100);
    }
}

#[test]
fn a_slot_is_read_back() {
    let mut frontier: Vec<u8> = vec![1; 96];
    set_slot(&mut frontier, 1, &[7; 32]);
    assert_eq!(slot(&frontier, 0), [1; 32]);
    assert_eq!(slot(&frontier, 1), [7; 32]);
    assert_eq!(slot(&frontier, 2), [1; 32]);
    assert_eq!(frontier.len(), 96);
    set_slot(&mut frontier, 3, &[8; 32]);
    assert_eq!(slot(&frontier, 3), [8; 32]);
    assert_eq!(slot(&frontier, 1), [7; 32]);
    assert_eq!(frontier.len(), 128);
}

#[test]
fn the_root_of_a_frontier_ignores_clear_slots() {
    let (a, b, stale) = ([1u8; 32], [2u8; 32], [9u8; 32]);
    let mut f: Vec<u8> = Vec::new();
    set_slot(&mut f, 0, &a);
    set_slot(&mut f, 1, &stale);
    set_slot(&mut f, 2, &b);
    let mut g = f.clone();
    set_slot(&mut g, 1, &a);
    // 5 = 0b101: the last leaf pairs with itself twice.
    let twice = hash_pair(&hash_pair(&a, &a), &hash_pair(&a, &a));
    assert_eq!(compute_root(&f, 5), hash_pair(&b, &twice));
    assert_eq!(compute_root(&g, 5), compute_root(&f, 5));
    assert_ne!(compute_root(&g, 7), compute_root(&f, 7));
}
