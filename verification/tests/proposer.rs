use prism::blockchain::database::{BlockChainDatabase, PROP_TREE_LEADER_VEC_CF};
use prism::blockchain::proposer::{NodeData, ProposerError, Status, Tree};
use prism::crypto::hash::H256;

fn block(tag: u8) -> H256 {
    H256([tag; 32])
}

fn tree_with_genesis() -> Tree {
    let mut tree = Tree::new(BlockChainDatabase::new());
    tree.add_block_at_level(block(0), 0).unwrap();
    tree
}

#[test]
fn genesis_is_leader_with_one_vote_per_voter_chain() {
    let genesis = NodeData::genesis(3);
    assert_eq!(genesis.level, 0);
    assert_eq!(genesis.leadership_status, Status::Leader);
    assert_eq!(genesis.votes, 3);
    let none = NodeData::genesis(0);
    assert_eq!(none.votes, 0);
    assert_eq!(none.leadership_status, Status::Leader);
}

#[test]
fn default_node_is_a_potential_leader_without_votes() {
    let node = NodeData::default();
    assert_eq!(node.level, 0);
    assert_eq!(node.leadership_status, Status::PotentialLeader);
    assert_eq!(node.votes, 0);
}

#[test]
fn votes_move_by_one() {
    let mut node = NodeData { level: 4, leadership_status: Status::PotentialLeader, votes: 0 };
    assert_eq!(node.increment_vote(), Ok(()));
    assert_eq!(node.increment_vote(), Ok(()));
    assert_eq!(node.votes, 2);
    assert_eq!(node.decrement_vote(), Ok(()));
    assert_eq!(node.votes, 1);
    assert_eq!(node.level, 4);
    assert_eq!(node.leadership_status, Status::PotentialLeader);
}

#[test]
fn a_vote_count_does_not_leave_its_range() {
    let mut node = NodeData::default();
    assert_eq!(node.decrement_vote(), Err(ProposerError::ProtocolViolation));
    assert_eq!(node.votes, 0);
    node.votes = u16::MAX;
    assert_eq!(node.increment_vote(), Err(ProposerError::ProtocolViolation));
    assert_eq!(node.votes, u16::MAX);
    assert_eq!(node.decrement_vote(), Ok(()));
    assert_eq!(node.votes, u16::MAX - 1);
}

#[test]
fn any_status_can_be_given_from_any_other() {
    let mut node = NodeData { level: 2, leadership_status: Status::PotentialLeader, votes: 5 };
    node.give_leader_status();
    assert_eq!(node.leadership_status, Status::Leader);
    node.give_not_leader_confirmed_status();
    assert_eq!(node.leadership_status, Status::NotLeaderAndConfirmed);
    node.give_not_leader_status();
    assert_eq!(node.leadership_status, Status::NotLeaderUnconfirmed);
    node.give_potential_leader_status();
    assert_eq!(node.leadership_status, Status::PotentialLeader);
    assert_eq!(node.level, 2);
    assert_eq!(node.votes, 5);
}

#[test]
fn a_new_tree_has_no_blocks() {
    let mut tree = Tree::new(BlockChainDatabase::new());
    assert_eq!(tree.best_block, H256::default());
    assert_eq!(tree.best_level, 0);
    assert!(tree.prop_nodes.is_empty());
    assert!(tree.number_of_votes.is_empty());
    assert_eq!(tree.min_unconfirmed_level, 1);
    assert!(tree.unreferred.is_empty());
    assert!(!tree.contains_leader_block_at(0));
}

#[test]
fn the_first_block_goes_to_level_zero() {
    let mut tree = Tree::new(BlockChainDatabase::new());
    assert_eq!(tree.add_block_at_level(block(1), 1), Err(ProposerError::ProtocolViolation));
    assert!(tree.prop_nodes.is_empty());
    assert_eq!(tree.best_level, 0);
    assert_eq!(tree.best_block, H256::default());
    assert_eq!(tree.add_block_at_level(block(7), 0), Ok(()));
    assert_eq!(tree.prop_nodes, vec![vec![block(7)]]);
    assert_eq!(tree.best_level, 0);
    assert_eq!(tree.best_block, block(7));
}

#[test]
fn there_is_one_level_more_than_the_best_level_after_every_block() {
    let mut tree = Tree::new(BlockChainDatabase::new());
    let levels: [u32; 9] = [0, 1, 1, 2, 0, 3, 2, 4, 4];
    for (i, level) in levels.iter().enumerate() {
        assert_eq!(tree.add_block_at_level(block(i as u8), *level), Ok(()));
        assert_eq!(tree.prop_nodes.len(), tree.best_level as usize + 1);
    }
    assert_eq!(tree.best_level, 4);
    assert_eq!(tree.best_block, block(7));
    assert_eq!(tree.prop_nodes[0], vec![block(0), block(4)]);
    assert_eq!(tree.prop_nodes[4], vec![block(7), block(8)]);
}

#[test]
fn a_level_that_skips_ahead_is_refused_and_changes_nothing() {
    let mut tree = tree_with_genesis();
    tree.add_block_at_level(block(1), 1).unwrap();
    tree.insert_unreferred(block(1));
    tree.increment_vote_at_level(1).unwrap();
    for level in [3u32, 4, 1000, u32::MAX] {
        assert_eq!(
            tree.add_block_at_level(block(9), level),
            Err(ProposerError::ProtocolViolation)
        );
        assert_eq!(tree.prop_nodes, vec![vec![block(0)], vec![block(1)]]);
        assert_eq!(tree.best_level, 1);
        assert_eq!(tree.best_block, block(1));
        assert_eq!(tree.unreferred, vec![block(1)]);
        assert_eq!(tree.number_of_votes.get(&1), Some(&1));
        assert_eq!(tree.min_unconfirmed_level, 1);
    }
    assert_eq!(tree.add_block_at_level(block(2), 2), Ok(()));
    assert_eq!(tree.best_level, 2);
}

#[test]
fn a_fork_joins_its_level_and_leaves_the_frontier() {
    let mut tree = tree_with_genesis();
    tree.add_block_at_level(block(1), 1).unwrap();
    tree.add_block_at_level(block(2), 2).unwrap();
    tree.add_block_at_level(block(3), 1).unwrap();
    assert_eq!(tree.prop_nodes[1], vec![block(1), block(3)]);
    assert_eq!(tree.best_level, 2);
    assert_eq!(tree.best_block, block(2));
    // the same block may be told twice: the tree keeps no set per level
    tree.add_block_at_level(block(3), 1).unwrap();
    assert_eq!(tree.prop_nodes[1], vec![block(1), block(3), block(3)]);
}

#[test]
fn votes_of_a_level_count_the_calls() {
    let mut tree = tree_with_genesis();
    assert_eq!(tree.number_of_votes.get(&5), None);
    for n in 1..=40u32 {
        assert_eq!(tree.increment_vote_at_level(5), Ok(()));
        assert_eq!(tree.number_of_votes.get(&5), Some(&n));
    }
    assert_eq!(tree.number_of_votes.get(&4), None);
    assert_eq!(tree.increment_vote_at_level(4), Ok(()));
    assert_eq!(tree.number_of_votes.get(&4), Some(&1));
    assert_eq!(tree.number_of_votes.get(&5), Some(&40));
}

#[test]
fn votes_of_a_level_do_not_wrap() {
    let mut tree = tree_with_genesis();
    tree.number_of_votes.insert(2, u32::MAX - 1);
    assert_eq!(tree.increment_vote_at_level(2), Ok(()));
    assert_eq!(tree.number_of_votes.get(&2), Some(&u32::MAX));
    assert_eq!(tree.increment_vote_at_level(2), Err(ProposerError::ProtocolViolation));
    assert_eq!(tree.number_of_votes.get(&2), Some(&u32::MAX));
}

#[test]
fn a_level_takes_one_leader() {
    let mut tree = tree_with_genesis();
    assert!(!tree.contains_leader_block_at(6));
    assert_eq!(tree.insert_leader_block(6, block(1)), Ok(()));
    assert!(tree.contains_leader_block_at(6));
    assert_eq!(tree.get_leader_block_at(6), Ok(block(1)));
    assert_eq!(tree.insert_leader_block(6, block(2)), Err(ProposerError::ProtocolViolation));
    assert_eq!(tree.get_leader_block_at(6), Ok(block(1)));
    assert_eq!(tree.insert_leader_block(6, block(1)), Err(ProposerError::ProtocolViolation));
    // other levels are free
    assert!(!tree.contains_leader_block_at(5));
    assert_eq!(tree.insert_leader_block(5, block(2)), Ok(()));
    assert_eq!(tree.get_leader_block_at(5), Ok(block(2)));
    assert_eq!(tree.get_leader_block_at(6), Ok(block(1)));
}

#[test]
fn a_leader_that_is_not_there_cannot_be_read_or_removed() {
    let mut tree = tree_with_genesis();
    assert_eq!(tree.get_leader_block_at(3), Err(ProposerError::NotFound));
    assert_eq!(tree.remove_leader_block(3), Err(ProposerError::NotFound));
    tree.insert_leader_block(3, block(1)).unwrap();
    assert_eq!(tree.remove_leader_block(3), Ok(()));
    assert!(!tree.contains_leader_block_at(3));
    assert_eq!(tree.get_leader_block_at(3), Err(ProposerError::NotFound));
    assert_eq!(tree.remove_leader_block(3), Err(ProposerError::NotFound));
    // after a rollback the level takes a leader again
    assert_eq!(tree.insert_leader_block(3, block(2)), Ok(()));
    assert_eq!(tree.get_leader_block_at(3), Ok(block(2)));
}

#[test]
fn removing_a_leader_leaves_the_others() {
    let mut tree = tree_with_genesis();
    tree.insert_leader_block(1, block(1)).unwrap();
    tree.insert_leader_block(256, block(2)).unwrap();
    tree.insert_leader_block(65536, block(3)).unwrap();
    tree.remove_leader_block(256).unwrap();
    assert_eq!(tree.get_leader_block_at(1), Ok(block(1)));
    assert_eq!(tree.get_leader_block_at(65536), Ok(block(3)));
    assert!(!tree.contains_leader_block_at(256));
}

#[test]
fn leaders_are_stored_under_the_level_in_little_endian() {
    let mut tree = tree_with_genesis();
    tree.insert_leader_block(0x01020304, block(0x5a)).unwrap();
    assert_eq!(
        tree.db.get(PROP_TREE_LEADER_VEC_CF, &[4, 3, 2, 1]),
        Ok(Some(vec![0x5a; 32]))
    );
    assert_eq!(tree.db.get(PROP_TREE_LEADER_VEC_CF, &[1, 2, 3, 4]), Ok(None));
    tree.insert_leader_block(1, block(0x11)).unwrap();
    assert_eq!(tree.db.get(PROP_TREE_LEADER_VEC_CF, &[1, 0, 0, 0]), Ok(Some(vec![0x11; 32])));
}

#[test]
fn a_leader_is_read_from_the_first_32_bytes_of_its_record() {
    let mut db = BlockChainDatabase::new();
    let mut long: Vec<u8> = (0u8..40).collect();
    db.put(PROP_TREE_LEADER_VEC_CF, &[2, 0, 0, 0], &long).unwrap();
    db.put(PROP_TREE_LEADER_VEC_CF, &[3, 0, 0, 0], &[1, 2, 3]).unwrap();
    db.put(PROP_TREE_LEADER_VEC_CF, &[4, 0, 0, 0], &[]).unwrap();
    let mut tree = Tree::new(db);
    long.truncate(32);
    let mut expected = [0u8; 32];
    expected.copy_from_slice(&long);
    assert_eq!(tree.get_leader_block_at(2), Ok(H256(expected)));
    // a record that is too short to be a hash is a fault of the storage
    assert!(tree.contains_leader_block_at(3));
    assert_eq!(tree.get_leader_block_at(3), Err(ProposerError::Storage));
    assert_eq!(tree.get_leader_block_at(4), Err(ProposerError::Storage));
    assert_eq!(tree.insert_leader_block(3, block(1)), Err(ProposerError::ProtocolViolation));
    assert_eq!(tree.remove_leader_block(3), Ok(()));
    assert_eq!(tree.insert_leader_block(3, block(1)), Ok(()));
    assert_eq!(tree.get_leader_block_at(3), Ok(block(1)));
}

#[test]
fn storage_without_the_leader_column_family_fails_every_leader_call() {
    let mut tree = Tree::new(BlockChainDatabase::with_column_families(vec![7]));
    assert_eq!(tree.insert_leader_block(1, block(1)), Err(ProposerError::Storage));
    assert_eq!(tree.get_leader_block_at(1), Err(ProposerError::Storage));
    assert_eq!(tree.remove_leader_block(1), Err(ProposerError::Storage));
    assert!(!tree.contains_leader_block_at(1));
    // the rest of the tree does not depend on the storage
    assert_eq!(tree.add_block_at_level(block(0), 0), Ok(()));
    assert_eq!(tree.increment_vote_at_level(0), Ok(()));
}

#[test]
fn the_unreferred_pool_is_a_set() {
    let mut tree = tree_with_genesis();
    tree.insert_unreferred(block(1));
    tree.insert_unreferred(block(1));
    assert_eq!(tree.unreferred, vec![block(1)]);
    tree.remove_unreferred(&block(1));
    assert!(tree.unreferred.is_empty());
    tree.remove_unreferred(&block(1));
    assert!(tree.unreferred.is_empty());
    tree.insert_unreferred(block(1));
    tree.insert_unreferred(block(2));
    tree.insert_unreferred(block(3));
    tree.remove_unreferred(&block(2));
    assert_eq!(tree.unreferred, vec![block(1), block(3)]);
    tree.remove_unreferred(&block(9));
    assert_eq!(tree.unreferred, vec![block(1), block(3)]);
}

#[test]
fn from_genesis_to_the_first_leader() {
    let genesis = NodeData::genesis(3);
    assert_eq!(genesis.votes, 3);
    assert_eq!(genesis.leadership_status, Status::Leader);
    assert_eq!(genesis.level, 0);
    let mut tree = tree_with_genesis();
    let b1 = block(0xb1);
    let b2 = block(0xb2);
    assert_eq!(tree.add_block_at_level(b1, 1), Ok(()));
    assert_eq!(tree.best_level, 1);
    assert_eq!(tree.best_block, b1);
    assert_eq!(tree.add_block_at_level(b2, 1), Ok(()));
    assert_eq!(tree.prop_nodes[1], vec![b1, b2]);
    assert_eq!(tree.best_level, 1);
    for _ in 0..3 {
        assert_eq!(tree.increment_vote_at_level(1), Ok(()));
    }
    assert_eq!(tree.number_of_votes[&1], 3);
    assert_eq!(tree.insert_leader_block(1, b1), Ok(()));
    assert_eq!(tree.get_leader_block_at(1), Ok(b1));
    assert_eq!(tree.insert_leader_block(1, b2), Err(ProposerError::ProtocolViolation));
    assert_eq!(tree.get_leader_block_at(1), Ok(b1));
}

#[test]
fn the_confirmation_watermark_is_the_callers_to_move() {
    let mut tree = tree_with_genesis();
    tree.add_block_at_level(block(1), 1).unwrap();
    tree.insert_leader_block(1, block(1)).unwrap();
    assert_eq!(tree.min_unconfirmed_level, 1);
    tree.min_unconfirmed_level = 2;
    tree.add_block_at_level(block(2), 2).unwrap();
    tree.increment_vote_at_level(2).unwrap();
    assert_eq!(tree.min_unconfirmed_level, 2);
}
