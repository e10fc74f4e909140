use prism::blockchain::database::{BlockChainDatabase, DatabaseError, PROP_TREE_LEADER_VEC_CF};

#[test]
fn a_new_database_has_the_leader_column_family_and_nothing_in_it() {
    let db = BlockChainDatabase::new();
    assert!(db.has_column_family(PROP_TREE_LEADER_VEC_CF));
    assert!(!db.has_column_family(1));
    assert_eq!(db.get(PROP_TREE_LEADER_VEC_CF, &[]), Ok(None));
    assert_eq!(db.get(PROP_TREE_LEADER_VEC_CF, &[0, 0, 0, 0]), Ok(None));
}

#[test]
fn what_is_put_is_got() {
    let mut db = BlockChainDatabase::new();
    assert_eq!(db.put(PROP_TREE_LEADER_VEC_CF, &[1, 2], &[3, 4, 5]), Ok(()));
    assert_eq!(db.get(PROP_TREE_LEADER_VEC_CF, &[1, 2]), Ok(Some(vec![3, 4, 5])));
    assert_eq!(db.get(PROP_TREE_LEADER_VEC_CF, &[1]), Ok(None));
    assert_eq!(db.get(PROP_TREE_LEADER_VEC_CF, &[1, 2, 0]), Ok(None));
    assert_eq!(db.put(PROP_TREE_LEADER_VEC_CF, &[], &[]), Ok(()));
    assert_eq!(db.get(PROP_TREE_LEADER_VEC_CF, &[]), Ok(Some(vec![])));
}

#[test]
fn a_second_put_replaces_the_value() {
    let mut db = BlockChainDatabase::new();
    db.put(PROP_TREE_LEADER_VEC_CF, &[1], &[1, 1]).unwrap();
    db.put(PROP_TREE_LEADER_VEC_CF, &[2], &[2, 2]).unwrap();
    db.put(PROP_TREE_LEADER_VEC_CF, &[1], &[9]).unwrap();
    assert_eq!(db.get(PROP_TREE_LEADER_VEC_CF, &[1]), Ok(Some(vec![9])));
    assert_eq!(db.get(PROP_TREE_LEADER_VEC_CF, &[2]), Ok(Some(vec![2, 2])));
}

#[test]
fn delete_drops_one_entry() {
    let mut db = BlockChainDatabase::new();
    db.put(PROP_TREE_LEADER_VEC_CF, &[1], &[1]).unwrap();
    db.put(PROP_TREE_LEADER_VEC_CF, &[2], &[2]).unwrap();
    db.put(PROP_TREE_LEADER_VEC_CF, &[3], &[3]).unwrap();
    assert_eq!(db.delete(PROP_TREE_LEADER_VEC_CF, &[2]), Ok(()));
    assert_eq!(db.get(PROP_TREE_LEADER_VEC_CF, &[1]), Ok(Some(vec![1])));
    assert_eq!(db.get(PROP_TREE_LEADER_VEC_CF, &[2]), Ok(None));
    assert_eq!(db.get(PROP_TREE_LEADER_VEC_CF, &[3]), Ok(Some(vec![3])));
    // deleting what is not there is no fault
    assert_eq!(db.delete(PROP_TREE_LEADER_VEC_CF, &[2]), Ok(()));
    assert_eq!(db.delete(PROP_TREE_LEADER_VEC_CF, &[8]), Ok(()));
}

#[test]
fn column_families_keep_their_entries_apart() {
    let mut db = BlockChainDatabase::with_column_families(vec![3, 4]);
    assert!(db.has_column_family(3));
    assert!(db.has_column_family(4));
    assert!(!db.has_column_family(PROP_TREE_LEADER_VEC_CF));
    db.put(3, &[1], &[33]).unwrap();
    db.put(4, &[1], &[44]).unwrap();
    assert_eq!(db.get(3, &[1]), Ok(Some(vec![33])));
    assert_eq!(db.get(4, &[1]), Ok(Some(vec![44])));
    db.delete(3, &[1]).unwrap();
    assert_eq!(db.get(3, &[1]), Ok(None));
    assert_eq!(db.get(4, &[1]), Ok(Some(vec![44])));
}

#[test]
fn an_unknown_column_family_fails_every_call() {
    let mut db = BlockChainDatabase::with_column_families(vec![]);
    assert_eq!(db.get(PROP_TREE_LEADER_VEC_CF, &[1]), Err(DatabaseError::UnknownColumnFamily));
    assert_eq!(
        db.put(PROP_TREE_LEADER_VEC_CF, &[1], &[1]),
        Err(DatabaseError::UnknownColumnFamily)
    );
    assert_eq!(db.delete(PROP_TREE_LEADER_VEC_CF, &[1]), Err(DatabaseError::UnknownColumnFamily));
}
