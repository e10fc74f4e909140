use vstd::prelude::*;
use vstd::slice::slice_to_vec;

verus! {

/// The column family that maps a proposer level to the leader block of that level.
pub const PROP_TREE_LEADER_VEC_CF: u32 = 0;

/// Why a storage operation failed.
#[derive(Clone, Copy, Debug, PartialEq, Eq, Structural)]
pub enum DatabaseError {
    /// The column family named in the call was never created.
    UnknownColumnFamily,
}

/// One stored pair, in one column family.
struct Record {
    family: u32,
    key: Vec<u8>,
    value: Vec<u8>,
}

/// What a database holds: which column families exist, and the value stored under
/// each pair of column family and key.
pub struct DatabaseView {
    pub families: Set<u32>,
    pub entries: Map<(u32, Seq<u8>), Seq<u8>>,
}

impl DatabaseView {
    /// The value stored under `key` in `family`, if any.
    pub open spec fn get(self, family: u32, key: Seq<u8>) -> Option<Seq<u8>> {
        if self.entries.contains_key((family, key)) {
            Some(self.entries[(family, key)])
        } else {
            None
        }
    }

    /// The database after `value` is stored under `key` in `family`.
    pub open spec fn put(self, family: u32, key: Seq<u8>, value: Seq<u8>) -> DatabaseView {
        DatabaseView { families: self.families, entries: self.entries.insert((family, key), value) }
    }

    /// The database after the entry under `key` in `family` is dropped.
    pub open spec fn delete(self, family: u32, key: Seq<u8>) -> DatabaseView {
        DatabaseView { families: self.families, entries: self.entries.remove((family, key)) }
    }
}

/// A keyed byte store, divided into column families.
pub struct BlockChainDatabase {
    families: Vec<u32>,
    records: Vec<Record>,
}

/// Whether the record at `i` is stored under `key` in `family`.
spec fn record_matches(records: Seq<Record>, i: int, family: u32, key: Seq<u8>) -> bool {
    0 <= i < records.len() && records[i].family == family && records[i].key@ == key
}

/// No two records share a column family and a key.
spec fn records_distinct(records: Seq<Record>) -> bool {
    forall|i: int, j: int|
        0 <= i < j < records.len() ==> !(records[i].family == records[j].family
            && records[i].key@ == records[j].key@)
}

/// The map that a list of records stands for.
spec fn records_to_map(records: Seq<Record>) -> Map<(u32, Seq<u8>), Seq<u8>> {
    Map::new(
        |k: (u32, Seq<u8>)| exists|i: int| record_matches(records, i, k.0, k.1),
        |k: (u32, Seq<u8>)| records[choose|i: int| record_matches(records, i, k.0, k.1)].value@,
    )
}

fn bytes_equal(a: &[u8], b: &[u8]) -> (equal: bool)
    ensures
        equal == (a@ == b@),
{
    if a.len() != b.len() {
        return false;
    }
    let mut i: usize = 0;
    while i < a.len()
        invariant
            i <= a.len(),
            a.len() == b.len(),
            forall|j: int| 0 <= j < i ==> a@[j] == b@[j],
        decreases a.len() - i,
    {
        if a[i] != b[i] {
            return false;
        }
        i += 1;
    }
    proof {
        assert(a@ =~= b@);
    }
    true
}

impl View for BlockChainDatabase {
    type V = DatabaseView;

    closed spec fn view(&self) -> DatabaseView {
        DatabaseView { families: self.families@.to_set(), entries: records_to_map(self.records@) }
    }
}

impl BlockChainDatabase {
    /// The stored records are consistent: one value per column family and key, each
    /// in a column family that exists.
    pub closed spec fn wf(&self) -> bool {
        &&& records_distinct(self.records@)
        &&& forall|i: int|
            0 <= i < self.records@.len() ==> self.families@.contains(
                #[trigger] self.records@[i].family,
            )
    }

    /// A database with the leader column family and no entries.
    pub fn new() -> (db: Self)
        ensures
            db.wf(),
            db@.families == set![PROP_TREE_LEADER_VEC_CF],
            db@.entries == Map::<(u32, Seq<u8>), Seq<u8>>::empty(),
    {
        let mut families: Vec<u32> = Vec::new();
        families.push(PROP_TREE_LEADER_VEC_CF);
        let db = BlockChainDatabase { families, records: Vec::new() };
        proof {
            assert(db.families@ =~= seq![PROP_TREE_LEADER_VEC_CF]);
            assert(db.families@.to_set() =~= set![PROP_TREE_LEADER_VEC_CF]) by {
                assert forall|f: u32|
                    db.families@.to_set().contains(f) <==> set![PROP_TREE_LEADER_VEC_CF].contains(
                        f,
                    ) by {
                    if f == PROP_TREE_LEADER_VEC_CF {
                        assert(db.families@[0] == f);
                    }
                }
            }
            assert(records_to_map(db.records@) =~= Map::<(u32, Seq<u8>), Seq<u8>>::empty());
        }
        db
    }

    /// A database with the given column families and no entries.
    pub fn with_column_families(families: Vec<u32>) -> (db: Self)
        ensures
            db.wf(),
            db@.families == families@.to_set(),
            db@.entries == Map::<(u32, Seq<u8>), Seq<u8>>::empty(),
    {
        let db = BlockChainDatabase { families, records: Vec::new() };
        proof {
            assert(records_to_map(db.records@) =~= Map::<(u32, Seq<u8>), Seq<u8>>::empty());
        }
        db
    }

    /// Whether the column family `family` exists.
    pub fn has_column_family(&self, family: u32) -> (present: bool)
        ensures
            present == self@.families.contains(family),
    {
        let mut i: usize = 0;
        while i < self.families.len()
            invariant
                i <= self.families.len(),
                forall|j: int| 0 <= j < i ==> self.families@[j] != family,
            decreases self.families.len() - i,
        {
            if self.families[i] == family {
                return true;
            }
            i += 1;
        }
        false
    }

    fn position(&self, family: u32, key: &[u8]) -> (found: Option<usize>)
        ensures
            match found {
                Some(i) => record_matches(self.records@, i as int, family, key@),
                None => forall|i: int| !record_matches(self.records@, i, family, key@),
            },
    {
        let mut i: usize = 0;
        while i < self.records.len()
            invariant
                i <= self.records.len(),
                forall|j: int| 0 <= j < i ==> !record_matches(self.records@, j, family, key@),
            decreases self.records.len() - i,
        {
            if self.records[i].family == family && bytes_equal(
                self.records[i].key.as_slice(),
                key,
            ) {
                return Some(i);
            }
            i += 1;
        }
        None
    }

    /// Reads the value stored under `key` in `family`.
    pub fn get(&self, family: u32, key: &[u8]) -> (found: Result<Option<Vec<u8>>, DatabaseError>)
        requires
            self.wf(),
        ensures
            self@.families.contains(family) ==> found is Ok,
            !self@.families.contains(family) ==> found == Err::<Option<Vec<u8>>, DatabaseError>(
                DatabaseError::UnknownColumnFamily,
            ),
            found matches Ok(value) ==> match value {
                Some(bytes) => self@.get(family, key@) == Some(bytes@),
                None => self@.get(family, key@) is None,
            },
    {
        if !self.has_column_family(family) {
            return Err(DatabaseError::UnknownColumnFamily);
        }
        match self.position(family, key) {
            Some(i) => {
                let bytes = slice_to_vec(self.records[i].value.as_slice());
                proof {
                    Self::lemma_lookup(self.records@, i as int);
                }
                Ok(Some(bytes))
            },
            None => {
                proof {
                    assert(!records_to_map(self.records@).contains_key((family, key@)));
                }
                Ok(None)
            },
        }
    }

    /// Stores `value` under `key` in `family`, in place of any value stored there.
    pub fn put(&mut self, family: u32, key: &[u8], value: &[u8]) -> (done: Result<
        (),
        DatabaseError,
    >)
        requires
            old(self).wf(),
        ensures
            final(self).wf(),
            old(self)@.families.contains(family) ==> done is Ok && final(self)@ == old(self)@.put(
                family,
                key@,
                value@,
            ),
            !old(self)@.families.contains(family) ==> done == Err::<(), DatabaseError>(
                DatabaseError::UnknownColumnFamily,
            ) && final(self)@ == old(self)@,
    {
        if !self.has_column_family(family) {
            return Err(DatabaseError::UnknownColumnFamily);
        }
        let ghost before = self.records@;
        match self.position(family, key) {
            Some(i) => {
                let record = Record {
                    family,
                    key: slice_to_vec(key),
                    value: slice_to_vec(value),
                };
                self.records.set(i, record);
                proof {
                    Self::lemma_update(before, self.records@, i as int, family, key@, value@);
                }
            },
            None => {
                let record = Record {
                    family,
                    key: slice_to_vec(key),
                    value: slice_to_vec(value),
                };
                self.records.push(record);
                proof {
                    Self::lemma_push(before, self.records@, family, key@, value@);
                }
            },
        }
        Ok(())
    }

    /// Drops the entry under `key` in `family`. Where there is none, nothing changes.
    pub fn delete(&mut self, family: u32, key: &[u8]) -> (done: Result<(), DatabaseError>)
        requires
            old(self).wf(),
        ensures
            final(self).wf(),
            old(self)@.families.contains(family) ==> done is Ok && final(self)@ == old(
                self,
            )@.delete(family, key@),
            !old(self)@.families.contains(family) ==> done == Err::<(), DatabaseError>(
                DatabaseError::UnknownColumnFamily,
            ) && final(self)@ == old(self)@,
    {
        if !self.has_column_family(family) {
            return Err(DatabaseError::UnknownColumnFamily);
        }
        let ghost before = self.records@;
        match self.position(family, key) {
            Some(i) => {
                self.records.remove(i);
                proof {
                    Self::lemma_remove(before, self.records@, i as int, family, key@);
                }
            },
            None => {
                proof {
                    assert(records_to_map(before).remove((family, key@)) =~= records_to_map(
                        before,
                    ));
                }
            },
        }
        Ok(())
    }

    proof fn lemma_lookup(records: Seq<Record>, i: int)
        requires
            records_distinct(records),
            0 <= i < records.len(),
        ensures
            records_to_map(records).contains_key((records[i].family, records[i].key@)),
            records_to_map(records)[(records[i].family, records[i].key@)] == records[i].value@,
    {
        let k = (records[i].family, records[i].key@);
        assert(record_matches(records, i, k.0, k.1));
        let picked = choose|j: int| record_matches(records, j, k.0, k.1);
        assert(picked == i);
    }

    proof fn lemma_update(
        before: Seq<Record>,
        after: Seq<Record>,
        i: int,
        family: u32,
        key: Seq<u8>,
        value: Seq<u8>,
    )
        requires
            records_distinct(before),
            record_matches(before, i, family, key),
            after.len() == before.len(),
            after[i].family == family,
            after[i].key@ == key,
            after[i].value@ == value,
            forall|j: int| 0 <= j < before.len() && j != i ==> after[j] == before[j],
        ensures
            records_distinct(after),
            records_to_map(after) == records_to_map(before).insert((family, key), value),
    {
        assert(records_distinct(after)) by {
            assert forall|a: int, b: int| 0 <= a < b < after.len() implies !(after[a].family
                == after[b].family && after[a].key@ == after[b].key@) by {
                assert(before[a].family == after[a].family && before[a].key@ == after[a].key@);
                assert(before[b].family == after[b].family && before[b].key@ == after[b].key@);
            }
        }
        let expected = records_to_map(before).insert((family, key), value);
        assert forall|k: (u32, Seq<u8>)| #[trigger]
            records_to_map(after).contains_key(k) implies expected.contains_key(k) by {
            let j = choose|j: int| record_matches(after, j, k.0, k.1);
            assert(record_matches(before, j, k.0, k.1));
        }
        assert forall|k: (u32, Seq<u8>)| #[trigger] expected.contains_key(k) implies (
        records_to_map(after).contains_key(k) && records_to_map(after)[k] == expected[k]) by {
            if k == (family, key) {
                Self::lemma_lookup(after, i);
            } else {
                let j = choose|j: int| record_matches(before, j, k.0, k.1);
                assert(j != i);
                assert(record_matches(after, j, k.0, k.1));
                Self::lemma_lookup(after, j);
                Self::lemma_lookup(before, j);
            }
        }
        assert(records_to_map(after) =~= expected);
    }

    proof fn lemma_push(
        before: Seq<Record>,
        after: Seq<Record>,
        family: u32,
        key: Seq<u8>,
        value: Seq<u8>,
    )
        requires
            records_distinct(before),
            forall|i: int| !record_matches(before, i, family, key),
            after.len() == before.len() + 1,
            after.last().family == family,
            after.last().key@ == key,
            after.last().value@ == value,
            forall|j: int| 0 <= j < before.len() ==> after[j] == before[j],
        ensures
            records_distinct(after),
            records_to_map(after) == records_to_map(before).insert((family, key), value),
    {
        let n = before.len() as int;
        assert(records_distinct(after)) by {
            assert forall|a: int, b: int| 0 <= a < b < after.len() implies !(after[a].family
                == after[b].family && after[a].key@ == after[b].key@) by {
                if b == n {
                    assert(!record_matches(before, a, family, key));
                }
            }
        }
        let expected = records_to_map(before).insert((family, key), value);
        assert forall|k: (u32, Seq<u8>)| #[trigger]
            records_to_map(after).contains_key(k) implies expected.contains_key(k) by {
            let j = choose|j: int| record_matches(after, j, k.0, k.1);
            if j < n {
                assert(record_matches(before, j, k.0, k.1));
            }
        }
        assert forall|k: (u32, Seq<u8>)| #[trigger] expected.contains_key(k) implies (
        records_to_map(after).contains_key(k) && records_to_map(after)[k] == expected[k]) by {
            if k == (family, key) {
                Self::lemma_lookup(after, n);
            } else {
                let j = choose|j: int| record_matches(before, j, k.0, k.1);
                assert(record_matches(after, j, k.0, k.1));
                Self::lemma_lookup(after, j);
                Self::lemma_lookup(before, j);
            }
        }
        assert(records_to_map(after) =~= expected);
    }

    proof fn lemma_remove(
        before: Seq<Record>,
        after: Seq<Record>,
        i: int,
        family: u32,
        key: Seq<u8>,
    )
        requires
            records_distinct(before),
            record_matches(before, i, family, key),
            after == before.remove(i),
        ensures
            records_distinct(after),
            records_to_map(after) == records_to_map(before).remove((family, key)),
    {
        assert(records_distinct(after)) by {
            assert forall|a: int, b: int| 0 <= a < b < after.len() implies !(after[a].family
                == after[b].family && after[a].key@ == after[b].key@) by {
                let a0 = if a < i { a } else { a + 1 };
                let b0 = if b < i { b } else { b + 1 };
                assert(after[a] == before[a0]);
                assert(after[b] == before[b0]);
            }
        }
        let expected = records_to_map(before).remove((family, key));
        assert forall|k: (u32, Seq<u8>)| #[trigger]
            records_to_map(after).contains_key(k) implies expected.contains_key(k) by {
            let j = choose|j: int| record_matches(after, j, k.0, k.1);
            let j0 = if j < i { j } else { j + 1 };
            assert(after[j] == before[j0]);
            assert(record_matches(before, j0, k.0, k.1));
        }
        assert forall|k: (u32, Seq<u8>)| #[trigger] expected.contains_key(k) implies (
        records_to_map(after).contains_key(k) && records_to_map(after)[k] == expected[k]) by {
            let j0 = choose|j: int| record_matches(before, j, k.0, k.1);
            assert(j0 != i);
            let j = if j0 < i { j0 } else { j0 - 1 };
            assert(after[j] == before[j0]);
            assert(record_matches(after, j, k.0, k.1));
            Self::lemma_lookup(after, j);
            Self::lemma_lookup(before, j0);
        }
        assert(records_to_map(after) =~= expected);
    }
}

} // verus!
