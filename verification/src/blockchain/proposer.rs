use crate::blockchain::database::{BlockChainDatabase, DatabaseView, PROP_TREE_LEADER_VEC_CF};
use crate::blockchain::encoding::{deserialize_bytes32, serialize_bytes32, serialize_u32};
use crate::crypto::hash::H256;
use std::collections::HashMap;
use vstd::bytes::spec_u32_to_le_bytes;
use vstd::prelude::*;

verus! {

broadcast use vstd::std_specs::hash::group_hash_axioms;

/// Why an operation on proposer metadata was refused. Every variant is fatal: the
/// caller must not retry.
#[derive(Clone, Copy, Debug, PartialEq, Eq, Structural)]
pub enum ProposerError {
    /// The call breaks a rule of the protocol: a level that skips ahead, a second
    /// leader for one level, a vote count that would leave its range.
    ProtocolViolation,
    /// No leader is recorded at the level asked for.
    NotFound,
    /// The storage underneath failed, or holds bytes that are no block hash.
    Storage,
}

/// The leader status of a proposer block.
#[derive(Clone, Copy, Debug, PartialEq, Eq, Structural, PartialOrd, Ord, Hash)]
pub enum Status {
    /// The leader of this level.
    Leader,
    /// Eligible to become the leader of this level.
    PotentialLeader,
    /// Another block of this level was chosen leader, and that choice is not yet
    /// confirmed.
    NotLeaderUnconfirmed,
    /// Known not to be the leader, confirmed by a leader block further down.
    NotLeaderAndConfirmed,
}

/// The metadata of a proposer block.
#[derive(Clone, Copy, Debug, PartialEq, Eq, Structural, PartialOrd, Ord, Hash)]
pub struct NodeData {
    /// Level of the proposer node.
    pub level: u32,
    /// Leadership status.
    pub leadership_status: Status,
    /// Number of votes from voter blocks on the main chains.
    pub votes: u16,
}

impl Default for NodeData {
    fn default() -> (data: Self)
        ensures
            data == (NodeData { level: 0, leadership_status: Status::PotentialLeader, votes: 0 }),
    {
        NodeData { level: 0, leadership_status: Status::PotentialLeader, votes: 0 }
    }
}

impl NodeData {
    /// Generates the metadata of the genesis block: level 0, leader, with one vote
    /// from each voter chain.
    pub fn genesis(number_of_voter_chains: u16) -> (data: Self)
        ensures
            data == (NodeData {
                level: 0,
                leadership_status: Status::Leader,
                votes: number_of_voter_chains,
            }),
    {
        let mut genesis = NodeData::default();
        genesis.leadership_status = Status::Leader;
        genesis.votes = number_of_voter_chains;
        genesis
    }

    /// Counts one more vote. Refused, with nothing changed, when the count is at the
    /// top of its range.
    pub fn increment_vote(&mut self) -> (done: Result<(), ProposerError>)
        ensures
            old(self).votes < u16::MAX ==> done is Ok && *final(self) == (NodeData {
                votes: (old(self).votes + 1) as u16,
                ..*old(self)
            }),
            old(self).votes == u16::MAX ==> done == Err::<(), ProposerError>(
                ProposerError::ProtocolViolation,
            ) && *final(self) == *old(self),
    {
        if self.votes == u16::MAX {
            return Err(ProposerError::ProtocolViolation);
        }
        self.votes += 1;
        Ok(())
    }

    /// Counts one vote less. Refused, with nothing changed, when there is no vote to
    /// take away.
    pub fn decrement_vote(&mut self) -> (done: Result<(), ProposerError>)
        ensures
            old(self).votes > 0 ==> done is Ok && *final(self) == (NodeData {
                votes: (old(self).votes - 1) as u16,
                ..*old(self)
            }),
            old(self).votes == 0 ==> done == Err::<(), ProposerError>(
                ProposerError::ProtocolViolation,
            ) && *final(self) == *old(self),
    {
        if self.votes == 0 {
            return Err(ProposerError::ProtocolViolation);
        }
        self.votes -= 1;
        Ok(())
    }

    /// Marks the block as the leader of its level.
    pub fn give_leader_status(&mut self)
        ensures
            *final(self) == (NodeData { leadership_status: Status::Leader, ..*old(self) }),
    {
        self.leadership_status = Status::Leader
    }

    /// Marks the block as eligible to become the leader of its level.
    pub fn give_potential_leader_status(&mut self)
        ensures
            *final(self) == (NodeData {
                leadership_status: Status::PotentialLeader,
                ..*old(self)
            }),
    {
        self.leadership_status = Status::PotentialLeader
    }

    /// Marks the block as passed over for a leader that is not yet confirmed.
    pub fn give_not_leader_status(&mut self)
        ensures
            *final(self) == (NodeData {
                leadership_status: Status::NotLeaderUnconfirmed,
                ..*old(self)
            }),
    {
        self.leadership_status = Status::NotLeaderUnconfirmed
    }

    /// Marks the block as known not to be the leader of its level.
    pub fn give_not_leader_confirmed_status(&mut self)
        ensures
            *final(self) == (NodeData {
                leadership_status: Status::NotLeaderAndConfirmed,
                ..*old(self)
            }),
    {
        self.leadership_status = Status::NotLeaderAndConfirmed
    }
}

/// What a proposer tree holds, as mathematical values.
pub struct TreeView {
    pub best_block: H256,
    pub best_level: u32,
    pub prop_nodes: Seq<Seq<H256>>,
    pub number_of_votes: Map<u32, u32>,
    pub min_unconfirmed_level: u32,
    pub unreferred: Set<H256>,
    pub db: DatabaseView,
}

/// The key under which the leader of `level` is stored.
pub open spec fn leader_key(level: u32) -> Seq<u8> {
    spec_u32_to_le_bytes(level)
}

impl TreeView {
    /// The levels are populated without a gap from level 0 up to the best level, no
    /// level is empty, and the best block is the block that opened the deepest level.
    pub open spec fn wf(self) -> bool {
        &&& self.prop_nodes.len() == 0 ==> self.best_level == 0
        &&& self.prop_nodes.len() > 0 ==> self.prop_nodes.len() == self.best_level + 1
        &&& forall|l: int|
            0 <= l < self.prop_nodes.len() ==> (#[trigger] self.prop_nodes[l]).len() > 0
        &&& self.prop_nodes.len() > 0 ==> self.best_block
            == self.prop_nodes[self.best_level as int][0]
    }

    /// Whether a block may be added at `level`: at a level that exists, or at the one
    /// right after the deepest. A tree without blocks takes its first block at level 0.
    pub open spec fn accepts_level(self, level: u32) -> bool {
        level <= self.prop_nodes.len()
    }

    /// The tree after `block` is added at `level`, for a level that it accepts.
    pub open spec fn with_block(self, block: H256, level: u32) -> TreeView {
        if level < self.prop_nodes.len() {
            TreeView {
                prop_nodes: self.prop_nodes.update(
                    level as int,
                    self.prop_nodes[level as int].push(block),
                ),
                ..self
            }
        } else {
            TreeView {
                prop_nodes: self.prop_nodes.push(seq![block]),
                best_block: block,
                best_level: level,
                ..self
            }
        }
    }

    /// The votes counted at `level`; a level without votes reads as 0.
    pub open spec fn votes_at(self, level: u32) -> nat {
        if self.number_of_votes.contains_key(level) {
            self.number_of_votes[level] as nat
        } else {
            0
        }
    }

    /// The tree after one more vote is counted at `level`.
    pub open spec fn with_vote(self, level: u32) -> TreeView {
        TreeView {
            number_of_votes: self.number_of_votes.insert(
                level,
                (self.votes_at(level) + 1) as u32,
            ),
            ..self
        }
    }

    /// The tree after `hash` joins the unreferred pool.
    pub open spec fn with_unreferred(self, hash: H256) -> TreeView {
        TreeView { unreferred: self.unreferred.insert(hash), ..self }
    }

    /// The tree after `hash` leaves the unreferred pool.
    pub open spec fn without_unreferred(self, hash: H256) -> TreeView {
        TreeView { unreferred: self.unreferred.remove(hash), ..self }
    }

    /// Whether the storage has the column family of the leaders.
    pub open spec fn storage_ready(self) -> bool {
        self.db.families.contains(PROP_TREE_LEADER_VEC_CF)
    }

    /// The bytes recorded for the leader of `level`, if a leader is recorded there.
    pub open spec fn leader_record(self, level: u32) -> Option<Seq<u8>> {
        if self.storage_ready() {
            self.db.get(PROP_TREE_LEADER_VEC_CF, leader_key(level))
        } else {
            None
        }
    }

    /// The tree after `hash` is recorded as the leader of `level`.
    pub open spec fn with_leader(self, level: u32, hash: H256) -> TreeView {
        TreeView { db: self.db.put(PROP_TREE_LEADER_VEC_CF, leader_key(level), hash@), ..self }
    }

    /// The tree after the record of the leader of `level` is dropped.
    pub open spec fn without_leader(self, level: u32) -> TreeView {
        TreeView { db: self.db.delete(PROP_TREE_LEADER_VEC_CF, leader_key(level)), ..self }
    }

    /// How an attempt to add a block at `level` ends.
    pub open spec fn add_block_outcome(self, level: u32) -> Result<(), ProposerError> {
        if self.accepts_level(level) {
            Ok(())
        } else {
            Err(ProposerError::ProtocolViolation)
        }
    }

    /// How an attempt to count one more vote at `level` ends.
    pub open spec fn increment_vote_outcome(self, level: u32) -> Result<(), ProposerError> {
        if self.votes_at(level) < u32::MAX {
            Ok(())
        } else {
            Err(ProposerError::ProtocolViolation)
        }
    }

    /// How an attempt to record a leader at `level` ends: a level takes one leader,
    /// once.
    pub open spec fn insert_leader_outcome(self, level: u32) -> Result<(), ProposerError> {
        if !self.storage_ready() {
            Err(ProposerError::Storage)
        } else if self.leader_record(level) is Some {
            Err(ProposerError::ProtocolViolation)
        } else {
            Ok(())
        }
    }

    /// How an attempt to drop the leader of `level` ends.
    pub open spec fn remove_leader_outcome(self, level: u32) -> Result<(), ProposerError> {
        if !self.storage_ready() {
            Err(ProposerError::Storage)
        } else if self.leader_record(level) is None {
            Err(ProposerError::NotFound)
        } else {
            Ok(())
        }
    }

    /// What a lookup of the leader of `level` gives: the bytes of its hash, which are
    /// the first 32 bytes of the record.
    pub open spec fn get_leader_outcome(self, level: u32) -> Result<Seq<u8>, ProposerError> {
        if !self.storage_ready() {
            Err(ProposerError::Storage)
        } else {
            match self.leader_record(level) {
                None => Err(ProposerError::NotFound),
                Some(bytes) => if bytes.len() >= 32 {
                    Ok(bytes.subrange(0, 32))
                } else {
                    Err(ProposerError::Storage)
                },
            }
        }
    }
}

/// The metadata of a proposer block tree.
pub struct Tree {
    /// The storage that holds the leader of each level.
    pub db: BlockChainDatabase,
    /// The best proposer node on the tree (the node with the deepest level).
    pub best_block: H256,
    /// The deepest level.
    pub best_level: u32,
    /// The hashes of proposer blocks, stored by level.
    pub prop_nodes: Vec<Vec<H256>>,
    /// The number of votes at each level.
    pub number_of_votes: HashMap<u32, u32>,
    /// The lowest level whose leader is not yet confirmed.
    pub min_unconfirmed_level: u32,
    /// The pool of unreferred proposer blocks, each held once.
    pub unreferred: Vec<H256>,
}

impl View for Tree {
    type V = TreeView;

    open spec fn view(&self) -> TreeView {
        TreeView {
            best_block: self.best_block,
            best_level: self.best_level,
            prop_nodes: Seq::new(self.prop_nodes@.len(), |l: int| self.prop_nodes@[l]@),
            number_of_votes: self.number_of_votes@,
            min_unconfirmed_level: self.min_unconfirmed_level,
            unreferred: self.unreferred@.to_set(),
            db: self.db@,
        }
    }
}

impl Tree {
    /// The tree is consistent: its storage is, its levels are (see `TreeView::wf`),
    /// and no hash stands twice in the unreferred pool.
    pub open spec fn wf(&self) -> bool {
        &&& self.db.wf()
        &&& self@.wf()
        &&& self.unreferred@.no_duplicates()
    }

    /// A tree without blocks over the storage `db`.
    pub fn new(db: BlockChainDatabase) -> (tree: Self)
        requires
            db.wf(),
        ensures
            tree.wf(),
            tree.best_block@ == Seq::new(32, |i: int| 0u8),
            tree@ == (TreeView {
                best_block: tree.best_block,
                best_level: 0,
                prop_nodes: Seq::<Seq<H256>>::empty(),
                number_of_votes: Map::<u32, u32>::empty(),
                min_unconfirmed_level: 1,
                unreferred: Set::<H256>::empty(),
                db: db@,
            }),
    {
        let best_block = H256::default();
        let prop_nodes: Vec<Vec<H256>> = Vec::new();
        let all_votes: HashMap<u32, u32> = HashMap::<u32, u32>::new();
        let unreferred: Vec<H256> = Vec::new();
        let tree = Tree {
            db,
            best_block,
            best_level: 0,
            prop_nodes,
            number_of_votes: all_votes,
            min_unconfirmed_level: 1,
            unreferred,
        };
        proof {
            assert(tree@.prop_nodes =~= Seq::<Seq<H256>>::empty());
            assert(tree@.unreferred =~= Set::<H256>::empty());
        }
        tree
    }

    /// Adds a proposer block at the given level: to the blocks of a level that
    /// exists, or as the first block of the level right after the deepest, which then
    /// becomes the best level with this block as the best block. Any other level is a
    /// protocol violation, and the tree stays as it was.
    pub fn add_block_at_level(&mut self, block: H256, level: u32) -> (done: Result<
        (),
        ProposerError,
    >)
        requires
            old(self).wf(),
        ensures
            final(self).wf(),
            done == old(self)@.add_block_outcome(level),
            done is Ok ==> final(self)@ == old(self)@.with_block(block, level),
            done is Err ==> *final(self) == *old(self),
            done is Ok ==> final(self)@.prop_nodes.len() == final(self)@.best_level + 1,
    {
        let depth = self.prop_nodes.len();
        if (level as usize) < depth {
            let ghost before = self.prop_nodes@;
            self.prop_nodes[level as usize].push(block);
            proof {
                assert(self.prop_nodes@.len() == before.len());
                assert(self@.prop_nodes =~= old(self)@.with_block(block, level).prop_nodes);
            }
            Ok(())
        } else if level as usize == depth {
            let mut opened: Vec<H256> = Vec::new();
            opened.push(block);
            self.prop_nodes.push(opened);
            self.best_block = block;
            self.best_level = level;
            proof {
                assert(self@.prop_nodes =~= old(self)@.with_block(block, level).prop_nodes);
            }
            Ok(())
        } else {
            Err(ProposerError::ProtocolViolation)
        }
    }

    /// Adds a vote to the given level; the first vote of a level makes its count 1.
    /// Refused, with nothing changed, when the count is at the top of its range.
    pub fn increment_vote_at_level(&mut self, level: u32) -> (done: Result<(), ProposerError>)
        requires
            old(self).wf(),
        ensures
            final(self).wf(),
            done == old(self)@.increment_vote_outcome(level),
            done is Ok ==> final(self)@ == old(self)@.with_vote(level),
            done is Err ==> *final(self) == *old(self),
    {
        let counted: u32 = match self.number_of_votes.get(&level) {
            Some(votes) => *votes,
            None => 0,
        };
        if counted == u32::MAX {
            return Err(ProposerError::ProtocolViolation);
        }
        self.number_of_votes.insert(level, counted + 1);
        proof {
            assert(self@.prop_nodes =~= old(self)@.prop_nodes);
        }
        Ok(())
    }

    fn unreferred_position(&self, hash: &H256) -> (found: Option<usize>)
        ensures
            match found {
                Some(i) => i < self.unreferred@.len() && self.unreferred@[i as int] == *hash,
                None => !self.unreferred@.contains(*hash),
            },
    {
        let mut i: usize = 0;
        while i < self.unreferred.len()
            invariant
                i <= self.unreferred.len(),
                forall|j: int| 0 <= j < i ==> self.unreferred@[j] != *hash,
            decreases self.unreferred.len() - i,
        {
            if self.unreferred[i] == *hash {
                proof {
                    H256::lemma_view_injective(self.unreferred@[i as int], *hash);
                }
                return Some(i);
            }
            i += 1;
        }
        None
    }

    /// Inserts an entry to the unreferred proposer block pool. A hash that is in the
    /// pool stays there once.
    pub fn insert_unreferred(&mut self, hash: H256)
        requires
            old(self).wf(),
        ensures
            final(self).wf(),
            final(self)@ == old(self)@.with_unreferred(hash),
    {
        match self.unreferred_position(&hash) {
            Some(_) => {
                proof {
                    assert(self@.unreferred =~= old(self)@.unreferred.insert(hash));
                }
            },
            None => {
                self.unreferred.push(hash);
                proof {
                    let before = old(self).unreferred@;
                    let after = self.unreferred@;
                    assert forall|h: H256| after.to_set().contains(h) <==> before.to_set().insert(
                        hash,
                    ).contains(h) by {
                        if after.contains(h) {
                            let i = choose|i: int| 0 <= i < after.len() && after[i] == h;
                            if i < before.len() {
                                assert(before[i] == h);
                            }
                        }
                        if before.contains(h) {
                            let i = choose|i: int| 0 <= i < before.len() && before[i] == h;
                            assert(after[i] == h);
                        }
                        if h == hash {
                            assert(after[before.len() as int] == h);
                        }
                    }
                    assert(self@.unreferred =~= old(self)@.unreferred.insert(hash));
                    assert(self@.prop_nodes =~= old(self)@.prop_nodes);
                }
            },
        }
    }

    /// Removes an entry from the unreferred proposer block pool. A hash that is not
    /// in the pool changes nothing.
    pub fn remove_unreferred(&mut self, hash: &H256)
        requires
            old(self).wf(),
        ensures
            final(self).wf(),
            final(self)@ == old(self)@.without_unreferred(*hash),
    {
        match self.unreferred_position(hash) {
            Some(i) => {
                self.unreferred.remove(i);
                proof {
                    let before = old(self).unreferred@;
                    let after = self.unreferred@;
                    assert(after == before.remove(i as int));
                    assert forall|h: H256| after.to_set().contains(h) <==> before.to_set().remove(
                        *hash,
                    ).contains(h) by {
                        if after.contains(h) {
                            let j = choose|j: int| 0 <= j < after.len() && after[j] == h;
                            let j0 = if j < i { j } else { j + 1 };
                            assert(before[j0] == h);
                        }
                        if before.contains(h) && h != *hash {
                            let j0 = choose|j: int| 0 <= j < before.len() && before[j] == h;
                            let j = if j0 < i { j0 } else { j0 - 1 };
                            assert(after[j] == h);
                        }
                    }
                    assert(self@.unreferred =~= old(self)@.unreferred.remove(*hash));
                    assert(self@.prop_nodes =~= old(self)@.prop_nodes);
                    assert(after.no_duplicates()) by {
                        assert forall|a: int, b: int|
                            0 <= a < after.len() && 0 <= b < after.len() && a != b implies after[a]
                            != after[b] by {
                            let a0 = if a < i { a } else { a + 1 };
                            let b0 = if b < i { b } else { b + 1 };
                            assert(after[a] == before[a0]);
                            assert(after[b] == before[b0]);
                        }
                    }
                }
            },
            None => {
                proof {
                    assert(self@.unreferred =~= old(self)@.unreferred.remove(*hash));
                }
            },
        }
    }

    /// Records `hash` as the leader of `level`. A level takes one leader, once: where
    /// one is recorded, the call is a protocol violation and the record stays.
    pub fn insert_leader_block(&mut self, level: u32, hash: H256) -> (done: Result<
        (),
        ProposerError,
    >)
        requires
            old(self).wf(),
        ensures
            final(self).wf(),
            done == old(self)@.insert_leader_outcome(level),
            done is Ok ==> final(self)@ == old(self)@.with_leader(level, hash),
            done is Err ==> *final(self) == *old(self),
    {
        let key = match serialize_u32(level) {
            Ok(key) => key,
            Err(_) => {
                return Err(ProposerError::Storage);
            },
        };
        let value = match serialize_bytes32(&hash.0) {
            Ok(value) => value,
            Err(_) => {
                return Err(ProposerError::Storage);
            },
        };
        match self.db.get(PROP_TREE_LEADER_VEC_CF, key.as_slice()) {
            Err(_) => Err(ProposerError::Storage),
            Ok(Some(_)) => Err(ProposerError::ProtocolViolation),
            Ok(None) => {
                match self.db.put(PROP_TREE_LEADER_VEC_CF, key.as_slice(), value.as_slice()) {
                    Ok(()) => {
                        proof {
                            assert(self@.prop_nodes =~= old(self)@.prop_nodes);
                        }
                        Ok(())
                    },
                    Err(_) => Err(ProposerError::Storage),
                }
            },
        }
    }

    /// Drops the record of the leader of `level`. Where none is recorded, the call
    /// fails and nothing changes.
    pub fn remove_leader_block(&mut self, level: u32) -> (done: Result<(), ProposerError>)
        requires
            old(self).wf(),
        ensures
            final(self).wf(),
            done == old(self)@.remove_leader_outcome(level),
            done is Ok ==> final(self)@ == old(self)@.without_leader(level),
            done is Err ==> *final(self) == *old(self),
    {
        let key = match serialize_u32(level) {
            Ok(key) => key,
            Err(_) => {
                return Err(ProposerError::Storage);
            },
        };
        match self.db.get(PROP_TREE_LEADER_VEC_CF, key.as_slice()) {
            Err(_) => Err(ProposerError::Storage),
            Ok(None) => Err(ProposerError::NotFound),
            Ok(Some(_)) => {
                match self.db.delete(PROP_TREE_LEADER_VEC_CF, key.as_slice()) {
                    Ok(()) => {
                        proof {
                            assert(self@.prop_nodes =~= old(self)@.prop_nodes);
                        }
                        Ok(())
                    },
                    Err(_) => Err(ProposerError::Storage),
                }
            },
        }
    }

    /// Gets the leader block of `level`. Fails where no leader is recorded there.
    pub fn get_leader_block_at(&mut self, level: u32) -> (leader: Result<H256, ProposerError>)
        requires
            old(self).wf(),
        ensures
            *final(self) == *old(self),
            match leader {
                Ok(hash) => old(self)@.get_leader_outcome(level) == Ok::<Seq<u8>, ProposerError>(
                    hash@,
                ),
                Err(error) => old(self)@.get_leader_outcome(level) == Err::<
                    Seq<u8>,
                    ProposerError,
                >(error),
            },
    {
        let key = match serialize_u32(level) {
            Ok(key) => key,
            Err(_) => {
                return Err(ProposerError::Storage);
            },
        };
        match self.db.get(PROP_TREE_LEADER_VEC_CF, key.as_slice()) {
            Err(_) => Err(ProposerError::Storage),
            Ok(None) => Err(ProposerError::NotFound),
            Ok(Some(serialized)) => match deserialize_bytes32(serialized.as_slice()) {
                Ok(bytes) => Ok(H256(bytes)),
                Err(_) => Err(ProposerError::Storage),
            },
        }
    }

    /// Checks if a leader is recorded at `level`. Never fails: storage without the
    /// column family of the leaders holds no leader.
    pub fn contains_leader_block_at(&mut self, level: u32) -> (present: bool)
        requires
            old(self).wf(),
        ensures
            *final(self) == *old(self),
            present == (old(self)@.leader_record(level) is Some),
    {
        let key = match serialize_u32(level) {
            Ok(key) => key,
            Err(_) => {
                return false;
            },
        };
        match self.db.get(PROP_TREE_LEADER_VEC_CF, key.as_slice()) {
            Ok(Some(_)) => true,
            _ => false,
        }
    }
}

} // verus!
