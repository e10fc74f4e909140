use crate::blockchain::proposer::{leader_key, ProposerError, TreeView};
use crate::crypto::hash::H256;
use vstd::bytes::{
    lemma_auto_spec_u32_to_from_le_bytes,
    spec_u32_from_le_bytes,
    spec_u32_to_le_bytes,
};
use vstd::prelude::*;

verus! {

impl TreeView {
    /// Whether the tree takes every block of `blocks`, each at its level, one after
    /// the other.
    pub open spec fn accepts_blocks(self, blocks: Seq<(H256, u32)>) -> bool
        decreases blocks.len(),
    {
        blocks.len() == 0 || (self.accepts_blocks(blocks.drop_last()) && self.with_blocks(
            blocks.drop_last(),
        ).accepts_level(blocks.last().1))
    }

    /// The tree after the blocks of `blocks` are added, each at its level, one after
    /// the other.
    pub open spec fn with_blocks(self, blocks: Seq<(H256, u32)>) -> TreeView
        decreases blocks.len(),
    {
        if blocks.len() == 0 {
            self
        } else {
            self.with_blocks(blocks.drop_last()).with_block(blocks.last().0, blocks.last().1)
        }
    }

    /// The tree after `count` votes are counted at `level`.
    pub open spec fn with_votes(self, level: u32, count: nat) -> TreeView
        decreases count,
    {
        if count == 0 {
            self
        } else {
            self.with_votes(level, (count - 1) as nat).with_vote(level)
        }
    }

    /// Adding a block at a level that the tree accepts keeps the levels consistent,
    /// and leaves as many levels as the best level plus one.
    pub proof fn lemma_block_keeps_frontier(self, block: H256, level: u32)
        requires
            self.wf(),
            self.accepts_level(level),
        ensures
            self.with_block(block, level).wf(),
            self.with_block(block, level).prop_nodes.len() == self.with_block(
                block,
                level,
            ).best_level + 1,
            self.with_block(block, level).best_level >= self.best_level,
            self.with_block(block, level).prop_nodes.len() >= self.prop_nodes.len(),
    {
    }

    /// Whatever blocks are added, as long as each goes to a level that the tree
    /// accepts when its turn comes, after every one of them the tree has as many
    /// levels as its best level plus one.
    pub proof fn lemma_blocks_keep_frontier(self, blocks: Seq<(H256, u32)>)
        requires
            self.wf(),
            self.accepts_blocks(blocks),
        ensures
            self.with_blocks(blocks).wf(),
            blocks.len() > 0 ==> self.with_blocks(blocks).prop_nodes.len() == self.with_blocks(
                blocks,
            ).best_level + 1,
            self.with_blocks(blocks).best_level >= self.best_level,
        decreases blocks.len(),
    {
        if blocks.len() > 0 {
            self.lemma_blocks_keep_frontier(blocks.drop_last());
            self.with_blocks(blocks.drop_last()).lemma_block_keeps_frontier(
                blocks.last().0,
                blocks.last().1,
            );
        }
    }

    /// A block two or more levels past the best level is refused as a protocol
    /// violation.
    pub proof fn lemma_level_gap_is_refused(self, level: u32)
        requires
            self.wf(),
            level >= self.best_level + 2,
        ensures
            self.add_block_outcome(level) == Err::<(), ProposerError>(
                ProposerError::ProtocolViolation,
            ),
    {
    }

    /// After `count` votes at a level, the level reads `count` votes more than
    /// before, every one of the calls having succeeded, and the other levels read as
    /// before. In particular a level without votes reads `count`.
    pub proof fn lemma_votes_add_up(self, level: u32, count: nat)
        requires
            self.votes_at(level) + count <= u32::MAX,
        ensures
            self.with_votes(level, count).votes_at(level) == self.votes_at(level) + count,
            forall|other: u32|
                other != level ==> self.with_votes(level, count).votes_at(other) == self.votes_at(
                    other,
                ),
            forall|earlier: nat|
                earlier < count ==> (#[trigger] self.with_votes(
                    level,
                    earlier,
                )).increment_vote_outcome(level) is Ok,
        decreases count,
    {
        if count > 0 {
            self.lemma_votes_add_up(level, (count - 1) as nat);
            assert forall|earlier: nat| earlier < count implies (#[trigger] self.with_votes(
                level,
                earlier,
            )).increment_vote_outcome(level) is Ok by {
                if earlier < count - 1 {
                } else {
                    assert(earlier == (count - 1) as nat);
                }
            }
        }
    }

    /// Once a leader is recorded at a level, the lookup there gives that hash, a
    /// second leader for the level is refused as a protocol violation, and the
    /// records of the other levels are as before.
    pub proof fn lemma_leader_is_recorded_once(self, level: u32, first: H256)
        requires
            self.insert_leader_outcome(level) is Ok,
        ensures
            self.with_leader(level, first).get_leader_outcome(level) == Ok::<
                Seq<u8>,
                ProposerError,
            >(first@),
            self.with_leader(level, first).insert_leader_outcome(level) == Err::<
                (),
                ProposerError,
            >(ProposerError::ProtocolViolation),
            self.with_leader(level, first).leader_record(level) == Some(first@),
            forall|other: u32|
                other != level ==> self.with_leader(level, first).leader_record(other)
                    == self.leader_record(other),
    {
        lemma_leader_keys_differ();
        assert(first@.subrange(0, 32) =~= first@);
    }

    /// Dropping the leader of a level without one fails; after a leader is recorded
    /// and dropped again, the level has none, and the other levels are as before.
    pub proof fn lemma_leader_removal(self, level: u32, hash: H256)
        requires
            self.storage_ready(),
        ensures
            self.leader_record(level) is None ==> self.remove_leader_outcome(level) == Err::<
                (),
                ProposerError,
            >(ProposerError::NotFound),
            self.with_leader(level, hash).remove_leader_outcome(level) is Ok,
            self.with_leader(level, hash).without_leader(level).leader_record(level) is None,
            forall|other: u32|
                other != level ==> self.with_leader(level, hash).without_leader(
                    level,
                ).leader_record(other) == self.leader_record(other),
    {
        lemma_leader_keys_differ();
    }

    /// A hash put into the unreferred pool twice and taken out once is no longer in
    /// the pool; putting it in twice is the same as putting it in once.
    pub proof fn lemma_unreferred_is_a_set(self, hash: H256)
        ensures
            self.with_unreferred(hash).with_unreferred(hash) == self.with_unreferred(hash),
            !self.with_unreferred(hash).with_unreferred(hash).without_unreferred(
                hash,
            ).unreferred.contains(hash),
            self.without_unreferred(hash).without_unreferred(hash) == self.without_unreferred(
                hash,
            ),
    {
        assert(self.unreferred.insert(hash).insert(hash) =~= self.unreferred.insert(hash));
        assert(self.unreferred.remove(hash).remove(hash) =~= self.unreferred.remove(hash));
    }
}

/// Two levels are stored under different keys.
pub proof fn lemma_leader_keys_differ()
    ensures
        forall|a: u32, b: u32| a != b ==> #[trigger] leader_key(a) != #[trigger] leader_key(b),
{
    lemma_auto_spec_u32_to_from_le_bytes();
    assert forall|a: u32, b: u32| a != b implies #[trigger] leader_key(a) != #[trigger] leader_key(
        b,
    ) by {
        assert(spec_u32_to_le_bytes(a).len() == 4);
        assert(spec_u32_to_le_bytes(b).len() == 4);
        assert(spec_u32_from_le_bytes(spec_u32_to_le_bytes(a)) == a);
        assert(spec_u32_from_le_bytes(spec_u32_to_le_bytes(b)) == b);
    }
}

} // verus!
