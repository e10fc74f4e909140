use crate::transaction::{Transaction, TransactionView};
use vstd::prelude::*;
use vstd::slice::slice_subrange;

verus! {

/// The transactions that wait to be mined, oldest first.
pub struct MemoryPool {
    transactions: Vec<Transaction>,
}

/// The views of a list of transactions.
pub open spec fn transaction_views(transactions: Seq<Transaction>) -> Seq<TransactionView> {
    Seq::new(transactions.len(), |i: int| transactions[i]@)
}

impl View for MemoryPool {
    type V = Seq<TransactionView>;

    closed spec fn view(&self) -> Seq<TransactionView> {
        transaction_views(self.transactions@)
    }
}

impl MemoryPool {
    /// A pool without transactions.
    pub fn new() -> (pool: Self)
        ensures
            pool@ == Seq::<TransactionView>::empty(),
    {
        let pool = MemoryPool { transactions: Vec::new() };
        proof {
            assert(pool@ =~= Seq::<TransactionView>::empty());
        }
        pool
    }

    /// Adds a transaction behind those that wait.
    pub fn insert(&mut self, tx: Transaction)
        ensures
            final(self)@ == old(self)@.push(tx@),
    {
        self.transactions.push(tx);
        proof {
            assert(self@ =~= old(self)@.push(tx@));
        }
    }

    /// How many transactions wait.
    pub fn len(&self) -> (count: usize)
        ensures
            count == self@.len(),
    {
        self.transactions.len()
    }

    /// The `num` oldest transactions, oldest first; all of them where fewer wait.
    pub fn get_transactions(&self, num: u32) -> (oldest: &[Transaction])
        ensures
            transaction_views(oldest@) == self@.take(
                if num <= self@.len() {
                    num as int
                } else {
                    self@.len() as int
                },
            ),
    {
        let count = if (num as usize) <= self.transactions.len() {
            num as usize
        } else {
            self.transactions.len()
        };
        let oldest = slice_subrange(self.transactions.as_slice(), 0, count);
        proof {
            assert(transaction_views(oldest@) =~= self@.take(count as int));
        }
        oldest
    }
}

} // verus!
