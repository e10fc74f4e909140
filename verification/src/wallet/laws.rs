use crate::crypto::hash::H256;
use crate::wallet::{coins_taken, lemma_total_value_of_prefix, total_value, Coin, WalletView};
use vstd::prelude::*;

verus! {

/// A list of coins is worth what its front and its rest are worth together.
pub proof fn lemma_total_value_splits(coins: Seq<Coin>, count: int)
    requires
        0 <= count <= coins.len(),
    ensures
        total_value(coins.take(count)) + total_value(coins.skip(count)) == total_value(coins),
    decreases coins.len(),
{
    if count == coins.len() {
        assert(coins.take(count) =~= coins);
        assert(coins.skip(count) =~= Seq::<Coin>::empty());
    } else {
        lemma_total_value_splits(coins.drop_last(), count);
        assert(coins.drop_last().take(count) =~= coins.take(count));
        assert(coins.drop_last().skip(count) =~= coins.skip(count).drop_last());
        assert(coins.skip(count).last() == coins.last());
    }
}

/// A list of coins is worth its first coin and the coins behind it.
pub proof fn lemma_total_value_from_front(coins: Seq<Coin>)
    requires
        coins.len() > 0,
    ensures
        total_value(coins) == coins[0].utxo.value + total_value(coins.drop_first()),
{
    lemma_total_value_splits(coins, 1);
    let first = coins.take(1);
    assert(first.drop_last() =~= Seq::<Coin>::empty());
    assert(first.last() == coins[0]);
    assert(total_value(first.drop_last()) == 0);
    assert(coins.skip(1) =~= coins.drop_first());
}

/// What a payment takes: coins from the front, at least one, as few as reach the
/// value. Fewer coins are worth less than the value; the coins taken are worth the
/// value or more where the whole list is, and are the whole list where it is not.
pub proof fn lemma_payment_takes_the_least(coins: Seq<Coin>, value: int)
    requires
        coins.len() > 0,
    ensures
        1 <= coins_taken(coins, value) <= coins.len(),
        forall|fewer: int|
            1 <= fewer < coins_taken(coins, value) ==> total_value(#[trigger] coins.take(fewer))
                < value,
        total_value(coins) >= value ==> total_value(
            coins.take(coins_taken(coins, value) as int),
        ) >= value,
        total_value(coins) < value ==> coins_taken(coins, value) == coins.len(),
    decreases coins.len(),
{
    let first = coins[0].utxo.value as int;
    let rest = coins.drop_first();
    lemma_total_value_from_front(coins);
    lemma_total_value_from_front(coins.take(1));
    assert(coins.take(1).drop_first() =~= Seq::<Coin>::empty());
    assert(total_value(coins.take(1)) == first);
    lemma_total_value_of_prefix(rest, 0);
    if first >= value {
    } else if rest.len() == 0 {
        assert(total_value(rest) == 0);
    } else {
        lemma_payment_takes_the_least(rest, value - first);
        let taken = coins_taken(coins, value) as int;
        assert(taken == 1 + coins_taken(rest, value - first));
        assert forall|count: int| 2 <= count <= coins.len() implies total_value(
            #[trigger] coins.take(count),
        ) == first + total_value(rest.take(count - 1)) by {
            lemma_total_value_from_front(coins.take(count));
            assert(coins.take(count).drop_first() =~= rest.take(count - 1));
        }
        assert forall|fewer: int| 1 <= fewer < taken implies total_value(
            #[trigger] coins.take(fewer),
        ) < value by {
            if fewer >= 2 {
                assert(total_value(rest.take(fewer - 1)) < value - first);
            }
        }
        assert(total_value(coins.take(taken)) == first + total_value(rest.take(taken - 1)));
    }
}

/// A payment takes no more coins than there are.
pub proof fn lemma_payment_takes_what_is_there(coins: Seq<Coin>, value: int)
    ensures
        coins_taken(coins, value) <= coins.len(),
        coins.len() == 0 ==> coins_taken(coins, value) == 0,
{
    if coins.len() > 0 {
        lemma_payment_takes_the_least(coins, value);
    }
}

impl WalletView {
    /// A payment that goes through loses no value: the change is not negative, the
    /// coins spent are worth the payment and the change, and the wallet is worth
    /// that much less afterwards. The keys stay as they are.
    pub proof fn lemma_payment_conserves_value(self, recipient: H256, value: u64)
        requires
            self.pay_outcome(value) is Ok,
        ensures
            0 <= self.change(value) <= u64::MAX,
            total_value(self.spent(value)) == value + self.change(value),
            self.after_payment(recipient, value).balance() == self.balance() - value
                - self.change(value),
            self.after_payment(recipient, value).keys == self.keys,
            self.after_payment(recipient, value).mempool.len() == self.mempool.len() + 1,
    {
        let taken = coins_taken(self.coins, value as int) as int;
        lemma_payment_takes_what_is_there(self.coins, value as int);
        lemma_total_value_splits(self.coins, taken);
        if self.coins.len() > 0 {
            lemma_payment_takes_the_least(self.coins, value as int);
            // without its last coin the payment falls short, and one coin is worth
            // less than 2^64
            let last = self.coins[taken - 1];
            assert(self.coins.take(taken).drop_last() =~= self.coins.take(taken - 1));
            assert(self.coins.take(taken).last() == last);
            if taken >= 2 {
                assert(total_value(self.coins.take(taken - 1)) < value);
            } else {
                assert(total_value(self.coins.take(0)) == 0);
            }
        } else {
            assert(total_value(self.coins.take(0)) == 0);
        }
    }
}

} // verus!
