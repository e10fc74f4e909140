pub mod laws;

use crate::crypto::hash::{sha256_digest, H256};
use crate::crypto::sign::{KeyPair, PubKey};
use crate::miner::memory_pool::MemoryPool;
use crate::miner::miner::ContextUpdateSignal;
use crate::state::{CoinId, UTXO};
use crate::transaction::{Input, Output, Transaction, TransactionView};
use vstd::prelude::*;

verus! {

/// A coin that the wallet can spend: an unspent output, and the hash of the key
/// that it was paid to.
#[derive(Clone, Copy, Debug)]
pub struct Coin {
    pub utxo: UTXO,
    pub pubkey_hash: H256,
}

/// Why the wallet could not do what was asked.
#[derive(Clone, Copy, Debug, PartialEq, Eq, Structural)]
pub enum WalletError {
    /// The coins in the wallet are worth less than the payment.
    InsufficientMoney,
    /// The wallet holds no key.
    MissingKey,
}

/// One key of the wallet, with the hash of its public key.
pub struct KeyEntry {
    pub pubkey_hash: H256,
    pub keypair: KeyPair,
}

/// What a wallet holds, as mathematical values.
pub struct WalletView {
    /// The coins that can be spent, in the order in which they came.
    pub coins: Seq<Coin>,
    /// The keys, in the order in which they came.
    pub keys: Seq<KeyEntry>,
    /// The signals for the miner that were not yet taken.
    pub context_updates: Seq<ContextUpdateSignal>,
    /// The transactions that wait to be mined.
    pub mempool: Seq<TransactionView>,
}

/// Whether `entry` is the key that `generate_keypair` makes: the key pair whose
/// bytes are all zero, under the hash of its public key.
pub open spec fn is_default_key(entry: KeyEntry) -> bool {
    &&& entry.keypair.public@ == Seq::new(32, |i: int| 0u8)
    &&& entry.keypair.secret@ == Seq::new(32, |i: int| 0u8)
    &&& entry.pubkey_hash@ == sha256_digest(entry.keypair.public@)
}

/// The key that `generate_keypair` makes.
pub open spec fn default_key() -> KeyEntry {
    choose|entry: KeyEntry| is_default_key(entry)
}

/// The value of a list of coins.
pub open spec fn total_value(coins: Seq<Coin>) -> int
    decreases coins.len(),
{
    if coins.len() == 0 {
        0
    } else {
        total_value(coins.drop_last()) + coins.last().utxo.value
    }
}

/// The coin that the output at place `index` of the transaction with hash `hash`
/// makes. The index of a coin has 32 bits: a place beyond them is cut to them.
pub open spec fn coin_at(hash: H256, index: usize, output: Output) -> Coin {
    Coin {
        utxo: UTXO { coin_id: CoinId { hash, index: index as u32 }, value: output.value },
        pubkey_hash: output.recipient,
    }
}

/// A list of coins after `coin` has come: behind the others, unless it is there.
pub open spec fn with_coin(coins: Seq<Coin>, coin: Coin) -> Seq<Coin> {
    if coins.contains(coin) {
        coins
    } else {
        coins.push(coin)
    }
}

/// How many coins from the front of `coins` a payment of `value` takes: coins are
/// taken until their value reaches `value`, and at least one where there is any.
pub open spec fn coins_taken(coins: Seq<Coin>, value: int) -> nat
    decreases coins.len(),
{
    if coins.len() == 0 {
        0
    } else if coins[0].utxo.value >= value {
        1
    } else {
        1 + coins_taken(coins.drop_first(), value - coins[0].utxo.value)
    }
}

/// A list of coins after `coin` has gone: the list without it, where it is there.
pub open spec fn without_coin(coins: Seq<Coin>, coin: Coin) -> Seq<Coin> {
    if coins.contains(coin) {
        coins.remove(coins.index_of(coin))
    } else {
        coins
    }
}

/// The places of a list of coins.
pub open spec fn coin_ids(coins: Seq<Coin>) -> Seq<CoinId> {
    Seq::new(coins.len(), |i: int| coins[i].utxo.coin_id)
}

impl WalletView {
    /// No coin and no key hash stands twice.
    pub open spec fn wf(self) -> bool {
        &&& self.coins.no_duplicates()
        &&& forall|i: int, j: int|
            0 <= i < j < self.keys.len() ==> self.keys[i].pubkey_hash != self.keys[j].pubkey_hash
    }

    /// Whether `i` is the place of the key with hash `hash`.
    pub open spec fn key_at(self, i: int, hash: H256) -> bool {
        0 <= i < self.keys.len() && self.keys[i].pubkey_hash == hash
    }

    /// Whether the wallet holds the key with hash `hash`.
    pub open spec fn has_key(self, hash: H256) -> bool {
        exists|i: int| self.key_at(i, hash)
    }

    /// The wallet after `entry` is stored: in place of the key with the same hash,
    /// or behind the keys that are there.
    pub open spec fn with_key(self, entry: KeyEntry) -> WalletView {
        if self.has_key(entry.pubkey_hash) {
            WalletView {
                keys: self.keys.update(
                    choose|i: int| self.key_at(i, entry.pubkey_hash),
                    entry,
                ),
                ..self
            }
        } else {
            WalletView { keys: self.keys.push(entry), ..self }
        }
    }

    /// The sum of the values of all the coins in the wallet.
    pub open spec fn balance(self) -> int {
        total_value(self.coins)
    }

    /// The coins that a payment of `value` spends.
    pub open spec fn spent(self, value: u64) -> Seq<Coin> {
        self.coins.take(coins_taken(self.coins, value as int) as int)
    }

    /// What the coins that a payment of `value` spends are worth beyond `value`.
    pub open spec fn change(self, value: u64) -> int {
        total_value(self.spent(value)) - value
    }

    /// How an attempt to pay `value` ends: the wallet must be worth `value`, and
    /// must hold a key where change comes back.
    pub open spec fn pay_outcome(self, value: u64) -> Result<(), WalletError> {
        if self.balance() < value {
            Err(WalletError::InsufficientMoney)
        } else if self.change(value) > 0 && self.keys.len() == 0 {
            Err(WalletError::MissingKey)
        } else {
            Ok(())
        }
    }

    /// The transaction that pays `value` to `recipient`: it spends the coins that
    /// the payment takes, pays `value` to `recipient`, and pays the change, where
    /// there is any, to the first key of the wallet. It is not signed.
    pub open spec fn payment(self, recipient: H256, value: u64) -> TransactionView {
        TransactionView {
            input: coin_ids(self.spent(value)),
            output: if self.change(value) > 0 {
                seq![
                    Output { value, recipient },
                    Output {
                        value: self.change(value) as u64,
                        recipient: self.keys[0].pubkey_hash,
                    },
                ]
            } else {
                seq![Output { value, recipient }]
            },
            signatures: Seq::empty(),
        }
    }

    /// The wallet after the coins that a payment of `value` takes are gone.
    pub open spec fn without_spent(self, value: u64) -> WalletView {
        WalletView {
            coins: self.coins.skip(coins_taken(self.coins, value as int) as int),
            ..self
        }
    }

    /// The wallet after it has paid `value` to `recipient`: the coins are spent, the
    /// transaction waits in the pool, and a signal for the miner is ready.
    pub open spec fn after_payment(self, recipient: H256, value: u64) -> WalletView {
        WalletView {
            coins: self.without_spent(value).coins,
            mempool: self.mempool.push(self.payment(recipient, value)),
            context_updates: self.context_updates.push(ContextUpdateSignal::NewContent),
            ..self
        }
    }

    /// The coins of the wallet after it has seen the outputs `outputs` of the
    /// transaction with hash `hash`: each output that pays to a key of the wallet
    /// has become a coin, in the order of the outputs.
    pub open spec fn received(self, hash: H256, outputs: Seq<Output>) -> Seq<Coin>
        decreases outputs.len(),
    {
        if outputs.len() == 0 {
            self.coins
        } else {
            let before = self.received(hash, outputs.drop_last());
            if self.has_key(outputs.last().recipient) {
                with_coin(
                    before,
                    coin_at(hash, (outputs.len() - 1) as usize, outputs.last()),
                )
            } else {
                before
            }
        }
    }
}

/// A wallet: coins, the keys that can spend them, the pool that its payments go to,
/// and the signals that tell the miner of them.
pub struct Wallet {
    /// The coins which can be spent, each held once.
    coins: Vec<Coin>,
    /// The user's keys, one for each hash.
    keypairs: Vec<KeyEntry>,
    /// The signals for the miner that were not yet taken, oldest first.
    context_updates: Vec<ContextUpdateSignal>,
    /// The pool of unmined transactions.
    mempool: MemoryPool,
}

impl View for Wallet {
    type V = WalletView;

    closed spec fn view(&self) -> WalletView {
        WalletView {
            coins: self.coins@,
            keys: self.keypairs@,
            context_updates: self.context_updates@,
            mempool: self.mempool@,
        }
    }
}

impl Wallet {
    /// The wallet is consistent: see `WalletView::wf`.
    pub open spec fn wf(&self) -> bool {
        self@.wf()
    }

    /// A wallet without coins and keys, over the pool `mempool`.
    pub fn new(mempool: MemoryPool) -> (wallet: Self)
        ensures
            wallet.wf(),
            wallet@ == (WalletView {
                coins: Seq::<Coin>::empty(),
                keys: Seq::<KeyEntry>::empty(),
                context_updates: Seq::<ContextUpdateSignal>::empty(),
                mempool: mempool@,
            }),
    {
        Wallet {
            coins: Vec::new(),
            keypairs: Vec::new(),
            context_updates: Vec::new(),
            mempool,
        }
    }

    fn key_position(&self, hash: &H256) -> (found: Option<usize>)
        ensures
            match found {
                Some(i) => self@.key_at(i as int, *hash),
                None => !self@.has_key(*hash),
            },
    {
        let mut i: usize = 0;
        while i < self.keypairs.len()
            invariant
                i <= self.keypairs.len(),
                forall|j: int| 0 <= j < i ==> !self@.key_at(j, *hash),
            decreases self.keypairs.len() - i,
        {
            if self.keypairs[i].pubkey_hash == *hash {
                proof {
                    H256::lemma_view_injective(self.keypairs@[i as int].pubkey_hash, *hash);
                }
                return Some(i);
            }
            i += 1;
        }
        None
    }

    /// Generates a key pair and stores it under the hash of its public key. The
    /// pair is always the same one, so a second call changes nothing.
    pub fn generate_keypair(&mut self)
        requires
            old(self).wf(),
        ensures
            final(self).wf(),
            final(self)@ == old(self)@.with_key(default_key()),
    {
        let keypair = KeyPair::default();
        let entry = KeyEntry { pubkey_hash: keypair.public.hash(), keypair };
        proof {
            assert(is_default_key(entry));
            lemma_default_key_is_one(entry, default_key());
        }
        match self.key_position(&entry.pubkey_hash) {
            Some(i) => {
                proof {
                    let picked = choose|j: int| old(self)@.key_at(j, entry.pubkey_hash);
                    assert(old(self)@.key_at(i as int, entry.pubkey_hash));
                    assert(picked == i);
                }
                self.keypairs.set(i, entry);
                proof {
                    assert forall|a: int, b: int|
                        0 <= a < b < self@.keys.len() implies self@.keys[a].pubkey_hash
                        != self@.keys[b].pubkey_hash by {
                        assert(self@.keys[a].pubkey_hash == old(self)@.keys[a].pubkey_hash);
                        assert(self@.keys[b].pubkey_hash == old(self)@.keys[b].pubkey_hash);
                    }
                }
            },
            None => {
                self.keypairs.push(entry);
                proof {
                    assert forall|a: int, b: int|
                        0 <= a < b < self@.keys.len() implies self@.keys[a].pubkey_hash
                        != self@.keys[b].pubkey_hash by {
                        if b == old(self)@.keys.len() {
                            assert(!old(self)@.key_at(a, entry.pubkey_hash));
                        }
                    }
                }
            },
        }
    }

    /// Gets one public key from this wallet: that of the key that came first.
    pub fn get_pubkey(&self) -> (pubkey: Result<&PubKey, WalletError>)
        ensures
            self@.keys.len() > 0 ==> pubkey == Ok::<&PubKey, WalletError>(
                &self@.keys[0].keypair.public,
            ),
            self@.keys.len() == 0 ==> pubkey == Err::<&PubKey, WalletError>(
                WalletError::MissingKey,
            ),
    {
        if self.keypairs.len() > 0 {
            return Ok(&self.keypairs[0].keypair.public);
        }
        Err(WalletError::MissingKey)
    }

    /// Gets the hash of one public key of this wallet, that of the key that came
    /// first, without computing it again.
    pub fn get_pubkey_hash(&self) -> (pubkey_hash: Result<H256, WalletError>)
        ensures
            self@.keys.len() > 0 ==> pubkey_hash == Ok::<H256, WalletError>(
                self@.keys[0].pubkey_hash,
            ),
            self@.keys.len() == 0 ==> pubkey_hash == Err::<H256, WalletError>(
                WalletError::MissingKey,
            ),
    {
        if self.keypairs.len() > 0 {
            return Ok(self.keypairs[0].pubkey_hash);
        }
        Err(WalletError::MissingKey)
    }

    fn coin_position(&self, coin: &Coin) -> (found: Option<usize>)
        ensures
            match found {
                Some(i) => i < self@.coins.len() && self@.coins[i as int] == *coin,
                None => !self@.coins.contains(*coin),
            },
    {
        let mut i: usize = 0;
        while i < self.coins.len()
            invariant
                i <= self.coins.len(),
                forall|j: int| 0 <= j < i ==> self@.coins[j] != *coin,
            decreases self.coins.len() - i,
        {
            if coin_eq(&self.coins[i], coin) {
                return Some(i);
            }
            i += 1;
        }
        None
    }

    /// Adds the coins of a transaction that are destined to us: each output that
    /// pays to a key of this wallet becomes a coin, unless the wallet holds it.
    pub fn receive(&mut self, tx: &Transaction)
        requires
            old(self).wf(),
        ensures
            final(self).wf(),
            final(self)@ == (WalletView {
                coins: old(self)@.received(tx@.spec_hash(), tx@.output),
                ..old(self)@
            }),
    {
        let hash = tx.hash();
        let mut idx: usize = 0;
        while idx < tx.output.len()
            invariant
                idx <= tx.output.len(),
                hash == tx@.spec_hash(),
                self.wf(),
                self@ == (WalletView {
                    coins: old(self)@.received(hash, tx@.output.take(idx as int)),
                    ..old(self)@
                }),
            decreases tx.output.len() - idx,
        {
            let output = tx.output[idx];
            proof {
                let seen = tx@.output.take(idx + 1);
                assert(seen.drop_last() =~= tx@.output.take(idx as int));
                assert(seen.last() == output);
                assert(self@.has_key(output.recipient) == old(self)@.has_key(output.recipient)) by {
                    if self@.has_key(output.recipient) {
                        let i = choose|i: int| self@.key_at(i, output.recipient);
                        assert(old(self)@.key_at(i, output.recipient));
                    }
                    if old(self)@.has_key(output.recipient) {
                        let i = choose|i: int| old(self)@.key_at(i, output.recipient);
                        assert(self@.key_at(i, output.recipient));
                    }
                }
            }
            if self.key_position(&output.recipient).is_some() {
                let coin_id = CoinId { hash, index: #[verifier::truncate] (idx as u32) };
                let coin = Coin {
                    utxo: UTXO { coin_id, value: output.value },
                    pubkey_hash: output.recipient,
                };
                assert(coin == coin_at(hash, idx, output));
                if self.coin_position(&coin).is_none() {
                    self.coins.push(coin);
                }
            }
            idx += 1;
        }
        proof {
            assert(tx@.output.take(tx@.output.len() as int) =~= tx@.output);
        }
    }

    /// Returns the sum of the values of all the coins in the wallet, where it fits
    /// in 64 bits.
    pub fn checked_balance(&self) -> (sum: Option<u64>)
        ensures
            self@.balance() <= u64::MAX ==> sum == Some(self@.balance() as u64),
            self@.balance() > u64::MAX ==> sum is None,
    {
        let mut sum: u64 = 0;
        let mut i: usize = 0;
        while i < self.coins.len()
            invariant
                i <= self.coins.len(),
                sum == total_value(self@.coins.take(i as int)),
            decreases self.coins.len() - i,
        {
            proof {
                assert(self@.coins.take(i + 1).drop_last() =~= self@.coins.take(i as int));
                lemma_total_value_of_prefix(self@.coins, i + 1);
            }
            if self.coins[i].utxo.value > u64::MAX - sum {
                return None;
            }
            sum += self.coins[i].utxo.value;
            i += 1;
        }
        proof {
            assert(self@.coins.take(self@.coins.len() as int) =~= self@.coins);
        }
        Some(sum)
    }

    /// Returns the sum of the values of all the coins in the wallet.
    pub fn balance(&self) -> (sum: u64)
        requires
            self@.balance() <= u64::MAX,
        ensures
            sum == self@.balance(),
    {
        let mut sum: u64 = 0;
        let mut i: usize = 0;
        while i < self.coins.len()
            invariant
                i <= self.coins.len(),
                sum == total_value(self@.coins.take(i as int)),
                total_value(self@.coins) <= u64::MAX,
            decreases self.coins.len() - i,
        {
            proof {
                assert(self@.coins.take(i + 1).drop_last() =~= self@.coins.take(i as int));
                lemma_total_value_of_prefix(self@.coins, i + 1);
            }
            sum += self.coins[i].utxo.value;
            i += 1;
        }
        proof {
            assert(self@.coins.take(self@.coins.len() as int) =~= self@.coins);
        }
        sum
    }

    /// Removes a coin from the wallet, after it was spent. A coin that the wallet
    /// does not hold changes nothing.
    fn remove_coin(&mut self, coin: &Coin)
        requires
            old(self).wf(),
        ensures
            final(self).wf(),
            final(self)@ == (WalletView {
                coins: without_coin(old(self)@.coins, *coin),
                ..old(self)@
            }),
    {
        match self.coin_position(coin) {
            Some(i) => {
                proof {
                    let first = old(self)@.coins.index_of(*coin);
                    assert(old(self)@.coins[first] == *coin);
                    assert(first == i);
                }
                self.coins.remove(i);
                proof {
                    let before = old(self)@.coins;
                    let after = self@.coins;
                    assert(after =~= before.remove(i as int));
                    assert forall|a: int, b: int|
                        0 <= a < after.len() && 0 <= b < after.len() && a != b implies after[a]
                        != after[b] by {
                        let a0 = if a < i { a } else { a + 1 };
                        let b0 = if b < i { b } else { b + 1 };
                        assert(after[a] == before[a0]);
                        assert(after[b] == before[b0]);
                    }
                    assert(after.no_duplicates());
                    assert(self@.keys == old(self)@.keys);
                }
            },
            None => {},
        }
    }

    /// Creates a transaction that pays `value` to `recipient` out of the coins of
    /// the wallet, and takes the coins that it spends out of the wallet.
    fn create_transaction(&mut self, recipient: H256, value: u64) -> (created: Result<
        Transaction,
        WalletError,
    >)
        requires
            old(self).wf(),
        ensures
            final(self).wf(),
            match created {
                Ok(tx) => {
                    &&& old(self)@.pay_outcome(value) is Ok
                    &&& tx@ == old(self)@.payment(recipient, value)
                    &&& final(self)@ == old(self)@.without_spent(value)
                },
                Err(error) => {
                    &&& old(self)@.pay_outcome(value) == Err::<(), WalletError>(error)
                    &&& final(self)@ == old(self)@
                },
            },
    {
        let mut coins_to_use: Vec<Coin> = Vec::new();
        let mut input: Vec<Input> = Vec::new();
        let mut missing: u64 = value;
        let mut change: u64 = 0;
        let mut covered = false;
        let ghost all = self@.coins;
        proof {
            assert(all.skip(0) =~= all);
            assert(all.take(0) =~= Seq::<Coin>::empty());
            assert(input@ =~= coin_ids(coins_to_use@));
        }
        // iterate through our wallet
        while coins_to_use.len() < self.coins.len() && !covered
            invariant
                self@ == old(self)@,
                all == self@.coins,
                coins_to_use@ == all.take(coins_to_use@.len() as int),
                coins_to_use@.len() <= all.len(),
                input@ == coin_ids(coins_to_use@),
                !covered ==> total_value(coins_to_use@) + missing == value,
                !covered ==> coins_taken(all, value as int) == coins_to_use@.len() + coins_taken(
                    all.skip(coins_to_use@.len() as int),
                    missing as int,
                ),
                !covered && coins_to_use@.len() > 0 ==> missing > 0,
                !covered ==> change == 0,
                covered ==> coins_taken(all, value as int) == coins_to_use@.len(),
                covered ==> total_value(coins_to_use@) == value + change,
            decreases all.len() - coins_to_use@.len(),
        {
            let used = coins_to_use.len();
            let coin = self.coins[used];
            proof {
                let rest = all.skip(used as int);
                assert(rest[0] == coin);
                assert(rest.drop_first() =~= all.skip(used + 1));
                assert(all.take(used + 1) =~= all.take(used as int).push(coin));
                assert(all.take(used + 1).drop_last() =~= all.take(used as int));
            }
            coins_to_use.push(coin);
            input.push(coin.utxo.coin_id);
            proof {
                assert(input@ =~= coin_ids(coins_to_use@));
            }
            if coin.utxo.value >= missing {
                // we have enough money
                change = coin.utxo.value - missing;
                covered = true;
            } else {
                missing = missing - coin.utxo.value;
            }
        }
        proof {
            lemma_total_value_of_prefix(all, coins_to_use@.len() as int);
            if !covered {
                assert(coins_to_use@.len() == all.len());
                assert(all.skip(all.len() as int).len() == 0);
                assert(coins_taken(all.skip(all.len() as int), missing as int) == 0);
                assert(all.take(all.len() as int) =~= all);
            }
            assert(coins_taken(all, value as int) == coins_to_use@.len());
            assert(old(self)@.spent(value) == coins_to_use@);
            if covered {
                assert(old(self)@.change(value) == change);
            } else {
                assert(old(self)@.change(value) == -missing);
                assert(old(self)@.balance() == value - missing);
            }
        }
        if !covered && missing > 0 {
            // we don't have enough money in wallet
            return Err(WalletError::InsufficientMoney);
        }
        // create the output
        let mut output: Vec<Output> = Vec::new();
        output.push(Output { value, recipient });
        if change > 0 {
            // transfer the remaining value back to self
            let recipient = match self.get_pubkey_hash() {
                Ok(recipient) => recipient,
                Err(error) => {
                    return Err(error);
                },
            };
            output.push(Output { value: change, recipient });
        }
        proof {
            assert(output@ =~= old(self)@.payment(recipient, value).output);
        }
        proof {
            assert(all.skip(0) =~= all);
        }
        // remove used coin from wallet
        let mut removed: usize = 0;
        while removed < coins_to_use.len()
            invariant
                removed <= coins_to_use@.len() <= all.len(),
                coins_to_use@ == all.take(coins_to_use@.len() as int),
                all.no_duplicates(),
                self.wf(),
                self@ == (WalletView { coins: all.skip(removed as int), ..old(self)@ }),
            decreases coins_to_use@.len() - removed,
        {
            proof {
                let rest = all.skip(removed as int);
                assert(rest[0] == coins_to_use@[removed as int]);
                assert(rest.no_duplicates());
                assert(rest.contains(rest[0]));
                assert(rest.index_of(rest[0]) == 0);
                assert(without_coin(rest, rest[0]) =~= all.skip(removed + 1));
            }
            self.remove_coin(&coins_to_use[removed]);
            removed += 1;
        }
        let tx = Transaction { input, output, signatures: Vec::new() };
        proof {
            assert(tx@.signatures =~= Seq::<Seq<u8>>::empty());
        }
        Ok(tx)
    }

    /// Pays `value` to `recipient`: creates the transaction, puts it into the pool
    /// and leaves a signal for the miner. Returns the hash of the transaction, which
    /// may still fail to be confirmed.
    pub fn pay(&mut self, recipient: H256, value: u64) -> (paid: Result<H256, WalletError>)
        requires
            old(self).wf(),
        ensures
            final(self).wf(),
            match paid {
                Ok(hash) => {
                    &&& old(self)@.pay_outcome(value) is Ok
                    &&& hash == old(self)@.payment(recipient, value).spec_hash()
                    &&& final(self)@ == old(self)@.after_payment(recipient, value)
                },
                Err(error) => {
                    &&& old(self)@.pay_outcome(value) == Err::<(), WalletError>(error)
                    &&& final(self)@ == old(self)@
                },
            },
    {
        let tx = match self.create_transaction(recipient, value) {
            Ok(tx) => tx,
            Err(error) => {
                return Err(error);
            },
        };
        let hash = tx.hash();
        self.mempool.insert(tx);
        self.context_updates.push(ContextUpdateSignal::NewContent);
        // the hash lets the caller look for the transaction in the ledger later
        Ok(hash)
    }

    /// The pool of unmined transactions.
    pub fn mempool(&self) -> (pool: &MemoryPool)
        ensures
            pool@ == self@.mempool,
    {
        &self.mempool
    }

    /// Takes the oldest signal for the miner that was not yet taken, if there is one.
    pub fn take_context_update(&mut self) -> (signal: Option<ContextUpdateSignal>)
        requires
            old(self).wf(),
        ensures
            final(self).wf(),
            old(self)@.context_updates.len() == 0 ==> signal is None && final(self)@ == old(
                self,
            )@,
            old(self)@.context_updates.len() > 0 ==> signal == Some(
                old(self)@.context_updates[0],
            ) && final(self)@ == (WalletView {
                context_updates: old(self)@.context_updates.drop_first(),
                ..old(self)@
            }),
    {
        if self.context_updates.len() == 0 {
            return None;
        }
        let signal = self.context_updates.remove(0);
        proof {
            assert(self@.context_updates =~= old(self)@.context_updates.drop_first());
        }
        Some(signal)
    }
}

fn coin_eq(a: &Coin, b: &Coin) -> (equal: bool)
    ensures
        equal == (*a == *b),
{
    proof {
        if a.utxo.coin_id.hash@ == b.utxo.coin_id.hash@ {
            H256::lemma_view_injective(a.utxo.coin_id.hash, b.utxo.coin_id.hash);
        }
        if a.pubkey_hash@ == b.pubkey_hash@ {
            H256::lemma_view_injective(a.pubkey_hash, b.pubkey_hash);
        }
    }
    a.utxo.coin_id.hash == b.utxo.coin_id.hash && a.utxo.coin_id.index == b.utxo.coin_id.index
        && a.utxo.value == b.utxo.value && a.pubkey_hash == b.pubkey_hash
}

/// The coins at the front of a list are worth no more than the whole list, and
/// nothing is worth less than zero.
pub proof fn lemma_total_value_of_prefix(coins: Seq<Coin>, count: int)
    requires
        0 <= count <= coins.len(),
    ensures
        0 <= total_value(coins.take(count)) <= total_value(coins),
    decreases coins.len(),
{
    if count == coins.len() {
        assert(coins.take(count) =~= coins);
        if coins.len() > 0 {
            lemma_total_value_of_prefix(coins.drop_last(), count - 1);
            assert(coins.drop_last().take(count - 1) =~= coins.drop_last());
        }
    } else {
        lemma_total_value_of_prefix(coins.drop_last(), count);
        assert(coins.drop_last().take(count) =~= coins.take(count));
    }
}

/// There is one key that `generate_keypair` makes.
pub proof fn lemma_default_key_is_one(a: KeyEntry, b: KeyEntry)
    requires
        is_default_key(a),
        is_default_key(b),
    ensures
        a == b,
{
    H256::lemma_view_injective(a.pubkey_hash, b.pubkey_hash);
    assert(a.keypair.public.0 =~= b.keypair.public.0);
    assert(a.keypair.secret =~= b.keypair.secret);
}

} // verus!
