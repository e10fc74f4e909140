use prism::crypto::hash::H256;
use prism::crypto::sign::Signature;
use prism::miner::memory_pool::MemoryPool;
use prism::miner::miner::ContextUpdateSignal;
use prism::state::CoinId;
use prism::transaction::{Output, Transaction};
use prism::wallet::{Wallet, WalletError};

fn random_h256() -> H256 {
    let bytes: [u8; 32] = rand::random();
    H256(bytes)
}

fn new_wallet_keyhash() -> (Wallet, H256) {
    let pool = MemoryPool::new();
    let mut w = Wallet::new(pool);
    w.generate_keypair();
    let h: H256 = w.get_pubkey_hash().unwrap();
    (w, h)
}

fn transaction_10_10(recipient: &H256) -> Transaction {
    let mut output: Vec<Output> = vec![];
    for _ in 0..10 {
        output.push(Output { value: 10, recipient: recipient.clone() });
    }
    Transaction { input: vec![], output, signatures: vec![] }
}

#[test]
pub fn test_balance() {
    let (w, _hash) = new_wallet_keyhash();
    assert_eq!(w.balance(), 0);
}

#[test]
pub fn test_add_transaction() {
    let (mut w, hash) = new_wallet_keyhash();
    w.receive(&transaction_10_10(&hash));
    assert_eq!(w.balance(), 100);
}

#[test]
pub fn test_send_coin() {
    let (mut w, hash) = new_wallet_keyhash();
    w.receive(&transaction_10_10(&hash));
    // now we have 10*10 coins, we try to spend them
    for _ in 0..5 {
        assert!(w.pay(random_h256(), 20).is_ok());
    }
    assert_eq!(w.balance(), 0);
    let txs: Vec<Transaction> =
        w.mempool().get_transactions(5).iter().map(|tx| tx.clone()).collect();
    assert_eq!(txs.len(), 5);
    for tx in &txs {
        println!("{:?}", tx);
    }
    for _ in 0..5 {
        w.take_context_update().unwrap();
    }
}

#[test]
pub fn test_send_coin_2() {
    let (mut w, hash) = new_wallet_keyhash();
    w.receive(&transaction_10_10(&hash));
    // now we have 10*10 coins, we try to spend them
    for _ in 0..5 {
        assert!(w.pay(random_h256(), 19).is_ok());
    }
    assert_eq!(w.balance(), 0);
    let txs: Vec<Transaction> =
        w.mempool().get_transactions(5).iter().map(|tx| tx.clone()).collect();
    assert_eq!(txs.len(), 5);
    for tx in &txs {
        // add each new transaction into this wallet
        println!("{:?}", tx);
        w.receive(tx);
    }
    assert_eq!(w.balance(), 5); //10*10-5*19=5 remaining
    for _ in 0..5 {
        w.take_context_update().unwrap();
    }
}

#[test]
pub fn test_send_coin_fail() {
    let (mut w, hash) = new_wallet_keyhash();
    w.receive(&transaction_10_10(&hash));
    // now we have 10*10 coins, we try to spend 101
    assert!(w.pay(random_h256(), 101).is_err());
    // we try to spend 20 6 times, the 6th time should have err
    for _ in 0..5 {
        assert!(w.pay(random_h256(), 20).is_ok());
    }
    assert!(w.pay(random_h256(), 20).is_err());
    assert_eq!(w.balance(), 0);
}

#[test]
pub fn key_missing() {
    let pool = MemoryPool::new();
    let mut w = Wallet::new(pool);
    assert!(w.get_pubkey_hash().is_err());
    assert!(w.get_pubkey().is_err());
    assert!(w.pay(random_h256(), 1).is_err());
    w.generate_keypair();
    assert!(w.get_pubkey_hash().is_ok());
    assert!(w.get_pubkey().is_ok());
    assert!(w.pay(random_h256(), 1).is_err());
}

#[test]
fn errors_name_their_cause() {
    let mut w = Wallet::new(MemoryPool::new());
    assert_eq!(w.get_pubkey_hash(), Err(WalletError::MissingKey));
    assert_eq!(w.pay(H256([9u8; 32]), 1), Err(WalletError::InsufficientMoney));
}

#[test]
fn a_failed_payment_changes_nothing() {
    let (mut w, hash) = new_wallet_keyhash();
    w.receive(&transaction_10_10(&hash));
    assert_eq!(w.pay(H256([9u8; 32]), 101), Err(WalletError::InsufficientMoney));
    assert_eq!(w.balance(), 100);
    assert_eq!(w.mempool().len(), 0);
    assert_eq!(w.take_context_update(), None);
}

#[test]
fn generating_the_key_again_keeps_one_key() {
    let (mut w, hash) = new_wallet_keyhash();
    w.generate_keypair();
    assert_eq!(w.get_pubkey_hash().unwrap(), hash);
    w.receive(&transaction_10_10(&hash));
    assert_eq!(w.balance(), 100);
}

#[test]
fn the_key_hash_is_the_digest_of_the_public_key() {
    let (w, hash) = new_wallet_keyhash();
    let public = *w.get_pubkey().unwrap();
    assert_eq!(public.0, [0u8; 32]);
    assert_eq!(public.hash(), hash);
    // the SHA-256 digest of 32 zero bytes
    assert_eq!(
        hash.0,
        [
            0x66, 0x68, 0x7a, 0xad, 0xf8, 0x62, 0xbd, 0x77, 0x6c, 0x8f, 0xc1, 0x8b, 0x8e, 0x9f,
            0x8e, 0x20, 0x08, 0x97, 0x14, 0x85, 0x6e, 0xe2, 0x33, 0xb3, 0x90, 0x2a, 0x59, 0x1d,
            0x0d, 0x5f, 0x29, 0x25
        ]
    );
}

#[test]
fn outputs_for_others_are_not_received() {
    let (mut w, hash) = new_wallet_keyhash();
    let tx = Transaction {
        input: vec![],
        output: vec![
            Output { value: 7, recipient: H256([1u8; 32]) },
            Output { value: 5, recipient: hash },
            Output { value: 3, recipient: H256([2u8; 32]) },
        ],
        signatures: vec![],
    };
    w.receive(&tx);
    assert_eq!(w.balance(), 5);
}

#[test]
fn receiving_a_transaction_twice_adds_its_coins_once() {
    let (mut w, hash) = new_wallet_keyhash();
    let tx = transaction_10_10(&hash);
    w.receive(&tx);
    w.receive(&tx);
    assert_eq!(w.balance(), 100);
}

#[test]
fn a_payment_spends_the_oldest_coins_and_returns_the_change() {
    let (mut w, hash) = new_wallet_keyhash();
    let funding = Transaction {
        input: vec![],
        output: vec![
            Output { value: 4, recipient: hash },
            Output { value: 6, recipient: hash },
            Output { value: 50, recipient: hash },
        ],
        signatures: vec![],
    };
    w.receive(&funding);
    let recipient = H256([3u8; 32]);
    let paid = w.pay(recipient, 7).unwrap();
    assert_eq!(w.balance(), 50);
    let pool = w.mempool().get_transactions(1);
    assert_eq!(pool.len(), 1);
    let tx = &pool[0];
    assert_eq!(tx.hash(), paid);
    assert_eq!(tx.input.len(), 2);
    let spent: Vec<(H256, u32)> = tx.input.iter().map(|id: &CoinId| (id.hash, id.index)).collect();
    assert_eq!(spent, vec![(funding.hash(), 0), (funding.hash(), 1)]);
    assert_eq!(tx.output.len(), 2);
    assert_eq!((tx.output[0].value, tx.output[0].recipient), (7, recipient));
    assert_eq!((tx.output[1].value, tx.output[1].recipient), (3, hash));
    assert!(tx.signatures.is_empty());
    assert_eq!(w.take_context_update(), Some(ContextUpdateSignal::NewContent));
    assert_eq!(w.take_context_update(), None);
}

#[test]
fn an_exact_payment_has_no_change() {
    let (mut w, hash) = new_wallet_keyhash();
    w.receive(&transaction_10_10(&hash));
    w.pay(H256([3u8; 32]), 30).unwrap();
    assert_eq!(w.balance(), 70);
    let pool = w.mempool().get_transactions(1);
    assert_eq!(pool[0].input.len(), 3);
    assert_eq!(pool[0].output.len(), 1);
    assert_eq!(pool[0].output[0].value, 30);
}

#[test]
fn a_payment_of_nothing_still_spends_one_coin() {
    let (mut w, hash) = new_wallet_keyhash();
    w.receive(&transaction_10_10(&hash));
    w.pay(H256([3u8; 32]), 0).unwrap();
    assert_eq!(w.balance(), 90);
    let pool = w.mempool().get_transactions(1);
    assert_eq!(pool[0].input.len(), 1);
    assert_eq!(pool[0].output.len(), 2);
    assert_eq!(pool[0].output[0].value, 0);
    assert_eq!(pool[0].output[1].value, 10);
}

#[test]
fn an_empty_wallet_pays_nothing_with_an_empty_transaction() {
    let mut w = Wallet::new(MemoryPool::new());
    let paid = w.pay(H256([3u8; 32]), 0);
    assert!(paid.is_ok());
    let pool = w.mempool().get_transactions(1);
    assert_eq!(pool[0].input.len(), 0);
    assert_eq!(pool[0].output.len(), 1);
}

#[test]
fn large_coins_are_added_without_wrapping() {
    let (mut w, hash) = new_wallet_keyhash();
    let funding = Transaction {
        input: vec![],
        output: vec![
            Output { value: u64::MAX - 1, recipient: hash },
            Output { value: u64::MAX, recipient: hash },
        ],
        signatures: vec![],
    };
    w.receive(&funding);
    // the first coin falls one short, the second covers the rest
    w.pay(H256([3u8; 32]), u64::MAX).unwrap();
    assert_eq!(w.balance(), 0);
    let pool = w.mempool().get_transactions(1);
    assert_eq!(pool[0].input.len(), 2);
    assert_eq!(pool[0].output[1].value, u64::MAX - 1);
}

#[test]
fn a_balance_beyond_64_bits_is_told_apart() {
    let (mut w, hash) = new_wallet_keyhash();
    assert_eq!(w.checked_balance(), Some(0));
    let funding = Transaction {
        input: vec![],
        output: vec![
            Output { value: u64::MAX - 1, recipient: hash },
            Output { value: 1, recipient: hash },
        ],
        signatures: vec![],
    };
    w.receive(&funding);
    assert_eq!(w.checked_balance(), Some(u64::MAX));
    assert_eq!(w.balance(), u64::MAX);
    let more = Transaction {
        input: vec![],
        output: vec![Output { value: 1, recipient: hash }],
        signatures: vec![Signature(vec![1])],
    };
    w.receive(&more);
    assert_eq!(w.checked_balance(), None);
    w.pay(H256([3u8; 32]), u64::MAX).unwrap();
    assert_eq!(w.checked_balance(), Some(1));
    assert_eq!(w.balance(), 1);
}
