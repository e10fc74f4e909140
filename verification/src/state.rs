use crate::crypto::hash::H256;
use vstd::prelude::*;

verus! {

/// The place of a coin: the transaction that made it, and its index among the
/// outputs of that transaction.
#[derive(Clone, Copy, Debug)]
pub struct CoinId {
    pub hash: H256,
    pub index: u32,
}

/// An unspent transaction output.
#[derive(Clone, Copy, Debug)]
pub struct UTXO {
    pub coin_id: CoinId,
    pub value: u64,
}

} // verus!
