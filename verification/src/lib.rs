pub mod blockchain;
pub mod crypto;
pub mod miner;
pub mod state;
pub mod transaction;
pub mod wallet;
