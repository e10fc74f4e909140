pub mod memory_pool;
pub mod miner;
