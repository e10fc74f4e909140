pub mod database;
pub mod encoding;
pub mod laws;
pub mod proposer;
