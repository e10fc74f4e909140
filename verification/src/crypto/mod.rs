pub mod hash;
pub mod sign;
