use vstd::prelude::*;

verus! {

/// What the miner is told when the material for the next block has changed.
#[derive(Clone, Copy, Debug, PartialEq, Eq, Structural)]
pub enum ContextUpdateSignal {
    /// New transactions are waiting in the memory pool.
    NewContent,
}

} // verus!
