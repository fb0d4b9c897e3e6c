use vstd::prelude::*;

verus! {

/// An opaque party identifier. The ledger assumes nothing of it beyond
/// equality; the hosting environment decides what the number stands for.
#[derive(Clone, Copy, PartialEq, Eq, Hash, Debug, Structural)]
pub struct AccountId(pub u64);

} // verus!
