use vstd::prelude::*;

verus! {

/// Opaque handle for a fungible asset. Equality is equality of the
/// underlying number; the value carries no behaviour of its own.
#[derive(Clone, Copy, PartialEq, Eq, Structural, Hash, Debug)]
pub struct TokenId(pub u16);

/// Opaque handle for a liquidity pool, analogous to `TokenId`.
#[derive(Clone, Copy, PartialEq, Eq, Structural, Hash, Debug)]
pub struct PoolId(pub u32);

} // verus!
