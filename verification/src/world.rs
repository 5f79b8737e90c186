//! The mutable ledger: per-asset holdings and per-pool internal state.

use vstd::prelude::*;
use crate::alist::AList;
use crate::ids::{PoolId, TokenId};

verus! {

/// The ledger the execution engine reads and mutates: a balance per asset
/// and an internal state value per pool.
///
/// Holdings default to zero when absent; a pool-state entry must be seeded
/// by the caller before any route that touches the pool runs.
pub struct World<S> {
    pub holdings: AList<TokenId, u128>,
    pub pool_states: AList<PoolId, S>,
}

/// The balance a holdings map assigns to an asset: its entry, or zero
/// when it has none.
pub open spec fn bal_of(h: Map<TokenId, u128>, t: TokenId) -> u128 {
    if h.contains_key(t) {
        h[t]
    } else {
        0
    }
}

impl<S> World<S> {
    /// A ledger with no holdings and no pool states.
    pub fn new() -> (w: Self)
        ensures
            w.holdings@ == Map::<TokenId, u128>::empty(),
            w.pool_states@ == Map::<PoolId, S>::empty(),
    {
        World { holdings: AList::new(), pool_states: AList::new() }
    }

    /// The balance held of `t`; zero when `t` has never been credited.
    pub fn holding_of(&self, t: TokenId) -> (r: u128)
        ensures
            r == bal_of(self.holdings@, t),
    {
        match self.holdings.get(t) {
            Some(v) => *v,
            None => 0,
        }
    }
}

impl<S> Default for World<S> {
    /// Same as [`World::new`]: an empty ledger.
    fn default() -> (w: Self)
        ensures
            w.holdings@ == Map::<TokenId, u128>::empty(),
            w.pool_states@ == Map::<PoolId, S>::empty(),
    {
        World::new()
    }
}

} // verus!
