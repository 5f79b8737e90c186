//! The metadata registry: a pure lookup table from identifiers to asset
//! and pool descriptors, with reverse lookup by on-chain address.

use vstd::prelude::*;
use crate::alist::{AList, EqKey};
use crate::ids::{PoolId, TokenId};

verus! {

/// A 160-bit on-chain address, as plain integers: the 32 high bits and
/// the 128 low bits.
#[derive(Clone, Copy, PartialEq, Eq, Structural, Hash, Debug)]
pub struct Addr {
    pub hi: u32,
    pub lo: u128,
}

impl EqKey for Addr {
    fn key_eq(&self, other: &Self) -> (r: bool)
        ensures
            r == (*self == *other),
    {
        self.hi == other.hi && self.lo == other.lo
    }
}

/// Descriptor of an asset.
#[derive(Clone, Debug)]
pub struct TokenMeta {
    pub address: Addr,
    pub symbol: String,
    pub decimals: u8,
}

/// The pricing-model family a pool belongs to.
#[derive(Clone, Copy, PartialEq, Eq, Structural, Debug)]
pub enum PoolKind {
    UniV3,
}

/// Descriptor of a pool.
#[derive(Clone, Debug)]
pub struct PoolMeta {
    pub address: Addr,
    pub kind: PoolKind,
    pub token0: TokenId,
    pub token1: TokenId,
    pub fee: u32,
}

/// The registry: descriptors by identifier, and identifiers by address.
pub struct Registry {
    pub token_meta: AList<TokenId, TokenMeta>,
    pub pool_meta: AList<PoolId, PoolMeta>,
    pub token_by_addr: AList<Addr, TokenId>,
    pub pool_by_addr: AList<Addr, PoolId>,
}

impl Registry {
    /// An empty registry.
    pub fn new() -> (r: Self)
        ensures
            r.token_meta@ == Map::<TokenId, TokenMeta>::empty(),
            r.pool_meta@ == Map::<PoolId, PoolMeta>::empty(),
            r.token_by_addr@ == Map::<Addr, TokenId>::empty(),
            r.pool_by_addr@ == Map::<Addr, PoolId>::empty(),
    {
        Registry {
            token_meta: AList::new(),
            pool_meta: AList::new(),
            token_by_addr: AList::new(),
            pool_by_addr: AList::new(),
        }
    }

    /// Binds `tid` to `meta`, and `meta`'s address back to `tid`.
    pub fn upsert_token(&mut self, tid: TokenId, meta: TokenMeta)
        ensures
            final(self).token_meta@ == old(self).token_meta@.insert(tid, meta),
            final(self).token_by_addr@ == old(self).token_by_addr@.insert(meta.address, tid),
            final(self).pool_meta@ == old(self).pool_meta@,
            final(self).pool_by_addr@ == old(self).pool_by_addr@,
    {
        self.token_by_addr.insert(meta.address, tid);
        self.token_meta.insert(tid, meta);
    }

    /// Binds `pid` to `meta`, and `meta`'s address back to `pid`.
    pub fn upsert_pool(&mut self, pid: PoolId, meta: PoolMeta)
        ensures
            final(self).pool_meta@ == old(self).pool_meta@.insert(pid, meta),
            final(self).pool_by_addr@ == old(self).pool_by_addr@.insert(meta.address, pid),
            final(self).token_meta@ == old(self).token_meta@,
            final(self).token_by_addr@ == old(self).token_by_addr@,
    {
        self.pool_by_addr.insert(meta.address, pid);
        self.pool_meta.insert(pid, meta);
    }

    /// The descriptor of `tid`, if one was recorded.
    pub fn token(&self, tid: TokenId) -> (r: Option<&TokenMeta>)
        ensures
            match r {
                Some(m) => self.token_meta@.contains_key(tid) && *m == self.token_meta@[tid],
                None => !self.token_meta@.contains_key(tid),
            },
    {
        self.token_meta.get(tid)
    }

    /// The descriptor of `pid`, if one was recorded.
    pub fn pool(&self, pid: PoolId) -> (r: Option<&PoolMeta>)
        ensures
            match r {
                Some(m) => self.pool_meta@.contains_key(pid) && *m == self.pool_meta@[pid],
                None => !self.pool_meta@.contains_key(pid),
            },
    {
        self.pool_meta.get(pid)
    }
}

} // verus!
