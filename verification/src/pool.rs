//! The pool capability: the pricing-model contract a pool implementation
//! satisfies, and one concrete model, a proportional-fee pool.

use vstd::prelude::*;
use crate::ids::{PoolId, TokenId};

verus! {

/// The contract a pricing model satisfies. The engine drives routes
/// through this interface only, so a new pool kind plugs in without any
/// engine change.
///
/// `swap` is a pure function of the pool's own state and the requested
/// direction and amount: `spec_swap` names the state it leaves behind and
/// the amount it returns, and every implementation proves its `swap`
/// against that description, so it is deterministic, never panics, and
/// touches nothing outside the state value passed in.
pub trait Pool: Sized {
    /// The pool-state type this pricing model operates on.
    type State: Copy;

    /// The identifier `id` returns.
    spec fn spec_id(&self) -> PoolId;

    /// What `supports` answers for a direction.
    spec fn spec_supports(&self, from: TokenId, to: TokenId) -> bool;

    /// The state after a swap and the amount it pays out, as one value.
    spec fn spec_swap(&self, st: Self::State, from: TokenId, to: TokenId, amt_in: u128) -> (
        Self::State,
        u128,
    );

    /// Stable identifier of this pool instance.
    fn id(&self) -> (r: PoolId)
        ensures
            r == self.spec_id(),
    ;

    /// Whether this pool converts `from` into `to` in this direction.
    fn supports(&self, from: TokenId, to: TokenId) -> (r: bool)
        ensures
            r == self.spec_supports(from, to),
    ;

    /// Prices `amt_in` of `from` against `st`, updates `st` in place, and
    /// returns the amount of `to` paid out.
    fn swap(&self, st: &mut Self::State, from: TokenId, to: TokenId, amt_in: u128) -> (r: u128)
        ensures
            (*final(st), r) == self.spec_swap(*old(st), from, to, amt_in),
    ;
}

/// State of a pool whose pricing depends on nothing but its parameters.
#[derive(Clone, Copy, PartialEq, Eq, Structural, Debug)]
pub struct UnitState;

/// The numerator of a proportional fee: what is left of each unit after
/// the fee, in basis points; a fee of 100% or more leaves nothing.
pub open spec fn fee_numerator(fee_bps: u32) -> int {
    if fee_bps >= 10000 {
        0
    } else {
        10000 - fee_bps
    }
}

/// What a proportional-fee pool pays out: the input scaled down by the
/// fee, rounded toward zero.
pub open spec fn fee_amount_out(fee_bps: u32, amt_in: u128) -> u128 {
    ((amt_in * fee_numerator(fee_bps)) / 10000) as u128
}

/// A pool that converts between two fixed assets at one-to-one less a
/// proportional fee, stated in basis points. Its pricing reads no state,
/// so its state type is [`UnitState`].
#[derive(Clone, Copy, Debug)]
pub struct FeePool {
    pub pool_id: PoolId,
    pub token_a: TokenId,
    pub token_b: TokenId,
    pub fee_bps: u32,
}

/// The scaled payout never exceeds the input.
proof fn lemma_fee_amount_bounded(fee_bps: u32, amt_in: u128)
    ensures
        0 <= amt_in * fee_numerator(fee_bps) / 10000 <= amt_in,
{
    let num = fee_numerator(fee_bps);
    vstd::arithmetic::mul::lemma_mul_inequality(num, 10000, amt_in as int);
    vstd::arithmetic::div_mod::lemma_div_is_ordered(
        amt_in * num,
        amt_in * 10000,
        10000,
    );
    vstd::arithmetic::div_mod::lemma_div_multiples_vanish(amt_in as int, 10000);
    vstd::arithmetic::div_mod::lemma_div_pos_is_pos(amt_in * num, 10000);
    vstd::arithmetic::mul::lemma_mul_nonnegative(amt_in as int, num);
}

impl Pool for FeePool {
    type State = UnitState;

    open spec fn spec_id(&self) -> PoolId {
        self.pool_id
    }

    open spec fn spec_supports(&self, from: TokenId, to: TokenId) -> bool {
        (from == self.token_a && to == self.token_b) || (from == self.token_b
            && to == self.token_a)
    }

    open spec fn spec_swap(&self, st: UnitState, from: TokenId, to: TokenId, amt_in: u128) -> (
        UnitState,
        u128,
    ) {
        (st, fee_amount_out(self.fee_bps, amt_in))
    }

    fn id(&self) -> (r: PoolId)
        ensures
            r == self.spec_id(),
    {
        self.pool_id
    }

    fn supports(&self, from: TokenId, to: TokenId) -> (r: bool)
        ensures
            r == self.spec_supports(from, to),
    {
        (from == self.token_a && to == self.token_b) || (from == self.token_b
            && to == self.token_a)
    }

    fn swap(&self, st: &mut UnitState, from: TokenId, to: TokenId, amt_in: u128) -> (r: u128)
        ensures
            (*final(st), r) == self.spec_swap(*old(st), from, to, amt_in),
    {
        let num: u128 = if self.fee_bps >= 10000 {
            0
        } else {
            (10000 - self.fee_bps) as u128
        };
        let q = amt_in / 10000;
        let rem = amt_in % 10000;
        proof {
            let n = num as int;
            let a = amt_in as int;
            vstd::arithmetic::div_mod::lemma_fundamental_div_mod(a, 10000);
            // q * n stays within the input, so within u128.
            vstd::arithmetic::mul::lemma_mul_inequality(n, 10000, q as int);
            vstd::arithmetic::mul::lemma_mul_is_commutative(q as int, n);
            vstd::arithmetic::mul::lemma_mul_is_commutative(q as int, 10000);
            assert(q * n <= q * 10000);
            // rem * n is small.
            vstd::arithmetic::mul::lemma_mul_upper_bound(rem as int, 9999, n, 10000);
            // The split quotient equals the direct one.
            vstd::arithmetic::div_mod::lemma_hoist_over_denominator(
                rem * n,
                q * n,
                10000,
            );
            assert(rem * n + (q * n) * 10000 == a * n) by (nonlinear_arith)
                requires
                    a == 10000 * q + rem,
            ;
            vstd::arithmetic::div_mod::lemma_div_pos_is_pos(rem * n, 10000);
            vstd::arithmetic::mul::lemma_mul_nonnegative(rem as int, n);
            lemma_fee_amount_bounded(self.fee_bps, amt_in);
        }
        q * num + (rem * num) / 10000
    }
}

} // verus!
