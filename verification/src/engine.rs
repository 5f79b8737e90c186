//! The swap-execution engine: a balance-bounded single-hop swap, mutating
//! multi-hop execution, and read-only chained simulation, all driven
//! generically through the [`Pool`] capability.

use vstd::prelude::*;
use crate::alist::AList;
use crate::ids::{PoolId, TokenId};
use crate::pool::Pool;
use crate::world::{bal_of, World};

verus! {

/// The realized record of one hop: the declared direction together with
/// the amount fed in and the amount paid out.
#[derive(Clone, Copy, PartialEq, Eq, Structural, Debug)]
pub struct Step {
    pub pool: PoolId,
    pub from: TokenId,
    pub to: TokenId,
    pub amt_in: u128,
    pub amt_out: u128,
}

/// An ordered sequence of realized steps.
#[derive(Clone, Debug)]
pub struct Path {
    pub steps: Vec<Step>,
}

/// A declared hop: pool, input asset, output asset; amount-agnostic.
pub type Hop = (PoolId, TokenId, TokenId);

/// A declared hop together with the input amount requested for it.
pub type PlannedHop = (PoolId, TokenId, TokenId, u128);

/// Why a route evaluation aborted. Every variant is a caller contract
/// violation, fatal for the whole call.
///
/// A pool that does not support the requested direction is always a hard
/// error here, in every build: the engine never prices a direction the
/// pool disclaims.
#[derive(Clone, Copy, PartialEq, Eq, Structural, Debug)]
pub enum EngineError {
    /// The hop list has zero elements.
    EmptyRoute,
    /// A hop's declared input asset differs from its predecessor's
    /// declared output asset; `expected` names the asset that the
    /// predecessor emits.
    PathDiscontinuity { expected: TokenId },
    /// A hop references a pool absent from the implementation collection.
    UnknownPoolImplementation { pool: PoolId },
    /// A hop references a pool with no entry in the state ledger.
    UnseededPoolState { pool: PoolId },
    /// The pool does not convert `from` into `to`.
    UnsupportedDirection { pool: PoolId, from: TokenId, to: TokenId },
}

/// The smaller of two amounts.
pub open spec fn min_u128(a: u128, b: u128) -> u128 {
    if a <= b {
        a
    } else {
        b
    }
}

/// A balance after a credit: the sum, saturating at the largest
/// representable balance.
pub open spec fn credited(bal: u128, amt: u128) -> u128 {
    if bal + amt > u128::MAX {
        u128::MAX
    } else {
        (bal + amt) as u128
    }
}

/// The (input, output) asset pairs a declared route announces.
pub open spec fn hop_pairs(plan: Seq<Hop>) -> Seq<(TokenId, TokenId)> {
    plan.map_values(|h: Hop| (h.1, h.2))
}

/// The (input, output) asset pairs of a route with per-hop amounts.
pub open spec fn planned_pairs(plan: Seq<PlannedHop>) -> Seq<(TokenId, TokenId)> {
    plan.map_values(|h: PlannedHop| (h.1, h.2))
}

/// Each hop's input asset equals its predecessor's output asset.
pub open spec fn hops_continuous(s: Seq<(TokenId, TokenId)>) -> bool {
    forall|i: int| 1 <= i < s.len() ==> (#[trigger] s[i]).0 == s[i - 1].1
}

/// The least index at or after `i` whose hop breaks continuity, or the
/// length when none does.
pub open spec fn first_break_from(s: Seq<(TokenId, TokenId)>, i: int) -> int
    decreases s.len() - i,
{
    if i < 1 || i >= s.len() {
        s.len() as int
    } else if s[i].0 != s[i - 1].1 {
        i
    } else {
        first_break_from(s, i + 1)
    }
}

/// The first hop whose input asset mismatches, scanning from the second.
pub open spec fn first_discontinuity(s: Seq<(TokenId, TokenId)>) -> int {
    first_break_from(s, 1)
}

/// Scanning stops exactly at the first mismatch.
proof fn lemma_first_break_from(s: Seq<(TokenId, TokenId)>, a: int, b: int)
    requires
        1 <= a <= b <= s.len(),
        forall|j: int| a <= j < b ==> (#[trigger] s[j]).0 == s[j - 1].1,
        b < s.len() ==> s[b].0 != s[b - 1].1,
    ensures
        first_break_from(s, a) == if b < s.len() {
            b
        } else {
            s.len() as int
        },
    decreases b - a,
{
    if a < b {
        lemma_first_break_from(s, a + 1, b);
    }
}

/// One balance-bounded swap against live maps: the validation checks, the
/// cap at the held balance, the zero short-circuit, then debit, pricing
/// and credit, in that order.
pub open spec fn swap_outcome<P: Pool>(
    pools: Map<PoolId, P>,
    h: Map<TokenId, u128>,
    s: Map<PoolId, P::State>,
    pool: PoolId,
    from: TokenId,
    to: TokenId,
    amount_in: u128,
) -> Result<(u128, Map<TokenId, u128>, Map<PoolId, P::State>), EngineError> {
    if !pools.contains_key(pool) {
        Err(EngineError::UnknownPoolImplementation { pool })
    } else if !pools[pool].spec_supports(from, to) {
        Err(EngineError::UnsupportedDirection { pool, from, to })
    } else if !s.contains_key(pool) {
        Err(EngineError::UnseededPoolState { pool })
    } else {
        let have = bal_of(h, from);
        let pay = min_u128(amount_in, have);
        if pay == 0 {
            Ok((0, h, s))
        } else {
            let (st1, out) = pools[pool].spec_swap(s[pool], from, to, pay);
            let h1 = h.insert(from, (have - pay) as u128);
            let h2 = h1.insert(to, credited(bal_of(h1, to), out));
            Ok((out, h2, s.insert(pool, st1)))
        }
    }
}

/// Hops applied in order against live maps. On an error the maps reached
/// so far ride along: earlier hops stay applied.
pub open spec fn execute_hops<P: Pool>(
    pools: Map<PoolId, P>,
    h: Map<TokenId, u128>,
    s: Map<PoolId, P::State>,
    plan: Seq<PlannedHop>,
) -> Result<
    (Seq<Step>, Map<TokenId, u128>, Map<PoolId, P::State>),
    (EngineError, Map<TokenId, u128>, Map<PoolId, P::State>),
>
    decreases plan.len(),
{
    if plan.len() == 0 {
        Ok((Seq::empty(), h, s))
    } else {
        let (pid, from, to, amt) = plan[0];
        match swap_outcome(pools, h, s, pid, from, to, amt) {
            Ok(t) => {
                let step = Step { pool: pid, from, to, amt_in: amt, amt_out: t.0 };
                match execute_hops(pools, t.1, t.2, plan.drop_first()) {
                    Ok(rest) => Ok((seq![step] + rest.0, rest.1, rest.2)),
                    Err(e) => Err(e),
                }
            }
            Err(e) => Err((e, h, s)),
        }
    }
}

/// What `execute_path` does: its result and the maps it leaves behind.
pub open spec fn execute_model<P: Pool>(
    pools: Map<PoolId, P>,
    h: Map<TokenId, u128>,
    s: Map<PoolId, P::State>,
    plan: Seq<PlannedHop>,
) -> (Result<Seq<Step>, EngineError>, Map<TokenId, u128>, Map<PoolId, P::State>) {
    let pairs = planned_pairs(plan);
    if plan.len() == 0 {
        (Err(EngineError::EmptyRoute), h, s)
    } else if !hops_continuous(pairs) {
        (Err(EngineError::PathDiscontinuity { expected: pairs[first_discontinuity(pairs) - 1].1 }), h, s)
    } else {
        match execute_hops(pools, h, s, plan) {
            Ok(t) => (Ok(t.0), t.1, t.2),
            Err(e) => (Err(e.0), e.1, e.2),
        }
    }
}

/// Chained hops against scratch pool states seeded lazily from `base`;
/// the flowing amount is each hop's realized output, and a zero amount
/// flows through without invoking any pricing.
pub open spec fn simulate_hops<P: Pool>(
    pools: Map<PoolId, P>,
    base: Map<PoolId, P::State>,
    scratch: Map<PoolId, P::State>,
    plan: Seq<Hop>,
    amt_in: u128,
) -> Result<(Seq<Step>, Map<PoolId, P::State>), EngineError>
    decreases plan.len(),
{
    if plan.len() == 0 {
        Ok((Seq::empty(), scratch))
    } else {
        let (pid, from, to) = plan[0];
        if !pools.contains_key(pid) {
            Err(EngineError::UnknownPoolImplementation { pool: pid })
        } else if !pools[pid].spec_supports(from, to) {
            Err(EngineError::UnsupportedDirection { pool: pid, from, to })
        } else if !(scratch.contains_key(pid) || base.contains_key(pid)) {
            Err(EngineError::UnseededPoolState { pool: pid })
        } else {
            let st0 = if scratch.contains_key(pid) {
                scratch[pid]
            } else {
                base[pid]
            };
            let priced = if amt_in == 0 {
                (st0, 0u128)
            } else {
                pools[pid].spec_swap(st0, from, to, amt_in)
            };
            let step = Step { pool: pid, from, to, amt_in, amt_out: priced.1 };
            match simulate_hops(pools, base, scratch.insert(pid, priced.0), plan.drop_first(), priced.1) {
                Ok(rest) => Ok((seq![step] + rest.0, rest.1)),
                Err(e) => Err(e),
            }
        }
    }
}

/// What `simulate_chained` returns, given the ledger it only reads.
pub open spec fn simulate_model<P: Pool>(
    pools: Map<PoolId, P>,
    h: Map<TokenId, u128>,
    s: Map<PoolId, P::State>,
    plan: Seq<Hop>,
    first_in: u128,
    cap_first_hop: bool,
) -> Result<Seq<Step>, EngineError> {
    let pairs = hop_pairs(plan);
    if plan.len() == 0 {
        Err(EngineError::EmptyRoute)
    } else if !hops_continuous(pairs) {
        Err(EngineError::PathDiscontinuity { expected: pairs[first_discontinuity(pairs) - 1].1 })
    } else {
        let amt0 = if cap_first_hop {
            min_u128(first_in, bal_of(h, plan[0].1))
        } else {
            first_in
        };
        match simulate_hops(pools, s, Map::empty(), plan, amt0) {
            Ok(t) => Ok(t.0),
            Err(e) => Err(e),
        }
    }
}

/// A single hop never debits more than the held balance: when a swap
/// goes through, the amount taken out of `from` is the requested amount
/// capped at the pre-call balance, and the post-call balance of `from`
/// is exactly the pre-call balance less that debit.
pub proof fn lemma_apply_swap_debit_bounded<P: Pool>(
    pools: Map<PoolId, P>,
    h: Map<TokenId, u128>,
    s: Map<PoolId, P::State>,
    pool: PoolId,
    from: TokenId,
    to: TokenId,
    amount_in: u128,
)
    requires
        from != to,
    ensures
        match swap_outcome(pools, h, s, pool, from, to, amount_in) {
            Ok(t) => {
                let debited = min_u128(amount_in, bal_of(h, from));
                &&& debited <= bal_of(h, from)
                &&& bal_of(t.1, from) == bal_of(h, from) - debited
            },
            Err(_) => true,
        },
{
}

/// Realized steps mirror the declared route: one step per hop with the
/// hop's pool and direction; the first step's input is the flowing
/// amount handed in, each later step's input is its predecessor's
/// output, and a zero input always yields a zero output (the pricing
/// function is not even consulted for it).
pub proof fn lemma_simulate_steps_mirror<P: Pool>(
    pools: Map<PoolId, P>,
    base: Map<PoolId, P::State>,
    scratch: Map<PoolId, P::State>,
    plan: Seq<Hop>,
    amt: u128,
)
    ensures
        match simulate_hops(pools, base, scratch, plan, amt) {
            Ok(t) => {
                &&& t.0.len() == plan.len()
                &&& forall|i: int|
                    0 <= i < plan.len() ==> (#[trigger] t.0[i]).pool == plan[i].0 && t.0[i].from
                        == plan[i].1 && t.0[i].to == plan[i].2
                &&& plan.len() > 0 ==> t.0[0].amt_in == amt
                &&& forall|i: int|
                    1 <= i < plan.len() ==> (#[trigger] t.0[i]).amt_in == t.0[i - 1].amt_out
                &&& forall|i: int|
                    0 <= i < plan.len() ==> ((#[trigger] t.0[i]).amt_in == 0 ==> t.0[i].amt_out
                        == 0)
            },
            Err(_) => true,
        },
    decreases plan.len(),
{
    if plan.len() > 0 {
        let (pid, from, to) = plan[0];
        if pools.contains_key(pid) && pools[pid].spec_supports(from, to) && (
        scratch.contains_key(pid) || base.contains_key(pid)) {
            let st0 = if scratch.contains_key(pid) {
                scratch[pid]
            } else {
                base[pid]
            };
            let priced = if amt == 0 {
                (st0, 0u128)
            } else {
                pools[pid].spec_swap(st0, from, to, amt)
            };
            let step = Step { pool: pid, from, to, amt_in: amt, amt_out: priced.1 };
            lemma_simulate_steps_mirror(
                pools,
                base,
                scratch.insert(pid, priced.0),
                plan.drop_first(),
                priced.1,
            );
            match simulate_hops(
                pools,
                base,
                scratch.insert(pid, priced.0),
                plan.drop_first(),
                priced.1,
            ) {
                Ok(rest) => {
                    assert forall|i: int| 1 <= i < plan.len() implies (#[trigger] (seq![step]
                        + rest.0)[i]).amt_in == (seq![step] + rest.0)[i - 1].amt_out by {
                        assert(plan.drop_first()[i - 1] == plan[i]);
                    }
                    assert forall|i: int| 0 <= i < plan.len() implies (#[trigger] (seq![step]
                        + rest.0)[i]).pool == plan[i].0 && (seq![step] + rest.0)[i].from == plan[
                        i
                    ].1 && (seq![step] + rest.0)[i].to == plan[i].2 by {
                        if i > 0 {
                            assert(plan.drop_first()[i - 1] == plan[i]);
                        }
                    }
                }
                Err(_) => {}
            }
        }
    }
}

/// Realized steps mirror an explicit-amount route: one step per hop with
/// the hop's pool, direction and requested (uncapped) input amount.
pub proof fn lemma_execute_steps_mirror<P: Pool>(
    pools: Map<PoolId, P>,
    h: Map<TokenId, u128>,
    s: Map<PoolId, P::State>,
    plan: Seq<PlannedHop>,
)
    ensures
        match execute_hops(pools, h, s, plan) {
            Ok(t) => {
                &&& t.0.len() == plan.len()
                &&& forall|i: int|
                    0 <= i < plan.len() ==> (#[trigger] t.0[i]).pool == plan[i].0 && t.0[i].from
                        == plan[i].1 && t.0[i].to == plan[i].2 && t.0[i].amt_in == plan[i].3
            },
            Err(_) => true,
        },
    decreases plan.len(),
{
    if plan.len() > 0 {
        let (pid, from, to, amt) = plan[0];
        match swap_outcome(pools, h, s, pid, from, to, amt) {
            Ok(t) => {
                let step = Step { pool: pid, from, to, amt_in: amt, amt_out: t.0 };
                lemma_execute_steps_mirror(pools, t.1, t.2, plan.drop_first());
                match execute_hops(pools, t.1, t.2, plan.drop_first()) {
                    Ok(rest) => {
                        assert forall|i: int| 0 <= i < plan.len() implies (#[trigger] (seq![step]
                            + rest.0)[i]).pool == plan[i].0 && (seq![step] + rest.0)[i].from
                            == plan[i].1 && (seq![step] + rest.0)[i].to == plan[i].2 && (seq![step]
                            + rest.0)[i].amt_in == plan[i].3 by {
                            if i > 0 {
                                assert(plan.drop_first()[i - 1] == plan[i]);
                            }
                        }
                    }
                    Err(_) => {}
                }
            }
            Err(_) => {}
        }
    }
}

/// A successful chained simulation realizes a connected chain: the first
/// step starts at the route's declared starting asset, and every later
/// step starts at the asset its predecessor produced.
pub proof fn lemma_simulate_path_continuity<P: Pool>(
    pools: Map<PoolId, P>,
    h: Map<TokenId, u128>,
    s: Map<PoolId, P::State>,
    plan: Seq<Hop>,
    first_in: u128,
    cap_first_hop: bool,
)
    ensures
        match simulate_model(pools, h, s, plan, first_in, cap_first_hop) {
            Ok(steps) => {
                &&& steps.len() == plan.len()
                &&& steps.len() > 0
                &&& steps[0].from == plan[0].1
                &&& forall|i: int|
                    1 <= i < steps.len() ==> (#[trigger] steps[i]).from == steps[i - 1].to
            },
            Err(_) => true,
        },
{
    let pairs = hop_pairs(plan);
    if plan.len() > 0 && hops_continuous(pairs) {
        let amt0 = if cap_first_hop {
            min_u128(first_in, bal_of(h, plan[0].1))
        } else {
            first_in
        };
        lemma_simulate_steps_mirror(pools, s, Map::empty(), plan, amt0);
        match simulate_hops(pools, s, Map::empty(), plan, amt0) {
            Ok(t) => {
                assert forall|i: int| 1 <= i < t.0.len() implies (#[trigger] t.0[i]).from == t.0[
                    i - 1
                ].to by {
                    assert(pairs[i] == (plan[i].1, plan[i].2));
                    assert(pairs[i - 1] == (plan[i - 1].1, plan[i - 1].2));
                }
            }
            Err(_) => {}
        }
    }
}

/// A successful explicit-amount execution realizes a connected chain, in
/// the same sense as a chained simulation.
pub proof fn lemma_execute_path_continuity<P: Pool>(
    pools: Map<PoolId, P>,
    h: Map<TokenId, u128>,
    s: Map<PoolId, P::State>,
    plan: Seq<PlannedHop>,
)
    ensures
        match execute_model(pools, h, s, plan).0 {
            Ok(steps) => {
                &&& steps.len() == plan.len()
                &&& steps.len() > 0
                &&& steps[0].from == plan[0].1
                &&& forall|i: int|
                    1 <= i < steps.len() ==> (#[trigger] steps[i]).from == steps[i - 1].to
            },
            Err(_) => true,
        },
{
    let pairs = planned_pairs(plan);
    if plan.len() > 0 && hops_continuous(pairs) {
        lemma_execute_steps_mirror(pools, h, s, plan);
        match execute_hops(pools, h, s, plan) {
            Ok(t) => {
                assert forall|i: int| 1 <= i < t.0.len() implies (#[trigger] t.0[i]).from == t.0[
                    i - 1
                ].to by {
                    assert(pairs[i] == (plan[i].1, plan[i].2));
                    assert(pairs[i - 1] == (plan[i - 1].1, plan[i - 1].2));
                }
            }
            Err(_) => {}
        }
    }
}

/// Zero flow, once reached, stays: from the step where the flowing
/// amount is zero onward, every step records zero in and zero out.
proof fn lemma_zero_flow_from(steps: Seq<Step>, k: int, j: int)
    requires
        forall|i: int| 1 <= i < steps.len() ==> (#[trigger] steps[i]).amt_in == steps[i - 1].amt_out,
        forall|i: int|
            0 <= i < steps.len() ==> ((#[trigger] steps[i]).amt_in == 0 ==> steps[i].amt_out == 0),
        0 <= k <= j < steps.len(),
        steps[k].amt_in == 0,
    ensures
        steps[j].amt_in == 0,
        steps[j].amt_out == 0,
    decreases j - k,
{
    if j > k {
        lemma_zero_flow_from(steps, k, j - 1);
    }
}

/// The zero-input short-circuit of a chained simulation: if the flowing
/// amount reaches zero at some hop, every step from that hop on has
/// input and output zero. (In the running code no pricing function is
/// invoked for such a hop at all.)
pub proof fn lemma_simulate_zero_short_circuit<P: Pool>(
    pools: Map<PoolId, P>,
    base: Map<PoolId, P::State>,
    scratch: Map<PoolId, P::State>,
    plan: Seq<Hop>,
    amt: u128,
    k: int,
)
    ensures
        match simulate_hops(pools, base, scratch, plan, amt) {
            Ok(t) => 0 <= k < t.0.len() && t.0[k].amt_in == 0 ==> forall|j: int|
                k <= j < t.0.len() ==> (#[trigger] t.0[j]).amt_in == 0 && t.0[j].amt_out == 0,
            Err(_) => true,
        },
{
    lemma_simulate_steps_mirror(pools, base, scratch, plan, amt);
    match simulate_hops(pools, base, scratch, plan, amt) {
        Ok(t) => {
            if 0 <= k < t.0.len() && t.0[k].amt_in == 0 {
                assert forall|j: int| k <= j < t.0.len() implies (#[trigger] t.0[j]).amt_in == 0
                    && t.0[j].amt_out == 0 by {
                    lemma_zero_flow_from(t.0, k, j);
                }
            }
        }
        Err(_) => {}
    }
}

/// The route-evaluation engine: borrows the caller's collection of pool
/// implementations for its lifetime and owns nothing else.
pub struct Engine<'a, P: Pool> {
    pub pools: &'a AList<PoolId, P>,
}

impl<'a, P: Pool> Engine<'a, P> {
    /// An engine over the given pool implementations.
    pub fn new(pools: &'a AList<PoolId, P>) -> (e: Self)
        ensures
            e.pools@ == pools@,
    {
        Engine { pools }
    }

    /// One mutating, balance-bounded swap: caps the input at the held
    /// balance, short-circuits a zero amount without pricing, and
    /// otherwise debits `from`, prices against the live pool state, and
    /// credits `to`, durably. A credit that would overflow the balance
    /// type saturates at its maximum, as [`credited`] states.
    pub fn apply_swap(
        &self,
        world: &mut World<P::State>,
        pool: PoolId,
        from: TokenId,
        to: TokenId,
        amount_in: u128,
    ) -> (r: Result<u128, EngineError>)
        ensures
            ({
                let outcome = swap_outcome(
                    self.pools@,
                    old(world).holdings@,
                    old(world).pool_states@,
                    pool,
                    from,
                    to,
                    amount_in,
                );
                match outcome {
                    Ok(t) => r == Ok::<u128, EngineError>(t.0) && final(world).holdings@ == t.1
                        && final(world).pool_states@ == t.2,
                    Err(e) => r == Err::<u128, EngineError>(e) && *final(world) == *old(world),
                }
            }),
    {
        let imp = match self.pools.get(pool) {
            Some(p) => p,
            None => {
                return Err(EngineError::UnknownPoolImplementation { pool });
            }
        };
        if !imp.supports(from, to) {
            return Err(EngineError::UnsupportedDirection { pool, from, to });
        }
        let mut st: P::State = match world.pool_states.get(pool) {
            Some(s) => *s,
            None => {
                return Err(EngineError::UnseededPoolState { pool });
            }
        };
        let have = world.holding_of(from);
        let pay = if amount_in <= have {
            amount_in
        } else {
            have
        };
        if pay == 0 {
            return Ok(0);
        }
        let out = imp.swap(&mut st, from, to, pay);
        world.holdings.insert(from, have - pay);
        let to_bal = world.holding_of(to);
        let to_new = if to_bal <= u128::MAX - out {
            to_bal + out
        } else {
            u128::MAX
        };
        world.holdings.insert(to, to_new);
        world.pool_states.insert(pool, st);
        Ok(out)
    }

    /// Evaluates a route of hops with explicit per-hop input amounts, in
    /// order, against the live ledger. The route's shape is validated
    /// before any mutation; a per-hop failure after that aborts the call
    /// and leaves the hops already evaluated applied.
    pub fn execute_path(
        &self,
        world: &mut World<P::State>,
        plan: &Vec<PlannedHop>,
    ) -> (r: Result<Path, EngineError>)
        ensures
            ({
                let m = execute_model(
                    self.pools@,
                    old(world).holdings@,
                    old(world).pool_states@,
                    plan@,
                );
                &&& final(world).holdings@ == m.1
                &&& final(world).pool_states@ == m.2
                &&& match (r, m.0) {
                    (Ok(p), Ok(steps)) => p.steps@ == steps,
                    (Err(e), Err(me)) => e == me,
                    _ => false,
                }
            }),
    {
        let ghost pairs = planned_pairs(plan@);
        let n = plan.len();
        if n == 0 {
            return Err(EngineError::EmptyRoute);
        }
        let mut i: usize = 1;
        while i < n
            invariant
                1 <= i <= n,
                n == plan@.len(),
                pairs == planned_pairs(plan@),
                forall|j: int| 1 <= j < i ==> (#[trigger] pairs[j]).0 == pairs[j - 1].1,
            decreases n - i,
        {
            if plan[i].1 != plan[i - 1].2 {
                proof {
                    assert(pairs[i as int] == (plan@[i as int].1, plan@[i as int].2));
                    assert(pairs[i as int - 1] == (plan@[i as int - 1].1, plan@[i as int - 1].2));
                    lemma_first_break_from(pairs, 1, i as int);
                    assert(!hops_continuous(pairs));
                }
                return Err(EngineError::PathDiscontinuity { expected: plan[i - 1].2 });
            }
            i = i + 1;
        }
        proof {
            assert forall|j: int| 1 <= j < pairs.len() implies (#[trigger] pairs[j]).0 == pairs[
                j - 1
            ].1 by {}
            assert(hops_continuous(pairs));
        }

        let mut steps: Vec<Step> = Vec::new();
        let mut k: usize = 0;
        proof {
            assert(plan@.skip(0) =~= plan@);
            match execute_hops(self.pools@, world.holdings@, world.pool_states@, plan@) {
                Ok(t) => {
                    assert(Seq::<Step>::empty() + t.0 =~= t.0);
                }
                Err(_) => {}
            }
        }
        while k < n
            invariant
                0 <= k <= n,
                n == plan@.len(),
                steps@.len() == k,
                hops_continuous(planned_pairs(plan@)),
                ({
                    let full = execute_hops(
                        self.pools@,
                        old(world).holdings@,
                        old(world).pool_states@,
                        plan@,
                    );
                    let rest = execute_hops(
                        self.pools@,
                        world.holdings@,
                        world.pool_states@,
                        plan@.skip(k as int),
                    );
                    match rest {
                        Ok(t) => full == Ok::<_, (EngineError, Map<TokenId, u128>, Map<
                            PoolId,
                            P::State,
                        >)>((steps@ + t.0, t.1, t.2)),
                        Err(e) => full == Err::<
                            (Seq<Step>, Map<TokenId, u128>, Map<PoolId, P::State>),
                            _,
                        >(e),
                    }
                }),
            decreases n - k,
        {
            let hop = plan[k];
            let res = self.apply_swap(world, hop.0, hop.1, hop.2, hop.3);
            proof {
                assert(plan@.skip(k as int)[0] == plan@[k as int]);
            }
            match res {
                Ok(out) => {
                    let ghost pre_steps = steps@;
                    steps.push(
                        Step { pool: hop.0, from: hop.1, to: hop.2, amt_in: hop.3, amt_out: out },
                    );
                    proof {
                        let step = Step {
                            pool: hop.0,
                            from: hop.1,
                            to: hop.2,
                            amt_in: hop.3,
                            amt_out: out,
                        };
                        assert(steps@ =~= pre_steps.push(step));
                        assert(plan@.skip(k as int).drop_first() =~= plan@.skip(k as int + 1));
                        match execute_hops(
                            self.pools@,
                            world.holdings@,
                            world.pool_states@,
                            plan@.skip(k as int + 1),
                        ) {
                            Ok(t) => {
                                assert(pre_steps + (seq![step] + t.0) =~= steps@ + t.0);
                            }
                            Err(_) => {}
                        }
                    }
                    k = k + 1;
                }
                Err(e) => {
                    return Err(e);
                }
            }
        }
        proof {
            assert(plan@.skip(n as int) =~= Seq::<PlannedHop>::empty());
            assert(steps@ + Seq::<Step>::empty() =~= steps@);
        }
        Ok(Path { steps })
    }

    /// Evaluates a route of amount-agnostic hops read-only: pricing runs
    /// against per-call scratch copies of pool state, the first hop's
    /// input is `first_in` (capped at the held balance of the starting
    /// asset when `cap_first_hop` is set), and every later hop's input is
    /// the previous hop's realized output, uncapped. The ledger is only
    /// read, never changed.
    pub fn simulate_chained(
        &self,
        world: &World<P::State>,
        plan: &Vec<Hop>,
        first_in: u128,
        cap_first_hop: bool,
    ) -> (r: Result<Path, EngineError>)
        ensures
            ({
                let m = simulate_model(
                    self.pools@,
                    world.holdings@,
                    world.pool_states@,
                    plan@,
                    first_in,
                    cap_first_hop,
                );
                match (r, m) {
                    (Ok(p), Ok(steps)) => p.steps@ == steps,
                    (Err(e), Err(me)) => e == me,
                    _ => false,
                }
            }),
    {
        let ghost pairs = hop_pairs(plan@);
        let n = plan.len();
        if n == 0 {
            return Err(EngineError::EmptyRoute);
        }
        let mut i: usize = 1;
        while i < n
            invariant
                1 <= i <= n,
                n == plan@.len(),
                pairs == hop_pairs(plan@),
                forall|j: int| 1 <= j < i ==> (#[trigger] pairs[j]).0 == pairs[j - 1].1,
            decreases n - i,
        {
            if plan[i].1 != plan[i - 1].2 {
                proof {
                    assert(pairs[i as int] == (plan@[i as int].1, plan@[i as int].2));
                    assert(pairs[i as int - 1] == (plan@[i as int - 1].1, plan@[i as int - 1].2));
                    lemma_first_break_from(pairs, 1, i as int);
                    assert(!hops_continuous(pairs));
                }
                return Err(EngineError::PathDiscontinuity { expected: plan[i - 1].2 });
            }
            i = i + 1;
        }
        assert(hops_continuous(pairs));

        let mut amt: u128 = if cap_first_hop {
            let have = world.holding_of(plan[0].1);
            if first_in <= have {
                first_in
            } else {
                have
            }
        } else {
            first_in
        };
        let ghost amt0 = amt;
        let mut scratch: AList<PoolId, P::State> = AList::new();
        let mut steps: Vec<Step> = Vec::new();
        let mut k: usize = 0;
        proof {
            assert(plan@.skip(0) =~= plan@);
            match simulate_hops(self.pools@, world.pool_states@, Map::<PoolId, P::State>::empty(), plan@, amt0) {
                Ok(t) => {
                    assert(Seq::<Step>::empty() + t.0 =~= t.0);
                }
                Err(_) => {}
            }
        }
        while k < n
            invariant
                0 <= k <= n,
                n == plan@.len(),
                steps@.len() == k,
                pairs == hop_pairs(plan@),
                hops_continuous(pairs),
                amt0 == if cap_first_hop {
                    min_u128(first_in, bal_of(world.holdings@, plan@[0].1))
                } else {
                    first_in
                },
                ({
                    let full = simulate_hops(
                        self.pools@,
                        world.pool_states@,
                        Map::empty(),
                        plan@,
                        amt0,
                    );
                    let rest = simulate_hops(
                        self.pools@,
                        world.pool_states@,
                        scratch@,
                        plan@.skip(k as int),
                        amt,
                    );
                    match rest {
                        Ok(t) => full == Ok::<_, EngineError>((steps@ + t.0, t.1)),
                        Err(e) => full == Err::<(Seq<Step>, Map<PoolId, P::State>), _>(e),
                    }
                }),
            decreases n - k,
        {
            let hop = plan[k];
            let pid = hop.0;
            let from = hop.1;
            let to = hop.2;
            proof {
                assert(plan@.skip(k as int)[0] == plan@[k as int]);
            }
            let imp = match self.pools.get(pid) {
                Some(p) => p,
                None => {
                    return Err(EngineError::UnknownPoolImplementation { pool: pid });
                }
            };
            if !imp.supports(from, to) {
                return Err(EngineError::UnsupportedDirection { pool: pid, from, to });
            }
            let mut st: P::State = match scratch.get(pid) {
                Some(s) => *s,
                None => match world.pool_states.get(pid) {
                    Some(s) => *s,
                    None => {
                        return Err(EngineError::UnseededPoolState { pool: pid });
                    }
                },
            };
            let out = if amt == 0 {
                0
            } else {
                imp.swap(&mut st, from, to, amt)
            };
            scratch.insert(pid, st);
            let ghost pre_steps = steps@;
            steps.push(Step { pool: pid, from, to, amt_in: amt, amt_out: out });
            proof {
                let step = Step { pool: pid, from, to, amt_in: amt, amt_out: out };
                assert(steps@ =~= pre_steps.push(step));
                assert(plan@.skip(k as int).drop_first() =~= plan@.skip(k as int + 1));
                match simulate_hops(
                    self.pools@,
                    world.pool_states@,
                    scratch@,
                    plan@.skip(k as int + 1),
                    out,
                ) {
                    Ok(t) => {
                        assert(pre_steps + (seq![step] + t.0) =~= steps@ + t.0);
                    }
                    Err(_) => {}
                }
            }
            amt = out;
            k = k + 1;
        }
        proof {
            assert(plan@.skip(n as int) =~= Seq::<Hop>::empty());
            assert(steps@ + Seq::<Step>::empty() =~= steps@);
        }
        Ok(Path { steps })
    }
}

} // verus!
