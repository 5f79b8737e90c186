use amm_router::{AList, Engine, EngineError, FeePool, Hop, PlannedHop, PoolId, TokenId, UnitState, World};

fn fee_pool(id: PoolId, a: TokenId, b: TokenId, fee_bps: u32) -> FeePool {
    FeePool { pool_id: id, token_a: a, token_b: b, fee_bps }
}

fn two_hop_setup() -> (AList<PoolId, FeePool>, World<UnitState>, TokenId, TokenId, TokenId, PoolId, PoolId) {
    let x = TokenId(1);
    let y = TokenId(2);
    let z = TokenId(3);
    let p_xy = PoolId(10);
    let p_yz = PoolId(11);

    let mut pools: AList<PoolId, FeePool> = AList::new();
    pools.insert(p_xy, fee_pool(p_xy, x, y, 100));
    pools.insert(p_yz, fee_pool(p_yz, y, z, 200));

    let mut world: World<UnitState> = World::new();
    world.pool_states.insert(p_xy, UnitState);
    world.pool_states.insert(p_yz, UnitState);
    world.holdings.insert(x, 1_000_000);
    world.holdings.insert(y, 0);
    world.holdings.insert(z, 0);

    (pools, world, x, y, z, p_xy, p_yz)
}

#[test]
fn chained_simulation() {
    let (pools, world, x, y, z, p_xy, p_yz) = two_hop_setup();
    let engine = Engine::new(&pools);

    let before_x = world.holding_of(x);
    let before_y = world.holding_of(y);
    let before_z = world.holding_of(z);

    let plan: Vec<Hop> = vec![(p_xy, x, y), (p_yz, y, z)];
    let first_in: u128 = 250_000;

    let path = engine.simulate_chained(&world, &plan, first_in, true).unwrap();

    assert!(world.pool_states.contains_key(p_xy));
    assert!(world.pool_states.contains_key(p_yz));
    assert_eq!(world.holding_of(x), before_x);
    assert_eq!(world.holding_of(y), before_y);
    assert_eq!(world.holding_of(z), before_z);

    assert_eq!(path.steps.len(), 2);
    assert_eq!(path.steps[0].amt_in, 250_000);
    assert_eq!(path.steps[0].amt_out, 247_500);
    assert_eq!(path.steps[1].amt_in, path.steps[0].amt_out);
    assert_eq!(path.steps[1].amt_out, 242_550);

    assert_eq!(path.steps[1].to, z);
}

#[test]
fn chained_simulation_steps_are_continuous() {
    let (pools, world, x, y, z, p_xy, p_yz) = two_hop_setup();
    let engine = Engine::new(&pools);

    let plan: Vec<Hop> = vec![(p_xy, x, y), (p_yz, y, z)];
    let path = engine.simulate_chained(&world, &plan, 250_000, true).unwrap();

    assert_eq!(path.steps[0].from, x);
    assert_eq!(path.steps[0].to, y);
    assert_eq!(path.steps[1].from, path.steps[0].to);
    assert_eq!(path.steps[1].to, z);
}

#[test]
fn execution_with_fixed_second_amount() {
    let (pools, mut world, x, y, z, p_xy, p_yz) = two_hop_setup();
    let engine = Engine::new(&pools);

    let plan: Vec<PlannedHop> = vec![(p_xy, x, y, 250_000), (p_yz, y, z, 200_000)];
    let path = engine.execute_path(&mut world, &plan).unwrap();

    assert_eq!(path.steps.len(), 2);
    assert_eq!(path.steps[0].amt_in, 250_000);
    assert_eq!(path.steps[0].amt_out, 247_500);
    assert_eq!(path.steps[1].amt_in, 200_000);
    assert_eq!(path.steps[1].amt_out, 196_000);

    assert_eq!(world.holding_of(x), 750_000);
    assert_eq!(world.holding_of(y), 47_500);
    assert_eq!(world.holding_of(z), 196_000);
}

#[test]
fn apply_swap_debit_never_exceeds_balance() {
    let (pools, mut world, x, y, _z, p_xy, _p_yz) = two_hop_setup();
    let engine = Engine::new(&pools);

    world.holdings.insert(x, 100);
    let out = engine.apply_swap(&mut world, p_xy, x, y, 250_000).unwrap();

    // Of the requested 250,000 only the held 100 is swapped.
    assert_eq!(world.holding_of(x), 0);
    assert_eq!(out, 99);
    assert_eq!(world.holding_of(y), 99);
}

#[test]
fn apply_swap_zero_balance_short_circuits() {
    let (pools, mut world, _x, y, z, _p_xy, p_yz) = two_hop_setup();
    let engine = Engine::new(&pools);

    // Nothing of y is held, so the swap returns zero and changes nothing.
    let out = engine.apply_swap(&mut world, p_yz, y, z, 5_000).unwrap();
    assert_eq!(out, 0);
    assert_eq!(world.holding_of(y), 0);
    assert_eq!(world.holding_of(z), 0);
}

#[test]
fn simulation_zero_flow_propagates() {
    let (pools, world, x, y, z, p_xy, p_yz) = two_hop_setup();
    let engine = Engine::new(&pools);

    let plan: Vec<Hop> = vec![(p_xy, x, y), (p_yz, y, z)];
    let path = engine.simulate_chained(&world, &plan, 0, false).unwrap();

    assert_eq!(path.steps.len(), 2);
    assert_eq!(path.steps[0].amt_in, 0);
    assert_eq!(path.steps[0].amt_out, 0);
    assert_eq!(path.steps[1].amt_in, 0);
    assert_eq!(path.steps[1].amt_out, 0);
}

#[test]
fn empty_route_is_rejected_by_both_entry_points() {
    let (pools, mut world, _x, _y, _z, _p_xy, _p_yz) = two_hop_setup();
    let engine = Engine::new(&pools);

    let sim_plan: Vec<Hop> = vec![];
    let exec_plan: Vec<PlannedHop> = vec![];

    assert_eq!(
        engine.simulate_chained(&world, &sim_plan, 1_000, true).unwrap_err(),
        EngineError::EmptyRoute
    );
    assert_eq!(
        engine.execute_path(&mut world, &exec_plan).unwrap_err(),
        EngineError::EmptyRoute
    );
}

#[test]
fn discontinuous_route_is_rejected_before_any_mutation() {
    let (pools, mut world, x, y, z, p_xy, p_yz) = two_hop_setup();
    let engine = Engine::new(&pools);

    // The second hop claims to start from x, but the first emits y.
    let exec_plan: Vec<PlannedHop> = vec![(p_xy, x, y, 250_000), (p_yz, x, z, 100_000)];
    let err = engine.execute_path(&mut world, &exec_plan).unwrap_err();
    assert_eq!(err, EngineError::PathDiscontinuity { expected: y });
    assert_eq!(world.holding_of(x), 1_000_000);
    assert_eq!(world.holding_of(y), 0);
    assert_eq!(world.holding_of(z), 0);

    let sim_plan: Vec<Hop> = vec![(p_xy, x, y), (p_yz, x, z)];
    let err = engine.simulate_chained(&world, &sim_plan, 250_000, true).unwrap_err();
    assert_eq!(err, EngineError::PathDiscontinuity { expected: y });
}

#[test]
fn unknown_pool_implementation_is_fatal() {
    let (pools, mut world, x, y, _z, _p_xy, _p_yz) = two_hop_setup();
    let engine = Engine::new(&pools);

    let absent_pool = PoolId(99);
    let err = engine.apply_swap(&mut world, absent_pool, x, y, 1_000).unwrap_err();
    assert_eq!(err, EngineError::UnknownPoolImplementation { pool: absent_pool });

    let sim_plan: Vec<Hop> = vec![(absent_pool, x, y)];
    let err = engine.simulate_chained(&world, &sim_plan, 1_000, true).unwrap_err();
    assert_eq!(err, EngineError::UnknownPoolImplementation { pool: absent_pool });
}

#[test]
fn unseeded_pool_state_is_fatal() {
    let (pools, mut world, x, y, _z, p_xy, p_yz) = two_hop_setup();
    let engine = Engine::new(&pools);

    // A fresh world holds no state for p_xy.
    let mut bare: World<UnitState> = World::new();
    bare.holdings.insert(x, 1_000);
    let err = engine.apply_swap(&mut bare, p_xy, x, y, 1_000).unwrap_err();
    assert_eq!(err, EngineError::UnseededPoolState { pool: p_xy });

    // Even a zero-amount hop needs its pool state seeded.
    world.pool_states = {
        let mut only_first: AList<PoolId, UnitState> = AList::new();
        only_first.insert(p_xy, UnitState);
        only_first
    };
    let sim_plan: Vec<Hop> = vec![(p_yz, y, TokenId(3))];
    let err = engine.simulate_chained(&world, &sim_plan, 0, false).unwrap_err();
    assert_eq!(err, EngineError::UnseededPoolState { pool: p_yz });
}

#[test]
fn unsupported_direction_is_fatal() {
    let (pools, mut world, x, _y, z, p_xy, _p_yz) = two_hop_setup();
    let engine = Engine::new(&pools);

    // p_xy trades x and y, never z.
    let err = engine.apply_swap(&mut world, p_xy, x, z, 1_000).unwrap_err();
    assert_eq!(err, EngineError::UnsupportedDirection { pool: p_xy, from: x, to: z });

    let sim_plan: Vec<Hop> = vec![(p_xy, x, z)];
    let err = engine.simulate_chained(&world, &sim_plan, 1_000, true).unwrap_err();
    assert_eq!(err, EngineError::UnsupportedDirection { pool: p_xy, from: x, to: z });
}

#[test]
fn first_hop_cap_is_optional_and_only_first() {
    let (pools, world, x, y, z, p_xy, p_yz) = two_hop_setup();
    let engine = Engine::new(&pools);

    let plan: Vec<Hop> = vec![(p_xy, x, y), (p_yz, y, z)];

    // Capped: only the held 1,000,000 flows in.
    let path = engine.simulate_chained(&world, &plan, 2_000_000, true).unwrap();
    assert_eq!(path.steps[0].amt_in, 1_000_000);
    assert_eq!(path.steps[0].amt_out, 990_000);
    // The second hop is not capped by the (zero) holding of y.
    assert_eq!(path.steps[1].amt_in, 990_000);
    assert_eq!(path.steps[1].amt_out, 970_200);

    // Uncapped: the requested amount flows in regardless of holdings.
    let path = engine.simulate_chained(&world, &plan, 2_000_000, false).unwrap();
    assert_eq!(path.steps[0].amt_in, 2_000_000);
    assert_eq!(path.steps[0].amt_out, 1_980_000);
}

#[test]
fn fee_pool_rounds_toward_zero() {
    let (pools, mut world, x, _y, _z, p_xy, _p_yz) = two_hop_setup();
    let engine = Engine::new(&pools);

    world.holdings.insert(x, 99);
    // 99 * 9900 / 10000 = 98.01, recorded as 98.
    let out = engine.apply_swap(&mut world, p_xy, x, TokenId(2), 99).unwrap();
    assert_eq!(out, 98);
}
