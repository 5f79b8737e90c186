use amm_router::{AList, PoolId, TokenId, UnitState, World};

#[test]
fn holdings_default_to_zero() {
    let world: World<UnitState> = World::new();
    assert_eq!(world.holding_of(TokenId(42)), 0);
}

#[test]
fn holdings_read_back_what_was_credited() {
    let mut world: World<UnitState> = World::new();
    world.holdings.insert(TokenId(1), 55);
    world.holdings.insert(TokenId(2), 0);
    assert_eq!(world.holding_of(TokenId(1)), 55);
    assert_eq!(world.holding_of(TokenId(2)), 0);
    assert_eq!(world.holding_of(TokenId(3)), 0);
}

#[test]
fn pool_states_are_only_what_was_seeded() {
    let mut world: World<u64> = World::new();
    assert!(world.pool_states.get(PoolId(1)).is_none());
    world.pool_states.insert(PoolId(1), 17);
    assert_eq!(*world.pool_states.get(PoolId(1)).unwrap(), 17);
    assert!(world.pool_states.get(PoolId(2)).is_none());
}

#[test]
fn map_insert_supersedes() {
    let mut m: AList<TokenId, u128> = AList::new();
    assert!(!m.contains_key(TokenId(1)));
    m.insert(TokenId(1), 10);
    m.insert(TokenId(1), 20);
    assert!(m.contains_key(TokenId(1)));
    assert_eq!(*m.get(TokenId(1)).unwrap(), 20);
    assert!(m.get(TokenId(9)).is_none());
}
