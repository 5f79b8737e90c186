use amm_router::{Addr, PoolId, PoolKind, PoolMeta, Registry, TokenId, TokenMeta};

fn addr(n: u128) -> Addr {
    Addr { hi: 0, lo: n }
}

#[test]
fn token_upsert_and_lookup() {
    let mut reg = Registry::new();
    let tid = TokenId(1);

    assert!(reg.token(tid).is_none());

    let meta = TokenMeta { address: addr(0xaa), symbol: String::from("WETH"), decimals: 18 };
    reg.upsert_token(tid, meta);

    let found = reg.token(tid).unwrap();
    assert_eq!(found.address, addr(0xaa));
    assert_eq!(found.symbol, "WETH");
    assert_eq!(found.decimals, 18);
}

#[test]
fn pool_upsert_and_lookup() {
    let mut reg = Registry::new();
    let pid = PoolId(7);

    assert!(reg.pool(pid).is_none());

    let meta = PoolMeta {
        address: addr(0xbb),
        kind: PoolKind::UniV3,
        token0: TokenId(1),
        token1: TokenId(2),
        fee: 3000,
    };
    reg.upsert_pool(pid, meta);

    let found = reg.pool(pid).unwrap();
    assert_eq!(found.address, addr(0xbb));
    assert!(matches!(found.kind, PoolKind::UniV3));
    assert_eq!(found.token0, TokenId(1));
    assert_eq!(found.token1, TokenId(2));
    assert_eq!(found.fee, 3000);
}

#[test]
fn upsert_replaces_earlier_binding() {
    let mut reg = Registry::new();
    let tid = TokenId(1);

    reg.upsert_token(tid, TokenMeta { address: addr(1), symbol: String::from("OLD"), decimals: 6 });
    reg.upsert_token(tid, TokenMeta { address: addr(2), symbol: String::from("NEW"), decimals: 8 });

    let found = reg.token(tid).unwrap();
    assert_eq!(found.symbol, "NEW");
    assert_eq!(found.decimals, 8);
    assert_eq!(found.address, addr(2));
}
