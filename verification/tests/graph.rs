use amm_router::{AMMGraph, NodeKind, PoolId, TokenId};

#[test]
fn add_token_and_pool_are_idempotent() {
    let mut g = AMMGraph::new();
    let t = TokenId(1);
    let p = PoolId(100);

    let t1 = g.add_token(t);
    let t2 = g.add_token(t);
    assert_eq!(t1, t2, "add_token should be idempotent");
    assert!(matches!(g.node_kind(t1), Some(NodeKind::Token(TokenId(1)))));
    assert_eq!(g.node_count(), 1);

    let p1 = g.add_pool(p);
    let p2 = g.add_pool(p);
    assert_eq!(p1, p2, "add_pool should be idempotent");
    assert!(matches!(g.node_kind(p1), Some(NodeKind::Pool(PoolId(100)))));
    assert_eq!(g.node_count(), 2);
}

#[test]
fn connect_token_to_pool_and_query() {
    let mut g = AMMGraph::new();
    let t = TokenId(1);
    let p = PoolId(10);

    g.connect_token_to_pool(t, p);

    let pools = g.pools_accepting(t);
    assert_eq!(pools.len(), 1);
    assert!(matches!(g.node_kind(pools[0]), Some(NodeKind::Pool(PoolId(10)))));

    let tokens = g.tokens_emitted_by(p);
    assert!(tokens.is_empty());

    assert_eq!(g.edge_count(), 1);
    let tix = g.token_index(t).unwrap();
    let pix = g.pool_index(p).unwrap();
    assert!(g.has_edge(tix, pix));
    assert!(!g.has_edge(pix, tix), "no implicit reverse edge");
}

#[test]
fn connect_pool_to_token_and_query() {
    let mut g = AMMGraph::new();
    let t = TokenId(2);
    let p = PoolId(20);

    g.connect_pool_to_token(p, t);

    let tokens = g.tokens_emitted_by(p);
    assert_eq!(tokens.len(), 1);
    assert!(matches!(g.node_kind(tokens[0]), Some(NodeKind::Token(TokenId(2)))));

    let pools = g.pools_accepting(t);
    assert!(pools.is_empty());

    assert_eq!(g.edge_count(), 1);
    let tix = g.token_index(t).unwrap();
    let pix = g.pool_index(p).unwrap();
    assert!(g.has_edge(pix, tix));
    assert!(!g.has_edge(tix, pix));
}

#[test]
fn connect_bidirectional_pair_wires_both_directions_without_dupes() {
    let mut g = AMMGraph::new();
    let a = TokenId(7);
    let b = TokenId(8);
    let p = PoolId(70);

    g.connect_bidirectional_pair(p, a, b);

    let aix = g.token_index(a).unwrap();
    let bix = g.token_index(b).unwrap();
    let pix = g.pool_index(p).unwrap();
    assert!(g.has_edge(aix, pix));
    assert!(g.has_edge(pix, bix));
    assert!(g.has_edge(bix, pix));
    assert!(g.has_edge(pix, aix));
    assert_eq!(g.edge_count(), 4);

    g.connect_bidirectional_pair(p, a, b);
    assert_eq!(g.edge_count(), 4, "edges should be unique");
}

#[test]
fn raw_links_allow_parallel_edges() {
    let mut g = AMMGraph::new();
    let t = TokenId(5);
    let p = PoolId(50);

    g.connect_token_to_pool(t, p);
    g.connect_token_to_pool(t, p);
    assert_eq!(g.edge_count(), 2);
    assert_eq!(g.node_count(), 2);

    // The adjacency query reports one entry per edge.
    let pools = g.pools_accepting(t);
    assert_eq!(pools.len(), 2);
}

#[test]
fn adjacency_lists_most_recent_first() {
    let mut g = AMMGraph::new();
    let t = TokenId(1);
    let p1 = PoolId(10);
    let p2 = PoolId(11);

    g.connect_token_to_pool(t, p1);
    g.connect_token_to_pool(t, p2);

    let pools = g.pools_accepting(t);
    assert_eq!(pools.len(), 2);
    assert!(matches!(g.node_kind(pools[0]), Some(NodeKind::Pool(PoolId(11)))));
    assert!(matches!(g.node_kind(pools[1]), Some(NodeKind::Pool(PoolId(10)))));
}

#[test]
fn adjacency_filters_by_node_kind() {
    let mut g = AMMGraph::new();
    let a = TokenId(1);
    let b = TokenId(2);
    let p = PoolId(10);

    // a feeds the pool, the pool emits b; from a, only pool nodes are
    // one outgoing step away, and from the pool only token nodes.
    g.connect_token_to_pool(a, p);
    g.connect_pool_to_token(p, b);

    let pools = g.pools_accepting(a);
    assert_eq!(pools.len(), 1);
    assert!(matches!(g.node_kind(pools[0]), Some(NodeKind::Pool(PoolId(10)))));

    let tokens = g.tokens_emitted_by(p);
    assert_eq!(tokens.len(), 1);
    assert!(matches!(g.node_kind(tokens[0]), Some(NodeKind::Token(TokenId(2)))));

    assert_eq!(g.node_count(), 3);
    assert_eq!(g.edge_count(), 2);
}

#[test]
fn node_kind_rejects_unknown_handles() {
    let mut g = AMMGraph::new();
    assert!(g.node_kind(0).is_none());
    let ix = g.add_token(TokenId(9));
    assert!(g.node_kind(ix).is_some());
    assert!(g.node_kind(ix + 1).is_none());
    assert!(g.token_index(TokenId(8)).is_none());
    assert!(g.pool_index(PoolId(8)).is_none());
}
