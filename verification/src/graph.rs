//! The connectivity graph: a directed multigraph over asset and pool
//! nodes recording which pools accept which assets and emit which assets,
//! with idempotent node insertion and an edge-deduplicating paired link.

use vstd::prelude::*;
use petgraph::stable_graph::StableGraph;
use petgraph::Directed;
use crate::alist::AList;
use crate::graph_backend::{
    graph_clean, graph_edges, graph_nodes, out_targets, sg_add_edge, sg_add_node, sg_edge_count,
    sg_find_edge, sg_neighbors_out, sg_new, sg_node_count, sg_node_weight,
};
use crate::ids::{PoolId, TokenId};

verus! {

/// What a graph node stands for: an asset or a pool.
#[derive(Clone, Copy, PartialEq, Eq, Structural, Debug)]
pub enum NodeKind {
    Token(TokenId),
    Pool(PoolId),
}

/// Where pool codes start; token codes lie below it.
pub open spec fn pool_code_base() -> u64 {
    0x1_0000_0000u64
}

/// The payload stored for a node.
pub open spec fn spec_encode_kind(k: NodeKind) -> u64 {
    match k {
        NodeKind::Token(t) => t.0 as u64,
        NodeKind::Pool(p) => (pool_code_base() + p.0 as u64) as u64,
    }
}

/// A payload this graph can have stored: a token or a pool code.
pub open spec fn valid_code(w: u64) -> bool {
    w < 0x1_0000 || (pool_code_base() <= w < 0x2_0000_0000)
}

/// Whether a payload encodes a pool node.
pub open spec fn is_pool_code(w: u64) -> bool {
    w >= pool_code_base()
}

/// The node a valid payload encodes.
pub open spec fn spec_decode_kind(w: u64) -> NodeKind {
    if is_pool_code(w) {
        NodeKind::Pool(PoolId((w - pool_code_base()) as u32))
    } else {
        NodeKind::Token(TokenId(w as u16))
    }
}

/// The state of the connectivity graph, as plain mathematics: node
/// payloads in index order, edges in insertion order, and the
/// identifier-to-handle correspondences.
#[verifier::ext_equal]
pub ghost struct GraphModel {
    pub nodes: Seq<u64>,
    pub edges: Seq<(int, int)>,
    pub tokens: Map<TokenId, usize>,
    pub pools: Map<PoolId, usize>,
}

/// Idempotent token-node insertion on the model: the existing handle, or
/// a node appended at the next index.
pub open spec fn add_token_model(m: GraphModel, t: TokenId) -> (GraphModel, usize) {
    if m.tokens.contains_key(t) {
        (m, m.tokens[t])
    } else {
        let ix = m.nodes.len() as usize;
        (
            GraphModel {
                nodes: m.nodes.push(spec_encode_kind(NodeKind::Token(t))),
                tokens: m.tokens.insert(t, ix),
                ..m
            },
            ix,
        )
    }
}

/// Idempotent pool-node insertion on the model.
pub open spec fn add_pool_model(m: GraphModel, p: PoolId) -> (GraphModel, usize) {
    if m.pools.contains_key(p) {
        (m, m.pools[p])
    } else {
        let ix = m.nodes.len() as usize;
        (
            GraphModel {
                nodes: m.nodes.push(spec_encode_kind(NodeKind::Pool(p))),
                pools: m.pools.insert(p, ix),
                ..m
            },
            ix,
        )
    }
}

/// Deduplicating edge insertion on the model: a no-op when the ordered
/// pair already has an edge.
pub open spec fn add_edge_unique_model(m: GraphModel, a: int, b: int) -> GraphModel {
    if m.edges.contains((a, b)) {
        m
    } else {
        GraphModel { edges: m.edges.push((a, b)), ..m }
    }
}

/// What `connect_token_to_pool` does: both nodes brought into existence,
/// then one more token-to-pool edge, duplicates allowed.
pub open spec fn link_token_pool_model(m: GraphModel, t: TokenId, p: PoolId) -> GraphModel {
    let (m1, tix) = add_token_model(m, t);
    let (m2, pix) = add_pool_model(m1, p);
    GraphModel { edges: m2.edges.push((tix as int, pix as int)), ..m2 }
}

/// What `connect_pool_to_token` does, with the pool node created first.
pub open spec fn link_pool_token_model(m: GraphModel, p: PoolId, t: TokenId) -> GraphModel {
    let (m1, pix) = add_pool_model(m, p);
    let (m2, tix) = add_token_model(m1, t);
    GraphModel { edges: m2.edges.push((pix as int, tix as int)), ..m2 }
}

/// What `connect_bidirectional_pair` does: nodes for both assets and the
/// pool, then the four edges of two-way tradability, each inserted only
/// if absent.
pub open spec fn link_pair_model(m: GraphModel, p: PoolId, a: TokenId, b: TokenId) -> GraphModel {
    let (m1, aix) = add_token_model(m, a);
    let (m2, bix) = add_token_model(m1, b);
    let (m3, pix) = add_pool_model(m2, p);
    let m4 = add_edge_unique_model(m3, aix as int, pix as int);
    let m5 = add_edge_unique_model(m4, pix as int, bix as int);
    let m6 = add_edge_unique_model(m5, bix as int, pix as int);
    add_edge_unique_model(m6, pix as int, aix as int)
}

/// The candidates among `cand` that index a node of the wanted kind.
pub open spec fn keep_kind(nodes: Seq<u64>, cand: Seq<int>, want_pool: bool) -> Seq<int>
    decreases cand.len(),
{
    if cand.len() == 0 {
        Seq::empty()
    } else {
        let rest = keep_kind(nodes, cand.drop_first(), want_pool);
        if 0 <= cand[0] < nodes.len() && is_pool_code(nodes[cand[0]]) == want_pool {
            seq![cand[0]] + rest
        } else {
            rest
        }
    }
}

/// The pool nodes one outgoing edge away from an asset node, most
/// recently linked first.
pub open spec fn spec_pools_accepting(m: GraphModel, t: TokenId) -> Seq<int> {
    keep_kind(m.nodes, out_targets(m.edges, m.tokens[t] as int).reverse(), true)
}

/// The asset nodes one outgoing edge away from a pool node, most
/// recently linked first.
pub open spec fn spec_tokens_emitted_by(m: GraphModel, p: PoolId) -> Seq<int> {
    keep_kind(m.nodes, out_targets(m.edges, m.pools[p] as int).reverse(), false)
}

/// The connectivity graph. Node handles are plain indices into the
/// underlying store; an identifier maps to at most one node for the
/// graph's whole lifetime.
pub struct AMMGraph {
    g: StableGraph<u64, (), Directed, u32>,
    token_idx: AList<TokenId, usize>,
    pool_idx: AList<PoolId, usize>,
}

impl AMMGraph {
    /// The graph's mathematical state.
    pub closed spec fn model(self) -> GraphModel {
        GraphModel {
            nodes: graph_nodes(self.g),
            edges: graph_edges(self.g),
            tokens: self.token_idx@,
            pools: self.pool_idx@,
        }
    }

    /// The node payloads, in node-handle order.
    pub open spec fn nodes(self) -> Seq<u64> {
        self.model().nodes
    }

    /// The edges, as (source, target) handle pairs in insertion order.
    pub open spec fn edges(self) -> Seq<(int, int)> {
        self.model().edges
    }

    /// The handle each known asset identifier maps to.
    pub open spec fn token_map(self) -> Map<TokenId, usize> {
        self.model().tokens
    }

    /// The handle each known pool identifier maps to.
    pub open spec fn pool_map(self) -> Map<PoolId, usize> {
        self.model().pools
    }

    /// Well-formedness: the store is clean, every payload is a valid
    /// code, the identifier maps point at nodes that encode exactly that
    /// identifier, and every edge joins existing nodes.
    pub closed spec fn wf(self) -> bool {
        let m = self.model();
        &&& graph_clean(self.g)
        &&& forall|ix: int| 0 <= ix < m.nodes.len() ==> valid_code(#[trigger] m.nodes[ix])
        &&& forall|t: TokenId| #[trigger] m.tokens.contains_key(t) ==> (m.tokens[t] as int)
            < m.nodes.len() && m.nodes[m.tokens[t] as int] == spec_encode_kind(NodeKind::Token(t))
        &&& forall|p: PoolId| #[trigger] m.pools.contains_key(p) ==> (m.pools[p] as int)
            < m.nodes.len() && m.nodes[m.pools[p] as int] == spec_encode_kind(NodeKind::Pool(p))
        &&& forall|i: int| 0 <= i < m.edges.len() ==> 0 <= (#[trigger] m.edges[i]).0
            < m.nodes.len() && 0 <= m.edges[i].1 < m.nodes.len()
    }

    /// An empty graph.
    pub fn new() -> (r: Self)
        ensures
            r.wf(),
            r.model().nodes == Seq::<u64>::empty(),
            r.model().edges == Seq::<(int, int)>::empty(),
            r.model().tokens == Map::<TokenId, usize>::empty(),
            r.model().pools == Map::<PoolId, usize>::empty(),
    {
        AMMGraph { g: sg_new(), token_idx: AList::new(), pool_idx: AList::new() }
    }

    /// Number of nodes.
    pub fn node_count(&self) -> (n: usize)
        requires
            self.wf(),
        ensures
            n as int == self.nodes().len(),
    {
        sg_node_count(&self.g)
    }

    /// Number of edges, parallel edges counted each.
    pub fn edge_count(&self) -> (n: usize)
        requires
            self.wf(),
        ensures
            n as int == self.edges().len(),
    {
        sg_edge_count(&self.g)
    }

    /// The node handle of a known asset.
    pub fn token_index(&self, t: TokenId) -> (r: Option<usize>)
        ensures
            match r {
                Some(ix) => self.token_map().contains_key(t) && ix == self.token_map()[t],
                None => !self.token_map().contains_key(t),
            },
    {
        match self.token_idx.get(t) {
            Some(ix) => Some(*ix),
            None => None,
        }
    }

    /// The node handle of a known pool.
    pub fn pool_index(&self, p: PoolId) -> (r: Option<usize>)
        ensures
            match r {
                Some(ix) => self.pool_map().contains_key(p) && ix == self.pool_map()[p],
                None => !self.pool_map().contains_key(p),
            },
    {
        match self.pool_idx.get(p) {
            Some(ix) => Some(*ix),
            None => None,
        }
    }

    /// What a node handle stands for, or `None` for a handle the graph
    /// never returned.
    pub fn node_kind(&self, ix: usize) -> (r: Option<NodeKind>)
        requires
            self.wf(),
        ensures
            match r {
                Some(k) => (ix as int) < self.nodes().len() && k == spec_decode_kind(
                    self.nodes()[ix as int],
                ),
                None => (ix as int) >= self.nodes().len(),
            },
    {
        if ix >= self.node_count() {
            return None;
        }
        let w = sg_node_weight(&self.g, ix);
        if w >= 0x1_0000_0000u64 {
            Some(NodeKind::Pool(PoolId((w - 0x1_0000_0000u64) as u32)))
        } else {
            Some(NodeKind::Token(TokenId(w as u16)))
        }
    }

    /// Whether an edge runs from handle `a` to handle `b`.
    pub fn has_edge(&self, a: usize, b: usize) -> (r: bool)
        requires
            self.wf(),
        ensures
            r == self.edges().contains((a as int, b as int)),
    {
        let n = self.node_count();
        if a >= n || b >= n {
            proof {
                if self.edges().contains((a as int, b as int)) {
                    let i = choose|i: int|
                        0 <= i < self.edges().len() && self.edges()[i] == (a as int, b as int);
                }
            }
            return false;
        }
        sg_find_edge(&self.g, a, b).is_some()
    }

    /// Idempotent asset-node insertion: the existing handle when the
    /// asset is already a node, otherwise a fresh node's handle.
    pub fn add_token(&mut self, id: TokenId) -> (ix: usize)
        requires
            old(self).wf(),
            old(self).nodes().len() < 0xffff_ffff,
        ensures
            final(self).wf(),
            (final(self).model(), ix) == add_token_model(old(self).model(), id),
            (ix as int) < final(self).nodes().len(),
    {
        match self.token_idx.get(id) {
            Some(ix) => *ix,
            None => {
                let ix = sg_add_node(&mut self.g, encode_token(id));
                self.token_idx.insert(id, ix);
                proof {
                    assert(final(self).model() =~= add_token_model(old(self).model(), id).0);
                }
                ix
            }
        }
    }

    /// Idempotent pool-node insertion, analogous to `add_token`.
    pub fn add_pool(&mut self, id: PoolId) -> (ix: usize)
        requires
            old(self).wf(),
            old(self).nodes().len() < 0xffff_ffff,
        ensures
            final(self).wf(),
            (final(self).model(), ix) == add_pool_model(old(self).model(), id),
            (ix as int) < final(self).nodes().len(),
    {
        match self.pool_idx.get(id) {
            Some(ix) => *ix,
            None => {
                let ix = sg_add_node(&mut self.g, encode_pool(id));
                self.pool_idx.insert(id, ix);
                proof {
                    assert(final(self).model() =~= add_pool_model(old(self).model(), id).0);
                }
                ix
            }
        }
    }

    /// Records that pool `p` accepts asset `t` as input: one more
    /// directed edge, duplicates allowed.
    pub fn connect_token_to_pool(&mut self, t: TokenId, p: PoolId)
        requires
            old(self).wf(),
            old(self).nodes().len() + 2 <= 0xffff_ffff,
            old(self).edges().len() < 0xffff_ffff,
        ensures
            final(self).wf(),
            final(self).model() == link_token_pool_model(old(self).model(), t, p),
    {
        let tix = self.add_token(t);
        let pix = self.add_pool(p);
        sg_add_edge(&mut self.g, tix, pix);
        proof {
            assert(final(self).model() =~= link_token_pool_model(old(self).model(), t, p));
        }
    }

    /// Records that pool `p` emits asset `t` as output: one more directed
    /// edge, duplicates allowed.
    pub fn connect_pool_to_token(&mut self, p: PoolId, t: TokenId)
        requires
            old(self).wf(),
            old(self).nodes().len() + 2 <= 0xffff_ffff,
            old(self).edges().len() < 0xffff_ffff,
        ensures
            final(self).wf(),
            final(self).model() == link_pool_token_model(old(self).model(), p, t),
    {
        let pix = self.add_pool(p);
        let tix = self.add_token(t);
        sg_add_edge(&mut self.g, pix, tix);
        proof {
            assert(final(self).model() =~= link_pool_token_model(old(self).model(), p, t));
        }
    }

    /// Inserts the edge (a, b) only if no edge already runs that way.
    fn add_edge_unique(&mut self, a: usize, b: usize)
        requires
            old(self).wf(),
            (a as int) < old(self).nodes().len(),
            (b as int) < old(self).nodes().len(),
            old(self).edges().len() < 0xffff_ffff,
        ensures
            final(self).wf(),
            final(self).model() == add_edge_unique_model(old(self).model(), a as int, b as int),
            final(self).nodes() == old(self).nodes(),
            final(self).token_map() == old(self).token_map(),
            final(self).pool_map() == old(self).pool_map(),
            final(self).edges().len() <= old(self).edges().len() + 1,
    {
        if sg_find_edge(&self.g, a, b).is_none() {
            sg_add_edge(&mut self.g, a, b);
            proof {
                assert(final(self).model() =~= add_edge_unique_model(
                    old(self).model(),
                    a as int,
                    b as int,
                ));
            }
        } else {
            proof {
                assert(final(self).model() =~= add_edge_unique_model(
                    old(self).model(),
                    a as int,
                    b as int,
                ));
            }
        }
    }

    /// Establishes two-way tradability of `a` and `b` through `p`: the
    /// four edges a-to-p, p-to-b, b-to-p and p-to-a, each inserted with
    /// the deduplicating insert, so repeating the call with the same
    /// arguments leaves the graph unchanged.
    pub fn connect_bidirectional_pair(&mut self, p: PoolId, a: TokenId, b: TokenId)
        requires
            old(self).wf(),
            old(self).nodes().len() + 3 <= 0xffff_ffff,
            old(self).edges().len() + 4 <= 0xffff_ffff,
        ensures
            final(self).wf(),
            final(self).model() == link_pair_model(old(self).model(), p, a, b),
    {
        let aix = self.add_token(a);
        let bix = self.add_token(b);
        let pix = self.add_pool(p);
        self.add_edge_unique(aix, pix);
        self.add_edge_unique(pix, bix);
        self.add_edge_unique(bix, pix);
        self.add_edge_unique(pix, aix);
    }

    /// All pool nodes reachable by one outgoing edge from the asset's
    /// node, most recently linked first; recomputed on each call.
    pub fn pools_accepting(&self, t: TokenId) -> (r: Vec<usize>)
        requires
            self.wf(),
            self.token_map().contains_key(t),
        ensures
            r@.map_values(|v: usize| v as int) == spec_pools_accepting(self.model(), t),
    {
        let tix = match self.token_idx.get(t) {
            Some(ix) => *ix,
            None => {
                // The precondition says the asset is known.
                proof {
                    assert(false);
                }
                0
            }
        };
        let cand = sg_neighbors_out(&self.g, tix);
        self.keep_kind_exec(&cand, true)
    }

    /// All asset nodes reachable by one outgoing edge from the pool's
    /// node, most recently linked first; recomputed on each call.
    pub fn tokens_emitted_by(&self, p: PoolId) -> (r: Vec<usize>)
        requires
            self.wf(),
            self.pool_map().contains_key(p),
        ensures
            r@.map_values(|v: usize| v as int) == spec_tokens_emitted_by(self.model(), p),
    {
        let pix = match self.pool_idx.get(p) {
            Some(ix) => *ix,
            None => {
                // The precondition says the pool is known.
                proof {
                    assert(false);
                }
                0
            }
        };
        let cand = sg_neighbors_out(&self.g, pix);
        self.keep_kind_exec(&cand, false)
    }

    /// Keeps the candidates whose node is of the wanted kind.
    fn keep_kind_exec(&self, cand: &Vec<usize>, want_pool: bool) -> (r: Vec<usize>)
        requires
            self.wf(),
        ensures
            r@.map_values(|v: usize| v as int) == keep_kind(
                self.nodes(),
                cand@.map_values(|v: usize| v as int),
                want_pool,
            ),
    {
        let ghost cs = cand@.map_values(|v: usize| v as int);
        let n = cand.len();
        let mut r: Vec<usize> = Vec::new();
        let mut i: usize = 0;
        proof {
            assert(cs.skip(0) =~= cs);
        }
        while i < n
            invariant
                i <= n,
                n == cand@.len(),
                cs == cand@.map_values(|v: usize| v as int),
                self.wf(),
                r@.map_values(|v: usize| v as int) + keep_kind(self.nodes(), cs.skip(i as int), want_pool)
                    == keep_kind(self.nodes(), cs, want_pool),
            decreases n - i,
        {
            let c = cand[i];
            proof {
                assert(cs.skip(i as int)[0] == cs[i as int]);
                assert(cs.skip(i as int).drop_first() =~= cs.skip(i as int + 1));
            }
            let keep = if c < self.node_count() {
                let w = sg_node_weight(&self.g, c);
                (w >= 0x1_0000_0000u64) == want_pool
            } else {
                false
            };
            if keep {
                let ghost pre = r@.map_values(|v: usize| v as int);
                r.push(c);
                proof {
                    assert(r@.map_values(|v: usize| v as int) =~= pre.push(c as int));
                    assert(pre.push(c as int) + keep_kind(self.nodes(), cs.skip(i as int + 1), want_pool)
                        =~= pre + (seq![c as int] + keep_kind(
                        self.nodes(),
                        cs.skip(i as int + 1),
                        want_pool,
                    )));
                }
            }
            i = i + 1;
        }
        proof {
            assert(cs.skip(n as int) =~= Seq::<int>::empty());
            assert(r@.map_values(|v: usize| v as int) + Seq::<int>::empty() =~= r@.map_values(
                |v: usize| v as int,
            ));
        }
        r
    }
}

/// Inserting the same asset node twice returns the same handle both
/// times and leaves the graph, and so its node count, unchanged by the
/// second insertion.
pub proof fn lemma_add_token_idempotent(m: GraphModel, t: TokenId)
    ensures
        ({
            let (m1, ix1) = add_token_model(m, t);
            let (m2, ix2) = add_token_model(m1, t);
            m2 == m1 && ix2 == ix1 && m2.nodes.len() == m1.nodes.len()
        }),
{
}

/// Inserting the same pool node twice returns the same handle both times
/// and leaves the graph, and so its node count, unchanged by the second
/// insertion.
pub proof fn lemma_add_pool_idempotent(m: GraphModel, p: PoolId)
    ensures
        ({
            let (m1, ix1) = add_pool_model(m, p);
            let (m2, ix2) = add_pool_model(m1, p);
            m2 == m1 && ix2 == ix1 && m2.nodes.len() == m1.nodes.len()
        }),
{
}

/// A sequence still contains everything it contained before a push, and
/// contains what was pushed.
proof fn lemma_contains_after_push<A>(s: Seq<A>, x: A, y: A)
    ensures
        s.contains(y) || x == y <==> s.push(x).contains(y),
{
    if s.contains(y) {
        let i = choose|i: int| 0 <= i < s.len() && s[i] == y;
        assert(s.push(x)[i] == y);
    }
    if x == y {
        assert(s.push(x)[s.len() as int] == y);
    }
    if s.push(x).contains(y) {
        let i = choose|i: int| 0 <= i < s.push(x).len() && s.push(x)[i] == y;
        if i < s.len() {
            assert(s[i] == y);
        }
    }
}

/// Linking the same bidirectional pair twice changes nothing the second
/// time: the graph after two identical calls equals the graph after one,
/// and in particular the edge count is unchanged by the second call.
pub proof fn lemma_link_pair_idempotent(m: GraphModel, p: PoolId, a: TokenId, b: TokenId)
    ensures
        link_pair_model(link_pair_model(m, p, a, b), p, a, b) == link_pair_model(m, p, a, b),
        link_pair_model(link_pair_model(m, p, a, b), p, a, b).edges.len() == link_pair_model(
            m,
            p,
            a,
            b,
        ).edges.len(),
{
    let (m1, aix) = add_token_model(m, a);
    let (m2, bix) = add_token_model(m1, b);
    let (m3, pix) = add_pool_model(m2, p);
    let m4 = add_edge_unique_model(m3, aix as int, pix as int);
    let m5 = add_edge_unique_model(m4, pix as int, bix as int);
    let m6 = add_edge_unique_model(m5, bix as int, pix as int);
    let m7 = add_edge_unique_model(m6, pix as int, aix as int);
    assert(m7 == link_pair_model(m, p, a, b));
    // The identifier maps of the result bind a, b and p to the same handles.
    assert(m7.tokens.contains_key(a) && m7.tokens[a] == aix);
    assert(m7.tokens.contains_key(b) && m7.tokens[b] == bix);
    assert(m7.pools.contains_key(p) && m7.pools[p] == pix);
    // All four edges are present in the result.
    assert(m4.edges.contains((aix as int, pix as int))) by {
        if !m3.edges.contains((aix as int, pix as int)) {
            lemma_contains_after_push(m3.edges, (aix as int, pix as int), (aix as int, pix as int));
        }
    }
    assert(m5.edges.contains((aix as int, pix as int)) && m5.edges.contains(
        (pix as int, bix as int),
    )) by {
        if !m4.edges.contains((pix as int, bix as int)) {
            lemma_contains_after_push(m4.edges, (pix as int, bix as int), (pix as int, bix as int));
            lemma_contains_after_push(m4.edges, (pix as int, bix as int), (aix as int, pix as int));
        }
    }
    assert(m6.edges.contains((aix as int, pix as int)) && m6.edges.contains(
        (pix as int, bix as int),
    ) && m6.edges.contains((bix as int, pix as int))) by {
        if !m5.edges.contains((bix as int, pix as int)) {
            lemma_contains_after_push(m5.edges, (bix as int, pix as int), (bix as int, pix as int));
            lemma_contains_after_push(m5.edges, (bix as int, pix as int), (aix as int, pix as int));
            lemma_contains_after_push(m5.edges, (bix as int, pix as int), (pix as int, bix as int));
        }
    }
    assert(m7.edges.contains((aix as int, pix as int)) && m7.edges.contains(
        (pix as int, bix as int),
    ) && m7.edges.contains((bix as int, pix as int)) && m7.edges.contains(
        (pix as int, aix as int),
    )) by {
        if !m6.edges.contains((pix as int, aix as int)) {
            lemma_contains_after_push(m6.edges, (pix as int, aix as int), (pix as int, aix as int));
            lemma_contains_after_push(m6.edges, (pix as int, aix as int), (aix as int, pix as int));
            lemma_contains_after_push(m6.edges, (pix as int, aix as int), (pix as int, bix as int));
            lemma_contains_after_push(m6.edges, (pix as int, aix as int), (bix as int, pix as int));
        }
    }
    // The second call therefore finds every node and every edge in place.
    let (n1, aix2) = add_token_model(m7, a);
    let (n2, bix2) = add_token_model(n1, b);
    let (n3, pix2) = add_pool_model(n2, p);
    assert(n3 == m7 && aix2 == aix && bix2 == bix && pix2 == pix);
    assert(add_edge_unique_model(n3, aix as int, pix as int) == n3);
    assert(add_edge_unique_model(n3, pix as int, bix as int) == n3);
    assert(add_edge_unique_model(n3, bix as int, pix as int) == n3);
    assert(add_edge_unique_model(n3, pix as int, aix as int) == n3);
}

/// The payload for an asset node.
fn encode_token(t: TokenId) -> (w: u64)
    ensures
        w == spec_encode_kind(NodeKind::Token(t)),
{
    t.0 as u64
}

/// The payload for a pool node.
fn encode_pool(p: PoolId) -> (w: u64)
    ensures
        w == spec_encode_kind(NodeKind::Pool(p)),
{
    0x1_0000_0000u64 + p.0 as u64
}

} // verus!
