pub mod alist;
pub mod engine;
pub mod graph;
pub mod graph_backend;
pub mod ids;
pub mod pool;
pub mod registry;
pub mod world;

pub use alist::{AList, EqKey};
pub use engine::{Engine, EngineError, Hop, Path, PlannedHop, Step};
pub use graph::{AMMGraph, NodeKind};
pub use ids::{PoolId, TokenId};
pub use pool::{FeePool, Pool, UnitState};
pub use registry::{Addr, PoolKind, PoolMeta, Registry, TokenMeta};
pub use world::World;
