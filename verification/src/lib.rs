//! Three independent algorithmic building blocks, each verified against a
//! mathematical model.
//!
//! - [`math`]: modular exponentiation on top of Barrett reduction.
//! - [`dsu`]: a disjoint-set-union structure with union by size and path
//!   compression. Its model, the leader map of a partition, is in
//!   [`partition`]; [`connectivity`] relates it to walks in a graph.
//! - [`fenwick_tree`]: a Fenwick tree over any commutative group, with the
//!   primitive integers as ready-made groups in [`integers`]. [`lowbit`]
//!   holds the arithmetic of the lowest set bit that the tree's layout
//!   rests on.
pub mod connectivity;
pub mod dsu;
pub mod fenwick_tree;
pub mod integers;
pub mod lowbit;
pub mod math;
pub mod partition;
