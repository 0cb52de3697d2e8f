//! Pathfinding over a 2D obstacle grid.
//!
//! The crate offers two interchangeable solvers over a shared spatial
//! primitive: an any-angle best-first search and a stochastic ant-colony
//! optimizer, both relying on grid-aligned raycasting for line-of-sight
//! queries. All geometry is exact: world positions are integer coordinates
//! and ray parameters are rationals, so every spatial decision is a
//! provable integer comparison.

pub mod a_star;
pub mod geom;
pub mod grid;
pub mod hybrid;
pub mod job;
pub mod problem;
pub mod raycast;
pub mod sight;

pub use geom::Vec2i;
