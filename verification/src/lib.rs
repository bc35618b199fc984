//! An undirected territorial adjacency graph for a strategy-board-game map.
//!
//! The graph owns every node; callers refer to nodes through opaque handles.
//! Removing a node detaches it from every remaining adjacency list, so a
//! handle to a removed node simply stops matching anything instead of
//! dangling.

pub mod graph;
pub mod laws;
pub mod maps;
pub mod model;
pub mod types;
