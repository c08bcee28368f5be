//! Triad census of signed networks.
//!
//! A network is a dense matrix of edge weights. Three nodes whose three
//! pairwise edges are all present form a triad, and social balance theory
//! sorts triads by how many of their edges are positive: three or one is
//! stable, two or none is unstable.

pub mod counts;
pub mod laws;
pub mod network;
pub mod plugin;
pub mod report;
pub mod triples;

pub use counts::TriadCounts;
pub use plugin::TriadCounterPlugin;
pub use triples::count_triads;
