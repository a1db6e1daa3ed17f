//! Single-linkage agglomerative clustering over labeled 2D points.
//!
//! The engine repeatedly merges the two closest clusters until a target
//! number of clusters remains. Distances are compared as squared Euclidean
//! distances over integer coordinates: the square root is monotone, so the
//! nearest pair under the squared metric is the nearest pair outright, and
//! every comparison stays in exact integer arithmetic.

pub mod point;
pub mod cluster;
pub mod partition;
