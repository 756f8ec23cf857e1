//! BuildingBlocks scene vocabulary: node identifiers, node kinds, coordinate
//! methods, and the `ptr:N` / `_PointsTo_:ptr:N` pointer strings.
pub mod types;
pub mod pointers;
pub mod clone_ops;
pub mod graph;
