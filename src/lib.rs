//! Detection and merging of duplicate materials and meshes in a scene graph.
//!
//! Materials are fingerprinted over their full visual parameter set and mapped
//! onto the first material seen with the same fingerprint. Meshes are grouped
//! by a structural fingerprint and matched by cheap geometric statistics, and a
//! matched duplicate is re-expressed as the canonical mesh placed at an offset.
pub mod fingerprint;
pub mod geometry;
pub mod material;
pub mod material_table;
pub mod mesh;
pub mod propagation;
