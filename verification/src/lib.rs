//! Snapshots of a live entity graph: collecting the entities of a prefab,
//! recording their children, filtering and renumbering their data, and
//! deciding where the encoded scene goes.

pub mod closure;
pub mod graph;
pub mod index;
pub mod pipeline;
pub mod remap;
pub mod scene;
