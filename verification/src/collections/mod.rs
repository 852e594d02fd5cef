//! Finite sets and maps keyed by grid coordinates.

pub mod coord_map;
pub mod coord_set;

pub use coord_map::CoordMap;
pub use coord_set::CoordSet;
