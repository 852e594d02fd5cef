//! A Wumpus World simulator together with the reasoning core of an autonomous
//! agent: the rules of the game, a consistency check for hypothetical hazard
//! layouts, an exhaustive hypothesis count and a cost-aware route planner.
//!
//! Every function comes with a contract. Verus proves the contracts, except
//! those of the few wrappers around `itertools` and `rand`, which it takes on
//! trust and which say so in their documentation.

pub mod algorithms;
mod chance;
pub mod collections;
pub mod models;
pub mod wumpus;
