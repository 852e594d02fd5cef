//! The game itself: geometry, the map with its percept markers and the
//! state machine that applies the player's actions.

pub mod action;
pub mod class;
pub mod events;
pub mod game;
pub mod geometry;
pub mod map;
pub mod rules;
pub mod setup;
pub mod text;

pub use action::Action;
pub use class::Class;
pub use class::ClassField;
pub use events::Events;
pub use game::Game;
pub use geometry::Coordinate;
pub use geometry::Direction;
pub use map::WorldMap;
