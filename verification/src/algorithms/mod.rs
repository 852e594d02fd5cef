//! The reasoning core: hiding what a player may not see, checking a layout
//! against the observations, counting the layouts that agree with them, and
//! planning routes.

pub mod enumeration;
pub mod hiding;
pub mod pathfinding;
pub mod render;
pub mod validator;

pub use enumeration::calculate_map_possibilities;
pub use enumeration::try_calculate_map_possibilities;
pub use hiding::hide_map;
pub use pathfinding::path_to_actions;
pub use pathfinding::pathfind;
pub use pathfinding::try_pathfind;
pub use render::visualize_map;
pub use validator::is_map_valid;
