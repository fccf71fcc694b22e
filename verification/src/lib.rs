//! A pirate's world on a grid, turn by turn. Its heart is spatial
//! reasoning: `pathfinding` routes a creature between cells around
//! obstacles, and `fov` works out what a viewer sees and what is drawn
//! there. Around them stand the map, the creatures, the vessels, and what
//! the player carries.

pub mod actor;
pub mod behaviour;
pub mod dice;
pub mod display;
pub mod fov;
pub mod game;
pub mod items;
pub mod map;
pub mod pathfinding;
pub mod rules;
pub mod ship;
pub mod table;
pub mod text;
pub mod util;
pub mod weather;
