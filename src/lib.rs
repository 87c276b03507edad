use vstd::prelude::*;

pub mod ai;
pub mod components;
pub mod dungeon;
pub mod map;
pub mod pathing;
pub mod rng;
pub mod room;
pub mod systems;
pub mod visibility;
pub mod world;

pub use ai::{MonsterAISystem, MonsterAction};
pub use components::{Blocking, Color, Fighter, Monster, Name, Player, Position, Renderable, Vision};
pub use dungeon::{MAX_ROOMS, MAX_SIZE, MIN_DIMENSION, MIN_SIZE};
pub use map::{GameMap, TileType};
pub use pathing::{DIAGONAL_COST, ORTHOGONAL_COST};
pub use room::Room;
pub use systems::MapManagementSystem;
pub use visibility::VisibilitySystem;
pub use world::{try_move_player, MoveOutcome, TurnState, World};
