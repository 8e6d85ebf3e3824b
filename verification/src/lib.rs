//! Simulation core of a turn-based, tile-grid roguelike: the dungeon
//! generator, the shared spatial map, field-of-view computation,
//! pathfinding-driven enemy decisions, and a melee-combat resolution
//! pipeline over a typed entity registry.

pub mod ai_system;
pub mod combat_system;
pub mod components;
pub mod fov;
pub mod grid;
pub mod map;
pub mod map_indexing_system;
pub mod pathfind;
pub mod player;
pub mod rect;
pub mod sim;
pub mod visibility_system;
mod rng;
pub mod world;
