//! Core simulation library for a 2D top-down tile roguelike: geometry over
//! integer fixed-point coordinates, axis-sweep collision resolution, oriented
//! rectangle raycasting, vision-cone perception, grid pathfinding, hazard
//! cooldowns, and procedural map assembly.

pub mod bloc;
pub mod camera;
pub mod collision;
pub mod entity;
pub mod geometry;
pub mod id;
pub mod input;
pub mod item;
pub mod map;
pub mod monster;
pub mod pathfinding;
pub mod player;
pub mod raycast;
mod rng;
pub mod weapon;
