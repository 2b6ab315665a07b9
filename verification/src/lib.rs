//! A turn-based dungeon simulation: a procedurally generated tile grid
//! populated with a player, monsters, and items, advanced one turn at a
//! time through an ordered pipeline of simulation systems (sight, AI,
//! spatial indexing, combat, damage, item pickup, entity cleanup).
//!
//! Rendering and input live outside this crate; they read the world's
//! state and inject discrete commands through the turn state machine.

pub mod components;
pub mod damage;
pub mod visibility;
pub mod spawner;
pub mod state;
pub mod world;
pub mod inventory;
pub mod map;
pub mod map_indexing;
pub mod melee;
pub mod monster_ai;
pub mod player;
pub mod reach;
pub mod rect;
pub mod rng;

use vstd::prelude::*;

verus! {

} // verus!
