//! Aggregator core for a distributed UAV flight simulator.
//!
//! The aggregator owns no flight dynamics of its own: it supervises one pair
//! of child processes per aircraft plus one global free-body physics process,
//! and stitches them into a single coherent world.  This crate holds the
//! decision logic of that world: the slot table and UAV registry, the cargo
//! tether bookkeeping, the collision decisions over a spatially hashed
//! triangle map, the atmosphere model, and the text protocol spoken on the
//! sockets.  All geometry is carried in fixed-point integers (one unit is
//! split into a million parts), so every formula here is exact.
//!
//! Process management, sockets and file access live outside this crate; they
//! hand plain values in and carry the computed frames, forces and replies out.

use vstd::prelude::*;

pub mod atmosphere;
pub mod cargo;
pub mod clients;
pub mod collision;
pub mod config;
pub mod drones;
pub mod fixed;
pub mod hashes;
pub mod logger;
pub mod geom;
pub mod map;
pub mod notification;
pub mod obj;
pub mod objects;
pub mod strings;
pub mod text;
pub mod uav;

verus! {

} // verus!
