//! The decision core of a networked first-person arena client.
//!
//! A player walks a grid of walls and open cells, sees the other players that
//! a relay reports, and fires instant-hit shots. This crate holds the rules of
//! that game as verified functions on plain values:
//!
//! - `grid`: how a map text becomes a grid, and which grids can be played on;
//! - `spawn`: where a player may be put;
//! - `surface`: which wall faces can be shot;
//! - `scalar`: single-precision numbers by their bit patterns;
//! - `ray`: when a ray strikes a face or a player;
//! - `hit`: which strike is nearest;
//! - `collision`: which axes of a move a wall stops;
//! - `player`: players and the envelopes that carry them;
//! - `sync`: what an inbound datagram does to the shared state;
//! - `fire`: what a shot changes;
//! - `game`: the decisions of one tick;
//! - `world`: the state of a session under one owner;
//! - `minimap`: where a marker may be drawn on the small map;
//! - `input`: the entry screens.
//!
//! Rendering, sockets, the JSON of the wire and the arithmetic on real
//! numbers stay with the caller.

pub mod collision;
pub mod filters;
pub mod fire;
pub mod game;
pub mod grid;
pub mod hit;
pub mod input;
pub mod minimap;
pub mod player;
pub mod ray;
pub mod scalar;
pub mod spawn;
pub mod surface;
pub mod sync;
pub mod world;
