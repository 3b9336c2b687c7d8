//! The simulation core of a small tower-defence game: which bodies touch,
//! what a contact does, who sees and fights whom, how things move, and what
//! the timers bring forth.
//!
//! The engine owns the entities, their components, the events and the
//! clock. Each system of this library is a function from the rows that the
//! engine hands it, and the events of the tick, to the changed rows and the
//! events and commands that follow. Within one tick the engine runs the
//! systems in this order: detection, movement, collision detection, then the
//! updates (collision events, damage, separation, rebound, attacks,
//! spawners), then the removal of what has died or run out.
//!
//! All quantities are whole numbers: lengths, speeds, health and mana in
//! thousandths, time in nanoseconds (see `fixed`). A radius or a range is
//! unsigned, and every mask of 32 bits is a valid one, so that no value of
//! the library's types is malformed.

pub mod attack;
pub mod bubble;
pub mod collisions;
pub mod despawn;
pub mod detection;
pub mod entity;
pub mod fixed;
pub mod footman;
pub mod group;
pub mod harvester;
pub mod health;
pub mod mana;
pub mod movement;
pub mod player;
pub mod potion;
pub mod resolution;
pub mod timer;
pub mod tower;
pub mod vector;
