//! The combat simulation of a small tower-defense game: timers, hit points,
//! enemies that walk toward a base, a spawner, and two attacks, advanced one
//! tick at a time by `GameState::tick`.
//!
//! Quantities are integers. Time is in milliseconds, distance in thousandths
//! of a unit of track, and speed in thousandths of a unit per millisecond
//! (units per second).

pub mod attack;
pub mod enemy;
pub mod game;
pub mod hit_points;
pub mod ordering;
pub mod timer;
