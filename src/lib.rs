pub mod behave;
pub mod behaviours;
pub mod grid;
pub mod hunger;
pub mod items;
pub mod pickups;
pub mod points;
pub mod resizing;
mod rng;
pub mod schedule;
pub mod simulation;
pub mod target_finding;
pub mod walking;
