//! A falling-sand simulation: an element catalogue and a cell world with
//! density-driven movement, chemistry, electricity and a heat field.

pub mod element;
pub mod rng;
pub mod world;
pub mod behaviour;
pub mod energy;
pub mod skeleton;
pub mod demo;
pub mod ui;
pub mod laws;
