//! Decision core of a predator-and-prey simulation: sensors over the world, scorers
//! and their all-or-nothing composite, a first-to-score picker, the action lifecycle,
//! and the per-actor thinker that ties them together tick by tick. Quantities are
//! fixed-point integers in thousandths of a unit.

pub mod actions;
pub mod geometry;
pub mod scoring;
pub mod sensors;
pub mod thinker;
pub mod vitals;
pub mod world;
