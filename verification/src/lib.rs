//! Core simulation logic of a turn-based monster-battle game: the battle
//! engine (typed damage with stat stages), the adversarial move-selection
//! search (alpha-beta pruned minimax), and the procedural maze generator
//! used for gym levels (a variant of Eller's algorithm).
//!
//! Health and damage are carried in centipoints: one point of displayed
//! health is 100 centipoints, so a full bar of 100.0 points is 10_000.

pub mod ai;
pub mod battle;
pub mod maze;
pub mod monster;
pub mod overworld;
pub mod rng;
