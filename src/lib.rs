//! A possession-by-possession basketball game simulation over integer
//! fixed-point ratings, with verified rotation, rating and outcome logic.
pub mod config;
pub mod draws;
pub mod game;
pub mod outcome;
pub mod play;
pub mod playing_time;
pub mod ratings;
pub mod rotation;
pub mod rules;
pub mod selection;
pub mod synergy;
pub mod team;
