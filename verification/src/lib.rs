//! A two-faction Game of Life: red and blue cells compete on a board that also holds
//! walls, bombs and high-value units.
pub mod api;
pub mod board;
pub mod cell;
pub mod evolve;
pub mod game;
pub mod keytext;
pub mod laws;
pub mod reaction_laws;
pub mod rules;
