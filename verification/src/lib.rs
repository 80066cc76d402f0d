pub mod cards;
pub mod game;
pub mod laws;
pub mod player;
mod shuffle;
