//! Matrix Speedrunner: the game logic of a typing mini-game (two modes,
//! Speed Runner and Hack Time Attack), its key-driven screen state machine,
//! and the bookkeeping of the score board, with their contracts.

pub mod game;
pub mod random;
pub mod text;
pub mod config;
pub mod hack;
pub mod speedrunner;
pub mod numfmt;
pub mod score;
pub mod daily;
pub mod screen;
pub mod handlers;
pub mod layout;
pub mod rain;
pub mod laws;
