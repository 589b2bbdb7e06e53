//! Verified core of a desktop hangman game: the round state machine
//! (word validation, guess resolution, win/loss detection) and the
//! character-grid layout computed on window resize.

pub mod chars;
pub mod dictionary;
pub mod difficulty;
pub mod game;
pub mod layout;
