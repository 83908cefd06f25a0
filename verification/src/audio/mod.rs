//! Playback: states that are shown, levels, and the decisions around decks
//! and decoded material. Levels are millionths, times are microseconds.

pub mod capture;
pub mod channels;
pub mod cue;
pub mod deck;
pub mod decode;
pub mod engine;
pub mod level;
pub mod loudness;
pub mod mic;
pub mod mixer;
pub mod output;
pub mod ring;
pub mod silence;
pub mod transport;
