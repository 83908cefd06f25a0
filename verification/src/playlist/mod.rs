//! Playlists: the stored ones and those that the rotation rules generate.

pub mod generator;
pub mod manager;
