//! Streaming output: configuration, source protocols, pacing and containers.

pub mod config;
pub mod encoder;
pub mod he_aac;
pub mod listeners;
pub mod manager;
pub mod ogg;
pub mod sender;
pub mod shoutcast;
pub mod source;
pub mod stereotool;
