//! The music library: tracks, their station role, and what is known of them.

pub mod artwork;
pub mod catalog;
pub mod dupes;
pub mod kind;
pub mod search;
pub mod track;
