//! Voice tracks: names, staging of the recording, the recorded file, and the
//! list of takes.

pub mod manager;
pub mod take;
pub mod wav;
