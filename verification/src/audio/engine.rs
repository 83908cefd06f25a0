//! What a player shows of itself, and small decisions around it.

use vstd::prelude::*;
use vstd::string::*;

use crate::text::{copy_opt, same_text};
use crate::text;

verus! {

/// Transport state.
#[derive(Debug, Clone, Copy, PartialEq, Eq, Structural)]
pub enum PlayerState {
    Stopped,
    Playing,
    Paused,
    /// Accepted, and still being decoded.
    Buffering,
}

/// The track that is loaded.
#[derive(Debug)]
pub struct TrackInfo {
    pub path: String,
    pub title: Option<String>,
    pub artist: Option<String>,
    pub duration_nanos: Option<u64>,
}

impl Clone for TrackInfo {
    fn clone(&self) -> (r: Self)
        ensures
            r == *self,
    {
        TrackInfo {
            path: self.path.clone(),
            title: copy_opt(&self.title),
            artist: copy_opt(&self.artist),
            duration_nanos: self.duration_nanos,
        }
    }
}

/// Whether the next pick should be queued: the current track ends within the
/// horizon and nothing waits already. Only where queueing waits for the end.
pub fn needs_prefetch(
    position_nanos: u64,
    duration_nanos: Option<u64>,
    pending: usize,
    has_queue: bool,
    horizon_nanos: u64,
) -> (r: bool)
    ensures
        r == (has_queue && pending == 0 && (duration_nanos matches Some(d) && d > 0 && d
            - position_nanos <= horizon_nanos)),
{
    if !has_queue || pending > 0 {
        return false;
    }
    match duration_nanos {
        Some(d) => d > 0 && (d <= position_nanos || d - position_nanos <= horizon_nanos),
        None => false,
    }
}

/// The device to open: the one with the wanted name, where there is one, or
/// else the system's own. The second part tells whether the wanted one is
/// missing.
pub fn pick_device(names: &Vec<String>, want: Option<&str>, usual: Option<usize>) -> (r: (
    Option<usize>,
    bool,
))
    ensures
        match want {
            Some(w) => if text::texts(names@).contains(w@) {
                (r.0 matches Some(i) && i < names@.len() && names@[i as int]@ == w@ && forall|j: int|
                    0 <= j < i ==> (#[trigger] names@[j])@ != w@) && !r.1
            } else {
                r.0 == usual && r.1
            },
            None => r.0 == usual && !r.1,
        },
{
    match want {
        Some(w) => {
            let ghost all = text::texts(names@);
            let mut i: usize = 0;
            while i < names.len()
                invariant
                    i <= names@.len(),
                    all == text::texts(names@),
                    want == Some(w),
                    forall|j: int| 0 <= j < i ==> (#[trigger] names@[j])@ != w@,
                decreases names@.len() - i,
            {
                if same_text(names[i].as_str(), w) {
                    assert(all[i as int] == w@);
                    return (Some(i), false);
                }
                i = i + 1;
            }
            assert forall|j: int| 0 <= j < all.len() implies all[j] != w@ by {
                assert(all[j] == names@[j]@);
            }
            (usual, true)
        },
        None => (usual, false),
    }
}

} // verus!
