//! The player's session settings.

use vstd::prelude::*;

verus! {

/// Shortest session a new game is started with.
pub const MIN_SESSION_LENGTH: usize = 10;

/// Longest session a new game is started with.
pub const MAX_SESSION_LENGTH: usize = 100;

/// Settings a session is started with.
#[derive(Debug, Clone)]
pub struct UserSettings {
    /// The lag `n`: a turn is compared with the one `n` turns earlier.
    pub n_level: usize,
    /// Time each stimulus stays on screen, in milliseconds.
    pub speed_ms: u64,
    /// Number of turns of a session.
    pub session_length: usize,
}

impl UserSettings {
    /// The lag is positive and below the session length, and the number of
    /// turns fits the turn counters.
    pub open spec fn playable(&self) -> bool {
        &&& 1 <= self.n_level < self.session_length
        &&& self.session_length <= u32::MAX
    }
}

impl Default for UserSettings {
    fn default() -> (r: Self)
        ensures
            r.n_level == 2,
            r.speed_ms == 2000,
            r.session_length == 20,
    {
        UserSettings { n_level: 2, speed_ms: 2000, session_length: 20 }
    }
}

/// `length` brought into `[MIN_SESSION_LENGTH, MAX_SESSION_LENGTH]`.
pub open spec fn clamped_length(length: int) -> int {
    if length < MIN_SESSION_LENGTH {
        MIN_SESSION_LENGTH as int
    } else if length > MAX_SESSION_LENGTH {
        MAX_SESSION_LENGTH as int
    } else {
        length
    }
}

/// Brings a session length into `[MIN_SESSION_LENGTH, MAX_SESSION_LENGTH]`.
pub fn clamp_session_length(length: usize) -> (r: usize)
    ensures
        r == clamped_length(length as int),
{
    if length < MIN_SESSION_LENGTH {
        MIN_SESSION_LENGTH
    } else if length > MAX_SESSION_LENGTH {
        MAX_SESSION_LENGTH
    } else {
        length
    }
}

} // verus!
