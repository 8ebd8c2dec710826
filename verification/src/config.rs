use vstd::prelude::*;

verus! {

/// Number of characters of a free-text answer that make up its word-cloud term.
pub const FREE_TEXT_MAX_CHAR_LENGTH: usize = 32;

/// Maximal number of participants of one live poll.
pub const LIVE_POLL_PARTICIPANT_LIMIT: usize = 100;

/// Maximal number of answers of a multiple-choice slide.
pub const POLL_MAX_MC_ANSWERS: usize = 6;

/// Maximal number of slides of a poll.
pub const POLL_MAX_SLIDES: usize = 32;

/// Minimal time between two statistics updates sent to the host, in milliseconds.
pub const STATS_UPDATE_THROTTLE_MILLIS: u64 = 2000;

/// Time after which a live poll is closed, in seconds.
pub const POLL_EXIT_TIMEOUT_SECS: u64 = 7200;

} // verus!
