//! Participants of a live poll.

use vstd::prelude::*;

verus! {

/// A participant of a live poll.
pub struct Player {}

impl Player {
    /// The participant with the given index.
    pub fn new(_player_index: usize) -> (p: Player)
        ensures
            p == (Player {}),
    {
        Player {}
    }
}

} // verus!
