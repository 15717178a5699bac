//! Real-time presence and session-matchmaking core for a multiplayer
//! backend: the connection registry with its publish/subscribe presence
//! protocol, the in-memory game-session directory with its
//! reserve-or-create allocator, and the text wire protocol they speak.
use vstd::prelude::*;

pub mod dispatch;
pub mod gamesessions;
pub mod global;
pub mod jsonout;
pub mod photon;
pub mod registry;
pub mod rest;
pub mod text;
pub mod wire;

verus! {

/// Capacity assigned to a newly created session for the given activity.
pub open spec fn spec_capacity(activity: Seq<char>) -> u32 {
    40u32
}

/// Looks up the configured player capacity for an activity.
/// Every activity currently shares one fixed capacity.
pub fn get_capacity_for_activity(_activity_id: &str) -> (r: u32)
    ensures
        r == spec_capacity(_activity_id@),
{
    40
}

} // verus!
