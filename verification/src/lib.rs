//! Orchestration core for snapshot-based fuzzing of stateful client/server
//! targets: the generation/snapshot graph, the stage-processing pipeline with
//! its similarity and trace deduplication, and the exploration scheduler.

pub mod clock;
pub mod naming;
pub mod pstree;
pub mod rand;
pub mod scheduler;
pub mod service_log;
pub mod similarity;
pub mod snapshot;
pub mod stage;

use vstd::prelude::*;

verus! {

/// The origin state name a snapshot of the given role records.
pub open spec fn spec_origin(server: bool) -> Seq<char> {
    if server {
        ORIGIN_STATE_SERVER@
    } else {
        ORIGIN_STATE_CLIENT@
    }
}

/// Canonical seed-state name for the client role (generation 2, state 0).
pub const ORIGIN_STATE_CLIENT: &'static str = "fitm-gen2-state0";

/// Canonical seed-state name for the server role (generation 1, state 0).
pub const ORIGIN_STATE_SERVER: &'static str = "fitm-gen1-state0";

/// Returns the origin state name for the given role.
pub fn origin_state(is_server: bool) -> (r: &'static str)
    ensures
        is_server ==> r@ == ORIGIN_STATE_SERVER@,
        !is_server ==> r@ == ORIGIN_STATE_CLIENT@,
{
    if is_server {
        ORIGIN_STATE_SERVER
    } else {
        ORIGIN_STATE_CLIENT
    }
}

} // verus!
