//! The snapshot entity: one checkpointed process state at a protocol receive
//! point, with its generation/lineage bookkeeping.

use vstd::prelude::*;
use vstd::string::StringExecFns;

use crate::naming::{spec_state_path, state_path_for};
use crate::{origin_state, spec_origin};

verus! {

/// All the information for one specific snapshot and fuzz run.
pub struct FITMSnapshot {
    /// The generation (0 is the client's pre-snapshot run, 1 the server's
    /// initial snapshot, 2 the client's first fuzzable snapshot; parity fixes
    /// the role for the whole lineage).
    pub generation: u32,
    /// The state id, unique within one generation.
    pub state_id: usize,
    /// Name of the persisted directory for this snapshot,
    /// `fitm-gen{generation}-state{state_id}`.
    pub state_path: String,
    /// Binary that is being fuzzed.
    pub target_bin: String,
    /// Timeout for one execution of the target, in milliseconds.
    pub timeout_millis: u64,
    /// Whether this snapshot belongs to the server family.
    pub server: bool,
    /// State directory name of the snapshot this one was restored from;
    /// empty if created directly from program start.
    pub base_state: String,
    /// Marks if this run is an initial state or not.
    pub initial: bool,
    /// Name of the role's canonical seed state.
    pub origin_state: String,
    /// Pid of the snapshotted process inside the checkpoint image, once known.
    pub pid: Option<i32>,
    /// Files related to the process snapshot, copied in before an initial run.
    pub files: Vec<String>,
}

impl FITMSnapshot {
    /// The naming bookkeeping every constructed snapshot satisfies.
    pub open spec fn wf(self) -> bool {
        &&& self.state_path@ == spec_state_path(self.generation as nat, self.state_id as nat)
        &&& self.origin_state@ == spec_origin(self.server)
    }

    /// Two snapshots that agree on every field, with text fields compared by
    /// contents.
    pub open spec fn equiv(self, other: Self) -> bool {
        &&& other.generation == self.generation
        &&& other.state_id == self.state_id
        &&& other.state_path@ == self.state_path@
        &&& other.target_bin@ == self.target_bin@
        &&& other.timeout_millis == self.timeout_millis
        &&& other.server == self.server
        &&& other.base_state@ == self.base_state@
        &&& other.initial == self.initial
        &&& other.origin_state@ == self.origin_state@
        &&& other.pid == self.pid
        &&& other.files.deep_view() == self.files.deep_view()
    }

    /// Creates the descriptor of a new snapshot. The caller is responsible
    /// for materializing its working directory before any run.
    pub fn new(
        generation: u32,
        state_id: usize,
        target_bin: String,
        timeout_millis: u64,
        base_state: String,
        server: bool,
        pid: Option<i32>,
    ) -> (r: FITMSnapshot)
        ensures
            r.generation == generation,
            r.state_id == state_id,
            r.state_path@ == spec_state_path(generation as nat, state_id as nat),
            r.target_bin == target_bin,
            r.timeout_millis == timeout_millis,
            r.server == server,
            r.base_state == base_state,
            !r.initial,
            r.origin_state@ == spec_origin(server),
            r.pid == pid,
            r.files@ == Seq::<String>::empty(),
            r.wf(),
    {
        let origin = origin_state(server).to_owned();
        let state_path = state_path_for(generation, state_id);
        FITMSnapshot {
            generation,
            state_id,
            state_path,
            target_bin,
            timeout_millis,
            server,
            base_state,
            initial: false,
            origin_state: origin,
            pid,
            files: Vec::new(),
        }
    }

    /// Appends the given file names to the snapshot's attached-files list.
    pub fn attach_files(self, file_list: &[String]) -> (r: Self)
        ensures
            r.files@ == self.files@ + file_list@,
            r.generation == self.generation,
            r.state_id == self.state_id,
            r.state_path == self.state_path,
            r.target_bin == self.target_bin,
            r.timeout_millis == self.timeout_millis,
            r.server == self.server,
            r.base_state == self.base_state,
            r.initial == self.initial,
            r.origin_state == self.origin_state,
            r.pid == self.pid,
            r.wf() == self.wf(),
    {
        let mut with_files = self;
        let mut i: usize = 0;
        while i < file_list.len()
            invariant
                i <= file_list.len(),
                with_files.files@ == self.files@ + file_list@.subrange(0, i as int),
                with_files.generation == self.generation,
                with_files.state_id == self.state_id,
                with_files.state_path == self.state_path,
                with_files.target_bin == self.target_bin,
                with_files.timeout_millis == self.timeout_millis,
                with_files.server == self.server,
                with_files.base_state == self.base_state,
                with_files.initial == self.initial,
                with_files.origin_state == self.origin_state,
                with_files.pid == self.pid,
            decreases file_list.len() - i,
        {
            with_files.files.push(file_list[i].clone());
            i += 1;
            proof {
                assert(self.files@ + file_list@.subrange(0, i as int)
                    =~= (self.files@ + file_list@.subrange(0, i - 1)).push(file_list@[i - 1]));
            }
        }
        proof {
            assert(file_list@.subrange(0, file_list@.len() as int) =~= file_list@);
        }
        with_files
    }
}

fn clone_string_vec(v: &Vec<String>) -> (r: Vec<String>)
    ensures
        r@ == v@,
{
    let mut r: Vec<String> = Vec::new();
    let mut i: usize = 0;
    while i < v.len()
        invariant
            i <= v.len(),
            r@ == v@.subrange(0, i as int),
        decreases v.len() - i,
    {
        r.push(v[i].clone());
        i += 1;
        proof {
            assert(v@.subrange(0, i as int) =~= v@.subrange(0, i - 1).push(v@[i - 1]));
        }
    }
    proof {
        assert(v@.subrange(0, v@.len() as int) =~= v@);
    }
    r
}

impl Clone for FITMSnapshot {
    fn clone(&self) -> (r: Self)
        ensures
            self.equiv(r),
            r.wf() == self.wf(),
    {
        let r = FITMSnapshot {
            generation: self.generation,
            state_id: self.state_id,
            state_path: self.state_path.clone(),
            target_bin: self.target_bin.clone(),
            timeout_millis: self.timeout_millis,
            server: self.server,
            base_state: self.base_state.clone(),
            initial: self.initial,
            origin_state: self.origin_state.clone(),
            pid: self.pid,
            files: clone_string_vec(&self.files),
        };
        r
    }
}

/// Advances a `(client, server)` state counter pair: the side currently being
/// fuzzed is the one whose count steps forward.
pub fn next_state_path(state_path: (u32, u32), cur_is_server: bool) -> (r: (u32, u32))
    requires
        cur_is_server ==> state_path.0 < u32::MAX,
        !cur_is_server ==> state_path.1 < u32::MAX,
    ensures
        cur_is_server ==> r.0 == state_path.0 + 1 && r.1 == state_path.1,
        !cur_is_server ==> r.0 == state_path.0 && r.1 == state_path.1 + 1,
{
    if cur_is_server {
        (state_path.0 + 1, state_path.1)
    } else {
        (state_path.0, state_path.1 + 1)
    }
}

} // verus!
