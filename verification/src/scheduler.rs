//! The exploration scheduler: owns the generation graph and decides, round by
//! round, which generation's bucket the stage pipeline processes next.

use vstd::prelude::*;

use crate::snapshot::FITMSnapshot;

verus! {

/// A per-mille draw above this restarts exploration at generation 1,
/// preventing unbounded depth-first descent (threshold 0.98).
pub const ABORT_THRESHOLD_PER_MILLE: u64 = 980;

/// On rounds after the first, a per-mille draw above this skips the current
/// generation entirely (threshold 0.93).
pub const SKIP_STEP_THRESHOLD_PER_MILLE: u64 = 930;

/// How many snapshots of one generation a single stage call processes at
/// most.
pub const STAGE_SAMPLE_CAP: usize = 5;

/// The client-side fuzzing budget, in milliseconds, when only the server is
/// of interest.
pub const SERVER_ONLY_CLIENT_RUN_MILLIS: u64 = 100;

/// The fuzzing budget for one stage: client generations get a token budget
/// when only the server is explored.
pub fn stage_run_millis(server_only: bool, current_gen: usize, run_millis: u64) -> (r: u64)
    ensures
        server_only && current_gen % 2 == 0 ==> r == SERVER_ONLY_CLIENT_RUN_MILLIS,
        !(server_only && current_gen % 2 == 0) ==> r == run_millis,
{
    if server_only && current_gen % 2 == 0 {
        SERVER_ONLY_CLIENT_RUN_MILLIS
    } else {
        run_millis
    }
}

/// Whether a persisted generation graph can seed this run: it must hold
/// non-empty generation-1 and generation-2 buckets whose target binaries
/// match the current invocation.
pub fn validate_resumed_graph(
    graph: &Vec<Vec<FITMSnapshot>>,
    server_bin: &String,
    client_bin: &String,
) -> (r: bool)
    ensures
        r == (graph@.len() > 2 && graph@[1]@.len() > 0 && graph@[2]@.len() > 0
            && graph@[1]@[0].target_bin@ == server_bin@ && graph@[2]@[0].target_bin@
            == client_bin@),
{
    graph.len() > 2 && graph[1].len() > 0 && graph[2].len() > 0 && graph[1][0].target_bin.eq(
        server_bin,
    ) && graph[2][0].target_bin.eq(client_bin)
}

/// What one scheduling step decides.
pub enum StepAction {
    /// Leave this generation alone this round.
    Skip,
    /// Run the stage pipeline on this generation's bucket, minting state ids
    /// from the given start.
    Process {
        /// The generation to process.
        gen: usize,
        /// The first state id free in the bucket two generations further.
        next_gen_id_start: usize,
    },
}

/// The decision values of one scheduling step.
pub ghost struct StepPlan {
    /// The generation settled on for this step.
    pub gen: int,
    /// The round counter after this step.
    pub round: int,
    /// Whether the step is skipped.
    pub skip: bool,
}

/// One scheduling decision: advance one generation; fall back to generation 1
/// when the advanced-to bucket is missing or empty, or (away from generation
/// 1) when the restart draw fires; count a round on every return to
/// generation 1; and skip the step when past the first round the skip draw
/// fires.
pub open spec fn spec_step(
    graph: Seq<Vec<FITMSnapshot>>,
    gen0: int,
    round0: int,
    restart_draw: u64,
    skip_draw: u64,
) -> StepPlan {
    let advanced = gen0 + 1;
    let empty = advanced >= graph.len() || graph[advanced]@.len() == 0;
    let after_empty = if empty { 1int } else { advanced };
    let chosen = if after_empty != 1 && restart_draw > ABORT_THRESHOLD_PER_MILLE {
        1int
    } else {
        after_empty
    };
    let round = if chosen == 1 { round0 + 1 } else { round0 };
    StepPlan { gen: chosen, round, skip: round != 1 && skip_draw > SKIP_STEP_THRESHOLD_PER_MILLE }
}

/// The exploration scheduler's state: the generation graph (a bucket of
/// snapshots per generation), the generation under consideration, and the
/// round counter.
pub struct Scheduler {
    /// Bucket `g` holds the snapshots of generation `g`, in minting order.
    pub graph: Vec<Vec<FITMSnapshot>>,
    /// The generation most recently considered.
    pub current_gen: usize,
    /// How many times exploration has returned to generation 1.
    pub round: u64,
}

impl Scheduler {
    /// The scheduler always holds the two seed buckets, and its cursor stays
    /// inside the graph.
    pub open spec fn wf(self) -> bool {
        &&& 3 <= self.graph@.len()
        &&& 1 <= self.graph@[1]@.len()
        &&& 1 <= self.graph@[2]@.len()
        &&& self.current_gen < self.graph@.len()
    }

    /// Seeds a fresh graph from the two seed snapshots, provided the
    /// generation-1 seed has at least one output on record for generation 2
    /// to consume; with none the protocol pairing is miswired and no run can
    /// start.
    pub fn seed(
        server_seed: FITMSnapshot,
        client_seed: FITMSnapshot,
        initial_output_count: usize,
    ) -> (r: Option<Scheduler>)
        ensures
            r is Some <==> initial_output_count >= 1,
            r is Some ==> {
                &&& r.unwrap().wf()
                &&& r.unwrap().graph@.len() == 3
                &&& r.unwrap().graph@[0]@.len() == 0
                &&& r.unwrap().graph@[1]@ == seq![server_seed]
                &&& r.unwrap().graph@[2]@ == seq![client_seed]
                &&& r.unwrap().current_gen == 0
                &&& r.unwrap().round == 0
            },
    {
        if initial_output_count == 0 {
            return None;
        }
        let mut gen1: Vec<FITMSnapshot> = Vec::new();
        gen1.push(server_seed);
        let mut gen2: Vec<FITMSnapshot> = Vec::new();
        gen2.push(client_seed);
        let mut graph: Vec<Vec<FITMSnapshot>> = Vec::new();
        graph.push(Vec::new());
        graph.push(gen1);
        graph.push(gen2);
        proof {
            assert(graph@[1]@ =~= seq![server_seed]);
            assert(graph@[2]@ =~= seq![client_seed]);
        }
        Some(Scheduler { graph, current_gen: 0, round: 0 })
    }

    /// Adopts a resumed generation graph.
    pub fn from_resumed(graph: Vec<Vec<FITMSnapshot>>) -> (r: Scheduler)
        requires
            graph@.len() > 2,
            graph@[1]@.len() > 0,
            graph@[2]@.len() > 0,
        ensures
            r.wf(),
            r.graph == graph,
            r.current_gen == 0,
            r.round == 0,
    {
        Scheduler { graph, current_gen: 0, round: 0 }
    }

    /// How many generation buckets the graph holds.
    pub fn generations(&self) -> (r: usize)
        ensures
            r == self.graph@.len(),
    {
        self.graph.len()
    }

    /// The bucket of one generation.
    pub fn bucket(&self, gen: usize) -> (r: &Vec<FITMSnapshot>)
        requires
            gen < self.graph@.len(),
        ensures
            *r == self.graph@[gen as int],
    {
        &self.graph[gen]
    }

    /// Gives the graph up, for persisting.
    pub fn into_graph(self) -> (r: Vec<Vec<FITMSnapshot>>)
        ensures
            r == self.graph,
    {
        self.graph
    }

    /// Performs one scheduling step with the two supplied per-mille draws,
    /// moves the cursor, counts rounds, and — unless the step is skipped —
    /// makes room for the two generations the stage feeds and names the
    /// bucket to process. An empty or missing bucket is never processed: the
    /// step falls back to generation 1 the moment it sees one.
    pub fn step(&mut self, restart_draw: u64, skip_draw: u64) -> (r: StepAction)
        requires
            old(self).wf(),
            old(self).round < u64::MAX,
            old(self).graph@.len() <= usize::MAX - 3,
        ensures
            final(self).wf(),
            final(self).current_gen == spec_step(
                old(self).graph@,
                old(self).current_gen as int,
                old(self).round as int,
                restart_draw,
                skip_draw,
            ).gen,
            final(self).round == spec_step(
                old(self).graph@,
                old(self).current_gen as int,
                old(self).round as int,
                restart_draw,
                skip_draw,
            ).round,
            (r is Skip) == spec_step(
                old(self).graph@,
                old(self).current_gen as int,
                old(self).round as int,
                restart_draw,
                skip_draw,
            ).skip,
            r is Skip ==> final(self).graph == old(self).graph,
            r is Process ==> {
                let chosen = spec_step(
                    old(self).graph@,
                    old(self).current_gen as int,
                    old(self).round as int,
                    restart_draw,
                    skip_draw,
                ).gen;
                &&& chosen + 2 < final(self).graph@.len()
                &&& final(self).graph@.len() == if old(self).graph@.len() >= chosen + 3 {
                    old(self).graph@.len() as int
                } else {
                    chosen + 3
                }
                &&& forall|k: int|
                    0 <= k < old(self).graph@.len() ==> final(self).graph@[k] == old(self).graph@[k]
                &&& forall|k: int|
                    old(self).graph@.len() <= k < final(self).graph@.len() ==> final(self).graph@[k]@.len() == 0
                &&& r == (StepAction::Process {
                    gen: chosen as usize,
                    next_gen_id_start: final(self).graph@[chosen + 2]@.len() as usize,
                })
                &&& final(self).graph@[chosen]@.len() > 0
            },
    {
        let ghost plan = spec_step(
            self.graph@,
            self.current_gen as int,
            self.round as int,
            restart_draw,
            skip_draw,
        );

        self.current_gen = self.current_gen + 1;
        if self.current_gen >= self.graph.len() || self.graph[self.current_gen].len() == 0 {
            // The bucket ahead holds nothing yet: restart with generation 1,
            // the initial request, rather than process an empty bucket.
            self.current_gen = 1;
        }

        // Occasionally stop going deeper and go back to the start.
        if self.current_gen != 1 && restart_draw > ABORT_THRESHOLD_PER_MILLE {
            self.current_gen = 1;
        }

        // Wrapped around (or started fresh): the next round begins.
        if self.current_gen == 1 {
            self.round = self.round + 1;
        }

        // Occasionally skip a step, except in the very first round.
        if self.round != 1 && skip_draw > SKIP_STEP_THRESHOLD_PER_MILLE {
            return StepAction::Skip;
        }

        // Make sure buckets exist for the outputs (one generation on) and the
        // children (two generations on) of the processed generation.
        if self.current_gen + 1 == self.graph.len() {
            self.graph.push(Vec::new());
        }
        if self.current_gen + 2 == self.graph.len() {
            self.graph.push(Vec::new());
        }
        let next_gen_id_start = self.graph[self.current_gen + 2].len();
        StepAction::Process { gen: self.current_gen, next_gen_id_start }
    }

    /// Appends the snapshots one stage minted to the bucket two generations
    /// past the processed one.
    pub fn append_minted(&mut self, gen: usize, minted: Vec<FITMSnapshot>)
        requires
            old(self).wf(),
            1 <= gen,
            gen <= usize::MAX - 2,
            gen + 2 < old(self).graph@.len(),
        ensures
            final(self).wf(),
            final(self).current_gen == old(self).current_gen,
            final(self).round == old(self).round,
            final(self).graph@.len() == old(self).graph@.len(),
            final(self).graph@[gen + 2]@ == old(self).graph@[gen + 2]@ + minted@,
            forall|k: int|
                0 <= k < final(self).graph@.len() && k != gen + 2 ==> final(self).graph@[k] == old(self).graph@[k],
    {
        let mut bucket: Vec<FITMSnapshot> = Vec::new();
        let mut rest = minted;
        self.graph.set_and_swap(gen + 2, &mut bucket);
        bucket.append(&mut rest);
        self.graph.set_and_swap(gen + 2, &mut bucket);
    }
}

} // verus!
