//! The stage-processing pipeline's decision core: judging external tool
//! outcomes, guarding the minimizer corpus, deduplicating coverage traces,
//! and minting next-generation snapshots with unique state ids.

use vstd::prelude::*;

use crate::naming::spec_state_path;
use crate::similarity::{spec_exceeds_threshold, spec_output_similarity, MAX_SIM_LEN};
use crate::snapshot::FITMSnapshot;
use crate::spec_origin;

verus! {

/// The contents of the placeholder input injected into an otherwise empty
/// minimizer corpus (the bytes of `nop`).
pub open spec fn nop_input() -> Seq<u8> {
    seq![110u8, 111u8, 112u8]
}

/// A minimizer corpus is never handed over empty: when no input was received
/// from prior runs, a single placeholder input is injected first.
pub fn ensure_corpus_nonempty(corpus: Vec<Vec<u8>>) -> (r: Vec<Vec<u8>>)
    ensures
        r@.len() >= 1,
        corpus@.len() > 0 ==> r@ == corpus@,
        corpus@.len() == 0 ==> r@.len() == 1 && r@[0]@ == nop_input(),
{
    if corpus.len() > 0 {
        corpus
    } else {
        let mut nop: Vec<u8> = Vec::new();
        nop.push(110);
        nop.push(111);
        nop.push(112);
        proof {
            assert(nop@ =~= nop_input());
        }
        let mut r = corpus;
        r.push(nop);
        r
    }
}

/// How one corpus-minimizer run is judged.
pub enum CminOutcome {
    /// The minimizer exited cleanly, or signalled a crashing testcase
    /// (tolerated), and wrote at least one minimized entry.
    Minimized,
    /// The minimizer exited with a code that is neither success nor the
    /// target-crashed signal; fatal to the whole run.
    FatalExit,
    /// The minimizer produced an empty corpus; treated as a minimizer defect
    /// and fatal.
    EmptyOutput,
}

/// Judges a corpus-minimizer run from its exit code and the number of entries
/// it wrote: exit codes other than 0 (success) and 2 (target crashed) are
/// fatal, as is an empty minimized corpus.
pub fn judge_cmin(exit_code: i32, output_entries: usize) -> (r: CminOutcome)
    ensures
        r is FatalExit <==> exit_code != 0 && exit_code != 2,
        r is EmptyOutput <==> (exit_code == 0 || exit_code == 2) && output_entries == 0,
        r is Minimized <==> (exit_code == 0 || exit_code == 2) && output_entries >= 1,
{
    if exit_code != 0 && exit_code != 2 {
        CminOutcome::FatalExit
    } else if output_entries == 0 {
        CminOutcome::EmptyOutput
    } else {
        CminOutcome::Minimized
    }
}

/// An initial run captured its checkpoint exactly when the child exited with
/// the dedicated signal code 42.
pub fn init_snapshot_captured(exit_code: i32) -> (r: bool)
    ensures
        r == (exit_code == 42),
{
    exit_code == 42
}

/// A non-zero fuzzer exit is fatal to the whole run.
pub fn fuzzer_exit_fatal(exit_code: i32) -> (r: bool)
    ensures
        r == (exit_code != 0),
{
    exit_code != 0
}

/// Whether a stage advanced the exploration: it did exactly when it left
/// inputs for the next generation.
pub fn check_stage_advanced(next_inputs: &mut Vec<String>) -> (r: bool)
    ensures
        r == (old(next_inputs)@.len() != 0),
        *final(next_inputs) == *old(next_inputs),
{
    !next_inputs.is_empty()
}

/// Byte-wise equality of two byte strings.
pub fn bytes_eq(a: &Vec<u8>, b: &Vec<u8>) -> (r: bool)
    ensures
        r == (a@ == b@),
{
    if a.len() != b.len() {
        return false;
    }
    let mut i: usize = 0;
    while i < a.len()
        invariant
            i <= a.len(),
            a@.len() == b@.len(),
            forall|k: int| 0 <= k < i ==> a@[k] == b@[k],
        decreases a.len() - i,
    {
        if a[i] != b[i] {
            return false;
        }
        i += 1;
    }
    proof {
        assert(a@ =~= b@);
    }
    true
}

/// Whether a coverage trace already occurs in a pool of recorded traces.
pub open spec fn spec_trace_seen(pool: Seq<Seq<u8>>, trace: Seq<u8>) -> bool {
    exists|i: int| 0 <= i < pool.len() && pool[i] == trace
}

/// Looks a coverage trace up in the pool of traces recorded over the lookback
/// window; an exact match means the candidate input found nothing new.
pub fn trace_seen(pool: &Vec<Vec<u8>>, trace: &Vec<u8>) -> (r: bool)
    ensures
        r == spec_trace_seen(pool.deep_view(), trace@),
{
    let mut i: usize = 0;
    while i < pool.len()
        invariant
            i <= pool.len(),
            forall|k: int| 0 <= k < i ==> pool.deep_view()[k] != trace@,
        decreases pool.len() - i,
    {
        let hit = bytes_eq(&pool[i], trace);
        proof {
            assert(pool.deep_view()[i as int] == pool@[i as int]@);
        }
        if hit {
            return true;
        }
        i += 1;
    }
    false
}

/// The generations whose recorded outputs feed the given generation as
/// inputs: the previous role-alternation, looking back one more alternation
/// where it exists, and (when the upcoming generation's inputs are wanted)
/// the next one.
pub fn input_generations(gen_id: usize, use_future_gen: bool) -> (r: Vec<usize>)
    requires
        gen_id < usize::MAX,
    ensures
        use_future_gen ==> r@.len() == 3
            && r@[0] == gen_id + 1
            && r@[1] == (if gen_id >= 1 { (gen_id - 1) as int } else { gen_id + 1 })
            && r@[2] == (if gen_id >= 3 { (gen_id - 3) as int } else { gen_id + 1 }),
        !use_future_gen && gen_id == 0 ==> r@.len() == 0,
        !use_future_gen && gen_id >= 1 ==> r@.len() == 2
            && r@[0] == gen_id - 1
            && r@[1] == (if gen_id >= 3 { (gen_id - 3) as int } else { (gen_id - 1) as int }),
{
    let mut r: Vec<usize> = Vec::new();
    if use_future_gen {
        r.push(gen_id + 1);
        r.push(if gen_id >= 1 { gen_id - 1 } else { gen_id + 1 });
        r.push(if gen_id >= 3 { gen_id - 3 } else { gen_id + 1 });
    } else if gen_id >= 1 {
        r.push(gen_id - 1);
        r.push(if gen_id >= 3 { gen_id - 3 } else { gen_id - 1 });
    }
    r
}

/// The generations whose recorded traces the duplicate-trace check consults:
/// the current one and up to three alternation-steps into the past, clamped
/// at the current generation where the past does not reach that far.
pub fn trace_lookback_generations(gen_id: u32) -> (r: Vec<u32>)
    ensures
        r@.len() == 4,
        r@[0] == gen_id,
        r@[1] == (if gen_id >= 2 { (gen_id - 2) as int } else { gen_id as int }),
        r@[2] == (if gen_id >= 4 { (gen_id - 4) as int } else { gen_id as int }),
        r@[3] == (if gen_id >= 6 { (gen_id - 6) as int } else { gen_id as int }),
{
    let mut r: Vec<u32> = Vec::new();
    r.push(gen_id);
    r.push(if gen_id >= 2 { gen_id - 2 } else { gen_id });
    r.push(if gen_id >= 4 { gen_id - 4 } else { gen_id });
    r.push(if gen_id >= 6 { gen_id - 6 } else { gen_id });
    r
}

fn copy_bytes(v: &Vec<u8>) -> (r: Vec<u8>)
    ensures
        r@ == v@,
{
    let mut r: Vec<u8> = Vec::new();
    let mut i: usize = 0;
    while i < v.len()
        invariant
            i <= v.len(),
            r@ == v@.subrange(0, i as int),
        decreases v.len() - i,
    {
        r.push(v[i]);
        i += 1;
        proof {
            assert(v@.subrange(0, i as int) =~= v@.subrange(0, i - 1).push(v@[i - 1]));
        }
    }
    proof {
        assert(v@.subrange(0, v@.len() as int) =~= v@);
    }
    r
}

/// One minimized queue entry as the dedup filters see it: the output bytes
/// its run captured, if any, and its recorded coverage trace.
pub struct StageEntry {
    /// The bytes the target emitted when driven with this entry, or nothing
    /// if the run produced no non-empty output.
    pub output: Option<Vec<u8>>,
    /// The entry's coverage trace.
    pub trace: Vec<u8>,
}

/// The abstract value of a stage entry.
pub ghost struct EntryModel {
    /// The captured output bytes, if any.
    pub output: Option<Seq<u8>>,
    /// The coverage trace.
    pub trace: Seq<u8>,
}

impl View for StageEntry {
    type V = EntryModel;

    open spec fn view(&self) -> EntryModel {
        EntryModel {
            output: match self.output {
                Some(o) => Some(o@),
                None => None,
            },
            trace: self.trace@,
        }
    }
}

impl DeepView for StageEntry {
    type V = EntryModel;

    open spec fn deep_view(&self) -> EntryModel {
        self.view()
    }
}

/// An output is redundant against a pool when some pool member is similar to
/// it beyond the near-duplicate threshold.
pub open spec fn is_redundant(pool: Seq<Seq<u8>>, out: Seq<u8>) -> bool {
    exists|k: int|
        0 <= k < pool.len() && spec_exceeds_threshold(
            spec_output_similarity(pool[k], out).num,
            spec_output_similarity(pool[k], out).den,
        )
}

/// The rolling output pool after the first `i` entries were examined: every
/// captured output that was not redundant when it was seen has been added.
pub open spec fn entry_pool_after(pool: Seq<Seq<u8>>, es: Seq<EntryModel>, i: int) -> Seq<Seq<u8>>
    decreases i,
{
    if i <= 0 {
        pool
    } else {
        let p = entry_pool_after(pool, es, i - 1);
        match es[i - 1].output {
            None => p,
            Some(o) => if is_redundant(p, o) {
                p
            } else {
                p.push(o)
            },
        }
    }
}

/// Whether the output-similarity filter ignores entry `i`: it does exactly
/// when the entry captured an output that is redundant against the pool as it
/// stood when the entry was examined (first seen wins).
pub open spec fn entry_ignored(pool: Seq<Seq<u8>>, es: Seq<EntryModel>, i: int) -> bool {
    match es[i].output {
        None => false,
        Some(o) => is_redundant(entry_pool_after(pool, es, i), o),
    }
}

/// Whether entry `i` survives both filters and is attempted as a snapshot:
/// its output is not a near-duplicate, and its trace was not recorded over
/// the lookback window.
pub open spec fn entry_selected(
    pool: Seq<Seq<u8>>,
    es: Seq<EntryModel>,
    traces: Seq<Seq<u8>>,
    i: int,
) -> bool {
    !entry_ignored(pool, es, i) && !spec_trace_seen(traces, es[i].trace)
}

/// Whether a stage entry's output, if it has one, is short enough for the
/// similarity measure.
pub open spec fn entry_len_ok(e: EntryModel) -> bool {
    match e.output {
        None => true,
        Some(o) => o.len() <= MAX_SIM_LEN,
    }
}

fn is_redundant_exec(pool: &Vec<Vec<u8>>, out: &Vec<u8>) -> (r: bool)
    requires
        forall|k: int| 0 <= k < pool@.len() ==> (#[trigger] pool@[k])@.len() <= MAX_SIM_LEN,
        out@.len() <= MAX_SIM_LEN,
    ensures
        r == is_redundant(pool.deep_view(), out@),
{
    let mut k: usize = 0;
    while k < pool.len()
        invariant
            k <= pool.len(),
            out@.len() <= MAX_SIM_LEN,
            forall|j: int| 0 <= j < pool@.len() ==> (#[trigger] pool@[j])@.len() <= MAX_SIM_LEN,
            forall|j: int|
                0 <= j < k ==> !spec_exceeds_threshold(
                    spec_output_similarity(pool.deep_view()[j], out@).num,
                    spec_output_similarity(pool.deep_view()[j], out@).den,
                ),
        decreases pool.len() - k,
    {
        let sim = crate::similarity::output_similarity(pool[k].as_slice(), out.as_slice());
        proof {
            assert(pool.deep_view()[k as int] == pool@[k as int]@);
        }
        if crate::similarity::exceeds_threshold(sim) {
            return true;
        }
        k += 1;
    }
    false
}

/// Runs the output-similarity filter and the duplicate-trace filter over the
/// minimized queue entries of one snapshot, in order: the result marks the
/// entries a snapshot-creation attempt is made for. The pool is seeded with
/// every output already on record for the previous role-alternation and grows
/// with each new output that is kept, so later entries are also compared
/// against earlier survivors.
pub fn select_candidates(
    prev_outputs: Vec<Vec<u8>>,
    entries: &Vec<StageEntry>,
    known_traces: &Vec<Vec<u8>>,
) -> (selected: Vec<bool>)
    requires
        forall|k: int|
            0 <= k < prev_outputs@.len() ==> (#[trigger] prev_outputs@[k])@.len() <= MAX_SIM_LEN,
        forall|i: int| 0 <= i < entries@.len() ==> entry_len_ok(#[trigger] entries.deep_view()[i]),
    ensures
        selected@.len() == entries@.len(),
        forall|i: int|
            0 <= i < entries@.len() ==> selected@[i] == entry_selected(
                prev_outputs.deep_view(),
                entries.deep_view(),
                known_traces.deep_view(),
                i,
            ),
{
    let ghost pool0 = prev_outputs.deep_view();
    let ghost es = entries.deep_view();
    let mut pool = prev_outputs;
    let mut selected: Vec<bool> = Vec::new();
    let mut i: usize = 0;
    while i < entries.len()
        invariant
            i <= entries.len(),
            es == entries.deep_view(),
            es.len() == entries@.len(),
            pool.deep_view() == entry_pool_after(pool0, es, i as int),
            forall|k: int| 0 <= k < pool@.len() ==> (#[trigger] pool@[k])@.len() <= MAX_SIM_LEN,
            forall|j: int| 0 <= j < entries@.len() ==> entry_len_ok(#[trigger] es[j]),
            selected@.len() == i,
            forall|j: int|
                0 <= j < i ==> selected@[j] == entry_selected(
                    pool0,
                    es,
                    known_traces.deep_view(),
                    j,
                ),
        decreases entries.len() - i,
    {
        proof {
            assert(entries.deep_view()[i as int] == entries@[i as int].deep_view());
        }
        let ignored: bool;
        match &entries[i].output {
            Some(o) => {
                let red = is_redundant_exec(&pool, o);
                ignored = red;
                proof {
                    assert(es[i as int].output == Some(o@));
                }
                if !red {
                    let kept = copy_bytes(o);
                    let ghost before = pool@;
                    let ghost before_deep = pool.deep_view();
                    pool.push(kept);
                    proof {
                        assert(entry_pool_after(pool0, es, i + 1) == before_deep.push(o@));
                        assert forall|k: int| 0 <= k < pool@.len() implies pool.deep_view()[k]
                            == before_deep.push(o@)[k] by {
                            if k < before.len() {
                                assert(pool@[k] == before[k]);
                            } else {
                                assert(pool@[k] == kept);
                                assert(kept.deep_view() =~= o@);
                            }
                        }
                        assert(pool.deep_view() =~= entry_pool_after(pool0, es, i + 1));
                    }
                }
            },
            None => {
                ignored = false;
            },
        }
        proof {
            assert(pool.deep_view() =~= entry_pool_after(pool0, es, i + 1));
            assert(ignored == entry_ignored(pool0, es, i as int));
        }
        let dup_trace = trace_seen(known_traces, &entries[i].trace);
        selected.push(!ignored && !dup_trace);
        i += 1;
    }
    selected
}

/// Pool prefixes persist: what the pool holds after `i` entries it still
/// holds, in place, after `j`.
proof fn lemma_entry_pool_prefix(pool: Seq<Seq<u8>>, es: Seq<EntryModel>, i: int, j: int)
    requires
        0 <= i <= j,
    ensures
        entry_pool_after(pool, es, i).len() <= entry_pool_after(pool, es, j).len(),
        forall|k: int|
            0 <= k < entry_pool_after(pool, es, i).len() ==> entry_pool_after(pool, es, j)[k]
                == entry_pool_after(pool, es, i)[k],
    decreases j - i,
{
    if i < j {
        lemma_entry_pool_prefix(pool, es, i, j - 1);
    }
}

/// Feeding the pipeline the same captured output twice in one stage call
/// never attempts both occurrences: whatever happened to the first, the pool
/// still holds either it or what made it redundant when the second arrives.
/// In particular, the same minimized queue entry seen twice cannot mint two
/// snapshots carrying the same coverage trace.
pub proof fn lemma_duplicate_entry_not_selected(
    pool: Seq<Seq<u8>>,
    es: Seq<EntryModel>,
    traces: Seq<Seq<u8>>,
    i: int,
    j: int,
)
    requires
        0 <= i < j < es.len(),
        es[i].output is Some,
        es[i].output == es[j].output,
    ensures
        !entry_selected(pool, es, traces, j),
{
    let o = es[i].output.unwrap();
    let pi = entry_pool_after(pool, es, i);
    let pj = entry_pool_after(pool, es, j);
    assert(spec_output_similarity(o, o) == (crate::similarity::Frac { num: 1, den: 1 })) by {
        assert(!crate::similarity::bytes_lt(o, o));
    }
    if is_redundant(pi, o) {
        let k = choose|k: int|
            0 <= k < pi.len() && spec_exceeds_threshold(
                spec_output_similarity(pi[k], o).num,
                spec_output_similarity(pi[k], o).den,
            );
        lemma_entry_pool_prefix(pool, es, i, j);
        assert(pj[k] == pi[k]);
        assert(is_redundant(pj, o));
    } else {
        let pi1 = entry_pool_after(pool, es, i + 1);
        assert(pi1 == pi.push(o));
        assert(pi1[pi.len() as int] == o);
        lemma_entry_pool_prefix(pool, es, i + 1, j);
        assert(pj[pi.len() as int] == o);
        assert(is_redundant(pj, o));
    }
}

/// The relation between a snapshot minted by a stage and the snapshot it was
/// restored from: two generations deeper, same role, same target, based on
/// the parent's persisted state.
pub open spec fn is_child_of(child: FITMSnapshot, parent: FITMSnapshot, id: nat) -> bool {
    &&& child.generation == parent.generation + 2
    &&& child.state_id == id
    &&& child.state_path@ == spec_state_path(child.generation as nat, id)
    &&& child.target_bin@ == parent.target_bin@
    &&& child.timeout_millis == parent.timeout_millis
    &&& child.server == parent.server
    &&& child.base_state@ == parent.state_path@
    &&& !child.initial
    &&& child.origin_state@ == spec_origin(parent.server)
    &&& child.pid == parent.pid
    &&& child.files@.len() == 0
}

/// Mints the snapshots of one stage call, assigning sequential state ids from
/// a fixed start so that ids stay unique within the output generation even
/// when several source snapshots contribute children.
pub struct StageMinter {
    /// The first state id this stage may assign.
    pub id_start: usize,
    /// The snapshots minted so far, in minting order.
    pub minted: Vec<FITMSnapshot>,
    /// The source snapshot each minted snapshot was restored from.
    pub parents: Ghost<Seq<FITMSnapshot>>,
}

impl StageMinter {
    /// Every minted snapshot is the child of its recorded parent, under the
    /// state id given by its minting position.
    pub open spec fn wf(self) -> bool {
        &&& self.minted@.len() == self.parents@.len()
        &&& self.id_start + self.minted@.len() <= usize::MAX
        &&& forall|i: int|
            0 <= i < self.minted@.len() ==> is_child_of(
                #[trigger] self.minted@[i],
                self.parents@[i],
                (self.id_start + i) as nat,
            )
    }

    /// Starts minting for one stage call at the given first free state id.
    pub fn new(id_start: usize) -> (r: Self)
        ensures
            r.wf(),
            r.id_start == id_start,
            r.minted@.len() == 0,
    {
        StageMinter { id_start, minted: Vec::new(), parents: Ghost(Seq::empty()) }
    }

    /// The state id the next minted snapshot would receive.
    pub fn next_state_id(&self) -> (r: usize)
        requires
            self.id_start + self.minted@.len() < usize::MAX,
        ensures
            r == self.id_start + self.minted@.len(),
    {
        self.id_start + self.minted.len()
    }

    /// Judges one snapshot-creation attempt by the number of entries the
    /// checkpoint tool left in the scratch image directory: three or more
    /// entries count as a complete checkpoint and mint a child snapshot of
    /// `parent`; fewer mean the target exited before the next receive point,
    /// and nothing is minted.
    pub fn try_mint(&mut self, parent: &FITMSnapshot, image_entries: usize) -> (r: Option<
        FITMSnapshot,
    >)
        requires
            old(self).wf(),
            parent.generation + 2 <= u32::MAX,
            old(self).id_start + old(self).minted@.len() < usize::MAX,
        ensures
            final(self).wf(),
            final(self).id_start == old(self).id_start,
            r is Some <==> image_entries >= 3,
            image_entries >= 3 ==> {
                &&& final(self).minted@.len() == old(self).minted@.len() + 1
                &&& final(self).minted@.subrange(0, old(self).minted@.len() as int) == old(
                    self,
                ).minted@
                &&& final(self).parents@ == old(self).parents@.push(*parent)
                &&& is_child_of(
                    r.unwrap(),
                    *parent,
                    (old(self).id_start + old(self).minted@.len()) as nat,
                )
            },
            image_entries < 3 ==> *final(self) == *old(self),
    {
        if image_entries >= 3 {
            let state_id = self.id_start + self.minted.len();
            let child = FITMSnapshot::new(
                parent.generation + 2,
                state_id,
                parent.target_bin.clone(),
                parent.timeout_millis,
                parent.state_path.clone(),
                parent.server,
                parent.pid,
            );
            let out = child.clone();
            proof {
                assert(out.files.deep_view() == child.files.deep_view());
                assert(out.files.deep_view().len() == out.files@.len());
                assert(child.files.deep_view().len() == child.files@.len());
                assert(out.files@.len() == child.files@.len());
                assert(is_child_of(out, *parent, state_id as nat));
            }
            self.minted.push(child);
            proof {
                self.parents@ = self.parents@.push(*parent);
                assert(self.minted@.subrange(0, old(self).minted@.len() as int) =~= old(
                    self,
                ).minted@);
            }
            Some(out)
        } else {
            None
        }
    }
}

/// Lineage: every snapshot minted by a stage sits exactly two generations
/// below the snapshot it was restored from, with the role preserved.
pub proof fn lemma_minted_lineage(m: StageMinter)
    requires
        m.wf(),
    ensures
        forall|i: int|
            0 <= i < m.minted@.len() ==> (#[trigger] m.minted@[i]).generation == m.parents@[i].generation
                + 2 && m.minted@[i].server == m.parents@[i].server && m.minted@[i].base_state@
                == m.parents@[i].state_path@,
{
}

/// Uniqueness: the state ids minted within one stage call are strictly
/// increasing, and so collision-free, even when several source snapshots
/// contribute children.
pub proof fn lemma_minted_ids_strictly_increasing(m: StageMinter, i: int, j: int)
    requires
        m.wf(),
        0 <= i < j < m.minted@.len(),
    ensures
        m.minted@[i].state_id < m.minted@[j].state_id,
{
    assert(is_child_of(m.minted@[i], m.parents@[i], (m.id_start + i) as nat));
    assert(is_child_of(m.minted@[j], m.parents@[j], (m.id_start + j) as nat));
}

} // verus!
