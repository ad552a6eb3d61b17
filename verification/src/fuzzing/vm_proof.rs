//! Proofs of a whole run.
use vstd::prelude::*;

use crate::fuzzing::circuits::CircuitKind;
use crate::fuzzing::proving;
use crate::fuzzing::proving::take_events;
use crate::fuzzing::proving::Accumulators;
use crate::fuzzing::proving::AccumulatorsView;
use crate::fuzzing::proving::FamilyTables;
use crate::fuzzing::proving::PreparedExecution;
use crate::fuzzing::proving::ProverEvent;
use crate::fuzzing::proving::ProverStage;
use crate::fuzzing::proving::Quartic;
use crate::fuzzing::proving::NUM_CYCLES_PER_CHUNK;
use crate::fuzzing::vm::Counters;
use crate::fuzzing::vm::MachineState;

verus! {

/// The time at which a run starts.
pub const INITIAL_TIMESTAMP: u64 = 4;

/// The time that a cycle takes.
pub const TIMESTAMP_STEP: u64 = 4;

pub const NUM_INIT_AND_TEARDOWN_SETS: usize = 6;

pub const NUM_DELEGATION_CYCLES: usize = 0xf_ffff;

/// The memory words that are torn down in one chunk.
pub const TEARDOWNS_PER_CHUNK: usize = 100_663_290;

/// The last access to a memory word.
#[derive(Clone, Copy, Debug, PartialEq, Eq, Structural)]
pub struct TouchedWord {
    pub address: u32,
    pub timestamp: u64,
    pub value: u32,
}

/// A step of the proof of a run.
#[derive(Clone, Copy, Debug, PartialEq, Eq, Structural)]
pub enum VmStep {
    /// Check the counters of the last snapshot.
    ValidateCounters,
    /// Prove a circuit.
    Prove(CircuitKind),
    /// Check that the state transitions read and written agree.
    ValidateSets,
    /// Check that the memory accesses agree with what was torn down.
    ValidateInitsAndTeardowns,
}

/// The steps in their order: the families whose rows hold the machine state, then the sets that they
/// filled, then the memory and the delegations, then everything against what was torn down.
pub open spec fn vm_steps() -> Seq<VmStep> {
    seq![
        VmStep::ValidateCounters,
        VmStep::Prove(CircuitKind::AddSubLuiAuipcMop),
        VmStep::Prove(CircuitKind::JumpBranchSlt),
        VmStep::Prove(CircuitKind::XorAndOrShiftCsr),
        VmStep::Prove(CircuitKind::MulDiv),
        VmStep::Prove(CircuitKind::LoadStore),
        VmStep::Prove(CircuitKind::SubwordLoadStore),
        VmStep::ValidateSets,
        VmStep::Prove(CircuitKind::InitsAndTeardowns),
        VmStep::Prove(CircuitKind::BlakeDelegation),
        VmStep::Prove(CircuitKind::KeccakDelegation),
        VmStep::ValidateInitsAndTeardowns,
    ]
}

/// The step with a number, or none once all are done.
pub fn vm_step(index: usize) -> (r: Option<VmStep>)
    ensures
        r == if index < vm_steps().len() {
            Some(vm_steps()[index as int])
        } else {
            None
        },
{
    match index {
        0 => Some(VmStep::ValidateCounters),
        1 => Some(VmStep::Prove(CircuitKind::AddSubLuiAuipcMop)),
        2 => Some(VmStep::Prove(CircuitKind::JumpBranchSlt)),
        3 => Some(VmStep::Prove(CircuitKind::XorAndOrShiftCsr)),
        4 => Some(VmStep::Prove(CircuitKind::MulDiv)),
        5 => Some(VmStep::Prove(CircuitKind::LoadStore)),
        6 => Some(VmStep::Prove(CircuitKind::SubwordLoadStore)),
        7 => Some(VmStep::ValidateSets),
        8 => Some(VmStep::Prove(CircuitKind::InitsAndTeardowns)),
        9 => Some(VmStep::Prove(CircuitKind::BlakeDelegation)),
        10 => Some(VmStep::Prove(CircuitKind::KeccakDelegation)),
        11 => Some(VmStep::ValidateInitsAndTeardowns),
        _ => None,
    }
}

/// Why the proof of a run is not accepted.
#[derive(Clone, Copy, Debug, PartialEq, Eq, Structural)]
pub enum VmFailure {
    /// There is no snapshot to take the counters from.
    NoSnapshots,
    /// A chunk of torn down memory was all padding.
    TrivialPadding,
    /// The step with this number failed.
    Step(usize),
    /// The step with this number was not done.
    Unfinished(usize),
}

/// What is known of a run before its circuits are proved.
#[derive(Debug)]
pub struct VmPlan {
    pub exact_cycles_passed: u64,
    pub counters: Counters,
    pub expected_final_state: MachineState,
    pub total_unique_teardowns: usize,
    pub flattened_inits_and_teardowns: Vec<TouchedWord>,
}

/// The words of all chunks, one chunk after the other.
pub open spec fn flattened(chunks: Seq<Vec<TouchedWord>>) -> Seq<TouchedWord>
    decreases chunks.len(),
{
    if chunks.len() == 0 {
        Seq::empty()
    } else {
        flattened(chunks.drop_last()) + chunks.last()@
    }
}

proof fn lemma_flattened_grows(chunks: Seq<Vec<TouchedWord>>, k: int)
    requires
        0 <= k <= chunks.len(),
    ensures
        flattened(chunks.take(k)).len() <= flattened(chunks).len(),
    decreases chunks.len(),
{
    if k == chunks.len() {
        assert(chunks.take(k) =~= chunks);
    } else {
        lemma_flattened_grows(chunks.drop_last(), k);
        assert(chunks.drop_last().take(k) =~= chunks.take(k));
    }
}

fn flatten(chunks: &Vec<Vec<TouchedWord>>) -> (r: Vec<TouchedWord>)
    ensures
        r@ == flattened(chunks@),
{
    let mut out: Vec<TouchedWord> = Vec::new();
    for c in 0..chunks.len()
        invariant
            out@ == flattened(chunks@.take(c as int)),
    {
        let chunk = &chunks[c];
        let ghost before = out@;
        for i in 0..chunk.len()
            invariant
                out@ == before + chunk@.take(i as int),
        {
            out.push(chunk[i]);
            assert(out@ =~= before + chunk@.take(i + 1));
        }
        assert(chunk@.take(chunk@.len() as int) =~= chunk@);
        assert(chunks@.take(c + 1).drop_last() =~= chunks@.take(c as int));
    }
    assert(chunks@.take(chunks@.len() as int) =~= chunks@);
    out
}

fn total_length(chunks: &Vec<Vec<TouchedWord>>) -> (r: usize)
    requires
        flattened(chunks@).len() <= usize::MAX,
    ensures
        r == flattened(chunks@).len(),
{
    let mut total: usize = 0;
    for c in 0..chunks.len()
        invariant
            flattened(chunks@).len() <= usize::MAX,
            total == flattened(chunks@.take(c as int)).len(),
    {
        assert(chunks@.take(c + 1).drop_last() =~= chunks@.take(c as int));
        proof {
            lemma_flattened_grows(chunks@, c + 1);
        }
        total = total + chunks[c].len();
    }
    assert(chunks@.take(chunks@.len() as int) =~= chunks@);
    total
}

/// Whether the proof of a run can start.
pub open spec fn start_failure(snapshots: Seq<Counters>, num_trivial: usize) -> Option<VmFailure> {
    if snapshots.len() == 0 {
        Some(VmFailure::NoSnapshots)
    } else if num_trivial != 0 {
        Some(VmFailure::TrivialPadding)
    } else {
        None
    }
}

/// Whether a plan is that of a run.
pub open spec fn plan_of(
    plan: VmPlan,
    state: MachineState,
    snapshots: Seq<Counters>,
    touched: Seq<Vec<TouchedWord>>,
) -> bool {
    &&& plan.exact_cycles_passed == (state.timestamp - INITIAL_TIMESTAMP) / TIMESTAMP_STEP as int
    &&& plan.counters == snapshots.last()
    &&& plan.expected_final_state == (MachineState { counters: Counters::zeroed(), ..state })
    &&& plan.flattened_inits_and_teardowns@ == flattened(touched)
    &&& plan.total_unique_teardowns == flattened(touched).len()
}

/// What is known of a run before its circuits are proved: its final state, the counters of its
/// snapshots, the memory words that it touched, and how many of their chunks are all padding.
pub fn plan_vm_proof(
    state: &MachineState,
    snapshots: &Vec<Counters>,
    touched: &Vec<Vec<TouchedWord>>,
    num_trivial: usize,
) -> (r: Result<VmPlan, VmFailure>)
    requires
        state.timestamp >= INITIAL_TIMESTAMP,
        flattened(touched@).len() <= usize::MAX,
    ensures
        match start_failure(snapshots@, num_trivial) {
            Some(f) => r == Err::<VmPlan, VmFailure>(f),
            None => r matches Ok(plan) && plan_of(plan, *state, snapshots@, touched@),
        },
{
    let exact_cycles_passed: u64 = (state.timestamp - INITIAL_TIMESTAMP) / TIMESTAMP_STEP;
    if snapshots.len() == 0 {
        return Err(VmFailure::NoSnapshots);
    }
    let counters = snapshots[snapshots.len() - 1];
    let total_unique_teardowns = total_length(touched);
    if num_trivial != 0 {
        return Err(VmFailure::TrivialPadding);
    }
    Ok(
        VmPlan {
            exact_cycles_passed,
            counters,
            expected_final_state: state.without_counters(),
            total_unique_teardowns,
            flattened_inits_and_teardowns: flatten(touched),
        },
    )
}

/// Whether the rows of a circuit are the cycles of the machine, so that its proof goes through the
/// stages of a prover.
pub open spec fn is_family(kind: CircuitKind) -> bool {
    !(kind is InitsAndTeardowns) && !(kind is BlakeDelegation) && !(kind is KeccakDelegation)
}

/// What came of a step.
#[derive(Debug)]
pub enum StepReport {
    /// It was checked, with this outcome.
    Checked(bool),
    /// The events of the proof of a family.
    Events(Vec<ProverEvent>),
    /// What an accepted proof of another circuit contributes.
    Contribution { permutation_factor: Quartic, delegation_term: Option<Quartic> },
}

/// Whether a step succeeded.
pub open spec fn step_passes(step: VmStep, prepared: PreparedExecution, report: StepReport) -> bool {
    match step {
        VmStep::Prove(kind) => if is_family(kind) {
            report matches StepReport::Events(events) && proving::stage_after(
                kind,
                prepared,
                events@,
            ) is Finished
        } else {
            report is Contribution
        },
        _ => report == StepReport::Checked(true),
    }
}

/// The accumulators after a step.
pub open spec fn contributed(
    step: VmStep,
    prepared: PreparedExecution,
    report: StepReport,
    acc: AccumulatorsView,
) -> AccumulatorsView {
    match step {
        VmStep::Prove(kind) => match report {
            StepReport::Events(events) => if is_family(kind) {
                proving::accumulators_after(kind, prepared, events@, acc)
            } else {
                acc
            },
            StepReport::Contribution { permutation_factor, delegation_term } => if is_family(kind) {
                acc
            } else {
                AccumulatorsView {
                    permutation_factors: acc.permutation_factors.push(permutation_factor),
                    delegation_terms: match delegation_term {
                        Some(t) => acc.delegation_terms.push(t),
                        None => acc.delegation_terms,
                    },
                }
            },
            StepReport::Checked(_) => acc,
        },
        _ => acc,
    }
}

fn take_step(
    step: VmStep,
    prepared: &PreparedExecution,
    report: &StepReport,
    accumulators: &mut Accumulators,
) -> (r: bool)
    ensures
        r == step_passes(step, *prepared, *report),
        final(accumulators)@ == contributed(step, *prepared, *report, old(accumulators)@),
{
    match step {
        VmStep::Prove(kind) => {
            let family: bool = match kind {
                CircuitKind::InitsAndTeardowns => false,
                CircuitKind::BlakeDelegation => false,
                CircuitKind::KeccakDelegation => false,
                _ => true,
            };
            match report {
                StepReport::Events(events) => if family {
                    take_events(kind, accumulators, prepared, events) == ProverStage::Finished
                } else {
                    false
                },
                StepReport::Contribution { permutation_factor, delegation_term } => if family {
                    false
                } else {
                    accumulators.permutation_factors.push(*permutation_factor);
                    if let Some(t) = delegation_term {
                        accumulators.delegation_terms.push(*t);
                    }
                    true
                },
                StepReport::Checked(_) => false,
            }
        },
        _ => match report {
            StepReport::Checked(passed) => *passed,
            _ => false,
        },
    }
}

/// What stops the steps: the first that failed, or the first that was not done.
pub open spec fn steps_failure(
    prepared: PreparedExecution,
    reports: Seq<StepReport>,
    from: int,
) -> Option<VmFailure>
    decreases vm_steps().len() - from,
{
    if from >= vm_steps().len() {
        None
    } else if from >= reports.len() {
        Some(VmFailure::Unfinished(from as usize))
    } else if !step_passes(vm_steps()[from], prepared, reports[from]) {
        Some(VmFailure::Step(from as usize))
    } else {
        steps_failure(prepared, reports, from + 1)
    }
}

/// The accumulators after the first steps.
pub open spec fn accumulators_after_steps(
    prepared: PreparedExecution,
    reports: Seq<StepReport>,
    n: nat,
    acc: AccumulatorsView,
) -> AccumulatorsView
    decreases n,
{
    if n == 0 {
        acc
    } else {
        contributed(
            vm_steps()[n - 1],
            prepared,
            reports[n - 1],
            accumulators_after_steps(prepared, reports, (n - 1) as nat, acc),
        )
    }
}

/// What the proofs of the circuits of a run have in common.
pub open spec fn prepared_run(
    state: MachineState,
    snapshots: Seq<Counters>,
    cycles_bound: usize,
    preprocessing_data: Vec<FamilyTables>,
) -> PreparedExecution {
    PreparedExecution {
        counters: snapshots.last(),
        expected_final_state: MachineState { counters: Counters::zeroed(), ..state },
        cycles_bound,
        preprocessing_data,
    }
}

/// A proved run.
#[derive(Debug)]
pub struct VmProof {
    pub plan: VmPlan,
    pub accumulators: Accumulators,
}

/// The proof of a run: its final state, the counters of its snapshots, the memory words that it
/// touched, how many of their chunks are all padding, the tables of the families, the factor that
/// the initial and the final state contribute, and what came of the steps in their order.
pub fn prove_vm_result(
    state: &MachineState,
    snapshots: &Vec<Counters>,
    touched: &Vec<Vec<TouchedWord>>,
    num_trivial: usize,
    cycles_bound: usize,
    preprocessing_data: Vec<FamilyTables>,
    boundary: Quartic,
    reports: &Vec<StepReport>,
) -> (r: Result<VmProof, VmFailure>)
    requires
        state.timestamp >= INITIAL_TIMESTAMP,
        flattened(touched@).len() <= usize::MAX,
    ensures
        ({
            let prepared = prepared_run(*state, snapshots@, cycles_bound, preprocessing_data);
            match start_failure(snapshots@, num_trivial) {
                Some(f) => r == Err::<VmProof, VmFailure>(f),
                None => match steps_failure(prepared, reports@, 0) {
                    Some(f) => r == Err::<VmProof, VmFailure>(f),
                    None => {
                        &&& r matches Ok(proved) && plan_of(
                            proved.plan,
                            *state,
                            snapshots@,
                            touched@,
                        ) && proved.accumulators@ == accumulators_after_steps(
                            prepared,
                            reports@,
                            vm_steps().len(),
                            (AccumulatorsView {
                                permutation_factors: seq![boundary],
                                delegation_terms: Seq::empty(),
                            }),
                        )
                    },
                },
            }
        }),
{
    let plan = match plan_vm_proof(state, snapshots, touched, num_trivial) {
        Ok(plan) => plan,
        Err(f) => {
            return Err(f);
        },
    };
    let ghost tables = preprocessing_data;
    let prepared = PreparedExecution {
        counters: plan.counters,
        expected_final_state: plan.expected_final_state,
        cycles_bound,
        preprocessing_data,
    };
    assert(prepared == prepared_run(*state, snapshots@, cycles_bound, tables));
    let mut accumulators = Accumulators::new(boundary);
    let ghost start = accumulators@;
    let mut index: usize = 0;
    while index < 12
        invariant
            index <= 12,
            start_failure(snapshots@, num_trivial) is None,
            plan_of(plan, *state, snapshots@, touched@),
            tables == preprocessing_data,
            prepared == prepared_run(*state, snapshots@, cycles_bound, tables),
            steps_failure(prepared, reports@, 0) == steps_failure(
                prepared,
                reports@,
                index as int,
            ),
            accumulators@ == accumulators_after_steps(prepared, reports@, index as nat, start),
        decreases 12 - index,
    {
        if index >= reports.len() {
            return Err(VmFailure::Unfinished(index));
        }
        let step = vm_step(index).unwrap();
        if !take_step(step, &prepared, &reports[index], &mut accumulators) {
            return Err(VmFailure::Step(index));
        }
        index = index + 1;
    }
    Ok(VmProof { plan, accumulators })
}

/// The steps go through just when each of them was done and succeeded.
pub proof fn accepted_runs_passed_every_step(prepared: PreparedExecution, reports: Seq<StepReport>)
    ensures
        steps_failure(prepared, reports, 0) is None <==> (reports.len() >= vm_steps().len()
            && forall|i: int|
            0 <= i < vm_steps().len() ==> step_passes(
                vm_steps()[i],
                prepared,
                #[trigger] reports[i],
            )),
{
    lemma_steps(prepared, reports, 0);
}

proof fn lemma_steps(prepared: PreparedExecution, reports: Seq<StepReport>, from: int)
    requires
        0 <= from <= vm_steps().len(),
    ensures
        steps_failure(prepared, reports, from) is None <==> ((from < vm_steps().len()
            ==> reports.len() >= vm_steps().len()) && forall|i: int|
            from <= i < vm_steps().len() ==> step_passes(
                vm_steps()[i],
                prepared,
                #[trigger] reports[i],
            )),
    decreases vm_steps().len() - from,
{
    if from < vm_steps().len() {
        lemma_steps(prepared, reports, from + 1);
        if from < reports.len() {
            assert(step_passes(vm_steps()[from], prepared, reports[from]) || steps_failure(
                prepared,
                reports,
                from,
            ) is Some);
        }
    }
}

/// The factor that the proof of a step contributes to the permutation argument.
pub open spec fn factor_of(step: VmStep, report: StepReport) -> Option<Quartic> {
    match step {
        VmStep::Prove(kind) => match report {
            StepReport::Events(events) => Some(
                events@[10]->Proved_0.permutation_grand_product_accumulator,
            ),
            StepReport::Contribution { permutation_factor, .. } => Some(permutation_factor),
            StepReport::Checked(_) => None,
        },
        _ => None,
    }
}

/// The factors that the first steps contribute.
pub open spec fn factors_of(reports: Seq<StepReport>, n: nat) -> Seq<Quartic>
    decreases n,
{
    if n == 0 {
        Seq::empty()
    } else {
        let front = factors_of(reports, (n - 1) as nat);
        match factor_of(vm_steps()[n - 1], reports[n - 1]) {
            Some(f) => front.push(f),
            None => front,
        }
    }
}

proof fn lemma_factors(
    prepared: PreparedExecution,
    reports: Seq<StepReport>,
    n: nat,
    acc: AccumulatorsView,
)
    requires
        n <= vm_steps().len() <= reports.len(),
        forall|i: int|
            0 <= i < vm_steps().len() ==> step_passes(
                vm_steps()[i],
                prepared,
                #[trigger] reports[i],
            ),
    ensures
        accumulators_after_steps(prepared, reports, n, acc).permutation_factors
            == acc.permutation_factors + factors_of(reports, n),
    decreases n,
{
    if n > 0 {
        let m = (n - 1) as nat;
        lemma_factors(prepared, reports, m, acc);
        let before = accumulators_after_steps(prepared, reports, m, acc);
        assert(step_passes(vm_steps()[m as int], prepared, reports[m as int]));
        match (vm_steps()[m as int], reports[m as int]) {
            (VmStep::Prove(kind), StepReport::Events(events)) => {
                proving::accepted_proofs_contribute_once(kind, prepared, events@, before);
            },
            _ => {},
        }
    }
}

/// In an accepted run the permutation argument is made of the factor of the boundary states and of
/// one factor for each of the nine circuits, in the order in which they are proved.
pub proof fn accepted_runs_hold_every_factor(
    prepared: PreparedExecution,
    reports: Seq<StepReport>,
    acc: AccumulatorsView,
)
    requires
        steps_failure(prepared, reports, 0) is None,
    ensures
        accumulators_after_steps(
            prepared,
            reports,
            vm_steps().len(),
            acc,
        ).permutation_factors == acc.permutation_factors + factors_of(reports, vm_steps().len()),
        factors_of(reports, vm_steps().len()).len() == 9,
{
    accepted_runs_passed_every_step(prepared, reports);
    lemma_factors(prepared, reports, vm_steps().len(), acc);
    reveal_with_fuel(factors_of, 13);
}

/// Each circuit is proved once.
pub proof fn circuits_are_proved_once(kind: CircuitKind)
    ensures
        exists|i: int|
            0 <= i < vm_steps().len() && (#[trigger] vm_steps()[i]) == VmStep::Prove(kind)
                && forall|j: int|
                0 <= j < vm_steps().len() && (#[trigger] vm_steps()[j]) == VmStep::Prove(kind)
                    ==> j == i,
{
    let i: int = match kind {
        CircuitKind::AddSubLuiAuipcMop => 1,
        CircuitKind::JumpBranchSlt => 2,
        CircuitKind::XorAndOrShiftCsr => 3,
        CircuitKind::MulDiv => 4,
        CircuitKind::LoadStore => 5,
        CircuitKind::SubwordLoadStore => 6,
        CircuitKind::InitsAndTeardowns => 8,
        CircuitKind::BlakeDelegation => 9,
        CircuitKind::KeccakDelegation => 10,
    };
    assert(vm_steps()[i] == VmStep::Prove(kind));
}

/// A chunk of torn down memory fills all its sets.
pub proof fn chunks_fill_their_sets()
    ensures
        TEARDOWNS_PER_CHUNK == NUM_CYCLES_PER_CHUNK * NUM_INIT_AND_TEARDOWN_SETS,
{
}

/// Whether the report on a step is that of an honest proof of a family.
pub open spec fn family_is_proved(
    report: StepReport,
    prepared: PreparedExecution,
    family_idx: u8,
    rows: usize,
    delegates: bool,
) -> bool {
    report matches StepReport::Events(events) && proving::is_honest(
        events@,
        prepared,
        family_idx,
        rows,
        delegates,
    )
}

/// A run is accepted exactly where its counters pass, each family is proved from as many rows as its
/// own counter in the last snapshot says, the sets agree, memory and both delegations are proved,
/// and memory agrees with what was torn down, in this order.
pub proof fn runs_are_proved_from_their_calls(
    state: MachineState,
    snapshots: Seq<Counters>,
    cycles_bound: usize,
    preprocessing_data: Vec<FamilyTables>,
    reports: Seq<StepReport>,
)
    requires
        reports.len() >= 12,
    ensures
        ({
            let prepared = prepared_run(state, snapshots, cycles_bound, preprocessing_data);
            let c = snapshots.last();
            steps_failure(prepared, reports, 0) is None <==> {
                &&& reports[0] == StepReport::Checked(true)
                &&& family_is_proved(
                    reports[1],
                    prepared,
                    CircuitKind::AddSubLuiAuipcMop.family(),
                    c.add_sub_family,
                    false,
                )
                &&& family_is_proved(
                    reports[2],
                    prepared,
                    CircuitKind::JumpBranchSlt.family(),
                    c.jump_branch_slt_family,
                    false,
                )
                &&& family_is_proved(
                    reports[3],
                    prepared,
                    CircuitKind::XorAndOrShiftCsr.family(),
                    c.shift_binary_csr_family,
                    true,
                )
                &&& family_is_proved(
                    reports[4],
                    prepared,
                    CircuitKind::MulDiv.family(),
                    c.mul_div_family,
                    false,
                )
                &&& family_is_proved(
                    reports[5],
                    prepared,
                    CircuitKind::LoadStore.family(),
                    c.word_memory_family,
                    false,
                )
                &&& family_is_proved(
                    reports[6],
                    prepared,
                    CircuitKind::SubwordLoadStore.family(),
                    c.subword_memory_family,
                    false,
                )
                &&& reports[7] == StepReport::Checked(true)
                &&& reports[8] is Contribution
                &&& reports[9] is Contribution
                &&& reports[10] is Contribution
                &&& reports[11] == StepReport::Checked(true)
            }
        }),
{
    let prepared = prepared_run(state, snapshots, cycles_bound, preprocessing_data);
    let c = snapshots.last();
    lemma_family_step(1, CircuitKind::AddSubLuiAuipcMop, prepared, reports[1], c.add_sub_family);
    lemma_family_step(
        2,
        CircuitKind::JumpBranchSlt,
        prepared,
        reports[2],
        c.jump_branch_slt_family,
    );
    lemma_family_step(
        3,
        CircuitKind::XorAndOrShiftCsr,
        prepared,
        reports[3],
        c.shift_binary_csr_family,
    );
    lemma_family_step(4, CircuitKind::MulDiv, prepared, reports[4], c.mul_div_family);
    lemma_family_step(5, CircuitKind::LoadStore, prepared, reports[5], c.word_memory_family);
    lemma_family_step(
        6,
        CircuitKind::SubwordLoadStore,
        prepared,
        reports[6],
        c.subword_memory_family,
    );
    reveal_with_fuel(steps_failure, 14);
    assert(vm_steps().len() == 12);
}

proof fn lemma_family_step(
    at: int,
    kind: CircuitKind,
    prepared: PreparedExecution,
    report: StepReport,
    rows: usize,
)
    requires
        0 <= at < vm_steps().len(),
        vm_steps()[at] == VmStep::Prove(kind),
        rows == match kind {
            CircuitKind::AddSubLuiAuipcMop => prepared.counters.add_sub_family,
            CircuitKind::JumpBranchSlt => prepared.counters.jump_branch_slt_family,
            CircuitKind::XorAndOrShiftCsr => prepared.counters.shift_binary_csr_family,
            CircuitKind::MulDiv => prepared.counters.mul_div_family,
            CircuitKind::LoadStore => prepared.counters.word_memory_family,
            CircuitKind::SubwordLoadStore => prepared.counters.subword_memory_family,
            _ => rows,
        },
        is_family(kind),
    ensures
        step_passes(vm_steps()[at], prepared, report) <==> family_is_proved(
            report,
            prepared,
            kind.family(),
            rows,
            kind == CircuitKind::XorAndOrShiftCsr,
        ),
{
    if let StepReport::Events(events) = report {
        proving::honest_proofs_are_accepted(kind, prepared, events@, rows);
    }
}

/// A run that took a number of cycles from its start is known to have taken that many.
pub proof fn cycles_are_counted(
    plan: VmPlan,
    state: MachineState,
    snapshots: Seq<Counters>,
    touched: Seq<Vec<TouchedWord>>,
    cycles: nat,
)
    requires
        plan_of(plan, state, snapshots, touched),
        state.timestamp == 4 + 4 * cycles,
    ensures
        plan.exact_cycles_passed == cycles,
        plan.expected_final_state.registers == state.registers,
        plan.expected_final_state.pc == state.pc,
        plan.expected_final_state.timestamp == state.timestamp,
{
}

/// The words of two lists of chunks are the words of the first and then those of the second, and
/// those of one chunk are its words.
pub proof fn chunks_are_joined_in_order(
    a: Seq<Vec<TouchedWord>>,
    b: Seq<Vec<TouchedWord>>,
    chunk: Vec<TouchedWord>,
)
    ensures
        flattened(a + b) == flattened(a) + flattened(b),
        flattened(seq![chunk]) == chunk@,
        flattened(Seq::<Vec<TouchedWord>>::empty()).len() == 0,
    decreases b.len(),
{
    if b.len() == 0 {
        assert(a + b =~= a);
        assert(flattened(a) + flattened(b) =~= flattened(a));
    } else {
        chunks_are_joined_in_order(a, b.drop_last(), chunk);
        assert((a + b).drop_last() =~= a + b.drop_last());
        assert(flattened(a + b) =~= flattened(a) + flattened(b));
    }
    assert(seq![chunk].drop_last() =~= Seq::<Vec<TouchedWord>>::empty());
    reveal_with_fuel(flattened, 2);
    assert(flattened(seq![chunk]) =~= chunk@);
}

/// The proof of a run starts exactly where the run left a snapshot and no chunk of its memory is all
/// padding.
pub proof fn runs_start_with_their_snapshots(snapshots: Seq<Counters>, num_trivial: usize)
    ensures
        start_failure(snapshots, num_trivial) is None <==> snapshots.len() > 0 && num_trivial == 0,
        start_failure(snapshots, num_trivial) == Some(VmFailure::NoSnapshots) <==> snapshots.len()
            == 0,
        start_failure(snapshots, num_trivial) == Some(VmFailure::TrivialPadding) <==> snapshots.len()
            > 0 && num_trivial != 0,
{
}

/// The delegation term that a report brings.
pub open spec fn term_of(report: StepReport) -> Seq<Quartic> {
    match report {
        StepReport::Contribution { delegation_term: Some(t), .. } => seq![t],
        _ => Seq::empty(),
    }
}

/// In an accepted run the delegation argument is made of the one of the xor/and/or/shift/csr circuit
/// and of those that the memory and the two delegations bring, in this order.
pub proof fn accepted_runs_hold_every_term(
    prepared: PreparedExecution,
    reports: Seq<StepReport>,
    acc: AccumulatorsView,
)
    requires
        steps_failure(prepared, reports, 0) is None,
    ensures
        accumulators_after_steps(prepared, reports, vm_steps().len(), acc).delegation_terms
            == acc.delegation_terms + seq![
            reports[3]->Events_0@[10]->Proved_0.delegation_argument_accumulator->0,
        ] + term_of(reports[8]) + term_of(reports[9]) + term_of(reports[10]),
{
    accepted_runs_passed_every_step(prepared, reports);
    reveal_with_fuel(accumulators_after_steps, 13);
    assert(vm_steps().len() == 12);
    let a1 = accumulators_after_steps(prepared, reports, 1, acc);
    assert(step_passes(vm_steps()[0], prepared, reports[0]));
    assert(a1 == acc);
    let a2 = accumulators_after_steps(prepared, reports, 2, acc);
    lemma_family_term(1, CircuitKind::AddSubLuiAuipcMop, prepared, reports[1], a1);
    let a3 = accumulators_after_steps(prepared, reports, 3, acc);
    lemma_family_term(2, CircuitKind::JumpBranchSlt, prepared, reports[2], a2);
    let a4 = accumulators_after_steps(prepared, reports, 4, acc);
    lemma_family_term(3, CircuitKind::XorAndOrShiftCsr, prepared, reports[3], a3);
    let a5 = accumulators_after_steps(prepared, reports, 5, acc);
    lemma_family_term(4, CircuitKind::MulDiv, prepared, reports[4], a4);
    let a6 = accumulators_after_steps(prepared, reports, 6, acc);
    lemma_family_term(5, CircuitKind::LoadStore, prepared, reports[5], a5);
    let a7 = accumulators_after_steps(prepared, reports, 7, acc);
    lemma_family_term(6, CircuitKind::SubwordLoadStore, prepared, reports[6], a6);
    let a8 = accumulators_after_steps(prepared, reports, 8, acc);
    assert(a8 == a7);
    let a9 = accumulators_after_steps(prepared, reports, 9, acc);
    lemma_other_term(8, CircuitKind::InitsAndTeardowns, prepared, reports[8], a8);
    let a10 = accumulators_after_steps(prepared, reports, 10, acc);
    lemma_other_term(9, CircuitKind::BlakeDelegation, prepared, reports[9], a9);
    let a11 = accumulators_after_steps(prepared, reports, 11, acc);
    lemma_other_term(10, CircuitKind::KeccakDelegation, prepared, reports[10], a10);
    assert(accumulators_after_steps(prepared, reports, 12, acc) == a11);
}

proof fn lemma_family_term(
    at: int,
    kind: CircuitKind,
    prepared: PreparedExecution,
    report: StepReport,
    acc: AccumulatorsView,
)
    requires
        0 <= at < vm_steps().len(),
        vm_steps()[at] == VmStep::Prove(kind),
        is_family(kind),
        step_passes(vm_steps()[at], prepared, report),
    ensures
        contributed(vm_steps()[at], prepared, report, acc).delegation_terms == if kind
            == CircuitKind::XorAndOrShiftCsr {
            acc.delegation_terms + seq![
                report->Events_0@[10]->Proved_0.delegation_argument_accumulator->0,
            ]
        } else {
            acc.delegation_terms
        },
{
    let events = report->Events_0@;
    proving::accepted_proofs_contribute_once(kind, prepared, events, acc);
    proving::accepted_proofs_passed_every_check(kind, prepared, events);
    let is_empty = prepared.counters.calls_to(kind) == 0;
    proving::proofs_in_order(kind, is_empty, events[10]->Proved_0);
    proving::proofs_add_their_arguments(kind, is_empty, events[10]->Proved_0, acc);
    assert(acc.delegation_terms + Seq::<Quartic>::empty() =~= acc.delegation_terms);
}

proof fn lemma_other_term(
    at: int,
    kind: CircuitKind,
    prepared: PreparedExecution,
    report: StepReport,
    acc: AccumulatorsView,
)
    requires
        0 <= at < vm_steps().len(),
        vm_steps()[at] == VmStep::Prove(kind),
        !is_family(kind),
        step_passes(vm_steps()[at], prepared, report),
    ensures
        contributed(vm_steps()[at], prepared, report, acc).delegation_terms == acc.delegation_terms
            + term_of(report),
{
    assert(acc.delegation_terms + Seq::<Quartic>::empty() =~= acc.delegation_terms);
    if let StepReport::Contribution { delegation_term: Some(t), .. } = report {
        assert(acc.delegation_terms.push(t) =~= acc.delegation_terms + seq![t]);
    }
}

} // verus!
