//! Proofs of one circuit.
use vstd::prelude::*;

use crate::fuzzing::circuits::CircuitKind;
use crate::fuzzing::inputs::copy_items;
use crate::fuzzing::inputs::ExecutorFamilyDecoderData;
use crate::fuzzing::inputs::ProofInputs;
use crate::fuzzing::inputs::ProofInputsView;
use crate::fuzzing::inputs::TraceRow;
use crate::fuzzing::vm::Counters;
use crate::fuzzing::vm::MachineState;

verus! {

pub const TRACE_LEN_LOG2: usize = 24;

/// The logarithm of the length of the traces of the mul/div circuit.
pub const MUL_DIV_TRACE_LEN_LOG2: usize = 24;

/// The length of the traces of the mul/div circuit.
pub const MUL_DIV_TRACE_LEN: usize = 0x100_0000;

/// The length of a trace.
pub const TRACE_LEN: usize = 0x100_0000;

/// The rows of a trace that hold cycles.
pub const NUM_CYCLES_PER_CHUNK: usize = 0xff_ffff;

/// The largest length of a program.
pub const BYTECODE_LIMIT: usize = 0x10_0000;

pub const LDE_FACTOR: usize = 2;

pub const TREE_CAP_SIZE: usize = 32;

/// The program counter in rows that hold no cycle.
pub const PADDING_PC: u32 = 4;

/// An element of the quartic extension of the field, as four residues.
#[derive(Clone, Copy, Debug, PartialEq, Eq, Structural)]
pub struct Quartic {
    pub c0: u32,
    pub c1: u32,
    pub c2: u32,
    pub c3: u32,
}

impl Quartic {
    /// The one of the extension.
    pub open spec fn is_one(self) -> bool {
        self == (Quartic { c0: 1, c1: 0, c2: 0, c3: 0 })
    }

    /// The zero of the extension.
    pub open spec fn is_zero(self) -> bool {
        self == (Quartic { c0: 0, c1: 0, c2: 0, c3: 0 })
    }

    fn equals_one(&self) -> (r: bool)
        ensures
            r == self.is_one(),
    {
        *self == Quartic { c0: 1, c1: 0, c2: 0, c3: 0 }
    }

    fn equals_zero(&self) -> (r: bool)
        ensures
            r == self.is_zero(),
    {
        *self == Quartic { c0: 0, c1: 0, c2: 0, c3: 0 }
    }
}

/// What is read of a proof.
#[derive(Clone, Copy, Debug, PartialEq, Eq, Structural)]
pub struct UnrolledModeProof {
    pub permutation_grand_product_accumulator: Quartic,
    pub delegation_argument_accumulator: Option<Quartic>,
}

/// What the proofs of all circuits amount to: the permutation argument is the product of its
/// factors, and the delegation argument the sum of its terms.
#[derive(Debug)]
pub struct Accumulators {
    pub permutation_factors: Vec<Quartic>,
    pub delegation_terms: Vec<Quartic>,
}

/// The value of [`Accumulators`].
#[verifier::ext_equal]
pub struct AccumulatorsView {
    pub permutation_factors: Seq<Quartic>,
    pub delegation_terms: Seq<Quartic>,
}

impl View for Accumulators {
    type V = AccumulatorsView;

    open spec fn view(&self) -> AccumulatorsView {
        AccumulatorsView {
            permutation_factors: self.permutation_factors@,
            delegation_terms: self.delegation_terms@,
        }
    }
}

impl Accumulators {
    /// The accumulators with the factor that the initial and the final state contribute.
    pub fn new(boundary: Quartic) -> (r: Accumulators)
        ensures
            r@.permutation_factors == seq![boundary],
            r@.delegation_terms == Seq::<Quartic>::empty(),
    {
        let mut permutation_factors: Vec<Quartic> = Vec::new();
        permutation_factors.push(boundary);
        Accumulators { permutation_factors, delegation_terms: Vec::new() }
    }
}

/// Where the lookup tables of a circuit come from.
#[derive(Clone, Copy, Debug, PartialEq, Eq, Structural)]
pub enum TableSource {
    /// There are none.
    Nothing,
    /// The tables of the family.
    Family,
    /// The tables of the family, and the delegations that the machine supports.
    FamilyAndCsr,
    /// The tables of the family, and the read-only memory.
    FamilyAndRom,
}

/// Why a proof is not accepted.
#[derive(Clone, Copy, Debug, PartialEq, Eq, Structural)]
pub enum ProofFailure {
    /// The replay ended in another state than the run.
    StateMismatch,
    /// The trace has another number of rows than there were calls.
    TraceLength,
    /// There is no decoder table for the family.
    MissingDecoderTable,
    /// The memory trace is not the one within the full trace.
    InconsistentTraces,
    /// The trace does not satisfy the circuit.
    Unsatisfied,
    /// The trace is empty, and the permutation argument is not one.
    PermutationNotOne,
    /// The trace is empty, and the delegation argument is not zero.
    DelegationNotZero,
    /// There is no delegation argument.
    MissingDelegation,
    /// There is a delegation argument.
    UnexpectedDelegation,
    /// The reply was not to what was asked.
    UnexpectedReply,
}

/// Whether the proof of a circuit carries a delegation argument.
pub open spec fn carries_delegation(kind: CircuitKind) -> bool {
    kind is XorAndOrShiftCsr
}

/// Where the lookup tables of a circuit come from.
pub open spec fn table_source(kind: CircuitKind) -> TableSource {
    match kind {
        CircuitKind::AddSubLuiAuipcMop => TableSource::Nothing,
        CircuitKind::XorAndOrShiftCsr => TableSource::FamilyAndCsr,
        CircuitKind::LoadStore | CircuitKind::SubwordLoadStore => TableSource::FamilyAndRom,
        _ => TableSource::Family,
    }
}

/// The program counter of empty rows. The memory families have none.
pub open spec fn padding_pc(kind: CircuitKind) -> Option<u32> {
    if kind is LoadStore || kind is SubwordLoadStore {
        None
    } else {
        Some(PADDING_PC)
    }
}

/// The name of a circuit in messages.
pub open spec fn title(kind: CircuitKind) -> Seq<char> {
    match kind {
        CircuitKind::AddSubLuiAuipcMop => "ADD/SUB/LUI/AUIPC/MOP"@,
        CircuitKind::MulDiv => "MUL/DIV"@,
        CircuitKind::XorAndOrShiftCsr => "XOR/AND/OR/SHIFT/CSR"@,
        CircuitKind::LoadStore => "word LOAD/STORE"@,
        _ => kind.slug_text(),
    }
}

/// What is wrong with a proof: on an empty trace both arguments are trivial, and there is a
/// delegation argument just where the circuit carries one.
pub open spec fn proof_failure(
    kind: CircuitKind,
    is_empty: bool,
    proof: UnrolledModeProof,
) -> Option<ProofFailure> {
    if is_empty && !proof.permutation_grand_product_accumulator.is_one() {
        Some(ProofFailure::PermutationNotOne)
    } else if carries_delegation(kind) {
        match proof.delegation_argument_accumulator {
            None => Some(ProofFailure::MissingDelegation),
            Some(d) => if is_empty && !d.is_zero() {
                Some(ProofFailure::DelegationNotZero)
            } else {
                None
            },
        }
    } else if proof.delegation_argument_accumulator is Some {
        Some(ProofFailure::UnexpectedDelegation)
    } else {
        None
    }
}

/// The accumulators with what a proof contributes.
pub open spec fn accumulated(
    kind: CircuitKind,
    acc: AccumulatorsView,
    proof: UnrolledModeProof,
) -> AccumulatorsView {
    AccumulatorsView {
        permutation_factors: acc.permutation_factors.push(
            proof.permutation_grand_product_accumulator,
        ),
        delegation_terms: if carries_delegation(kind) {
            acc.delegation_terms.push(proof.delegation_argument_accumulator->Some_0)
        } else {
            acc.delegation_terms
        },
    }
}

/// The rules of the proof of one circuit.
pub trait CircuitProver {
    /// The circuit.
    spec fn kind_spec(&self) -> CircuitKind;

    /// The circuit.
    fn kind(&self) -> (r: CircuitKind)
        ensures
            r == self.kind_spec(),
    ;

    /// The name of the circuit in messages.
    fn name(&self) -> (r: &'static str)
        ensures
            r@ == title(self.kind_spec()),
    ;

    /// Whether a proof is in order.
    fn check_constraints(&self, proof: &UnrolledModeProof, is_empty: bool) -> (r: Result<
        (),
        ProofFailure,
    >)
        ensures
            r == match proof_failure(self.kind_spec(), is_empty, *proof) {
                None => Ok::<(), ProofFailure>(()),
                Some(f) => Err(f),
            },
    ;

    /// Adds what a proof contributes.
    fn accumulate(&self, accumulators: &mut Accumulators, proof: &UnrolledModeProof)
        requires
            carries_delegation(self.kind_spec()) ==> proof.delegation_argument_accumulator is Some,
        ensures
            final(accumulators)@ == accumulated(self.kind_spec(), old(accumulators)@, *proof),
    ;
}

fn check_proof_of(kind: CircuitKind, proof: &UnrolledModeProof, is_empty: bool) -> (r: Result<
    (),
    ProofFailure,
>)
    ensures
        r == match proof_failure(kind, is_empty, *proof) {
            None => Ok::<(), ProofFailure>(()),
            Some(f) => Err(f),
        },
{
    if is_empty && !proof.permutation_grand_product_accumulator.equals_one() {
        return Err(ProofFailure::PermutationNotOne);
    }
    match kind {
        CircuitKind::XorAndOrShiftCsr => match proof.delegation_argument_accumulator {
            None => Err(ProofFailure::MissingDelegation),
            Some(d) => if is_empty && !d.equals_zero() {
                Err(ProofFailure::DelegationNotZero)
            } else {
                Ok(())
            },
        },
        _ => match proof.delegation_argument_accumulator {
            Some(_) => Err(ProofFailure::UnexpectedDelegation),
            None => Ok(()),
        },
    }
}

fn accumulate_proof_of(kind: CircuitKind, acc: &mut Accumulators, proof: &UnrolledModeProof)
    requires
        carries_delegation(kind) ==> proof.delegation_argument_accumulator is Some,
    ensures
        final(acc)@ == accumulated(kind, old(acc)@, *proof),
{
    match kind {
        CircuitKind::XorAndOrShiftCsr => {
            acc.delegation_terms.push(proof.delegation_argument_accumulator.unwrap());
        },
        _ => {},
    }
    acc.permutation_factors.push(proof.permutation_grand_product_accumulator);
}

/// The circuit of the add/sub/lui/auipc/mop family.
#[derive(Clone, Copy, Debug)]
pub struct AddSubLuiAuipcMop;

impl CircuitProver for AddSubLuiAuipcMop {
    open spec fn kind_spec(&self) -> CircuitKind {
        CircuitKind::AddSubLuiAuipcMop
    }

    fn kind(&self) -> (r: CircuitKind) {
        CircuitKind::AddSubLuiAuipcMop
    }

    fn name(&self) -> (r: &'static str) {
        "ADD/SUB/LUI/AUIPC/MOP"
    }

    fn check_constraints(&self, proof: &UnrolledModeProof, is_empty: bool) -> (r: Result<
        (),
        ProofFailure,
    >) {
        check_proof_of(CircuitKind::AddSubLuiAuipcMop, proof, is_empty)
    }

    fn accumulate(&self, accumulators: &mut Accumulators, proof: &UnrolledModeProof) {
        accumulate_proof_of(CircuitKind::AddSubLuiAuipcMop, accumulators, proof)
    }
}

/// The circuit of the mul/div family.
#[derive(Clone, Copy, Debug)]
pub struct MulDivCircuit;

impl CircuitProver for MulDivCircuit {
    open spec fn kind_spec(&self) -> CircuitKind {
        CircuitKind::MulDiv
    }

    fn kind(&self) -> (r: CircuitKind) {
        CircuitKind::MulDiv
    }

    fn name(&self) -> (r: &'static str) {
        "MUL/DIV"
    }

    fn check_constraints(&self, proof: &UnrolledModeProof, is_empty: bool) -> (r: Result<
        (),
        ProofFailure,
    >) {
        check_proof_of(CircuitKind::MulDiv, proof, is_empty)
    }

    fn accumulate(&self, accumulators: &mut Accumulators, proof: &UnrolledModeProof) {
        accumulate_proof_of(CircuitKind::MulDiv, accumulators, proof)
    }
}

/// The circuit of the xor/and/or/shift/csr family.
#[derive(Clone, Copy, Debug)]
pub struct XorAndOrShiftCsrCircuit;

impl CircuitProver for XorAndOrShiftCsrCircuit {
    open spec fn kind_spec(&self) -> CircuitKind {
        CircuitKind::XorAndOrShiftCsr
    }

    fn kind(&self) -> (r: CircuitKind) {
        CircuitKind::XorAndOrShiftCsr
    }

    fn name(&self) -> (r: &'static str) {
        "XOR/AND/OR/SHIFT/CSR"
    }

    fn check_constraints(&self, proof: &UnrolledModeProof, is_empty: bool) -> (r: Result<
        (),
        ProofFailure,
    >) {
        check_proof_of(CircuitKind::XorAndOrShiftCsr, proof, is_empty)
    }

    fn accumulate(&self, accumulators: &mut Accumulators, proof: &UnrolledModeProof) {
        accumulate_proof_of(CircuitKind::XorAndOrShiftCsr, accumulators, proof)
    }
}

/// The circuit of the word load/store family.
#[derive(Clone, Copy, Debug)]
pub struct LoadStoreCircuit;

impl CircuitProver for LoadStoreCircuit {
    open spec fn kind_spec(&self) -> CircuitKind {
        CircuitKind::LoadStore
    }

    fn kind(&self) -> (r: CircuitKind) {
        CircuitKind::LoadStore
    }

    fn name(&self) -> (r: &'static str) {
        "word LOAD/STORE"
    }

    fn check_constraints(&self, proof: &UnrolledModeProof, is_empty: bool) -> (r: Result<
        (),
        ProofFailure,
    >) {
        check_proof_of(CircuitKind::LoadStore, proof, is_empty)
    }

    fn accumulate(&self, accumulators: &mut Accumulators, proof: &UnrolledModeProof) {
        accumulate_proof_of(CircuitKind::LoadStore, accumulators, proof)
    }
}

/// The decoder tables of one family.
#[derive(Debug)]
pub struct FamilyTables {
    pub family_idx: u8,
    pub decoder_table_data: Vec<[u32; 10]>,
    pub witness_gen_data: Vec<ExecutorFamilyDecoderData>,
}

/// What the proofs of all circuits of a run have in common.
#[derive(Debug)]
pub struct PreparedExecution {
    pub counters: Counters,
    pub expected_final_state: MachineState,
    pub cycles_bound: usize,
    pub preprocessing_data: Vec<FamilyTables>,
}

/// The place of the tables of a family.
pub open spec fn tables_at(data: Seq<FamilyTables>, family_idx: u8) -> Option<int>
    decreases data.len(),
{
    if data.len() == 0 {
        None
    } else {
        match tables_at(data.drop_last(), family_idx) {
            Some(i) => Some(i),
            None => if data.last().family_idx == family_idx {
                Some(data.len() - 1)
            } else {
                None
            },
        }
    }
}

proof fn lemma_tables_at(data: Seq<FamilyTables>, family_idx: u8, i: int)
    requires
        0 <= i < data.len(),
        data[i].family_idx == family_idx,
        forall|j: int| 0 <= j < i ==> (#[trigger] data[j]).family_idx != family_idx,
    ensures
        tables_at(data, family_idx) == Some(i),
    decreases data.len(),
{
    if i == data.len() - 1 {
        lemma_no_tables(data.drop_last(), family_idx);
    } else {
        lemma_tables_at(data.drop_last(), family_idx, i);
    }
}

proof fn lemma_no_tables(data: Seq<FamilyTables>, family_idx: u8)
    requires
        forall|j: int| 0 <= j < data.len() ==> (#[trigger] data[j]).family_idx != family_idx,
    ensures
        tables_at(data, family_idx) is None,
    decreases data.len(),
{
    if data.len() > 0 {
        lemma_no_tables(data.drop_last(), family_idx);
    }
}

impl PreparedExecution {
    /// The place of the tables of a family.
    fn find_tables(&self, family_idx: u8) -> (r: Option<usize>)
        ensures
            match r {
                Some(i) => tables_at(self.preprocessing_data@, family_idx) == Some(i as int) && i
                    < self.preprocessing_data@.len(),
                None => tables_at(self.preprocessing_data@, family_idx) is None,
            },
    {
        for i in 0..self.preprocessing_data.len()
            invariant
                forall|j: int|
                    0 <= j < i ==> (#[trigger] self.preprocessing_data@[j]).family_idx
                        != family_idx,
        {
            if self.preprocessing_data[i].family_idx == family_idx {
                proof {
                    lemma_tables_at(self.preprocessing_data@, family_idx, i as int);
                }
                return Some(i);
            }
        }
        proof {
            lemma_no_tables(self.preprocessing_data@, family_idx);
        }
        None
    }
}

/// What is wrong with a replay.
pub open spec fn replay_failure(
    kind: CircuitKind,
    prepared: PreparedExecution,
    final_state: MachineState,
    rows: int,
) -> Option<ProofFailure> {
    if final_state != prepared.expected_final_state {
        Some(ProofFailure::StateMismatch)
    } else if rows != prepared.counters.calls_to(kind) {
        Some(ProofFailure::TraceLength)
    } else if tables_at(prepared.preprocessing_data@, kind.family()) is None {
        Some(ProofFailure::MissingDecoderTable)
    } else {
        None
    }
}

fn check_replay(
    kind: CircuitKind,
    prepared: &PreparedExecution,
    final_state: &MachineState,
    rows: usize,
) -> (r: Option<ProofFailure>)
    ensures
        r == replay_failure(kind, *prepared, *final_state, rows as int),
{
    if !final_state.same(&prepared.expected_final_state) {
        Some(ProofFailure::StateMismatch)
    } else if rows != prepared.counters.calls(kind) {
        Some(ProofFailure::TraceLength)
    } else if prepared.find_tables(kind.family_idx()).is_none() {
        Some(ProofFailure::MissingDecoderTable)
    } else {
        None
    }
}

/// A compiled circuit and the trace that a replay left for it.
#[derive(Debug)]
pub struct TracedCircuit<T> {
    pub circuit: Vec<u8>,
    pub buffer: Vec<T>,
    pub final_state: MachineState,
}

/// The inputs of the proof of a circuit, from its trace and the tables of its family.
pub fn create_proof_input<T: TraceRow>(
    kind: CircuitKind,
    prepared: &PreparedExecution,
    traced: TracedCircuit<T>,
) -> (r: Result<ProofInputs<T>, ProofFailure>)
    ensures
        match replay_failure(
            kind,
            *prepared,
            traced.final_state,
            traced.buffer@.len() as int,
        ) {
            Some(f) => r == Err::<ProofInputs<T>, ProofFailure>(f),
            None => {
                let tables = prepared.preprocessing_data@[tables_at(
                    prepared.preprocessing_data@,
                    kind.family(),
                )->Some_0];
                r matches Ok(inputs) && inputs@ == (ProofInputsView {
                    family_idx: kind.family(),
                    circuit: traced.circuit@,
                    decoder_table_data: tables.decoder_table_data@,
                    witness_gen_data: tables.witness_gen_data@,
                    buffer: traced.buffer@,
                })
            },
        },
{
    match check_replay(kind, prepared, &traced.final_state, traced.buffer.len()) {
        Some(f) => Err(f),
        None => {
            let at = prepared.find_tables(kind.family_idx()).unwrap();
            let tables = &prepared.preprocessing_data[at];
            Ok(
                ProofInputs {
                    family_idx: kind.family_idx(),
                    circuit: traced.circuit,
                    decoder_table_data: copy_items(&tables.decoder_table_data),
                    witness_gen_data: copy_items(&tables.witness_gen_data),
                    buffer: traced.buffer,
                },
            )
        },
    }
}

/// Where the proof of a circuit stands.
#[derive(Clone, Copy, Debug, PartialEq, Eq, Structural)]
pub enum ProverStage {
    Compile,
    FillTables,
    Replay,
    EvaluateMemoryTrace,
    EvaluateFullTrace,
    CompareTraces,
    ParseStatePermutation,
    ParseShuffleRam,
    CheckSatisfied,
    Precompute,
    Prove,
    Finished,
    Failed(ProofFailure),
}

/// What is to be done next.
#[derive(Clone, Copy, Debug, PartialEq, Eq, Structural)]
pub enum ProverAction {
    /// Compile the circuit with its tables.
    Compile {
        kind: CircuitKind,
        tables: TableSource,
        bytecode_limit: usize,
        trace_len_log2: usize,
    },
    /// Fill the tables that the witness is computed with.
    FillTables { kind: CircuitKind, tables: TableSource },
    /// Run the program again and trace the calls to the circuit.
    Replay { kind: CircuitKind, rows: usize, cycles_bound: usize },
    /// Compute the memory columns of the trace.
    EvaluateMemoryTrace { cycles: usize, padding_pc: Option<u32> },
    /// Compute all columns of the trace.
    EvaluateFullTrace { cycles: usize, padding_pc: Option<u32> },
    /// Compare the memory columns of both.
    CompareTraces,
    /// Add the state transitions of the trace to the sets.
    ParseStatePermutation,
    /// Add the memory accesses of the trace to the sets.
    ParseShuffleRam,
    /// Check the trace against the circuit.
    CheckSatisfied,
    /// Compute what depends on the circuit and the tables only.
    Precompute { trace_len: usize, lde_factor: usize, tree_cap_size: usize },
    /// Make the proof.
    Prove { lde_factor: usize, tree_cap_size: usize },
    /// Nothing: the proof is accepted.
    Finish,
    /// Nothing: the proof is not accepted.
    Fail(ProofFailure),
}

/// What came of an action.
#[derive(Clone, Copy, Debug)]
pub enum ProverEvent {
    /// It was done.
    Done,
    /// The program was run again to this state, and as many rows were traced.
    Replayed { final_state: MachineState, rows: usize },
    /// It was checked, with this outcome.
    Checked(bool),
    /// The proof was made.
    Proved(UnrolledModeProof),
}

/// The stage after an event.
pub open spec fn next_stage(
    kind: CircuitKind,
    prepared: PreparedExecution,
    stage: ProverStage,
    event: ProverEvent,
) -> ProverStage {
    match (stage, event) {
        (ProverStage::Compile, ProverEvent::Done) => ProverStage::FillTables,
        (ProverStage::FillTables, ProverEvent::Done) => ProverStage::Replay,
        (ProverStage::Replay, ProverEvent::Replayed { final_state, rows }) => match replay_failure(
            kind,
            prepared,
            final_state,
            rows as int,
        ) {
            Some(f) => ProverStage::Failed(f),
            None => ProverStage::EvaluateMemoryTrace,
        },
        (ProverStage::EvaluateMemoryTrace, ProverEvent::Done) => ProverStage::EvaluateFullTrace,
        (ProverStage::EvaluateFullTrace, ProverEvent::Done) => ProverStage::CompareTraces,
        (ProverStage::CompareTraces, ProverEvent::Checked(ok)) => if ok {
            ProverStage::ParseStatePermutation
        } else {
            ProverStage::Failed(ProofFailure::InconsistentTraces)
        },
        (ProverStage::ParseStatePermutation, ProverEvent::Done) => ProverStage::ParseShuffleRam,
        (ProverStage::ParseShuffleRam, ProverEvent::Done) => ProverStage::CheckSatisfied,
        (ProverStage::CheckSatisfied, ProverEvent::Checked(ok)) => if ok {
            ProverStage::Precompute
        } else {
            ProverStage::Failed(ProofFailure::Unsatisfied)
        },
        (ProverStage::Precompute, ProverEvent::Done) => ProverStage::Prove,
        (ProverStage::Prove, ProverEvent::Proved(proof)) => match proof_failure(
            kind,
            prepared.counters.calls_to(kind) == 0,
            proof,
        ) {
            Some(f) => ProverStage::Failed(f),
            None => ProverStage::Finished,
        },
        (ProverStage::Finished, _) => ProverStage::Finished,
        (ProverStage::Failed(f), _) => ProverStage::Failed(f),
        _ => ProverStage::Failed(ProofFailure::UnexpectedReply),
    }
}

/// The accumulators after an event: an accepted proof contributes.
pub open spec fn next_accumulators(
    kind: CircuitKind,
    prepared: PreparedExecution,
    stage: ProverStage,
    event: ProverEvent,
    acc: AccumulatorsView,
) -> AccumulatorsView {
    match (stage, event) {
        (ProverStage::Prove, ProverEvent::Proved(proof)) => if next_stage(
            kind,
            prepared,
            stage,
            event,
        ) is Finished {
            accumulated(kind, acc, proof)
        } else {
            acc
        },
        _ => acc,
    }
}

/// The stage after events.
pub open spec fn stage_after(
    kind: CircuitKind,
    prepared: PreparedExecution,
    events: Seq<ProverEvent>,
) -> ProverStage
    decreases events.len(),
{
    if events.len() == 0 {
        ProverStage::Compile
    } else {
        next_stage(
            kind,
            prepared,
            stage_after(kind, prepared, events.drop_last()),
            events.last(),
        )
    }
}

/// The accumulators after events.
pub open spec fn accumulators_after(
    kind: CircuitKind,
    prepared: PreparedExecution,
    events: Seq<ProverEvent>,
    acc: AccumulatorsView,
) -> AccumulatorsView
    decreases events.len(),
{
    if events.len() == 0 {
        acc
    } else {
        next_accumulators(
            kind,
            prepared,
            stage_after(kind, prepared, events.drop_last()),
            events.last(),
            accumulators_after(kind, prepared, events.drop_last(), acc),
        )
    }
}

/// The logarithm of the length of the trace that a circuit is compiled for.
pub open spec fn trace_len_log2(kind: CircuitKind) -> usize {
    if kind is MulDiv {
        MUL_DIV_TRACE_LEN_LOG2
    } else {
        TRACE_LEN_LOG2
    }
}

/// The length of the trace of a circuit.
pub open spec fn trace_len(kind: CircuitKind) -> usize {
    if kind is MulDiv {
        MUL_DIV_TRACE_LEN
    } else {
        TRACE_LEN
    }
}

/// The rows of the trace of a circuit that hold cycles: all but one.
pub open spec fn cycles_per_trace(kind: CircuitKind) -> usize {
    (trace_len(kind) - 1) as usize
}

/// What is to be done at a stage.
pub open spec fn action_at(
    kind: CircuitKind,
    prepared: PreparedExecution,
    stage: ProverStage,
) -> ProverAction {
    match stage {
        ProverStage::Compile => ProverAction::Compile {
            kind,
            tables: table_source(kind),
            bytecode_limit: BYTECODE_LIMIT,
            trace_len_log2: trace_len_log2(kind),
        },
        ProverStage::FillTables => ProverAction::FillTables { kind, tables: table_source(kind) },
        ProverStage::Replay => ProverAction::Replay {
            kind,
            rows: prepared.counters.calls_to(kind),
            cycles_bound: prepared.cycles_bound,
        },
        ProverStage::EvaluateMemoryTrace => ProverAction::EvaluateMemoryTrace {
            cycles: cycles_per_trace(kind),
            padding_pc: padding_pc(kind),
        },
        ProverStage::EvaluateFullTrace => ProverAction::EvaluateFullTrace {
            cycles: cycles_per_trace(kind),
            padding_pc: padding_pc(kind),
        },
        ProverStage::CompareTraces => ProverAction::CompareTraces,
        ProverStage::ParseStatePermutation => ProverAction::ParseStatePermutation,
        ProverStage::ParseShuffleRam => ProverAction::ParseShuffleRam,
        ProverStage::CheckSatisfied => ProverAction::CheckSatisfied,
        ProverStage::Precompute => ProverAction::Precompute {
            trace_len: trace_len(kind),
            lde_factor: LDE_FACTOR,
            tree_cap_size: TREE_CAP_SIZE,
        },
        ProverStage::Prove => ProverAction::Prove {
            lde_factor: LDE_FACTOR,
            tree_cap_size: TREE_CAP_SIZE,
        },
        ProverStage::Finished => ProverAction::Finish,
        ProverStage::Failed(f) => ProverAction::Fail(f),
    }
}

fn tables_of(kind: CircuitKind) -> (r: TableSource)
    ensures
        r == table_source(kind),
{
    match kind {
        CircuitKind::AddSubLuiAuipcMop => TableSource::Nothing,
        CircuitKind::XorAndOrShiftCsr => TableSource::FamilyAndCsr,
        CircuitKind::LoadStore | CircuitKind::SubwordLoadStore => TableSource::FamilyAndRom,
        _ => TableSource::Family,
    }
}

fn padding_of(kind: CircuitKind) -> (r: Option<u32>)
    ensures
        r == padding_pc(kind),
{
    match kind {
        CircuitKind::LoadStore | CircuitKind::SubwordLoadStore => None,
        _ => Some(PADDING_PC),
    }
}

fn trace_len_of(kind: CircuitKind) -> (r: usize)
    ensures
        r == trace_len(kind),
        r > 0,
{
    match kind {
        CircuitKind::MulDiv => MUL_DIV_TRACE_LEN,
        _ => TRACE_LEN,
    }
}

fn trace_len_log2_of(kind: CircuitKind) -> (r: usize)
    ensures
        r == trace_len_log2(kind),
{
    match kind {
        CircuitKind::MulDiv => MUL_DIV_TRACE_LEN_LOG2,
        _ => TRACE_LEN_LOG2,
    }
}

/// What is to be done at a stage of the proof of a circuit.
pub fn next_action(kind: CircuitKind, prepared: &PreparedExecution, stage: ProverStage) -> (r:
    ProverAction)
    ensures
        r == action_at(kind, *prepared, stage),
{
    match stage {
        ProverStage::Compile => ProverAction::Compile {
            kind,
            tables: tables_of(kind),
            bytecode_limit: BYTECODE_LIMIT,
            trace_len_log2: trace_len_log2_of(kind),
        },
        ProverStage::FillTables => ProverAction::FillTables { kind, tables: tables_of(kind) },
        ProverStage::Replay => ProverAction::Replay {
            kind,
            rows: prepared.counters.calls(kind),
            cycles_bound: prepared.cycles_bound,
        },
        ProverStage::EvaluateMemoryTrace => ProverAction::EvaluateMemoryTrace {
            cycles: trace_len_of(kind) - 1,
            padding_pc: padding_of(kind),
        },
        ProverStage::EvaluateFullTrace => ProverAction::EvaluateFullTrace {
            cycles: trace_len_of(kind) - 1,
            padding_pc: padding_of(kind),
        },
        ProverStage::CompareTraces => ProverAction::CompareTraces,
        ProverStage::ParseStatePermutation => ProverAction::ParseStatePermutation,
        ProverStage::ParseShuffleRam => ProverAction::ParseShuffleRam,
        ProverStage::CheckSatisfied => ProverAction::CheckSatisfied,
        ProverStage::Precompute => ProverAction::Precompute {
            trace_len: trace_len_of(kind),
            lde_factor: LDE_FACTOR,
            tree_cap_size: TREE_CAP_SIZE,
        },
        ProverStage::Prove => ProverAction::Prove {
            lde_factor: LDE_FACTOR,
            tree_cap_size: TREE_CAP_SIZE,
        },
        ProverStage::Finished => ProverAction::Finish,
        ProverStage::Failed(f) => ProverAction::Fail(f),
    }
}

/// Takes one event of the proof of a circuit.
pub fn handle_event(
    kind: CircuitKind,
    prepared: &PreparedExecution,
    stage: ProverStage,
    event: &ProverEvent,
    accumulators: &mut Accumulators,
) -> (r: ProverStage)
    ensures
        r == next_stage(kind, *prepared, stage, *event),
        final(accumulators)@ == next_accumulators(
            kind,
            *prepared,
            stage,
            *event,
            old(accumulators)@,
        ),
{
    match (stage, event) {
        (ProverStage::Compile, ProverEvent::Done) => ProverStage::FillTables,
        (ProverStage::FillTables, ProverEvent::Done) => ProverStage::Replay,
        (ProverStage::Replay, ProverEvent::Replayed { final_state, rows }) => match check_replay(
            kind,
            prepared,
            final_state,
            *rows,
        ) {
            Some(f) => ProverStage::Failed(f),
            None => ProverStage::EvaluateMemoryTrace,
        },
        (ProverStage::EvaluateMemoryTrace, ProverEvent::Done) => ProverStage::EvaluateFullTrace,
        (ProverStage::EvaluateFullTrace, ProverEvent::Done) => ProverStage::CompareTraces,
        (ProverStage::CompareTraces, ProverEvent::Checked(ok)) => if *ok {
            ProverStage::ParseStatePermutation
        } else {
            ProverStage::Failed(ProofFailure::InconsistentTraces)
        },
        (ProverStage::ParseStatePermutation, ProverEvent::Done) => ProverStage::ParseShuffleRam,
        (ProverStage::ParseShuffleRam, ProverEvent::Done) => ProverStage::CheckSatisfied,
        (ProverStage::CheckSatisfied, ProverEvent::Checked(ok)) => if *ok {
            ProverStage::Precompute
        } else {
            ProverStage::Failed(ProofFailure::Unsatisfied)
        },
        (ProverStage::Precompute, ProverEvent::Done) => ProverStage::Prove,
        (ProverStage::Prove, ProverEvent::Proved(proof)) => {
            let is_empty: bool = prepared.counters.calls(kind) == 0;
            match check_proof_of(kind, proof, is_empty) {
                Err(f) => ProverStage::Failed(f),
                Ok(()) => {
                    accumulate_proof_of(kind, accumulators, proof);
                    ProverStage::Finished
                },
            }
        },
        (ProverStage::Finished, _) => ProverStage::Finished,
        (ProverStage::Failed(f), _) => ProverStage::Failed(f),
        _ => ProverStage::Failed(ProofFailure::UnexpectedReply),
    }
}

/// Takes the events of the proof of a circuit.
pub(crate) fn take_events(
    kind: CircuitKind,
    accumulators: &mut Accumulators,
    prepared: &PreparedExecution,
    events: &Vec<ProverEvent>,
) -> (r: ProverStage)
    ensures
        r == stage_after(kind, *prepared, events@),
        final(accumulators)@ == accumulators_after(
            kind,
            *prepared,
            events@,
            old(accumulators)@,
        ),
{
    let ghost before = accumulators@;
    let mut stage = ProverStage::Compile;
    for i in 0..events.len()
        invariant
            before == old(accumulators)@,
            stage == stage_after(kind, *prepared, events@.take(i as int)),
            accumulators@ == accumulators_after(
                kind,
                *prepared,
                events@.take(i as int),
                before,
            ),
    {
        assert(events@.take(i + 1).drop_last() =~= events@.take(i as int));
        stage = handle_event(kind, prepared, stage, &events[i], accumulators);
    }
    assert(events@.take(events@.len() as int) =~= events@);
    stage
}

/// The settings of the prover.
#[derive(Clone, Copy, Debug, PartialEq, Eq, Structural)]
pub struct Prover {
    pub num_threads: usize,
    pub security: SecurityParameters,
}

/// The parameters of the security configuration for queries only.
#[derive(Clone, Copy, Debug, PartialEq, Eq, Structural)]
pub struct SecurityParameters {
    pub first: u32,
    pub second: u32,
    pub third: u32,
}

/// What the prover is asked to make a proof with.
#[derive(Clone, Copy, Debug, PartialEq, Eq, Structural)]
pub struct ProveRequest {
    pub lde_factor: usize,
    pub tree_cap_size: usize,
    pub security: SecurityParameters,
    pub num_threads: usize,
}

impl Prover {
    /// What a proof is made with: the factor and the cap size of all proofs, and these settings.
    pub fn prove_request(&self) -> (r: ProveRequest)
        ensures
            r == (ProveRequest {
                lde_factor: LDE_FACTOR,
                tree_cap_size: TREE_CAP_SIZE,
                security: self.security,
                num_threads: self.num_threads,
            }),
    {
        ProveRequest {
            lde_factor: LDE_FACTOR,
            tree_cap_size: TREE_CAP_SIZE,
            security: self.security,
            num_threads: self.num_threads,
        }
    }

    /// The settings for fuzzing: one thread.
    pub fn new() -> (r: Prover)
        ensures
            r == (Prover {
                num_threads: 1,
                security: SecurityParameters { first: 5, second: 28, third: 63 },
            }),
    {
        Prover {
            num_threads: 1,
            security: SecurityParameters { first: 5, second: 28, third: 63 },
        }
    }

    /// Takes the events of the proof of a circuit.
    fn prove_circuit<C: CircuitProver>(
        &self,
        circuit: &C,
        accumulators: &mut Accumulators,
        prepared: &PreparedExecution,
        events: &Vec<ProverEvent>,
    ) -> (r: ProverStage)
        ensures
            r == stage_after(circuit.kind_spec(), *prepared, events@),
            final(accumulators)@ == accumulators_after(
                circuit.kind_spec(),
                *prepared,
                events@,
                old(accumulators)@,
            ),
    {
        take_events(circuit.kind(), accumulators, prepared, events)
    }

    /// The proof of the add/sub/lui/auipc/mop family.
    pub fn prove_add_sub_lui_auipc_mop(
        &self,
        accumulators: &mut Accumulators,
        prepared: &PreparedExecution,
        events: &Vec<ProverEvent>,
    ) -> (r: ProverStage)
        ensures
            r == stage_after(CircuitKind::AddSubLuiAuipcMop, *prepared, events@),
            final(accumulators)@ == accumulators_after(
                CircuitKind::AddSubLuiAuipcMop,
                *prepared,
                events@,
                old(accumulators)@,
            ),
    {
        self.prove_circuit(&AddSubLuiAuipcMop, accumulators, prepared, events)
    }

    /// The proof of the mul/div family.
    pub fn prove_mul_div(
        &self,
        accumulators: &mut Accumulators,
        prepared: &PreparedExecution,
        events: &Vec<ProverEvent>,
    ) -> (r: ProverStage)
        ensures
            r == stage_after(CircuitKind::MulDiv, *prepared, events@),
            final(accumulators)@ == accumulators_after(
                CircuitKind::MulDiv,
                *prepared,
                events@,
                old(accumulators)@,
            ),
    {
        self.prove_circuit(&MulDivCircuit, accumulators, prepared, events)
    }

    /// The proof of the xor/and/or/shift/csr family.
    pub fn prove_xor_and_or_shift_csr(
        &self,
        accumulators: &mut Accumulators,
        prepared: &PreparedExecution,
        events: &Vec<ProverEvent>,
    ) -> (r: ProverStage)
        ensures
            r == stage_after(CircuitKind::XorAndOrShiftCsr, *prepared, events@),
            final(accumulators)@ == accumulators_after(
                CircuitKind::XorAndOrShiftCsr,
                *prepared,
                events@,
                old(accumulators)@,
            ),
    {
        self.prove_circuit(&XorAndOrShiftCsrCircuit, accumulators, prepared, events)
    }

    /// The proof of the word load/store family.
    pub fn prove_load_store(
        &self,
        accumulators: &mut Accumulators,
        prepared: &PreparedExecution,
        events: &Vec<ProverEvent>,
    ) -> (r: ProverStage)
        ensures
            r == stage_after(CircuitKind::LoadStore, *prepared, events@),
            final(accumulators)@ == accumulators_after(
                CircuitKind::LoadStore,
                *prepared,
                events@,
                old(accumulators)@,
            ),
    {
        self.prove_circuit(&LoadStoreCircuit, accumulators, prepared, events)
    }
}

/// The lengths of traces are the powers of two that their logarithms say, and all rows but one hold
/// cycles.
pub proof fn traces_have_their_lengths(kind: CircuitKind)
    ensures
        trace_len(kind) == vstd::arithmetic::power2::pow2(trace_len_log2(kind) as nat),
        NUM_CYCLES_PER_CHUNK == TRACE_LEN - 1,
{
    vstd::arithmetic::power2::lemma2_to64();
}

/// The proof was accepted, or was not: nothing more is asked.
pub open spec fn is_over(stage: ProverStage) -> bool {
    stage is Finished || stage is Failed
}

/// How far a proof has come.
pub open spec fn progress(stage: ProverStage) -> int {
    match stage {
        ProverStage::Compile => 0,
        ProverStage::FillTables => 1,
        ProverStage::Replay => 2,
        ProverStage::EvaluateMemoryTrace => 3,
        ProverStage::EvaluateFullTrace => 4,
        ProverStage::CompareTraces => 5,
        ProverStage::ParseStatePermutation => 6,
        ProverStage::ParseShuffleRam => 7,
        ProverStage::CheckSatisfied => 8,
        ProverStage::Precompute => 9,
        ProverStage::Prove => 10,
        ProverStage::Finished => 11,
        ProverStage::Failed(_) => 11,
    }
}

/// Every proof is over after eleven events, whatever they are, and each event before that takes it
/// one stage on or ends it.
pub proof fn proofs_end(kind: CircuitKind, prepared: PreparedExecution, events: Seq<ProverEvent>)
    ensures
        progress(stage_after(kind, prepared, events)) >= events.len() || is_over(
            stage_after(kind, prepared, events),
        ),
        events.len() >= 11 ==> is_over(stage_after(kind, prepared, events)),
    decreases events.len(),
{
    if events.len() > 0 {
        proofs_end(kind, prepared, events.drop_last());
    }
}

/// What has been checked when a stage is reached: each reply up to it was the one that was asked
/// for, and passed its check.
pub open spec fn checks_passed(
    kind: CircuitKind,
    prepared: PreparedExecution,
    events: Seq<ProverEvent>,
    stage: ProverStage,
) -> bool {
    &&& events.len() >= progress(stage)
    &&& progress(stage) > 0 ==> events[0] is Done
    &&& progress(stage) > 1 ==> events[1] is Done
    &&& progress(stage) > 2 ==> (events[2] matches ProverEvent::Replayed { final_state, rows }
        && final_state == prepared.expected_final_state && rows == prepared.counters.calls_to(kind)
        && tables_at(prepared.preprocessing_data@, kind.family()) is Some)
    &&& progress(stage) > 3 ==> events[3] is Done
    &&& progress(stage) > 4 ==> events[4] is Done
    &&& progress(stage) > 5 ==> events[5] == ProverEvent::Checked(true)
    &&& progress(stage) > 6 ==> events[6] is Done
    &&& progress(stage) > 7 ==> events[7] is Done
    &&& progress(stage) > 8 ==> events[8] == ProverEvent::Checked(true)
    &&& progress(stage) > 9 ==> events[9] is Done
    &&& progress(stage) > 10 ==> (events[10] matches ProverEvent::Proved(proof) && proof_failure(
        kind,
        prepared.counters.calls_to(kind) == 0,
        proof,
    ) is None)
}

proof fn lemma_checks(kind: CircuitKind, prepared: PreparedExecution, events: Seq<ProverEvent>)
    ensures
        !(stage_after(kind, prepared, events) is Failed) ==> {
            &&& checks_passed(kind, prepared, events, stage_after(kind, prepared, events))
            &&& !(stage_after(kind, prepared, events) is Finished) ==> events.len() == progress(
                stage_after(kind, prepared, events),
            )
        },
    decreases events.len(),
{
    if events.len() > 0 {
        lemma_checks(kind, prepared, events.drop_last());
    }
}

/// A proof is accepted only when the replay ended in the expected state with as many rows as there
/// were calls, the family has its tables, both traces agree, the circuit is satisfied, and the
/// proof is in order.
pub proof fn accepted_proofs_passed_every_check(
    kind: CircuitKind,
    prepared: PreparedExecution,
    events: Seq<ProverEvent>,
)
    ensures
        stage_after(kind, prepared, events) is Finished ==> checks_passed(
            kind,
            prepared,
            events,
            ProverStage::Finished,
        ),
{
    lemma_checks(kind, prepared, events);
}

/// A proof whose replies pass every check is accepted.
pub proof fn passing_proofs_are_accepted(
    kind: CircuitKind,
    prepared: PreparedExecution,
    events: Seq<ProverEvent>,
)
    requires
        events.len() == 11,
        checks_passed(kind, prepared, events, ProverStage::Finished),
    ensures
        stage_after(kind, prepared, events) is Finished,
{
    assert(events.take(0).len() == 0);
    assert(stage_after(kind, prepared, events.take(0)) is Compile);
    assert(events.take(1).drop_last() =~= events.take(0));
    assert(stage_after(kind, prepared, events.take(1)) is FillTables);
    assert(events.take(2).drop_last() =~= events.take(1));
    assert(stage_after(kind, prepared, events.take(2)) is Replay);
    assert(events.take(3).drop_last() =~= events.take(2));
    assert(stage_after(kind, prepared, events.take(3)) is EvaluateMemoryTrace);
    assert(events.take(4).drop_last() =~= events.take(3));
    assert(stage_after(kind, prepared, events.take(4)) is EvaluateFullTrace);
    assert(events.take(5).drop_last() =~= events.take(4));
    assert(stage_after(kind, prepared, events.take(5)) is CompareTraces);
    assert(events.take(6).drop_last() =~= events.take(5));
    assert(stage_after(kind, prepared, events.take(6)) is ParseStatePermutation);
    assert(events.take(7).drop_last() =~= events.take(6));
    assert(stage_after(kind, prepared, events.take(7)) is ParseShuffleRam);
    assert(events.take(8).drop_last() =~= events.take(7));
    assert(stage_after(kind, prepared, events.take(8)) is CheckSatisfied);
    assert(events.take(9).drop_last() =~= events.take(8));
    assert(stage_after(kind, prepared, events.take(9)) is Precompute);
    assert(events.take(10).drop_last() =~= events.take(9));
    assert(stage_after(kind, prepared, events.take(10)) is Prove);
    assert(events.drop_last() =~= events.take(10));
}

/// A proof that is not accepted contributes nothing, and an accepted one contributes once, however
/// many events follow.
pub proof fn accepted_proofs_contribute_once(
    kind: CircuitKind,
    prepared: PreparedExecution,
    events: Seq<ProverEvent>,
    acc: AccumulatorsView,
)
    ensures
        accumulators_after(kind, prepared, events, acc) == if stage_after(
            kind,
            prepared,
            events,
        ) is Finished {
            accumulated(kind, acc, events[10]->Proved_0)
        } else {
            acc
        },
    decreases events.len(),
{
    if events.len() > 0 {
        accepted_proofs_contribute_once(kind, prepared, events.drop_last(), acc);
        lemma_checks(kind, prepared, events.drop_last());
        lemma_checks(kind, prepared, events);
    }
}

/// The tables of a family are the first ones with its number.
pub proof fn tables_are_those_of_the_family(data: Seq<FamilyTables>, family_idx: u8)
    ensures
        tables_at(data, family_idx) is Some <==> exists|i: int|
            0 <= i < data.len() && (#[trigger] data[i]).family_idx == family_idx,
        tables_at(data, family_idx) matches Some(i) ==> {
            &&& 0 <= i < data.len()
            &&& data[i].family_idx == family_idx
            &&& forall|j: int| 0 <= j < i ==> (#[trigger] data[j]).family_idx != family_idx
        },
    decreases data.len(),
{
    if data.len() > 0 {
        let front = data.drop_last();
        tables_are_those_of_the_family(front, family_idx);
        assert(data.last() == data[data.len() - 1]);
        if exists|i: int| 0 <= i < front.len() && (#[trigger] front[i]).family_idx == family_idx {
            let i = choose|i: int|
                0 <= i < front.len() && (#[trigger] front[i]).family_idx == family_idx;
            assert(data[i].family_idx == family_idx);
        }
        if exists|i: int| 0 <= i < data.len() && (#[trigger] data[i]).family_idx == family_idx {
            let i = choose|i: int|
                0 <= i < data.len() && (#[trigger] data[i]).family_idx == family_idx;
            if i < front.len() {
                assert(front[i].family_idx == family_idx);
            }
        }
        if tables_at(data, family_idx) is Some {
            let i = tables_at(data, family_idx)->0;
            assert forall|j: int| 0 <= j < i implies (#[trigger] data[j]).family_idx
                != family_idx by {
                assert(front[j] == data[j]);
            }
        }
    }
}

/// A proof is in order exactly where the xor/and/or/shift/csr circuit has a delegation argument and
/// no other circuit has one, and where an empty trace leaves both arguments trivial.
pub proof fn proofs_in_order(kind: CircuitKind, is_empty: bool, proof: UnrolledModeProof)
    ensures
        proof_failure(kind, is_empty, proof) is None <==> {
            &&& kind == CircuitKind::XorAndOrShiftCsr
                <==> proof.delegation_argument_accumulator is Some
            &&& is_empty ==> proof.permutation_grand_product_accumulator == (Quartic {
                c0: 1,
                c1: 0,
                c2: 0,
                c3: 0,
            })
            &&& is_empty ==> (proof.delegation_argument_accumulator matches Some(d) ==> d == (
            Quartic { c0: 0, c1: 0, c2: 0, c3: 0 }))
        },
        is_empty && proof.permutation_grand_product_accumulator != (Quartic {
            c0: 1,
            c1: 0,
            c2: 0,
            c3: 0,
        }) ==> proof_failure(kind, is_empty, proof) == Some(ProofFailure::PermutationNotOne),
        !is_empty && kind == CircuitKind::XorAndOrShiftCsr
            && proof.delegation_argument_accumulator is None ==> proof_failure(
            kind,
            is_empty,
            proof,
        ) == Some(ProofFailure::MissingDelegation),
        !is_empty && kind != CircuitKind::XorAndOrShiftCsr
            && proof.delegation_argument_accumulator is Some ==> proof_failure(
            kind,
            is_empty,
            proof,
        ) == Some(ProofFailure::UnexpectedDelegation),
{
}

/// A proof adds its permutation argument as the last factor, and its delegation argument, where it
/// has one that is in order, as the last term.
pub proof fn proofs_add_their_arguments(
    kind: CircuitKind,
    is_empty: bool,
    proof: UnrolledModeProof,
    acc: AccumulatorsView,
)
    requires
        proof_failure(kind, is_empty, proof) is None,
    ensures
        accumulated(kind, acc, proof).permutation_factors == acc.permutation_factors + seq![
            proof.permutation_grand_product_accumulator,
        ],
        accumulated(kind, acc, proof).delegation_terms == acc.delegation_terms + (
        match proof.delegation_argument_accumulator {
            Some(d) => seq![d],
            None => Seq::empty(),
        }),
{
    assert(acc.permutation_factors.push(proof.permutation_grand_product_accumulator)
        =~= acc.permutation_factors + seq![proof.permutation_grand_product_accumulator]);
    match proof.delegation_argument_accumulator {
        Some(d) => {
            assert(acc.delegation_terms.push(d) =~= acc.delegation_terms + seq![d]);
        },
        None => {
            assert(acc.delegation_terms =~= acc.delegation_terms + Seq::<Quartic>::empty());
        },
    }
}

/// A replay asks for as many rows as there were calls to the family, each counted on its own, and a
/// trace passes with just that many.
pub proof fn replays_trace_the_calls_of_their_family(
    kind: CircuitKind,
    prepared: PreparedExecution,
    final_state: MachineState,
    rows: usize,
)
    ensures
        action_at(kind, prepared, ProverStage::Replay) == (ProverAction::Replay {
            kind,
            rows: match kind {
                CircuitKind::AddSubLuiAuipcMop => prepared.counters.add_sub_family,
                CircuitKind::JumpBranchSlt => prepared.counters.jump_branch_slt_family,
                CircuitKind::XorAndOrShiftCsr => prepared.counters.shift_binary_csr_family,
                CircuitKind::MulDiv => prepared.counters.mul_div_family,
                CircuitKind::LoadStore => prepared.counters.word_memory_family,
                CircuitKind::SubwordLoadStore => prepared.counters.subword_memory_family,
                CircuitKind::InitsAndTeardowns => 0,
                CircuitKind::BlakeDelegation => prepared.counters.blake_calls,
                CircuitKind::KeccakDelegation => prepared.counters.keccak_calls,
            },
            cycles_bound: prepared.cycles_bound,
        }),
        ({
            let next = next_stage(
                kind,
                prepared,
                ProverStage::Replay,
                ProverEvent::Replayed { final_state, rows },
            );
            let asked = action_at(kind, prepared, ProverStage::Replay)->Replay_rows;
            &&& next is EvaluateMemoryTrace <==> {
                &&& final_state == prepared.expected_final_state
                &&& rows == asked
                &&& exists|i: int|
                    0 <= i < prepared.preprocessing_data@.len() && (
                    #[trigger] prepared.preprocessing_data@[i]).family_idx == kind.family()
            }
            &&& final_state == prepared.expected_final_state && rows != asked ==> next
                == ProverStage::Failed(ProofFailure::TraceLength)
            &&& final_state != prepared.expected_final_state ==> next == ProverStage::Failed(
                ProofFailure::StateMismatch,
            )
        }),
{
    tables_are_those_of_the_family(prepared.preprocessing_data@, kind.family());
}

/// The circuits are compiled and filled with the tables that their instructions look up: none for
/// additions, those of the family for jumps and multiplications, with the delegations for control
/// registers, and with the read-only memory for loads and stores.
pub proof fn circuits_get_their_tables(
    kind: CircuitKind,
    prepared: PreparedExecution,
    source: TableSource,
)
    requires
        source == match kind {
            CircuitKind::AddSubLuiAuipcMop => TableSource::Nothing,
            CircuitKind::XorAndOrShiftCsr => TableSource::FamilyAndCsr,
            CircuitKind::LoadStore => TableSource::FamilyAndRom,
            CircuitKind::SubwordLoadStore => TableSource::FamilyAndRom,
            _ => TableSource::Family,
        },
    ensures
        action_at(kind, prepared, ProverStage::Compile) == (ProverAction::Compile {
            kind,
            tables: source,
            bytecode_limit: 0x10_0000,
            trace_len_log2: 24,
        }),
        action_at(kind, prepared, ProverStage::FillTables) == (ProverAction::FillTables {
            kind,
            tables: source,
        }),
{
}

/// Both traces are evaluated alike: all rows but one hold cycles, and empty rows hold the program
/// counter of padding, except in the memory families.
pub proof fn traces_are_evaluated_alike(kind: CircuitKind, prepared: PreparedExecution)
    ensures
        ({
            let padding = if kind == CircuitKind::LoadStore || kind
                == CircuitKind::SubwordLoadStore {
                None
            } else {
                Some(4u32)
            };
            &&& action_at(kind, prepared, ProverStage::EvaluateMemoryTrace) == (
            ProverAction::EvaluateMemoryTrace { cycles: 0xff_ffff, padding_pc: padding })
            &&& action_at(kind, prepared, ProverStage::EvaluateFullTrace) == (
            ProverAction::EvaluateFullTrace { cycles: 0xff_ffff, padding_pc: padding })
            &&& action_at(kind, prepared, ProverStage::Precompute) == (ProverAction::Precompute {
                trace_len: 0x100_0000,
                lde_factor: 2,
                tree_cap_size: 32,
            })
            &&& action_at(kind, prepared, ProverStage::Prove) == (ProverAction::Prove {
                lde_factor: 2,
                tree_cap_size: 32,
            })
        }),
{
}

/// Whether the replies to the actions of a proof are those of an honest run: everything was done,
/// the replay ended in the final state of the run with the rows of the calls, both checks passed,
/// and the proof is in order for a trace of so many rows.
pub open spec fn is_honest(
    events: Seq<ProverEvent>,
    prepared: PreparedExecution,
    family_idx: u8,
    rows: usize,
    delegates: bool,
) -> bool {
    &&& events.len() >= 11
    &&& events[0] is Done
    &&& events[1] is Done
    &&& events[2] == (ProverEvent::Replayed { final_state: prepared.expected_final_state, rows })
    &&& exists|i: int|
        0 <= i < prepared.preprocessing_data@.len() && (
        #[trigger] prepared.preprocessing_data@[i]).family_idx == family_idx
    &&& events[3] is Done
    &&& events[4] is Done
    &&& events[5] == ProverEvent::Checked(true)
    &&& events[6] is Done
    &&& events[7] is Done
    &&& events[8] == ProverEvent::Checked(true)
    &&& events[9] is Done
    &&& events[10] matches ProverEvent::Proved(proof) && {
        &&& delegates <==> proof.delegation_argument_accumulator is Some
        &&& rows == 0 ==> proof.permutation_grand_product_accumulator == (Quartic {
            c0: 1,
            c1: 0,
            c2: 0,
            c3: 0,
        })
        &&& rows == 0 ==> (proof.delegation_argument_accumulator matches Some(d) ==> d == (
        Quartic { c0: 0, c1: 0, c2: 0, c3: 0 }))
    }
}

proof fn lemma_finished_stays(
    kind: CircuitKind,
    prepared: PreparedExecution,
    events: Seq<ProverEvent>,
    n: int,
)
    requires
        0 <= n <= events.len(),
        stage_after(kind, prepared, events.take(n)) is Finished,
    ensures
        stage_after(kind, prepared, events) is Finished,
    decreases events.len(),
{
    if n == events.len() {
        assert(events.take(n) =~= events);
    } else {
        assert(events.drop_last().take(n) =~= events.take(n));
        lemma_finished_stays(kind, prepared, events.drop_last(), n);
    }
}

/// The proof of a family is accepted exactly where its replies are those of an honest run with as
/// many rows as the family was called, whatever follows them.
pub proof fn honest_proofs_are_accepted(
    kind: CircuitKind,
    prepared: PreparedExecution,
    events: Seq<ProverEvent>,
    rows: usize,
)
    requires
        rows == match kind {
            CircuitKind::AddSubLuiAuipcMop => prepared.counters.add_sub_family,
            CircuitKind::JumpBranchSlt => prepared.counters.jump_branch_slt_family,
            CircuitKind::XorAndOrShiftCsr => prepared.counters.shift_binary_csr_family,
            CircuitKind::MulDiv => prepared.counters.mul_div_family,
            CircuitKind::LoadStore => prepared.counters.word_memory_family,
            CircuitKind::SubwordLoadStore => prepared.counters.subword_memory_family,
            CircuitKind::InitsAndTeardowns => 0,
            CircuitKind::BlakeDelegation => prepared.counters.blake_calls,
            CircuitKind::KeccakDelegation => prepared.counters.keccak_calls,
        },
    ensures
        stage_after(kind, prepared, events) is Finished <==> is_honest(
            events,
            prepared,
            kind.family(),
            rows,
            kind == CircuitKind::XorAndOrShiftCsr,
        ),
{
    tables_are_those_of_the_family(prepared.preprocessing_data@, kind.family());
    if stage_after(kind, prepared, events) is Finished {
        accepted_proofs_passed_every_check(kind, prepared, events);
        proofs_in_order(kind, rows == 0, events[10]->Proved_0);
    }
    if is_honest(
        events,
        prepared,
        kind.family(),
        rows,
        kind == CircuitKind::XorAndOrShiftCsr,
    ) {
        proofs_in_order(kind, rows == 0, events[10]->Proved_0);
        passing_proofs_are_accepted(kind, prepared, events.take(11));
        lemma_finished_stays(kind, prepared, events, 11);
    }
}

/// The checks are made in their stages: the memory columns are compared before the trace is parsed,
/// and the circuit is checked after both sets were filled; an accepted proof is finished, and a failure
/// is reported as it is.
pub proof fn checks_are_made_in_their_stages(
    kind: CircuitKind,
    prepared: PreparedExecution,
    failure: ProofFailure,
    event: ProverEvent,
)
    ensures
        action_at(kind, prepared, ProverStage::CompareTraces) == ProverAction::CompareTraces,
        action_at(kind, prepared, ProverStage::ParseStatePermutation)
            == ProverAction::ParseStatePermutation,
        action_at(kind, prepared, ProverStage::ParseShuffleRam) == ProverAction::ParseShuffleRam,
        action_at(kind, prepared, ProverStage::CheckSatisfied) == ProverAction::CheckSatisfied,
        action_at(kind, prepared, ProverStage::Finished) == ProverAction::Finish,
        action_at(kind, prepared, ProverStage::Failed(failure)) == ProverAction::Fail(failure),
        next_stage(kind, prepared, ProverStage::CompareTraces, ProverEvent::Checked(false))
            == ProverStage::Failed(ProofFailure::InconsistentTraces),
        next_stage(kind, prepared, ProverStage::CheckSatisfied, ProverEvent::Checked(false))
            == ProverStage::Failed(ProofFailure::Unsatisfied),
        next_stage(kind, prepared, ProverStage::Finished, event) == ProverStage::Finished,
        next_stage(kind, prepared, ProverStage::Failed(failure), event) == ProverStage::Failed(
            failure,
        ),
{
}

} // verus!
