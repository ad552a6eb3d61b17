//! The circuits that are fuzzed, and what becomes of their proofs.
use vstd::prelude::*;

use crate::fuzzing::circuits::CircuitKind;
use crate::fuzzing::crashes::BugType;
use crate::fuzzing::inputs::NonMemoryOpcodeTracingDataWithTimestamp;
use crate::fuzzing::inputs::ProofInputsView;
use crate::fuzzing::inputs::StoredProofInputs;
use crate::fuzzing::inputs::StoredProofInputsView;
use crate::fuzzing::mutations::MutatedInput;
use crate::fuzzing::proving;
use crate::fuzzing::proving::create_proof_input;
use crate::fuzzing::proving::PreparedExecution;
use crate::fuzzing::proving::ProofFailure;
use crate::fuzzing::proving::TracedCircuit;
use crate::fuzzing::proving::UnrolledModeProof;

verus! {

/// A proof, by circuit.
#[derive(Clone, Copy, Debug)]
pub enum GeneratedProof {
    AddSubLuiAuipcMop(UnrolledModeProof),
}

/// What came of trying to make a proof.
#[derive(Clone, Copy, Debug)]
pub enum ProverAttempt {
    Crash,
    Success(GeneratedProof),
}

/// The circuits that are fuzzed.
#[derive(Debug)]
pub struct CircuitRegistry {
    circuits: Vec<CircuitKind>,
}

/// The trace of a circuit that touches registers only.
pub type NonMemoryTrace = TracedCircuit<NonMemoryOpcodeTracingDataWithTimestamp>;

/// Why there are no inputs for the proof of a circuit.
pub open spec fn generation_failure(
    kind: CircuitKind,
    prepared: PreparedExecution,
    traced: NonMemoryTrace,
) -> Option<ProofFailure> {
    proving::replay_failure(kind, prepared, traced.final_state, traced.buffer@.len() as int)
}

/// The inputs of the proof of a circuit.
pub open spec fn generated_inputs(
    kind: CircuitKind,
    prepared: PreparedExecution,
    traced: NonMemoryTrace,
) -> StoredProofInputsView {
    let tables = prepared.preprocessing_data@[proving::tables_at(
        prepared.preprocessing_data@,
        kind.family(),
    )->Some_0];
    StoredProofInputsView::NonMemory(
        kind,
        ProofInputsView {
            family_idx: kind.family(),
            circuit: traced.circuit@,
            decoder_table_data: tables.decoder_table_data@,
            witness_gen_data: tables.witness_gen_data@,
            buffer: traced.buffer@,
        },
    )
}

/// What comes of trying to make a proof for inputs of a circuit.
pub open spec fn attempt(kind: CircuitKind, outcome: Option<UnrolledModeProof>) -> ProverAttempt {
    match outcome {
        Some(proof) => if kind is AddSubLuiAuipcMop {
            ProverAttempt::Success(GeneratedProof::AddSubLuiAuipcMop(proof))
        } else {
            ProverAttempt::Crash
        },
        None => ProverAttempt::Crash,
    }
}

/// What is wrong when a proof was made.
pub open spec fn finding(verification: Result<(), ()>) -> BugType {
    match verification {
        Ok(()) => BugType::ValidationBug,
        Err(()) => BugType::ProofGenerationBug,
    }
}

/// A proof that was made for the first family is handed on as it is, and nothing else is a proof; the
/// verifier is at fault exactly where it accepts the proof of a mutated input, and else the prover.
pub proof fn findings_follow_the_verifier(
    kind: CircuitKind,
    outcome: Option<UnrolledModeProof>,
    verification: Result<(), ()>,
)
    ensures
        attempt(kind, outcome) is Success <==> kind is AddSubLuiAuipcMop && outcome is Some,
        attempt(kind, outcome) matches ProverAttempt::Success(proof) ==> (proof matches
            GeneratedProof::AddSubLuiAuipcMop(p) && outcome == Some(p)),
        finding(verification) is ValidationBug <==> verification is Ok,
        finding(verification) is ProofGenerationBug <==> verification is Err,
{
}

impl CircuitRegistry {
    /// The circuits.
    pub closed spec fn kinds(self) -> Seq<CircuitKind> {
        self.circuits@
    }

    /// Whether inputs can be made for every circuit.
    pub open spec fn wf(self) -> bool {
        forall|i: int| 0 <= i < self.kinds().len() ==> (#[trigger] self.kinds()[i]) is AddSubLuiAuipcMop
    }

    /// The circuits that are fuzzed.
    pub fn new() -> (r: CircuitRegistry)
        ensures
            r.wf(),
            r.kinds() == seq![CircuitKind::AddSubLuiAuipcMop],
    {
        CircuitRegistry { circuits: CircuitKind::all() }
    }

    /// The circuits.
    pub fn circuits(&self) -> (r: &[CircuitKind])
        ensures
            r@ == self.kinds(),
    {
        self.circuits.as_slice()
    }

    /// The inputs of the proof of a circuit, from its trace. Inputs can be made for the first
    /// family only.
    pub fn generate_inputs(
        &self,
        kind: CircuitKind,
        prepared: &PreparedExecution,
        traced: NonMemoryTrace,
    ) -> (r: Result<StoredProofInputs, ProofFailure>)
        requires
            kind is AddSubLuiAuipcMop,
        ensures
            match generation_failure(kind, *prepared, traced) {
                Some(f) => r == Err::<StoredProofInputs, ProofFailure>(f),
                None => r matches Ok(inputs) && inputs@ == generated_inputs(
                    kind,
                    *prepared,
                    traced,
                ),
            },
    {
        match create_proof_input(kind, prepared, traced) {
            Ok(inputs) => Ok(StoredProofInputs::AddSubLuiAuipcMop(inputs)),
            Err(f) => Err(f),
        }
    }

    /// What came of trying to make a proof, from the proof where there is one. A proof can be made
    /// for the first family only.
    pub fn prove(&self, input: &StoredProofInputs, outcome: Option<UnrolledModeProof>) -> (r:
        ProverAttempt)
        ensures
            r == match outcome {
                Some(proof) => if input@.kind() is AddSubLuiAuipcMop {
                    ProverAttempt::Success(GeneratedProof::AddSubLuiAuipcMop(proof))
                } else {
                    ProverAttempt::Crash
                },
                None => ProverAttempt::Crash,
            },
            r == attempt(input@.kind(), outcome),
    {
        match (input, outcome) {
            (StoredProofInputs::AddSubLuiAuipcMop(_), Some(proof)) => ProverAttempt::Success(
                GeneratedProof::AddSubLuiAuipcMop(proof),
            ),
            _ => ProverAttempt::Crash,
        }
    }

    /// What is wrong when a proof was made: a verifier that accepts it, or a prover that made one
    /// that the verifier rejects. The proof must be one for the circuit of the input.
    pub fn validate(
        &self,
        input: &StoredProofInputs,
        proof: &GeneratedProof,
        verification: Result<(), ()>,
    ) -> (r: BugType)
        requires
            input@.kind() is AddSubLuiAuipcMop,
        ensures
            r == match verification {
                Ok(()) => BugType::ValidationBug,
                Err(()) => BugType::ProofGenerationBug,
            },
            r == finding(verification),
    {
        match (input, proof) {
            (
                StoredProofInputs::AddSubLuiAuipcMop(_),
                GeneratedProof::AddSubLuiAuipcMop(_),
            ) => match verification {
                Ok(()) => BugType::ValidationBug,
                Err(()) => BugType::ProofGenerationBug,
            },
            _ => BugType::ProofGenerationBug,
        }
    }
}

/// What came of trying to make a proof from a mutated input.
pub fn attempt_proof_generation(
    input: &MutatedInput,
    registry: &CircuitRegistry,
    outcome: Option<UnrolledModeProof>,
) -> (r: ProverAttempt)
    ensures
        r == match outcome {
            Some(proof) => if input.mutated_input@.kind() is AddSubLuiAuipcMop {
                ProverAttempt::Success(GeneratedProof::AddSubLuiAuipcMop(proof))
            } else {
                ProverAttempt::Crash
            },
            None => ProverAttempt::Crash,
        },
        r == attempt(input.mutated_input@.kind(), outcome),
{
    registry.prove(&input.mutated_input, outcome)
}

/// What is wrong when a proof was made from a mutated input.
pub fn classify_generated_proof(
    input: &MutatedInput,
    proof: &GeneratedProof,
    registry: &CircuitRegistry,
    verification: Result<(), ()>,
) -> (r: BugType)
    requires
        input.mutated_input@.kind() is AddSubLuiAuipcMop,
    ensures
        r == match verification {
            Ok(()) => BugType::ValidationBug,
            Err(()) => BugType::ProofGenerationBug,
        },
        r == finding(verification),
{
    registry.validate(&input.mutated_input, proof, verification)
}

} // verus!
