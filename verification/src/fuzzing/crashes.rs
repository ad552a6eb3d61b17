//! Findings and the files that keep them.
use vstd::prelude::*;
use vstd::string::StringExecFns;

use crate::fuzzing::circuits::CircuitKind;
use crate::fuzzing::mutations::MutatedInput;
use crate::text;
use crate::text::push_decimal;

verus! {

/// What is wrong when a proof was generated from a mutated input.
#[derive(Clone, Copy, Debug, PartialEq, Eq, Structural)]
pub enum BugType {
    /// The verifier rejects the generated proof.
    ProofGenerationBug,
    /// The verifier accepts the generated proof.
    ValidationBug,
}

impl BugType {
    /// The name of the finding.
    pub open spec fn name_text(self) -> Seq<char> {
        match self {
            BugType::ProofGenerationBug => "proof generation bug"@,
            BugType::ValidationBug => "validation bug"@,
        }
    }

    /// The name of the finding.
    pub fn name(&self) -> (r: &'static str)
        ensures
            r@ == self.name_text(),
    {
        match self {
            BugType::ProofGenerationBug => "proof generation bug",
            BugType::ValidationBug => "validation bug",
        }
    }
}

/// A finding and the input that leads to it.
#[derive(Debug)]
pub struct BugReport {
    pub mutated: MutatedInput,
    pub bug_type: BugType,
}

impl BugReport {
    /// A finding on an input.
    pub fn new(mutated: MutatedInput, bug_type: BugType) -> (r: BugReport)
        ensures
            r.mutated == mutated,
            r.bug_type == bug_type,
    {
        BugReport { mutated, bug_type }
    }
}

/// What came of one run.
#[derive(Debug)]
pub enum ExecutionOutcome {
    /// The prover refused the input.
    DiscardedProverCrash,
    /// The prover made a proof.
    Interesting(Box<BugReport>),
}

/// A numbered finding.
#[derive(Debug)]
pub struct CrashArtifact {
    pub id: u64,
    pub report: BugReport,
}

/// The file name of a numbered finding on a circuit.
pub open spec fn crash_name(id: u64, circuit: CircuitKind) -> Seq<char> {
    "id:"@ + text::decimal(id as nat) + ",circuit:"@ + circuit.slug_text()
}

impl CrashArtifact {
    /// A numbered finding.
    pub fn new(id: u64, report: BugReport) -> (r: CrashArtifact)
        ensures
            r.id == id,
            r.report == report,
    {
        CrashArtifact { id, report }
    }

    /// The name of the file that keeps the finding.
    pub fn file_name(&self) -> (r: String)
        ensures
            r@ == crash_name(self.id, self.report.mutated.original.circuit),
    {
        let mut out = String::from_str("id:");
        push_decimal(&mut out, self.id);
        out.append(",circuit:");
        out.append(self.report.mutated.original.circuit.slug());
        out
    }
}

/// The two findings have names of their own: one is the prover's, and the other the verifier's.
pub proof fn findings_are_named_apart(a: BugType, b: BugType)
    ensures
        a.name_text() == b.name_text() ==> a == b,
        a.name_text() == "validation bug"@ <==> a is ValidationBug,
{
    reveal_strlit("proof generation bug");
    reveal_strlit("validation bug");
    assert("proof generation bug"@.len() == 20);
    assert("validation bug"@.len() == 14);
}

} // verus!
