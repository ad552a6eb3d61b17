//! The loop of the prover fuzzer.
use vstd::prelude::*;
use vstd::string::StringExecFns;

use crate::fuzzing::circuits::CircuitKind;
use crate::fuzzing::crashes::BugReport;
use crate::fuzzing::crashes::BugType;
use crate::fuzzing::crashes::CrashArtifact;
use crate::fuzzing::crashes::ExecutionOutcome;
use crate::fuzzing::inputs::StoredProofInputsView;
use crate::fuzzing::mutations;
use crate::fuzzing::mutations::mutate_until_different;
use crate::fuzzing::mutations::AnyMutator;
use crate::fuzzing::mutations::MutatedInput;
use crate::fuzzing::mutations::Mutator;
use crate::fuzzing::mutations::MutatorRegistry;
use crate::fuzzing::programs::SeedProgram;
use crate::fuzzing::proving::UnrolledModeProof;
use crate::fuzzing::registry::CircuitRegistry;
use crate::fuzzing::registry::ProverAttempt;
use crate::fuzzing::rng::choose_item;
use crate::fuzzing::rng::seed_from_u64;
use crate::fuzzing::rng::SeededRng;
use crate::fuzzing::seeds;
use crate::fuzzing::seeds::CacheEntry;
use crate::fuzzing::seeds::SeedCase;
use crate::fuzzing::state;
use crate::fuzzing::state::FuzzerState;
use crate::text;
use crate::text::push_decimal;

verus! {

/// Command-line arguments for the prover fuzzer.
#[derive(Debug)]
pub struct Cli {
    /// Directory containing `.bin`/`.text` seed program pairs.
    pub input_dir: String,
    /// Directory used to store fuzzer state such as cache entries and crashes.
    pub output_dir: String,
    /// Number of fuzz-loop iterations to execute.
    pub iterations: Option<usize>,
    /// RNG seed used to make the behavior reproducible.
    pub seed: Option<u64>,
    /// Whether the seeds are taken without checking them.
    pub skip_validation: bool,
}

/// Resolved runtime configuration derived from the CLI.
#[derive(Clone, Debug)]
pub struct FuzzerConfig {
    /// Input corpus directory passed by the user.
    pub input_dir: String,
    /// Root output directory passed by the user.
    pub output_dir: String,
    /// Cache directory nested under [`FuzzerConfig::output_dir`].
    pub cache_dir: String,
    /// Crash directory nested under [`FuzzerConfig::output_dir`].
    pub crash_dir: String,
    /// Number of fuzz-loop iterations to execute.
    pub iterations: Option<usize>,
    /// RNG seed used by the fuzzer.
    pub seed: u64,
}

/// The path of a name in a directory.
pub open spec fn joined(dir: Seq<char>, name: Seq<char>) -> Seq<char> {
    if dir.len() == 0 || dir.last() == '/' {
        dir + name
    } else {
        dir + "/"@ + name
    }
}

/// The path of a name in a directory.
pub fn join(dir: &String, name: &str) -> (r: String)
    ensures
        r@ == joined(dir@, name@),
{
    let mut out = dir.clone();
    let n: usize = out.as_str().unicode_len();
    if n > 0 && out.as_str().get_char(n - 1) != '/' {
        out.append("/");
    }
    out.append(name);
    out
}

/// Whether a configuration is that of arguments, where the time stands in for a missing seed.
pub open spec fn config_of(config: FuzzerConfig, cli: Cli, now: u64) -> bool {
    &&& config.input_dir@ == cli.input_dir@
    &&& config.output_dir@ == cli.output_dir@
    &&& config.cache_dir@ == joined(cli.output_dir@, "cache"@)
    &&& config.crash_dir@ == joined(cli.output_dir@, "crashes"@)
    &&& config.iterations == cli.iterations
    &&& config.seed == match cli.seed {
        Some(seed) => seed,
        None => now,
    }
}

impl FuzzerConfig {
    /// Expands CLI arguments into the runtime configuration, where the time stands in for a missing
    /// seed.
    pub fn from_cli(cli: Cli, now: u64) -> (r: FuzzerConfig)
        ensures
            config_of(r, cli, now),
    {
        FuzzerConfig {
            cache_dir: join(&cli.output_dir, "cache"),
            crash_dir: join(&cli.output_dir, "crashes"),
            input_dir: cli.input_dir,
            output_dir: cli.output_dir,
            iterations: cli.iterations,
            seed: match cli.seed {
                Some(seed) => seed,
                None => now,
            },
        }
    }
}

/// How a run of the fuzzer goes.
#[derive(Debug)]
pub struct RunPlan {
    pub config: FuzzerConfig,
    /// Whether the seeds are checked first.
    pub validate: bool,
    /// The number of iterations.
    pub iterations: usize,
    /// The number of iterations in messages.
    pub iterations_label: String,
}

/// Whether a run checks its seeds and goes on as the arguments say: the seeds are checked unless that
/// is skipped, and without a number of iterations it goes on up to the largest number.
pub open spec fn plan_of(plan: RunPlan, cli: Cli) -> bool {
    &&& plan.validate == !cli.skip_validation
    &&& plan.iterations == match cli.iterations {
        Some(n) => n,
        None => usize::MAX,
    }
}

/// The run for parsed CLI arguments. Without a number of iterations it goes on up to the largest
/// number.
pub fn run(cli: Cli, now: u64) -> (r: RunPlan)
    ensures
        config_of(r.config, cli, now),
        plan_of(r, cli),
        r.iterations_label@ == match cli.iterations {
            Some(n) => text::decimal(n as nat),
            None => "?"@,
        },
{
    let validate = !cli.skip_validation;
    let iterations: usize = match cli.iterations {
        Some(n) => n,
        None => usize::MAX,
    };
    let iterations_label = match cli.iterations {
        Some(n) => {
            let mut out = String::from_str("");
            push_decimal(&mut out, n as u64);
            proof {
                reveal_strlit("");
            }
            assert(out@ =~= text::decimal(n as nat));
            out
        },
        None => String::from_str("?"),
    };
    RunPlan { config: FuzzerConfig::from_cli(cli, now), validate, iterations, iterations_label }
}

/// The ending of a noun after a number.
pub fn plural(count: usize) -> (r: &'static str)
    ensures
        r@ == if count == 1 {
            ""@
        } else {
            "s"@
        },
{
    if count == 1 {
        ""
    } else {
        "s"
    }
}

/// What was found of a seed.
#[derive(Clone, Copy, Debug, PartialEq, Eq, Structural)]
pub enum SeedVerdict {
    /// Prover failed to generate proof from seed.
    FailedProofGeneration,
    /// Validator failed with the given proof.
    FailedProofValidation,
    /// All good
    Valid,
}

/// What was found of a seed that was run as it is.
pub open spec fn verdict_of(outcome: ExecutionOutcome) -> SeedVerdict {
    match outcome {
        ExecutionOutcome::DiscardedProverCrash => SeedVerdict::FailedProofGeneration,
        ExecutionOutcome::Interesting(report) => match report.bug_type {
            BugType::ProofGenerationBug => SeedVerdict::FailedProofValidation,
            BugType::ValidationBug => SeedVerdict::Valid,
        },
    }
}

/// What was found of a seed that was run as it is.
pub fn seed_verdict(outcome: &ExecutionOutcome) -> (r: SeedVerdict)
    ensures
        r == verdict_of(*outcome),
{
    match outcome {
        ExecutionOutcome::DiscardedProverCrash => SeedVerdict::FailedProofGeneration,
        ExecutionOutcome::Interesting(report) => match report.bug_type {
            BugType::ProofGenerationBug => SeedVerdict::FailedProofValidation,
            BugType::ValidationBug => SeedVerdict::Valid,
        },
    }
}

/// Some seed is not valid.
#[derive(Clone, Copy, Debug, PartialEq, Eq, Structural)]
pub struct SeedValidationFailed;

impl SeedValidationFailed {
    /// The error as text.
    pub fn message(&self) -> (r: &'static str)
        ensures
            r@ == "Seed validation failed"@,
    {
        "Seed validation failed"
    }
}

/// Whether every seed is valid, from what came of running each of them as it is.
pub open spec fn all_valid(outcomes: Seq<ExecutionOutcome>) -> bool {
    forall|i: int| 0 <= i < outcomes.len() ==> verdict_of(#[trigger] outcomes[i]) is Valid
}

/// Whether all seeds are valid, from what came of running each of them as it is.
pub fn validate_seeds(outcomes: &Vec<ExecutionOutcome>) -> (r: Result<(), SeedValidationFailed>)
    ensures
        r is Ok <==> all_valid(outcomes@),
{
    let mut failed = false;
    for i in 0..outcomes.len()
        invariant
            failed <==> exists|j: int|
                0 <= j < i && !(verdict_of(#[trigger] outcomes@[j]) is Valid),
    {
        let ghost before = failed;
        match seed_verdict(&outcomes[i]) {
            SeedVerdict::FailedProofGeneration => {
                failed = true;
            },
            SeedVerdict::FailedProofValidation => {
                failed = true;
            },
            SeedVerdict::Valid => {},
        }
        proof {
            if !(verdict_of(outcomes@[i as int]) is Valid) {
                assert(failed);
            } else if before {
                let j = choose|j: int|
                    0 <= j < i && !(verdict_of(#[trigger] outcomes@[j]) is Valid);
                assert(!(verdict_of(outcomes@[j]) is Valid));
            }
        }
    }
    if failed {
        Err(SeedValidationFailed)
    } else {
        Ok(())
    }
}

/// Whether a run ends or goes on as its plan and the check of its seeds say: a failed check ends it,
/// and else the number of iterations is given.
pub open spec fn goes_on(
    plan: RunPlan,
    checked: Result<(), SeedValidationFailed>,
    go: Result<usize, SeedValidationFailed>,
) -> bool {
    &&& go is Err <==> plan.validate && checked is Err
    &&& go matches Ok(n) ==> n == plan.iterations
}

/// Goes on after the seeds were checked, or were not to be checked: a failed check ends the run, and
/// else the number of iterations is given.
pub fn after_validation(plan: &RunPlan, checked: Result<(), SeedValidationFailed>) -> (r: Result<
    usize,
    SeedValidationFailed,
>)
    ensures
        goes_on(*plan, checked, r),
{
    if plan.validate {
        match checked {
            Ok(()) => Ok(plan.iterations),
            Err(e) => Err(e),
        }
    } else {
        Ok(plan.iterations)
    }
}

/// A run whose seeds are not all valid ends before its first iteration, unless the check was to be
/// skipped; every other run goes on for the iterations that were asked for.
pub proof fn invalid_seeds_end_the_run(
    cli: Cli,
    plan: RunPlan,
    outcomes: Seq<ExecutionOutcome>,
    checked: Result<(), SeedValidationFailed>,
    go: Result<usize, SeedValidationFailed>,
)
    requires
        plan_of(plan, cli),
        checked is Ok <==> all_valid(outcomes),
        goes_on(plan, checked, go),
    ensures
        go is Err <==> !cli.skip_validation && exists|i: int|
            0 <= i < outcomes.len() && !(verdict_of(#[trigger] outcomes[i]) is Valid),
        go matches Ok(n) ==> n == match cli.iterations {
            Some(n) => n,
            None => usize::MAX,
        },
{
}

/// Whether this is what mutating a picked seed can give: an input that a mutator changed, unless no
/// mutator can change the seed; or nothing, unless every mutator is sure to change it.
pub open spec fn comes_from(
    r: Option<MutatedInput>,
    mutators: Seq<AnyMutator>,
    seed: SeedCase,
) -> bool {
    match r {
        Some(mutated) => {
            &&& mutations::mutated_by(mutators, seed, mutated)
            &&& mutated.mutated_input@ != seed.base_input@
            &&& !mutations::none_change(mutators, seed)
        },
        None => !mutations::all_change(mutators, seed),
    }
}

/// Whether this came of running an input: nothing to report where there is no proof, and else a report
/// that says whether the verifier accepted the proof.
pub open spec fn classified(
    mutated: MutatedInput,
    outcome: Option<UnrolledModeProof>,
    verification: Result<(), ()>,
    r: ExecutionOutcome,
) -> bool {
    if outcome is Some && mutated.mutated_input@.kind() is AddSubLuiAuipcMop {
        r matches ExecutionOutcome::Interesting(report) && report.mutated == mutated
            && report.bug_type == match verification {
            Ok(()) => BugType::ValidationBug,
            Err(()) => BugType::ProofGenerationBug,
        }
    } else {
        r is DiscardedProverCrash
    }
}

/// Whether this came of numbering what came of an iteration.
pub open spec fn recorded(
    before: Fuzzer,
    outcome: ExecutionOutcome,
    after: Fuzzer,
    r: Option<CrashArtifact>,
) -> bool {
    match outcome {
        ExecutionOutcome::DiscardedProverCrash => r is None && after == before,
        ExecutionOutcome::Interesting(report) => {
            &&& r matches Some(artifact) && artifact.id == before.state.next_crash_id
                && artifact.report == *report
            &&& after == (Fuzzer {
                state: FuzzerState {
                    next_crash_id: (before.state.next_crash_id + 1) as u64,
                    ..before.state
                },
                ..before
            })
        },
    }
}

/// Top-level prover fuzzer orchestrator.
pub struct Fuzzer {
    /// Static runtime configuration.
    pub config: FuzzerConfig,
    /// Mutable runtime state.
    pub state: FuzzerState,
    /// RNG used for seed selection and mutation.
    pub rng: SeededRng,
    /// Registry of circuits.
    pub registry: CircuitRegistry,
}

impl Fuzzer {
    /// Constructs a new fuzzer with an empty runtime state. The generator is given the seed of the
    /// configuration.
    pub fn new(config: FuzzerConfig) -> (r: Fuzzer)
        ensures
            r.config == config,
            r.rng.seed() == config.seed,
            r.state.programs@.len() == 0,
            r.state.cache_entries@.len() == 0,
            r.state.seed_cases@.len() == 0,
            r.state.next_crash_id == 0,
            r.registry.wf(),
            r.registry.kinds() == seq![CircuitKind::AddSubLuiAuipcMop],
    {
        let seed = config.seed;
        Fuzzer {
            rng: seed_from_u64(seed),
            config,
            state: FuzzerState::empty(),
            registry: CircuitRegistry::new(),
        }
    }

    /// Takes the seed programs with their cache entries, and the names of the files in the crash
    /// directory.
    pub fn initialize(
        &mut self,
        programs: Vec<SeedProgram>,
        cache_entries: Vec<CacheEntry>,
        crash_files: &Vec<String>,
    )
        requires
            seeds::names_circuits(cache_entries@),
            state::next_id(state::texts(crash_files@)) <= u64::MAX,
        ensures
            final(self).config == old(self).config,
            final(self).rng == old(self).rng,
            final(self).registry == old(self).registry,
            final(self).state.programs == programs,
            final(self).state.cache_entries == cache_entries,
            seeds::case_values(final(self).state.seed_cases@) == seeds::expanded(cache_entries@),
            final(self).state.next_crash_id == state::next_id(state::texts(crash_files@)),
    {
        self.state = FuzzerState::new(programs, cache_entries, crash_files);
    }

    /// A mutated input to run next: one of the seeds, changed; none where the mutations of the seed
    /// that was picked changed nothing. There is one where every mutator is sure to change the seed
    /// that was picked, and none where no mutator can.
    pub fn next_input(&mut self, m: &MutatorRegistry) -> (r: Option<MutatedInput>)
        requires
            old(self).state.seed_cases@.len() > 0,
            m.wf(),
        ensures
            final(self).config == old(self).config,
            final(self).state == old(self).state,
            final(self).registry == old(self).registry,
            final(self).rng.seed() == old(self).rng.seed(),
            exists|i: int|
                0 <= i < old(self).state.seed_cases@.len() && comes_from(
                    r,
                    m.mutators@,
                    #[trigger] old(self).state.seed_cases@[i],
                ),
            mutations::all_idle(m.mutators@) ==> r is None,
    {
        let seed_case = choose_item(self.state.seed_cases.as_slice(), self.rng.generator()).unwrap();
        let r = mutate_until_different(seed_case, m, self.rng.generator());
        proof {
            let i = choose|i: int|
                0 <= i < self.state.seed_cases@.len() && self.state.seed_cases@[i] == *seed_case;
            assert(comes_from(r, m.mutators@, self.state.seed_cases@[i]));
        }
        r
    }

    /// What came of running an input: nothing to report where the prover refused it, and else a
    /// report that says whether the verifier accepted the proof.
    pub fn run_one_iteration(
        &self,
        mutated: MutatedInput,
        outcome: Option<UnrolledModeProof>,
        verification: Result<(), ()>,
    ) -> (r: ExecutionOutcome)
        ensures
            outcome is None || !(mutated.mutated_input@.kind() is AddSubLuiAuipcMop) ==> r
                is DiscardedProverCrash,
            outcome is Some && mutated.mutated_input@.kind() is AddSubLuiAuipcMop ==> (r matches
                ExecutionOutcome::Interesting(report) && report.mutated == mutated
                && report.bug_type == match verification {
                Ok(()) => BugType::ValidationBug,
                Err(()) => BugType::ProofGenerationBug,
            }),
            classified(mutated, outcome, verification, r),
    {
        match self.registry.prove(&mutated.mutated_input, outcome) {
            ProverAttempt::Crash => ExecutionOutcome::DiscardedProverCrash,
            ProverAttempt::Success(proof) => {
                let bug_type = self.registry.validate(
                    &mutated.mutated_input,
                    &proof,
                    verification,
                );
                ExecutionOutcome::Interesting(Box::new(BugReport::new(mutated, bug_type)))
            },
        }
    }

    /// Numbers what came of an iteration, where there is something to report.
    pub fn record(&mut self, outcome: ExecutionOutcome) -> (r: Option<CrashArtifact>)
        requires
            outcome is Interesting ==> old(self).state.next_crash_id < u64::MAX,
        ensures
            match outcome {
                ExecutionOutcome::DiscardedProverCrash => r is None && *final(self) == *old(self),
                ExecutionOutcome::Interesting(report) => {
                    &&& r matches Some(artifact) && artifact.id == old(self).state.next_crash_id
                        && artifact.report == *report
                    &&& *final(self) == (Fuzzer {
                        state: FuzzerState {
                            next_crash_id: (old(self).state.next_crash_id + 1) as u64,
                            ..old(self).state
                        },
                        ..*old(self)
                    })
                },
            },
            recorded(*old(self), outcome, *final(self), r),
    {
        match outcome {
            ExecutionOutcome::DiscardedProverCrash => None,
            ExecutionOutcome::Interesting(report) => Some(self.state.save_bug(*report)),
        }
    }
}

/// A path in a directory begins with the directory and ends with the name, and a slash stands between
/// them, so that different names have different paths.
pub proof fn paths_lie_in_their_directory(dir: Seq<char>, name: Seq<char>, other: Seq<char>)
    ensures
        joined(dir, name).take(dir.len() as int) == dir,
        joined(dir, name).skip(joined(dir, name).len() - name.len()) == name,
        dir.len() > 0 ==> joined(dir, name)[joined(dir, name).len() - name.len() - 1] == '/',
        joined(dir, name).len() <= dir.len() + 1 + name.len(),
        dir.len() == 0 ==> joined(dir, name) == name,
        joined(dir, name) == joined(dir, other) ==> name == other,
{
    reveal_strlit("/");
    let path = joined(dir, name);
    let another = joined(dir, other);
    assert(path.take(dir.len() as int) =~= dir);
    assert(path.skip(path.len() - name.len()) =~= name);
    assert(another.skip(another.len() - other.len()) =~= other);
    assert(dir.len() == 0 ==> path =~= name);
}

/// The cache and the findings are kept in different directories under the output directory, and a
/// seed that was given is used whatever the time is.
pub proof fn configurations_follow_the_arguments(config: FuzzerConfig, cli: Cli, now: u64)
    requires
        config_of(config, cli, now),
    ensures
        config.input_dir@ == cli.input_dir@,
        config.output_dir@ == cli.output_dir@,
        config.cache_dir@.take(cli.output_dir@.len() as int) == cli.output_dir@,
        config.crash_dir@.take(cli.output_dir@.len() as int) == cli.output_dir@,
        config.cache_dir@ != config.crash_dir@,
        config.cache_dir@ == joined(config.output_dir@, "cache"@),
        config.crash_dir@ == joined(config.output_dir@, "crashes"@),
        config.iterations == cli.iterations,
        cli.seed is Some ==> cli.seed == Some(config.seed),
        cli.seed is None ==> config.seed == now,
{
    paths_lie_in_their_directory(cli.output_dir@, "cache"@, "crashes"@);
    paths_lie_in_their_directory(cli.output_dir@, "crashes"@, "cache"@);
    reveal_strlit("cache");
    reveal_strlit("crashes");
    assert("cache"@.len() != "crashes"@.len());
}

/// A seed is valid exactly where a proof was made of it and the verifier accepts the proof; it fails
/// in the verification where the verifier rejects the proof, and in the generation where there is no
/// proof.
pub proof fn seeds_are_valid_where_their_proof_is_accepted(
    mutated: MutatedInput,
    outcome: Option<UnrolledModeProof>,
    verification: Result<(), ()>,
    r: ExecutionOutcome,
)
    requires
        classified(mutated, outcome, verification, r),
        mutated.mutated_input@.kind() is AddSubLuiAuipcMop,
    ensures
        verdict_of(r) is FailedProofGeneration <==> outcome is None,
        verdict_of(r) is FailedProofValidation <==> outcome is Some && verification is Err,
        verdict_of(r) is Valid <==> outcome is Some && verification is Ok,
        r is Interesting <==> outcome is Some,
        r matches ExecutionOutcome::Interesting(report) ==> report.mutated == mutated && (
        report.bug_type is ValidationBug <==> verification is Ok),
{
}

/// Inputs of circuits that no proof is made for are never reported.
pub proof fn other_circuits_are_not_reported(
    mutated: MutatedInput,
    outcome: Option<UnrolledModeProof>,
    verification: Result<(), ()>,
    r: ExecutionOutcome,
)
    requires
        classified(mutated, outcome, verification, r),
        !(mutated.mutated_input@.kind() is AddSubLuiAuipcMop),
    ensures
        r is DiscardedProverCrash,
{
}

/// Findings are numbered one after the other, and nothing else of the state changes: two findings
/// never have one number.
pub proof fn findings_are_numbered_in_turn(
    start: Fuzzer,
    first: ExecutionOutcome,
    between: Fuzzer,
    a: Option<CrashArtifact>,
    second: ExecutionOutcome,
    end: Fuzzer,
    b: Option<CrashArtifact>,
)
    requires
        start.state.next_crash_id < u64::MAX - 1,
        recorded(start, first, between, a),
        recorded(between, second, end, b),
    ensures
        a is Some <==> first is Interesting,
        b is Some <==> second is Interesting,
        a matches Some(x) ==> x.id == start.state.next_crash_id && first
            == ExecutionOutcome::Interesting(Box::new(x.report)),
        b matches Some(y) ==> second == ExecutionOutcome::Interesting(Box::new(y.report)),
        (a matches Some(x) && b matches Some(y)) ==> b->0.id == a->0.id + 1,
        a is None ==> (b matches Some(y) ==> y.id == start.state.next_crash_id),
        end.state.next_crash_id == start.state.next_crash_id + (if a is Some {
            1int
        } else {
            0
        }) + (if b is Some {
            1int
        } else {
            0
        }),
        end.state.programs == start.state.programs,
        end.state.cache_entries == start.state.cache_entries,
        end.state.seed_cases == start.state.seed_cases,
        end.config == start.config,
        end.rng == start.rng,
        end.registry == start.registry,
{
}

/// An input to run differs from the seed that it comes from, whose program and circuit it names; where
/// every mutator does nothing there is none; and where every mutator adds a row to a trace that is not
/// empty there is one.
pub proof fn inputs_to_run_are_changed(
    r: Option<MutatedInput>,
    mutators: Seq<AnyMutator>,
    seed: SeedCase,
)
    requires
        comes_from(r, mutators, seed),
    ensures
        r matches Some(m) ==> {
            &&& m.mutated_input@ != seed.base_input@
            &&& m.original.seed_program@ == seed.seed_program@
            &&& m.original.circuit == seed.circuit
            &&& m.mutated_input@.kind() == seed.base_input@.kind()
        },
        (forall|i: int| 0 <= i < mutators.len() ==> (#[trigger] mutators[i]) is NoOp) ==> r is None,
        mutators.len() > 0 && (forall|i: int|
            0 <= i < mutators.len() ==> (#[trigger] mutators[i]).mutation() is InsertCloneRow) && (
        match seed.base_input@ {
            StoredProofInputsView::NonMemory(_, p) => p.buffer.len() > 0,
            StoredProofInputsView::Memory(_, p, _) => p.buffer.len() > 0,
            StoredProofInputsView::Other(_) => false,
        }) ==> r is Some,
{
    if let Some(m) = r {
        mutations::derived_inputs_name_their_seed(mutators, seed, m);
        if forall|i: int| 0 <= i < mutators.len() ==> (#[trigger] mutators[i]) is NoOp {
            mutations::idle_mutators_change_nothing(mutators, seed, m);
        }
    }
}

} // verus!
