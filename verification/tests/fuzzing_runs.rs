use airbender_analysis::fuzzing::cache::CacheSource;
use airbender_analysis::fuzzing::circuits::CircuitKind;
use airbender_analysis::fuzzing::crashes::{BugReport, BugType, ExecutionOutcome};
use airbender_analysis::fuzzing::driver::{
    after_validation, join, plural, run as plan_run, seed_verdict, validate_seeds, Cli, Fuzzer,
    FuzzerConfig, SeedValidationFailed, SeedVerdict,
};
use airbender_analysis::fuzzing::inputs::{
    NonMemoryOpcodeTracingDataWithTimestamp, ProofInputs, StoredProofInputs,
};
use airbender_analysis::fuzzing::mutations::{
    AnyMutator, BufferInsertCloneRowMutator, MutatedInput, MutatorRegistry,
};
use airbender_analysis::fuzzing::programs::SeedProgram;
use airbender_analysis::fuzzing::proving::{
    next_action, Accumulators, AddSubLuiAuipcMop, CircuitProver, FamilyTables, PreparedExecution,
    ProofFailure, Prover, ProverAction, ProverEvent, ProverStage, Quartic, TableSource,
    TracedCircuit, UnrolledModeProof,
};
use airbender_analysis::fuzzing::registry::{
    attempt_proof_generation, classify_generated_proof, CircuitRegistry, GeneratedProof,
    ProverAttempt,
};
use airbender_analysis::fuzzing::rv32im::{compare_results, run as plan_session, Mode, Verdict};
use airbender_analysis::fuzzing::seeds::{CacheEntry, SeedCase};
use airbender_analysis::fuzzing::state::{discover_next_crash_id, parse_crash_id, FuzzerState};
use airbender_analysis::fuzzing::unicorn::{
    memory_sections, run_on_unicorn, Error, HookState, UnicornRun,
};
use airbender_analysis::fuzzing::vm::{
    check_panic_string, guest_result, run_vm, text_is_beginning_of_data, Binary, Counters,
    MachineState, Register, VmOutcome, VmRun,
};
use airbender_analysis::fuzzing::vm_proof::{
    plan_vm_proof, prove_vm_result, vm_step, StepReport, TouchedWord, VmFailure, VmProof, VmStep,
};

fn row() -> NonMemoryOpcodeTracingDataWithTimestamp {
    NonMemoryOpcodeTracingDataWithTimestamp {
        initial_pc: 0,
        rs1_value: 0,
        rs2_value: 0,
        rd_old_value: 0,
        rd_value: 0,
        new_pc: 4,
        delegation_type: 0,
        rs1_read_timestamp: 0,
        rs2_read_timestamp: 0,
        rd_read_timestamp: 0,
        cycle_timestamp: 4,
    }
}

fn add_sub_inputs(rows: usize) -> StoredProofInputs {
    StoredProofInputs::AddSubLuiAuipcMop(ProofInputs {
        family_idx: 1,
        circuit: vec![],
        decoder_table_data: vec![],
        witness_gen_data: vec![],
        buffer: vec![row(); rows],
    })
}

fn seed_case() -> SeedCase {
    SeedCase {
        seed_program: "seed".to_string(),
        circuit: CircuitKind::AddSubLuiAuipcMop,
        base_input: add_sub_inputs(1),
    }
}

fn mutated() -> MutatedInput {
    MutatedInput::new(&seed_case(), add_sub_inputs(2), "test")
}

fn interesting(bug_type: BugType) -> ExecutionOutcome {
    ExecutionOutcome::Interesting(Box::new(BugReport::new(mutated(), bug_type)))
}

fn state(timestamp: u64) -> MachineState {
    let mut registers = [Register { value: 0, timestamp: 0 }; 32];
    for (i, register) in registers.iter_mut().enumerate() {
        register.value = 100 + i as u32;
    }
    MachineState { registers, timestamp, pc: 8, counters: Counters::new() }
}

#[test]
fn crash_names_hold_their_numbers() {
    assert_eq!(parse_crash_id("id:12,circuit:mul_div"), Some(12));
    assert_eq!(parse_crash_id("id:+7"), Some(7));
    assert_eq!(parse_crash_id("id:"), None);
    assert_eq!(parse_crash_id("id:1x,circuit:a"), None);
    assert_eq!(parse_crash_id("crash:1"), None);
    assert_eq!(parse_crash_id("id:18446744073709551615"), Some(u64::MAX));
    assert_eq!(parse_crash_id("id:18446744073709551616"), None);
}

#[test]
fn the_next_crash_follows_the_largest() {
    assert_eq!(discover_next_crash_id(&vec![]), 0);
    let names = vec!["id:3,circuit:a".to_string(), "README".to_string(), "id:10".to_string()];
    assert_eq!(discover_next_crash_id(&names), 11);
}

#[test]
fn saved_bugs_are_numbered() {
    let mut state = FuzzerState::new(vec![], vec![], &vec!["id:4".to_string()]);
    let first = state.save_bug(BugReport::new(mutated(), BugType::ValidationBug));
    let second = state.save_bug(BugReport::new(mutated(), BugType::ProofGenerationBug));
    assert_eq!(
        first.file_name(),
        format!("id:5,circuit:{}", CircuitKind::AddSubLuiAuipcMop.slug())
    );
    assert_eq!(second.id, 6);
    assert_eq!(parse_crash_id(&first.file_name()), Some(5));
    assert_ne!(first.report.bug_type.name(), second.report.bug_type.name());
}

fn cli(seed: Option<u64>, iterations: Option<usize>, output: &str) -> Cli {
    Cli {
        input_dir: "in".to_string(),
        output_dir: output.to_string(),
        iterations,
        seed,
        skip_validation: false,
    }
}

#[test]
fn directories_lie_under_the_output() {
    let config = FuzzerConfig::from_cli(cli(None, None, "out"), 77);
    assert_eq!(config.cache_dir, "out/cache");
    assert_eq!(config.crash_dir, "out/crashes");
    assert_eq!(config.seed, 77);
    assert_eq!(FuzzerConfig::from_cli(cli(Some(1), None, "out/"), 77).cache_dir, "out/cache");
    assert_eq!(FuzzerConfig::from_cli(cli(Some(1), None, "out/"), 77).seed, 1);
    assert_eq!(join(&"".to_string(), "x"), "x");
}

#[test]
fn runs_without_a_number_go_on() {
    let plan = plan_run(cli(None, Some(3), "o"), 0);
    assert_eq!((plan.iterations, plan.iterations_label.as_str(), plan.validate), (3, "3", true));
    let endless = plan_run(cli(None, None, "o"), 0);
    assert_eq!((endless.iterations, endless.iterations_label.as_str()), (usize::MAX, "?"));
    assert_eq!((plural(0), plural(1), plural(2)), ("s", "", "s"));
}

#[test]
fn seeds_are_valid_when_their_proofs_are_accepted() {
    assert_eq!(seed_verdict(&interesting(BugType::ValidationBug)), SeedVerdict::Valid);
    assert_eq!(
        seed_verdict(&interesting(BugType::ProofGenerationBug)),
        SeedVerdict::FailedProofValidation
    );
    assert_eq!(
        seed_verdict(&ExecutionOutcome::DiscardedProverCrash),
        SeedVerdict::FailedProofGeneration
    );
    assert!(validate_seeds(&vec![interesting(BugType::ValidationBug)]).is_ok());
    let failed = validate_seeds(&vec![
        interesting(BugType::ValidationBug),
        ExecutionOutcome::DiscardedProverCrash,
    ]);
    assert_eq!(failed.unwrap_err().message(), "Seed validation failed");
}

#[test]
fn a_failed_check_ends_the_run() {
    let mut plan = plan_run(cli(Some(1), Some(3), "o"), 0);
    assert!(plan.validate);
    assert_eq!(after_validation(&plan, Ok(())), Ok(3));
    assert_eq!(after_validation(&plan, Err(SeedValidationFailed)), Err(SeedValidationFailed));
    plan.validate = false;
    assert_eq!(after_validation(&plan, Err(SeedValidationFailed)), Ok(3));
}

#[test]
fn proofs_are_requested_with_the_settings() {
    let request = Prover::new().prove_request();
    assert_eq!((request.lde_factor, request.tree_cap_size, request.num_threads), (2, 32, 1));
    let security = request.security;
    assert_eq!((security.first, security.second, security.third), (5, 28, 63));
}

fn sample_proof() -> UnrolledModeProof {
    UnrolledModeProof {
        permutation_grand_product_accumulator: Quartic { c0: 9, c1: 8, c2: 7, c3: 6 },
        delegation_argument_accumulator: None,
    }
}

#[test]
fn iterations_report_what_the_verifier_said() {
    let mut fuzzer = Fuzzer::new(FuzzerConfig::from_cli(cli(Some(1), None, "o"), 0));
    fuzzer.initialize(
        vec![],
        vec![CacheEntry { seed: "s".to_string(), inputs: vec![add_sub_inputs(2)] }],
        &vec![],
    );
    assert_eq!(fuzzer.state.seed_cases.len(), 1);
    assert!(fuzzer.next_input(&MutatorRegistry::empty()).is_none());
    let registry = MutatorRegistry {
        mutators: vec![AnyMutator::BufferInsertCloneRow(BufferInsertCloneRowMutator)],
    };
    let input = fuzzer.next_input(&registry).unwrap();
    assert_eq!(input.original.seed_program, "s");

    let crashed = fuzzer.run_one_iteration(input, None, Ok(()));
    assert!(fuzzer.record(crashed).is_none());
    assert_eq!(fuzzer.state.next_crash_id, 0);

    let rejected = fuzzer.run_one_iteration(mutated(), Some(sample_proof()), Err(()));
    let artifact = fuzzer.record(rejected).unwrap();
    assert_eq!((artifact.id, artifact.report.bug_type), (0, BugType::ProofGenerationBug));

    let accepted = fuzzer.run_one_iteration(mutated(), Some(sample_proof()), Ok(()));
    let artifact = fuzzer.record(accepted).unwrap();
    assert_eq!((artifact.id, artifact.report.bug_type), (1, BugType::ValidationBug));
    assert_eq!(fuzzer.state.next_crash_id, 2);
}

#[test]
fn proofs_are_made_for_the_first_family_only() {
    let registry = CircuitRegistry::new();
    assert_eq!(registry.circuits(), [CircuitKind::AddSubLuiAuipcMop]);
    assert!(matches!(
        attempt_proof_generation(&mutated(), &registry, None),
        ProverAttempt::Crash
    ));
    assert!(matches!(
        attempt_proof_generation(&mutated(), &registry, Some(sample_proof())),
        ProverAttempt::Success(GeneratedProof::AddSubLuiAuipcMop(p)) if p == sample_proof()
    ));
    let other = StoredProofInputs::BlakeDelegation(());
    assert!(matches!(registry.prove(&other, Some(sample_proof())), ProverAttempt::Crash));
    let generated = GeneratedProof::AddSubLuiAuipcMop(sample_proof());
    assert_eq!(
        classify_generated_proof(&mutated(), &generated, &registry, Ok(())),
        BugType::ValidationBug
    );
    assert_eq!(
        classify_generated_proof(&mutated(), &generated, &registry, Err(())),
        BugType::ProofGenerationBug
    );
}

fn prepared(calls: usize) -> PreparedExecution {
    let mut counters = Counters::new();
    counters.add_sub_family = calls;
    counters.shift_binary_csr_family = calls;
    PreparedExecution {
        counters,
        expected_final_state: state(44),
        cycles_bound: 10,
        preprocessing_data: vec![
            FamilyTables {
                family_idx: 1,
                decoder_table_data: vec![[3; 10]],
                witness_gen_data: vec![],
            },
            FamilyTables {
                family_idx: 3,
                decoder_table_data: vec![[4; 10]],
                witness_gen_data: vec![],
            },
        ],
    }
}

fn traced(rows: usize, final_state: MachineState) -> CacheSource {
    CacheSource::Fresh {
        prepared: prepared(2),
        traced: vec![TracedCircuit { circuit: vec![5], buffer: vec![row(); rows], final_state }],
    }
}

#[test]
fn cache_entries_are_made_from_traces() {
    let program = SeedProgram::new("p".to_string(), "b".to_string(), "t".to_string());
    let registry = CircuitRegistry::new();
    let (entry, write) =
        CacheEntry::load_or_create(&program, &registry, traced(2, state(44))).unwrap();
    assert!(write);
    assert_eq!(entry.seed, "p");
    match &entry.inputs[0] {
        StoredProofInputs::AddSubLuiAuipcMop(p) => {
            assert_eq!(p.decoder_table_data, [[3; 10]]);
            assert_eq!(p.buffer.len(), 2);
            assert_eq!(*p.compiled_circuit(), [5]);
            assert_eq!(p.family_idx(), 1);
        }
        other => panic!("unexpected inputs {other:?}"),
    }
    let (kept, write) =
        CacheEntry::load_or_create(&program, &registry, CacheSource::Stored(entry)).unwrap();
    assert!(!write);
    assert_eq!(kept.inputs.len(), 1);

    let short = CacheEntry::load_or_create(&program, &registry, traced(1, state(44)));
    assert_eq!(short.unwrap_err(), ProofFailure::TraceLength);
    let strayed = CacheEntry::load_or_create(&program, &registry, traced(2, state(48)));
    assert_eq!(strayed.unwrap_err(), ProofFailure::StateMismatch);
}

fn passing_events(rows: usize, proof: UnrolledModeProof) -> Vec<ProverEvent> {
    vec![
        ProverEvent::Done,
        ProverEvent::Done,
        ProverEvent::Replayed { final_state: state(44), rows },
        ProverEvent::Done,
        ProverEvent::Done,
        ProverEvent::Checked(true),
        ProverEvent::Done,
        ProverEvent::Done,
        ProverEvent::Checked(true),
        ProverEvent::Done,
        ProverEvent::Proved(proof),
    ]
}

fn boundary() -> Quartic {
    Quartic { c0: 1, c1: 2, c2: 3, c3: 4 }
}

#[test]
fn passing_proofs_are_accumulated() {
    let mut acc = Accumulators::new(boundary());
    let stage = Prover::new().prove_add_sub_lui_auipc_mop(
        &mut acc,
        &prepared(2),
        &passing_events(2, sample_proof()),
    );
    assert_eq!(stage, ProverStage::Finished);
    assert_eq!(
        acc.permutation_factors,
        [boundary(), sample_proof().permutation_grand_product_accumulator]
    );
    assert!(acc.delegation_terms.is_empty());
}

#[test]
fn proofs_without_rows_must_be_trivial() {
    let mut acc = Accumulators::new(boundary());
    let stage = Prover::new().prove_add_sub_lui_auipc_mop(
        &mut acc,
        &prepared(0),
        &passing_events(0, sample_proof()),
    );
    assert_eq!(stage, ProverStage::Failed(ProofFailure::PermutationNotOne));
    assert_eq!(acc.permutation_factors, [boundary()]);

    let one = Quartic { c0: 1, c1: 0, c2: 0, c3: 0 };
    let zero = Quartic { c0: 0, c1: 0, c2: 0, c3: 0 };
    let trivial = UnrolledModeProof {
        permutation_grand_product_accumulator: one,
        delegation_argument_accumulator: Some(zero),
    };
    let csr = Prover::new().prove_xor_and_or_shift_csr(
        &mut acc,
        &prepared(0),
        &passing_events(0, trivial),
    );
    assert_eq!(csr, ProverStage::Finished);
    assert_eq!(acc.delegation_terms, [zero]);

    let loaded = UnrolledModeProof { delegation_argument_accumulator: Some(one), ..trivial };
    let csr = Prover::new().prove_xor_and_or_shift_csr(
        &mut acc,
        &prepared(0),
        &passing_events(0, loaded),
    );
    assert_eq!(csr, ProverStage::Failed(ProofFailure::DelegationNotZero));
}

#[test]
fn delegation_arguments_belong_to_one_family() {
    let with = UnrolledModeProof {
        delegation_argument_accumulator: Some(boundary()),
        ..sample_proof()
    };
    assert_eq!(
        AddSubLuiAuipcMop.check_constraints(&with, false),
        Err(ProofFailure::UnexpectedDelegation)
    );
    let mut acc = Accumulators::new(boundary());
    let missing = Prover::new().prove_xor_and_or_shift_csr(
        &mut acc,
        &prepared(2),
        &passing_events(2, sample_proof()),
    );
    assert_eq!(missing, ProverStage::Failed(ProofFailure::MissingDelegation));
}

#[test]
fn each_check_can_fail() {
    let failures = [
        (2, ProverEvent::Replayed { final_state: state(4), rows: 2 }, ProofFailure::StateMismatch),
        (2, ProverEvent::Replayed { final_state: state(44), rows: 1 }, ProofFailure::TraceLength),
        (5, ProverEvent::Checked(false), ProofFailure::InconsistentTraces),
        (8, ProverEvent::Checked(false), ProofFailure::Unsatisfied),
        (0, ProverEvent::Checked(true), ProofFailure::UnexpectedReply),
    ];
    for (at, event, failure) in failures {
        let mut events = passing_events(2, sample_proof());
        events[at] = event;
        let mut acc = Accumulators::new(boundary());
        let stage =
            Prover::new().prove_add_sub_lui_auipc_mop(&mut acc, &prepared(2), &events);
        assert_eq!(stage, ProverStage::Failed(failure));
        assert_eq!(acc.permutation_factors.len(), 1);
    }
    let mut acc = Accumulators::new(boundary());
    let mut no_calls = prepared(0);
    no_calls.preprocessing_data.clear();
    let stage =
        Prover::new().prove_mul_div(&mut acc, &no_calls, &passing_events(0, sample_proof()));
    assert_eq!(stage, ProverStage::Failed(ProofFailure::MissingDecoderTable));
}

#[test]
fn actions_name_the_tables_of_the_family() {
    let p = prepared(2);
    assert_eq!(
        next_action(CircuitKind::LoadStore, &p, ProverStage::FillTables),
        ProverAction::FillTables {
            kind: CircuitKind::LoadStore,
            tables: TableSource::FamilyAndRom
        }
    );
    assert_eq!(
        next_action(CircuitKind::LoadStore, &p, ProverStage::EvaluateFullTrace),
        ProverAction::EvaluateFullTrace { cycles: (1 << 24) - 1, padding_pc: None }
    );
    assert_eq!(
        next_action(CircuitKind::MulDiv, &p, ProverStage::EvaluateFullTrace),
        ProverAction::EvaluateFullTrace { cycles: (1 << 24) - 1, padding_pc: Some(4) }
    );
    assert_eq!(
        next_action(CircuitKind::AddSubLuiAuipcMop, &p, ProverStage::Replay),
        ProverAction::Replay {
            kind: CircuitKind::AddSubLuiAuipcMop,
            rows: 2,
            cycles_bound: 10
        }
    );
}

#[test]
fn whole_runs_are_proved_step_by_step() {
    let words = |n: u32| -> Vec<TouchedWord> {
        (0..n).map(|address| TouchedWord { address, timestamp: 1, value: 2 }).collect()
    };
    let mut last = Counters::new();
    last.blake_calls = 3;
    let snapshots = vec![Counters::new(), last];
    let touched = vec![words(2), words(1)];
    let plan = plan_vm_proof(&state(44), &snapshots, &touched, 0).unwrap();
    assert_eq!(plan.exact_cycles_passed, 10);
    assert_eq!(plan.counters.blake_calls, 3);
    assert_eq!(plan.total_unique_teardowns, 3);
    assert_eq!(plan.flattened_inits_and_teardowns, [words(2), words(1)].concat());

    assert_eq!(vm_step(7), Some(VmStep::ValidateSets));
    assert_eq!(vm_step(12), None);
    assert_eq!(
        plan_vm_proof(&state(44), &snapshots, &touched, 1).unwrap_err(),
        VmFailure::TrivialPadding
    );
    assert_eq!(
        plan_vm_proof(&state(44), &vec![], &touched, 0).unwrap_err(),
        VmFailure::NoSnapshots
    );
}

fn factor(c0: u32) -> Quartic {
    Quartic { c0, c1: 0, c2: 0, c3: 0 }
}

fn run_reports() -> Vec<StepReport> {
    let events = |c0: u32, delegation: Option<Quartic>| {
        StepReport::Events(passing_events(
            1,
            UnrolledModeProof {
                permutation_grand_product_accumulator: factor(c0),
                delegation_argument_accumulator: delegation,
            },
        ))
    };
    let contribution = |c0: u32| StepReport::Contribution {
        permutation_factor: factor(c0),
        delegation_term: None,
    };
    vec![
        StepReport::Checked(true),
        events(11, None),
        events(12, None),
        events(13, Some(factor(5))),
        events(14, None),
        events(15, None),
        events(16, None),
        StepReport::Checked(true),
        contribution(17),
        contribution(18),
        contribution(19),
        StepReport::Checked(true),
    ]
}

fn family_tables() -> Vec<FamilyTables> {
    (1..=6)
        .map(|family_idx| FamilyTables {
            family_idx,
            decoder_table_data: vec![],
            witness_gen_data: vec![],
        })
        .collect()
}

fn prove_run(reports: &Vec<StepReport>) -> Result<VmProof, VmFailure> {
    let counters = Counters {
        add_sub_family: 1,
        jump_branch_slt_family: 1,
        shift_binary_csr_family: 1,
        mul_div_family: 1,
        word_memory_family: 1,
        subword_memory_family: 1,
        blake_calls: 0,
        keccak_calls: 0,
    };
    let tables = family_tables();
    prove_vm_result(&state(44), &vec![counters], &vec![], 0, 10, tables, boundary(), reports)
}

#[test]
fn accepted_runs_hold_one_factor_for_each_circuit() {
    let proved = prove_run(&run_reports()).unwrap();
    let mut expected = vec![boundary()];
    expected.extend((11..=19).map(factor));
    assert_eq!(proved.accumulators.permutation_factors, expected);
    assert_eq!(proved.accumulators.delegation_terms, [factor(5)]);
    assert_eq!(proved.plan.exact_cycles_passed, 10);
}

#[test]
fn each_step_of_a_run_can_fail() {
    for at in 0..12 {
        let mut reports = run_reports();
        reports[at] = StepReport::Checked(false);
        assert_eq!(prove_run(&reports).unwrap_err(), VmFailure::Step(at));
        let mut short = run_reports();
        short.truncate(at);
        assert_eq!(prove_run(&short).unwrap_err(), VmFailure::Unfinished(at));
    }
}

#[test]
fn results_are_the_argument_registers() {
    assert_eq!(guest_result(false, &state(4)), None);
    assert_eq!(
        guest_result(true, &state(4)),
        Some([110, 111, 112, 113, 114, 115, 116, 117])
    );
    assert!(state(4).same(&state(4)));
    assert!(!state(4).same(&state(8)));
    let mut counted = state(4);
    counted.counters.keccak_calls = 1;
    assert!(!counted.same(&state(4)));
    assert!(counted.without_counters().same(&state(4)));
}

#[test]
fn binaries_are_padded_to_words() {
    let binary = Binary::new(&[1, 2, 3, 4, 5], None);
    assert_eq!(binary.data_chunks(), [0x0403_0201, 5]);
    assert_eq!(binary.text_chunks(), None);
    assert_eq!(binary.instruction_words(), [0x0403_0201, 5]);
    let with_text = Binary::new(&[1, 2, 3, 4], Some(&[9]));
    assert_eq!(with_text.instruction_words(), [9]);
    assert!(text_is_beginning_of_data(&[1, 2, 3], &[1, 2]));
    assert!(!text_is_beginning_of_data(&[1, 2, 3], &[2]));
    assert!(!text_is_beginning_of_data(&[1], &[1, 2]));
}

#[test]
fn guest_exceptions_give_no_result() {
    let illegal = "Illegal instruction encounteted at PC = 0x4";
    let unaligned = "Unaligned memory access at PC = 0x8";
    for text in [illegal, unaligned] {
        assert!(matches!(check_panic_string::<true>(text), VmOutcome::Result(None)));
        assert!(matches!(check_panic_string::<false>(text), VmOutcome::Result(None)));
    }
    assert!(matches!(check_panic_string::<true>("other"), VmOutcome::Abort));
    assert!(matches!(check_panic_string::<false>("other"), VmOutcome::Panic));
    assert!(matches!(run_vm::<true>(VmRun::PanickedWithoutText), VmOutcome::Abort));
    assert!(matches!(
        run_vm::<false>(VmRun::Panicked(illegal.to_string())),
        VmOutcome::Result(None)
    ));
    assert!(matches!(
        run_vm::<false>(VmRun::Returned(Some([1; 8]))),
        VmOutcome::Result(Some(r)) if r == [1; 8]
    ));
}

#[test]
fn sessions_follow_the_mode() {
    let one = plan_session(Mode::Unicorn, true);
    assert_eq!((one.loop_count, one.with_oracle, one.print_result), (Some(1), true, true));
    let endless = plan_session(Mode::Dumb, false);
    assert_eq!((endless.loop_count, endless.with_oracle), (None, false));
}

#[test]
fn results_are_compared_with_the_oracle() {
    assert_eq!(compare_results(&None, &None), Verdict::Skipped);
    assert_eq!(compare_results(&Some(None), &None), Verdict::Agreed);
    assert_eq!(compare_results(&Some(None), &Some([0; 8])), Verdict::Disagreed);
    assert_eq!(compare_results(&Some(Some([1; 8])), &Some([1; 8])), Verdict::Agreed);
    assert_eq!(compare_results(&Some(Some([1; 8])), &Some([2; 8])), Verdict::Disagreed);
}

#[test]
fn the_hook_stops_at_loops_and_marks_short_instructions() {
    let mut hook = HookState::new();
    let first = hook.on_code(4, 4);
    assert_eq!((first.stop, first.read_instruction), (false, true));
    let short = hook.on_code(8, 2);
    assert_eq!((short.stop, short.read_instruction), (false, false));
    let again = hook.on_code(8, 4);
    assert!(again.stop);
    assert!(hook.unsupported_instructions);
}

fn unicorn_run(registers: Vec<Result<u64, String>>) -> UnicornRun {
    UnicornRun { completed: true, hook_error: None, registers }
}

#[test]
fn oracle_runs_read_eight_registers() {
    let state = HookState::new();
    let read = run_on_unicorn(&state, &unicorn_run((1..=8).map(Ok).collect()));
    assert_eq!(read, Ok(Some([1, 2, 3, 4, 5, 6, 7, 8])));
    assert_eq!(
        run_on_unicorn(&state, &unicorn_run(vec![Ok(1 << 32); 8])),
        Err(Error::U32(1 << 32))
    );
    let refused = "Invalid memory read (UC_ERR_READ_UNMAPPED)".to_string();
    let unread = run_on_unicorn(&state, &unicorn_run(vec![Ok(1), Err(refused.clone())]));
    assert_eq!(unread, Err(Error::Unicorn(refused)));
    let few = run_on_unicorn(&state, &unicorn_run(vec![Ok(1); 3])).unwrap_err();
    assert_eq!(few.message(), "expected 8 registers, but got 3");
    assert_eq!(
        unread.unwrap_err().message(),
        "unicorn error: Invalid memory read (UC_ERR_READ_UNMAPPED)"
    );
    assert_eq!(
        Error::U32(1 << 32).message(),
        "u64 to u32 conversion error: out of range integral type conversion attempted"
    );
}

#[test]
fn failed_oracle_runs_have_no_result() {
    let state = HookState::new();
    let mut failed = unicorn_run(vec![]);
    failed.completed = false;
    assert_eq!(run_on_unicorn(&state, &failed), Ok(None));
    let mut unhooked = unicorn_run(vec![Ok(0); 8]);
    unhooked.hook_error = Some("no hook".to_string());
    let unhooked = run_on_unicorn(&state, &unhooked);
    assert_eq!(unhooked, Err(Error::Unicorn("no hook".to_string())));
    let unsupported = HookState { prev_pc: None, unsupported_instructions: true };
    assert_eq!(run_on_unicorn(&unsupported, &unicorn_run(vec![Ok(0); 8])), Ok(None));
    let sections = memory_sections();
    assert_eq!(sections[0].base + sections[0].size, sections[1].base);
    assert_eq!(sections[1].base + sections[1].size, 1 << 30);
}
