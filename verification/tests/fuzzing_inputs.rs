use std::collections::hash_map::DefaultHasher;
use std::hash::{Hash, Hasher};

use rand::rngs::{SmallRng, StdRng};
use rand::SeedableRng;

use airbender_analysis::circuit::Variable;
use airbender_analysis::fuzzing::circuits::CircuitKind;
use airbender_analysis::fuzzing::inputs::{
    ExecutorFamilyDecoderData, MemoryOpcodeTracingDataWithTimestamp,
    NonMemoryOpcodeTracingDataWithTimestamp, ProofInputs, StoredProofInputs,
};
use airbender_analysis::fuzzing::mutations::{
    after_attempt, duplicate_row, insert_clone_row, mutate, mutate_until_different,
    replace_table_cell, swap_table_rows, AnyMutator, AttemptStep, BufferDuplicateRowMutator,
    BufferInsertCloneRowMutator, Mutator, MutatorRegistry, NoOpMutator, PreprocessedTableCellMutator,
    PreprocessedTableRowSwapMutator,
};
use airbender_analysis::fuzzing::programs::{
    short_hash, short_program_hash, ProgramFile, SeedFile, SeedProgram,
};
use airbender_analysis::fuzzing::rng::{choose_distinct_indices, choose_index, skip_index};
use airbender_analysis::fuzzing::seeds::{
    choose_seed_case, expand_seed_cases, CacheEntry, SeedCase,
};
use airbender_analysis::fuzzing::witgen::{
    drawn_inputs, fill_table, run, table_len, variables, with_table, Circuits, FuzzTarget,
    MAX_TABLE_LEN,
};

fn row(pc: u32) -> NonMemoryOpcodeTracingDataWithTimestamp {
    NonMemoryOpcodeTracingDataWithTimestamp {
        initial_pc: pc,
        rs1_value: 1,
        rs2_value: 2,
        rd_old_value: 3,
        rd_value: 4,
        new_pc: pc + 4,
        delegation_type: 0,
        rs1_read_timestamp: 5,
        rs2_read_timestamp: 6,
        rd_read_timestamp: 7,
        cycle_timestamp: 8,
    }
}

fn memory_row(pc: u32) -> MemoryOpcodeTracingDataWithTimestamp {
    MemoryOpcodeTracingDataWithTimestamp {
        initial_pc: pc,
        rs1_value: 1,
        ram_address: 2,
        rs2_or_ram_read_value: 3,
        rd_or_ram_read_value: 4,
        rd_or_ram_write_value: 5,
        rs1_read_timestamp: 6,
        rs2_or_ram_read_timestamp: 7,
        rd_or_ram_read_timestamp: 8,
        cycle_timestamp: 9,
    }
}

fn decoded(imm: u32) -> ExecutorFamilyDecoderData {
    ExecutorFamilyDecoderData {
        imm,
        rs1_index: 1,
        rs2_index: 2,
        rd_index: 3,
        rd_is_zero: false,
        funct3: 0,
        funct7: 0,
        opcode_family_bits: 1,
    }
}

fn inputs<T>(family_idx: u8, buffer: Vec<T>) -> ProofInputs<T> {
    ProofInputs {
        family_idx,
        circuit: vec![1, 2, 3],
        decoder_table_data: vec![[0; 10], [1; 10], [2; 10]],
        witness_gen_data: vec![decoded(1)],
        buffer,
    }
}

fn add_sub_inputs() -> StoredProofInputs {
    StoredProofInputs::AddSubLuiAuipcMop(inputs(1, vec![row(0), row(4), row(8)]))
}

fn seed_case() -> SeedCase {
    SeedCase {
        seed_program: "I-add".to_string(),
        circuit: CircuitKind::AddSubLuiAuipcMop,
        base_input: add_sub_inputs(),
    }
}

fn pcs(input: &ProofInputs<NonMemoryOpcodeTracingDataWithTimestamp>) -> Vec<u32> {
    input.buffer.iter().map(|r| r.initial_pc).collect()
}

fn non_memory(
    input: &StoredProofInputs,
) -> &ProofInputs<NonMemoryOpcodeTracingDataWithTimestamp> {
    match input {
        StoredProofInputs::AddSubLuiAuipcMop(p) => p,
        other => panic!("unexpected inputs {other:?}"),
    }
}

#[test]
fn inputs_name_their_circuit() {
    assert_eq!(add_sub_inputs().find_circuit(), Some(CircuitKind::AddSubLuiAuipcMop));
    assert_eq!(add_sub_inputs().circuit(), CircuitKind::AddSubLuiAuipcMop);
    let memory = StoredProofInputs::LoadStore(inputs(5, vec![memory_row(0)]), vec![7]);
    assert_eq!(memory.circuit(), CircuitKind::LoadStore);
    assert_eq!(
        StoredProofInputs::InitsAndTeardowns(()).circuit(),
        CircuitKind::InitsAndTeardowns
    );
}

#[test]
fn unknown_families_name_no_circuit() {
    let unknown = StoredProofInputs::AddSubLuiAuipcMop(inputs(99, vec![row(0)]));
    assert_eq!(unknown.find_circuit(), None);
}

#[test]
fn duplicates_are_the_same() {
    let a = add_sub_inputs();
    assert!(a.same(&a.duplicate()));
    let memory = StoredProofInputs::LoadStore(inputs(5, vec![memory_row(0)]), vec![7]);
    assert!(memory.same(&memory.duplicate()));
    assert!(!a.same(&memory));
    let other = StoredProofInputs::LoadStore(inputs(5, vec![memory_row(0)]), vec![8]);
    assert!(!memory.same(&other));
    let case = seed_case();
    assert!(case.duplicate().base_input.same(&case.base_input));
}

#[test]
fn rows_are_duplicated_inserted_and_swapped() {
    let mut p = inputs(1, vec![row(0), row(4), row(8)]);
    duplicate_row(&mut p, 0, 2);
    assert_eq!(pcs(&p), [0, 4, 0]);
    insert_clone_row(&mut p, 1, 0);
    assert_eq!(pcs(&p), [4, 0, 4, 0]);
    insert_clone_row(&mut p, 1, 4);
    assert_eq!(pcs(&p), [4, 0, 4, 0, 0]);
    swap_table_rows(&mut p, 0, 2);
    assert_eq!(p.decoder_table_data, [[2; 10], [1; 10], [0; 10]]);
    swap_table_rows(&mut p, 0, 2);
    assert_eq!(p.decoder_table_data, [[0; 10], [1; 10], [2; 10]]);
    replace_table_cell(&mut p, 1, 9, 77);
    assert_eq!(p.decoder_table_data[1], [1, 1, 1, 1, 1, 1, 1, 1, 1, 77]);
}

#[test]
fn the_idle_mutator_changes_nothing() {
    let seed = seed_case();
    let mut rng = StdRng::seed_from_u64(1);
    let mutated = mutate(&NoOpMutator, &seed, &mut rng);
    assert!(!mutated.differs_from(&seed));
    assert_eq!(mutated.original.seed_program, "I-add");
    assert_eq!(mutated.mutations[0].summary, NoOpMutator.name());
}

#[test]
fn mutators_keep_the_circuit_and_the_sizes() {
    let seed = seed_case();
    let mut rng = StdRng::seed_from_u64(2);
    for _ in 0..50 {
        let duplicated = mutate(&BufferDuplicateRowMutator, &seed, &mut rng);
        assert_eq!(non_memory(&duplicated.mutated_input).buffer.len(), 3);
        assert!(duplicated.differs_from(&seed));

        let inserted = mutate(&BufferInsertCloneRowMutator, &seed, &mut rng);
        assert_eq!(non_memory(&inserted.mutated_input).buffer.len(), 4);

        let swapped = mutate(&PreprocessedTableRowSwapMutator, &seed, &mut rng);
        let table = &non_memory(&swapped.mutated_input).decoder_table_data;
        let base = &non_memory(&seed.base_input).decoder_table_data;
        assert_eq!((0..3).filter(|i| table[*i] != base[*i]).count(), 2);

        let replaced = mutate(&PreprocessedTableCellMutator, &seed, &mut rng);
        let table = &non_memory(&replaced.mutated_input).decoder_table_data;
        let changed: usize = (0..3)
            .map(|i| (0..10).filter(|j| table[i][*j] != base[i][*j]).count())
            .sum();
        assert!(changed <= 1);
        assert_eq!(replaced.mutated_input.circuit(), CircuitKind::AddSubLuiAuipcMop);
    }
}

#[test]
fn memory_inputs_are_mutated_too() {
    let seed = SeedCase {
        seed_program: "lw".to_string(),
        circuit: CircuitKind::LoadStore,
        base_input: StoredProofInputs::LoadStore(
            inputs(5, vec![memory_row(0), memory_row(4)]),
            vec![1, 2],
        ),
    };
    let mut rng = StdRng::seed_from_u64(3);
    let mutated = mutate(&BufferDuplicateRowMutator, &seed, &mut rng);
    assert!(mutated.differs_from(&seed));
    match mutated.mutated_input {
        StoredProofInputs::LoadStore(p, bytecode) => {
            assert_eq!(p.buffer[0], p.buffer[1]);
            assert_eq!(bytecode, [1, 2]);
        }
        other => panic!("unexpected inputs {other:?}"),
    }
}

#[test]
fn too_few_rows_are_left_alone() {
    let seed = SeedCase {
        seed_program: "one".to_string(),
        circuit: CircuitKind::AddSubLuiAuipcMop,
        base_input: StoredProofInputs::AddSubLuiAuipcMop(inputs(1, vec![row(0)])),
    };
    let mut rng = StdRng::seed_from_u64(4);
    assert!(!mutate(&BufferDuplicateRowMutator, &seed, &mut rng).differs_from(&seed));
}

#[test]
fn registries_apply_one_of_their_mutators() {
    let seed = seed_case();
    let mut rng = StdRng::seed_from_u64(5);
    let registry = MutatorRegistry {
        mutators: vec![
            AnyMutator::BufferDuplicateRow(BufferDuplicateRowMutator),
            AnyMutator::BufferInsertCloneRow(BufferInsertCloneRowMutator),
            AnyMutator::PreprocessedTableCell(PreprocessedTableCellMutator),
            AnyMutator::PreprocessedTableRowSwap(PreprocessedTableRowSwapMutator),
        ],
    };
    let names: Vec<&'static str> = registry.mutators.iter().map(|m| m.name()).collect();
    for _ in 0..50 {
        let mutated = registry.apply_mutations(&seed, &mut rng);
        assert!(names.contains(&mutated.mutations[0].summary.as_str()));
        let name = registry.choose_mutator(&mut rng).name();
        assert!(names.contains(&name));
        let different = mutate_until_different(&seed, &registry, &mut rng).unwrap();
        assert!(different.differs_from(&seed));
    }
}

#[test]
fn idle_registries_find_no_difference() {
    let seed = seed_case();
    let mut rng = StdRng::seed_from_u64(6);
    for idle in [MutatorRegistry::empty(), MutatorRegistry::new()] {
        assert!(matches!(idle.mutators[0], AnyMutator::NoOp(_)));
        assert!(mutate_until_different(&seed, &idle, &mut rng).is_none());
    }
}

#[test]
fn sure_mutators_decide_whether_there_is_a_difference() {
    let seed_of = |rows: Vec<NonMemoryOpcodeTracingDataWithTimestamp>| SeedCase {
        seed_program: "s".to_string(),
        circuit: CircuitKind::AddSubLuiAuipcMop,
        base_input: StoredProofInputs::AddSubLuiAuipcMop(inputs(1, rows)),
    };
    let insert = MutatorRegistry {
        mutators: vec![AnyMutator::BufferInsertCloneRow(BufferInsertCloneRowMutator)],
    };
    let duplicate = MutatorRegistry {
        mutators: vec![AnyMutator::BufferDuplicateRow(BufferDuplicateRowMutator)],
    };
    for draw in 0..20 {
        let mut rng = StdRng::seed_from_u64(draw);
        let equal = seed_of(vec![row(4), row(4)]);
        assert!(mutate_until_different(&equal, &insert, &mut rng).is_some());
        assert!(mutate_until_different(&equal, &duplicate, &mut rng).is_none());
        let distinct = seed_of(vec![row(0), row(4), row(8)]);
        assert!(mutate_until_different(&distinct, &duplicate, &mut rng).is_some());
        let without_rows = seed_of(vec![]);
        assert!(mutate_until_different(&without_rows, &insert, &mut rng).is_none());
    }
}

#[test]
fn seeds_are_tried_a_thousand_times() {
    assert_eq!(after_attempt(1, true), AttemptStep::Take);
    assert_eq!(after_attempt(1000, true), AttemptStep::Take);
    assert_eq!(after_attempt(1, false), AttemptStep::TryAgain);
    assert_eq!(after_attempt(999, false), AttemptStep::TryAgain);
    assert_eq!(after_attempt(1000, false), AttemptStep::GiveUp);
}

#[test]
fn draws_are_in_range_and_vary() {
    let mut rng = StdRng::seed_from_u64(7);
    assert_eq!(choose_index(0, &mut rng), None);
    assert_eq!(choose_index(1, &mut rng), Some(0));
    let mut seen = [false; 5];
    for _ in 0..200 {
        seen[choose_index(5, &mut rng).unwrap()] = true;
        let (a, b) = choose_distinct_indices(5, &mut rng).unwrap();
        assert!(a < 5 && b < 5 && a != b);
    }
    assert_eq!(seen, [true; 5]);
    assert_eq!(choose_distinct_indices(1, &mut rng), None);
    assert_eq!(skip_index(2, 1), 1);
    assert_eq!(skip_index(2, 2), 3);
}

#[test]
fn seeds_repeat_their_draws() {
    let cases = vec![seed_case(), seed_case()];
    let mut a = StdRng::seed_from_u64(8);
    let mut b = StdRng::seed_from_u64(8);
    let draws_a: Vec<_> = (0..20).map(|_| choose_index(100, &mut a)).collect();
    let draws_b: Vec<_> = (0..20).map(|_| choose_index(100, &mut b)).collect();
    assert_eq!(draws_a, draws_b);
    assert!(choose_seed_case(&cases, &mut a).is_ok());
}

#[test]
fn no_seed_cases_cannot_be_chosen_from() {
    let mut rng = StdRng::seed_from_u64(9);
    let message = choose_seed_case(&[], &mut rng).unwrap_err().message();
    assert!(!message.is_empty());
}

#[test]
fn entries_are_expanded_in_order() {
    let entries = vec![
        CacheEntry {
            seed: "a".to_string(),
            inputs: vec![add_sub_inputs(), StoredProofInputs::BlakeDelegation(())],
        },
        CacheEntry { seed: "b".to_string(), inputs: vec![] },
        CacheEntry { seed: "c".to_string(), inputs: vec![add_sub_inputs()] },
    ];
    let cases = expand_seed_cases(&entries);
    let got: Vec<(&str, CircuitKind)> =
        cases.iter().map(|c| (c.seed_program.as_str(), c.circuit)).collect();
    assert_eq!(
        got,
        [
            ("a", CircuitKind::AddSubLuiAuipcMop),
            ("a", CircuitKind::BlakeDelegation),
            ("c", CircuitKind::AddSubLuiAuipcMop),
        ]
    );
}

fn file(stem: &str, extension: &str, path: &str) -> SeedFile {
    SeedFile {
        stem: Some(stem.to_string()),
        extension: Some(extension.to_string()),
        path: path.to_string(),
        is_file: true,
    }
}

#[test]
fn programs_are_pairs_in_the_order_of_their_names() {
    let mut directory = file("c", "bin", "/c.bin");
    directory.is_file = false;
    let files = vec![
        file("b", "text", "/b.text"),
        file("b", "bin", "/b.bin"),
        file("a", "bin", "/a.bin"),
        file("a", "text", "/a.text"),
        file("z", "text", "/z.text"),
        file("a", "md", "/a.md"),
        directory,
        SeedFile { stem: None, extension: None, path: "/".to_string(), is_file: true },
    ];
    let programs = SeedProgram::find_programs(&files).unwrap();
    let got: Vec<(&str, &str, &str)> = programs
        .iter()
        .map(|p| (p.name.as_str(), p.binary_path.as_str(), p.text_path.as_str()))
        .collect();
    assert_eq!(got, [("a", "/a.bin", "/a.text"), ("b", "/b.bin", "/b.text")]);
}

#[test]
fn the_first_program_without_text_is_named() {
    let files = vec![
        file("b", "bin", "/b.bin"),
        file("a", "bin", "/a.bin"),
        file("a", "text", "/a.text"),
    ];
    let error = SeedProgram::find_programs(&files).unwrap_err();
    assert_eq!(error.message(), "missing .text file for seed program `b`");
}

#[test]
fn content_hashes_are_those_of_the_default_hasher() {
    let (bin, text) = (vec![1u8, 2, 3, 4, 5], vec![1u8, 2]);
    let mut hasher = DefaultHasher::new();
    bin.hash(&mut hasher);
    text.hash(&mut hasher);
    let digits = format!("{:016x}", hasher.finish());
    assert_eq!(short_program_hash(&bin, &text), digits[..8]);
    assert_ne!(short_program_hash(&bin, &text), short_program_hash(&text, &bin));
    assert_eq!(short_hash(0x0123_4567_89ab_cdef), "01234567");
    assert_eq!(short_hash(1), "00000000");
}

#[test]
fn cache_files_are_named_by_name_and_content() {
    let mut program =
        SeedProgram::new("I-add".to_string(), "x.bin".to_string(), "x.text".to_string());
    assert_eq!(program.missing_file(), Some(ProgramFile::Binary));
    assert_eq!(program.cache_file_name(), None);
    program.keep(ProgramFile::Binary, vec![1, 2, 3, 4, 5]);
    assert_eq!(program.missing_file(), Some(ProgramFile::Text));
    assert!(program.binary().is_none());
    program.keep(ProgramFile::Text, vec![1]);
    assert_eq!(program.missing_file(), None);
    let name = format!("I-add-{}.data", short_program_hash(&[1, 2, 3, 4, 5], &[1]));
    assert_eq!(program.cache_file_name(), Some(name.clone()));
    let binary = program.binary().unwrap();
    assert_eq!(*binary.data(), [1, 2, 3, 4, 5, 0, 0, 0]);
    assert_eq!(binary.text(), Some(&vec![1, 0, 0, 0]));

    // What was read first stays, and the paths play no part.
    program.keep(ProgramFile::Binary, vec![9]);
    program.keep(ProgramFile::Text, vec![]);
    assert_eq!(program.cache_file_name(), Some(name.clone()));
    let mut moved =
        SeedProgram::new("I-add".to_string(), "y.bin".to_string(), "y.text".to_string());
    moved.keep(ProgramFile::Text, vec![1]);
    moved.keep(ProgramFile::Binary, vec![1, 2, 3, 4, 5]);
    assert_eq!(moved.cache_file_name(), Some(name));
}

struct Counting;

impl FuzzTarget for Counting {
    fn random_decoder_data(&self, _rng: &mut SmallRng) -> ExecutorFamilyDecoderData {
        decoded(5)
    }
}

#[test]
fn witness_inputs_draw_among_their_rows() {
    let mut lengths = Vec::new();
    for _ in 0..40 {
        let inputs = run(Circuits::AddSubLuiAuipcMop, &Counting);
        assert_eq!(inputs.pc_mod as usize, inputs.preprocessed_decoder_table.len());
        assert!(inputs.pc_mod < MAX_TABLE_LEN);
        assert!(inputs.preprocessed_decoder_table.iter().all(|d| *d == decoded(5)));
        lengths.push(inputs.pc_mod);
    }
    assert!(lengths.iter().any(|l| *l != lengths[0]));
    assert_eq!(table_len(1234), 34);
    assert_eq!(with_table(vec![decoded(1), decoded(2)]).pc_mod, 2);
    let mut rng = SmallRng::seed_from_u64(1);
    assert_eq!(drawn_inputs(&Counting, &mut rng, 1234).pc_mod, 34);
    assert_eq!(fill_table(&Counting, &mut rng, 3), [decoded(5); 3]);
    assert_eq!(variables(3), [Variable(0), Variable(1), Variable(2)]);
}
