use airbender_analysis::circuit::{
    Boolean, CircuitOutput, Constraint, DecoderData, DisjunctiveLookup, DisjunctiveLookupCase,
    LookupInput, LookupQuery, LookupQueryTableType, MachineCycleState, Mersenne31Field, Num,
    OpcodeFamilyCircuitState, PicusExtractionMetadata, RangeCheckQuery, ShuffleRamMemQuery,
    ShuffleRamQueryType, TableIds, TableType, Term, Variable, CHARACTERISTICS,
};
use airbender_analysis::picus::families::{
    build_add_sub_lui_auipc_mop_circuit_output,
    build_add_sub_lui_auipc_mop_circuit_output_with_decoded_bits,
    build_add_sub_lui_auipc_mop_picus_program,
    build_jump_branch_slt_mop_circuit_output_with_decoded_bits,
    build_load_store_subword_only_circuit_output_with_decoded_bits, FamilySynthesis,
};
use airbender_analysis::picus::ir::{PicusConstraint, PicusExpr, PicusModule};
use airbender_analysis::picus::lookups::{
    add_disjunctive_lookup_constraints, add_lookup_constraints, boolean_to_picus_expr,
    table_supports_zero_row_multiply_in,
};
use airbender_analysis::picus::translate::{
    circuit_output_to_picus_program, constraint_to_picus_constraint, fresh_picus_var_expr,
    lookup_input_to_picus_expr, term_to_picus_expr,
};

/// The number of decoded bits of the add/sub/lui/auipc/mop family.
const ADD_SUB_LUI_AUIPC_MOP_FAMILY_NUM_FLAGS: usize = 7;

fn ids() -> TableIds {
    TableIds {
        conditional_jmp_branch_slt: 1,
        jump_cleanup_offset: 2,
        memory_get_offset_and_mask_with_trap: 3,
        rom_address_space_separator: 4,
        memory_load_halfword_or_byte: 5,
        mem_store_clear_original_ram_value_limb: 6,
        mem_store_clear_written_value_limb: 7,
        aligned_rom_read: 8,
    }
}

fn pair(first: u64) -> [Variable; 2] {
    [Variable(first), Variable(first + 1)]
}

fn state() -> OpcodeFamilyCircuitState {
    OpcodeFamilyCircuitState {
        execute: Variable(0),
        cycle_start_state: MachineCycleState { pc: pair(1), timestamp: pair(3) },
        cycle_end_state: MachineCycleState { pc: pair(5), timestamp: pair(7) },
        decoder_data: DecoderData {
            rs1_index: Variable(9),
            rs2_index: Variable(10),
            rd_index: Variable(11),
            rd_is_zero: Variable(12),
            imm: pair(13),
            funct3: Variable(15),
            funct7: None,
            circuit_family_extra_mask: Variable(16),
        },
    }
}

fn query(timestamp: usize, read: u64, write: u64) -> ShuffleRamMemQuery {
    ShuffleRamMemQuery {
        query_type: ShuffleRamQueryType::RegisterOnly { register_index: Variable(9) },
        local_timestamp_in_cycle: timestamp,
        read_value: pair(read),
        write_value: pair(write),
    }
}

/// A circuit with decoded bits, each of which guards one constraint.
fn synthesis(bits: usize) -> FamilySynthesis {
    let first_bit = 23;
    let decoded_mask_bits: Vec<Variable> =
        (0..bits).map(|i| Variable(first_bit + i as u64)).collect();
    let one = Mersenne31Field(1);
    let constraints = decoded_mask_bits
        .iter()
        .map(|bit| {
            let term = Term::Expression {
                coeff: one,
                inner: [*bit, Variable(17), Variable(0), Variable(0)],
                degree: 2,
            };
            (Constraint { terms: vec![term] }, false)
        })
        .collect();
    FamilySynthesis {
        circuit_output: CircuitOutput {
            num_of_variables: first_bit as usize + bits,
            constraints,
            lookups: vec![],
            boolean_vars: decoded_mask_bits.clone(),
            range_check_expressions: vec![RangeCheckQuery::new(Variable(17), 16)],
            shuffle_ram_queries: vec![query(0, 17, 17), query(1, 19, 19), query(2, 21, 17)],
            executor_machine_state: Some(state()),
            picus_extraction_metadata: PicusExtractionMetadata { disjunctive_lookups: vec![] },
            substitutions: vec![],
            special_csr_table: None,
            table_ids: ids(),
        },
        state: state(),
        decoded_mask_bits,
    }
}

#[test]
fn add_sub_lui_auipc_mop_translation_smoke_test() {
    let circuit_output = build_add_sub_lui_auipc_mop_circuit_output(synthesis(7));
    let program = circuit_output_to_picus_program(
        "add_sub_lui_auipc_mop".to_string(),
        &circuit_output,
        None,
        None,
    );
    assert!(program.modules.iter().any(|m| m.name == "add_sub_lui_auipc_mop"));
    assert_eq!(program.prime, CHARACTERISTICS);
}

#[test]
fn add_sub_lui_auipc_mop_one_hot_specialization_emits_one_module_per_bit() {
    let (circuit_output, input, decoded_bits) =
        build_add_sub_lui_auipc_mop_circuit_output_with_decoded_bits(synthesis(
            ADD_SUB_LUI_AUIPC_MOP_FAMILY_NUM_FLAGS,
        ));
    let program = circuit_output_to_picus_program(
        "add_sub_lui_auipc_mop".to_string(),
        &circuit_output,
        Some(&input),
        Some(decoded_bits.as_slice()),
    );
    let module_count = program.modules.len();
    assert_eq!(module_count, ADD_SUB_LUI_AUIPC_MOP_FAMILY_NUM_FLAGS);
}

#[test]
fn jump_branch_slt_one_hot_specialization_emits_one_module_per_bit() {
    let (circuit_output, input, decoded_bits) =
        build_jump_branch_slt_mop_circuit_output_with_decoded_bits(synthesis(4));
    let program = circuit_output_to_picus_program(
        "jump_branch_slt".to_string(),
        &circuit_output,
        Some(&input),
        Some(decoded_bits.as_slice()),
    );
    let names: Vec<&str> = program.modules.iter().map(|m| m.name.as_str()).collect();
    assert_eq!(
        names,
        ["jump_branch_slt_0", "jump_branch_slt_1", "jump_branch_slt_2", "jump_branch_slt_3"]
    );
}

#[test]
fn load_store_subword_only_one_hot_specialization_emits_one_module_per_bit() {
    let (circuit_output, input, decoded_bits) =
        build_load_store_subword_only_circuit_output_with_decoded_bits(synthesis(1));
    let program = circuit_output_to_picus_program(
        "load_store_subword_only".to_string(),
        &circuit_output,
        Some(&input),
        Some(decoded_bits.as_slice()),
    );
    assert_eq!(program.modules.len(), 2);
}

#[test]
fn family_programs_hold_one_module_per_bit() {
    let program = build_add_sub_lui_auipc_mop_picus_program(synthesis(3));
    assert_eq!(program.modules.len(), 3);
    assert_eq!(program.modules[2].name, "add_sub_lui_auipc_mop_2");
}

fn mentions(e: &PicusExpr, v: usize) -> bool {
    match e {
        PicusExpr::Const(_) => false,
        PicusExpr::Var(x) => *x == v,
        PicusExpr::Add(a, b) | PicusExpr::Sub(a, b) | PicusExpr::Mul(a, b) => {
            mentions(a, v) || mentions(b, v)
        }
    }
}

#[test]
fn specialized_modules_do_not_mention_the_bits() {
    let program = build_add_sub_lui_auipc_mop_picus_program(synthesis(3));
    for module in &program.modules {
        for constraint in &module.constraints {
            if let PicusConstraint::Eq(e) = constraint {
                for bit in 23..26 {
                    assert!(!mentions(e, bit));
                }
            }
        }
    }
}

#[test]
fn source_registers_are_inputs_only() {
    let output = synthesis(0).circuit_output;
    let program = circuit_output_to_picus_program("m".to_string(), &output, None, None);
    let module = &program.modules[0];
    for v in [17, 18, 19, 20, 21, 22] {
        assert!(module.inputs.contains(&PicusExpr::Var(v)));
    }
    assert_eq!(module.outputs, [PicusExpr::Var(17), PicusExpr::Var(18)]);
}

#[test]
fn load_store_lookup_handlers_emit_constraints() {
    let mk_row = |base: u64| {
        [
            LookupInput::Variable(Variable(base)),
            LookupInput::Variable(Variable(base + 1)),
            LookupInput::Variable(Variable(base + 2)),
        ]
    };

    let lookups = vec![
        LookupQuery {
            row: mk_row(0),
            table: LookupQueryTableType::Constant(TableType::AlignedRomRead),
        },
        LookupQuery {
            row: mk_row(10),
            table: LookupQueryTableType::Constant(TableType::MemoryLoadHalfwordOrByte),
        },
        LookupQuery {
            row: mk_row(20),
            table: LookupQueryTableType::Constant(TableType::MemStoreClearOriginalRamValueLimb),
        },
        LookupQuery {
            row: mk_row(30),
            table: LookupQueryTableType::Constant(TableType::RomAddressSpaceSeparator),
        },
        LookupQuery {
            row: mk_row(40),
            table: LookupQueryTableType::Constant(TableType::MemoryGetOffsetAndMaskWithTrap),
        },
    ];

    let mut module = PicusModule::new("load_store_lookup_handlers".to_owned());
    let mut next_fresh_var_id = 128;
    add_lookup_constraints(&mut module, &lookups, &mut next_fresh_var_id);
    assert!(!module.constraints.is_empty());
}

fn number(e: &PicusExpr, values: &[u64]) -> u64 {
    match e {
        PicusExpr::Const(c) => *c % CHARACTERISTICS,
        PicusExpr::Var(v) => values[*v],
        PicusExpr::Add(a, b) => (number(a, values) + number(b, values)) % CHARACTERISTICS,
        PicusExpr::Sub(a, b) => {
            (number(a, values) + CHARACTERISTICS - number(b, values)) % CHARACTERISTICS
        }
        PicusExpr::Mul(a, b) => number(a, values) * number(b, values) % CHARACTERISTICS,
    }
}

#[test]
fn terms_and_constraints_keep_their_value() {
    let term = Term::Expression {
        coeff: Mersenne31Field(3),
        inner: [Variable(0), Variable(1), Variable(1), Variable(0)],
        degree: 2,
    };
    assert_eq!(number(&term_to_picus_expr(&term), &[5, 7]), 105);
    let constant = Term::Constant(Mersenne31Field(CHARACTERISTICS + 4));
    assert_eq!(term_to_picus_expr(&constant), PicusExpr::Const(4));
    let constraint = Constraint {
        terms: vec![term, Term::Constant(Mersenne31Field(CHARACTERISTICS - 105))],
    };
    match constraint_to_picus_constraint(&constraint) {
        PicusConstraint::Eq(e) => {
            assert_eq!(number(&e, &[5, 7]), 0);
            assert_eq!(number(&e, &[5, 8]), 15);
        }
        other => panic!("unexpected constraint {other:?}"),
    }
}

#[test]
fn lookup_inputs_keep_their_values() {
    let input = LookupInput::Expression {
        linear_terms: vec![(Mersenne31Field(2), Variable(0)), (Mersenne31Field(1), Variable(1))],
        constant_coeff: Mersenne31Field(10),
    };
    assert_eq!(number(&lookup_input_to_picus_expr(&input), &[3, 4]), 20);
    let not = boolean_to_picus_expr(Boolean::Not(Variable(0)));
    assert_eq!(number(&not, &[1]), 0);
    assert_eq!(number(&not, &[0]), 1);
}

#[test]
fn fresh_variables_are_numbered() {
    let mut next = 9;
    assert_eq!(fresh_picus_var_expr(&mut next), PicusExpr::Var(9));
    assert_eq!(next, 10);
}

fn holds(c: &PicusConstraint, values: &[u64]) -> bool {
    match c {
        PicusConstraint::Lt(a, b) => number(a, values) < number(b, values),
        PicusConstraint::Leq(a, b) => number(a, values) <= number(b, values),
        PicusConstraint::Eq(e) => number(e, values) == 0,
        PicusConstraint::Det(_) => true,
        PicusConstraint::And(a, b) => holds(a, values) && holds(b, values),
        PicusConstraint::Implies(a, b) => !holds(a, values) || holds(b, values),
    }
}

/// Whether the constraints of one cleanup row can be met with some auxiliary values.
fn cleanup_row_holds(row: [u64; 3]) -> bool {
    let lookups = vec![LookupQuery {
        row: [
            LookupInput::Variable(Variable(0)),
            LookupInput::Variable(Variable(1)),
            LookupInput::Variable(Variable(2)),
        ],
        table: LookupQueryTableType::Constant(TableType::JumpCleanupOffset),
    }];
    let mut module = PicusModule::new("cleanup".to_owned());
    let mut next = 3;
    add_lookup_constraints(&mut module, &lookups, &mut next);
    let fresh = next - 3;
    let mut candidates: Vec<Vec<u64>> = vec![row.to_vec()];
    for _ in 0..fresh {
        candidates = candidates
            .iter()
            .flat_map(|c| (0..16).map(move |x| [c.as_slice(), &[x]].concat()))
            .collect();
    }
    candidates.iter().any(|values| module.constraints.iter().all(|c| holds(c, values)))
}

#[test]
fn cleanup_constraints_describe_the_table() {
    assert!(cleanup_row_holds([7, 1, 4]));
    assert!(cleanup_row_holds([4, 0, 4]));
    assert!(!cleanup_row_holds([7, 0, 4]));
    assert!(!cleanup_row_holds([7, 1, 0]));
}

#[test]
fn variable_tables_and_other_tables_add_nothing_to_plain_lookups() {
    let row = || {
        [
            LookupInput::Variable(Variable(0)),
            LookupInput::Variable(Variable(1)),
            LookupInput::Variable(Variable(2)),
        ]
    };
    let mut module = PicusModule::new("m".to_owned());
    let mut next = 3;
    let lookups =
        vec![LookupQuery { row: row(), table: LookupQueryTableType::Variable(Variable(0)) }];
    add_lookup_constraints(&mut module, &lookups, &mut next);
    assert!(module.constraints.is_empty());
    assert_eq!(next, 3);
}

#[test]
fn flags_of_disjunctive_lookups_are_exclusive() {
    let case = |flag: u64, first: u64| DisjunctiveLookupCase {
        flag: Boolean::Is(Variable(flag)),
        row: [
            LookupInput::Variable(Variable(first)),
            LookupInput::Variable(Variable(first + 1)),
            LookupInput::Variable(Variable(first + 2)),
        ],
        table: Num::Constant(Mersenne31Field(99)),
    };
    let relation = DisjunctiveLookup { relation_index: 0, cases: vec![case(0, 2), case(1, 5)] };
    let mut module = PicusModule::new("m".to_owned());
    let mut next = 8;
    add_disjunctive_lookup_constraints(&mut module, &vec![relation], &ids(), &mut next);
    let all = |flags: [u64; 2]| {
        let values = [flags[0], flags[1], 0, 0, 0, 0, 0, 0];
        module.constraints.iter().all(|c| holds(c, &values))
            && module.postconditions.iter().all(|c| holds(c, &values))
    };
    assert!(all([0, 0]));
    assert!(all([1, 0]));
    assert!(all([0, 1]));
    assert!(!all([2, 0]));
}

#[test]
fn some_tables_hold_the_zero_row() {
    assert!(table_supports_zero_row_multiply_in(TableType::MemoryLoadHalfwordOrByte));
    assert!(!table_supports_zero_row_multiply_in(TableType::ConditionalJmpBranchSlt));
}

#[test]
fn partial_evaluation_fixes_variables() {
    let e = PicusExpr::Var(0).plus(PicusExpr::Var(1).times(PicusExpr::Const(2)));
    let fixed = e.partial_eval(&vec![(1, 5)]);
    assert!(!mentions(&fixed, 1));
    assert_eq!(number(&fixed, &[3, 0]), 13);
    let bit = PicusConstraint::new_bit(PicusExpr::Var(0));
    assert!(holds(&bit, &[0]) && holds(&bit, &[1]) && !holds(&bit, &[2]));
    let below = PicusConstraint::new_lt(PicusExpr::Var(0), 4);
    assert!(holds(&below, &[3]) && !holds(&below, &[4]));
}

#[test]
fn module_constraints_hold_where_the_circuit_does() {
    let circuit_output = build_add_sub_lui_auipc_mop_circuit_output(synthesis(2));
    let program = circuit_output_to_picus_program("c".to_string(), &circuit_output, None, None);
    let module = &program.modules[0];
    let all = |values: &[u64]| module.constraints.iter().all(|c| holds(c, values));
    let mut values = vec![0u64; 25];
    assert!(all(&values));
    // Neither bit is set, so variable 17 is free in its range.
    values[17] = 0xffff;
    assert!(all(&values));
    values[17] = 0x1_0000;
    assert!(!all(&values));
    // A set bit guards that variable 17 is zero.
    values[17] = 5;
    values[23] = 1;
    assert!(!all(&values));
    values[17] = 0;
    assert!(all(&values));
    values[24] = 2;
    assert!(!all(&values));
}
