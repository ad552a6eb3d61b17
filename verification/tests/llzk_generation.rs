use std::collections::HashMap;

use airbender_analysis::circuit::{
    CircuitOutput, Constraint, DecoderData, LookupInput, LookupQuery,
    LookupQueryTableType, MachineCycleState, Mersenne31Field, OpcodeFamilyCircuitState,
    PicusExtractionMetadata, Placeholder, RangeCheckQuery, ShuffleRamMemQuery,
    ShuffleRamQueryType, Substitution, TableIds, TableType, Term, Variable, CHARACTERISTICS,
};
use airbender_analysis::llzk::aliases::merge_llzk_placeholder_aliases;
use airbender_analysis::llzk::builder::LlzkError;
use airbender_analysis::llzk::codegen::CircuitBundle;
use airbender_analysis::llzk::config::{
    bytecode_size, destination, optimizer_pipeline, CircuitFamily, Destination,
    LlzkStructLayout, OptLevel, OutputFormat, Pass,
};
use airbender_analysis::llzk::extract::{
    shuffle_write_value_is_input, sort_and_dedup, uses_legacy_query2_write_input,
    ExtractedVariable, VariableExtractor,
};
use airbender_analysis::llzk::generate::{
    can_generate, gen_jump_branch_slt, generate_circuit_command, CircuitSynthesis,
};
use airbender_analysis::llzk::ir::{Comparison, ConstType, FeltBinary, FeltUnary, Op, ValueRef};
use airbender_analysis::llzk::module::{FunctionBody, ModuleEnv};
use airbender_analysis::llzk::names::NameState;
use airbender_analysis::llzk::ssa::{
    ColumnAddress, Expression, FieldNodeExpression, RawExpression, TableIndex,
};

const P: u64 = CHARACTERISTICS;

fn pair(first: u64) -> [Variable; 2] {
    [Variable(first), Variable(first + 1)]
}

fn ids() -> TableIds {
    TableIds {
        conditional_jmp_branch_slt: 1,
        jump_cleanup_offset: 2,
        memory_get_offset_and_mask_with_trap: 3,
        rom_address_space_separator: 4,
        memory_load_halfword_or_byte: 5,
        mem_store_clear_original_ram_value_limb: 6,
        mem_store_clear_written_value_limb: 7,
        aligned_rom_read: 8,
    }
}

fn state() -> OpcodeFamilyCircuitState {
    OpcodeFamilyCircuitState {
        execute: Variable(0),
        cycle_start_state: MachineCycleState { pc: pair(1), timestamp: pair(3) },
        cycle_end_state: MachineCycleState { pc: pair(5), timestamp: pair(7) },
        decoder_data: DecoderData {
            rs1_index: Variable(9),
            rs2_index: Variable(10),
            rd_index: Variable(11),
            rd_is_zero: Variable(12),
            imm: pair(13),
            funct3: Variable(15),
            funct7: None,
            circuit_family_extra_mask: Variable(16),
        },
    }
}

fn query(timestamp: usize, index: u64, read: u64, write: u64) -> ShuffleRamMemQuery {
    ShuffleRamMemQuery {
        query_type: ShuffleRamQueryType::RegisterOnly { register_index: Variable(index) },
        local_timestamp_in_cycle: timestamp,
        read_value: pair(read),
        write_value: pair(write),
    }
}

/// A circuit whose last variable is a sum, with that sum as its witness program.
fn synthesis() -> CircuitSynthesis {
    let sum = Variable(25);
    let plus = |v: Variable, c: u64| Term::Expression {
        coeff: Mersenne31Field(c),
        inner: [v, Variable(0), Variable(0), Variable(0)],
        degree: 1,
    };
    let constraint = Constraint {
        terms: vec![
            plus(Variable(17), 1),
            plus(Variable(19), 1),
            plus(sum, 0x7fff_fffe),
        ],
    };
    let mut variable_mapping = HashMap::new();
    variable_mapping.insert(sum.0, ColumnAddress::WitnessSubtree(0));
    CircuitSynthesis {
        circuit_output: CircuitOutput {
            num_of_variables: 26,
            constraints: vec![(constraint, false)],
            lookups: vec![LookupQuery {
                row: [
                    LookupInput::Variable(Variable(17)),
                    LookupInput::Variable(Variable(18)),
                    LookupInput::Variable(Variable(19)),
                ],
                table: LookupQueryTableType::Constant(TableType::JumpCleanupOffset),
            }],
            boolean_vars: vec![Variable(12)],
            range_check_expressions: vec![RangeCheckQuery::new(sum, 16)],
            shuffle_ram_queries: vec![
                query(0, 9, 17, 17),
                query(1, 10, 19, 19),
                query(2, 11, 21, 23),
            ],
            executor_machine_state: Some(state()),
            picus_extraction_metadata: PicusExtractionMetadata { disjunctive_lookups: vec![] },
            substitutions: vec![],
            special_csr_table: None,
            table_ids: ids(),
        },
        variable_mapping,
        lookup_tables: vec![],
        ssa: vec![vec![
            RawExpression::Field(FieldNodeExpression::Add {
                lhs: Box::new(FieldNodeExpression::Place(Variable(17))),
                rhs: Box::new(FieldNodeExpression::Place(Variable(19))),
            }),
            RawExpression::WriteVariable {
                into_variable: sum,
                source_subexpr: Expression::Field(FieldNodeExpression::SubExpression(0)),
                condition_subexpr_idx: None,
            },
        ]],
    }
}

fn count(ops: &[Op], name: &str) -> usize {
    ops.iter().filter(|op| op.mnemonic() == name).count()
}

#[test]
fn circuits_are_generated_with_both_functions() {
    let layout = LlzkStructLayout::ComputeConstrain;
    assert!(can_generate("jump_branch_slt", layout, &synthesis()));
    let generated = gen_jump_branch_slt(
        "out",
        OutputFormat::Llzk,
        OptLevel::O1,
        layout,
        synthesis(),
    )
    .unwrap();
    assert_eq!(generated.module.structs.len(), 1);
    let def = &generated.module.structs[0];
    assert_eq!(def.name, "jump_branch_slt");
    assert!(count(&def.compute.ops, "felt.add") >= 1);
    assert!(count(&def.compute.ops, "struct.writem") >= 1);
    assert!(count(&def.constrain.ops, "constrain.eq") >= 3);
    assert_eq!(
        generated.passes,
        [Pass::CommonSubexpressionElimination, Pass::Canonicalizer]
    );
    assert!(matches!(
        generated.destination,
        Destination::Directory(d, f) if d == "out" && f == "jump_branch_slt.llzk"
    ));
}

#[test]
fn layouts_leave_functions_empty() {
    let constrain_only = generate_circuit_command(
        "c",
        "-",
        OutputFormat::Pcl,
        OptLevel::O0,
        LlzkStructLayout::ConstrainOnly,
        synthesis(),
    )
    .unwrap();
    assert!(constrain_only.module.structs[0].compute.ops.is_empty());
    assert!(constrain_only.module.functions.is_empty());
    assert_eq!(constrain_only.passes, [Pass::ArrayToScalar, Pass::PclLowering]);
    assert!(matches!(constrain_only.destination, Destination::Stdout));
    let compute_only = generate_circuit_command(
        "c",
        "x.llzk",
        OutputFormat::Llzk,
        OptLevel::O0,
        LlzkStructLayout::ComputeOnly,
        synthesis(),
    )
    .unwrap();
    assert!(compute_only.module.structs[0].constrain.ops.is_empty());
}

#[test]
fn unsupported_circuits_are_told_apart() {
    let layout = LlzkStructLayout::ComputeConstrain;
    assert!(!can_generate("c", LlzkStructLayout::Product, &synthesis()));

    let mut wide = synthesis();
    wide.circuit_output.range_check_expressions[0].width = 64;
    assert!(!can_generate("c", layout, &wide));

    let mut other = synthesis();
    other.circuit_output.lookups[0].table = LookupQueryTableType::Constant(TableType::Other(3));
    assert!(!can_generate("c", layout, &other));
    assert!(can_generate("c", LlzkStructLayout::ComputeOnly, &other));

    let mut uncovered = synthesis();
    uncovered.circuit_output.num_of_variables = 10;
    assert!(!can_generate("c", layout, &uncovered));

    let mut unplaced = synthesis();
    unplaced.ssa[0][1] = RawExpression::WriteVariable {
        into_variable: Variable(500),
        source_subexpr: Expression::Field(FieldNodeExpression::SubExpression(0)),
        condition_subexpr_idx: None,
    };
    assert!(!can_generate("c", layout, &unplaced));
    assert!(can_generate("c", LlzkStructLayout::ConstrainOnly, &unplaced));
}

/// The values that an operation uses.
fn operands(op: &Op) -> Vec<ValueRef> {
    match op {
        Op::FeltBinary(_, a, b)
        | Op::Compare(_, a, b)
        | Op::CompareInt(a, b)
        | Op::BoolBinary(_, a, b)
        | Op::ArrayRead(a, b)
        | Op::MemberWrite(a, _, b)
        | Op::ConstrainEq(a, b) => vec![*a, *b],
        Op::FeltUnary(_, a) | Op::BoolNot(a) | Op::MemberRead(a, _, _) => vec![*a],
        Op::Select(a, b, c) | Op::ArrayWrite(a, b, c) => vec![*a, *b, *c],
        Op::Call(_, args, _) => args.clone(),
        Op::Nondet(_) => vec![],
    }
}

fn uses_defined_values(body: &FunctionBody, constructs: bool) -> bool {
    body.ops.iter().enumerate().all(|(n, op)| {
        operands(op).iter().all(|r| match r {
            ValueRef::Arg(i) => *i < body.arguments.len(),
            ValueRef::SelfStruct => constructs,
            ValueRef::Const(ty, c) => {
                body.prologue.iter().filter(|x| **x == (*ty, *c)).count() == 1
            }
            ValueRef::Op(i, _) => *i < n,
        })
    })
}

#[test]
fn emitted_functions_define_their_constants() {
    let generated = gen_jump_branch_slt(
        "out",
        OutputFormat::Llzk,
        OptLevel::O0,
        LlzkStructLayout::ComputeConstrain,
        synthesis(),
    )
    .unwrap();
    let def = &generated.module.structs[0];
    assert!(uses_defined_values(&def.compute, true));
    assert!(uses_defined_values(&def.constrain, false));
    assert_eq!(
        def.constrain.prologue[..4],
        [
            (ConstType::Index, 1),
            (ConstType::Index, 0),
            (ConstType::Felt, 1),
            (ConstType::Felt, 0),
        ]
    );
    // The bounds of the range check and of the cleanup row, and the weights of its parts.
    for c in [1 << 16, 1 << 14, 2, 4] {
        assert!(def.constrain.prologue.contains(&(ConstType::Felt, c)));
    }
    assert!(def.compute.prologue.contains(&(ConstType::Index, 0)));
}

#[test]
fn circuits_without_a_state_are_refused() {
    let mut stateless = synthesis();
    stateless.circuit_output.executor_machine_state = None;
    let layout = LlzkStructLayout::ComputeConstrain;
    assert!(can_generate("c", layout, &stateless));
    let r = generate_circuit_command(
        "c",
        "-",
        OutputFormat::Llzk,
        OptLevel::O0,
        layout,
        stateless,
    );
    assert_eq!(r.err(), Some(LlzkError::MissingExecutorState));
}

#[test]
fn only_the_compute_only_layout_goes_without_a_witness() {
    let bundle = |layout| CircuitBundle::new("c", layout, synthesis().circuit_output, None);
    assert!(matches!(
        bundle(LlzkStructLayout::ConstrainOnly),
        Err(LlzkError::MissingWitness)
    ));
    let compute_only = bundle(LlzkStructLayout::ComputeOnly).ok().unwrap();
    assert_eq!(compute_only.name(), "c");
    assert_eq!(compute_only.covers_every_variable(), Ok(true));
    let mut env = ModuleEnv::new();
    assert_eq!(compute_only.emit_llzk(&mut env), Err(LlzkError::MissingWitness));
    assert!(env.structs.is_empty());
}

#[test]
fn every_variable_has_one_place() {
    let bundle = CircuitBundle::new(
        "jump_branch_slt",
        LlzkStructLayout::ComputeOnly,
        synthesis().circuit_output,
        None,
    )
    .ok()
    .unwrap();
    let inputs = bundle.get_inputs().unwrap();
    let outputs = bundle.get_outputs().unwrap();
    let intermediates = bundle.get_intermediates().unwrap();
    for v in 0..26 {
        let places = inputs
            .iter()
            .chain(&outputs)
            .chain(&intermediates)
            .filter(|x| x.contains(&Variable(v)))
            .count();
        assert_eq!(places, 1);
    }
    assert!(outputs.contains(&ExtractedVariable::register(pair(5))));
    assert_eq!(intermediates, [ExtractedVariable::scalar(Variable(25))]);
    assert!(state().get_intermediates().unwrap().is_empty());
    assert_eq!(synthesis().circuit_output.get_inputs().unwrap(), inputs);
}

#[test]
fn missing_steps_are_refused() {
    let mut broken = synthesis();
    broken.ssa[0][1] = RawExpression::WriteVariable {
        into_variable: Variable(25),
        source_subexpr: Expression::Field(FieldNodeExpression::SubExpression(9)),
        condition_subexpr_idx: None,
    };
    let r = generate_circuit_command(
        "c",
        "-",
        OutputFormat::Llzk,
        OptLevel::O0,
        LlzkStructLayout::ComputeOnly,
        broken,
    );
    assert_eq!(r.err(), Some(LlzkError::SlotOutOfBounds));
}

#[test]
fn substitutions_come_before_aliases() {
    let mut output = synthesis().circuit_output;
    output.substitutions.push(Substitution {
        placeholder: Placeholder::FirstRegMem,
        subindex: 0,
        variable: Variable(99),
    });
    let merged = merge_llzk_placeholder_aliases(&output);
    let find = |p: Placeholder, i: usize| {
        merged.iter().find(|s| s.placeholder == p && s.subindex == i).map(|s| s.variable)
    };
    assert_eq!(find(Placeholder::FirstRegMem, 0), Some(Variable(99)));
    assert_eq!(find(Placeholder::FirstRegMem, 1), Some(Variable(18)));
    assert_eq!(find(Placeholder::SecondRegMem, 0), Some(Variable(19)));
}

#[test]
fn destinations_follow_the_output() {
    assert!(matches!(destination("-", OutputFormat::Llzk, "c"), Destination::Stdout));
    assert!(matches!(
        destination("a/b.pcl", OutputFormat::Llzk, "c"),
        Destination::File(f) if f == "a/b.pcl"
    ));
    assert!(matches!(
        destination("a", OutputFormat::PclMlir, "c"),
        Destination::Directory(d, f) if d == "a" && f == "c.mlir"
    ));
    assert_eq!(OutputFormat::PclMlir.label(), "pcl-mlir");
}

#[test]
fn pipelines_clean_up_before_they_convert() {
    assert!(optimizer_pipeline(OutputFormat::Llzk, OptLevel::O0).is_empty());
    assert_eq!(
        optimizer_pipeline(OutputFormat::Pcl, OptLevel::O2),
        [
            Pass::Canonicalizer,
            Pass::RedundantReadAndWriteElimination,
            Pass::CommonSubexpressionElimination,
            Pass::Canonicalizer,
            Pass::ArrayToScalar,
            Pass::PclLowering,
        ]
    );
    assert_eq!(bytecode_size(6), (1 << 22) / 4);
    assert_eq!(CircuitFamily::JumpBranchSlt.name(), "jump_branch_slt");
}

#[test]
fn names_are_kept_and_differ() {
    let mut names = NameState::new();
    let first = names.get(10, "x");
    let second = names.get(11, "x");
    assert_ne!(first, second);
    assert_eq!(names.get(10, "x"), first);
}

#[test]
fn extracted_variables_are_sorted() {
    let list = vec![
        ExtractedVariable::scalar(Variable(5)),
        ExtractedVariable::register(pair(1)),
        ExtractedVariable::scalar(Variable(5)),
    ];
    let sorted = sort_and_dedup(&list);
    assert_eq!(sorted.len(), 2);
    assert!(sorted.contains(&ExtractedVariable::register(pair(1))));
    assert!(!shuffle_write_value_is_input(2, false));
    assert!(shuffle_write_value_is_input(2, true));
    assert!(!uses_legacy_query2_write_input("jump_branch_slt"));
    assert!(uses_legacy_query2_write_input("unified_reduced_machine"));
}

/// The values of the limbs of an extracted variable.
fn limbs(x: &ExtractedVariable, values: &[u64]) -> Vec<u64> {
    match x {
        ExtractedVariable::Register { low, high } => {
            vec![values[low.0 as usize], values[high.0 as usize]]
        }
        ExtractedVariable::Scalar(v) => vec![values[v.0 as usize]],
    }
}

/// Whether the constrain function of the sample circuit holds for values of its variables and of
/// the two values that it introduces.
fn constrain_holds(values: &[u64], mut introduced: Vec<u64>) -> bool {
    let generated = gen_jump_branch_slt(
        "out",
        OutputFormat::Llzk,
        OptLevel::O0,
        LlzkStructLayout::ComputeConstrain,
        synthesis(),
    )
    .unwrap();
    let def = &generated.module.structs[0];
    let circuit = synthesis().circuit_output;
    let mut args: Vec<Vec<u64>> = vec![vec![]];
    args.extend(circuit.get_inputs().unwrap().iter().map(|x| limbs(x, values)));
    let mut members: HashMap<String, Vec<u64>> = HashMap::new();
    let places = [circuit.get_outputs().unwrap(), circuit.get_intermediates().unwrap()].concat();
    assert_eq!(places.len(), def.members.len());
    for (x, member) in places.iter().zip(&def.members) {
        members.insert(member.name.clone(), limbs(x, values));
    }
    let mut results: Vec<Vec<u64>> = vec![];
    for op in &def.constrain.ops {
        let whole = |r: &ValueRef| -> Vec<u64> {
            match r {
                ValueRef::Arg(i) => args[*i].clone(),
                ValueRef::Const(ConstType::Felt, c) => vec![*c % P],
                ValueRef::Const(_, c) => vec![*c],
                ValueRef::Op(i, _) => results[*i].clone(),
                ValueRef::SelfStruct => vec![],
            }
        };
        let get = |r: &ValueRef| -> u64 { whole(r)[0] };
        let result = match op {
            Op::FeltBinary(FeltBinary::Add, a, b) => vec![(get(a) + get(b)) % P],
            Op::FeltBinary(FeltBinary::Sub, a, b) => vec![(get(a) + P - get(b)) % P],
            Op::FeltBinary(FeltBinary::Mul, a, b) => vec![get(a) * get(b) % P],
            Op::FeltUnary(FeltUnary::Neg, a) => vec![(P - get(a)) % P],
            Op::Compare(Comparison::Lt, a, b) => vec![(get(a) < get(b)) as u64],
            Op::ArrayRead(a, i) => vec![whole(a)[get(i) as usize]],
            Op::Nondet(_) => vec![introduced.remove(0)],
            Op::MemberRead(_, name, _) => members[name].clone(),
            Op::ConstrainEq(a, b) => {
                if get(a) != get(b) {
                    return false;
                }
                vec![]
            }
            other => panic!("unexpected operation {other:?}"),
        };
        results.push(result);
    }
    true
}

#[test]
fn constrain_functions_hold_where_the_circuit_does() {
    let mut values = vec![0u64; 26];
    // 7 = 4 + 2 * 1 + 1, and the sum of the first and the last column is 11.
    values[17] = 7;
    values[18] = 1;
    values[19] = 4;
    values[25] = 11;
    assert!(constrain_holds(&values, vec![1, 1]));
    assert!(!constrain_holds(&values, vec![0, 1]));
    let any = |values: &[u64]| {
        (0..4).any(|bit| (0..4).any(|quotient| constrain_holds(values, vec![bit, quotient])))
    };
    assert!(any(&values));
    for (variable, wrong) in [(17, 6), (18, 0), (19, 0), (25, 12), (12, 2)] {
        let mut changed = values.clone();
        changed[variable] = wrong;
        assert!(!any(&changed));
    }
    values[17] = 0x1_0000;
    values[18] = 0;
    values[19] = 0xfffc;
    values[25] = 0x1_fffc;
    assert!(!any(&values));
}

/// The members that the compute function of a circuit fills from values of its inputs.
fn computed_members(sample: CircuitSynthesis, values: &[u64]) -> HashMap<String, u64> {
    let mut args: Vec<Vec<u64>> = vec![];
    args.extend(sample.circuit_output.get_inputs().unwrap().iter().map(|x| limbs(x, values)));
    let generated = gen_jump_branch_slt(
        "out",
        OutputFormat::Llzk,
        OptLevel::O0,
        LlzkStructLayout::ComputeOnly,
        sample,
    )
    .unwrap();
    let mut members: HashMap<String, u64> = HashMap::new();
    let mut results: Vec<u64> = vec![];
    for op in &generated.module.structs[0].compute.ops {
        let get = |r: &ValueRef| -> u64 {
            match r {
                ValueRef::Arg(i) => args[*i][0],
                ValueRef::Const(ConstType::Felt, c) => *c % P,
                ValueRef::Const(_, c) => *c,
                ValueRef::Op(i, _) => results[*i],
                ValueRef::SelfStruct => 0,
            }
        };
        let result = match op {
            Op::FeltBinary(FeltBinary::Add, a, b) => (get(a) + get(b)) % P,
            Op::FeltBinary(FeltBinary::Sub, a, b) => (get(a) + P - get(b)) % P,
            Op::FeltBinary(FeltBinary::BitAnd, a, b) => get(a) & get(b),
            Op::FeltBinary(FeltBinary::Umod, a, b) => get(a) % get(b),
            Op::FeltBinary(FeltBinary::Shr, a, b) => get(a) >> get(b),
            Op::ArrayRead(ValueRef::Arg(a), i) => args[*a][get(i) as usize],
            Op::MemberWrite(_, name, value) => {
                members.insert(name.clone(), get(value));
                0
            }
            other => panic!("unexpected operation {other:?}"),
        };
        results.push(result);
    }
    members
}

#[test]
fn compute_functions_fill_the_members() {
    let mut values = vec![0u64; 26];
    values[17] = P - 1;
    values[19] = 8;
    let members = computed_members(synthesis(), &values);
    assert_eq!(members.get("internal_var_25"), Some(&7));
    assert_eq!(members.len(), 1);
}

#[test]
fn lookup_outputs_are_computed_from_their_table() {
    let mut sample = synthesis();
    sample.lookup_tables = vec![TableIndex::Constant(TableType::JumpCleanupOffset)];
    sample.ssa = vec![vec![
        RawExpression::Field(FieldNodeExpression::Place(Variable(17))),
        RawExpression::Field(FieldNodeExpression::Constant(Mersenne31Field(2))),
        RawExpression::PerformLookup {
            input_subexpr_idxes: vec![0],
            table_id_subexpr_idx: 1,
            num_outputs: 2,
            lookup_mapping_idx: 0,
        },
        RawExpression::AccessLookup { subindex: 2, output_index: 1 },
        RawExpression::WriteVariable {
            into_variable: Variable(25),
            source_subexpr: Expression::Field(FieldNodeExpression::SubExpression(3)),
            condition_subexpr_idx: None,
        },
    ]];
    let mut values = vec![0u64; 26];
    values[17] = 0x1237;
    let members = computed_members(sample, &values);
    assert_eq!(members.get("internal_var_25"), Some(&0x1234));
}
