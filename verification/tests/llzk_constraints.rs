use std::collections::HashMap;

use airbender_analysis::circuit::{
    Boolean, Constraint, LookupInput, Mersenne31Field, Placeholder, RangeCheckQuery,
    ShuffleRamMemQuery, ShuffleRamQueryType, Substitution, Term, Variable, CHARACTERISTICS,
};
use airbender_analysis::llzk::aliases::derive_shuffle_ram_placeholder_aliases;
use airbender_analysis::llzk::builder::{FunctionKind, LlzkError, OpsBuilder};
use airbender_analysis::llzk::ir::{
    BoolBinary, Comparison, ConstType, FeltBinary, FeltUnary, Op, ValueRef, ValueType,
};
use airbender_analysis::llzk::module::{FunctionBody, ModuleEnv};
use airbender_analysis::llzk::oracle::{encode_oracle_placeholder, EncodedOraclePlaceholder};
use airbender_analysis::llzk::vars::{ArgSlot, MemberSlot, StructBuilder, StructVars};

fn field(value: u64) -> Mersenne31Field {
    Mersenne31Field(value)
}

/// A constrain body with one argument for each input variable, after the struct.
fn constrain_body(
    inputs: &[Variable],
    members: &[(Variable, &str)],
) -> (OpsBuilder, StructVars) {
    let mut args = vec![ValueType::Struct];
    let mut arg_map = HashMap::new();
    for (arg, var) in inputs.iter().enumerate() {
        args.push(ValueType::Felt);
        arg_map.insert(var.0, ArgSlot { arg, limb: None });
    }
    let mut member_map = HashMap::new();
    for (var, name) in members {
        member_map.insert(var.0, MemberSlot { name: name.to_string(), limb: None });
    }
    (
        OpsBuilder::new(FunctionKind::Constrain, args),
        StructVars::from_maps(member_map, arg_map, None),
    )
}

fn mnemonics(builder: &OpsBuilder) -> Vec<&'static str> {
    builder.ops().iter().map(|op| op.mnemonic()).collect()
}

#[test]
fn boolean_not_on_input_emits_sub_from_one() {
    let input = Variable(7);
    let (mut ops, vars) = constrain_body(&[input], &[]);
    let _ = Boolean::Not(input).emit_constrain(&mut ops, &vars).unwrap();

    assert!(mnemonics(&ops).contains(&"felt.sub"));
    assert_eq!(
        *ops.ops(),
        vec![Op::FeltBinary(
            FeltBinary::Sub,
            ValueRef::Const(ConstType::Felt, 1),
            ValueRef::Arg(1)
        )]
    );
}

#[test]
fn term_with_negative_unit_coefficient_emits_neg() {
    let input = Variable(7);
    let neg_one = field(CHARACTERISTICS - 1);
    let term = Term::Expression {
        coeff: neg_one,
        inner: [input, Variable(0), Variable(0), Variable(0)],
        degree: 1,
    };
    let (mut ops, vars) = constrain_body(&[input], &[]);
    let _ = term.emit_constrain(&mut ops, &vars).unwrap();

    assert!(mnemonics(&ops).contains(&"felt.neg"));
}

#[test]
fn lookup_expression_emits_mul_and_add_chain() {
    let lhs = Variable(7);
    let rhs = Variable(8);
    let input = LookupInput::Expression {
        linear_terms: vec![(field(3), lhs), (field(4), rhs)],
        constant_coeff: field(5),
    };
    let (mut ops, vars) = constrain_body(&[lhs, rhs], &[]);
    let _ = input.emit_constrain(&mut ops, &vars).unwrap();

    let names = mnemonics(&ops);
    assert!(names.iter().filter(|n| **n == "felt.mul").count() >= 2);
    assert!(names.iter().filter(|n| **n == "felt.add").count() >= 2);
    assert!(ops.prologue().contains(&(ConstType::Felt, 3)));
    assert!(ops.prologue().contains(&(ConstType::Felt, 4)));
    assert!(ops.prologue().contains(&(ConstType::Felt, 5)));
}

#[test]
fn constrain_access_reads_member_when_variable_is_not_input() {
    let member = Variable(42);
    let (mut ops, vars) = constrain_body(&[], &[(member, "stored_member")]);
    let _ = Boolean::Is(member).emit_constrain(&mut ops, &vars).unwrap();

    assert_eq!(
        *ops.ops(),
        vec![Op::MemberRead(ValueRef::Arg(0), "stored_member".to_string(), ValueType::Felt)]
    );
}

#[test]
fn range_check_query_emits_compare_and_constraint() {
    let input = Variable(7);
    let query = RangeCheckQuery::new(input, 8);
    let (mut ops, vars) = constrain_body(&[input], &[]);
    query.emit_constrain(&mut ops, &vars).unwrap();

    let names = mnemonics(&ops);
    assert!(names.contains(&"bool.cmp lt"));
    assert!(names.contains(&"constrain.eq"));
    assert!(ops.prologue().contains(&(ConstType::Felt, 256)));
}

#[test]
fn unknown_variables_are_refused() {
    let (mut ops, vars) = constrain_body(&[Variable(1)], &[]);
    let r = Boolean::Is(Variable(2)).emit_constrain(&mut ops, &vars);
    assert!(matches!(r, Err(LlzkError::NotInConstrain)));
}

#[test]
fn a_constraint_is_one_equation() {
    let x = Variable(1);
    let y = Variable(2);
    let constraint = Constraint {
        terms: vec![
            Term::Expression { coeff: field(1), inner: [x, y, x, x], degree: 2 },
            Term::Constant(field(9)),
        ],
    };
    let (mut ops, vars) = constrain_body(&[x, y], &[]);
    constraint.emit_constrain(&mut ops, &vars).unwrap();
    let names = mnemonics(&ops);
    assert_eq!(names.iter().filter(|n| **n == "constrain.eq").count(), 1);
    assert_eq!(*names.last().unwrap(), "constrain.eq");
}

#[test]
fn constants_are_declared_once() {
    let mut ops = OpsBuilder::new(FunctionKind::Constrain, vec![ValueType::Struct]);
    let a = ops.get_felt_constant_from_start(5);
    let b = ops.get_felt_constant_from_start(5);
    assert!(a.id == b.id);
    assert_eq!(ops.prologue().len(), 1);
    assert!(ops.insert_constant_at_start(ConstType::Index, u64::MAX).is_err());
}

#[test]
fn one_hot_vectors_are_reconstructed() {
    let mut ops = OpsBuilder::new(FunctionKind::Constrain, vec![ValueType::Struct]);
    let bits = ops.append_one_hot(3).unwrap();
    assert_eq!(bits.len(), 3);
    assert!(ops.append_one_hot_reconstruction(&bits).is_ok());
    assert!(matches!(ops.append_one_hot(0), Err(LlzkError::EmptyFold)));
    assert!(matches!(ops.append_sum(&vec![]), Err(LlzkError::EmptyFold)));
}

#[test]
fn arguments_and_the_struct_are_found_by_function() {
    let compute = OpsBuilder::new(FunctionKind::Compute, vec![ValueType::Felt]);
    assert!(compute.get_compute_self_value().is_ok());
    assert!(matches!(compute.get_arg_value(1), Err(LlzkError::ArgumentOutOfRange)));
    let constrain = OpsBuilder::new(FunctionKind::Constrain, vec![ValueType::Struct]);
    assert!(matches!(constrain.get_compute_self_value(), Err(LlzkError::NotACompute)));
}

#[test]
fn operations_have_names() {
    let a = ValueRef::Arg(0);
    assert_eq!(Op::FeltUnary(FeltUnary::Inv, a).mnemonic(), "felt.inv");
    assert_eq!(Op::Compare(Comparison::Ge, a, a).mnemonic(), "bool.cmp ge");
    assert_eq!(Op::BoolBinary(BoolBinary::Or, a, a).mnemonic(), "bool.or");
    assert_eq!(Op::Call("f".to_string(), vec![], 0).mnemonic(), "function.call");
}

fn empty_body() -> FunctionBody {
    FunctionBody { arguments: vec![], prologue: vec![], ops: vec![] }
}

#[test]
fn module_contains_top_level_function_ignores_nested_struct_functions() {
    let mut env = ModuleEnv::new();
    let builder = StructBuilder::new("nested_fns_only");
    builder.build_in_module(&mut env, empty_body(), empty_body());

    assert!(!env.module_contains_top_level_function("compute"));
    assert!(!env.module_contains_top_level_function("constrain"));

    env.declare_private_extern_function("top_level_hook", vec![], vec![]);
    assert!(env.module_contains_top_level_function("top_level_hook"));
}

#[test]
fn declare_private_extern_function_is_idempotent() {
    let mut env = ModuleEnv::new();
    let felt = ValueType::Felt;
    env.declare_private_extern_function("read_oracle_field", vec![felt], vec![felt]);
    env.declare_private_extern_function("read_oracle_field", vec![felt], vec![felt]);

    let count = env.functions.iter().filter(|f| f.name == "read_oracle_field").count();
    assert_eq!(count, 1);
    assert!(env.module_contains_top_level_function("read_oracle_field"));
}

#[test]
fn calls_are_found_in_struct_functions() {
    let mut env = ModuleEnv::new();
    let body = FunctionBody {
        arguments: vec![],
        prologue: vec![],
        ops: vec![Op::Call("hook".to_string(), vec![], 0)],
    };
    StructBuilder::new("s").build_in_module(&mut env, body, empty_body());
    assert!(env.module_contains_call_to("hook"));
    assert!(!env.module_contains_call_to("hoo"));
}

fn register_query(local_timestamp_in_cycle: usize, read_value: [u64; 2]) -> ShuffleRamMemQuery {
    ShuffleRamMemQuery {
        query_type: ShuffleRamQueryType::RegisterOnly {
            register_index: Variable(100 + local_timestamp_in_cycle as u64),
        },
        local_timestamp_in_cycle,
        read_value: [Variable(read_value[0]), Variable(read_value[1])],
        write_value: [Variable(read_value[0]), Variable(read_value[1])],
    }
}

fn alias(aliases: &[Substitution], placeholder: Placeholder, subindex: usize) -> Option<Variable> {
    aliases
        .iter()
        .find(|s| s.placeholder == placeholder && s.subindex == subindex)
        .map(|s| s.variable)
}

#[test]
fn shuffle_placeholder_aliases_cover_legacy_register_reads() {
    let aliases = derive_shuffle_ram_placeholder_aliases(&vec![
        register_query(0, [10, 11]),
        register_query(1, [20, 21]),
        register_query(2, [30, 31]),
    ]);

    assert_eq!(alias(&aliases, Placeholder::FirstRegMem, 0), Some(Variable(10)));
    assert_eq!(alias(&aliases, Placeholder::FirstRegMem, 1), Some(Variable(11)));
    assert_eq!(alias(&aliases, Placeholder::SecondRegMem, 0), Some(Variable(20)));
    assert_eq!(alias(&aliases, Placeholder::SecondRegMem, 1), Some(Variable(21)));
    assert_eq!(alias(&aliases, Placeholder::WriteRdReadSetWitness, 0), Some(Variable(30)));
    assert_eq!(alias(&aliases, Placeholder::WriteRegMemReadWitness, 1), Some(Variable(31)));
}

#[test]
fn shuffle_placeholder_aliases_cover_supported_shuffle_reads() {
    let aliases = derive_shuffle_ram_placeholder_aliases(&vec![
        register_query(0, [10, 11]),
        register_query(1, [20, 21]),
        register_query(2, [30, 31]),
        register_query(3, [40, 41]),
    ]);

    assert_eq!(alias(&aliases, Placeholder::ShuffleRamReadValue(0), 0), Some(Variable(10)));
    assert_eq!(alias(&aliases, Placeholder::ShuffleRamReadValue(1), 1), Some(Variable(21)));
    assert_eq!(alias(&aliases, Placeholder::ShuffleRamReadValue(2), 0), Some(Variable(30)));
    assert_eq!(alias(&aliases, Placeholder::ShuffleRamReadValue(3), 0), None);
    assert_eq!(alias(&aliases, Placeholder::ShuffleRamReadValue(3), 1), None);
}

#[test]
fn no_queries_give_no_aliases() {
    assert!(derive_shuffle_ram_placeholder_aliases(&vec![]).is_empty());
    let aliases = derive_shuffle_ram_placeholder_aliases(&vec![register_query(0, [1, 2])]);
    assert_eq!(alias(&aliases, Placeholder::SecondRegMem, 0), None);
}

#[test]
fn oracle_placeholder_encoding_is_stable_for_parameterized_variants() {
    assert_eq!(
        encode_oracle_placeholder(Placeholder::PcInit),
        EncodedOraclePlaceholder { kind: 6, arg0: 0, arg1: 0 }
    );
    assert_eq!(
        encode_oracle_placeholder(Placeholder::ShuffleRamReadValue(2)),
        EncodedOraclePlaceholder { kind: 43, arg0: 2, arg1: 0 }
    );
    assert_eq!(
        encode_oracle_placeholder(Placeholder::DelegationIndirectReadValue {
            register_index: 5,
            word_index: 1,
        }),
        EncodedOraclePlaceholder { kind: 56, arg0: 5, arg1: 1 }
    );
}
