//! Witness programs: blocks of typed expressions in static single assignment form.
use vstd::prelude::*;

use std::collections::HashMap;

use crate::circuit::Mersenne31Field;
use crate::circuit::Placeholder;
use crate::circuit::TableType;
use crate::circuit::Variable;
use crate::llzk::vars::StructVars;
use crate::llzk::vars::VarMaps;

verus! {

/// Where the compiled layout keeps a variable.
#[derive(Clone, Copy, Debug, PartialEq, Eq, Structural)]
pub enum ColumnAddress {
    WitnessSubtree(usize),
    MemorySubtree(usize),
    SetupSubtree(usize),
    OptimizedOut(usize),
}

/// The table of a compiled lookup.
#[derive(Clone, Copy, Debug, PartialEq, Eq, Structural)]
pub enum TableIndex {
    Variable(ColumnAddress),
    Constant(TableType),
}

/// An expression with a field value.
#[derive(Debug)]
pub enum FieldNodeExpression {
    Place(Variable),
    SubExpression(usize),
    Constant(Mersenne31Field),
    FromInteger(Box<FixedWidthIntegerNodeExpression>),
    FromMask(Box<BoolNodeExpression>),
    OracleValue { placeholder: Placeholder, subindex: usize },
    LookupOutput { lookup_idx: usize, output_idx: usize },
    MaybeLookupOutput { lookup_idx: usize, output_idx: usize },
    Add { lhs: Box<FieldNodeExpression>, rhs: Box<FieldNodeExpression> },
    Sub { lhs: Box<FieldNodeExpression>, rhs: Box<FieldNodeExpression> },
    Mul { lhs: Box<FieldNodeExpression>, rhs: Box<FieldNodeExpression> },
    AddProduct {
        additive_term: Box<FieldNodeExpression>,
        mul_0: Box<FieldNodeExpression>,
        mul_1: Box<FieldNodeExpression>,
    },
    Select {
        selector: Box<BoolNodeExpression>,
        if_true: Box<FieldNodeExpression>,
        if_false: Box<FieldNodeExpression>,
    },
    InverseUnchecked(Box<FieldNodeExpression>),
    InverseOrZero(Box<FieldNodeExpression>),
}

/// An expression with a boolean value.
#[derive(Debug)]
pub enum BoolNodeExpression {
    Place(Variable),
    SubExpression(usize),
    Constant(bool),
    OracleValue { placeholder: Placeholder },
    FromGenericInteger(Box<FixedWidthIntegerNodeExpression>),
    FromGenericIntegerEquality {
        lhs: Box<FixedWidthIntegerNodeExpression>,
        rhs: Box<FixedWidthIntegerNodeExpression>,
    },
    FromGenericIntegerCarry {
        lhs: Box<FixedWidthIntegerNodeExpression>,
        rhs: Box<FixedWidthIntegerNodeExpression>,
    },
    FromGenericIntegerBorrow {
        lhs: Box<FixedWidthIntegerNodeExpression>,
        rhs: Box<FixedWidthIntegerNodeExpression>,
    },
    FromField(Box<FieldNodeExpression>),
    FromFieldEquality { lhs: Box<FieldNodeExpression>, rhs: Box<FieldNodeExpression> },
    And { lhs: Box<BoolNodeExpression>, rhs: Box<BoolNodeExpression> },
    Or { lhs: Box<BoolNodeExpression>, rhs: Box<BoolNodeExpression> },
    Select {
        selector: Box<BoolNodeExpression>,
        if_true: Box<BoolNodeExpression>,
        if_false: Box<BoolNodeExpression>,
    },
    Negate(Box<BoolNodeExpression>),
}

/// An expression with an integer value of 8, 16 or 32 bits.
#[derive(Debug)]
pub enum FixedWidthIntegerNodeExpression {
    U8Place(Variable),
    U16Place(Variable),
    U8SubExpression(usize),
    U16SubExpression(usize),
    U32SubExpression(usize),
    U32OracleValue { placeholder: Placeholder },
    U16OracleValue { placeholder: Placeholder },
    U8OracleValue { placeholder: Placeholder },
    ConstantU8(u8),
    ConstantU16(u16),
    ConstantU32(u32),
    U32FromMask(Box<BoolNodeExpression>),
    U32FromField(Box<FieldNodeExpression>),
    WidenFromU8(Box<FixedWidthIntegerNodeExpression>),
    WidenFromU16(Box<FixedWidthIntegerNodeExpression>),
    TruncateFromU16(Box<FixedWidthIntegerNodeExpression>),
    TruncateFromU32(Box<FixedWidthIntegerNodeExpression>),
    I32FromU32(Box<FixedWidthIntegerNodeExpression>),
    U32FromI32(Box<FixedWidthIntegerNodeExpression>),
    BinaryNot(Box<FixedWidthIntegerNodeExpression>),
    Select {
        selector: Box<BoolNodeExpression>,
        if_true: Box<FixedWidthIntegerNodeExpression>,
        if_false: Box<FixedWidthIntegerNodeExpression>,
    },
    WrappingAdd {
        lhs: Box<FixedWidthIntegerNodeExpression>,
        rhs: Box<FixedWidthIntegerNodeExpression>,
    },
    WrappingSub {
        lhs: Box<FixedWidthIntegerNodeExpression>,
        rhs: Box<FixedWidthIntegerNodeExpression>,
    },
    BinaryAnd {
        lhs: Box<FixedWidthIntegerNodeExpression>,
        rhs: Box<FixedWidthIntegerNodeExpression>,
    },
    BinaryOr {
        lhs: Box<FixedWidthIntegerNodeExpression>,
        rhs: Box<FixedWidthIntegerNodeExpression>,
    },
    BinaryXor {
        lhs: Box<FixedWidthIntegerNodeExpression>,
        rhs: Box<FixedWidthIntegerNodeExpression>,
    },
    MulLow {
        lhs: Box<FixedWidthIntegerNodeExpression>,
        rhs: Box<FixedWidthIntegerNodeExpression>,
    },
    MulHigh {
        lhs: Box<FixedWidthIntegerNodeExpression>,
        rhs: Box<FixedWidthIntegerNodeExpression>,
    },
    DivAssumeNonzero {
        lhs: Box<FixedWidthIntegerNodeExpression>,
        rhs: Box<FixedWidthIntegerNodeExpression>,
    },
    RemAssumeNonzero {
        lhs: Box<FixedWidthIntegerNodeExpression>,
        rhs: Box<FixedWidthIntegerNodeExpression>,
    },
    SignedDivAssumeNonzeroNoOverflowBits {
        lhs: Box<FixedWidthIntegerNodeExpression>,
        rhs: Box<FixedWidthIntegerNodeExpression>,
    },
    SignedRemAssumeNonzeroNoOverflowBits {
        lhs: Box<FixedWidthIntegerNodeExpression>,
        rhs: Box<FixedWidthIntegerNodeExpression>,
    },
    SignedMulLowBits {
        lhs: Box<FixedWidthIntegerNodeExpression>,
        rhs: Box<FixedWidthIntegerNodeExpression>,
    },
    SignedMulHighBits {
        lhs: Box<FixedWidthIntegerNodeExpression>,
        rhs: Box<FixedWidthIntegerNodeExpression>,
    },
    SignedByUnsignedMulLowBits {
        lhs: Box<FixedWidthIntegerNodeExpression>,
        rhs: Box<FixedWidthIntegerNodeExpression>,
    },
    SignedByUnsignedMulHighBits {
        lhs: Box<FixedWidthIntegerNodeExpression>,
        rhs: Box<FixedWidthIntegerNodeExpression>,
    },
    WrappingShl { lhs: Box<FixedWidthIntegerNodeExpression>, magnitude: u32 },
    WrappingShr { lhs: Box<FixedWidthIntegerNodeExpression>, magnitude: u32 },
    LowestBits { value: Box<FixedWidthIntegerNodeExpression>, num_bits: u32 },
    AddProduct {
        additive_term: Box<FixedWidthIntegerNodeExpression>,
        mul_0: Box<FixedWidthIntegerNodeExpression>,
        mul_1: Box<FixedWidthIntegerNodeExpression>,
    },
}

/// An expression of any kind.
#[derive(Debug)]
pub enum Expression {
    Bool(BoolNodeExpression),
    Field(FieldNodeExpression),
    U8(FixedWidthIntegerNodeExpression),
    U16(FixedWidthIntegerNodeExpression),
    U32(FixedWidthIntegerNodeExpression),
}

/// One step of a block.
#[derive(Debug)]
pub enum RawExpression {
    Bool(BoolNodeExpression),
    Field(FieldNodeExpression),
    Integer(FixedWidthIntegerNodeExpression),
    AccessLookup { subindex: usize, output_index: usize },
    PerformLookup {
        input_subexpr_idxes: Vec<usize>,
        table_id_subexpr_idx: usize,
        num_outputs: usize,
        lookup_mapping_idx: usize,
    },
    MaybePerformLookup {
        input_subexpr_idxes: Vec<usize>,
        table_id_subexpr_idx: usize,
        mask_id_subexpr_idx: usize,
        num_outputs: usize,
    },
    WriteVariable {
        into_variable: Variable,
        source_subexpr: Expression,
        condition_subexpr_idx: Option<usize>,
    },
}

/// The variables that a field expression reads.
pub open spec fn field_places(e: FieldNodeExpression) -> Set<Variable>
    decreases e,
{
    match e {
        FieldNodeExpression::Place(v) => Set::empty().insert(v),
        FieldNodeExpression::SubExpression(_)
        | FieldNodeExpression::Constant(_)
        | FieldNodeExpression::OracleValue { .. }
        | FieldNodeExpression::LookupOutput { .. }
        | FieldNodeExpression::MaybeLookupOutput { .. } => Set::empty(),
        FieldNodeExpression::FromInteger(x) => integer_places(*x),
        FieldNodeExpression::FromMask(x) => bool_places(*x),
        FieldNodeExpression::Add { lhs, rhs }
        | FieldNodeExpression::Sub { lhs, rhs }
        | FieldNodeExpression::Mul { lhs, rhs } => field_places(*lhs) + field_places(*rhs),
        FieldNodeExpression::AddProduct { additive_term, mul_0, mul_1 } => field_places(*additive_term)
            + field_places(*mul_0) + field_places(*mul_1),
        FieldNodeExpression::Select { selector, if_true, if_false } => bool_places(*selector)
            + field_places(*if_true) + field_places(*if_false),
        FieldNodeExpression::InverseUnchecked(x) | FieldNodeExpression::InverseOrZero(x) => field_places(*x),
    }
}

/// The variables that a boolean expression reads.
pub open spec fn bool_places(e: BoolNodeExpression) -> Set<Variable>
    decreases e,
{
    match e {
        BoolNodeExpression::Place(v) => Set::empty().insert(v),
        BoolNodeExpression::SubExpression(_)
        | BoolNodeExpression::Constant(_)
        | BoolNodeExpression::OracleValue { .. } => Set::empty(),
        BoolNodeExpression::FromGenericInteger(x) => integer_places(*x),
        BoolNodeExpression::FromGenericIntegerEquality { lhs, rhs }
        | BoolNodeExpression::FromGenericIntegerCarry { lhs, rhs }
        | BoolNodeExpression::FromGenericIntegerBorrow { lhs, rhs } => integer_places(*lhs)
            + integer_places(*rhs),
        BoolNodeExpression::FromField(x) => field_places(*x),
        BoolNodeExpression::FromFieldEquality { lhs, rhs } => field_places(*lhs) + field_places(*rhs),
        BoolNodeExpression::And { lhs, rhs } | BoolNodeExpression::Or { lhs, rhs } => bool_places(*lhs) + bool_places(*rhs),
        BoolNodeExpression::Select { selector, if_true, if_false } => bool_places(*selector) + bool_places(
            *if_true,
        ) + bool_places(*if_false),
        BoolNodeExpression::Negate(x) => bool_places(*x),
    }
}

/// The variables that an integer expression reads.
pub open spec fn integer_places(e: FixedWidthIntegerNodeExpression) -> Set<Variable>
    decreases e,
{
    match e {
        FixedWidthIntegerNodeExpression::U8Place(v) | FixedWidthIntegerNodeExpression::U16Place(v) => Set::empty().insert(v),
        FixedWidthIntegerNodeExpression::U8SubExpression(_)
        | FixedWidthIntegerNodeExpression::U16SubExpression(_)
        | FixedWidthIntegerNodeExpression::U32SubExpression(_)
        | FixedWidthIntegerNodeExpression::U32OracleValue { .. }
        | FixedWidthIntegerNodeExpression::U16OracleValue { .. }
        | FixedWidthIntegerNodeExpression::U8OracleValue { .. }
        | FixedWidthIntegerNodeExpression::ConstantU8(_)
        | FixedWidthIntegerNodeExpression::ConstantU16(_)
        | FixedWidthIntegerNodeExpression::ConstantU32(_) => Set::empty(),
        FixedWidthIntegerNodeExpression::U32FromMask(x) => bool_places(*x),
        FixedWidthIntegerNodeExpression::U32FromField(x) => field_places(*x),
        FixedWidthIntegerNodeExpression::WidenFromU8(x)
        | FixedWidthIntegerNodeExpression::WidenFromU16(x)
        | FixedWidthIntegerNodeExpression::TruncateFromU16(x)
        | FixedWidthIntegerNodeExpression::TruncateFromU32(x)
        | FixedWidthIntegerNodeExpression::I32FromU32(x)
        | FixedWidthIntegerNodeExpression::U32FromI32(x)
        | FixedWidthIntegerNodeExpression::BinaryNot(x) => integer_places(*x),
        FixedWidthIntegerNodeExpression::Select { selector, if_true, if_false } => bool_places(*selector) + integer_places(
            *if_true,
        ) + integer_places(*if_false),
        FixedWidthIntegerNodeExpression::WrappingAdd { lhs, rhs }
        | FixedWidthIntegerNodeExpression::WrappingSub { lhs, rhs }
        | FixedWidthIntegerNodeExpression::BinaryAnd { lhs, rhs }
        | FixedWidthIntegerNodeExpression::BinaryOr { lhs, rhs }
        | FixedWidthIntegerNodeExpression::BinaryXor { lhs, rhs }
        | FixedWidthIntegerNodeExpression::MulLow { lhs, rhs }
        | FixedWidthIntegerNodeExpression::MulHigh { lhs, rhs }
        | FixedWidthIntegerNodeExpression::DivAssumeNonzero { lhs, rhs }
        | FixedWidthIntegerNodeExpression::RemAssumeNonzero { lhs, rhs }
        | FixedWidthIntegerNodeExpression::SignedDivAssumeNonzeroNoOverflowBits { lhs, rhs }
        | FixedWidthIntegerNodeExpression::SignedRemAssumeNonzeroNoOverflowBits { lhs, rhs }
        | FixedWidthIntegerNodeExpression::SignedMulLowBits { lhs, rhs }
        | FixedWidthIntegerNodeExpression::SignedMulHighBits { lhs, rhs }
        | FixedWidthIntegerNodeExpression::SignedByUnsignedMulLowBits { lhs, rhs }
        | FixedWidthIntegerNodeExpression::SignedByUnsignedMulHighBits { lhs, rhs } => integer_places(*lhs) + integer_places(*rhs),
        FixedWidthIntegerNodeExpression::WrappingShl { lhs, .. } | FixedWidthIntegerNodeExpression::WrappingShr { lhs, .. } => integer_places(*lhs),
        FixedWidthIntegerNodeExpression::LowestBits { value, .. } => integer_places(*value),
        FixedWidthIntegerNodeExpression::AddProduct { additive_term, mul_0, mul_1 } => integer_places(*additive_term)
            + integer_places(*mul_0) + integer_places(*mul_1),
    }
}

/// The variables that an expression reads.
pub open spec fn expression_places(e: Expression) -> Set<Variable> {
    match e {
        Expression::Bool(x) => bool_places(x),
        Expression::Field(x) => field_places(x),
        Expression::U8(x) | Expression::U16(x) | Expression::U32(x) => integer_places(x),
    }
}

/// Whether a variable lives only in the memory columns of the layout.
pub open spec fn in_runtime_memory(
    v: Variable,
    mapping: Map<u64, ColumnAddress>,
    vars: VarMaps,
) -> bool {
    &&& mapping.contains_key(v.0)
    &&& mapping[v.0] is MemorySubtree
    &&& !vars.args_map.contains_key(v.0)
    &&& !vars.members.contains_key(v.0)
}

/// Whether one of the variables lives only in the memory columns.
pub open spec fn reads_runtime_memory(
    places: Set<Variable>,
    mapping: Map<u64, ColumnAddress>,
    vars: VarMaps,
) -> bool {
    exists|v: Variable| #[trigger] places.contains(v) && in_runtime_memory(v, mapping, vars)
}

/// Whether a step may read a memory column: an expression that it evaluates does, or it is a
/// conditional write of a memory column, which reads the old value.
pub open spec fn step_reads_runtime_memory(
    e: RawExpression,
    mapping: Map<u64, ColumnAddress>,
    vars: VarMaps,
) -> bool {
    match e {
        RawExpression::Bool(x) => reads_runtime_memory(bool_places(x), mapping, vars),
        RawExpression::Field(x) => reads_runtime_memory(field_places(x), mapping, vars),
        RawExpression::Integer(x) => reads_runtime_memory(integer_places(x), mapping, vars),
        RawExpression::AccessLookup { .. }
        | RawExpression::PerformLookup { .. }
        | RawExpression::MaybePerformLookup { .. } => false,
        RawExpression::WriteVariable { into_variable, source_subexpr, condition_subexpr_idx } => {
            ||| reads_runtime_memory(expression_places(source_subexpr), mapping, vars)
            ||| {
                &&& condition_subexpr_idx is Some
                &&& mapping.contains_key(into_variable.0)
                &&& mapping[into_variable.0] is MemorySubtree
                &&& !vars.members.contains_key(into_variable.0)
            }
        },
    }
}

proof fn lemma_union_reads(
    a: Set<Variable>,
    b: Set<Variable>,
    mapping: Map<u64, ColumnAddress>,
    vars: VarMaps,
)
    ensures
        reads_runtime_memory(a + b, mapping, vars) <==> reads_runtime_memory(a, mapping, vars)
            || reads_runtime_memory(b, mapping, vars),
{
    if reads_runtime_memory(a, mapping, vars) {
        let v = choose|v: Variable| #[trigger]
            a.contains(v) && in_runtime_memory(v, mapping, vars);
        assert((a + b).contains(v));
    }
    if reads_runtime_memory(b, mapping, vars) {
        let v = choose|v: Variable| #[trigger]
            b.contains(v) && in_runtime_memory(v, mapping, vars);
        assert((a + b).contains(v));
    }
    if reads_runtime_memory(a + b, mapping, vars) {
        let v = choose|v: Variable| #[trigger]
            (a + b).contains(v) && in_runtime_memory(v, mapping, vars);
        assert(a.contains(v) || b.contains(v));
    }
}

fn is_memory_column(variable: &Variable, mapping: &HashMap<u64, ColumnAddress>) -> (r: bool)
    ensures
        r == (mapping@.contains_key(variable.0) && mapping@[variable.0] is MemorySubtree),
{
    match mapping.get(&variable.0) {
        Some(ColumnAddress::MemorySubtree(_)) => true,
        _ => false,
    }
}

fn variable_uses_runtime_memory(
    variable: &Variable,
    mapping: &HashMap<u64, ColumnAddress>,
    vars: &StructVars,
) -> (r: bool)
    ensures
        r == reads_runtime_memory(Set::empty().insert(*variable), mapping@, vars.maps()),
{
    assert(Set::<Variable>::empty().insert(*variable).contains(*variable));
    is_memory_column(variable, mapping) && !vars.is_compute_exposed(variable)
}

/// Whether the expression reads a memory column.
pub fn field_expression_reads_runtime_memory(
    expr: &FieldNodeExpression,
    mapping: &HashMap<u64, ColumnAddress>,
    vars: &StructVars,
) -> (r: bool)
    ensures
        r == reads_runtime_memory(field_places(*expr), mapping@, vars.maps()),
    decreases expr,
{
    match expr {
        FieldNodeExpression::Place(variable) => variable_uses_runtime_memory(variable, mapping, vars),
        FieldNodeExpression::SubExpression(_)
        | FieldNodeExpression::Constant(_)
        | FieldNodeExpression::OracleValue { .. }
        | FieldNodeExpression::LookupOutput { .. }
        | FieldNodeExpression::MaybeLookupOutput { .. } => false,
        FieldNodeExpression::FromInteger(x) => integer_expression_reads_runtime_memory(x, mapping, vars),
        FieldNodeExpression::FromMask(x) => bool_expression_reads_runtime_memory(x, mapping, vars),
        FieldNodeExpression::Add { lhs, rhs } | FieldNodeExpression::Sub { lhs, rhs } | FieldNodeExpression::Mul { lhs, rhs } => {
            proof {
                lemma_union_reads(field_places(**lhs), field_places(**rhs), mapping@, vars.maps());
            }
            field_expression_reads_runtime_memory(lhs, mapping, vars) || field_expression_reads_runtime_memory(rhs, mapping, vars)
        },
        FieldNodeExpression::AddProduct { additive_term, mul_0, mul_1 } => {
            proof {
                let a = field_places(**additive_term);
                let b = field_places(**mul_0);
                lemma_union_reads(a, b, mapping@, vars.maps());
                lemma_union_reads(a + b, field_places(**mul_1), mapping@, vars.maps());
            }
            field_expression_reads_runtime_memory(additive_term, mapping, vars) || field_expression_reads_runtime_memory(
                mul_0,
                mapping,
                vars,
            ) || field_expression_reads_runtime_memory(mul_1, mapping, vars)
        },
        FieldNodeExpression::Select { selector, if_true, if_false } => {
            proof {
                let a = bool_places(**selector);
                let b = field_places(**if_true);
                lemma_union_reads(a, b, mapping@, vars.maps());
                lemma_union_reads(a + b, field_places(**if_false), mapping@, vars.maps());
            }
            bool_expression_reads_runtime_memory(selector, mapping, vars) || field_expression_reads_runtime_memory(
                if_true,
                mapping,
                vars,
            ) || field_expression_reads_runtime_memory(if_false, mapping, vars)
        },
        FieldNodeExpression::InverseUnchecked(x) | FieldNodeExpression::InverseOrZero(x) => field_expression_reads_runtime_memory(x, mapping, vars),
    }
}

/// Whether the expression reads a memory column.
pub fn bool_expression_reads_runtime_memory(
    expr: &BoolNodeExpression,
    mapping: &HashMap<u64, ColumnAddress>,
    vars: &StructVars,
) -> (r: bool)
    ensures
        r == reads_runtime_memory(bool_places(*expr), mapping@, vars.maps()),
    decreases expr,
{
    match expr {
        BoolNodeExpression::Place(variable) => variable_uses_runtime_memory(variable, mapping, vars),
        BoolNodeExpression::SubExpression(_) | BoolNodeExpression::Constant(_) | BoolNodeExpression::OracleValue { .. } => false,
        BoolNodeExpression::FromGenericInteger(x) => integer_expression_reads_runtime_memory(x, mapping, vars),
        BoolNodeExpression::FromGenericIntegerEquality { lhs, rhs } | BoolNodeExpression::FromGenericIntegerCarry { lhs, rhs } | BoolNodeExpression::FromGenericIntegerBorrow { lhs, rhs } => {
            proof {
                lemma_union_reads(integer_places(**lhs), integer_places(**rhs), mapping@, vars.maps());
            }
            integer_expression_reads_runtime_memory(lhs, mapping, vars) || integer_expression_reads_runtime_memory(rhs, mapping, vars)
        },
        BoolNodeExpression::FromField(x) => field_expression_reads_runtime_memory(x, mapping, vars),
        BoolNodeExpression::FromFieldEquality { lhs, rhs } => {
            proof {
                lemma_union_reads(field_places(**lhs), field_places(**rhs), mapping@, vars.maps());
            }
            field_expression_reads_runtime_memory(lhs, mapping, vars) || field_expression_reads_runtime_memory(rhs, mapping, vars)
        },
        BoolNodeExpression::And { lhs, rhs } | BoolNodeExpression::Or { lhs, rhs } => {
            proof {
                lemma_union_reads(bool_places(**lhs), bool_places(**rhs), mapping@, vars.maps());
            }
            bool_expression_reads_runtime_memory(lhs, mapping, vars) || bool_expression_reads_runtime_memory(rhs, mapping, vars)
        },
        BoolNodeExpression::Select { selector, if_true, if_false } => {
            proof {
                let a = bool_places(**selector);
                let b = bool_places(**if_true);
                lemma_union_reads(a, b, mapping@, vars.maps());
                lemma_union_reads(a + b, bool_places(**if_false), mapping@, vars.maps());
            }
            bool_expression_reads_runtime_memory(selector, mapping, vars) || bool_expression_reads_runtime_memory(
                if_true,
                mapping,
                vars,
            ) || bool_expression_reads_runtime_memory(if_false, mapping, vars)
        },
        BoolNodeExpression::Negate(x) => bool_expression_reads_runtime_memory(x, mapping, vars),
    }
}

/// Whether the expression reads a memory column.
pub fn integer_expression_reads_runtime_memory(
    expr: &FixedWidthIntegerNodeExpression,
    mapping: &HashMap<u64, ColumnAddress>,
    vars: &StructVars,
) -> (r: bool)
    ensures
        r == reads_runtime_memory(integer_places(*expr), mapping@, vars.maps()),
    decreases expr,
{
    match expr {
        FixedWidthIntegerNodeExpression::U8Place(variable) | FixedWidthIntegerNodeExpression::U16Place(variable) => variable_uses_runtime_memory(
            variable,
            mapping,
            vars,
        ),
        FixedWidthIntegerNodeExpression::U8SubExpression(_)
        | FixedWidthIntegerNodeExpression::U16SubExpression(_)
        | FixedWidthIntegerNodeExpression::U32SubExpression(_)
        | FixedWidthIntegerNodeExpression::U32OracleValue { .. }
        | FixedWidthIntegerNodeExpression::U16OracleValue { .. }
        | FixedWidthIntegerNodeExpression::U8OracleValue { .. }
        | FixedWidthIntegerNodeExpression::ConstantU8(_)
        | FixedWidthIntegerNodeExpression::ConstantU16(_)
        | FixedWidthIntegerNodeExpression::ConstantU32(_) => false,
        FixedWidthIntegerNodeExpression::U32FromMask(x) => bool_expression_reads_runtime_memory(x, mapping, vars),
        FixedWidthIntegerNodeExpression::U32FromField(x) => field_expression_reads_runtime_memory(x, mapping, vars),
        FixedWidthIntegerNodeExpression::WidenFromU8(x)
        | FixedWidthIntegerNodeExpression::WidenFromU16(x)
        | FixedWidthIntegerNodeExpression::TruncateFromU16(x)
        | FixedWidthIntegerNodeExpression::TruncateFromU32(x)
        | FixedWidthIntegerNodeExpression::I32FromU32(x)
        | FixedWidthIntegerNodeExpression::U32FromI32(x)
        | FixedWidthIntegerNodeExpression::BinaryNot(x) => integer_expression_reads_runtime_memory(x, mapping, vars),
        FixedWidthIntegerNodeExpression::Select { selector, if_true, if_false } => {
            proof {
                let a = bool_places(**selector);
                let b = integer_places(**if_true);
                lemma_union_reads(a, b, mapping@, vars.maps());
                lemma_union_reads(a + b, integer_places(**if_false), mapping@, vars.maps());
            }
            bool_expression_reads_runtime_memory(selector, mapping, vars) || integer_expression_reads_runtime_memory(
                if_true,
                mapping,
                vars,
            ) || integer_expression_reads_runtime_memory(if_false, mapping, vars)
        },
        FixedWidthIntegerNodeExpression::WrappingAdd { lhs, rhs }
        | FixedWidthIntegerNodeExpression::WrappingSub { lhs, rhs }
        | FixedWidthIntegerNodeExpression::BinaryAnd { lhs, rhs }
        | FixedWidthIntegerNodeExpression::BinaryOr { lhs, rhs }
        | FixedWidthIntegerNodeExpression::BinaryXor { lhs, rhs }
        | FixedWidthIntegerNodeExpression::MulLow { lhs, rhs }
        | FixedWidthIntegerNodeExpression::MulHigh { lhs, rhs }
        | FixedWidthIntegerNodeExpression::DivAssumeNonzero { lhs, rhs }
        | FixedWidthIntegerNodeExpression::RemAssumeNonzero { lhs, rhs }
        | FixedWidthIntegerNodeExpression::SignedDivAssumeNonzeroNoOverflowBits { lhs, rhs }
        | FixedWidthIntegerNodeExpression::SignedRemAssumeNonzeroNoOverflowBits { lhs, rhs }
        | FixedWidthIntegerNodeExpression::SignedMulLowBits { lhs, rhs }
        | FixedWidthIntegerNodeExpression::SignedMulHighBits { lhs, rhs }
        | FixedWidthIntegerNodeExpression::SignedByUnsignedMulLowBits { lhs, rhs }
        | FixedWidthIntegerNodeExpression::SignedByUnsignedMulHighBits { lhs, rhs } => {
            proof {
                lemma_union_reads(integer_places(**lhs), integer_places(**rhs), mapping@, vars.maps());
            }
            integer_expression_reads_runtime_memory(lhs, mapping, vars) || integer_expression_reads_runtime_memory(rhs, mapping, vars)
        },
        FixedWidthIntegerNodeExpression::WrappingShl { lhs, .. } | FixedWidthIntegerNodeExpression::WrappingShr { lhs, .. } => integer_expression_reads_runtime_memory(
            lhs,
            mapping,
            vars,
        ),
        FixedWidthIntegerNodeExpression::LowestBits { value, .. } => integer_expression_reads_runtime_memory(value, mapping, vars),
        FixedWidthIntegerNodeExpression::AddProduct { additive_term, mul_0, mul_1 } => {
            proof {
                let a = integer_places(**additive_term);
                let b = integer_places(**mul_0);
                lemma_union_reads(a, b, mapping@, vars.maps());
                lemma_union_reads(a + b, integer_places(**mul_1), mapping@, vars.maps());
            }
            integer_expression_reads_runtime_memory(additive_term, mapping, vars) || integer_expression_reads_runtime_memory(
                mul_0,
                mapping,
                vars,
            ) || integer_expression_reads_runtime_memory(mul_1, mapping, vars)
        },
    }
}

/// Whether the expression reads a memory column.
pub fn expression_reads_runtime_memory(
    expr: &Expression,
    mapping: &HashMap<u64, ColumnAddress>,
    vars: &StructVars,
) -> (r: bool)
    ensures
        r == reads_runtime_memory(expression_places(*expr), mapping@, vars.maps()),
{
    match expr {
        Expression::Bool(x) => bool_expression_reads_runtime_memory(x, mapping, vars),
        Expression::Field(x) => field_expression_reads_runtime_memory(x, mapping, vars),
        Expression::U8(x) | Expression::U16(x) | Expression::U32(x) => integer_expression_reads_runtime_memory(
            x,
            mapping,
            vars,
        ),
    }
}

/// Whether the step may read a memory column.
pub fn raw_expression_reads_runtime_memory(
    expr: &RawExpression,
    mapping: &HashMap<u64, ColumnAddress>,
    vars: &StructVars,
) -> (r: bool)
    ensures
        r == step_reads_runtime_memory(*expr, mapping@, vars.maps()),
{
    match expr {
        RawExpression::Bool(x) => bool_expression_reads_runtime_memory(x, mapping, vars),
        RawExpression::Field(x) => field_expression_reads_runtime_memory(x, mapping, vars),
        RawExpression::Integer(x) => integer_expression_reads_runtime_memory(x, mapping, vars),
        RawExpression::AccessLookup { .. }
        | RawExpression::PerformLookup { .. }
        | RawExpression::MaybePerformLookup { .. } => false,
        RawExpression::WriteVariable { into_variable, source_subexpr, condition_subexpr_idx } => {
            expression_reads_runtime_memory(source_subexpr, mapping, vars) || (
            condition_subexpr_idx.is_some() && is_memory_column(into_variable, mapping)
                && !vars.has_member(into_variable))
        },
    }
}

/// A lookup step, with or without an activation mask.
#[derive(Debug)]
pub enum LookupInvocation<'a> {
    Perform {
        input_subexpr_idxes: &'a Vec<usize>,
        table_id_subexpr_idx: usize,
        num_outputs: usize,
        lookup_mapping_idx: usize,
    },
    MaybePerform {
        input_subexpr_idxes: &'a Vec<usize>,
        table_id_subexpr_idx: usize,
        mask_id_subexpr_idx: usize,
        num_outputs: usize,
    },
}

impl<'a> LookupInvocation<'a> {
    /// The slots of the inputs.
    pub open spec fn inputs(self) -> Seq<usize> {
        match self {
            LookupInvocation::Perform { input_subexpr_idxes, .. } => input_subexpr_idxes@,
            LookupInvocation::MaybePerform { input_subexpr_idxes, .. } => input_subexpr_idxes@,
        }
    }

    /// The slot of the table number.
    pub open spec fn table_slot(self) -> usize {
        match self {
            LookupInvocation::Perform { table_id_subexpr_idx, .. } => table_id_subexpr_idx,
            LookupInvocation::MaybePerform { table_id_subexpr_idx, .. } => table_id_subexpr_idx,
        }
    }

    /// The number of outputs.
    pub open spec fn outputs(self) -> usize {
        match self {
            LookupInvocation::Perform { num_outputs, .. } => num_outputs,
            LookupInvocation::MaybePerform { num_outputs, .. } => num_outputs,
        }
    }

    /// The compiled lookup behind the step, if it has one.
    pub open spec fn compiled_lookup(self) -> Option<usize> {
        match self {
            LookupInvocation::Perform { lookup_mapping_idx, .. } => Some(lookup_mapping_idx),
            LookupInvocation::MaybePerform { .. } => None,
        }
    }

    /// The slot of the activation mask, if the lookup has one.
    pub open spec fn mask_slot(self) -> Option<usize> {
        match self {
            LookupInvocation::Perform { .. } => None,
            LookupInvocation::MaybePerform { mask_id_subexpr_idx, .. } => Some(
                mask_id_subexpr_idx,
            ),
        }
    }

    /// The lookup step behind a raw expression, if it is one.
    pub fn from_raw(expr: &'a RawExpression) -> (r: Option<Self>)
        ensures
            match (r, *expr) {
                (
                    Some(l),
                    RawExpression::PerformLookup {
                        input_subexpr_idxes,
                        table_id_subexpr_idx,
                        num_outputs,
                        lookup_mapping_idx,
                    },
                ) => {
                    &&& l.inputs() == input_subexpr_idxes@
                    &&& l.table_slot() == table_id_subexpr_idx
                    &&& l.outputs() == num_outputs
                    &&& l.compiled_lookup() == Some(lookup_mapping_idx)
                    &&& l.mask_slot() is None
                },
                (
                    Some(l),
                    RawExpression::MaybePerformLookup {
                        input_subexpr_idxes,
                        table_id_subexpr_idx,
                        mask_id_subexpr_idx,
                        num_outputs,
                    },
                ) => {
                    &&& l.inputs() == input_subexpr_idxes@
                    &&& l.table_slot() == table_id_subexpr_idx
                    &&& l.outputs() == num_outputs
                    &&& l.compiled_lookup() is None
                    &&& l.mask_slot() == Some(mask_id_subexpr_idx)
                },
                (None, RawExpression::PerformLookup { .. }) => false,
                (None, RawExpression::MaybePerformLookup { .. }) => false,
                (None, _) => true,
                (Some(_), _) => false,
            },
    {
        match expr {
            RawExpression::PerformLookup {
                input_subexpr_idxes,
                table_id_subexpr_idx,
                num_outputs,
                lookup_mapping_idx,
            } => Some(
                LookupInvocation::Perform {
                    input_subexpr_idxes,
                    table_id_subexpr_idx: *table_id_subexpr_idx,
                    num_outputs: *num_outputs,
                    lookup_mapping_idx: *lookup_mapping_idx,
                },
            ),
            RawExpression::MaybePerformLookup {
                input_subexpr_idxes,
                table_id_subexpr_idx,
                mask_id_subexpr_idx,
                num_outputs,
            } => Some(
                LookupInvocation::MaybePerform {
                    input_subexpr_idxes,
                    table_id_subexpr_idx: *table_id_subexpr_idx,
                    mask_id_subexpr_idx: *mask_id_subexpr_idx,
                    num_outputs: *num_outputs,
                },
            ),
            _ => None,
        }
    }

    /// The slots of the inputs.
    pub fn input_subexpr_idxes(&self) -> (r: &Vec<usize>)
        ensures
            r@ == self.inputs(),
    {
        match self {
            LookupInvocation::Perform { input_subexpr_idxes, .. } => *input_subexpr_idxes,
            LookupInvocation::MaybePerform { input_subexpr_idxes, .. } => *input_subexpr_idxes,
        }
    }

    /// The slot of the table number.
    pub fn table_id_subexpr_idx(&self) -> (r: usize)
        ensures
            r == self.table_slot(),
    {
        match self {
            LookupInvocation::Perform { table_id_subexpr_idx, .. } => *table_id_subexpr_idx,
            LookupInvocation::MaybePerform { table_id_subexpr_idx, .. } => *table_id_subexpr_idx,
        }
    }

    /// The number of outputs.
    pub fn num_outputs(&self) -> (r: usize)
        ensures
            r == self.outputs(),
    {
        match self {
            LookupInvocation::Perform { num_outputs, .. } => *num_outputs,
            LookupInvocation::MaybePerform { num_outputs, .. } => *num_outputs,
        }
    }

    /// The compiled lookup behind the step, if it has one.
    pub fn lookup_mapping_idx(&self) -> (r: Option<usize>)
        ensures
            r == self.compiled_lookup(),
    {
        match self {
            LookupInvocation::Perform { lookup_mapping_idx, .. } => Some(*lookup_mapping_idx),
            LookupInvocation::MaybePerform { .. } => None,
        }
    }

    /// The slot of the activation mask, if the lookup has one.
    pub fn mask_id_subexpr_idx(&self) -> (r: Option<usize>)
        ensures
            r == self.mask_slot(),
    {
        match self {
            LookupInvocation::Perform { .. } => None,
            LookupInvocation::MaybePerform { mask_id_subexpr_idx, .. } => Some(
                *mask_id_subexpr_idx,
            ),
        }
    }
}

} // verus!
