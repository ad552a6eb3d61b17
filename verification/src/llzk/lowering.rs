//! What the expressions of a witness program are lowered to.
use vstd::prelude::*;

use crate::circuit::Placeholder;
use crate::circuit::Substitution;
use crate::circuit::TableIds;
use crate::circuit::Variable;
use crate::llzk::builder;
use crate::llzk::builder::LlzkError;
use crate::llzk::builder::OpsBuilder;
use crate::llzk::builder::Value;
use crate::llzk::constraints;
use crate::llzk::integers;
use crate::llzk::integers::IntSym;
use crate::llzk::integers::IntegerValue;
use crate::llzk::ir;
use crate::llzk::ir::BoolBinary;
use crate::llzk::ir::Comparison;
use crate::llzk::ir::Effect;
use crate::llzk::ir::FeltBinary;
use crate::llzk::ir::FeltUnary;
use crate::llzk::ir::Sym;
use crate::llzk::ir::ValueType;
use crate::llzk::oracle;
use crate::llzk::ssa::BoolNodeExpression;
use crate::llzk::ssa::ColumnAddress;
use crate::llzk::ssa::FieldNodeExpression;
use crate::llzk::ssa::FixedWidthIntegerNodeExpression;
use crate::llzk::ssa::RawExpression;
use crate::llzk::ssa::TableIndex;
use crate::llzk::vars;
use crate::llzk::vars::ArgSlot;
use crate::llzk::vars::Reading;

verus! {

pub const READ_FROM_MEMORY_SUBTREE_HOOK: &'static str = "read_from_memory_subtree";

pub const WRITE_TO_MEMORY_SUBTREE_HOOK: &'static str = "write_to_memory_subtree";

pub const READ_ORACLE_FIELD_HOOK: &'static str = "read_oracle_field";

pub const READ_ORACLE_BOOL_HOOK: &'static str = "read_oracle_bool";

pub const READ_ORACLE_U8_HOOK: &'static str = "read_oracle_u8";

pub const READ_ORACLE_U16_HOOK: &'static str = "read_oracle_u16";

pub const READ_ORACLE_U32_HOOK: &'static str = "read_oracle_u32";

/// A value that a step computed.
#[derive(Clone, Copy)]
pub enum ComputedValue {
    Field(Value),
    Bool(Value),
    Integer(IntegerValue),
}

/// What a step left behind.
pub enum SsaSlot {
    Value(ComputedValue),
    Lookup(Vec<Value>),
    Unit,
}

/// The terms of a computed value.
pub enum ComputedSym {
    Field(Sym),
    Bool(Sym),
    Integer(IntSym),
}

/// The terms of a slot.
pub enum SlotSym {
    Value(ComputedSym),
    Lookup(Seq<Sym>),
    Unit,
}

impl ComputedValue {
    /// The terms of the value.
    pub open spec fn sym(self) -> ComputedSym {
        match self {
            ComputedValue::Field(v) => ComputedSym::Field(v.sym@),
            ComputedValue::Bool(v) => ComputedSym::Bool(v.sym@),
            ComputedValue::Integer(v) => ComputedSym::Integer(v.sym()),
        }
    }

    /// Whether the value is made of values of a body.
    pub open spec fn within(self, b: OpsBuilder) -> bool {
        match self {
            ComputedValue::Field(v) => b.has(v),
            ComputedValue::Bool(v) => b.has(v),
            ComputedValue::Integer(v) => v.within(b),
        }
    }
}

impl SsaSlot {
    /// The terms of the slot.
    pub open spec fn sym(self) -> SlotSym {
        match self {
            SsaSlot::Value(v) => SlotSym::Value(v.sym()),
            SsaSlot::Lookup(vs) => SlotSym::Lookup(builder::syms(vs@)),
            SsaSlot::Unit => SlotSym::Unit,
        }
    }

    /// Whether the slot is made of values of a body.
    pub open spec fn within(self, b: OpsBuilder) -> bool {
        match self {
            SsaSlot::Value(v) => v.within(b),
            SsaSlot::Lookup(vs) => b.has_all(vs@),
            SsaSlot::Unit => true,
        }
    }
}

/// What a step of a block is lowered against.
pub struct ComputeScope {
    pub args_map: Map<u64, ArgSlot>,
    pub members: Map<u64, (Seq<char>, Option<u64>)>,
    pub args: Seq<ValueType>,
    pub component: Sym,
    pub mapping: Map<u64, ColumnAddress>,
    pub lookup_tables: Seq<TableIndex>,
    pub ids: TableIds,
    pub substitutions: Seq<Substitution>,
    pub reads_memory: bool,
    pub block: Seq<RawExpression>,
    pub slots: Seq<SlotSym>,
    pub origins: Seq<Option<Variable>>,
}

/// The terms and the new effects of computing an integer.
pub struct IntReading {
    pub int: IntSym,
    pub effects: Seq<Effect>,
}

/// The variable that carries a limb of a placeholder.
pub open spec fn substituted(
    subs: Seq<Substitution>,
    placeholder: Placeholder,
    subindex: usize,
) -> Option<Variable>
    decreases subs.len(),
{
    if subs.len() == 0 {
        None
    } else if subs[0].placeholder == placeholder && subs[0].subindex == subindex {
        Some(subs[0].variable)
    } else {
        substituted(subs.skip(1), placeholder, subindex)
    }
}

/// Reading a memory column.
pub open spec fn memory_reading(offset: usize, k: nat) -> Result<Reading, LlzkError> {
    if offset as u64 > i64::MAX {
        Err(LlzkError::ConstantOutOfRange)
    } else {
        Ok(
            (Reading {
                sym: Sym::Result(k, 0),
                effects: seq![
                    Effect::Call(
                        READ_FROM_MEMORY_SUBTREE_HOOK@,
                        seq![ir::index(offset as u64)],
                        1,
                    ),
                ],
            }),
        )
    }
}

/// Writing a memory column.
pub open spec fn memory_writing(offset: usize, value: Sym) -> Result<Seq<Effect>, LlzkError> {
    if offset as u64 > i64::MAX {
        Err(LlzkError::ConstantOutOfRange)
    } else {
        Ok(
            seq![
                Effect::Call(
                    WRITE_TO_MEMORY_SUBTREE_HOOK@,
                    seq![ir::index(offset as u64), value],
                    0,
                ),
            ],
        )
    }
}

/// Reading a variable that is an argument or a member.
pub open spec fn exposed_reading(sc: ComputeScope, v: Variable, k: nat) -> Result<
    Option<Reading>,
    LlzkError,
> {
    vars::compute_reading(sc.args_map, sc.members, sc.args, sc.component, v, k)
}

/// Reading a variable: an argument, a member, or a memory column.
pub open spec fn variable_reading(sc: ComputeScope, v: Variable, k: nat) -> Result<
    Reading,
    LlzkError,
> {
    match exposed_reading(sc, v, k) {
        Err(e) => Err(e),
        Ok(Some(r)) => Ok(r),
        Ok(None) => if sc.mapping.contains_key(v.0) && sc.mapping[v.0] is MemorySubtree {
            memory_reading(sc.mapping[v.0]->MemorySubtree_0, k)
        } else {
            Err(LlzkError::NotExposed)
        },
    }
}

/// Reading an argument, if the variable is one.
pub open spec fn input_reading(sc: ComputeScope, v: Variable) -> Result<Option<Reading>, LlzkError> {
    if sc.args_map.contains_key(v.0) {
        match vars::read_arg(sc.args_map[v.0], sc.args, 0) {
            Ok(r) => Ok(Some(r)),
            Err(e) => Err(e),
        }
    } else {
        Ok(None)
    }
}

/// Reading a limb of a placeholder from the arguments, if it is there.
pub open spec fn limb_reading(sc: ComputeScope, placeholder: Placeholder, subindex: usize) -> Result<
    Option<Reading>,
    LlzkError,
> {
    match substituted(sc.substitutions, placeholder, subindex) {
        None => Ok(None),
        Some(v) => input_reading(sc, v),
    }
}

/// The numbers that name a placeholder to a hook.
pub open spec fn placeholder_args(placeholder: Placeholder) -> Seq<Sym> {
    let e = oracle::encoding(placeholder);
    seq![ir::felt(e.kind), ir::felt(e.arg0), ir::felt(e.arg1)]
}

/// Reading a placeholder of one value: an argument, or a hook.
pub open spec fn oracle_reading(
    sc: ComputeScope,
    hook: Seq<char>,
    placeholder: Placeholder,
    k: nat,
) -> Result<Reading, LlzkError> {
    match limb_reading(sc, placeholder, 0) {
        Err(e) => Err(e),
        Ok(Some(r)) => Ok(r),
        Ok(None) => Ok(
            (Reading {
                sym: Sym::Result(k, 0),
                effects: seq![Effect::Call(hook, placeholder_args(placeholder), 1)],
            }),
        ),
    }
}

/// Reading a field placeholder: an argument, or a hook that is also given the limb.
pub open spec fn field_oracle_reading(
    sc: ComputeScope,
    placeholder: Placeholder,
    subindex: usize,
    k: nat,
) -> Result<Reading, LlzkError> {
    match limb_reading(sc, placeholder, subindex) {
        Err(e) => Err(e),
        Ok(Some(r)) => Ok(r),
        Ok(None) => Ok(
            (Reading {
                sym: Sym::Result(k, 0),
                effects: seq![
                    Effect::Call(
                        READ_ORACLE_FIELD_HOOK@,
                        placeholder_args(placeholder).push(ir::felt(subindex as u64)),
                        1,
                    ),
                ],
            }),
        ),
    }
}

/// Reading a boolean placeholder: whether an argument is nonzero, or a hook.
pub open spec fn bool_oracle_reading(sc: ComputeScope, placeholder: Placeholder, k: nat) -> Result<
    Reading,
    LlzkError,
> {
    match limb_reading(sc, placeholder, 0) {
        Err(e) => Err(e),
        Ok(Some(r)) => Ok(
            (Reading { sym: builder::is_nonzero(r.sym), effects: r.effects }),
        ),
        Ok(None) => Ok(
            (Reading {
                sym: Sym::Result(k, 0),
                effects: seq![
                    Effect::Call(READ_ORACLE_BOOL_HOOK@, placeholder_args(placeholder), 1),
                ],
            }),
        ),
    }
}

/// Reading a 32-bit placeholder: two arguments, or a hook with two results.
pub open spec fn u32_oracle_reading(sc: ComputeScope, placeholder: Placeholder, k: nat) -> Result<
    IntReading,
    LlzkError,
> {
    let call: Result<IntReading, LlzkError> = Ok(
        (IntReading {
            int: IntSym::U32(Sym::Result(k, 0), Sym::Result(k, 1)),
            effects: seq![
                Effect::Call(READ_ORACLE_U32_HOOK@, placeholder_args(placeholder), 2),
            ],
        }),
    );
    match (
        substituted(sc.substitutions, placeholder, 0),
        substituted(sc.substitutions, placeholder, 1),
    ) {
        (None, _) => call,
        (Some(_), None) => Err(LlzkError::MissingHighLimb),
        (Some(low), Some(high)) => match input_reading(sc, low) {
            Err(e) => Err(e),
            Ok(l) => match input_reading(sc, high) {
                Err(e) => Err(e),
                Ok(h) => match (l, h) {
                    (Some(l), Some(h)) => Ok(
                        (IntReading {
                            int: IntSym::U32(l.sym, h.sym),
                            effects: l.effects + h.effects,
                        }),
                    ),
                    (None, None) => call,
                    _ => Err(LlzkError::PartiallyExposed),
                },
            },
        },
    }
}

/// A slot as a field value.
pub open spec fn slot_field(sc: ComputeScope, idx: usize) -> Result<Sym, LlzkError> {
    if idx >= sc.slots.len() {
        Err(LlzkError::SlotOutOfBounds)
    } else {
        match sc.slots[idx as int] {
            SlotSym::Value(ComputedSym::Field(s)) => Ok(s),
            SlotSym::Value(ComputedSym::Integer(i)) => Ok(integers::to_field_sym(i)),
            SlotSym::Value(ComputedSym::Bool(b)) => Ok(builder::to_field(b)),
            _ => Err(LlzkError::WrongSlotKind),
        }
    }
}

/// A slot as a boolean.
pub open spec fn slot_bool(sc: ComputeScope, idx: usize) -> Result<Sym, LlzkError> {
    if idx >= sc.slots.len() {
        Err(LlzkError::SlotOutOfBounds)
    } else {
        match sc.slots[idx as int] {
            SlotSym::Value(ComputedSym::Bool(b)) => Ok(b),
            _ => Err(LlzkError::WrongSlotKind),
        }
    }
}

/// A slot as an integer.
pub open spec fn slot_integer(sc: ComputeScope, idx: usize) -> Result<IntSym, LlzkError> {
    if idx >= sc.slots.len() {
        Err(LlzkError::SlotOutOfBounds)
    } else {
        match sc.slots[idx as int] {
            SlotSym::Value(ComputedSym::Integer(i)) => Ok(i),
            _ => Err(LlzkError::WrongSlotKind),
        }
    }
}

/// A slot as a lookup result.
pub open spec fn slot_lookup(sc: ComputeScope, idx: usize) -> Result<Seq<Sym>, LlzkError> {
    if idx >= sc.slots.len() {
        Err(LlzkError::SlotOutOfBounds)
    } else {
        match sc.slots[idx as int] {
            SlotSym::Lookup(vs) => Ok(vs),
            _ => Err(LlzkError::WrongSlotKind),
        }
    }
}

/// A term without effects, or an error.
pub open spec fn plain(r: Result<Sym, LlzkError>) -> Result<Reading, LlzkError> {
    match r {
        Ok(s) => Ok(constraints::pure(s)),
        Err(e) => Err(e),
    }
}

/// An integer without effects, or an error.
pub open spec fn plain_int(r: Result<IntSym, LlzkError>) -> Result<IntReading, LlzkError> {
    match r {
        Ok(i) => Ok((IntReading { int: i, effects: Seq::empty() })),
        Err(e) => Err(e),
    }
}

/// The number of effects after a computation.
pub open spec fn after(k: nat, r: Result<Reading, LlzkError>) -> nat {
    match r {
        Ok(r) => k + r.effects.len(),
        Err(_) => k,
    }
}

/// The number of effects after an integer computation.
pub open spec fn after_int(k: nat, r: Result<IntReading, LlzkError>) -> nat {
    match r {
        Ok(r) => k + r.effects.len(),
        Err(_) => k,
    }
}

/// Two computations in order.
pub open spec fn both(a: Result<Reading, LlzkError>, b: Result<Reading, LlzkError>) -> Result<
    (Sym, Sym, Seq<Effect>),
    LlzkError,
> {
    match a {
        Err(e) => Err(e),
        Ok(x) => match b {
            Err(e) => Err(e),
            Ok(y) => Ok((x.sym, y.sym, x.effects + y.effects)),
        },
    }
}

/// Two integer computations in order.
pub open spec fn both_int(
    a: Result<IntReading, LlzkError>,
    b: Result<IntReading, LlzkError>,
) -> Result<(IntSym, IntSym, Seq<Effect>), LlzkError> {
    match a {
        Err(e) => Err(e),
        Ok(x) => match b {
            Err(e) => Err(e),
            Ok(y) => Ok((x.int, y.int, x.effects + y.effects)),
        },
    }
}

/// A selection after its three computations.
pub open spec fn selected(
    c: Result<Reading, LlzkError>,
    ab: Result<(Sym, Sym, Seq<Effect>), LlzkError>,
) -> Result<Reading, LlzkError> {
    match c {
        Err(e) => Err(e),
        Ok(c) => match ab {
            Err(e) => Err(e),
            Ok((a, b, es)) => Ok(
                (Reading { sym: ir::select(c.sym, a, b), effects: c.effects + es }),
            ),
        },
    }
}

/// A binary field operation after its two computations.
pub open spec fn combined(
    op: FeltBinary,
    ab: Result<(Sym, Sym, Seq<Effect>), LlzkError>,
) -> Result<Reading, LlzkError> {
    match ab {
        Err(e) => Err(e),
        Ok((a, b, es)) => Ok((Reading { sym: ir::felt2(op, a, b), effects: es })),
    }
}

/// A binary boolean operation after its two computations.
pub open spec fn combined_bool(
    op: BoolBinary,
    ab: Result<(Sym, Sym, Seq<Effect>), LlzkError>,
) -> Result<Reading, LlzkError> {
    match ab {
        Err(e) => Err(e),
        Ok((a, b, es)) => Ok((Reading { sym: ir::bool2(op, a, b), effects: es })),
    }
}

/// A term derived from a computed one.
pub open spec fn mapped(r: Result<Reading, LlzkError>, f: spec_fn(Sym) -> Sym) -> Result<
    Reading,
    LlzkError,
> {
    match r {
        Err(e) => Err(e),
        Ok(r) => Ok((Reading { sym: f(r.sym), effects: r.effects })),
    }
}

/// A term derived from a computed integer.
pub open spec fn mapped_int(r: Result<IntReading, LlzkError>, f: spec_fn(IntSym) -> Sym) -> Result<
    Reading,
    LlzkError,
> {
    match r {
        Err(e) => Err(e),
        Ok(r) => Ok((Reading { sym: f(r.int), effects: r.effects })),
    }
}

/// An integer derived from a computed one.
pub open spec fn derived(
    r: Result<IntReading, LlzkError>,
    f: spec_fn(IntSym) -> Result<IntSym, LlzkError>,
) -> Result<IntReading, LlzkError> {
    match r {
        Err(e) => Err(e),
        Ok(r) => match f(r.int) {
            Err(e) => Err(e),
            Ok(i) => Ok((IntReading { int: i, effects: r.effects })),
        },
    }
}

/// An integer derived from a computed term.
pub open spec fn widened(r: Result<Reading, LlzkError>, f: spec_fn(Sym) -> IntSym) -> Result<
    IntReading,
    LlzkError,
> {
    match r {
        Err(e) => Err(e),
        Ok(r) => Ok((IntReading { int: f(r.sym), effects: r.effects })),
    }
}

/// An integer derived from two computed ones.
pub open spec fn joined(
    ab: Result<(IntSym, IntSym, Seq<Effect>), LlzkError>,
    f: spec_fn(IntSym, IntSym) -> Result<IntSym, LlzkError>,
) -> Result<IntReading, LlzkError> {
    match ab {
        Err(e) => Err(e),
        Ok((a, b, es)) => match f(a, b) {
            Err(e) => Err(e),
            Ok(i) => Ok((IntReading { int: i, effects: es })),
        },
    }
}

/// A term derived from two computed integers.
pub open spec fn compared(
    ab: Result<(IntSym, IntSym, Seq<Effect>), LlzkError>,
    f: spec_fn(IntSym, IntSym) -> Result<Sym, LlzkError>,
) -> Result<Reading, LlzkError> {
    match ab {
        Err(e) => Err(e),
        Ok((a, b, es)) => match f(a, b) {
            Err(e) => Err(e),
            Ok(s) => Ok((Reading { sym: s, effects: es })),
        },
    }
}

/// The first component of a result.
pub open spec fn first(r: Result<(IntSym, Sym), LlzkError>) -> Result<IntSym, LlzkError> {
    match r {
        Ok((i, _)) => Ok(i),
        Err(e) => Err(e),
    }
}

/// The second component of a result.
pub open spec fn second(r: Result<(IntSym, Sym), LlzkError>) -> Result<Sym, LlzkError> {
    match r {
        Ok((_, s)) => Ok(s),
        Err(e) => Err(e),
    }
}

/// An 8-bit integer as a 16-bit one.
pub open spec fn widen_u8(i: IntSym) -> Result<IntSym, LlzkError> {
    match i {
        IntSym::U8(s) => Ok(IntSym::U16(s)),
        _ => Err(LlzkError::WidthMismatch),
    }
}

/// A 16-bit integer as a 32-bit one.
pub open spec fn widen_u16(i: IntSym) -> Result<IntSym, LlzkError> {
    match i {
        IntSym::U16(s) => Ok(IntSym::U32(s, ir::felt(0))),
        _ => Err(LlzkError::WidthMismatch),
    }
}

/// The low byte of a 16-bit integer.
pub open spec fn truncate_u16(i: IntSym) -> Result<IntSym, LlzkError> {
    match i {
        IntSym::U16(s) => Ok(IntSym::U8(builder::lowest_bits(s, 8))),
        _ => Err(LlzkError::WidthMismatch),
    }
}

/// The low limb of a 32-bit integer.
pub open spec fn truncate_u32(i: IntSym) -> Result<IntSym, LlzkError> {
    match i {
        IntSym::U32(l, _) => Ok(IntSym::U16(l)),
        _ => Err(LlzkError::WidthMismatch),
    }
}

/// The lowering of a field expression.
pub open spec fn field_lowering(sc: ComputeScope, e: FieldNodeExpression, k: nat) -> Result<
    Reading,
    LlzkError,
>
    decreases e,
{
    match e {
        FieldNodeExpression::Place(v) => variable_reading(sc, v, k),
        FieldNodeExpression::SubExpression(idx) => plain(slot_field(sc, idx)),
        FieldNodeExpression::Constant(c) => Ok(constraints::pure(ir::felt(c.reduced()))),
        FieldNodeExpression::FromInteger(x) => mapped_int(
            integer_lowering(sc, *x, k),
            |i: IntSym| integers::to_field_sym(i),
        ),
        FieldNodeExpression::FromMask(x) => mapped(
            bool_lowering(sc, *x, k),
            |s: Sym| builder::to_field(s),
        ),
        FieldNodeExpression::OracleValue { placeholder, subindex } => field_oracle_reading(
            sc,
            placeholder,
            subindex,
            k,
        ),
        FieldNodeExpression::Add { lhs, rhs } => {
            let a = field_lowering(sc, *lhs, k);
            combined(FeltBinary::Add, both(a, field_lowering(sc, *rhs, after(k, a))))
        },
        FieldNodeExpression::Sub { lhs, rhs } => {
            let a = field_lowering(sc, *lhs, k);
            combined(FeltBinary::Sub, both(a, field_lowering(sc, *rhs, after(k, a))))
        },
        FieldNodeExpression::Mul { lhs, rhs } => {
            let a = field_lowering(sc, *lhs, k);
            combined(FeltBinary::Mul, both(a, field_lowering(sc, *rhs, after(k, a))))
        },
        FieldNodeExpression::AddProduct { additive_term, mul_0, mul_1 } => {
            let x = field_lowering(sc, *mul_0, k);
            let y = field_lowering(sc, *mul_1, after(k, x));
            let product = combined(FeltBinary::Mul, both(x, y));
            let addend = field_lowering(sc, *additive_term, after(k, product));
            match both(product, addend) {
                Err(e) => Err(e),
                Ok((m, a, es)) => Ok(
                    (Reading { sym: ir::felt2(FeltBinary::Add, a, m), effects: es }),
                ),
            }
        },
        FieldNodeExpression::Select { selector, if_true, if_false } => {
            let c = bool_lowering(sc, *selector, k);
            let a = field_lowering(sc, *if_true, after(k, c));
            let b = field_lowering(sc, *if_false, after(after(k, c), a));
            selected(c, both(a, b))
        },
        FieldNodeExpression::InverseUnchecked(x) => mapped(
            field_lowering(sc, *x, k),
            |s: Sym| ir::felt1(FeltUnary::Inv, s),
        ),
        FieldNodeExpression::InverseOrZero(_) => Ok(
            (Reading {
                sym: Sym::Result(k, 0),
                effects: seq![Effect::Nondet(ValueType::Felt)],
            }),
        ),
        FieldNodeExpression::LookupOutput { .. }
        | FieldNodeExpression::MaybeLookupOutput { .. } => Err(LlzkError::LookupNotRewritten),
    }
}

/// The lowering of a boolean expression.
pub open spec fn bool_lowering(sc: ComputeScope, e: BoolNodeExpression, k: nat) -> Result<
    Reading,
    LlzkError,
>
    decreases e,
{
    match e {
        BoolNodeExpression::Place(v) => mapped(
            variable_reading(sc, v, k),
            |s: Sym| builder::is_nonzero(s),
        ),
        BoolNodeExpression::SubExpression(idx) => plain(slot_bool(sc, idx)),
        BoolNodeExpression::Constant(c) => Ok(constraints::pure(ir::boolean(c))),
        BoolNodeExpression::OracleValue { placeholder } => bool_oracle_reading(sc, placeholder, k),
        BoolNodeExpression::FromGenericInteger(x) => mapped_int(
            integer_lowering(sc, *x, k),
            |i: IntSym| integers::nonzero_sym(i),
        ),
        BoolNodeExpression::FromGenericIntegerEquality { lhs, rhs } => {
            let a = integer_lowering(sc, *lhs, k);
            compared(
                both_int(a, integer_lowering(sc, *rhs, after_int(k, a))),
                |x: IntSym, y: IntSym| integers::equal_sym(x, y),
            )
        },
        BoolNodeExpression::FromGenericIntegerCarry { lhs, rhs } => {
            let a = integer_lowering(sc, *lhs, k);
            compared(
                both_int(a, integer_lowering(sc, *rhs, after_int(k, a))),
                |x: IntSym, y: IntSym| second(integers::sum_sym(x, y)),
            )
        },
        BoolNodeExpression::FromGenericIntegerBorrow { lhs, rhs } => {
            let a = integer_lowering(sc, *lhs, k);
            compared(
                both_int(a, integer_lowering(sc, *rhs, after_int(k, a))),
                |x: IntSym, y: IntSym| second(integers::difference_sym(x, y)),
            )
        },
        BoolNodeExpression::FromField(x) => mapped(
            field_lowering(sc, *x, k),
            |s: Sym| builder::is_nonzero(s),
        ),
        BoolNodeExpression::FromFieldEquality { lhs, rhs } => {
            let a = field_lowering(sc, *lhs, k);
            match both(a, field_lowering(sc, *rhs, after(k, a))) {
                Err(e) => Err(e),
                Ok((x, y, es)) => Ok(
                    (Reading { sym: ir::compare(Comparison::Eq, x, y), effects: es }),
                ),
            }
        },
        BoolNodeExpression::And { lhs, rhs } => {
            let a = bool_lowering(sc, *lhs, k);
            combined_bool(BoolBinary::And, both(a, bool_lowering(sc, *rhs, after(k, a))))
        },
        BoolNodeExpression::Or { lhs, rhs } => {
            let a = bool_lowering(sc, *lhs, k);
            combined_bool(BoolBinary::Or, both(a, bool_lowering(sc, *rhs, after(k, a))))
        },
        BoolNodeExpression::Select { selector, if_true, if_false } => {
            let c = bool_lowering(sc, *selector, k);
            let a = bool_lowering(sc, *if_true, after(k, c));
            let b = bool_lowering(sc, *if_false, after(after(k, c), a));
            selected(c, both(a, b))
        },
        BoolNodeExpression::Negate(x) => mapped(
            bool_lowering(sc, *x, k),
            |s: Sym| ir::not(s),
        ),
    }
}

/// The lowering of an integer expression.
pub open spec fn integer_lowering(
    sc: ComputeScope,
    e: FixedWidthIntegerNodeExpression,
    k: nat,
) -> Result<IntReading, LlzkError>
    decreases e,
{
    match e {
        FixedWidthIntegerNodeExpression::U8Place(v) => widened(
            variable_reading(sc, v, k),
            |s: Sym| IntSym::U8(s),
        ),
        FixedWidthIntegerNodeExpression::U16Place(v) => widened(
            variable_reading(sc, v, k),
            |s: Sym| IntSym::U16(s),
        ),
        FixedWidthIntegerNodeExpression::U8SubExpression(idx)
        | FixedWidthIntegerNodeExpression::U16SubExpression(idx)
        | FixedWidthIntegerNodeExpression::U32SubExpression(idx) => plain_int(
            slot_integer(sc, idx),
        ),
        FixedWidthIntegerNodeExpression::U32OracleValue { placeholder } => u32_oracle_reading(
            sc,
            placeholder,
            k,
        ),
        FixedWidthIntegerNodeExpression::U16OracleValue { placeholder } => widened(
            oracle_reading(sc, READ_ORACLE_U16_HOOK@, placeholder, k),
            |s: Sym| IntSym::U16(s),
        ),
        FixedWidthIntegerNodeExpression::U8OracleValue { placeholder } => widened(
            oracle_reading(sc, READ_ORACLE_U8_HOOK@, placeholder, k),
            |s: Sym| IntSym::U8(s),
        ),
        FixedWidthIntegerNodeExpression::ConstantU8(c) => plain_int(
            Ok(IntSym::U8(ir::felt(c as u64))),
        ),
        FixedWidthIntegerNodeExpression::ConstantU16(c) => plain_int(
            Ok(IntSym::U16(ir::felt(c as u64))),
        ),
        FixedWidthIntegerNodeExpression::ConstantU32(c) => plain_int(
            Ok(integers::u32_constant_sym(c)),
        ),
        FixedWidthIntegerNodeExpression::U32FromMask(x) => widened(
            bool_lowering(sc, *x, k),
            |s: Sym| IntSym::U32(builder::to_field(s), ir::felt(0)),
        ),
        FixedWidthIntegerNodeExpression::U32FromField(x) => widened(
            field_lowering(sc, *x, k),
            |s: Sym| integers::from_field_sym(s),
        ),
        FixedWidthIntegerNodeExpression::WidenFromU8(x) => derived(
            integer_lowering(sc, *x, k),
            |i: IntSym| widen_u8(i),
        ),
        FixedWidthIntegerNodeExpression::WidenFromU16(x) => derived(
            integer_lowering(sc, *x, k),
            |i: IntSym| widen_u16(i),
        ),
        FixedWidthIntegerNodeExpression::TruncateFromU16(x) => derived(
            integer_lowering(sc, *x, k),
            |i: IntSym| truncate_u16(i),
        ),
        FixedWidthIntegerNodeExpression::TruncateFromU32(x) => derived(
            integer_lowering(sc, *x, k),
            |i: IntSym| truncate_u32(i),
        ),
        FixedWidthIntegerNodeExpression::I32FromU32(x)
        | FixedWidthIntegerNodeExpression::U32FromI32(x) => integer_lowering(sc, *x, k),
        FixedWidthIntegerNodeExpression::Select { selector, if_true, if_false } => {
            let c = bool_lowering(sc, *selector, k);
            let a = integer_lowering(sc, *if_true, after(k, c));
            let b = integer_lowering(sc, *if_false, after_int(after(k, c), a));
            match c {
                Err(e) => Err(e),
                Ok(c) => match joined(
                    both_int(a, b),
                    |x: IntSym, y: IntSym| integers::select_sym(c.sym, x, y),
                ) {
                    Err(e) => Err(e),
                    Ok(r) => Ok((IntReading { int: r.int, effects: c.effects + r.effects })),
                },
            }
        },
        FixedWidthIntegerNodeExpression::WrappingAdd { lhs, rhs } => {
            let a = integer_lowering(sc, *lhs, k);
            joined(
                both_int(a, integer_lowering(sc, *rhs, after_int(k, a))),
                |x: IntSym, y: IntSym| first(integers::sum_sym(x, y)),
            )
        },
        FixedWidthIntegerNodeExpression::WrappingSub { lhs, rhs } => {
            let a = integer_lowering(sc, *lhs, k);
            joined(
                both_int(a, integer_lowering(sc, *rhs, after_int(k, a))),
                |x: IntSym, y: IntSym| first(integers::difference_sym(x, y)),
            )
        },
        FixedWidthIntegerNodeExpression::WrappingShl { lhs, magnitude } => derived(
            integer_lowering(sc, *lhs, k),
            |i: IntSym| Ok(integers::shift_left_sym(i, magnitude)),
        ),
        FixedWidthIntegerNodeExpression::WrappingShr { lhs, magnitude } => derived(
            integer_lowering(sc, *lhs, k),
            |i: IntSym| Ok(integers::shift_right_sym(i, magnitude)),
        ),
        FixedWidthIntegerNodeExpression::LowestBits { value, num_bits } => derived(
            integer_lowering(sc, *value, k),
            |i: IntSym| Ok(integers::lowest_bits_sym(i, num_bits)),
        ),
        FixedWidthIntegerNodeExpression::BinaryNot(x) => derived(
            integer_lowering(sc, *x, k),
            |i: IntSym| Ok(integers::not_sym(i)),
        ),
        FixedWidthIntegerNodeExpression::BinaryAnd { lhs, rhs } => {
            let a = integer_lowering(sc, *lhs, k);
            joined(
                both_int(a, integer_lowering(sc, *rhs, after_int(k, a))),
                |x: IntSym, y: IntSym| integers::bitwise_sym(FeltBinary::BitAnd, x, y),
            )
        },
        FixedWidthIntegerNodeExpression::BinaryOr { lhs, rhs } => {
            let a = integer_lowering(sc, *lhs, k);
            joined(
                both_int(a, integer_lowering(sc, *rhs, after_int(k, a))),
                |x: IntSym, y: IntSym| integers::bitwise_sym(FeltBinary::BitOr, x, y),
            )
        },
        FixedWidthIntegerNodeExpression::BinaryXor { lhs, rhs } => {
            let a = integer_lowering(sc, *lhs, k);
            joined(
                both_int(a, integer_lowering(sc, *rhs, after_int(k, a))),
                |x: IntSym, y: IntSym| integers::bitwise_sym(FeltBinary::BitXor, x, y),
            )
        },
        _ => Err(LlzkError::UnsupportedInteger),
    }
}

} // verus!
