//! What lowered expressions compute.
use vstd::prelude::*;

use crate::circuit::Placeholder;
use crate::circuit::Variable;
use crate::llzk::builder::LlzkError;
use crate::llzk::integer_laws;
use crate::llzk::integers;
use crate::llzk::integers::IntSym;
use crate::llzk::ir;
use crate::llzk::ir::BoolBinary;
use crate::llzk::ir::Comparison;
use crate::llzk::ir::Effect;
use crate::llzk::ir::FeltBinary;
use crate::llzk::ir::FeltUnary;
use crate::llzk::ir::Sym;
use crate::llzk::ir::Valuation;
use crate::llzk::laws;
use crate::llzk::lowering;
use crate::llzk::lowering::ComputeScope;
use crate::llzk::lowering::ComputedSym;
use crate::llzk::lowering::IntReading;
use crate::llzk::lowering::SlotSym;
use crate::llzk::oracle;
use crate::llzk::ssa::BoolNodeExpression;
use crate::llzk::ssa::Expression;
use crate::llzk::ssa::FieldNodeExpression;
use crate::llzk::ssa::FixedWidthIntegerNodeExpression;
use crate::llzk::vars;
use crate::llzk::vars::ArgSlot;
use crate::llzk::vars::Reading;
use crate::llzk::witness;
use crate::primality;

verus! {

/// What an earlier step computed. An integer has its width first, and a lookup its outputs.
pub enum Meaning {
    Field(int),
    Bool(bool),
    Integer(nat, int),
    Lookup(Seq<int>),
    Unit,
}

/// What a compute function finds: what the members hold limb by limb, what the hooks answer to
/// arguments, result by result, and what the earlier steps computed.
pub struct World {
    pub member: spec_fn(Seq<char>, int) -> int,
    pub hook: spec_fn(Seq<char>, Seq<int>, nat) -> int,
    pub slots: Seq<Meaning>,
}

/// The values of terms.
pub open spec fn evals(syms: Seq<Sym>, rho: Valuation) -> Seq<int> {
    syms.map_values(|s: Sym| s.eval(rho))
}

/// Whether an effect with this number gives what the world holds.
pub open spec fn answer(e: Effect, k: nat, rho: Valuation, w: World) -> bool {
    match e {
        Effect::MemberRead(_, name, _) => forall|limb: int| #[trigger]
            (rho.result)(k, 0, limb) == (w.member)(name, limb),
        Effect::Call(name, args, _) => forall|j: nat| #[trigger]
            (rho.result)(k, j, 0) == (w.hook)(name, evals(args, rho), j),
        _ => true,
    }
}

/// Whether every effect gives what the world holds.
#[verifier::opaque]
pub open spec fn answered(es: Seq<Effect>, k: nat, rho: Valuation, w: World) -> bool {
    forall|i: int| 0 <= i < es.len() ==> answer(#[trigger] es[i], (k + i) as nat, rho, w)
}

/// Whether the terms of lookup outputs have these field values.
pub open spec fn outputs_agree(xs: Seq<Sym>, vs: Seq<int>, rho: Valuation) -> bool {
    &&& xs.len() == vs.len()
    &&& forall|i: int|
        0 <= i < xs.len() ==> (#[trigger] xs[i]).eval(rho) == vs[i] && 0 <= vs[i] < laws::p()
}

/// Whether the terms of a slot have the value that the step computed.
pub open spec fn slot_agrees(s: SlotSym, m: Meaning, rho: Valuation) -> bool {
    match (s, m) {
        (SlotSym::Value(ComputedSym::Field(x)), Meaning::Field(v)) => x.eval(rho) == v && 0 <= v
            < laws::p(),
        (SlotSym::Value(ComputedSym::Bool(x)), Meaning::Bool(b)) => (x.eval(rho) != 0) == b,
        (SlotSym::Value(ComputedSym::Integer(i)), Meaning::Integer(width, v)) => i.width() == width
            && integer_laws::fits(i, rho) && integer_laws::value(i, rho) == v,
        (SlotSym::Lookup(xs), Meaning::Lookup(vs)) => outputs_agree(xs, vs, rho),
        (SlotSym::Unit, Meaning::Unit) => true,
        _ => false,
    }
}

/// Whether all slots have the values that the steps computed.
pub open spec fn slots_agree(sc: ComputeScope, rho: Valuation, w: World) -> bool {
    &&& sc.slots.len() == w.slots.len()
    &&& forall|i: int|
        0 <= i < sc.slots.len() ==> slot_agrees(#[trigger] sc.slots[i], w.slots[i], rho)
}

/// The value of an argument.
pub open spec fn arg_value(slot: ArgSlot, rho: Valuation) -> int {
    (rho.arg)(slot.arg, laws::limb_index(slot.limb)) % laws::p()
}

/// The value of a variable: of its argument, of its member, or of its memory column.
pub open spec fn variable_value(sc: ComputeScope, v: Variable, rho: Valuation, w: World) -> int {
    if sc.args_map.contains_key(v.0) {
        arg_value(sc.args_map[v.0], rho)
    } else if sc.members.contains_key(v.0) {
        (w.member)(sc.members[v.0].0, laws::limb_index(sc.members[v.0].1)) % laws::p()
    } else {
        (w.hook)(
            lowering::READ_FROM_MEMORY_SUBTREE_HOOK@,
            seq![sc.mapping[v.0]->MemorySubtree_0 as int],
            0,
        ) % laws::p()
    }
}

/// The value of a limb of a placeholder that is an argument.
pub open spec fn limb_value(
    sc: ComputeScope,
    placeholder: Placeholder,
    subindex: usize,
    rho: Valuation,
) -> Option<int> {
    match lowering::substituted(sc.substitutions, placeholder, subindex) {
        None => None,
        Some(v) => if sc.args_map.contains_key(v.0) {
            Some(arg_value(sc.args_map[v.0], rho))
        } else {
            None
        },
    }
}

/// The numbers that name a placeholder to a hook.
pub open spec fn placeholder_codes(placeholder: Placeholder) -> Seq<int> {
    let e = oracle::encoding(placeholder);
    seq![e.kind as int % laws::p(), e.arg0 as int % laws::p(), e.arg1 as int % laws::p()]
}

/// The value of a placeholder: of its argument, or what the hook answers.
pub open spec fn placeholder_value(
    sc: ComputeScope,
    hook: Seq<char>,
    placeholder: Placeholder,
    rho: Valuation,
    w: World,
) -> int {
    match limb_value(sc, placeholder, 0, rho) {
        Some(x) => x,
        None => (w.hook)(hook, placeholder_codes(placeholder), 0) % laws::p(),
    }
}

/// The value of a limb of a field placeholder.
pub open spec fn field_placeholder_value(
    sc: ComputeScope,
    placeholder: Placeholder,
    subindex: usize,
    rho: Valuation,
    w: World,
) -> int {
    match limb_value(sc, placeholder, subindex, rho) {
        Some(x) => x,
        None => (w.hook)(
            lowering::READ_ORACLE_FIELD_HOOK@,
            placeholder_codes(placeholder).push(subindex as u64 as int % laws::p()),
            0,
        ) % laws::p(),
    }
}

/// A limb of a 32-bit placeholder: both limbs are arguments, or the hook answers both.
pub open spec fn u32_placeholder_limb(
    sc: ComputeScope,
    placeholder: Placeholder,
    limb: usize,
    rho: Valuation,
    w: World,
) -> int {
    match limb_value(sc, placeholder, 0, rho) {
        Some(_) => limb_value(sc, placeholder, limb, rho)->Some_0,
        None => (w.hook)(
            lowering::READ_ORACLE_U32_HOOK@,
            placeholder_codes(placeholder),
            limb as nat,
        ) % laws::p(),
    }
}

/// `2^width`
pub open spec fn two_to(width: nat) -> int {
    vstd::arithmetic::power2::pow2(width) as int
}

/// The width of an integer expression.
pub open spec fn integer_width(e: FixedWidthIntegerNodeExpression, w: World) -> nat
    decreases e,
{
    match e {
        FixedWidthIntegerNodeExpression::U8Place(_) => 8,
        FixedWidthIntegerNodeExpression::U16Place(_) => 16,
        FixedWidthIntegerNodeExpression::U8SubExpression(idx)
        | FixedWidthIntegerNodeExpression::U16SubExpression(idx)
        | FixedWidthIntegerNodeExpression::U32SubExpression(idx) => w.slots[idx as int]->Integer_0,
        FixedWidthIntegerNodeExpression::U16OracleValue { .. } => 16,
        FixedWidthIntegerNodeExpression::U8OracleValue { .. } => 8,
        FixedWidthIntegerNodeExpression::ConstantU8(_) => 8,
        FixedWidthIntegerNodeExpression::ConstantU16(_) => 16,
        FixedWidthIntegerNodeExpression::WidenFromU8(_) => 16,
        FixedWidthIntegerNodeExpression::TruncateFromU16(_) => 8,
        FixedWidthIntegerNodeExpression::TruncateFromU32(_) => 16,
        FixedWidthIntegerNodeExpression::I32FromU32(x)
        | FixedWidthIntegerNodeExpression::U32FromI32(x)
        | FixedWidthIntegerNodeExpression::BinaryNot(x) => integer_width(*x, w),
        FixedWidthIntegerNodeExpression::Select { if_true, .. } => integer_width(*if_true, w),
        FixedWidthIntegerNodeExpression::WrappingAdd { lhs, .. }
        | FixedWidthIntegerNodeExpression::WrappingSub { lhs, .. }
        | FixedWidthIntegerNodeExpression::BinaryAnd { lhs, .. }
        | FixedWidthIntegerNodeExpression::BinaryOr { lhs, .. }
        | FixedWidthIntegerNodeExpression::BinaryXor { lhs, .. }
        | FixedWidthIntegerNodeExpression::WrappingShl { lhs, .. }
        | FixedWidthIntegerNodeExpression::WrappingShr { lhs, .. } => integer_width(*lhs, w),
        FixedWidthIntegerNodeExpression::LowestBits { value, .. } => integer_width(*value, w),
        _ => 32,
    }
}

/// What an earlier step computed, as a field element.
pub open spec fn slot_value(w: World, idx: usize) -> int {
    match w.slots[idx as int] {
        Meaning::Field(v) => v,
        Meaning::Bool(b) => ir::truth(b),
        Meaning::Integer(_, v) => v % laws::p(),
        Meaning::Lookup(_) | Meaning::Unit => 0,
    }
}

/// The value of a field expression.
pub open spec fn field_value(
    sc: ComputeScope,
    e: FieldNodeExpression,
    rho: Valuation,
    w: World,
) -> int
    decreases e,
{
    match e {
        FieldNodeExpression::Place(v) => variable_value(sc, v, rho, w),
        FieldNodeExpression::SubExpression(idx) => slot_value(w, idx),
        FieldNodeExpression::Constant(c) => c.reduced() as int,
        FieldNodeExpression::FromInteger(x) => integer_value(sc, *x, rho, w) % laws::p(),
        FieldNodeExpression::FromMask(x) => ir::truth(bool_value(sc, *x, rho, w)),
        FieldNodeExpression::OracleValue { placeholder, subindex } => field_placeholder_value(
            sc,
            placeholder,
            subindex,
            rho,
            w,
        ),
        FieldNodeExpression::Add { lhs, rhs } => (field_value(sc, *lhs, rho, w) + field_value(
            sc,
            *rhs,
            rho,
            w,
        )) % laws::p(),
        FieldNodeExpression::Sub { lhs, rhs } => (field_value(sc, *lhs, rho, w) - field_value(
            sc,
            *rhs,
            rho,
            w,
        )) % laws::p(),
        FieldNodeExpression::Mul { lhs, rhs } => (field_value(sc, *lhs, rho, w) * field_value(
            sc,
            *rhs,
            rho,
            w,
        )) % laws::p(),
        FieldNodeExpression::AddProduct { additive_term, mul_0, mul_1 } => (field_value(
            sc,
            *additive_term,
            rho,
            w,
        ) + field_value(sc, *mul_0, rho, w) * field_value(sc, *mul_1, rho, w)) % laws::p(),
        FieldNodeExpression::Select { selector, if_true, if_false } => if bool_value(
            sc,
            *selector,
            rho,
            w,
        ) {
            field_value(sc, *if_true, rho, w)
        } else {
            field_value(sc, *if_false, rho, w)
        },
        FieldNodeExpression::InverseUnchecked(x) => ir::inverse(field_value(sc, *x, rho, w)),
        _ => 0,
    }
}

/// The value of a boolean expression.
pub open spec fn bool_value(
    sc: ComputeScope,
    e: BoolNodeExpression,
    rho: Valuation,
    w: World,
) -> bool
    decreases e,
{
    match e {
        BoolNodeExpression::Place(v) => variable_value(sc, v, rho, w) != 0,
        BoolNodeExpression::SubExpression(idx) => w.slots[idx as int]->Bool_0,
        BoolNodeExpression::Constant(c) => c,
        BoolNodeExpression::OracleValue { placeholder } => placeholder_value(
            sc,
            lowering::READ_ORACLE_BOOL_HOOK@,
            placeholder,
            rho,
            w,
        ) != 0,
        BoolNodeExpression::FromGenericInteger(x) => integer_value(sc, *x, rho, w) != 0,
        BoolNodeExpression::FromGenericIntegerEquality { lhs, rhs } => integer_value(
            sc,
            *lhs,
            rho,
            w,
        ) == integer_value(sc, *rhs, rho, w),
        BoolNodeExpression::FromGenericIntegerCarry { lhs, rhs } => integer_value(sc, *lhs, rho, w)
            + integer_value(sc, *rhs, rho, w) >= two_to(integer_width(*lhs, w)),
        BoolNodeExpression::FromGenericIntegerBorrow { lhs, rhs } => integer_value(sc, *lhs, rho, w)
            < integer_value(sc, *rhs, rho, w),
        BoolNodeExpression::FromField(x) => field_value(sc, *x, rho, w) != 0,
        BoolNodeExpression::FromFieldEquality { lhs, rhs } => field_value(sc, *lhs, rho, w)
            == field_value(sc, *rhs, rho, w),
        BoolNodeExpression::And { lhs, rhs } => bool_value(sc, *lhs, rho, w) && bool_value(
            sc,
            *rhs,
            rho,
            w,
        ),
        BoolNodeExpression::Or { lhs, rhs } => bool_value(sc, *lhs, rho, w) || bool_value(
            sc,
            *rhs,
            rho,
            w,
        ),
        BoolNodeExpression::Select { selector, if_true, if_false } => if bool_value(
            sc,
            *selector,
            rho,
            w,
        ) {
            bool_value(sc, *if_true, rho, w)
        } else {
            bool_value(sc, *if_false, rho, w)
        },
        BoolNodeExpression::Negate(x) => !bool_value(sc, *x, rho, w),
    }
}

/// The number of an integer expression.
pub open spec fn integer_value(
    sc: ComputeScope,
    e: FixedWidthIntegerNodeExpression,
    rho: Valuation,
    w: World,
) -> int
    decreases e,
{
    match e {
        FixedWidthIntegerNodeExpression::U8Place(v)
        | FixedWidthIntegerNodeExpression::U16Place(v) => variable_value(sc, v, rho, w),
        FixedWidthIntegerNodeExpression::U8SubExpression(idx)
        | FixedWidthIntegerNodeExpression::U16SubExpression(idx)
        | FixedWidthIntegerNodeExpression::U32SubExpression(idx) => w.slots[idx as int]->Integer_1,
        FixedWidthIntegerNodeExpression::U32OracleValue { placeholder } => u32_placeholder_limb(
            sc,
            placeholder,
            0,
            rho,
            w,
        ) + 0x1_0000 * u32_placeholder_limb(sc, placeholder, 1, rho, w),
        FixedWidthIntegerNodeExpression::U16OracleValue { placeholder } => placeholder_value(
            sc,
            lowering::READ_ORACLE_U16_HOOK@,
            placeholder,
            rho,
            w,
        ),
        FixedWidthIntegerNodeExpression::U8OracleValue { placeholder } => placeholder_value(
            sc,
            lowering::READ_ORACLE_U8_HOOK@,
            placeholder,
            rho,
            w,
        ),
        FixedWidthIntegerNodeExpression::ConstantU8(c) => c as int,
        FixedWidthIntegerNodeExpression::ConstantU16(c) => c as int,
        FixedWidthIntegerNodeExpression::ConstantU32(c) => c as int,
        FixedWidthIntegerNodeExpression::U32FromMask(x) => ir::truth(bool_value(sc, *x, rho, w)),
        FixedWidthIntegerNodeExpression::U32FromField(x) => field_value(sc, *x, rho, w),
        FixedWidthIntegerNodeExpression::WidenFromU8(x)
        | FixedWidthIntegerNodeExpression::WidenFromU16(x)
        | FixedWidthIntegerNodeExpression::I32FromU32(x)
        | FixedWidthIntegerNodeExpression::U32FromI32(x) => integer_value(sc, *x, rho, w),
        FixedWidthIntegerNodeExpression::TruncateFromU16(x) => integer_value(sc, *x, rho, w)
            % 0x100,
        FixedWidthIntegerNodeExpression::TruncateFromU32(x) => integer_value(sc, *x, rho, w)
            % 0x1_0000,
        FixedWidthIntegerNodeExpression::Select { selector, if_true, if_false } => if bool_value(
            sc,
            *selector,
            rho,
            w,
        ) {
            integer_value(sc, *if_true, rho, w)
        } else {
            integer_value(sc, *if_false, rho, w)
        },
        FixedWidthIntegerNodeExpression::WrappingAdd { lhs, rhs } => (integer_value(
            sc,
            *lhs,
            rho,
            w,
        ) + integer_value(sc, *rhs, rho, w)) % two_to(integer_width(*lhs, w)),
        FixedWidthIntegerNodeExpression::WrappingSub { lhs, rhs } => (integer_value(
            sc,
            *lhs,
            rho,
            w,
        ) - integer_value(sc, *rhs, rho, w)) % two_to(integer_width(*lhs, w)),
        FixedWidthIntegerNodeExpression::WrappingShl { lhs, magnitude } => (integer_value(
            sc,
            *lhs,
            rho,
            w,
        ) * two_to(magnitude as nat)) % two_to(integer_width(*lhs, w)),
        FixedWidthIntegerNodeExpression::WrappingShr { lhs, magnitude } => integer_value(
            sc,
            *lhs,
            rho,
            w,
        ) / two_to(magnitude as nat),
        FixedWidthIntegerNodeExpression::LowestBits { value, num_bits } => integer_value(
            sc,
            *value,
            rho,
            w,
        ) % two_to(integers::at_most(num_bits, integer_width(*value, w) as u32) as nat),
        FixedWidthIntegerNodeExpression::BinaryNot(x) => two_to(integer_width(*x, w)) - 1
            - integer_value(sc, *x, rho, w),
        FixedWidthIntegerNodeExpression::BinaryAnd { lhs, rhs } => ((integer_value(sc, *lhs, rho, w)
            as u32) & (integer_value(sc, *rhs, rho, w) as u32)) as int,
        FixedWidthIntegerNodeExpression::BinaryOr { lhs, rhs } => ((integer_value(sc, *lhs, rho, w)
            as u32) | (integer_value(sc, *rhs, rho, w) as u32)) as int,
        FixedWidthIntegerNodeExpression::BinaryXor { lhs, rhs } => ((integer_value(sc, *lhs, rho, w)
            as u32) ^ (integer_value(sc, *rhs, rho, w) as u32)) as int,
        _ => 0,
    }
}

/// Whether a field expression has a value: what it inverts is not zero, and its integers fit.
pub open spec fn field_sound(
    sc: ComputeScope,
    e: FieldNodeExpression,
    rho: Valuation,
    w: World,
) -> bool
    decreases e,
{
    match e {
        FieldNodeExpression::FromInteger(x) => integer_sound(sc, *x, rho, w),
        FieldNodeExpression::FromMask(x) => bool_sound(sc, *x, rho, w),
        FieldNodeExpression::Add { lhs, rhs }
        | FieldNodeExpression::Sub { lhs, rhs }
        | FieldNodeExpression::Mul { lhs, rhs } => field_sound(sc, *lhs, rho, w) && field_sound(
            sc,
            *rhs,
            rho,
            w,
        ),
        FieldNodeExpression::AddProduct { additive_term, mul_0, mul_1 } => field_sound(
            sc,
            *additive_term,
            rho,
            w,
        ) && field_sound(sc, *mul_0, rho, w) && field_sound(sc, *mul_1, rho, w),
        FieldNodeExpression::Select { selector, if_true, if_false } => bool_sound(
            sc,
            *selector,
            rho,
            w,
        ) && field_sound(sc, *if_true, rho, w) && field_sound(sc, *if_false, rho, w),
        FieldNodeExpression::InverseUnchecked(x) => field_sound(sc, *x, rho, w) && field_value(
            sc,
            *x,
            rho,
            w,
        ) != 0,
        FieldNodeExpression::InverseOrZero(_) => false,
        _ => true,
    }
}

/// Whether a boolean expression has a value.
pub open spec fn bool_sound(
    sc: ComputeScope,
    e: BoolNodeExpression,
    rho: Valuation,
    w: World,
) -> bool
    decreases e,
{
    match e {
        BoolNodeExpression::FromGenericInteger(x) => integer_sound(sc, *x, rho, w),
        BoolNodeExpression::FromGenericIntegerEquality { lhs, rhs }
        | BoolNodeExpression::FromGenericIntegerCarry { lhs, rhs }
        | BoolNodeExpression::FromGenericIntegerBorrow { lhs, rhs } => integer_sound(
            sc,
            *lhs,
            rho,
            w,
        ) && integer_sound(sc, *rhs, rho, w),
        BoolNodeExpression::FromField(x) => field_sound(sc, *x, rho, w),
        BoolNodeExpression::FromFieldEquality { lhs, rhs } => field_sound(sc, *lhs, rho, w)
            && field_sound(sc, *rhs, rho, w),
        BoolNodeExpression::And { lhs, rhs }
        | BoolNodeExpression::Or { lhs, rhs } => bool_sound(sc, *lhs, rho, w) && bool_sound(
            sc,
            *rhs,
            rho,
            w,
        ),
        BoolNodeExpression::Select { selector, if_true, if_false } => bool_sound(
            sc,
            *selector,
            rho,
            w,
        ) && bool_sound(sc, *if_true, rho, w) && bool_sound(sc, *if_false, rho, w),
        BoolNodeExpression::Negate(x) => bool_sound(sc, *x, rho, w),
        _ => true,
    }
}

/// Whether an integer expression has a value: what it reads fits its width, and what it shifts to
/// the left stays below the characteristic.
pub open spec fn integer_sound(
    sc: ComputeScope,
    e: FixedWidthIntegerNodeExpression,
    rho: Valuation,
    w: World,
) -> bool
    decreases e,
{
    match e {
        FixedWidthIntegerNodeExpression::U8Place(v) => variable_value(sc, v, rho, w) < 0x100,
        FixedWidthIntegerNodeExpression::U16Place(v) => variable_value(sc, v, rho, w) < 0x1_0000,
        FixedWidthIntegerNodeExpression::U32OracleValue { placeholder } => u32_placeholder_limb(
            sc,
            placeholder,
            0,
            rho,
            w,
        ) < 0x1_0000 && u32_placeholder_limb(sc, placeholder, 1, rho, w) < 0x1_0000,
        FixedWidthIntegerNodeExpression::U16OracleValue { placeholder } => placeholder_value(
            sc,
            lowering::READ_ORACLE_U16_HOOK@,
            placeholder,
            rho,
            w,
        ) < 0x1_0000,
        FixedWidthIntegerNodeExpression::U8OracleValue { placeholder } => placeholder_value(
            sc,
            lowering::READ_ORACLE_U8_HOOK@,
            placeholder,
            rho,
            w,
        ) < 0x100,
        FixedWidthIntegerNodeExpression::U32FromMask(x) => bool_sound(sc, *x, rho, w),
        FixedWidthIntegerNodeExpression::U32FromField(x) => field_sound(sc, *x, rho, w),
        FixedWidthIntegerNodeExpression::WidenFromU8(x)
        | FixedWidthIntegerNodeExpression::WidenFromU16(x)
        | FixedWidthIntegerNodeExpression::TruncateFromU16(x)
        | FixedWidthIntegerNodeExpression::TruncateFromU32(x)
        | FixedWidthIntegerNodeExpression::I32FromU32(x)
        | FixedWidthIntegerNodeExpression::U32FromI32(x)
        | FixedWidthIntegerNodeExpression::BinaryNot(x) => integer_sound(sc, *x, rho, w),
        FixedWidthIntegerNodeExpression::Select { selector, if_true, if_false } => bool_sound(
            sc,
            *selector,
            rho,
            w,
        ) && integer_sound(sc, *if_true, rho, w) && integer_sound(sc, *if_false, rho, w),
        FixedWidthIntegerNodeExpression::WrappingAdd { lhs, rhs }
        | FixedWidthIntegerNodeExpression::WrappingSub { lhs, rhs }
        | FixedWidthIntegerNodeExpression::BinaryAnd { lhs, rhs }
        | FixedWidthIntegerNodeExpression::BinaryOr { lhs, rhs }
        | FixedWidthIntegerNodeExpression::BinaryXor { lhs, rhs } => integer_sound(sc, *lhs, rho, w)
            && integer_sound(sc, *rhs, rho, w),
        FixedWidthIntegerNodeExpression::WrappingShl { lhs, magnitude } => integer_sound(
            sc,
            *lhs,
            rho,
            w,
        ) && (integer_width(*lhs, w) < 32 ==> integer_width(*lhs, w) + magnitude <= 31),
        FixedWidthIntegerNodeExpression::WrappingShr { lhs, magnitude } => integer_sound(
            sc,
            *lhs,
            rho,
            w,
        ) && magnitude < laws::p(),
        FixedWidthIntegerNodeExpression::LowestBits { value, .. } => integer_sound(
            sc,
            *value,
            rho,
            w,
        ),
        _ => true,
    }
}

pub(crate) proof fn lemma_answered_append(a: Seq<Effect>, b: Seq<Effect>, k: nat, rho: Valuation, w: World)
    requires
        answered(a + b, k, rho, w),
    ensures
        answered(a, k, rho, w),
        answered(b, k + a.len(), rho, w),
{
    reveal(answered);
    let es = a + b;
    assert forall|i: int| 0 <= i < a.len() implies answer(
        #[trigger] a[i],
        (k + i) as nat,
        rho,
        w,
    ) by {
        assert(answer(es[i], (k + i) as nat, rho, w));
    }
    assert forall|i: int| 0 <= i < b.len() implies answer(
        #[trigger] b[i],
        (k + a.len() + i) as nat,
        rho,
        w,
    ) by {
        assert(answer(es[a.len() + i], (k + (a.len() + i)) as nat, rho, w));
        assert(es[a.len() + i] == b[i]);
    }
}

proof fn lemma_arg(slot: ArgSlot, sc: ComputeScope, rho: Valuation)
    requires
        vars::read_arg(slot, sc.args, 0) is Ok,
    ensures
        vars::read_arg(slot, sc.args, 0)->Ok_0.sym.eval(rho) == arg_value(slot, rho),
        0 <= arg_value(slot, rho) < laws::p(),
{
    reveal_with_fuel(Sym::eval, 2);
}

proof fn lemma_variable(sc: ComputeScope, v: Variable, k: nat, rho: Valuation, w: World)
    requires
        lowering::variable_reading(sc, v, k) is Ok,
        answered(lowering::variable_reading(sc, v, k)->Ok_0.effects, k, rho, w),
    ensures
        lowering::variable_reading(sc, v, k)->Ok_0.sym.eval(rho) == variable_value(sc, v, rho, w),
        0 <= variable_value(sc, v, rho, w) < laws::p(),
{
    reveal(answered);
    reveal_with_fuel(Sym::eval, 2);
    let r = lowering::variable_reading(sc, v, k)->Ok_0;
    if sc.args_map.contains_key(v.0) {
        lemma_arg(sc.args_map[v.0], sc, rho);
    } else if sc.members.contains_key(v.0) {
        let slot = sc.members[v.0];
        assert(answer(r.effects[0], (k + 0) as nat, rho, w));
        assert((rho.result)(k, 0, laws::limb_index(slot.1)) == (w.member)(
            slot.0,
            laws::limb_index(slot.1),
        ));
    } else {
        let offset = sc.mapping[v.0]->MemorySubtree_0;
        assert(answer(r.effects[0], (k + 0) as nat, rho, w));
        let args = seq![ir::index(offset as u64)];
        assert(evals(args, rho) =~= seq![offset as int]);
        assert((rho.result)(k, 0, 0) == (w.hook)(
            lowering::READ_FROM_MEMORY_SUBTREE_HOOK@,
            evals(args, rho),
            0,
        ));
    }
}

proof fn lemma_codes(placeholder: Placeholder, rho: Valuation)
    ensures
        evals(lowering::placeholder_args(placeholder), rho) == placeholder_codes(placeholder),
        forall|limb: u64|
            evals(
                #[trigger] lowering::placeholder_args(placeholder).push(ir::felt(limb)),
                rho,
            ) == placeholder_codes(placeholder).push(limb as int % laws::p()),
{
    reveal(Sym::eval);
    let args = lowering::placeholder_args(placeholder);
    assert(evals(args, rho) =~= placeholder_codes(placeholder));
    assert forall|limb: u64|
        evals(#[trigger] args.push(ir::felt(limb)), rho) == placeholder_codes(placeholder).push(
            limb as int % laws::p(),
        ) by {
        assert(evals(args.push(ir::felt(limb)), rho) =~= placeholder_codes(placeholder).push(
            limb as int % laws::p(),
        ));
    }
}

pub(crate) proof fn lemma_hook(
    name: Seq<char>,
    args: Seq<Sym>,
    n: nat,
    k: nat,
    j: nat,
    rho: Valuation,
    w: World,
)
    requires
        answered(seq![Effect::Call(name, args, n)], k, rho, w),
    ensures
        Sym::Result(k, j).eval(rho) == (w.hook)(name, evals(args, rho), j) % laws::p(),
        0 <= Sym::Result(k, j).eval(rho) < laws::p(),
{
    reveal(answered);
    reveal(Sym::eval);
    let es = seq![Effect::Call(name, args, n)];
    assert(answer(es[0], (k + 0) as nat, rho, w));
    assert((rho.result)(k, j, 0) == (w.hook)(name, evals(args, rho), j));
}

proof fn lemma_placeholder(
    sc: ComputeScope,
    hook: Seq<char>,
    placeholder: Placeholder,
    k: nat,
    rho: Valuation,
    w: World,
)
    requires
        lowering::oracle_reading(sc, hook, placeholder, k) is Ok,
        answered(lowering::oracle_reading(sc, hook, placeholder, k)->Ok_0.effects, k, rho, w),
    ensures
        lowering::oracle_reading(sc, hook, placeholder, k)->Ok_0.sym.eval(rho)
            == placeholder_value(sc, hook, placeholder, rho, w),
        0 <= placeholder_value(sc, hook, placeholder, rho, w) < laws::p(),
{
    lemma_codes(placeholder, rho);
    match lowering::limb_reading(sc, placeholder, 0) {
        Ok(Some(r)) => {
            let v = lowering::substituted(sc.substitutions, placeholder, 0)->Some_0;
            lemma_arg(sc.args_map[v.0], sc, rho);
        },
        _ => {
            lemma_hook(hook, lowering::placeholder_args(placeholder), 1, k, 0, rho, w);
        },
    }
}

proof fn lemma_field_placeholder(
    sc: ComputeScope,
    placeholder: Placeholder,
    subindex: usize,
    k: nat,
    rho: Valuation,
    w: World,
)
    requires
        lowering::field_oracle_reading(sc, placeholder, subindex, k) is Ok,
        answered(
            lowering::field_oracle_reading(sc, placeholder, subindex, k)->Ok_0.effects,
            k,
            rho,
            w,
        ),
    ensures
        lowering::field_oracle_reading(sc, placeholder, subindex, k)->Ok_0.sym.eval(rho)
            == field_placeholder_value(sc, placeholder, subindex, rho, w),
        0 <= field_placeholder_value(sc, placeholder, subindex, rho, w) < laws::p(),
{
    lemma_codes(placeholder, rho);
    match lowering::limb_reading(sc, placeholder, subindex) {
        Ok(Some(r)) => {
            let v = lowering::substituted(sc.substitutions, placeholder, subindex)->Some_0;
            lemma_arg(sc.args_map[v.0], sc, rho);
        },
        _ => {
            let args = lowering::placeholder_args(placeholder).push(ir::felt(subindex as u64));
            lemma_hook(lowering::READ_ORACLE_FIELD_HOOK@, args, 1, k, 0, rho, w);
        },
    }
}

proof fn lemma_bool_placeholder(
    sc: ComputeScope,
    placeholder: Placeholder,
    k: nat,
    rho: Valuation,
    w: World,
)
    requires
        lowering::bool_oracle_reading(sc, placeholder, k) is Ok,
        answered(lowering::bool_oracle_reading(sc, placeholder, k)->Ok_0.effects, k, rho, w),
    ensures
        (lowering::bool_oracle_reading(sc, placeholder, k)->Ok_0.sym.eval(rho) != 0) == (
        placeholder_value(sc, lowering::READ_ORACLE_BOOL_HOOK@, placeholder, rho, w) != 0),
{
    lemma_codes(placeholder, rho);
    match lowering::limb_reading(sc, placeholder, 0) {
        Ok(Some(r)) => {
            let v = lowering::substituted(sc.substitutions, placeholder, 0)->Some_0;
            lemma_arg(sc.args_map[v.0], sc, rho);
            integer_laws::nonzero_values_are_found(r.sym, rho);
        },
        _ => {
            lemma_hook(
                lowering::READ_ORACLE_BOOL_HOOK@,
                lowering::placeholder_args(placeholder),
                1,
                k,
                0,
                rho,
                w,
            );
        },
    }
}

proof fn lemma_u32_placeholder(
    sc: ComputeScope,
    placeholder: Placeholder,
    k: nat,
    rho: Valuation,
    w: World,
)
    requires
        lowering::u32_oracle_reading(sc, placeholder, k) is Ok,
        answered(lowering::u32_oracle_reading(sc, placeholder, k)->Ok_0.effects, k, rho, w),
        u32_placeholder_limb(sc, placeholder, 0, rho, w) < 0x1_0000,
        u32_placeholder_limb(sc, placeholder, 1, rho, w) < 0x1_0000,
    ensures
        ({
            let i = lowering::u32_oracle_reading(sc, placeholder, k)->Ok_0.int;
            &&& i is U32
            &&& integer_laws::fits(i, rho)
            &&& integer_laws::value(i, rho) == u32_placeholder_limb(sc, placeholder, 0, rho, w)
                + 0x1_0000 * u32_placeholder_limb(sc, placeholder, 1, rho, w)
        }),
{
    lemma_codes(placeholder, rho);
    let low = lowering::substituted(sc.substitutions, placeholder, 0);
    let high = lowering::substituted(sc.substitutions, placeholder, 1);
    let args = lowering::placeholder_args(placeholder);
    if low is Some && high is Some && sc.args_map.contains_key(low->Some_0.0) {
        lemma_arg(sc.args_map[low->Some_0.0], sc, rho);
        lemma_arg(sc.args_map[high->Some_0.0], sc, rho);
    } else {
        lemma_hook(lowering::READ_ORACLE_U32_HOOK@, args, 2, k, 0, rho, w);
        lemma_hook(lowering::READ_ORACLE_U32_HOOK@, args, 2, k, 1, rho, w);
    }
}

proof fn lemma_both(
    a: Result<Reading, LlzkError>,
    b: Result<Reading, LlzkError>,
    k: nat,
    rho: Valuation,
    w: World,
)
    requires
        lowering::both(a, b) is Ok,
        answered(lowering::both(a, b)->Ok_0.2, k, rho, w),
    ensures
        a is Ok,
        b is Ok,
        answered(a->Ok_0.effects, k, rho, w),
        answered(b->Ok_0.effects, lowering::after(k, a), rho, w),
{
    lemma_answered_append(a->Ok_0.effects, b->Ok_0.effects, k, rho, w);
}

proof fn lemma_both_int(
    a: Result<IntReading, LlzkError>,
    b: Result<IntReading, LlzkError>,
    k: nat,
    rho: Valuation,
    w: World,
)
    requires
        lowering::both_int(a, b) is Ok,
        answered(lowering::both_int(a, b)->Ok_0.2, k, rho, w),
    ensures
        a is Ok,
        b is Ok,
        answered(a->Ok_0.effects, k, rho, w),
        answered(b->Ok_0.effects, lowering::after_int(k, a), rho, w),
{
    lemma_answered_append(a->Ok_0.effects, b->Ok_0.effects, k, rho, w);
}

proof fn lemma_modulus(v: IntSym)
    ensures
        integer_laws::modulus(v) == two_to(v.width()),
{
    vstd::arithmetic::power2::lemma2_to64();
}

proof fn lemma_inverse(x: Sym, rho: Valuation)
    requires
        0 < x.eval(rho) < laws::p(),
    ensures
        ir::felt1(FeltUnary::Inv, x).eval(rho) == ir::inverse(x.eval(rho)),
        0 <= ir::inverse(x.eval(rho)) < laws::p(),
{
    reveal(Sym::eval);
    let a = x.eval(rho);
    let y = primality::inverses_exist(a);
    assert((a * y) % laws::p() == 1);
}

proof fn lemma_choice(c: Sym, a: Sym, b: Sym, rho: Valuation)
    ensures
        ir::select(c, a, b).eval(rho) == (if c.eval(rho) != 0 {
            a.eval(rho)
        } else {
            b.eval(rho)
        }),
{
    reveal(Sym::eval);
}

proof fn lemma_logic(a: Sym, b: Sym, rho: Valuation)
    ensures
        ir::bool2(BoolBinary::And, a, b).eval(rho) == ir::truth(
            a.eval(rho) != 0 && b.eval(rho) != 0,
        ),
        ir::bool2(BoolBinary::Or, a, b).eval(rho) == ir::truth(a.eval(rho) != 0 || b.eval(rho) != 0),
        ir::not(a).eval(rho) == ir::truth(a.eval(rho) == 0),
        ir::compare(Comparison::Eq, a, b).eval(rho) == ir::truth(a.eval(rho) == b.eval(rho)),
        ir::boolean(true).eval(rho) == 1,
        ir::boolean(false).eval(rho) == 0,
{
    reveal(Sym::eval);
}

/// A lowered field expression computes the value of the expression: where every effect gives what
/// the world holds and the earlier steps were computed, its term has that value.
#[verifier::spinoff_prover]
#[verifier::rlimit(40)]
pub proof fn field_expressions_are_computed(
    sc: ComputeScope,
    e: FieldNodeExpression,
    k: nat,
    rho: Valuation,
    w: World,
)
    requires
        lowering::field_lowering(sc, e, k) is Ok,
        answered(lowering::field_lowering(sc, e, k)->Ok_0.effects, k, rho, w),
        slots_agree(sc, rho, w),
        field_sound(sc, e, rho, w),
    ensures
        lowering::field_lowering(sc, e, k)->Ok_0.sym.eval(rho) == field_value(sc, e, rho, w),
        0 <= field_value(sc, e, rho, w) < laws::p(),
    decreases e,
{
    match e {
        FieldNodeExpression::Place(v) => {
            lemma_variable(sc, v, k, rho, w);
        },
        FieldNodeExpression::SubExpression(idx) => {
            assert(slot_agrees(sc.slots[idx as int], w.slots[idx as int], rho));
            match sc.slots[idx as int] {
                SlotSym::Value(ComputedSym::Integer(i)) => {
                    integer_laws::integers_in_the_field(i, rho);
                },
                SlotSym::Value(ComputedSym::Bool(b)) => {
                    integer_laws::booleans_in_the_field(b, rho);
                },
                _ => {},
            }
        },
        FieldNodeExpression::Constant(c) => {
            laws::constants_have_their_value(c.reduced(), rho);
        },
        FieldNodeExpression::FromInteger(x) => {
            integer_expressions_are_computed(sc, *x, k, rho, w);
            integer_laws::integers_in_the_field(
                lowering::integer_lowering(sc, *x, k)->Ok_0.int,
                rho,
            );
        },
        FieldNodeExpression::FromMask(x) => {
            bool_expressions_are_computed(sc, *x, k, rho, w);
            integer_laws::booleans_in_the_field(
                lowering::bool_lowering(sc, *x, k)->Ok_0.sym,
                rho,
            );
        },
        FieldNodeExpression::OracleValue { placeholder, subindex } => {
            lemma_field_placeholder(sc, placeholder, subindex, k, rho, w);
        },
        FieldNodeExpression::Add { lhs, rhs } => {
            let a = lowering::field_lowering(sc, *lhs, k);
            let b = lowering::field_lowering(sc, *rhs, lowering::after(k, a));
            lemma_both(a, b, k, rho, w);
            field_expressions_are_computed(sc, *lhs, k, rho, w);
            field_expressions_are_computed(sc, *rhs, lowering::after(k, a), rho, w);
            laws::binary_operations_work_on_values(
                FeltBinary::Add,
                a->Ok_0.sym,
                b->Ok_0.sym,
                rho,
            );
        },
        FieldNodeExpression::Sub { lhs, rhs } => {
            let a = lowering::field_lowering(sc, *lhs, k);
            let b = lowering::field_lowering(sc, *rhs, lowering::after(k, a));
            lemma_both(a, b, k, rho, w);
            field_expressions_are_computed(sc, *lhs, k, rho, w);
            field_expressions_are_computed(sc, *rhs, lowering::after(k, a), rho, w);
            laws::binary_operations_work_on_values(
                FeltBinary::Sub,
                a->Ok_0.sym,
                b->Ok_0.sym,
                rho,
            );
        },
        FieldNodeExpression::Mul { lhs, rhs } => {
            let a = lowering::field_lowering(sc, *lhs, k);
            let b = lowering::field_lowering(sc, *rhs, lowering::after(k, a));
            lemma_both(a, b, k, rho, w);
            field_expressions_are_computed(sc, *lhs, k, rho, w);
            field_expressions_are_computed(sc, *rhs, lowering::after(k, a), rho, w);
            laws::binary_operations_work_on_values(
                FeltBinary::Mul,
                a->Ok_0.sym,
                b->Ok_0.sym,
                rho,
            );
        },
        FieldNodeExpression::AddProduct { additive_term, mul_0, mul_1 } => {
            let x = lowering::field_lowering(sc, *mul_0, k);
            let y = lowering::field_lowering(sc, *mul_1, lowering::after(k, x));
            let product = lowering::combined(FeltBinary::Mul, lowering::both(x, y));
            let addend = lowering::field_lowering(
                sc,
                *additive_term,
                lowering::after(k, product),
            );
            lemma_both(product, addend, k, rho, w);
            lemma_both(x, y, k, rho, w);
            field_expressions_are_computed(sc, *mul_0, k, rho, w);
            field_expressions_are_computed(sc, *mul_1, lowering::after(k, x), rho, w);
            field_expressions_are_computed(
                sc,
                *additive_term,
                lowering::after(k, product),
                rho,
                w,
            );
            laws::binary_operations_work_on_values(
                FeltBinary::Mul,
                x->Ok_0.sym,
                y->Ok_0.sym,
                rho,
            );
            laws::binary_operations_work_on_values(
                FeltBinary::Add,
                addend->Ok_0.sym,
                product->Ok_0.sym,
                rho,
            );
            vstd::arithmetic::div_mod::lemma_add_mod_noop_right(
                addend->Ok_0.sym.eval(rho),
                x->Ok_0.sym.eval(rho) * y->Ok_0.sym.eval(rho),
                laws::p(),
            );
        },
        FieldNodeExpression::Select { selector, if_true, if_false } => {
            let c = lowering::bool_lowering(sc, *selector, k);
            let a = lowering::field_lowering(sc, *if_true, lowering::after(k, c));
            let b = lowering::field_lowering(
                sc,
                *if_false,
                lowering::after(lowering::after(k, c), a),
            );
            lemma_answered_append(
                c->Ok_0.effects,
                lowering::both(a, b)->Ok_0.2,
                k,
                rho,
                w,
            );
            lemma_both(a, b, lowering::after(k, c), rho, w);
            bool_expressions_are_computed(sc, *selector, k, rho, w);
            field_expressions_are_computed(sc, *if_true, lowering::after(k, c), rho, w);
            field_expressions_are_computed(
                sc,
                *if_false,
                lowering::after(lowering::after(k, c), a),
                rho,
                w,
            );
            lemma_choice(c->Ok_0.sym, a->Ok_0.sym, b->Ok_0.sym, rho);
        },
        FieldNodeExpression::InverseUnchecked(x) => {
            field_expressions_are_computed(sc, *x, k, rho, w);
            lemma_inverse(lowering::field_lowering(sc, *x, k)->Ok_0.sym, rho);
        },
        _ => {},
    }
}

/// A lowered boolean expression computes the value of the expression.
#[verifier::spinoff_prover]
#[verifier::rlimit(40)]
pub proof fn bool_expressions_are_computed(
    sc: ComputeScope,
    e: BoolNodeExpression,
    k: nat,
    rho: Valuation,
    w: World,
)
    requires
        lowering::bool_lowering(sc, e, k) is Ok,
        answered(lowering::bool_lowering(sc, e, k)->Ok_0.effects, k, rho, w),
        slots_agree(sc, rho, w),
        bool_sound(sc, e, rho, w),
    ensures
        (lowering::bool_lowering(sc, e, k)->Ok_0.sym.eval(rho) != 0) == bool_value(sc, e, rho, w),
    decreases e,
{
    match e {
        BoolNodeExpression::Place(v) => {
            lemma_variable(sc, v, k, rho, w);
            integer_laws::nonzero_values_are_found(
                lowering::variable_reading(sc, v, k)->Ok_0.sym,
                rho,
            );
        },
        BoolNodeExpression::SubExpression(idx) => {
            assert(slot_agrees(sc.slots[idx as int], w.slots[idx as int], rho));
        },
        BoolNodeExpression::Constant(c) => {
            lemma_logic(ir::boolean(c), ir::boolean(c), rho);
        },
        BoolNodeExpression::OracleValue { placeholder } => {
            lemma_bool_placeholder(sc, placeholder, k, rho, w);
        },
        BoolNodeExpression::FromGenericInteger(x) => {
            integer_expressions_are_computed(sc, *x, k, rho, w);
            integer_laws::nonzero_integers_are_found(
                lowering::integer_lowering(sc, *x, k)->Ok_0.int,
                rho,
            );
        },
        BoolNodeExpression::FromGenericIntegerEquality { lhs, rhs } => {
            let a = lowering::integer_lowering(sc, *lhs, k);
            let b = lowering::integer_lowering(sc, *rhs, lowering::after_int(k, a));
            lemma_both_int(a, b, k, rho, w);
            integer_expressions_are_computed(sc, *lhs, k, rho, w);
            integer_expressions_are_computed(sc, *rhs, lowering::after_int(k, a), rho, w);
            integer_laws::equalities_compare_numbers(a->Ok_0.int, b->Ok_0.int, rho);
        },
        BoolNodeExpression::FromGenericIntegerCarry { lhs, rhs } => {
            let a = lowering::integer_lowering(sc, *lhs, k);
            let b = lowering::integer_lowering(sc, *rhs, lowering::after_int(k, a));
            lemma_both_int(a, b, k, rho, w);
            integer_expressions_are_computed(sc, *lhs, k, rho, w);
            integer_expressions_are_computed(sc, *rhs, lowering::after_int(k, a), rho, w);
            integer_laws::sums_wrap_around(a->Ok_0.int, b->Ok_0.int, rho);
            lemma_modulus(a->Ok_0.int);
        },
        BoolNodeExpression::FromGenericIntegerBorrow { lhs, rhs } => {
            let a = lowering::integer_lowering(sc, *lhs, k);
            let b = lowering::integer_lowering(sc, *rhs, lowering::after_int(k, a));
            lemma_both_int(a, b, k, rho, w);
            integer_expressions_are_computed(sc, *lhs, k, rho, w);
            integer_expressions_are_computed(sc, *rhs, lowering::after_int(k, a), rho, w);
            integer_laws::differences_wrap_around(a->Ok_0.int, b->Ok_0.int, rho);
        },
        BoolNodeExpression::FromField(x) => {
            field_expressions_are_computed(sc, *x, k, rho, w);
            integer_laws::nonzero_values_are_found(
                lowering::field_lowering(sc, *x, k)->Ok_0.sym,
                rho,
            );
        },
        BoolNodeExpression::FromFieldEquality { lhs, rhs } => {
            let a = lowering::field_lowering(sc, *lhs, k);
            let b = lowering::field_lowering(sc, *rhs, lowering::after(k, a));
            lemma_both(a, b, k, rho, w);
            field_expressions_are_computed(sc, *lhs, k, rho, w);
            field_expressions_are_computed(sc, *rhs, lowering::after(k, a), rho, w);
            lemma_logic(a->Ok_0.sym, b->Ok_0.sym, rho);
        },
        BoolNodeExpression::And { lhs, rhs } => {
            let a = lowering::bool_lowering(sc, *lhs, k);
            let b = lowering::bool_lowering(sc, *rhs, lowering::after(k, a));
            lemma_both(a, b, k, rho, w);
            bool_expressions_are_computed(sc, *lhs, k, rho, w);
            bool_expressions_are_computed(sc, *rhs, lowering::after(k, a), rho, w);
            lemma_logic(a->Ok_0.sym, b->Ok_0.sym, rho);
        },
        BoolNodeExpression::Or { lhs, rhs } => {
            let a = lowering::bool_lowering(sc, *lhs, k);
            let b = lowering::bool_lowering(sc, *rhs, lowering::after(k, a));
            lemma_both(a, b, k, rho, w);
            bool_expressions_are_computed(sc, *lhs, k, rho, w);
            bool_expressions_are_computed(sc, *rhs, lowering::after(k, a), rho, w);
            lemma_logic(a->Ok_0.sym, b->Ok_0.sym, rho);
        },
        BoolNodeExpression::Select { selector, if_true, if_false } => {
            let c = lowering::bool_lowering(sc, *selector, k);
            let a = lowering::bool_lowering(sc, *if_true, lowering::after(k, c));
            let b = lowering::bool_lowering(
                sc,
                *if_false,
                lowering::after(lowering::after(k, c), a),
            );
            lemma_answered_append(
                c->Ok_0.effects,
                lowering::both(a, b)->Ok_0.2,
                k,
                rho,
                w,
            );
            lemma_both(a, b, lowering::after(k, c), rho, w);
            bool_expressions_are_computed(sc, *selector, k, rho, w);
            bool_expressions_are_computed(sc, *if_true, lowering::after(k, c), rho, w);
            bool_expressions_are_computed(
                sc,
                *if_false,
                lowering::after(lowering::after(k, c), a),
                rho,
                w,
            );
            lemma_choice(c->Ok_0.sym, a->Ok_0.sym, b->Ok_0.sym, rho);
        },
        BoolNodeExpression::Negate(x) => {
            bool_expressions_are_computed(sc, *x, k, rho, w);
            let a = lowering::bool_lowering(sc, *x, k)->Ok_0.sym;
            lemma_logic(a, a, rho);
        },
    }
}

proof fn lemma_widened(i: IntSym, rho: Valuation)
    requires
        integer_laws::fits(i, rho),
    ensures
        lowering::widen_u8(i) matches Ok(j) ==> j is U16 && integer_laws::fits(j, rho)
            && integer_laws::value(j, rho) == integer_laws::value(i, rho),
        lowering::widen_u16(i) matches Ok(j) ==> j is U32 && integer_laws::fits(j, rho)
            && integer_laws::value(j, rho) == integer_laws::value(i, rho),
        lowering::truncate_u16(i) matches Ok(j) ==> j is U8 && integer_laws::fits(j, rho)
            && integer_laws::value(j, rho) == integer_laws::value(i, rho) % 0x100,
        lowering::truncate_u32(i) matches Ok(j) ==> j is U16 && integer_laws::fits(j, rho)
            && integer_laws::value(j, rho) == integer_laws::value(i, rho) % 0x1_0000,
{
    vstd::arithmetic::power2::lemma2_to64();
    laws::constants_have_their_value(0, rho);
    match i {
        IntSym::U16(s) => {
            integer_laws::lowest_bits_are_remainders(s, 8, rho);
        },
        _ => {},
    }
}

/// A lowered integer expression computes the number of the expression, in limbs that fit.
#[verifier::spinoff_prover]
#[verifier::rlimit(60)]
pub proof fn integer_expressions_are_computed(
    sc: ComputeScope,
    e: FixedWidthIntegerNodeExpression,
    k: nat,
    rho: Valuation,
    w: World,
)
    requires
        lowering::integer_lowering(sc, e, k) is Ok,
        answered(lowering::integer_lowering(sc, e, k)->Ok_0.effects, k, rho, w),
        slots_agree(sc, rho, w),
        integer_sound(sc, e, rho, w),
    ensures
        lowering::integer_lowering(sc, e, k)->Ok_0.int.width() == integer_width(e, w),
        integer_laws::fits(lowering::integer_lowering(sc, e, k)->Ok_0.int, rho),
        integer_laws::value(lowering::integer_lowering(sc, e, k)->Ok_0.int, rho) == integer_value(
            sc,
            e,
            rho,
            w,
        ),
    decreases e,
{
    match e {
        FixedWidthIntegerNodeExpression::U8Place(v)
        | FixedWidthIntegerNodeExpression::U16Place(v) => {
            lemma_variable(sc, v, k, rho, w);
        },
        FixedWidthIntegerNodeExpression::U8SubExpression(idx)
        | FixedWidthIntegerNodeExpression::U16SubExpression(idx)
        | FixedWidthIntegerNodeExpression::U32SubExpression(idx) => {
            assert(slot_agrees(sc.slots[idx as int], w.slots[idx as int], rho));
        },
        FixedWidthIntegerNodeExpression::U32OracleValue { placeholder } => {
            lemma_u32_placeholder(sc, placeholder, k, rho, w);
        },
        FixedWidthIntegerNodeExpression::U16OracleValue { placeholder } => {
            lemma_placeholder(sc, lowering::READ_ORACLE_U16_HOOK@, placeholder, k, rho, w);
        },
        FixedWidthIntegerNodeExpression::U8OracleValue { placeholder } => {
            lemma_placeholder(sc, lowering::READ_ORACLE_U8_HOOK@, placeholder, k, rho, w);
        },
        FixedWidthIntegerNodeExpression::ConstantU8(c) => {
            laws::constants_have_their_value(c as u64, rho);
        },
        FixedWidthIntegerNodeExpression::ConstantU16(c) => {
            laws::constants_have_their_value(c as u64, rho);
        },
        FixedWidthIntegerNodeExpression::ConstantU32(c) => {
            integer_laws::integer_constants_have_their_value(c, rho);
        },
        FixedWidthIntegerNodeExpression::U32FromMask(x) => {
            bool_expressions_are_computed(sc, *x, k, rho, w);
            integer_laws::booleans_in_the_field(
                lowering::bool_lowering(sc, *x, k)->Ok_0.sym,
                rho,
            );
            laws::constants_have_their_value(0, rho);
        },
        FixedWidthIntegerNodeExpression::U32FromField(x) => {
            field_expressions_are_computed(sc, *x, k, rho, w);
            integer_laws::field_values_as_integers(
                lowering::field_lowering(sc, *x, k)->Ok_0.sym,
                rho,
            );
        },
        FixedWidthIntegerNodeExpression::WidenFromU8(x)
        | FixedWidthIntegerNodeExpression::WidenFromU16(x)
        | FixedWidthIntegerNodeExpression::TruncateFromU16(x)
        | FixedWidthIntegerNodeExpression::TruncateFromU32(x) => {
            integer_expressions_are_computed(sc, *x, k, rho, w);
            lemma_widened(lowering::integer_lowering(sc, *x, k)->Ok_0.int, rho);
        },
        FixedWidthIntegerNodeExpression::I32FromU32(x)
        | FixedWidthIntegerNodeExpression::U32FromI32(x) => {
            integer_expressions_are_computed(sc, *x, k, rho, w);
        },
        FixedWidthIntegerNodeExpression::Select { selector, if_true, if_false } => {
            let c = lowering::bool_lowering(sc, *selector, k);
            let a = lowering::integer_lowering(sc, *if_true, lowering::after(k, c));
            let b = lowering::integer_lowering(
                sc,
                *if_false,
                lowering::after_int(lowering::after(k, c), a),
            );
            lemma_answered_append(
                c->Ok_0.effects,
                lowering::both_int(a, b)->Ok_0.2,
                k,
                rho,
                w,
            );
            lemma_both_int(a, b, lowering::after(k, c), rho, w);
            bool_expressions_are_computed(sc, *selector, k, rho, w);
            integer_expressions_are_computed(sc, *if_true, lowering::after(k, c), rho, w);
            integer_expressions_are_computed(
                sc,
                *if_false,
                lowering::after_int(lowering::after(k, c), a),
                rho,
                w,
            );
            integer_laws::selections_give_one_integer(
                c->Ok_0.sym,
                a->Ok_0.int,
                b->Ok_0.int,
                rho,
            );
        },
        FixedWidthIntegerNodeExpression::WrappingAdd { lhs, rhs } => {
            let a = lowering::integer_lowering(sc, *lhs, k);
            let b = lowering::integer_lowering(sc, *rhs, lowering::after_int(k, a));
            lemma_both_int(a, b, k, rho, w);
            integer_expressions_are_computed(sc, *lhs, k, rho, w);
            integer_expressions_are_computed(sc, *rhs, lowering::after_int(k, a), rho, w);
            integer_laws::sums_wrap_around(a->Ok_0.int, b->Ok_0.int, rho);
            lemma_modulus(a->Ok_0.int);
        },
        FixedWidthIntegerNodeExpression::WrappingSub { lhs, rhs } => {
            let a = lowering::integer_lowering(sc, *lhs, k);
            let b = lowering::integer_lowering(sc, *rhs, lowering::after_int(k, a));
            lemma_both_int(a, b, k, rho, w);
            integer_expressions_are_computed(sc, *lhs, k, rho, w);
            integer_expressions_are_computed(sc, *rhs, lowering::after_int(k, a), rho, w);
            integer_laws::differences_wrap_around(a->Ok_0.int, b->Ok_0.int, rho);
            lemma_modulus(a->Ok_0.int);
        },
        FixedWidthIntegerNodeExpression::BinaryAnd { lhs, rhs } => {
            let a = lowering::integer_lowering(sc, *lhs, k);
            let b = lowering::integer_lowering(sc, *rhs, lowering::after_int(k, a));
            lemma_both_int(a, b, k, rho, w);
            integer_expressions_are_computed(sc, *lhs, k, rho, w);
            integer_expressions_are_computed(sc, *rhs, lowering::after_int(k, a), rho, w);
            integer_laws::bitwise_operations_are_those_of_the_machine(
                FeltBinary::BitAnd,
                a->Ok_0.int,
                b->Ok_0.int,
                rho,
            );
        },
        FixedWidthIntegerNodeExpression::BinaryOr { lhs, rhs } => {
            let a = lowering::integer_lowering(sc, *lhs, k);
            let b = lowering::integer_lowering(sc, *rhs, lowering::after_int(k, a));
            lemma_both_int(a, b, k, rho, w);
            integer_expressions_are_computed(sc, *lhs, k, rho, w);
            integer_expressions_are_computed(sc, *rhs, lowering::after_int(k, a), rho, w);
            integer_laws::bitwise_operations_are_those_of_the_machine(
                FeltBinary::BitOr,
                a->Ok_0.int,
                b->Ok_0.int,
                rho,
            );
        },
        FixedWidthIntegerNodeExpression::BinaryXor { lhs, rhs } => {
            let a = lowering::integer_lowering(sc, *lhs, k);
            let b = lowering::integer_lowering(sc, *rhs, lowering::after_int(k, a));
            lemma_both_int(a, b, k, rho, w);
            integer_expressions_are_computed(sc, *lhs, k, rho, w);
            integer_expressions_are_computed(sc, *rhs, lowering::after_int(k, a), rho, w);
            integer_laws::bitwise_operations_are_those_of_the_machine(
                FeltBinary::BitXor,
                a->Ok_0.int,
                b->Ok_0.int,
                rho,
            );
        },
        FixedWidthIntegerNodeExpression::WrappingShl { lhs, magnitude } => {
            integer_expressions_are_computed(sc, *lhs, k, rho, w);
            let a = lowering::integer_lowering(sc, *lhs, k)->Ok_0.int;
            integer_laws::left_shifts_multiply(a, magnitude, rho);
            lemma_modulus(a);
        },
        FixedWidthIntegerNodeExpression::WrappingShr { lhs, magnitude } => {
            integer_expressions_are_computed(sc, *lhs, k, rho, w);
            let a = lowering::integer_lowering(sc, *lhs, k)->Ok_0.int;
            integer_laws::right_shifts_divide(a, magnitude, rho);
        },
        FixedWidthIntegerNodeExpression::LowestBits { value, num_bits } => {
            integer_expressions_are_computed(sc, *value, k, rho, w);
            let a = lowering::integer_lowering(sc, *value, k)->Ok_0.int;
            integer_laws::lowest_bits_of_integers_are_remainders(a, num_bits, rho);
        },
        FixedWidthIntegerNodeExpression::BinaryNot(x) => {
            integer_expressions_are_computed(sc, *x, k, rho, w);
            let a = lowering::integer_lowering(sc, *x, k)->Ok_0.int;
            integer_laws::complements_are_distances(a, rho);
            lemma_modulus(a);
        },
        _ => {},
    }
}

/// The field value of an expression that is written.
pub open spec fn source_value(
    sc: ComputeScope,
    e: Expression,
    rho: Valuation,
    w: World,
) -> int {
    match e {
        Expression::Bool(x) => ir::truth(bool_value(sc, x, rho, w)),
        Expression::Field(x) => field_value(sc, x, rho, w),
        Expression::U8(x) | Expression::U16(x) | Expression::U32(x) => integer_value(
            sc,
            x,
            rho,
            w,
        ) % laws::p(),
    }
}

/// Whether an expression that is written has a value.
pub open spec fn source_sound(
    sc: ComputeScope,
    e: Expression,
    rho: Valuation,
    w: World,
) -> bool {
    match e {
        Expression::Bool(x) => bool_sound(sc, x, rho, w),
        Expression::Field(x) => field_sound(sc, x, rho, w),
        Expression::U8(x) | Expression::U16(x) | Expression::U32(x) => integer_sound(
            sc,
            x,
            rho,
            w,
        ),
    }
}

proof fn lemma_source(sc: ComputeScope, e: Expression, k: nat, rho: Valuation, w: World)
    requires
        witness::store_lowering(sc, e, k) is Ok,
        answered(witness::store_lowering(sc, e, k)->Ok_0.effects, k, rho, w),
        slots_agree(sc, rho, w),
        source_sound(sc, e, rho, w),
    ensures
        witness::store_lowering(sc, e, k)->Ok_0.sym.eval(rho) == source_value(sc, e, rho, w),
{
    match e {
        Expression::Bool(x) => {
            bool_expressions_are_computed(sc, x, k, rho, w);
            integer_laws::booleans_in_the_field(
                lowering::bool_lowering(sc, x, k)->Ok_0.sym,
                rho,
            );
        },
        Expression::Field(x) => {
            field_expressions_are_computed(sc, x, k, rho, w);
        },
        Expression::U8(x) | Expression::U16(x) | Expression::U32(x) => {
            integer_expressions_are_computed(sc, x, k, rho, w);
            integer_laws::integers_in_the_field(
                lowering::integer_lowering(sc, x, k)->Ok_0.int,
                rho,
            );
        },
    }
}

/// Whether a write takes place.
pub open spec fn write_happens(condition: Option<usize>, w: World) -> bool {
    match condition {
        None => true,
        Some(idx) => w.slots[idx as int]->Bool_0,
    }
}

proof fn lemma_guarded(
    sc: ComputeScope,
    e: Expression,
    condition: Option<usize>,
    existing: Result<Reading, LlzkError>,
    k: nat,
    rho: Valuation,
    w: World,
)
    requires
        ({
            let stored = witness::guarded_lowering(
                sc,
                witness::store_lowering(sc, e, k),
                condition,
                existing,
            );
            &&& stored is Ok
            &&& answered(stored->Ok_0.effects, k, rho, w)
        }),
        slots_agree(sc, rho, w),
        source_sound(sc, e, rho, w),
    ensures
        ({
            let value = witness::store_lowering(sc, e, k);
            let stored = witness::guarded_lowering(sc, value, condition, existing);
            &&& value is Ok
            &&& condition is Some ==> existing is Ok && answered(
                existing->Ok_0.effects,
                lowering::after(k, value),
                rho,
                w,
            )
            &&& stored->Ok_0.sym.eval(rho) == if write_happens(condition, w) {
                source_value(sc, e, rho, w)
            } else {
                existing->Ok_0.sym.eval(rho)
            }
        }),
{
    let value = witness::store_lowering(sc, e, k);
    match condition {
        None => {
            lemma_source(sc, e, k, rho, w);
        },
        Some(idx) => {
            let v = value->Ok_0;
            let x = existing->Ok_0;
            lemma_answered_append(v.effects, x.effects, k, rho, w);
            lemma_source(sc, e, k, rho, w);
            assert(slot_agrees(sc.slots[idx as int], w.slots[idx as int], rho));
            lemma_choice(lowering::slot_bool(sc, idx)->Ok_0, v.sym, x.sym, rho);
        },
    }
}

/// What is written to the member of a variable is the value of the source where the write takes
/// place, and the value that the variable had elsewhere.
pub proof fn member_writes_store_their_source(
    sc: ComputeScope,
    v: Variable,
    source: Expression,
    condition: Option<usize>,
    k: nat,
    rho: Valuation,
    w: World,
)
    requires
        ({
            let value = witness::store_lowering(sc, source, k);
            let stored = witness::guarded_lowering(
                sc,
                value,
                condition,
                witness::existing_reading(sc, v, lowering::after(k, value)),
            );
            &&& stored is Ok
            &&& answered(stored->Ok_0.effects, k, rho, w)
        }),
        slots_agree(sc, rho, w),
        source_sound(sc, source, rho, w),
    ensures
        ({
            let value = witness::store_lowering(sc, source, k);
            let stored = witness::guarded_lowering(
                sc,
                value,
                condition,
                witness::existing_reading(sc, v, lowering::after(k, value)),
            );
            stored->Ok_0.sym.eval(rho) == if write_happens(condition, w) {
                source_value(sc, source, rho, w)
            } else {
                variable_value(sc, v, rho, w)
            }
        }),
{
    let value = witness::store_lowering(sc, source, k);
    let j = lowering::after(k, value);
    let existing = witness::existing_reading(sc, v, j);
    lemma_guarded(sc, source, condition, existing, k, rho, w);
    if condition is Some {
        assert(lowering::variable_reading(sc, v, j) == existing);
        lemma_variable(sc, v, j, rho, w);
    }
}

/// What is written to a memory column is the value of the source where the write takes place, and
/// what the column held elsewhere.
pub proof fn memory_writes_store_their_source(
    sc: ComputeScope,
    offset: usize,
    source: Expression,
    condition: Option<usize>,
    k: nat,
    rho: Valuation,
    w: World,
)
    requires
        ({
            let value = witness::store_lowering(sc, source, k);
            let stored = witness::guarded_lowering(
                sc,
                value,
                condition,
                lowering::memory_reading(offset, lowering::after(k, value)),
            );
            &&& stored is Ok
            &&& answered(stored->Ok_0.effects, k, rho, w)
        }),
        slots_agree(sc, rho, w),
        source_sound(sc, source, rho, w),
    ensures
        ({
            let value = witness::store_lowering(sc, source, k);
            let stored = witness::guarded_lowering(
                sc,
                value,
                condition,
                lowering::memory_reading(offset, lowering::after(k, value)),
            );
            stored->Ok_0.sym.eval(rho) == if write_happens(condition, w) {
                source_value(sc, source, rho, w)
            } else {
                (w.hook)(
                    lowering::READ_FROM_MEMORY_SUBTREE_HOOK@,
                    seq![offset as int],
                    0,
                ) % laws::p()
            }
        }),
{
    let value = witness::store_lowering(sc, source, k);
    let j = lowering::after(k, value);
    let existing = lowering::memory_reading(offset, j);
    lemma_guarded(sc, source, condition, existing, k, rho, w);
    if condition is Some {
        let args = seq![ir::index(offset as u64)];
        lemma_hook(lowering::READ_FROM_MEMORY_SUBTREE_HOOK@, args, 1, j, 0, rho, w);
        assert(evals(args, rho) =~= seq![offset as int]) by {
            reveal(Sym::eval);
        }
    }
}

} // verus!
