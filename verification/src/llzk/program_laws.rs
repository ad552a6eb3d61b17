//! What a witness program leaves in the members of a struct.
use vstd::prelude::*;

use crate::circuit::CircuitOutput;
use crate::circuit::Variable;
use crate::llzk::codegen;
use crate::llzk::config::LlzkStructLayout;
use crate::llzk::extract;
use crate::llzk::extract::ExtractedVariable;
use crate::llzk::ir;
use crate::llzk::ir::Effect;
use crate::llzk::ir::FeltBinary;
use crate::llzk::ir::Sym;
use crate::llzk::ir::Valuation;
use crate::llzk::laws;
use crate::llzk::laws::Store;
use crate::llzk::lowering;
use crate::llzk::lowering::ComputeScope;
use crate::llzk::module::StructDef;
use crate::llzk::ssa::BoolNodeExpression;
use crate::llzk::ssa::Expression;
use crate::llzk::ssa::FieldNodeExpression;
use crate::llzk::ssa::FixedWidthIntegerNodeExpression;
use crate::llzk::ssa::RawExpression;
use crate::llzk::step_laws;
use crate::llzk::vars;
use crate::llzk::witness;
use crate::llzk::witness::WitnessComputation;
use crate::llzk::witness_laws;
use crate::llzk::witness_laws::Meaning;
use crate::llzk::witness_laws::World;

verus! {

/// What hooks answer to arguments, result by result.
pub type Hooks = spec_fn(Seq<char>, Seq<int>, nat) -> int;

/// What a running compute function holds: the members of the struct, and the registers that it
/// has read, each under the number of the effect that read it.
pub struct Memory {
    pub store: Store,
    pub arrays: spec_fn(nat, int) -> int,
}

/// The memory after an effect with this number, where the named members are registers.
pub open spec fn after_effect(
    m: Memory,
    e: Effect,
    number: nat,
    rho: Valuation,
    registers: Set<Seq<char>>,
) -> Memory {
    match e {
        Effect::MemberRead(_, name, _) => Memory {
            arrays: |n: nat, limb: int|
                if n == number {
                    (m.store)(name, limb)
                } else {
                    (m.arrays)(n, limb)
                },
            ..m
        },
        Effect::ArrayWrite(Sym::Result(array, _), i, value) => Memory {
            arrays: |n: nat, limb: int|
                if n == array && limb == i.eval(rho) {
                    value.eval(rho)
                } else {
                    (m.arrays)(n, limb)
                },
            ..m
        },
        Effect::MemberWrite(_, name, value) => Memory {
            store: |n: Seq<char>, limb: int|
                if n != name {
                    (m.store)(n, limb)
                } else if registers.contains(name) {
                    (m.arrays)(value->Result_0, limb)
                } else if limb == 0 {
                    value.eval(rho)
                } else {
                    (m.store)(n, limb)
                },
            ..m
        },
        _ => m,
    }
}

/// The memory after effects that follow `k` others.
pub open spec fn after_effects(
    m: Memory,
    es: Seq<Effect>,
    k: nat,
    rho: Valuation,
    registers: Set<Seq<char>>,
) -> Memory
    decreases es.len(),
{
    if es.len() == 0 {
        m
    } else {
        after_effect(
            after_effects(m, es.drop_last(), k, rho, registers),
            es.last(),
            (k + es.len() - 1) as nat,
            rho,
            registers,
        )
    }
}

/// Whether the registers are the members that variables share.
pub open spec fn typed(
    members: Map<u64, (Seq<char>, Option<u64>)>,
    registers: Set<Seq<char>>,
) -> bool {
    forall|v: u64| #[trigger]
        members.contains_key(v) ==> (members[v].1 is Some <==> registers.contains(members[v].0))
}

/// Whether effects leave the members as they are.
pub open spec fn quiet(es: Seq<Effect>) -> bool {
    forall|i: int|
        0 <= i < es.len() ==> ((#[trigger] es[i]) is MemberRead || es[i] is Call || es[i] is Nondet)
}

proof fn lemma_after_append(
    m: Memory,
    a: Seq<Effect>,
    b: Seq<Effect>,
    k: nat,
    rho: Valuation,
    registers: Set<Seq<char>>,
)
    ensures
        after_effects(m, a + b, k, rho, registers) == after_effects(
            after_effects(m, a, k, rho, registers),
            b,
            k + a.len(),
            rho,
            registers,
        ),
    decreases b.len(),
{
    if b.len() == 0 {
        assert(a + b =~= a);
    } else {
        assert((a + b).drop_last() =~= a + b.drop_last());
        lemma_after_append(m, a, b.drop_last(), k, rho, registers);
    }
}

proof fn lemma_quiet(
    m: Memory,
    es: Seq<Effect>,
    k: nat,
    rho: Valuation,
    registers: Set<Seq<char>>,
)
    requires
        quiet(es),
    ensures
        after_effects(m, es, k, rho, registers).store == m.store,
    decreases es.len(),
{
    if es.len() > 0 {
        let front = es.drop_last();
        assert forall|i: int| 0 <= i < front.len() implies ((#[trigger] front[i]) is MemberRead
            || front[i] is Call || front[i] is Nondet) by {
            assert(front[i] == es[i]);
        }
        assert(es.last() == es[es.len() - 1]);
        lemma_quiet(m, front, k, rho, registers);
    }
}

/// Whether scopes differ in their slots only.
pub open spec fn same_places(a: ComputeScope, b: ComputeScope) -> bool {
    a == (ComputeScope { slots: a.slots, origins: a.origins, ..b })
}

proof fn lemma_field_places(
    sc: ComputeScope,
    other: ComputeScope,
    e: FieldNodeExpression,
    rho: Valuation,
    w: World,
)
    requires
        same_places(sc, other),
    ensures
        witness_laws::field_value(sc, e, rho, w) == witness_laws::field_value(other, e, rho, w),
        witness_laws::field_sound(sc, e, rho, w) == witness_laws::field_sound(other, e, rho, w),
    decreases e,
{
    match e {
        FieldNodeExpression::FromInteger(x) => {
            lemma_integer_places(sc, other, *x, rho, w);
        },
        FieldNodeExpression::FromMask(x) => {
            lemma_bool_places(sc, other, *x, rho, w);
        },
        FieldNodeExpression::Add { lhs, rhs }
        | FieldNodeExpression::Sub { lhs, rhs }
        | FieldNodeExpression::Mul { lhs, rhs } => {
            lemma_field_places(sc, other, *lhs, rho, w);
            lemma_field_places(sc, other, *rhs, rho, w);
        },
        FieldNodeExpression::AddProduct { additive_term, mul_0, mul_1 } => {
            lemma_field_places(sc, other, *mul_0, rho, w);
            lemma_field_places(sc, other, *mul_1, rho, w);
            lemma_field_places(sc, other, *additive_term, rho, w);
        },
        FieldNodeExpression::Select { selector, if_true, if_false } => {
            lemma_bool_places(sc, other, *selector, rho, w);
            lemma_field_places(sc, other, *if_true, rho, w);
            lemma_field_places(sc, other, *if_false, rho, w);
        },
        FieldNodeExpression::InverseUnchecked(x) => {
            lemma_field_places(sc, other, *x, rho, w);
        },
        _ => {},
    }
}

proof fn lemma_bool_places(
    sc: ComputeScope,
    other: ComputeScope,
    e: BoolNodeExpression,
    rho: Valuation,
    w: World,
)
    requires
        same_places(sc, other),
    ensures
        witness_laws::bool_value(sc, e, rho, w) == witness_laws::bool_value(other, e, rho, w),
        witness_laws::bool_sound(sc, e, rho, w) == witness_laws::bool_sound(other, e, rho, w),
    decreases e,
{
    match e {
        BoolNodeExpression::FromGenericInteger(x) => {
            lemma_integer_places(sc, other, *x, rho, w);
        },
        BoolNodeExpression::FromGenericIntegerEquality { lhs, rhs }
        | BoolNodeExpression::FromGenericIntegerCarry { lhs, rhs }
        | BoolNodeExpression::FromGenericIntegerBorrow { lhs, rhs } => {
            lemma_integer_places(sc, other, *lhs, rho, w);
            lemma_integer_places(sc, other, *rhs, rho, w);
        },
        BoolNodeExpression::FromField(x) => {
            lemma_field_places(sc, other, *x, rho, w);
        },
        BoolNodeExpression::FromFieldEquality { lhs, rhs } => {
            lemma_field_places(sc, other, *lhs, rho, w);
            lemma_field_places(sc, other, *rhs, rho, w);
        },
        BoolNodeExpression::And { lhs, rhs }
        | BoolNodeExpression::Or { lhs, rhs } => {
            lemma_bool_places(sc, other, *lhs, rho, w);
            lemma_bool_places(sc, other, *rhs, rho, w);
        },
        BoolNodeExpression::Select { selector, if_true, if_false } => {
            lemma_bool_places(sc, other, *selector, rho, w);
            lemma_bool_places(sc, other, *if_true, rho, w);
            lemma_bool_places(sc, other, *if_false, rho, w);
        },
        BoolNodeExpression::Negate(x) => {
            lemma_bool_places(sc, other, *x, rho, w);
        },
        _ => {},
    }
}

proof fn lemma_integer_places(
    sc: ComputeScope,
    other: ComputeScope,
    e: FixedWidthIntegerNodeExpression,
    rho: Valuation,
    w: World,
)
    requires
        same_places(sc, other),
    ensures
        witness_laws::integer_value(sc, e, rho, w) == witness_laws::integer_value(other, e, rho, w),
        witness_laws::integer_sound(sc, e, rho, w) == witness_laws::integer_sound(other, e, rho, w),
    decreases e,
{
    match e {
        FixedWidthIntegerNodeExpression::U32FromMask(x) => {
            lemma_bool_places(sc, other, *x, rho, w);
        },
        FixedWidthIntegerNodeExpression::U32FromField(x) => {
            lemma_field_places(sc, other, *x, rho, w);
        },
        FixedWidthIntegerNodeExpression::WidenFromU8(x)
        | FixedWidthIntegerNodeExpression::WidenFromU16(x)
        | FixedWidthIntegerNodeExpression::TruncateFromU16(x)
        | FixedWidthIntegerNodeExpression::TruncateFromU32(x)
        | FixedWidthIntegerNodeExpression::I32FromU32(x)
        | FixedWidthIntegerNodeExpression::U32FromI32(x)
        | FixedWidthIntegerNodeExpression::BinaryNot(x) => {
            lemma_integer_places(sc, other, *x, rho, w);
        },
        FixedWidthIntegerNodeExpression::Select { selector, if_true, if_false } => {
            lemma_bool_places(sc, other, *selector, rho, w);
            lemma_integer_places(sc, other, *if_true, rho, w);
            lemma_integer_places(sc, other, *if_false, rho, w);
        },
        FixedWidthIntegerNodeExpression::WrappingAdd { lhs, rhs }
        | FixedWidthIntegerNodeExpression::WrappingSub { lhs, rhs }
        | FixedWidthIntegerNodeExpression::BinaryAnd { lhs, rhs }
        | FixedWidthIntegerNodeExpression::BinaryOr { lhs, rhs }
        | FixedWidthIntegerNodeExpression::BinaryXor { lhs, rhs } => {
            lemma_integer_places(sc, other, *lhs, rho, w);
            lemma_integer_places(sc, other, *rhs, rho, w);
        },
        FixedWidthIntegerNodeExpression::WrappingShl { lhs, .. }
        | FixedWidthIntegerNodeExpression::WrappingShr { lhs, .. } => {
            lemma_integer_places(sc, other, *lhs, rho, w);
        },
        FixedWidthIntegerNodeExpression::LowestBits { value, .. } => {
            lemma_integer_places(sc, other, *value, rho, w);
        },
        _ => {},
    }
}

proof fn lemma_field_quiet(sc: ComputeScope, e: FieldNodeExpression, k: nat)
    requires
        lowering::field_lowering(sc, e, k) is Ok,
    ensures
        quiet(lowering::field_lowering(sc, e, k)->Ok_0.effects),
    decreases e,
{
    match e {
        FieldNodeExpression::FromInteger(x) => {
            lemma_integer_quiet(sc, *x, k);
        },
        FieldNodeExpression::FromMask(x) => {
            lemma_bool_quiet(sc, *x, k);
        },
        FieldNodeExpression::Add { lhs, rhs }
        | FieldNodeExpression::Sub { lhs, rhs }
        | FieldNodeExpression::Mul { lhs, rhs } => {
            lemma_field_quiet(sc, *lhs, k);
            let a = lowering::field_lowering(sc, *lhs, k);
            lemma_field_quiet(sc, *rhs, lowering::after(k, a));
        },
        FieldNodeExpression::AddProduct { additive_term, mul_0, mul_1 } => {
            let x = lowering::field_lowering(sc, *mul_0, k);
            let y = lowering::field_lowering(sc, *mul_1, lowering::after(k, x));
            let product = lowering::combined(FeltBinary::Mul, lowering::both(x, y));
            lemma_field_quiet(sc, *mul_0, k);
            lemma_field_quiet(sc, *mul_1, lowering::after(k, x));
            lemma_field_quiet(sc, *additive_term, lowering::after(k, product));
        },
        FieldNodeExpression::Select { selector, if_true, if_false } => {
            lemma_bool_quiet(sc, *selector, k);
            let a = lowering::bool_lowering(sc, *selector, k);
            lemma_field_quiet(sc, *if_true, lowering::after(k, a));
            let b = lowering::field_lowering(sc, *if_true, lowering::after(k, a));
            lemma_field_quiet(sc, *if_false, lowering::after(lowering::after(k, a), b));
        },
        FieldNodeExpression::InverseUnchecked(x) => {
            lemma_field_quiet(sc, *x, k);
        },
        _ => {},
    }
}

proof fn lemma_bool_quiet(sc: ComputeScope, e: BoolNodeExpression, k: nat)
    requires
        lowering::bool_lowering(sc, e, k) is Ok,
    ensures
        quiet(lowering::bool_lowering(sc, e, k)->Ok_0.effects),
    decreases e,
{
    match e {
        BoolNodeExpression::FromGenericInteger(x) => {
            lemma_integer_quiet(sc, *x, k);
        },
        BoolNodeExpression::FromGenericIntegerEquality { lhs, rhs }
        | BoolNodeExpression::FromGenericIntegerCarry { lhs, rhs }
        | BoolNodeExpression::FromGenericIntegerBorrow { lhs, rhs } => {
            lemma_integer_quiet(sc, *lhs, k);
            let a = lowering::integer_lowering(sc, *lhs, k);
            lemma_integer_quiet(sc, *rhs, lowering::after_int(k, a));
        },
        BoolNodeExpression::FromField(x) => {
            lemma_field_quiet(sc, *x, k);
        },
        BoolNodeExpression::FromFieldEquality { lhs, rhs } => {
            lemma_field_quiet(sc, *lhs, k);
            let a = lowering::field_lowering(sc, *lhs, k);
            lemma_field_quiet(sc, *rhs, lowering::after(k, a));
        },
        BoolNodeExpression::And { lhs, rhs }
        | BoolNodeExpression::Or { lhs, rhs } => {
            lemma_bool_quiet(sc, *lhs, k);
            let a = lowering::bool_lowering(sc, *lhs, k);
            lemma_bool_quiet(sc, *rhs, lowering::after(k, a));
        },
        BoolNodeExpression::Select { selector, if_true, if_false } => {
            lemma_bool_quiet(sc, *selector, k);
            let a = lowering::bool_lowering(sc, *selector, k);
            lemma_bool_quiet(sc, *if_true, lowering::after(k, a));
            let b = lowering::bool_lowering(sc, *if_true, lowering::after(k, a));
            lemma_bool_quiet(sc, *if_false, lowering::after(lowering::after(k, a), b));
        },
        BoolNodeExpression::Negate(x) => {
            lemma_bool_quiet(sc, *x, k);
        },
        _ => {},
    }
}

proof fn lemma_integer_quiet(sc: ComputeScope, e: FixedWidthIntegerNodeExpression, k: nat)
    requires
        lowering::integer_lowering(sc, e, k) is Ok,
    ensures
        quiet(lowering::integer_lowering(sc, e, k)->Ok_0.effects),
    decreases e,
{
    match e {
        FixedWidthIntegerNodeExpression::U32FromMask(x) => {
            lemma_bool_quiet(sc, *x, k);
        },
        FixedWidthIntegerNodeExpression::U32FromField(x) => {
            lemma_field_quiet(sc, *x, k);
        },
        FixedWidthIntegerNodeExpression::WidenFromU8(x)
        | FixedWidthIntegerNodeExpression::WidenFromU16(x)
        | FixedWidthIntegerNodeExpression::TruncateFromU16(x)
        | FixedWidthIntegerNodeExpression::TruncateFromU32(x)
        | FixedWidthIntegerNodeExpression::I32FromU32(x)
        | FixedWidthIntegerNodeExpression::U32FromI32(x)
        | FixedWidthIntegerNodeExpression::BinaryNot(x) => {
            lemma_integer_quiet(sc, *x, k);
        },
        FixedWidthIntegerNodeExpression::Select { selector, if_true, if_false } => {
            lemma_bool_quiet(sc, *selector, k);
            let a = lowering::bool_lowering(sc, *selector, k);
            lemma_integer_quiet(sc, *if_true, lowering::after(k, a));
            let b = lowering::integer_lowering(sc, *if_true, lowering::after(k, a));
            lemma_integer_quiet(sc, *if_false, lowering::after_int(lowering::after(k, a), b));
        },
        FixedWidthIntegerNodeExpression::WrappingAdd { lhs, rhs }
        | FixedWidthIntegerNodeExpression::WrappingSub { lhs, rhs }
        | FixedWidthIntegerNodeExpression::BinaryAnd { lhs, rhs }
        | FixedWidthIntegerNodeExpression::BinaryOr { lhs, rhs }
        | FixedWidthIntegerNodeExpression::BinaryXor { lhs, rhs } => {
            lemma_integer_quiet(sc, *lhs, k);
            let a = lowering::integer_lowering(sc, *lhs, k);
            lemma_integer_quiet(sc, *rhs, lowering::after_int(k, a));
        },
        FixedWidthIntegerNodeExpression::WrappingShl { lhs, .. }
        | FixedWidthIntegerNodeExpression::WrappingShr { lhs, .. } => {
            lemma_integer_quiet(sc, *lhs, k);
        },
        FixedWidthIntegerNodeExpression::LowestBits { value, .. } => {
            lemma_integer_quiet(sc, *value, k);
        },
        _ => {},
    }
}

proof fn lemma_source_places(
    sc: ComputeScope,
    other: ComputeScope,
    e: Expression,
    rho: Valuation,
    w: World,
)
    requires
        same_places(sc, other),
    ensures
        witness_laws::source_value(sc, e, rho, w) == witness_laws::source_value(other, e, rho, w),
        witness_laws::source_sound(sc, e, rho, w) == witness_laws::source_sound(other, e, rho, w),
{
    match e {
        Expression::Bool(x) => lemma_bool_places(sc, other, x, rho, w),
        Expression::Field(x) => lemma_field_places(sc, other, x, rho, w),
        Expression::U8(x) | Expression::U16(x) | Expression::U32(x) => lemma_integer_places(
            sc,
            other,
            x,
            rho,
            w,
        ),
    }
}

/// What the members hold after a step: a variable with a member holds what was written to it.
pub open spec fn step_store(sc: ComputeScope, e: RawExpression, rho: Valuation, w: World) -> Store {
    match e {
        RawExpression::WriteVariable { into_variable, source_subexpr, condition_subexpr_idx } => {
            if sc.members.contains_key(into_variable.0) {
                let (name, limb) = sc.members[into_variable.0];
                |n: Seq<char>, l: int|
                    if n == name && l == laws::limb_index(limb) {
                        if witness_laws::write_happens(condition_subexpr_idx, w) {
                            witness_laws::source_value(sc, source_subexpr, rho, w)
                        } else {
                            witness_laws::variable_value(sc, into_variable, rho, w)
                        }
                    } else {
                        (w.member)(n, l)
                    }
            } else {
                w.member
            }
        },
        _ => w.member,
    }
}

proof fn lemma_step_places(
    sc: ComputeScope,
    other: ComputeScope,
    e: RawExpression,
    rho: Valuation,
    w: World,
)
    requires
        same_places(sc, other),
    ensures
        step_laws::step_meaning(sc, e, rho, w) == step_laws::step_meaning(other, e, rho, w),
        step_laws::step_sound(sc, e, rho, w) == step_laws::step_sound(other, e, rho, w),
        step_store(sc, e, rho, w) == step_store(other, e, rho, w),
{
    match e {
        RawExpression::Bool(x) => lemma_bool_places(sc, other, x, rho, w),
        RawExpression::Field(x) => lemma_field_places(sc, other, x, rho, w),
        RawExpression::Integer(x) => lemma_integer_places(sc, other, x, rho, w),
        RawExpression::WriteVariable { source_subexpr, .. } => {
            lemma_source_places(sc, other, source_subexpr, rho, w);
            assert(step_store(sc, e, rho, w) =~= step_store(other, e, rho, w));
        },
        _ => {},
    }
}

proof fn lemma_store_quiet(sc: ComputeScope, e: Expression, k: nat)
    requires
        witness::store_lowering(sc, e, k) is Ok,
    ensures
        quiet(witness::store_lowering(sc, e, k)->Ok_0.effects),
{
    match e {
        Expression::Bool(x) => lemma_bool_quiet(sc, x, k),
        Expression::Field(x) => lemma_field_quiet(sc, x, k),
        Expression::U8(x) | Expression::U16(x) | Expression::U32(x) => lemma_integer_quiet(
            sc,
            x,
            k,
        ),
    }
}

proof fn lemma_member_write(
    sc: ComputeScope,
    v: Variable,
    source: Expression,
    condition: Option<usize>,
    k: nat,
    rho: Valuation,
    w: World,
    m: Memory,
    registers: Set<Seq<char>>,
)
    requires
        witness::member_write(sc, v, source, condition, k) is Ok,
        witness_laws::answered(
            witness::member_write(sc, v, source, condition, k)->Ok_0,
            k,
            rho,
            w,
        ),
        witness_laws::slots_agree(sc, rho, w),
        witness_laws::source_sound(sc, source, rho, w),
        typed(sc.members, registers),
        m.store == w.member,
    ensures
        ({
            let (name, limb) = sc.members[v.0];
            let value = if witness_laws::write_happens(condition, w) {
                witness_laws::source_value(sc, source, rho, w)
            } else {
                witness_laws::variable_value(sc, v, rho, w)
            };
            after_effects(
                m,
                witness::member_write(sc, v, source, condition, k)->Ok_0,
                k,
                rho,
                registers,
            ).store == (|n: Seq<char>, l: int|
                if n == name && l == laws::limb_index(limb) {
                    value
                } else {
                    (w.member)(n, l)
                })
        }),
{
    let value = witness::store_lowering(sc, source, k);
    let existing = witness::existing_reading(sc, v, lowering::after(k, value));
    let stored = witness::guarded_lowering(sc, value, condition, existing);
    let r = stored->Ok_0;
    let j = k + r.effects.len();
    let (name, limb) = sc.members[v.0];
    let rest = witness::assignment(sc, v, r.sym, j)->Ok_0;
    witness_laws::lemma_answered_append(r.effects, rest, k, rho, w);
    witness_laws::member_writes_store_their_source(sc, v, source, condition, k, rho, w);
    lemma_store_quiet(sc, source, k);
    assert(quiet(r.effects));
    lemma_quiet(m, r.effects, k, rho, registers);
    lemma_after_append(m, r.effects, rest, k, rho, registers);
    let m1 = after_effects(m, r.effects, k, rho, registers);
    let x = r.sym.eval(rho);
    let expected = |n: Seq<char>, l: int|
        if n == name && l == laws::limb_index(limb) {
            x
        } else {
            (w.member)(n, l)
        };
    assert(sc.members.contains_key(v.0));
    reveal_with_fuel(after_effects, 2);
    match limb {
        None => {
            assert(rest.drop_last() =~= Seq::<Effect>::empty());
            let m2 = after_effect(m1, rest[0], j, rho, registers);
            assert(after_effects(m1, rest, j, rho, registers) == m2);
            assert(m2.store =~= expected);
        },
        Some(i) => {
            let first = rest.drop_last();
            let start = first.drop_last();
            assert(start.drop_last() =~= Seq::<Effect>::empty());
            assert(start.last() == rest[0]);
            assert(first.last() == rest[1]);
            let m2 = after_effect(m1, rest[0], j, rho, registers);
            let m3 = after_effect(m2, rest[1], j + 1, rho, registers);
            let m4 = after_effect(m3, rest[2], j + 2, rho, registers);
            assert(after_effects(m1, start, j, rho, registers) == m2);
            assert(after_effects(m1, first, j, rho, registers) == m3);
            assert(after_effects(m1, rest, j, rho, registers) == m4);
            assert(ir::index(i).eval(rho) == i) by {
                reveal(Sym::eval);
            }
            assert(m4.store =~= expected);
        },
    }
}

/// A step changes the members as its write says, and not at all if it does not write.
pub proof fn steps_change_the_members(
    sc: ComputeScope,
    e: RawExpression,
    k: nat,
    rho: Valuation,
    w: World,
    m: Memory,
    registers: Set<Seq<char>>,
)
    requires
        witness::step_lowering(sc, e, k) is Ok,
        witness_laws::answered(witness::step_lowering(sc, e, k)->Ok_0.effects, k, rho, w),
        witness_laws::slots_agree(sc, rho, w),
        step_laws::step_sound(sc, e, rho, w),
        typed(sc.members, registers),
        m.store == w.member,
    ensures
        after_effects(
            m,
            witness::step_lowering(sc, e, k)->Ok_0.effects,
            k,
            rho,
            registers,
        ).store == step_store(sc, e, rho, w),
{
    let es = witness::step_lowering(sc, e, k)->Ok_0.effects;
    match e {
        RawExpression::Bool(x) => {
            lemma_bool_quiet(sc, x, k);
            lemma_quiet(m, es, k, rho, registers);
        },
        RawExpression::Field(x) => {
            lemma_field_quiet(sc, x, k);
            lemma_quiet(m, es, k, rho, registers);
        },
        RawExpression::Integer(x) => {
            lemma_integer_quiet(sc, x, k);
            lemma_quiet(m, es, k, rho, registers);
        },
        RawExpression::WriteVariable { into_variable, source_subexpr, condition_subexpr_idx } => {
            if sc.members.contains_key(into_variable.0) {
                lemma_member_write(
                    sc,
                    into_variable,
                    source_subexpr,
                    condition_subexpr_idx,
                    k,
                    rho,
                    w,
                    m,
                    registers,
                );
                assert(after_effects(m, es, k, rho, registers).store =~= step_store(
                    sc,
                    e,
                    rho,
                    w,
                ));
            } else if witness::omitted(sc, into_variable, source_subexpr, condition_subexpr_idx) {
                lemma_quiet(m, es, k, rho, registers);
            } else {
                lemma_store_quiet(sc, source_subexpr, k);
                assert(quiet(es));
                lemma_quiet(m, es, k, rho, registers);
            }
        },
        _ => {
            assert(quiet(es));
            lemma_quiet(m, es, k, rho, registers);
        },
    }
}

/// What the first steps of a block have left: a value each, and the members.
pub struct Progress {
    pub slots: Seq<Meaning>,
    pub store: Store,
}

/// What a step of a block finds.
pub open spec fn world_of(p: Progress, hook: Hooks) -> World {
    World { member: p.store, hook, slots: p.slots }
}

/// What the first `n` steps of a block leave, with the hooks of each step.
pub open spec fn block_progress(
    sc: ComputeScope,
    n: nat,
    rho: Valuation,
    store: Store,
    hooks: spec_fn(nat) -> Hooks,
) -> Progress
    decreases n,
{
    if n == 0 {
        Progress { slots: Seq::empty(), store }
    } else {
        let before = block_progress(sc, (n - 1) as nat, rho, store, hooks);
        let w = world_of(before, hooks((n - 1) as nat));
        Progress {
            slots: before.slots.push(step_laws::step_meaning(sc, sc.block[n - 1], rho, w)),
            store: step_store(sc, sc.block[n - 1], rho, w),
        }
    }
}

/// Whether the first `n` steps of a block run, `k` effects having gone before: every step has a
/// value, and is answered what the hooks and the members hold.
pub open spec fn block_runs(
    sc: ComputeScope,
    n: nat,
    k: nat,
    rho: Valuation,
    store: Store,
    hooks: spec_fn(nat) -> Hooks,
) -> bool
    decreases n,
{
    n > 0 ==> {
        let last = (n - 1) as nat;
        let st = witness::block_lowering(sc, last, k)->Ok_0;
        let w = world_of(block_progress(sc, last, rho, store, hooks), hooks(last));
        let j = k + st.effects.len();
        &&& block_runs(sc, last, k, rho, store, hooks)
        &&& step_laws::step_sound(sc, sc.block[n - 1], rho, w)
        &&& witness_laws::answered(
            witness::step_lowering(
                witness::at_state(sc, st),
                sc.block[n - 1],
                j,
            )->Ok_0.effects,
            j,
            rho,
            w,
        )
    }
}

/// The effects of a block leave in the members what its steps say, and its slots have the values
/// of its steps.
pub proof fn blocks_do_what_their_steps_say(
    sc: ComputeScope,
    n: nat,
    k: nat,
    rho: Valuation,
    store: Store,
    hooks: spec_fn(nat) -> Hooks,
    m: Memory,
    registers: Set<Seq<char>>,
)
    requires
        witness::block_lowering(sc, n, k) is Ok,
        block_runs(sc, n, k, rho, store, hooks),
        typed(sc.members, registers),
        m.store == store,
    ensures
        witness_laws::slots_agree(
            witness::at_state(sc, witness::block_lowering(sc, n, k)->Ok_0),
            rho,
            world_of(block_progress(sc, n, rho, store, hooks), hooks(n)),
        ),
        after_effects(
            m,
            witness::block_lowering(sc, n, k)->Ok_0.effects,
            k,
            rho,
            registers,
        ).store == block_progress(sc, n, rho, store, hooks).store,
    decreases n,
{
    if n > 0 {
        let last = (n - 1) as nat;
        let st = witness::block_lowering(sc, last, k)->Ok_0;
        let e = sc.block[n - 1];
        let j = k + st.effects.len();
        let here = witness::at_state(sc, st);
        let before = block_progress(sc, last, rho, store, hooks);
        let w = world_of(before, hooks(last));
        let step = witness::step_lowering(here, e, j)->Ok_0;
        let m1 = after_effects(m, st.effects, k, rho, registers);
        blocks_do_what_their_steps_say(sc, last, k, rho, store, hooks, m, registers);
        lemma_step_places(here, sc, e, rho, w);
        step_laws::steps_leave_their_values(here, e, j, rho, w);
        steps_change_the_members(here, e, j, rho, w, m1, registers);
        lemma_after_append(m, st.effects, step.effects, k, rho, registers);
        let all = witness::block_lowering(sc, n, k)->Ok_0;
        let progress = block_progress(sc, n, rho, store, hooks);
        assert forall|i: int| 0 <= i < all.slots.len() implies witness_laws::slot_agrees(
            #[trigger] all.slots[i],
            progress.slots[i],
            rho,
        ) by {
            if i < st.slots.len() {
                assert(witness_laws::slot_agrees(here.slots[i], before.slots[i], rho));
            }
        }
    }
}

/// The scope of a block of a program.
pub open spec fn block_scope(sc: ComputeScope, block: Seq<RawExpression>) -> ComputeScope {
    ComputeScope { block, ..sc }
}

/// What the members hold after the first `n` blocks of a program, with the hooks of each step.
pub open spec fn program_store(
    sc: ComputeScope,
    blocks: Seq<Vec<RawExpression>>,
    n: nat,
    rho: Valuation,
    store: Store,
    hooks: spec_fn(nat) -> spec_fn(nat) -> Hooks,
) -> Store
    decreases n,
{
    if n == 0 {
        store
    } else {
        let last = (n - 1) as nat;
        block_progress(
            block_scope(sc, blocks[n - 1]@),
            blocks[n - 1]@.len(),
            rho,
            program_store(sc, blocks, last, rho, store, hooks),
            hooks(last),
        ).store
    }
}

/// Whether the first `n` blocks of a program run, `k` effects having gone before.
pub open spec fn program_runs(
    sc: ComputeScope,
    blocks: Seq<Vec<RawExpression>>,
    n: nat,
    k: nat,
    rho: Valuation,
    store: Store,
    hooks: spec_fn(nat) -> spec_fn(nat) -> Hooks,
) -> bool
    decreases n,
{
    n > 0 ==> {
        let last = (n - 1) as nat;
        &&& program_runs(sc, blocks, last, k, rho, store, hooks)
        &&& block_runs(
            block_scope(sc, blocks[n - 1]@),
            blocks[n - 1]@.len(),
            k + witness::program_lowering(sc, blocks, last, k)->Ok_0.len(),
            rho,
            program_store(sc, blocks, last, rho, store, hooks),
            hooks(last),
        )
    }
}

/// The effects of a witness program leave in the members of the struct what the program says.
pub proof fn programs_fill_the_members(
    sc: ComputeScope,
    blocks: Seq<Vec<RawExpression>>,
    n: nat,
    k: nat,
    rho: Valuation,
    store: Store,
    hooks: spec_fn(nat) -> spec_fn(nat) -> Hooks,
    m: Memory,
    registers: Set<Seq<char>>,
)
    requires
        witness::program_lowering(sc, blocks, n, k) is Ok,
        program_runs(sc, blocks, n, k, rho, store, hooks),
        typed(sc.members, registers),
        m.store == store,
    ensures
        after_effects(
            m,
            witness::program_lowering(sc, blocks, n, k)->Ok_0,
            k,
            rho,
            registers,
        ).store == program_store(sc, blocks, n, rho, store, hooks),
    decreases n,
{
    if n > 0 {
        let last = (n - 1) as nat;
        let es = witness::program_lowering(sc, blocks, last, k)->Ok_0;
        let here = block_scope(sc, blocks[n - 1]@);
        let j = k + es.len();
        let st = witness::block_lowering(here, blocks[n - 1]@.len(), j)->Ok_0;
        let before = program_store(sc, blocks, last, rho, store, hooks);
        let m1 = after_effects(m, es, k, rho, registers);
        programs_fill_the_members(sc, blocks, last, k, rho, store, hooks, m, registers);
        blocks_do_what_their_steps_say(
            here,
            blocks[n - 1]@.len(),
            j,
            rho,
            before,
            hooks(last),
            m1,
            registers,
        );
        lemma_after_append(m, es, st.effects, k, rho, registers);
    }
}

/// The names of members that are registers.
pub open spec fn register_names() -> Set<Seq<char>> {
    Set::new(
        |name: Seq<char>|
            "out_reg_"@.is_prefix_of(name) || "internal_reg_"@.is_prefix_of(name),
    )
}

proof fn lemma_register_name(x: ExtractedVariable, is_output: bool)
    ensures
        register_names().contains(vars::member_name(x, is_output)) <==> x is Register,
{
    reveal_strlit("out_reg_");
    reveal_strlit("internal_reg_");
    reveal_strlit("out_var_");
    reveal_strlit("internal_var_");
    let name = vars::member_name(x, is_output);
    match x {
        ExtractedVariable::Register { low, high } => {
            let prefix = if is_output {
                "out_reg_"@
            } else {
                "internal_reg_"@
            };
            assert(name.take(prefix.len() as int) =~= prefix);
            assert(prefix.is_prefix_of(name));
        },
        ExtractedVariable::Scalar(v) => {
            if "out_reg_"@.is_prefix_of(name) {
                assert(name[0] == "out_reg_"@[0]);
                assert(name[4] == "out_reg_"@[4]);
            }
            if "internal_reg_"@.is_prefix_of(name) {
                assert(name[0] == "internal_reg_"@[0]);
                assert(name[9] == "internal_reg_"@[9]);
            }
        },
    }
}

proof fn lemma_typed_slots(
    base: Map<u64, (Seq<char>, Option<u64>)>,
    xs: Seq<ExtractedVariable>,
    is_output: bool,
)
    requires
        typed(base, register_names()),
    ensures
        typed(vars::member_slots(base, xs, is_output), register_names()),
    decreases xs.len(),
{
    if xs.len() > 0 {
        lemma_typed_slots(base, xs.drop_last(), is_output);
        lemma_register_name(xs.last(), is_output);
    }
}

/// The compute function of the struct that a circuit is emitted as leaves in the members of the
/// struct what the witness program of the circuit says.
pub proof fn emitted_structs_compute_their_programs(
    s: StructDef,
    name: Seq<char>,
    layout: LlzkStructLayout,
    co: CircuitOutput,
    program: WitnessComputation,
    rho: Valuation,
    store: Store,
    hooks: spec_fn(nat) -> spec_fn(nat) -> Hooks,
    m: Memory,
)
    requires
        ({
            let legacy = extract::legacy_circuit(name);
            let effects = codegen::witness_effects(program, co, legacy);
            &&& effects is Ok
            &&& codegen::is_emitted(s, name, layout, co, effects->Ok_0)
            &&& program_runs(
                codegen::compute_scope(program, co, legacy),
                program.blocks(),
                program.blocks().len(),
                0,
                rho,
                store,
                hooks,
            )
        }),
        m.store == store,
    ensures
        after_effects(m, ir::meaning(s.compute.ops@).1, 0, rho, register_names()).store
            == program_store(
            codegen::compute_scope(program, co, extract::legacy_circuit(name)),
            program.blocks(),
            program.blocks().len(),
            rho,
            store,
            hooks,
        ),
{
    let legacy = extract::legacy_circuit(name);
    let sc = codegen::compute_scope(program, co, legacy);
    let blocks = program.blocks();
    let none: Map<u64, (Seq<char>, Option<u64>)> = Map::empty();
    lemma_typed_slots(none, codegen::outputs_of(co, legacy), true);
    lemma_typed_slots(
        vars::member_slots(none, codegen::outputs_of(co, legacy), true),
        codegen::intermediates_of(co, legacy),
        false,
    );
    programs_fill_the_members(
        sc,
        blocks,
        blocks.len(),
        0,
        rho,
        store,
        hooks,
        m,
        register_names(),
    );
}

} // verus!
