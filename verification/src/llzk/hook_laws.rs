//! What the compute function of a circuit asks of the runtime.
use vstd::prelude::*;

use crate::circuit::CircuitOutput;
use crate::circuit::Variable;
use crate::llzk::builder::LlzkError;
use crate::llzk::codegen;
use crate::llzk::ir::Effect;
use crate::llzk::ir::FeltBinary;
use crate::llzk::ir::ValueType;
use crate::llzk::lowering;
use crate::llzk::lowering::ComputeScope;
use crate::llzk::module;
use crate::llzk::module::StructDef;
use crate::llzk::ssa;
use crate::llzk::ssa::BoolNodeExpression;
use crate::llzk::ssa::ColumnAddress;
use crate::llzk::ssa::Expression;
use crate::llzk::ssa::FieldNodeExpression;
use crate::llzk::ssa::FixedWidthIntegerNodeExpression;
use crate::llzk::ssa::RawExpression;
use crate::llzk::vars::VarMaps;
use crate::llzk::witness;
use crate::llzk::witness::WitnessComputation;

verus! {

/// Whether a call goes to one of the functions that the runtime provides, with as many arguments and
/// results as that function has.
pub open spec fn is_runtime_call(e: Effect) -> bool {
    match e {
        Effect::Call(name, args, results) => {
            ||| name == "read_from_rom"@ && args.len() == 1 && results == 2
            ||| name == "read_from_memory_subtree"@ && args.len() == 1 && results == 1
            ||| name == "write_to_memory_subtree"@ && args.len() == 2 && results == 0
            ||| name == "read_oracle_field"@ && args.len() == 4 && results == 1
            ||| name == "read_oracle_bool"@ && args.len() == 3 && results == 1
            ||| name == "read_oracle_u8"@ && args.len() == 3 && results == 1
            ||| name == "read_oracle_u16"@ && args.len() == 3 && results == 1
            ||| name == "read_oracle_u32"@ && args.len() == 3 && results == 2
        },
        _ => true,
    }
}

/// Whether an effect reads a memory column.
pub open spec fn is_memory_read(e: Effect) -> bool {
    e matches Effect::Call(name, _, _) && name == "read_from_memory_subtree"@
}

/// Whether every call goes to the runtime as it is declared.
pub open spec fn calls_the_runtime(es: Seq<Effect>) -> bool {
    forall|i: int| 0 <= i < es.len() ==> is_runtime_call(#[trigger] es[i])
}

/// Whether no memory column is read.
pub open spec fn reads_no_memory(es: Seq<Effect>) -> bool {
    forall|i: int| 0 <= i < es.len() ==> !is_memory_read(#[trigger] es[i])
}

/// Whether effects are sound calls, and where nothing is to be read from the memory columns, read none.
spec fn fits(es: Seq<Effect>, may_read: bool) -> bool {
    calls_the_runtime(es) && (may_read || reads_no_memory(es))
}

proof fn lemma_names()
    ensures
        "read_from_rom"@.len() == 13,
        "read_from_memory_subtree"@.len() == 24,
        "write_to_memory_subtree"@.len() == 23,
        "read_oracle_field"@.len() == 17,
        "read_oracle_bool"@.len() == 16,
        "read_oracle_u8"@.len() == 14,
        "read_oracle_u16"@.len() == 15,
        "read_oracle_u32"@.len() == 15,
        "read_oracle_u16"@ != "read_oracle_u32"@,
{
    reveal_strlit("read_from_rom");
    reveal_strlit("read_from_memory_subtree");
    reveal_strlit("write_to_memory_subtree");
    reveal_strlit("read_oracle_field");
    reveal_strlit("read_oracle_bool");
    reveal_strlit("read_oracle_u8");
    reveal_strlit("read_oracle_u16");
    reveal_strlit("read_oracle_u32");
    assert("read_oracle_u16"@[13] == '1');
    assert("read_oracle_u32"@[13] == '3');
}

/// The places of a scope.
spec fn maps_of(sc: ComputeScope) -> VarMaps {
    VarMaps { args_map: sc.args_map, members: sc.members }
}

spec fn may_read(sc: ComputeScope, places: Set<Variable>) -> bool {
    ssa::reads_runtime_memory(places, sc.mapping, maps_of(sc))
}

proof fn lemma_part(sc: ComputeScope, part: Set<Variable>, whole: Set<Variable>)
    requires
        part.subset_of(whole),
    ensures
        may_read(sc, part) ==> may_read(sc, whole),
{
    if may_read(sc, part) {
        let v = choose|v: Variable| #[trigger]
            part.contains(v) && ssa::in_runtime_memory(v, sc.mapping, maps_of(sc));
        assert(whole.contains(v));
    }
}

proof fn lemma_appended(a: Seq<Effect>, b: Seq<Effect>, may: bool)
    requires
        fits(a, may),
        fits(b, may),
    ensures
        fits(a + b, may),
{
    let s = a + b;
    assert forall|i: int| 0 <= i < s.len() implies is_runtime_call(#[trigger] s[i]) by {
        if i < a.len() {
            assert(s[i] == a[i]);
        } else {
            assert(s[i] == b[i - a.len()]);
        }
    }
    if !may {
        assert forall|i: int| 0 <= i < s.len() implies !is_memory_read(#[trigger] s[i]) by {
            if i < a.len() {
                assert(s[i] == a[i]);
            } else {
                assert(s[i] == b[i - a.len()]);
            }
        }
    }
}

proof fn lemma_variable(sc: ComputeScope, v: Variable, k: nat, may: bool)
    requires
        lowering::variable_reading(sc, v, k) is Ok,
        ssa::in_runtime_memory(v, sc.mapping, maps_of(sc)) ==> may,
    ensures
        fits(lowering::variable_reading(sc, v, k)->Ok_0.effects, may),
{
    lemma_names();
}

proof fn lemma_field(sc: ComputeScope, e: FieldNodeExpression, k: nat, may: bool)
    requires
        lowering::field_lowering(sc, e, k) is Ok,
        may_read(sc, ssa::field_places(e)) ==> may,
    ensures
        fits(lowering::field_lowering(sc, e, k)->Ok_0.effects, may),
    decreases e,
{
    let all = ssa::field_places(e);
    match e {
        FieldNodeExpression::Place(v) => {
            assert(all.contains(v));
            lemma_variable(sc, v, k, may);
        },
        FieldNodeExpression::OracleValue { .. } => {
            lemma_names();
        },
        FieldNodeExpression::FromInteger(x) => {
            lemma_integer(sc, *x, k, may);
        },
        FieldNodeExpression::FromMask(x) => {
            lemma_bool(sc, *x, k, may);
        },
        FieldNodeExpression::Add { lhs, rhs }
        | FieldNodeExpression::Sub { lhs, rhs }
        | FieldNodeExpression::Mul { lhs, rhs } => {
            lemma_part(sc, ssa::field_places(*lhs), all);
            lemma_part(sc, ssa::field_places(*rhs), all);
            let a = lowering::field_lowering(sc, *lhs, k);
            let b = lowering::field_lowering(sc, *rhs, lowering::after(k, a));
            lemma_field(sc, *lhs, k, may);
            lemma_field(sc, *rhs, lowering::after(k, a), may);
            lemma_appended(a->Ok_0.effects, b->Ok_0.effects, may);
        },
        FieldNodeExpression::AddProduct { additive_term, mul_0, mul_1 } => {
            lemma_part(sc, ssa::field_places(*mul_0), all);
            lemma_part(sc, ssa::field_places(*mul_1), all);
            lemma_part(sc, ssa::field_places(*additive_term), all);
            let x = lowering::field_lowering(sc, *mul_0, k);
            let y = lowering::field_lowering(sc, *mul_1, lowering::after(k, x));
            let product = lowering::combined(FeltBinary::Mul, lowering::both(x, y));
            let addend = lowering::field_lowering(
                sc,
                *additive_term,
                lowering::after(k, product),
            );
            lemma_field(sc, *mul_0, k, may);
            lemma_field(sc, *mul_1, lowering::after(k, x), may);
            lemma_field(sc, *additive_term, lowering::after(k, product), may);
            lemma_appended(x->Ok_0.effects, y->Ok_0.effects, may);
            lemma_appended(product->Ok_0.effects, addend->Ok_0.effects, may);
        },
        FieldNodeExpression::Select { selector, if_true, if_false } => {
            lemma_part(sc, ssa::bool_places(*selector), all);
            lemma_part(sc, ssa::field_places(*if_true), all);
            lemma_part(sc, ssa::field_places(*if_false), all);
            let c = lowering::bool_lowering(sc, *selector, k);
            let a = lowering::field_lowering(sc, *if_true, lowering::after(k, c));
            let b = lowering::field_lowering(
                sc,
                *if_false,
                lowering::after(lowering::after(k, c), a),
            );
            lemma_bool(sc, *selector, k, may);
            lemma_field(sc, *if_true, lowering::after(k, c), may);
            lemma_field(sc, *if_false, lowering::after(lowering::after(k, c), a), may);
            lemma_appended(a->Ok_0.effects, b->Ok_0.effects, may);
            lemma_appended(c->Ok_0.effects, a->Ok_0.effects + b->Ok_0.effects, may);
        },
        FieldNodeExpression::InverseUnchecked(x) => {
            lemma_field(sc, *x, k, may);
        },
        _ => {},
    }
}

proof fn lemma_bool(sc: ComputeScope, e: BoolNodeExpression, k: nat, may: bool)
    requires
        lowering::bool_lowering(sc, e, k) is Ok,
        may_read(sc, ssa::bool_places(e)) ==> may,
    ensures
        fits(lowering::bool_lowering(sc, e, k)->Ok_0.effects, may),
    decreases e,
{
    let all = ssa::bool_places(e);
    match e {
        BoolNodeExpression::Place(v) => {
            assert(all.contains(v));
            lemma_variable(sc, v, k, may);
        },
        BoolNodeExpression::OracleValue { .. } => {
            lemma_names();
        },
        BoolNodeExpression::FromGenericInteger(x) => {
            lemma_integer(sc, *x, k, may);
        },
        BoolNodeExpression::FromGenericIntegerEquality { lhs, rhs }
        | BoolNodeExpression::FromGenericIntegerCarry { lhs, rhs }
        | BoolNodeExpression::FromGenericIntegerBorrow { lhs, rhs } => {
            lemma_part(sc, ssa::integer_places(*lhs), all);
            lemma_part(sc, ssa::integer_places(*rhs), all);
            let a = lowering::integer_lowering(sc, *lhs, k);
            let b = lowering::integer_lowering(sc, *rhs, lowering::after_int(k, a));
            lemma_integer(sc, *lhs, k, may);
            lemma_integer(sc, *rhs, lowering::after_int(k, a), may);
            lemma_appended(a->Ok_0.effects, b->Ok_0.effects, may);
        },
        BoolNodeExpression::FromField(x) => {
            lemma_field(sc, *x, k, may);
        },
        BoolNodeExpression::FromFieldEquality { lhs, rhs } => {
            lemma_part(sc, ssa::field_places(*lhs), all);
            lemma_part(sc, ssa::field_places(*rhs), all);
            let a = lowering::field_lowering(sc, *lhs, k);
            let b = lowering::field_lowering(sc, *rhs, lowering::after(k, a));
            lemma_field(sc, *lhs, k, may);
            lemma_field(sc, *rhs, lowering::after(k, a), may);
            lemma_appended(a->Ok_0.effects, b->Ok_0.effects, may);
        },
        BoolNodeExpression::And { lhs, rhs }
        | BoolNodeExpression::Or { lhs, rhs } => {
            lemma_part(sc, ssa::bool_places(*lhs), all);
            lemma_part(sc, ssa::bool_places(*rhs), all);
            let a = lowering::bool_lowering(sc, *lhs, k);
            let b = lowering::bool_lowering(sc, *rhs, lowering::after(k, a));
            lemma_bool(sc, *lhs, k, may);
            lemma_bool(sc, *rhs, lowering::after(k, a), may);
            lemma_appended(a->Ok_0.effects, b->Ok_0.effects, may);
        },
        BoolNodeExpression::Select { selector, if_true, if_false } => {
            lemma_part(sc, ssa::bool_places(*selector), all);
            lemma_part(sc, ssa::bool_places(*if_true), all);
            lemma_part(sc, ssa::bool_places(*if_false), all);
            let c = lowering::bool_lowering(sc, *selector, k);
            let a = lowering::bool_lowering(sc, *if_true, lowering::after(k, c));
            let b = lowering::bool_lowering(
                sc,
                *if_false,
                lowering::after(lowering::after(k, c), a),
            );
            lemma_bool(sc, *selector, k, may);
            lemma_bool(sc, *if_true, lowering::after(k, c), may);
            lemma_bool(sc, *if_false, lowering::after(lowering::after(k, c), a), may);
            lemma_appended(a->Ok_0.effects, b->Ok_0.effects, may);
            lemma_appended(c->Ok_0.effects, a->Ok_0.effects + b->Ok_0.effects, may);
        },
        BoolNodeExpression::Negate(x) => {
            lemma_bool(sc, *x, k, may);
        },
        _ => {},
    }
}

#[verifier::rlimit(40)]
proof fn lemma_integer(sc: ComputeScope, e: FixedWidthIntegerNodeExpression, k: nat, may: bool)
    requires
        lowering::integer_lowering(sc, e, k) is Ok,
        may_read(sc, ssa::integer_places(e)) ==> may,
    ensures
        fits(lowering::integer_lowering(sc, e, k)->Ok_0.effects, may),
    decreases e,
{
    let all = ssa::integer_places(e);
    match e {
        FixedWidthIntegerNodeExpression::U8Place(v)
        | FixedWidthIntegerNodeExpression::U16Place(v) => {
            assert(all.contains(v));
            lemma_variable(sc, v, k, may);
        },
        FixedWidthIntegerNodeExpression::U32OracleValue { .. }
        | FixedWidthIntegerNodeExpression::U16OracleValue { .. }
        | FixedWidthIntegerNodeExpression::U8OracleValue { .. } => {
            lemma_names();
        },
        FixedWidthIntegerNodeExpression::U32FromMask(x) => {
            lemma_bool(sc, *x, k, may);
        },
        FixedWidthIntegerNodeExpression::U32FromField(x) => {
            lemma_field(sc, *x, k, may);
        },
        FixedWidthIntegerNodeExpression::WidenFromU8(x)
        | FixedWidthIntegerNodeExpression::WidenFromU16(x)
        | FixedWidthIntegerNodeExpression::TruncateFromU16(x)
        | FixedWidthIntegerNodeExpression::TruncateFromU32(x)
        | FixedWidthIntegerNodeExpression::I32FromU32(x)
        | FixedWidthIntegerNodeExpression::U32FromI32(x)
        | FixedWidthIntegerNodeExpression::BinaryNot(x) => {
            lemma_integer(sc, *x, k, may);
        },
        FixedWidthIntegerNodeExpression::Select { selector, if_true, if_false } => {
            lemma_part(sc, ssa::bool_places(*selector), all);
            lemma_part(sc, ssa::integer_places(*if_true), all);
            lemma_part(sc, ssa::integer_places(*if_false), all);
            let c = lowering::bool_lowering(sc, *selector, k);
            let a = lowering::integer_lowering(sc, *if_true, lowering::after(k, c));
            let b = lowering::integer_lowering(
                sc,
                *if_false,
                lowering::after_int(lowering::after(k, c), a),
            );
            lemma_bool(sc, *selector, k, may);
            lemma_integer(sc, *if_true, lowering::after(k, c), may);
            lemma_integer(sc, *if_false, lowering::after_int(lowering::after(k, c), a), may);
            lemma_appended(a->Ok_0.effects, b->Ok_0.effects, may);
            lemma_appended(c->Ok_0.effects, a->Ok_0.effects + b->Ok_0.effects, may);
        },
        FixedWidthIntegerNodeExpression::WrappingAdd { lhs, rhs }
        | FixedWidthIntegerNodeExpression::WrappingSub { lhs, rhs }
        | FixedWidthIntegerNodeExpression::BinaryAnd { lhs, rhs }
        | FixedWidthIntegerNodeExpression::BinaryOr { lhs, rhs }
        | FixedWidthIntegerNodeExpression::BinaryXor { lhs, rhs } => {
            lemma_part(sc, ssa::integer_places(*lhs), all);
            lemma_part(sc, ssa::integer_places(*rhs), all);
            let a = lowering::integer_lowering(sc, *lhs, k);
            let b = lowering::integer_lowering(sc, *rhs, lowering::after_int(k, a));
            lemma_integer(sc, *lhs, k, may);
            lemma_integer(sc, *rhs, lowering::after_int(k, a), may);
            lemma_appended(a->Ok_0.effects, b->Ok_0.effects, may);
        },
        FixedWidthIntegerNodeExpression::WrappingShl { lhs, .. }
        | FixedWidthIntegerNodeExpression::WrappingShr { lhs, .. } => {
            lemma_integer(sc, *lhs, k, may);
        },
        FixedWidthIntegerNodeExpression::LowestBits { value, .. } => {
            lemma_integer(sc, *value, k, may);
        },
        _ => {},
    }
}

proof fn lemma_store(sc: ComputeScope, e: Expression, k: nat, may: bool)
    requires
        witness::store_lowering(sc, e, k) is Ok,
        may_read(sc, ssa::expression_places(e)) ==> may,
    ensures
        fits(witness::store_lowering(sc, e, k)->Ok_0.effects, may),
{
    match e {
        Expression::Bool(x) => lemma_bool(sc, x, k, may),
        Expression::Field(x) => lemma_field(sc, x, k, may),
        Expression::U8(x) | Expression::U16(x) | Expression::U32(x) => lemma_integer(
            sc,
            x,
            k,
            may,
        ),
    }
}

proof fn lemma_write(
    sc: ComputeScope,
    v: Variable,
    source: Expression,
    condition: Option<usize>,
    k: nat,
    may: bool,
)
    requires
        witness::write_lowering(sc, v, source, condition, k) is Ok,
        may_read(sc, ssa::expression_places(source)) ==> may,
        condition is Some && sc.mapping.contains_key(v.0) && sc.mapping[v.0] is MemorySubtree
            && !sc.members.contains_key(v.0) ==> may,
        sc.members.contains_key(v.0) || sc.mapping.contains_key(v.0),
    ensures
        fits(witness::write_lowering(sc, v, source, condition, k)->Ok_0, may),
{
    lemma_names();
    let value = witness::store_lowering(sc, source, k);
    if sc.members.contains_key(v.0) || !witness::omitted(sc, v, source, condition) {
        lemma_store(sc, source, k, may);
        let in_memory = !sc.members.contains_key(v.0) && sc.mapping[v.0] is MemorySubtree;
        let existing = if in_memory {
            lowering::memory_reading(
                sc.mapping[v.0]->MemorySubtree_0,
                lowering::after(k, value),
            )
        } else {
            witness::existing_reading(sc, v, lowering::after(k, value))
        };
        let stored = witness::guarded_lowering(sc, value, condition, existing);
        if condition is Some {
            lemma_appended(value->Ok_0.effects, existing->Ok_0.effects, may);
        }
        assert(fits(stored->Ok_0.effects, may));
        let rest = if in_memory {
            lowering::memory_writing(sc.mapping[v.0]->MemorySubtree_0, witness::term(stored))
        } else {
            witness::assignment(sc, v, witness::term(stored), lowering::after(k, stored))
        };
        assert(fits(rest->Ok_0, may));
        lemma_appended(stored->Ok_0.effects, rest->Ok_0, may);
    }
}

spec fn step_may_read(sc: ComputeScope, e: RawExpression) -> bool {
    ssa::step_reads_runtime_memory(e, sc.mapping, maps_of(sc))
}

proof fn lemma_step(sc: ComputeScope, e: RawExpression, k: nat, may: bool)
    requires
        witness::step_lowering(sc, e, k) is Ok,
        step_may_read(sc, e) ==> may,
        witness::write_has_place(e, sc.members, sc.mapping),
    ensures
        fits(witness::step_lowering(sc, e, k)->Ok_0.effects, may),
{
    match e {
        RawExpression::Bool(x) => lemma_bool(sc, x, k, may),
        RawExpression::Field(x) => lemma_field(sc, x, k, may),
        RawExpression::Integer(x) => lemma_integer(sc, x, k, may),
        RawExpression::WriteVariable { into_variable, source_subexpr, condition_subexpr_idx } => {
            lemma_write(sc, into_variable, source_subexpr, condition_subexpr_idx, k, may);
        },
        _ => {
            lemma_names();
        },
    }
}

proof fn lemma_block(sc: ComputeScope, n: nat, k: nat, may: bool)
    requires
        n <= sc.block.len(),
        witness::block_lowering(sc, n, k) is Ok,
        forall|i: int| 0 <= i < n ==> (step_may_read(sc, #[trigger] sc.block[i]) ==> may),
        forall|i: int|
            0 <= i < n ==> witness::write_has_place(
                #[trigger] sc.block[i],
                sc.members,
                sc.mapping,
            ),
    ensures
        fits(witness::block_lowering(sc, n, k)->Ok_0.effects, may),
    decreases n,
{
    if n > 0 {
        let last = (n - 1) as nat;
        lemma_block(sc, last, k, may);
        let st = witness::block_lowering(sc, last, k)->Ok_0;
        let at = witness::at_state(sc, st);
        let step = sc.block[last as int];
        assert(step_may_read(at, step) == step_may_read(sc, step));
        lemma_step(at, step, k + st.effects.len(), may);
        lemma_appended(
            st.effects,
            witness::step_lowering(at, step, k + st.effects.len())->Ok_0.effects,
            may,
        );
    }
}

proof fn lemma_program(
    sc: ComputeScope,
    blocks: Seq<Vec<RawExpression>>,
    n: nat,
    k: nat,
    may: bool,
)
    requires
        n <= blocks.len(),
        witness::program_lowering(sc, blocks, n, k) is Ok,
        forall|b: int, i: int|
            0 <= b < n && 0 <= i < blocks[b]@.len() ==> (step_may_read(
                sc,
                #[trigger] blocks[b]@[i],
            ) ==> may),
        forall|b: int, i: int|
            0 <= b < n && 0 <= i < blocks[b]@.len() ==> witness::write_has_place(
                #[trigger] blocks[b]@[i],
                sc.members,
                sc.mapping,
            ),
    ensures
        fits(witness::program_lowering(sc, blocks, n, k)->Ok_0, may),
    decreases n,
{
    if n > 0 {
        let last = (n - 1) as nat;
        lemma_program(sc, blocks, last, k, may);
        let es = witness::program_lowering(sc, blocks, last, k)->Ok_0;
        let inner = ComputeScope { block: blocks[last as int]@, ..sc };
        assert forall|i: int| 0 <= i < inner.block.len() implies (step_may_read(
            inner,
            #[trigger] inner.block[i],
        ) ==> may) by {
            assert(inner.block[i] == blocks[last as int]@[i]);
        }
        assert forall|i: int| 0 <= i < inner.block.len() implies witness::write_has_place(
            #[trigger] inner.block[i],
            inner.members,
            inner.mapping,
        ) by {
            assert(inner.block[i] == blocks[last as int]@[i]);
        }
        lemma_block(inner, inner.block.len(), k + es.len(), may);
        lemma_appended(
            es,
            witness::block_lowering(inner, inner.block.len(), k + es.len())->Ok_0.effects,
            may,
        );
    }
}

/// The compute function calls the runtime only as it is declared; and where no step of the program
/// needs a memory column, it reads none, so that writes of memory columns may be left out.
pub proof fn programs_call_the_runtime(
    w: WitnessComputation,
    co: CircuitOutput,
    legacy: bool,
    es: Seq<Effect>,
)
    requires
        codegen::witness_effects(w, co, legacy) == Ok::<Seq<Effect>, LlzkError>(es),
        w.writes_have_places(codegen::compute_scope(w, co, legacy).members),
    ensures
        calls_the_runtime(es),
        !codegen::compute_scope(w, co, legacy).reads_memory ==> reads_no_memory(es),
{
    let sc = codegen::compute_scope(w, co, legacy);
    assert forall|b: int, i: int|
        0 <= b < w.blocks().len() && 0 <= i < w.blocks()[b]@.len() implies (step_may_read(
        sc,
        #[trigger] w.blocks()[b]@[i],
    ) ==> sc.reads_memory) by {
        if step_may_read(sc, w.blocks()[b]@[i]) {
            assert(w.reads_memory(maps_of(sc)));
        }
    }
    lemma_program(sc, w.blocks(), w.blocks().len(), 0, sc.reads_memory);
}

/// A write is left out only where it copies to a memory column that no step reads back: never that of
/// a member, never one under a condition.
pub proof fn only_unread_copies_are_left_out(
    sc: ComputeScope,
    v: Variable,
    source: Expression,
    condition: Option<usize>,
    k: nat,
)
    requires
        witness::write_lowering(sc, v, source, condition, k) == Ok::<Seq<Effect>, LlzkError>(
            Seq::empty(),
        ),
    ensures
        !sc.members.contains_key(v.0),
        !sc.reads_memory,
        condition is None,
        sc.mapping.contains_key(v.0) && sc.mapping[v.0] is MemorySubtree,
        witness::expression_origin(sc, source) is Some,
{
    if sc.members.contains_key(v.0) || !witness::omitted(sc, v, source, condition) {
        let es = witness::write_lowering(sc, v, source, condition, k)->Ok_0;
        assert(es.len() > 0);
    }
}

/// A variable with a member is written to it; one that only a memory column keeps is written to that
/// column wherever it may be read back, is written under a condition, or is no copy of an argument;
/// and a setup column is never written.
pub proof fn writes_go_to_their_place(
    sc: ComputeScope,
    v: Variable,
    source: Expression,
    condition: Option<usize>,
    k: nat,
)
    requires
        sc.members.contains_key(v.0) || sc.mapping.contains_key(v.0),
    ensures
        sc.members.contains_key(v.0) ==> witness::write_lowering(sc, v, source, condition, k)
            == witness::member_write(sc, v, source, condition, k),
        (!sc.members.contains_key(v.0) && (sc.reads_memory || condition is Some
            || witness::expression_origin(sc, source) is None)) ==> (
        sc.mapping[v.0] matches ColumnAddress::MemorySubtree(offset)
            ==> witness::write_lowering(sc, v, source, condition, k) == witness::memory_write(
            sc,
            offset,
            source,
            condition,
            k,
        )),
        !sc.members.contains_key(v.0) && sc.mapping[v.0] is SetupSubtree
            ==> witness::write_lowering(sc, v, source, condition, k) == Err::<
            Seq<Effect>,
            LlzkError,
        >(LlzkError::SetupColumnWritten),
{
}

/// A memory column is written through the runtime, after what was computed for it: its number and the
/// value are handed over.
pub proof fn memory_columns_are_written_last(
    sc: ComputeScope,
    offset: usize,
    source: Expression,
    condition: Option<usize>,
    k: nat,
    es: Seq<Effect>,
)
    requires
        witness::memory_write(sc, offset, source, condition, k) == Ok::<Seq<Effect>, LlzkError>(es),
    ensures
        es.len() > 0,
        es.last() matches Effect::Call(name, args, results) && name == "write_to_memory_subtree"@
            && args.len() == 2 && results == 0,
{
}

/// The declaration of a function of the runtime.
pub open spec fn runtime_function(name: Seq<char>) -> (
    Seq<char>,
    Seq<ValueType>,
    Seq<ValueType>,
) {
    let f = ValueType::Felt;
    if name == "read_from_rom"@ {
        (name, seq![f], seq![f, f])
    } else if name == "read_from_memory_subtree"@ {
        (name, seq![ValueType::Index], seq![f])
    } else if name == "write_to_memory_subtree"@ {
        (name, seq![ValueType::Index, f], Seq::empty())
    } else if name == "read_oracle_field"@ {
        (name, seq![f, f, f, f], seq![f])
    } else if name == "read_oracle_bool"@ {
        (name, seq![f, f, f], seq![ValueType::Bool])
    } else if name == "read_oracle_u32"@ {
        (name, seq![f, f, f], seq![f, f])
    } else {
        (name, seq![f, f, f], seq![f])
    }
}

/// Whether this is the name of a function of the runtime.
pub open spec fn is_runtime_name(name: Seq<char>) -> bool {
    ||| name == "read_from_rom"@
    ||| name == "read_from_memory_subtree"@
    ||| name == "write_to_memory_subtree"@
    ||| name == "read_oracle_field"@
    ||| name == "read_oracle_bool"@
    ||| name == "read_oracle_u8"@
    ||| name == "read_oracle_u16"@
    ||| name == "read_oracle_u32"@
}

proof fn lemma_declared(structs: Seq<StructDef>, n: nat, name: Seq<char>)
    requires
        n <= 8,
    ensures
        ({
            let ds = witness::with_hooks(structs, Seq::empty(), n);
            &&& forall|i: int|
                0 <= i < ds.len() ==> exists|j: int|
                    0 <= j < n && #[trigger] ds[i] == #[trigger] witness::runtime_hooks()[j]
            &&& forall|j: int|
                0 <= j < n ==> (ds.contains(#[trigger] witness::runtime_hooks()[j])
                    <==> module::module_calls(structs, witness::runtime_hooks()[j].0))
        }),
    decreases n,
{
    if n > 0 {
        let last = (n - 1) as nat;
        lemma_declared(structs, last, name);
        lemma_names();
        let hooks = witness::runtime_hooks();
        let before = witness::with_hooks(structs, Seq::empty(), last);
        let ds = witness::with_hooks(structs, Seq::empty(), n);
        let (x, ins, outs) = hooks[last as int];
        assert forall|i: int, j: int| 0 <= i < 8 && 0 <= j < 8 && i != j implies (
        #[trigger] hooks[i]).0 != (#[trigger] hooks[j]).0 by {}
        assert forall|i: int| 0 <= i < before.len() implies (#[trigger] before[i]).0 != x by {
            let j = choose|j: int|
                0 <= j < last && #[trigger] before[i] == #[trigger] hooks[j];
            assert(hooks[j].0 != hooks[last as int].0);
        }
        assert forall|i: int| 0 <= i < ds.len() implies exists|j: int|
            0 <= j < n && #[trigger] ds[i] == #[trigger] hooks[j] by {
            if i < before.len() {
                assert(ds[i] == before[i]);
                let j = choose|j: int|
                    0 <= j < last && #[trigger] before[i] == #[trigger] hooks[j];
                assert(ds[i] == hooks[j]);
            } else {
                assert(ds[i] == hooks[last as int]);
            }
        }
        assert forall|j: int| 0 <= j < n implies (ds.contains(#[trigger] hooks[j])
            <==> module::module_calls(structs, hooks[j].0)) by {
            module::declarations_keep_the_others(before, x, ins, outs, hooks[j]);
            if j == last && before.contains(hooks[j]) {
                let i = choose|i: int| 0 <= i < before.len() && before[i] == hooks[j];
                assert(before[i].0 != x);
            }
        }
    }
}

/// A module declares just the functions of the runtime that it calls, each with its types.
pub proof fn called_functions_are_declared(structs: Seq<StructDef>, name: Seq<char>)
    requires
        is_runtime_name(name),
    ensures
        witness::with_hooks(structs, Seq::empty(), 8).contains(runtime_function(name))
            <==> module::module_calls(structs, name),
{
    lemma_names();
    lemma_declared(structs, 8, name);
    let hooks = witness::runtime_hooks();
    assert(exists|j: int| 0 <= j < 8 && #[trigger] hooks[j] == runtime_function(name)) by {
        assert(hooks[0] == runtime_function("read_from_rom"@));
        assert(hooks[1] == runtime_function("read_from_memory_subtree"@));
        assert(hooks[2] == runtime_function("write_to_memory_subtree"@));
        assert(hooks[3] == runtime_function("read_oracle_field"@));
        assert(hooks[4] == runtime_function("read_oracle_bool"@));
        assert(hooks[5] == runtime_function("read_oracle_u8"@));
        assert(hooks[6] == runtime_function("read_oracle_u16"@));
        assert(hooks[7] == runtime_function("read_oracle_u32"@));
    }
}

/// A variable is copied where it is an argument, and from nowhere else; and what a slot copies is what
/// its step copied.
pub proof fn only_arguments_are_copied(sc: ComputeScope, v: Variable, idx: usize)
    ensures
        witness::expression_origin(sc, Expression::Field(FieldNodeExpression::Place(v)))
            == witness::expression_origin(
            sc,
            Expression::U16(FixedWidthIntegerNodeExpression::U16Place(v)),
        ),
        witness::expression_origin(sc, Expression::Field(FieldNodeExpression::Place(v)))
            == witness::expression_origin(sc, Expression::Bool(BoolNodeExpression::Place(v))),
        witness::expression_origin(sc, Expression::Field(FieldNodeExpression::Place(v))) == (
        if sc.args_map.contains_key(v.0) {
            Some(v)
        } else {
            None
        }),
        idx < sc.origins.len() ==> witness::expression_origin(
            sc,
            Expression::Field(FieldNodeExpression::SubExpression(idx)),
        ) == sc.origins[idx as int],
        idx >= sc.origins.len() ==> witness::expression_origin(
            sc,
            Expression::Field(FieldNodeExpression::SubExpression(idx)),
        ) is None,
{
}

/// A field value that was computed is no copy: constants, sums, differences, products, selections and
/// inverses are written to the memory columns.
pub proof fn computed_field_values_are_no_copies(sc: ComputeScope, e: FieldNodeExpression)
    requires
        e is Constant || e is Add || e is Sub || e is Mul || e is AddProduct || e is Select
            || e is InverseUnchecked || e is InverseOrZero,
    ensures
        witness::expression_origin(sc, Expression::Field(e)) is None,
{
}

/// A boolean that was computed is no copy.
pub proof fn computed_booleans_are_no_copies(sc: ComputeScope, e: BoolNodeExpression)
    requires
        !(e is Place) && !(e is SubExpression) && !(e is OracleValue),
    ensures
        witness::expression_origin(sc, Expression::Bool(e)) is None,
        witness::expression_origin(
            sc,
            Expression::Field(FieldNodeExpression::FromMask(Box::new(e))),
        ) is None,
{
}

/// An integer that was computed is no copy: only one that is taken over, widened, cut to its low part
/// or reduced to its high limb is.
pub proof fn computed_integers_are_no_copies(sc: ComputeScope, e: FixedWidthIntegerNodeExpression)
    requires
        match e {
            FixedWidthIntegerNodeExpression::U8Place(_)
            | FixedWidthIntegerNodeExpression::U16Place(_)
            | FixedWidthIntegerNodeExpression::U8SubExpression(_)
            | FixedWidthIntegerNodeExpression::U16SubExpression(_)
            | FixedWidthIntegerNodeExpression::U32SubExpression(_)
            | FixedWidthIntegerNodeExpression::U32OracleValue { .. }
            | FixedWidthIntegerNodeExpression::U16OracleValue { .. }
            | FixedWidthIntegerNodeExpression::U8OracleValue { .. }
            | FixedWidthIntegerNodeExpression::WidenFromU8(_)
            | FixedWidthIntegerNodeExpression::WidenFromU16(_)
            | FixedWidthIntegerNodeExpression::TruncateFromU16(_)
            | FixedWidthIntegerNodeExpression::TruncateFromU32(_)
            | FixedWidthIntegerNodeExpression::I32FromU32(_)
            | FixedWidthIntegerNodeExpression::U32FromI32(_) => false,
            FixedWidthIntegerNodeExpression::WrappingShr { magnitude, .. } => magnitude != 0
                && magnitude != 16,
            _ => true,
        },
    ensures
        witness::expression_origin(sc, Expression::U32(e)) is None,
        witness::expression_origin(
            sc,
            Expression::Field(FieldNodeExpression::FromInteger(Box::new(e))),
        ) is None,
{
}

} // verus!
