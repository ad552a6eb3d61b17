//! Which circuits and programs can be lowered.
use vstd::prelude::*;

use crate::circuit::CircuitOutput;
use crate::circuit::Constraint;
use crate::circuit::LookupInput;
use crate::circuit::LookupQuery;
use crate::circuit::Mersenne31Field;
use crate::circuit::Placeholder;
use crate::circuit::RangeCheckQuery;
use crate::circuit::TableIds;
use crate::circuit::TableType;
use crate::circuit::Term;
use crate::circuit::Variable;
use crate::llzk::codegen;
use crate::llzk::config::LlzkStructLayout;
use crate::llzk::constraints;
use crate::llzk::constraints::Scope;
use crate::llzk::extract;
use crate::llzk::extract::ExtractedVariable;
use crate::llzk::ir::FeltBinary;
use crate::llzk::ir::Sym;
use crate::llzk::ir::ValueType;
use crate::llzk::lowering;
use crate::llzk::lowering::ComputeScope;
use crate::llzk::lowering::ComputedSym;
use crate::llzk::lowering::SlotSym;
use crate::llzk::program_laws;
use crate::llzk::ssa::BoolNodeExpression;
use crate::llzk::ssa::ColumnAddress;
use crate::llzk::ssa::Expression;
use crate::llzk::ssa::FieldNodeExpression;
use crate::llzk::ssa::FixedWidthIntegerNodeExpression;
use crate::llzk::ssa::RawExpression;
use crate::llzk::step_laws;
use crate::llzk::struct_laws;
use crate::llzk::table_lookups;
use crate::llzk::vars;
use crate::llzk::witness;
use crate::llzk::witness::WitnessComputation;

verus! {

proof fn lemma_arguments(inputs: Seq<ExtractedVariable>, v: u64)
    requires
        inputs.len() <= usize::MAX,
        vars::arg_slots(inputs).contains_key(v),
    ensures
        vars::arg_slots(inputs)[v].arg < inputs.len(),
        vars::arg_slots(inputs)[v].limb matches Some(i) ==> i <= 1
            && inputs[vars::arg_slots(inputs)[v].arg as int] is Register,
    decreases inputs.len(),
{
    if inputs.len() > 0 {
        let front = inputs.drop_last();
        if vars::arg_slots(front).contains_key(v) {
            lemma_arguments(front, v);
        }
    }
}

/// Whether members are read as a whole or by one of two limbs.
spec fn two_limbs(members: Map<u64, (Seq<char>, Option<u64>)>) -> bool {
    forall|v: u64| #[trigger]
        members.contains_key(v) ==> (members[v].1 matches Some(i) ==> i <= 1)
}

proof fn lemma_members(
    base: Map<u64, (Seq<char>, Option<u64>)>,
    xs: Seq<ExtractedVariable>,
    is_output: bool,
)
    requires
        two_limbs(base),
    ensures
        two_limbs(vars::member_slots(base, xs, is_output)),
    decreases xs.len(),
{
    if xs.len() > 0 {
        lemma_members(base, xs.drop_last(), is_output);
    }
}

proof fn lemma_same_holders(a: Seq<ExtractedVariable>, b: Seq<ExtractedVariable>, v: Variable)
    requires
        extract::is_sorted_form(a, b),
    ensures
        extract::some_holds(a, v) <==> extract::some_holds(b, v),
{
    if extract::some_holds(a, v) {
        let i = choose|i: int| 0 <= i < a.len() && extract::holds(#[trigger] a[i], v);
        assert(a.contains(a[i]));
        let j = choose|j: int| 0 <= j < b.len() && b[j] == a[i];
        assert(extract::holds(b[j], v));
    }
    if extract::some_holds(b, v) {
        let i = choose|i: int| 0 <= i < b.len() && extract::holds(#[trigger] b[i], v);
        assert(b.contains(b[i]));
        let j = choose|j: int| 0 <= j < a.len() && a[j] == b[i];
        assert(extract::holds(a[j], v));
    }
}

/// Every variable of a circuit is an argument or has a member.
pub proof fn every_variable_is_exposed(co: CircuitOutput, legacy: bool, v: Variable)
    requires
        codegen::inputs_of(co, legacy).len() <= usize::MAX,
        v.0 < co.num_of_variables,
    ensures
        vars::arg_slots(codegen::inputs_of(co, legacy)).contains_key(v.0) || codegen::members_of(
            co,
            legacy,
        ).contains_key(v.0),
{
    let cs = co.executor_machine_state->0;
    let queries = co.shuffle_ram_queries@;
    let inputs = codegen::inputs_of(co, legacy);
    let outputs = codegen::outputs_of(co, legacy);
    let rest = codegen::intermediates_of(co, legacy);
    struct_laws::lemma_sorted(co, legacy);
    lemma_same_holders(inputs, extract::input_list(cs, queries, legacy), v);
    lemma_same_holders(outputs, extract::output_list(cs, queries, legacy), v);
    extract::every_variable_has_its_place(cs, queries, legacy, co.num_of_variables as nat, v);
    struct_laws::arguments_carry_their_inputs(inputs, 0, v);
    struct_laws::members_carry_their_variables(Map::empty(), outputs, true, 0, v);
    struct_laws::members_carry_their_variables(
        vars::member_slots(Map::empty(), outputs, true),
        rest,
        false,
        0,
        v,
    );
}

/// Whether a circuit has a variable.
pub open spec fn has(co: CircuitOutput, v: Variable) -> bool {
    v.0 < co.num_of_variables
}

/// Whether a circuit has the variables of a lookup input.
pub open spec fn has_input(co: CircuitOutput, i: LookupInput) -> bool {
    match i {
        LookupInput::Variable(v) => has(co, v),
        LookupInput::Expression { linear_terms, .. } => forall|j: int|
            0 <= j < linear_terms@.len() ==> has(co, (#[trigger] linear_terms@[j]).1),
    }
}

/// Whether a circuit has the variables of a term.
pub open spec fn has_term(co: CircuitOutput, t: Term) -> bool {
    t matches Term::Expression { inner, degree, .. } ==> forall|j: int|
        0 <= j < 4 && j < degree ==> has(co, #[trigger] inner@[j])
}

/// Whether a constraint says something, over variables of the circuit.
pub open spec fn has_constraint(co: CircuitOutput, c: Constraint) -> bool {
    &&& c.terms@.len() > 0
    &&& forall|i: int| 0 <= i < c.terms@.len() ==> has_term(co, #[trigger] c.terms@[i])
}

/// Whether everything that a circuit asks for is asked of variables that it has.
pub open spec fn is_well_formed(co: CircuitOutput) -> bool {
    &&& forall|i: int| 0 <= i < co.boolean_vars@.len() ==> has(co, #[trigger] co.boolean_vars@[i])
    &&& forall|i: int|
        0 <= i < co.range_check_expressions@.len() ==> ((
        #[trigger] co.range_check_expressions@[i]).input matches LookupInput::Variable(v) && has(
            co,
            v,
        ))
    &&& forall|i: int|
        0 <= i < co.lookups@.len() ==> {
            &&& has_input(co, (#[trigger] co.lookups@[i]).row[0])
            &&& has_input(co, co.lookups@[i].row[1])
            &&& has_input(co, co.lookups@[i].row[2])
        }
    &&& forall|i: int|
        0 <= i < co.constraints@.len() ==> has_constraint(co, (#[trigger] co.constraints@[i]).0)
}

/// Whether every variable of a circuit can be read.
spec fn all_read(co: CircuitOutput, sc: Scope) -> bool {
    forall|v: Variable, k: nat|
        has(co, v) ==> (#[trigger] constraints::read(sc, v, k)) is Ok
}

proof fn lemma_all_read(co: CircuitOutput, legacy: bool)
    requires
        codegen::inputs_of(co, legacy).len() <= usize::MAX,
    ensures
        all_read(co, codegen::constrain_scope(co, legacy)),
{
    let sc = codegen::constrain_scope(co, legacy);
    let inputs = codegen::inputs_of(co, legacy);
    assert forall|v: Variable, k: nat| has(co, v) implies (
    #[trigger] constraints::read(sc, v, k)) is Ok by {
        every_variable_is_exposed(co, legacy, v);
        if sc.args_map.contains_key(v.0) {
            lemma_arguments(inputs, v.0);
            assert(sc.args[sc.args_map[v.0].arg + 1] == vars::slot_type(
                inputs[sc.args_map[v.0].arg as int],
            ));
        } else {
            lemma_members(Map::empty(), codegen::outputs_of(co, legacy), true);
            lemma_members(
                vars::member_slots(Map::empty(), codegen::outputs_of(co, legacy), true),
                codegen::intermediates_of(co, legacy),
                false,
            );
        }
    }
}

proof fn lemma_monomial(co: CircuitOutput, sc: Scope, factors: Seq<Variable>, k: nat)
    requires
        all_read(co, sc),
        forall|j: int| 0 <= j < factors.len() ==> has(co, #[trigger] factors[j]),
    ensures
        constraints::monomial(sc, factors, k) is Ok,
    decreases factors.len(),
{
    if factors.len() > 0 {
        lemma_monomial(co, sc, factors.drop_last(), k);
        assert(has(co, factors[factors.len() - 1]));
    }
}

proof fn lemma_terms(co: CircuitOutput, sc: Scope, ts: Seq<Term>, k: nat)
    requires
        all_read(co, sc),
        forall|i: int| 0 <= i < ts.len() ==> has_term(co, #[trigger] ts[i]),
    ensures
        constraints::terms(sc, ts, k) matches Ok(r) && r.syms.len() == ts.len(),
    decreases ts.len(),
{
    if ts.len() > 0 {
        lemma_terms(co, sc, ts.drop_last(), k);
        let head = constraints::terms(sc, ts.drop_last(), k)->Ok_0;
        let t = ts[ts.len() - 1];
        assert(has_term(co, t));
        let factors = t.factors();
        assert forall|j: int| 0 <= j < factors.len() implies has(co, #[trigger] factors[j]) by {
            if let Term::Expression { inner, degree, .. } = t {
                assert(factors[j] == inner@[j]);
            }
        }
        lemma_monomial(co, sc, factors, k + head.effects.len());
    }
}

proof fn lemma_linear(
    co: CircuitOutput,
    sc: Scope,
    constant: u64,
    ts: Seq<(Mersenne31Field, Variable)>,
    k: nat,
)
    requires
        all_read(co, sc),
        forall|j: int| 0 <= j < ts.len() ==> has(co, (#[trigger] ts[j]).1),
    ensures
        constraints::linear(sc, constant, ts, k) is Ok,
    decreases ts.len(),
{
    if ts.len() > 0 {
        lemma_linear(co, sc, constant, ts.drop_last(), k);
        assert(has(co, ts[ts.len() - 1].1));
    }
}

proof fn lemma_input(co: CircuitOutput, sc: Scope, i: LookupInput, k: nat)
    requires
        all_read(co, sc),
        has_input(co, i),
    ensures
        constraints::input(sc, i, k) is Ok,
{
    if let LookupInput::Expression { linear_terms, constant_coeff } = i {
        lemma_linear(co, sc, constant_coeff.reduced(), linear_terms@, k);
    }
}

proof fn lemma_booleans(co: CircuitOutput, sc: Scope, vs: Seq<Variable>, k: nat)
    requires
        all_read(co, sc),
        forall|i: int| 0 <= i < vs.len() ==> has(co, #[trigger] vs[i]),
    ensures
        codegen::booleans(sc, vs, k) is Ok,
    decreases vs.len(),
{
    if vs.len() > 0 {
        lemma_booleans(co, sc, vs.drop_last(), k);
        assert(has(co, vs[vs.len() - 1]));
    }
}

proof fn lemma_ranges(co: CircuitOutput, sc: Scope, qs: Seq<RangeCheckQuery>, k: nat)
    requires
        all_read(co, sc),
        forall|i: int|
            0 <= i < qs.len() ==> ((#[trigger] qs[i]).input matches LookupInput::Variable(v) && has(
                co,
                v,
            )),
    ensures
        codegen::ranges(sc, qs, k) is Ok,
    decreases qs.len(),
{
    if qs.len() > 0 {
        lemma_ranges(co, sc, qs.drop_last(), k);
        assert(qs[qs.len() - 1].input is Variable);
    }
}

proof fn lemma_queries(co: CircuitOutput, sc: Scope, qs: Seq<LookupQuery>, k: nat)
    requires
        all_read(co, sc),
        forall|i: int|
            0 <= i < qs.len() ==> {
                &&& has_input(co, (#[trigger] qs[i]).row[0])
                &&& has_input(co, qs[i].row[1])
                &&& has_input(co, qs[i].row[2])
            },
    ensures
        codegen::queries(sc, qs, k) is Ok,
    decreases qs.len(),
{
    if qs.len() > 0 {
        lemma_queries(co, sc, qs.drop_last(), k);
        let q = qs[qs.len() - 1];
        let at = codegen::after(k, codegen::queries(sc, qs.drop_last(), k));
        assert(has_input(co, q.row[0]));
        lemma_input(co, sc, q.row@[0], at);
        let a = constraints::input(sc, q.row@[0], at)->Ok_0;
        lemma_input(co, sc, q.row@[1], at + a.effects.len());
        let b = constraints::input(sc, q.row@[1], at + a.effects.len())->Ok_0;
        lemma_input(co, sc, q.row@[2], at + a.effects.len() + b.effects.len());
    }
}

proof fn lemma_polynomials(co: CircuitOutput, sc: Scope, cs: Seq<(Constraint, bool)>, k: nat)
    requires
        all_read(co, sc),
        forall|i: int| 0 <= i < cs.len() ==> has_constraint(co, (#[trigger] cs[i]).0),
    ensures
        codegen::polynomials(sc, cs, k) is Ok,
    decreases cs.len(),
{
    if cs.len() > 0 {
        lemma_polynomials(co, sc, cs.drop_last(), k);
        let c = cs[cs.len() - 1].0;
        assert(has_constraint(co, c));
        lemma_terms(
            co,
            sc,
            c.terms@,
            codegen::after(k, codegen::polynomials(sc, cs.drop_last(), k)),
        );
    }
}

/// A circuit that asks for nothing but its own variables can always be constrained.
pub proof fn well_formed_circuits_are_constrained(co: CircuitOutput, legacy: bool)
    requires
        is_well_formed(co),
        codegen::inputs_of(co, legacy).len() <= usize::MAX,
    ensures
        codegen::constrain_effects(co, codegen::constrain_scope(co, legacy)) is Ok,
{
    let sc = codegen::constrain_scope(co, legacy);
    lemma_all_read(co, legacy);
    let a = codegen::booleans(sc, co.boolean_vars@, 0);
    lemma_booleans(co, sc, co.boolean_vars@, 0);
    let b = codegen::sequel(
        a,
        codegen::ranges(sc, co.range_check_expressions@, codegen::after(0, a)),
    );
    lemma_ranges(co, sc, co.range_check_expressions@, codegen::after(0, a));
    let c = codegen::sequel(b, codegen::queries(sc, co.lookups@, codegen::after(0, b)));
    lemma_queries(co, sc, co.lookups@, codegen::after(0, b));
    lemma_polynomials(co, sc, co.constraints@, codegen::after(0, c));
}

/// A struct that only constrains a well-formed circuit is always emitted, with an empty compute
/// function and no need of a witness program.
pub proof fn constraining_structs_are_emitted(name: Seq<char>, co: CircuitOutput)
    requires
        co.executor_machine_state is Some,
        is_well_formed(co),
        codegen::inputs_of(co, extract::legacy_circuit(name)).len() <= usize::MAX,
    ensures
        codegen::emission(name, LlzkStructLayout::ConstrainOnly, co, None) matches Ok(es) && es.len()
            == 0,
{
    well_formed_circuits_are_constrained(co, extract::legacy_circuit(name));
}

/// What a step leaves for the later steps.
pub enum Kind {
    Field,
    Bool,
    /// An integer of so many bits.
    Integer(nat),
    /// So many outputs of a lookup.
    Lookup(nat),
    Unit,
}

/// Whether a slot was left by a step of this kind.
pub open spec fn is_kind(s: SlotSym, kind: Kind) -> bool {
    match kind {
        Kind::Field => s matches SlotSym::Value(ComputedSym::Field(_)),
        Kind::Bool => s matches SlotSym::Value(ComputedSym::Bool(_)),
        Kind::Integer(width) => s matches SlotSym::Value(ComputedSym::Integer(i)) && i.width()
            == width,
        Kind::Lookup(n) => s matches SlotSym::Lookup(vs) && vs.len() == n,
        Kind::Unit => s is Unit,
    }
}

/// Whether slots were left by steps of these kinds.
pub open spec fn are_kinds(slots: Seq<SlotSym>, kinds: Seq<Kind>) -> bool {
    &&& slots.len() == kinds.len()
    &&& forall|i: int| 0 <= i < slots.len() ==> is_kind(#[trigger] slots[i], kinds[i])
}

/// Whether every argument and every member of a scope can be read: an argument that is read by limb is
/// a register.
pub open spec fn is_readable(sc: ComputeScope) -> bool {
    &&& forall|v: u64| #[trigger]
        sc.args_map.contains_key(v) ==> sc.args_map[v].arg < sc.args.len() && (
        sc.args_map[v].limb matches Some(i) ==> i <= 1 && sc.args[sc.args_map[v].arg as int]
            == ValueType::Register)
    &&& forall|v: u64| #[trigger]
        sc.members.contains_key(v) ==> (sc.members[v].1 matches Some(i) ==> i <= 1)
    &&& forall|v: u64| #[trigger]
        sc.mapping.contains_key(v) ==> (sc.mapping[v] matches ColumnAddress::MemorySubtree(offset)
            ==> offset <= i64::MAX)
}

/// Whether a variable has a place: it is an argument, has a member, or is kept in a memory column.
pub open spec fn has_place(sc: ComputeScope, v: Variable) -> bool {
    ||| sc.args_map.contains_key(v.0)
    ||| sc.members.contains_key(v.0)
    ||| sc.mapping.contains_key(v.0) && sc.mapping[v.0] is MemorySubtree
}

/// Whether a limb of a placeholder is an argument.
pub open spec fn limb_is_argument(sc: ComputeScope, placeholder: Placeholder, limb: usize) -> bool {
    lowering::substituted(sc.substitutions, placeholder, limb) matches Some(v)
        && sc.args_map.contains_key(v.0)
}

/// Whether both limbs of a placeholder come from one side: both are substituted or the first is not,
/// and both are arguments or neither is.
pub open spec fn limbs_agree(sc: ComputeScope, placeholder: Placeholder) -> bool {
    lowering::substituted(sc.substitutions, placeholder, 0) is Some ==> {
        &&& lowering::substituted(sc.substitutions, placeholder, 1) is Some
        &&& limb_is_argument(sc, placeholder, 0) <==> limb_is_argument(sc, placeholder, 1)
    }
}

/// Whether a field expression is one that programs are made of, over variables with a place and
/// earlier steps that leave what is read of them.
pub open spec fn is_field(sc: ComputeScope, ks: Seq<Kind>, e: FieldNodeExpression) -> bool
    decreases e,
{
    match e {
        FieldNodeExpression::Place(v) => has_place(sc, v),
        FieldNodeExpression::SubExpression(idx) => idx < ks.len() && (ks[idx as int] is Field
            || ks[idx as int] is Bool || ks[idx as int] is Integer),
        FieldNodeExpression::Constant(_) => true,
        FieldNodeExpression::OracleValue { .. } => true,
        FieldNodeExpression::FromInteger(x) => integer_bits(sc, ks, *x) is Some,
        FieldNodeExpression::FromMask(x) => is_bool(sc, ks, *x),
        FieldNodeExpression::Add { lhs, rhs }
        | FieldNodeExpression::Sub { lhs, rhs }
        | FieldNodeExpression::Mul { lhs, rhs } => is_field(sc, ks, *lhs) && is_field(
            sc,
            ks,
            *rhs,
        ),
        FieldNodeExpression::AddProduct { additive_term, mul_0, mul_1 } => is_field(
            sc,
            ks,
            *additive_term,
        ) && is_field(sc, ks, *mul_0) && is_field(sc, ks, *mul_1),
        FieldNodeExpression::Select { selector, if_true, if_false } => is_bool(sc, ks, *selector)
            && is_field(sc, ks, *if_true) && is_field(sc, ks, *if_false),
        FieldNodeExpression::InverseUnchecked(x) => is_field(sc, ks, *x),
        FieldNodeExpression::InverseOrZero(_) => true,
        FieldNodeExpression::LookupOutput { .. }
        | FieldNodeExpression::MaybeLookupOutput { .. } => false,
    }
}

/// Whether a boolean expression is one that programs are made of.
pub open spec fn is_bool(sc: ComputeScope, ks: Seq<Kind>, e: BoolNodeExpression) -> bool
    decreases e,
{
    match e {
        BoolNodeExpression::Place(v) => has_place(sc, v),
        BoolNodeExpression::SubExpression(idx) => idx < ks.len() && ks[idx as int] is Bool,
        BoolNodeExpression::Constant(_) => true,
        BoolNodeExpression::OracleValue { .. } => true,
        BoolNodeExpression::FromGenericInteger(x) => integer_bits(sc, ks, *x) is Some,
        BoolNodeExpression::FromGenericIntegerEquality { lhs, rhs }
        | BoolNodeExpression::FromGenericIntegerCarry { lhs, rhs }
        | BoolNodeExpression::FromGenericIntegerBorrow { lhs, rhs } => integer_bits(sc, ks, *lhs)
            is Some && integer_bits(sc, ks, *lhs) == integer_bits(sc, ks, *rhs),
        BoolNodeExpression::FromField(x) => is_field(sc, ks, *x),
        BoolNodeExpression::FromFieldEquality { lhs, rhs } => is_field(sc, ks, *lhs) && is_field(
            sc,
            ks,
            *rhs,
        ),
        BoolNodeExpression::And { lhs, rhs }
        | BoolNodeExpression::Or { lhs, rhs } => is_bool(sc, ks, *lhs) && is_bool(sc, ks, *rhs),
        BoolNodeExpression::Select { selector, if_true, if_false } => is_bool(sc, ks, *selector)
            && is_bool(sc, ks, *if_true) && is_bool(sc, ks, *if_false),
        BoolNodeExpression::Negate(x) => is_bool(sc, ks, *x),
    }
}

/// How many bits an integer expression has, where it is one that programs are made of: multiplications
/// and divisions are not.
pub open spec fn integer_bits(
    sc: ComputeScope,
    ks: Seq<Kind>,
    e: FixedWidthIntegerNodeExpression,
) -> Option<nat>
    decreases e,
{
    match e {
        FixedWidthIntegerNodeExpression::U8Place(v) => if has_place(sc, v) {
            Some(8)
        } else {
            None
        },
        FixedWidthIntegerNodeExpression::U16Place(v) => if has_place(sc, v) {
            Some(16)
        } else {
            None
        },
        FixedWidthIntegerNodeExpression::U8SubExpression(idx)
        | FixedWidthIntegerNodeExpression::U16SubExpression(idx)
        | FixedWidthIntegerNodeExpression::U32SubExpression(idx) => if idx < ks.len() {
            match ks[idx as int] {
                Kind::Integer(width) => Some(width),
                _ => None,
            }
        } else {
            None
        },
        FixedWidthIntegerNodeExpression::U32OracleValue { placeholder } => if limbs_agree(
            sc,
            placeholder,
        ) {
            Some(32)
        } else {
            None
        },
        FixedWidthIntegerNodeExpression::U16OracleValue { .. } => Some(16),
        FixedWidthIntegerNodeExpression::U8OracleValue { .. } => Some(8),
        FixedWidthIntegerNodeExpression::ConstantU8(_) => Some(8),
        FixedWidthIntegerNodeExpression::ConstantU16(_) => Some(16),
        FixedWidthIntegerNodeExpression::ConstantU32(_) => Some(32),
        FixedWidthIntegerNodeExpression::U32FromMask(x) => if is_bool(sc, ks, *x) {
            Some(32)
        } else {
            None
        },
        FixedWidthIntegerNodeExpression::U32FromField(x) => if is_field(sc, ks, *x) {
            Some(32)
        } else {
            None
        },
        FixedWidthIntegerNodeExpression::WidenFromU8(x) => if integer_bits(sc, ks, *x) == Some(
            8nat,
        ) {
            Some(16)
        } else {
            None
        },
        FixedWidthIntegerNodeExpression::WidenFromU16(x) => if integer_bits(sc, ks, *x) == Some(
            16nat,
        ) {
            Some(32)
        } else {
            None
        },
        FixedWidthIntegerNodeExpression::TruncateFromU16(x) => if integer_bits(sc, ks, *x) == Some(
            16nat,
        ) {
            Some(8)
        } else {
            None
        },
        FixedWidthIntegerNodeExpression::TruncateFromU32(x) => if integer_bits(sc, ks, *x) == Some(
            32nat,
        ) {
            Some(16)
        } else {
            None
        },
        FixedWidthIntegerNodeExpression::I32FromU32(x)
        | FixedWidthIntegerNodeExpression::U32FromI32(x)
        | FixedWidthIntegerNodeExpression::BinaryNot(x) => integer_bits(sc, ks, *x),
        FixedWidthIntegerNodeExpression::Select { selector, if_true, if_false } => if is_bool(
            sc,
            ks,
            *selector,
        ) && integer_bits(sc, ks, *if_true) == integer_bits(sc, ks, *if_false) {
            integer_bits(sc, ks, *if_true)
        } else {
            None
        },
        FixedWidthIntegerNodeExpression::WrappingAdd { lhs, rhs }
        | FixedWidthIntegerNodeExpression::WrappingSub { lhs, rhs }
        | FixedWidthIntegerNodeExpression::BinaryAnd { lhs, rhs }
        | FixedWidthIntegerNodeExpression::BinaryOr { lhs, rhs }
        | FixedWidthIntegerNodeExpression::BinaryXor { lhs, rhs } => if integer_bits(sc, ks, *lhs)
            == integer_bits(sc, ks, *rhs) {
            integer_bits(sc, ks, *lhs)
        } else {
            None
        },
        FixedWidthIntegerNodeExpression::WrappingShl { lhs, .. }
        | FixedWidthIntegerNodeExpression::WrappingShr { lhs, .. } => integer_bits(sc, ks, *lhs),
        FixedWidthIntegerNodeExpression::LowestBits { value, .. } => integer_bits(sc, ks, *value),
        _ => None,
    }
}

proof fn lemma_kind(sc: ComputeScope, ks: Seq<Kind>, idx: usize)
    requires
        are_kinds(sc.slots, ks),
    ensures
        idx < ks.len() ==> idx < sc.slots.len() && is_kind(sc.slots[idx as int], ks[idx as int]),
{
}

/// Every field expression that programs are made of can be lowered.
pub proof fn field_expressions_are_lowered(
    sc: ComputeScope,
    ks: Seq<Kind>,
    e: FieldNodeExpression,
    k: nat,
)
    requires
        is_readable(sc),
        are_kinds(sc.slots, ks),
        is_field(sc, ks, e),
    ensures
        lowering::field_lowering(sc, e, k) is Ok,
    decreases e,
{
    match e {
        FieldNodeExpression::SubExpression(idx) => {
            lemma_kind(sc, ks, idx);
        },
        FieldNodeExpression::FromInteger(x) => {
            integer_expressions_are_lowered(sc, ks, *x, k);
        },
        FieldNodeExpression::FromMask(x) => {
            bool_expressions_are_lowered(sc, ks, *x, k);
        },
        FieldNodeExpression::Add { lhs, rhs }
        | FieldNodeExpression::Sub { lhs, rhs }
        | FieldNodeExpression::Mul { lhs, rhs } => {
            field_expressions_are_lowered(sc, ks, *lhs, k);
            let a = lowering::field_lowering(sc, *lhs, k);
            field_expressions_are_lowered(sc, ks, *rhs, lowering::after(k, a));
        },
        FieldNodeExpression::AddProduct { additive_term, mul_0, mul_1 } => {
            let x = lowering::field_lowering(sc, *mul_0, k);
            let y = lowering::field_lowering(sc, *mul_1, lowering::after(k, x));
            let product = lowering::combined(FeltBinary::Mul, lowering::both(x, y));
            field_expressions_are_lowered(sc, ks, *mul_0, k);
            field_expressions_are_lowered(sc, ks, *mul_1, lowering::after(k, x));
            field_expressions_are_lowered(sc, ks, *additive_term, lowering::after(k, product));
        },
        FieldNodeExpression::Select { selector, if_true, if_false } => {
            bool_expressions_are_lowered(sc, ks, *selector, k);
            let c = lowering::bool_lowering(sc, *selector, k);
            field_expressions_are_lowered(sc, ks, *if_true, lowering::after(k, c));
            let a = lowering::field_lowering(sc, *if_true, lowering::after(k, c));
            field_expressions_are_lowered(
                sc,
                ks,
                *if_false,
                lowering::after(lowering::after(k, c), a),
            );
        },
        FieldNodeExpression::InverseUnchecked(x) => {
            field_expressions_are_lowered(sc, ks, *x, k);
        },
        _ => {},
    }
}

/// Every boolean expression that programs are made of can be lowered.
pub proof fn bool_expressions_are_lowered(
    sc: ComputeScope,
    ks: Seq<Kind>,
    e: BoolNodeExpression,
    k: nat,
)
    requires
        is_readable(sc),
        are_kinds(sc.slots, ks),
        is_bool(sc, ks, e),
    ensures
        lowering::bool_lowering(sc, e, k) is Ok,
    decreases e,
{
    match e {
        BoolNodeExpression::SubExpression(idx) => {
            lemma_kind(sc, ks, idx);
        },
        BoolNodeExpression::FromGenericInteger(x) => {
            integer_expressions_are_lowered(sc, ks, *x, k);
        },
        BoolNodeExpression::FromGenericIntegerEquality { lhs, rhs }
        | BoolNodeExpression::FromGenericIntegerCarry { lhs, rhs }
        | BoolNodeExpression::FromGenericIntegerBorrow { lhs, rhs } => {
            integer_expressions_are_lowered(sc, ks, *lhs, k);
            let a = lowering::integer_lowering(sc, *lhs, k);
            integer_expressions_are_lowered(sc, ks, *rhs, lowering::after_int(k, a));
        },
        BoolNodeExpression::FromField(x) => {
            field_expressions_are_lowered(sc, ks, *x, k);
        },
        BoolNodeExpression::FromFieldEquality { lhs, rhs } => {
            field_expressions_are_lowered(sc, ks, *lhs, k);
            let a = lowering::field_lowering(sc, *lhs, k);
            field_expressions_are_lowered(sc, ks, *rhs, lowering::after(k, a));
        },
        BoolNodeExpression::And { lhs, rhs }
        | BoolNodeExpression::Or { lhs, rhs } => {
            bool_expressions_are_lowered(sc, ks, *lhs, k);
            let a = lowering::bool_lowering(sc, *lhs, k);
            bool_expressions_are_lowered(sc, ks, *rhs, lowering::after(k, a));
        },
        BoolNodeExpression::Select { selector, if_true, if_false } => {
            bool_expressions_are_lowered(sc, ks, *selector, k);
            let c = lowering::bool_lowering(sc, *selector, k);
            bool_expressions_are_lowered(sc, ks, *if_true, lowering::after(k, c));
            let a = lowering::bool_lowering(sc, *if_true, lowering::after(k, c));
            bool_expressions_are_lowered(
                sc,
                ks,
                *if_false,
                lowering::after(lowering::after(k, c), a),
            );
        },
        BoolNodeExpression::Negate(x) => {
            bool_expressions_are_lowered(sc, ks, *x, k);
        },
        _ => {},
    }
}

/// Every integer expression that programs are made of can be lowered, to an integer of its width.
#[verifier::rlimit(60)]
pub proof fn integer_expressions_are_lowered(
    sc: ComputeScope,
    ks: Seq<Kind>,
    e: FixedWidthIntegerNodeExpression,
    k: nat,
)
    requires
        is_readable(sc),
        are_kinds(sc.slots, ks),
        integer_bits(sc, ks, e) is Some,
    ensures
        lowering::integer_lowering(sc, e, k) matches Ok(r) && Some(r.int.width()) == integer_bits(
            sc,
            ks,
            e,
        ),
    decreases e,
{
    match e {
        FixedWidthIntegerNodeExpression::U8SubExpression(idx)
        | FixedWidthIntegerNodeExpression::U16SubExpression(idx)
        | FixedWidthIntegerNodeExpression::U32SubExpression(idx) => {
            lemma_kind(sc, ks, idx);
        },
        FixedWidthIntegerNodeExpression::U32FromMask(x) => {
            bool_expressions_are_lowered(sc, ks, *x, k);
        },
        FixedWidthIntegerNodeExpression::U32FromField(x) => {
            field_expressions_are_lowered(sc, ks, *x, k);
        },
        FixedWidthIntegerNodeExpression::WidenFromU8(x)
        | FixedWidthIntegerNodeExpression::WidenFromU16(x)
        | FixedWidthIntegerNodeExpression::TruncateFromU16(x)
        | FixedWidthIntegerNodeExpression::TruncateFromU32(x)
        | FixedWidthIntegerNodeExpression::I32FromU32(x)
        | FixedWidthIntegerNodeExpression::U32FromI32(x)
        | FixedWidthIntegerNodeExpression::BinaryNot(x) => {
            integer_expressions_are_lowered(sc, ks, *x, k);
        },
        FixedWidthIntegerNodeExpression::Select { selector, if_true, if_false } => {
            bool_expressions_are_lowered(sc, ks, *selector, k);
            let c = lowering::bool_lowering(sc, *selector, k);
            integer_expressions_are_lowered(sc, ks, *if_true, lowering::after(k, c));
            let a = lowering::integer_lowering(sc, *if_true, lowering::after(k, c));
            integer_expressions_are_lowered(
                sc,
                ks,
                *if_false,
                lowering::after_int(lowering::after(k, c), a),
            );
        },
        FixedWidthIntegerNodeExpression::WrappingAdd { lhs, rhs }
        | FixedWidthIntegerNodeExpression::WrappingSub { lhs, rhs }
        | FixedWidthIntegerNodeExpression::BinaryAnd { lhs, rhs }
        | FixedWidthIntegerNodeExpression::BinaryOr { lhs, rhs }
        | FixedWidthIntegerNodeExpression::BinaryXor { lhs, rhs } => {
            integer_expressions_are_lowered(sc, ks, *lhs, k);
            let a = lowering::integer_lowering(sc, *lhs, k);
            integer_expressions_are_lowered(sc, ks, *rhs, lowering::after_int(k, a));
        },
        FixedWidthIntegerNodeExpression::WrappingShl { lhs, .. }
        | FixedWidthIntegerNodeExpression::WrappingShr { lhs, .. } => {
            integer_expressions_are_lowered(sc, ks, *lhs, k);
        },
        FixedWidthIntegerNodeExpression::LowestBits { value, .. } => {
            integer_expressions_are_lowered(sc, ks, *value, k);
        },
        _ => {},
    }
}

/// Whether a step leaves a value that can be used as a field element.
pub open spec fn leaves_a_value(ks: Seq<Kind>, idx: usize) -> bool {
    idx < ks.len() && (ks[idx as int] is Field || ks[idx as int] is Bool || ks[idx as int]
        is Integer)
}

/// Whether a lookup is one that programs are made of: its inputs are values, the program and the
/// synthesis name one table, and a table that is known takes as many inputs.
pub open spec fn is_lookup(
    sc: ComputeScope,
    ks: Seq<Kind>,
    inputs: Seq<usize>,
    table_slot: usize,
    compiled: Option<usize>,
) -> bool {
    &&& forall|i: int| 0 <= i < inputs.len() ==> leaves_a_value(ks, #[trigger] inputs[i])
    &&& leaves_a_value(ks, table_slot)
    &&& table_slot < sc.block.len()
    &&& compiled matches Some(idx) ==> idx < sc.lookup_tables.len()
    &&& {
        let number = step_laws::constant_number(sc.block[table_slot as int]);
        let known = match (step_laws::compiled_table(sc, compiled), number) {
            (Some(table), _) => Some(table),
            (None, Some(c)) => Some(sc.ids.table_of(c as u32)),
            (None, None) => None,
        };
        &&& (step_laws::compiled_table(sc, compiled) is Some && number is Some)
            ==> sc.ids.table_of(number->0 as u32) == step_laws::compiled_table(sc, compiled)->0
        &&& known matches Some(table) ==> (table is Other || inputs.len() == (
        if table is ConditionalJmpBranchSlt {
            2nat
        } else {
            1
        }))
    }
}

/// What a step leaves, where it is one that programs are made of.
pub open spec fn step_kind(sc: ComputeScope, ks: Seq<Kind>, e: RawExpression) -> Option<Kind> {
    match e {
        RawExpression::Bool(x) => if is_bool(sc, ks, x) {
            Some(Kind::Bool)
        } else {
            None
        },
        RawExpression::Field(x) => if is_field(sc, ks, x) {
            Some(Kind::Field)
        } else {
            None
        },
        RawExpression::Integer(x) => match integer_bits(sc, ks, x) {
            Some(width) => Some(Kind::Integer(width)),
            None => None,
        },
        RawExpression::AccessLookup { subindex, output_index } => if subindex < ks.len() && (
        ks[subindex as int] matches Kind::Lookup(n) && output_index < n) {
            Some(Kind::Field)
        } else {
            None
        },
        RawExpression::PerformLookup {
            input_subexpr_idxes,
            table_id_subexpr_idx,
            num_outputs,
            lookup_mapping_idx,
        } => if is_lookup(
            sc,
            ks,
            input_subexpr_idxes@,
            table_id_subexpr_idx,
            Some(lookup_mapping_idx),
        ) {
            Some(Kind::Lookup(num_outputs as nat))
        } else {
            None
        },
        RawExpression::MaybePerformLookup {
            input_subexpr_idxes,
            table_id_subexpr_idx,
            mask_id_subexpr_idx,
            num_outputs,
        } => if is_lookup(sc, ks, input_subexpr_idxes@, table_id_subexpr_idx, None)
            && mask_id_subexpr_idx < ks.len() && ks[mask_id_subexpr_idx as int] is Bool {
            Some(Kind::Lookup(num_outputs as nat))
        } else {
            None
        },
        RawExpression::WriteVariable { into_variable, source_subexpr, condition_subexpr_idx } => {
            if (match source_subexpr {
                Expression::Bool(x) => is_bool(sc, ks, x),
                Expression::Field(x) => is_field(sc, ks, x),
                Expression::U8(x) | Expression::U16(x) | Expression::U32(x) => integer_bits(
                    sc,
                    ks,
                    x,
                ) is Some,
            }) && (condition_subexpr_idx matches Some(idx) ==> idx < ks.len() && ks[idx as int]
                is Bool) && (sc.members.contains_key(into_variable.0) || (sc.mapping.contains_key(
                into_variable.0,
            ) && sc.mapping[into_variable.0] is MemorySubtree)) {
                Some(Kind::Unit)
            } else {
                None
            }
        },
    }
}

proof fn lemma_values(sc: ComputeScope, ks: Seq<Kind>, idxs: Seq<usize>)
    requires
        are_kinds(sc.slots, ks),
        forall|i: int| 0 <= i < idxs.len() ==> leaves_a_value(ks, #[trigger] idxs[i]),
    ensures
        witness::slot_fields(sc, idxs) matches Ok(syms) && syms.len() == idxs.len(),
    decreases idxs.len(),
{
    if idxs.len() > 0 {
        lemma_values(sc, ks, idxs.drop_last());
        let last = idxs[idxs.len() - 1];
        assert(leaves_a_value(ks, last));
        lemma_kind(sc, ks, last);
    }
}

proof fn lemma_dispatched(
    tables: Seq<TableType>,
    ids: TableIds,
    table_id: Sym,
    inputs: Seq<Sym>,
    n: nat,
    k: nat,
)
    ensures
        table_lookups::dispatched(tables, ids, table_id, inputs, n, k).len() == n,
    decreases tables.len(),
{
    if tables.len() > 0 {
        lemma_dispatched(tables.drop_last(), ids, table_id, inputs, n, k);
    }
}

proof fn lemma_lookup(
    sc: ComputeScope,
    ks: Seq<Kind>,
    inputs: Seq<usize>,
    table_slot: usize,
    compiled: Option<usize>,
    mask: Option<usize>,
    n: nat,
    k: nat,
)
    requires
        are_kinds(sc.slots, ks),
        is_lookup(sc, ks, inputs, table_slot, compiled),
        mask matches Some(idx) ==> idx < ks.len() && ks[idx as int] is Bool,
    ensures
        witness::lookup_lowering(sc, inputs, table_slot, compiled, mask, n, k) matches Ok(r)
            && r.syms.len() == n,
{
    lemma_values(sc, ks, inputs);
    lemma_kind(sc, ks, table_slot);
    if let Some(idx) = mask {
        lemma_kind(sc, ks, idx);
    }
    step_laws::lookups_go_to_their_table(sc, table_slot, compiled);
    let ins = witness::slot_fields(sc, inputs)->Ok_0;
    match witness::resolved_table(sc, table_slot, compiled) {
        Ok(Some(table)) => {
            assert(table_lookups::table_outputs(table, ins, n, k) matches Ok(r) && r.syms.len()
                == n);
        },
        Ok(None) => {
            let id = lowering::slot_field(sc, table_slot)->Ok_0;
            lemma_dispatched(
                table_lookups::dynamic_tables(ins.len()),
                sc.ids,
                id,
                ins,
                n,
                k,
            );
        },
        _ => {},
    }
}

/// Every step that programs are made of can be lowered, and leaves a slot of its kind.
pub proof fn steps_are_lowered(sc: ComputeScope, ks: Seq<Kind>, e: RawExpression, k: nat)
    requires
        is_readable(sc),
        are_kinds(sc.slots, ks),
        step_kind(sc, ks, e) is Some,
    ensures
        witness::step_lowering(sc, e, k) matches Ok(step) && is_kind(
            step.slot,
            step_kind(sc, ks, e)->0,
        ),
{
    match e {
        RawExpression::Bool(x) => bool_expressions_are_lowered(sc, ks, x, k),
        RawExpression::Field(x) => field_expressions_are_lowered(sc, ks, x, k),
        RawExpression::Integer(x) => integer_expressions_are_lowered(sc, ks, x, k),
        RawExpression::AccessLookup { subindex, .. } => {
            lemma_kind(sc, ks, subindex);
        },
        RawExpression::PerformLookup {
            input_subexpr_idxes,
            table_id_subexpr_idx,
            num_outputs,
            lookup_mapping_idx,
        } => {
            lemma_lookup(
                sc,
                ks,
                input_subexpr_idxes@,
                table_id_subexpr_idx,
                Some(lookup_mapping_idx),
                None,
                num_outputs as nat,
                k,
            );
        },
        RawExpression::MaybePerformLookup {
            input_subexpr_idxes,
            table_id_subexpr_idx,
            mask_id_subexpr_idx,
            num_outputs,
        } => {
            lemma_lookup(
                sc,
                ks,
                input_subexpr_idxes@,
                table_id_subexpr_idx,
                None,
                Some(mask_id_subexpr_idx),
                num_outputs as nat,
                k,
            );
        },
        RawExpression::WriteVariable { into_variable, source_subexpr, condition_subexpr_idx } => {
            match source_subexpr {
                Expression::Bool(x) => bool_expressions_are_lowered(sc, ks, x, k),
                Expression::Field(x) => field_expressions_are_lowered(sc, ks, x, k),
                Expression::U8(x)
                | Expression::U16(x)
                | Expression::U32(x) => integer_expressions_are_lowered(sc, ks, x, k),
            }
            assert(witness::store_lowering(sc, source_subexpr, k) is Ok);
            if let Some(idx) = condition_subexpr_idx {
                lemma_kind(sc, ks, idx);
            }
            assert(witness::write_lowering(
                sc,
                into_variable,
                source_subexpr,
                condition_subexpr_idx,
                k,
            ) is Ok);
        },
    }
}

/// What the first steps of a block leave, where all of them are steps that programs are made of.
pub open spec fn block_kinds(sc: ComputeScope, n: nat) -> Option<Seq<Kind>>
    decreases n,
{
    if n == 0 {
        Some(Seq::empty())
    } else {
        match block_kinds(sc, (n - 1) as nat) {
            None => None,
            Some(ks) => match step_kind(sc, ks, sc.block[n - 1]) {
                None => None,
                Some(kind) => Some(ks.push(kind)),
            },
        }
    }
}

proof fn lemma_field_scope(sc: ComputeScope, other: ComputeScope, ks: Seq<Kind>, e: FieldNodeExpression)
    requires
        program_laws::same_places(sc, other),
    ensures
        is_field(sc, ks, e) == is_field(other, ks, e),
    decreases e,
{
    match e {
        FieldNodeExpression::FromInteger(x) => lemma_integer_scope(sc, other, ks, *x),
        FieldNodeExpression::FromMask(x) => lemma_bool_scope(sc, other, ks, *x),
        FieldNodeExpression::Add { lhs, rhs }
        | FieldNodeExpression::Sub { lhs, rhs }
        | FieldNodeExpression::Mul { lhs, rhs } => {
            lemma_field_scope(sc, other, ks, *lhs);
            lemma_field_scope(sc, other, ks, *rhs);
        },
        FieldNodeExpression::AddProduct { additive_term, mul_0, mul_1 } => {
            lemma_field_scope(sc, other, ks, *additive_term);
            lemma_field_scope(sc, other, ks, *mul_0);
            lemma_field_scope(sc, other, ks, *mul_1);
        },
        FieldNodeExpression::Select { selector, if_true, if_false } => {
            lemma_bool_scope(sc, other, ks, *selector);
            lemma_field_scope(sc, other, ks, *if_true);
            lemma_field_scope(sc, other, ks, *if_false);
        },
        FieldNodeExpression::InverseUnchecked(x) => lemma_field_scope(sc, other, ks, *x),
        _ => {},
    }
}

proof fn lemma_bool_scope(sc: ComputeScope, other: ComputeScope, ks: Seq<Kind>, e: BoolNodeExpression)
    requires
        program_laws::same_places(sc, other),
    ensures
        is_bool(sc, ks, e) == is_bool(other, ks, e),
    decreases e,
{
    match e {
        BoolNodeExpression::FromGenericInteger(x) => lemma_integer_scope(sc, other, ks, *x),
        BoolNodeExpression::FromGenericIntegerEquality { lhs, rhs }
        | BoolNodeExpression::FromGenericIntegerCarry { lhs, rhs }
        | BoolNodeExpression::FromGenericIntegerBorrow { lhs, rhs } => {
            lemma_integer_scope(sc, other, ks, *lhs);
            lemma_integer_scope(sc, other, ks, *rhs);
        },
        BoolNodeExpression::FromField(x) => lemma_field_scope(sc, other, ks, *x),
        BoolNodeExpression::FromFieldEquality { lhs, rhs } => {
            lemma_field_scope(sc, other, ks, *lhs);
            lemma_field_scope(sc, other, ks, *rhs);
        },
        BoolNodeExpression::And { lhs, rhs }
        | BoolNodeExpression::Or { lhs, rhs } => {
            lemma_bool_scope(sc, other, ks, *lhs);
            lemma_bool_scope(sc, other, ks, *rhs);
        },
        BoolNodeExpression::Select { selector, if_true, if_false } => {
            lemma_bool_scope(sc, other, ks, *selector);
            lemma_bool_scope(sc, other, ks, *if_true);
            lemma_bool_scope(sc, other, ks, *if_false);
        },
        BoolNodeExpression::Negate(x) => lemma_bool_scope(sc, other, ks, *x),
        _ => {},
    }
}

proof fn lemma_integer_scope(
    sc: ComputeScope,
    other: ComputeScope,
    ks: Seq<Kind>,
    e: FixedWidthIntegerNodeExpression,
)
    requires
        program_laws::same_places(sc, other),
    ensures
        integer_bits(sc, ks, e) == integer_bits(other, ks, e),
    decreases e,
{
    match e {
        FixedWidthIntegerNodeExpression::U32FromMask(x) => lemma_bool_scope(sc, other, ks, *x),
        FixedWidthIntegerNodeExpression::U32FromField(x) => lemma_field_scope(sc, other, ks, *x),
        FixedWidthIntegerNodeExpression::WidenFromU8(x)
        | FixedWidthIntegerNodeExpression::WidenFromU16(x)
        | FixedWidthIntegerNodeExpression::TruncateFromU16(x)
        | FixedWidthIntegerNodeExpression::TruncateFromU32(x)
        | FixedWidthIntegerNodeExpression::I32FromU32(x)
        | FixedWidthIntegerNodeExpression::U32FromI32(x)
        | FixedWidthIntegerNodeExpression::BinaryNot(x) => {
            lemma_integer_scope(sc, other, ks, *x);
        },
        FixedWidthIntegerNodeExpression::Select { selector, if_true, if_false } => {
            lemma_bool_scope(sc, other, ks, *selector);
            lemma_integer_scope(sc, other, ks, *if_true);
            lemma_integer_scope(sc, other, ks, *if_false);
        },
        FixedWidthIntegerNodeExpression::WrappingAdd { lhs, rhs }
        | FixedWidthIntegerNodeExpression::WrappingSub { lhs, rhs }
        | FixedWidthIntegerNodeExpression::BinaryAnd { lhs, rhs }
        | FixedWidthIntegerNodeExpression::BinaryOr { lhs, rhs }
        | FixedWidthIntegerNodeExpression::BinaryXor { lhs, rhs } => {
            lemma_integer_scope(sc, other, ks, *lhs);
            lemma_integer_scope(sc, other, ks, *rhs);
        },
        FixedWidthIntegerNodeExpression::WrappingShl { lhs, .. }
        | FixedWidthIntegerNodeExpression::WrappingShr { lhs, .. } => {
            lemma_integer_scope(sc, other, ks, *lhs);
        },
        FixedWidthIntegerNodeExpression::LowestBits { value, .. } => {
            lemma_integer_scope(sc, other, ks, *value);
        },
        _ => {},
    }
}

proof fn lemma_step_scope(sc: ComputeScope, other: ComputeScope, ks: Seq<Kind>, e: RawExpression)
    requires
        program_laws::same_places(sc, other),
    ensures
        step_kind(sc, ks, e) == step_kind(other, ks, e),
{
    match e {
        RawExpression::Bool(x) => lemma_bool_scope(sc, other, ks, x),
        RawExpression::Field(x) => lemma_field_scope(sc, other, ks, x),
        RawExpression::Integer(x) => lemma_integer_scope(sc, other, ks, x),
        RawExpression::WriteVariable { source_subexpr, .. } => match source_subexpr {
            Expression::Bool(x) => lemma_bool_scope(sc, other, ks, x),
            Expression::Field(x) => lemma_field_scope(sc, other, ks, x),
            Expression::U8(x) | Expression::U16(x) | Expression::U32(x) => {
                lemma_integer_scope(sc, other, ks, x);
            },
        },
        _ => {},
    }
}

/// Every block of steps that programs are made of can be lowered.
pub proof fn blocks_are_lowered(sc: ComputeScope, n: nat, k: nat)
    requires
        is_readable(sc),
        n <= sc.block.len(),
        block_kinds(sc, n) is Some,
    ensures
        witness::block_lowering(sc, n, k) matches Ok(st) && are_kinds(
            st.slots,
            block_kinds(sc, n)->0,
        ),
    decreases n,
{
    if n > 0 {
        let last = (n - 1) as nat;
        blocks_are_lowered(sc, last, k);
        let st = witness::block_lowering(sc, last, k)->Ok_0;
        let ks = block_kinds(sc, last)->0;
        let at = witness::at_state(sc, st);
        lemma_step_scope(at, sc, ks, sc.block[last as int]);
        steps_are_lowered(at, ks, sc.block[last as int], k + st.effects.len());
    }
}

/// Every program of such blocks can be lowered.
pub proof fn programs_are_lowered(
    sc: ComputeScope,
    blocks: Seq<Vec<RawExpression>>,
    n: nat,
    k: nat,
)
    requires
        is_readable(sc),
        n <= blocks.len(),
        forall|b: int|
            0 <= b < n ==> block_kinds(
                (ComputeScope { block: (#[trigger] blocks[b])@, ..sc }),
                blocks[b]@.len(),
            ) is Some,
    ensures
        witness::program_lowering(sc, blocks, n, k) is Ok,
    decreases n,
{
    if n > 0 {
        let last = (n - 1) as nat;
        programs_are_lowered(sc, blocks, last, k);
        let es = witness::program_lowering(sc, blocks, last, k)->Ok_0;
        let b = blocks[last as int]@;
        let inner = ComputeScope { block: b, ..sc };
        assert(is_readable(inner));
        blocks_are_lowered(inner, b.len(), k + es.len());
    }
}

/// A circuit with its witness program is always emitted where it asks for nothing but its own
/// variables and its program is made of steps that can be lowered.
pub proof fn circuits_are_emitted(
    name: Seq<char>,
    layout: LlzkStructLayout,
    co: CircuitOutput,
    w: WitnessComputation,
)
    requires
        co.executor_machine_state is Some,
        is_well_formed(co),
        codegen::inputs_of(co, extract::legacy_circuit(name)).len() <= usize::MAX,
        forall|v: u64| #[trigger]
            w.mapping().contains_key(v) ==> (w.mapping()[v] matches ColumnAddress::MemorySubtree(
                offset,
            ) ==> offset <= i64::MAX),
        forall|b: int|
            0 <= b < w.blocks().len() ==> block_kinds(
                (ComputeScope {
                    block: (#[trigger] w.blocks()[b])@,
                    ..codegen::compute_scope(w, co, extract::legacy_circuit(name))
                }),
                w.blocks()[b]@.len(),
            ) is Some,
    ensures
        codegen::emission(name, layout, co, Some(w)) is Ok,
{
    let legacy = extract::legacy_circuit(name);
    let sc = codegen::compute_scope(w, co, legacy);
    let inputs = codegen::inputs_of(co, legacy);
    well_formed_circuits_are_constrained(co, legacy);
    assert forall|v: u64| #[trigger] sc.args_map.contains_key(v) implies sc.args_map[v].arg
        < sc.args.len() && (sc.args_map[v].limb matches Some(i) ==> i <= 1
        && sc.args[sc.args_map[v].arg as int] == ValueType::Register) by {
        lemma_arguments(inputs, v);
        assert(sc.args[sc.args_map[v].arg as int] == vars::slot_type(
            inputs[sc.args_map[v].arg as int],
        ));
    }
    lemma_members(Map::empty(), codegen::outputs_of(co, legacy), true);
    lemma_members(
        vars::member_slots(Map::empty(), codegen::outputs_of(co, legacy), true),
        codegen::intermediates_of(co, legacy),
        false,
    );
    assert(is_readable(sc));
    programs_are_lowered(sc, w.blocks(), w.blocks().len(), 0);
}

} // verus!
