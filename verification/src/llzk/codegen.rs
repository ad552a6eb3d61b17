//! Emission of a circuit as a struct of a module.
use vstd::prelude::*;

use crate::circuit::CircuitOutput;
use crate::circuit::Constraint;
use crate::circuit::LookupQuery;
use crate::circuit::LookupQueryTableType;
use crate::circuit::RangeCheckQuery;
use crate::circuit::Variable;
use crate::llzk::builder;
use crate::llzk::builder::FunctionKind;
use crate::llzk::builder::LlzkError;
use crate::llzk::builder::OpsBuilder;
use crate::llzk::config::LlzkStructLayout;
use crate::llzk::constraints;
use crate::llzk::constraints::emit_boolean_variable;
use crate::llzk::constraints::Scope;
use crate::llzk::extract;
use crate::llzk::extract::extracted_inputs;
use crate::llzk::extract::extracted_intermediates;
use crate::llzk::extract::extracted_outputs;
use crate::llzk::extract::num_vars;
use crate::llzk::extract::uses_legacy_query2_write_input;
use crate::llzk::extract::ExtractedVariable;
use crate::llzk::extract::VariableExtractor;
use crate::llzk::ir;
use crate::llzk::ir::ConstType;
use crate::llzk::ir::Effect;
use crate::llzk::ir::ValueType;
use crate::llzk::lookups;
use crate::llzk::lowering::ComputeScope;
use crate::llzk::module;
use crate::llzk::module::FunctionBody;
use crate::llzk::module::ModuleEnv;
use crate::llzk::module::StructDef;
use crate::llzk::vars;
use crate::llzk::vars::StructBuilder;
use crate::llzk::vars::StructVars;
use crate::llzk::vars::VarMaps;
use crate::llzk::witness;
use crate::llzk::witness::WitnessComputation;

verus! {

/// Everything that is needed to emit one circuit.
pub struct CircuitBundle {
    name: String,
    layout: LlzkStructLayout,
    circuit_output: CircuitOutput,
    witness: Option<WitnessComputation>,
}

/// The inputs of a circuit, sorted.
pub open spec fn inputs_of(co: CircuitOutput, legacy: bool) -> Seq<ExtractedVariable> {
    choose|r: Seq<ExtractedVariable>|
        extract::is_sorted_form(
            r,
            extract::input_list(co.executor_machine_state->0, co.shuffle_ram_queries@, legacy),
        )
}

/// The outputs of a circuit, sorted.
pub open spec fn outputs_of(co: CircuitOutput, legacy: bool) -> Seq<ExtractedVariable> {
    choose|r: Seq<ExtractedVariable>|
        extract::is_sorted_form(
            r,
            extract::output_list(co.executor_machine_state->0, co.shuffle_ram_queries@, legacy),
        )
}

/// The intermediates of a circuit.
pub open spec fn intermediates_of(co: CircuitOutput, legacy: bool) -> Seq<ExtractedVariable> {
    extract::intermediate_list(
        extract::input_list(co.executor_machine_state->0, co.shuffle_ram_queries@, legacy),
        extract::output_list(co.executor_machine_state->0, co.shuffle_ram_queries@, legacy),
        co.shuffle_ram_queries@,
        co.num_of_variables as nat,
    )
}

/// The types of the arguments of a circuit.
pub open spec fn argument_types(co: CircuitOutput, legacy: bool) -> Seq<ValueType> {
    inputs_of(co, legacy).map_values(|x: ExtractedVariable| vars::slot_type(x))
}

/// The members of the struct of a circuit.
pub open spec fn members_of(co: CircuitOutput, legacy: bool) -> Map<u64, (Seq<char>, Option<u64>)> {
    vars::member_slots(
        vars::member_slots(Map::empty(), outputs_of(co, legacy), true),
        intermediates_of(co, legacy),
        false,
    )
}

/// What the constraints of a circuit are lowered against.
pub open spec fn constrain_scope(co: CircuitOutput, legacy: bool) -> Scope {
    Scope {
        args_map: vars::arg_slots(inputs_of(co, legacy)),
        members: members_of(co, legacy),
        args: seq![ValueType::Struct] + argument_types(co, legacy),
    }
}

/// The effects of boolean constraints in order.
pub open spec fn booleans(sc: Scope, vs: Seq<Variable>, k: nat) -> Result<Seq<Effect>, LlzkError>
    decreases vs.len(),
{
    if vs.len() == 0 {
        Ok(Seq::empty())
    } else {
        sequel(
            booleans(sc, vs.drop_last(), k),
            constraints::boolean_check(
                sc,
                vs.last(),
                after(k, booleans(sc, vs.drop_last(), k)),
            ),
        )
    }
}

/// The effects of range checks in order.
pub open spec fn ranges(sc: Scope, qs: Seq<RangeCheckQuery>, k: nat) -> Result<
    Seq<Effect>,
    LlzkError,
>
    decreases qs.len(),
{
    if qs.len() == 0 {
        Ok(Seq::empty())
    } else {
        sequel(
            ranges(sc, qs.drop_last(), k),
            constraints::range_check(
                sc,
                qs.last().input->Variable_0,
                qs.last().width,
                after(k, ranges(sc, qs.drop_last(), k)),
            ),
        )
    }
}

/// The effects of lookups in order.
pub open spec fn queries(sc: Scope, qs: Seq<LookupQuery>, k: nat) -> Result<Seq<Effect>, LlzkError>
    decreases qs.len(),
{
    if qs.len() == 0 {
        Ok(Seq::empty())
    } else {
        sequel(
            queries(sc, qs.drop_last(), k),
            lookups::query_effects(sc, qs.last(), after(k, queries(sc, qs.drop_last(), k))),
        )
    }
}

/// The effects of polynomial constraints in order.
pub open spec fn polynomials(sc: Scope, cs: Seq<(Constraint, bool)>, k: nat) -> Result<
    Seq<Effect>,
    LlzkError,
>
    decreases cs.len(),
{
    if cs.len() == 0 {
        Ok(Seq::empty())
    } else {
        sequel(
            polynomials(sc, cs.drop_last(), k),
            constraints::constraint(
                sc,
                cs.last().0,
                after(k, polynomials(sc, cs.drop_last(), k)),
            ),
        )
    }
}

/// Two lists of effects in order, or the first error.
pub open spec fn sequel(
    a: Result<Seq<Effect>, LlzkError>,
    b: Result<Seq<Effect>, LlzkError>,
) -> Result<Seq<Effect>, LlzkError> {
    match a {
        Err(e) => Err(e),
        Ok(x) => match b {
            Err(e) => Err(e),
            Ok(y) => Ok(x + y),
        },
    }
}

/// The number of effects after a list of effects.
pub open spec fn after(k: nat, a: Result<Seq<Effect>, LlzkError>) -> nat {
    match a {
        Ok(x) => k + x.len(),
        Err(_) => k,
    }
}

/// The effects of the constrain function of a circuit: boolean constraints, range checks,
/// lookups, then every other constraint.
pub open spec fn constrain_effects(co: CircuitOutput, sc: Scope) -> Result<Seq<Effect>, LlzkError> {
    let a = booleans(sc, co.boolean_vars@, 0);
    let b = sequel(a, ranges(sc, co.range_check_expressions@, after(0, a)));
    let c = sequel(b, queries(sc, co.lookups@, after(0, b)));
    sequel(c, polynomials(sc, co.constraints@, after(0, c)))
}

/// Whether the lookups and the range checks of a circuit can be lowered.
pub open spec fn supported(co: CircuitOutput) -> bool {
    &&& forall|i: int|
        0 <= i < co.range_check_expressions@.len() ==> (
        #[trigger] co.range_check_expressions@[i]).input is Variable
            && co.range_check_expressions@[i].width < 64
    &&& forall|i: int|
        0 <= i < co.lookups@.len() ==> ((
        #[trigger] co.lookups@[i]).table matches LookupQueryTableType::Constant(t) ==> !(
        t is Other))
}

/// Whether every variable of a circuit is an input, an output or an intermediate.
pub open spec fn complete(co: CircuitOutput, legacy: bool) -> bool {
    extract::total_count(inputs_of(co, legacy)) + extract::total_count(outputs_of(co, legacy))
        + extract::total_count(intermediates_of(co, legacy)) == co.num_of_variables
}

proof fn lemma_arg_slots(inputs: Seq<ExtractedVariable>, v: u64)
    requires
        inputs.len() <= usize::MAX,
        vars::arg_slots(inputs).contains_key(v),
    ensures
        vars::arg_slots(inputs)[v].arg < inputs.len(),
        vars::arg_slots(inputs)[v].limb is None ==> vars::slot_type(
            inputs[vars::arg_slots(inputs)[v].arg as int],
        ) == ValueType::Felt,
    decreases inputs.len(),
{
    if inputs.len() > 0 {
        let front = inputs.drop_last();
        if vars::arg_slots(front).contains_key(v) {
            lemma_arg_slots(front, v);
        }
    }
}

/// The scalar inputs of a circuit are field arguments.
proof fn lemma_well_typed(inputs: Seq<ExtractedVariable>)
    requires
        inputs.len() <= usize::MAX,
    ensures
        vars::scalars_are_felts(
            vars::arg_slots(inputs),
            seq![ValueType::Struct] + inputs.map_values(|x: ExtractedVariable| vars::slot_type(x)),
            1,
        ),
{
    let args = seq![ValueType::Struct] + inputs.map_values(
        |x: ExtractedVariable| vars::slot_type(x),
    );
    let m = vars::arg_slots(inputs);
    assert forall|v: u64| #[trigger]
        m.contains_key(v) && m[v].limb is None && m[v].arg + 1 < args.len() implies args[m[v].arg
        + 1] == ValueType::Felt by {
        lemma_arg_slots(inputs, v);
    }
}

fn emit_booleans(builder: &mut OpsBuilder, vars: &StructVars, list: &Vec<Variable>) -> (r: Result<
    (),
    LlzkError,
>)
    requires
        constraints::well_typed(constraints::scope_of(*vars, *old(builder))),
    ensures
        constraints::has_effects(
            *old(builder),
            *final(builder),
            r,
            booleans(
                constraints::scope_of(*vars, *old(builder)),
                list@,
                old(builder).effects().len(),
            ),
        ),
{
    let ghost sc = constraints::scope_of(*vars, *builder);
    let ghost start = builder.effects();
    let ghost k = start.len();
    assert(list@.take(0) =~= Seq::empty());
    assert(start =~= start + Seq::<Effect>::empty());
    let mut i: usize = 0;
    while i < list.len()
        invariant
            i <= list@.len(),
            sc == constraints::scope_of(*vars, *old(builder)),
            constraints::well_typed(sc),
            start == old(builder).effects(),
            k == start.len(),
            builder.continues(*old(builder)),
            booleans(sc, list@.take(i as int), k) is Ok,
            builder.effects() == start + booleans(sc, list@.take(i as int), k)->Ok_0,
        decreases list@.len() - i,
    {
        let ghost head = booleans(sc, list@.take(i as int), k)->Ok_0;
        assert(list@.take(i + 1).drop_last() =~= list@.take(i as int));
        assert(list@.take(i + 1).last() == list@[i as int]);
        proof {
            lemma_booleans_error(sc, list@, i + 1, k);
        }
        emit_boolean_variable(&list[i], builder, vars)?;
        assert(builder.effects() =~= start + booleans(sc, list@.take(i + 1), k)->Ok_0);
        i = i + 1;
    }
    assert(list@.take(list@.len() as int) =~= list@);
    Ok(())
}

proof fn lemma_booleans_error(sc: Scope, s: Seq<Variable>, i: int, k: nat)
    requires
        0 <= i <= s.len(),
    ensures
        booleans(sc, s.take(i), k) matches Err(e) ==> booleans(sc, s, k) == Err::<
            Seq<Effect>,
            LlzkError,
        >(e),
    decreases s.len(),
{
    if i == s.len() {
        assert(s.take(i) =~= s);
    } else {
        assert(s.drop_last().take(i) =~= s.take(i));
        lemma_booleans_error(sc, s.drop_last(), i, k);
    }
}

fn emit_ranges(builder: &mut OpsBuilder, vars: &StructVars, list: &Vec<RangeCheckQuery>) -> (r: Result<
    (),
    LlzkError,
>)
    requires
        constraints::well_typed(constraints::scope_of(*vars, *old(builder))),
        forall|j: int|
            0 <= j < list@.len() ==> (#[trigger] list@[j]).input is Variable && list@[j].width < 64,
    ensures
        constraints::has_effects(
            *old(builder),
            *final(builder),
            r,
            ranges(
                constraints::scope_of(*vars, *old(builder)),
                list@,
                old(builder).effects().len(),
            ),
        ),
{
    let ghost sc = constraints::scope_of(*vars, *builder);
    let ghost start = builder.effects();
    let ghost k = start.len();
    assert(list@.take(0) =~= Seq::empty());
    assert(start =~= start + Seq::<Effect>::empty());
    let mut i: usize = 0;
    while i < list.len()
        invariant
            i <= list@.len(),
            sc == constraints::scope_of(*vars, *old(builder)),
            constraints::well_typed(sc),
            forall|j: int|
                0 <= j < list@.len() ==> (#[trigger] list@[j]).input is Variable && list@[j].width < 64,
            start == old(builder).effects(),
            k == start.len(),
            builder.continues(*old(builder)),
            ranges(sc, list@.take(i as int), k) is Ok,
            builder.effects() == start + ranges(sc, list@.take(i as int), k)->Ok_0,
        decreases list@.len() - i,
    {
        let ghost head = ranges(sc, list@.take(i as int), k)->Ok_0;
        assert(list@.take(i + 1).drop_last() =~= list@.take(i as int));
        assert(list@.take(i + 1).last() == list@[i as int]);
        proof {
            lemma_ranges_error(sc, list@, i + 1, k);
        }
        list[i].emit_constrain(builder, vars)?;
        assert(builder.effects() =~= start + ranges(sc, list@.take(i + 1), k)->Ok_0);
        i = i + 1;
    }
    assert(list@.take(list@.len() as int) =~= list@);
    Ok(())
}

proof fn lemma_ranges_error(sc: Scope, s: Seq<RangeCheckQuery>, i: int, k: nat)
    requires
        0 <= i <= s.len(),
    ensures
        ranges(sc, s.take(i), k) matches Err(e) ==> ranges(sc, s, k) == Err::<
            Seq<Effect>,
            LlzkError,
        >(e),
    decreases s.len(),
{
    if i == s.len() {
        assert(s.take(i) =~= s);
    } else {
        assert(s.drop_last().take(i) =~= s.take(i));
        lemma_ranges_error(sc, s.drop_last(), i, k);
    }
}

fn emit_queries(builder: &mut OpsBuilder, vars: &StructVars, list: &Vec<LookupQuery>) -> (r: Result<
    (),
    LlzkError,
>)
    requires
        constraints::well_typed(constraints::scope_of(*vars, *old(builder))),
        forall|j: int|
            0 <= j < list@.len() ==> ((
            #[trigger] list@[j]).table matches LookupQueryTableType::Constant(t) ==> !(t is Other)),
    ensures
        constraints::has_effects(
            *old(builder),
            *final(builder),
            r,
            queries(
                constraints::scope_of(*vars, *old(builder)),
                list@,
                old(builder).effects().len(),
            ),
        ),
{
    let ghost sc = constraints::scope_of(*vars, *builder);
    let ghost start = builder.effects();
    let ghost k = start.len();
    assert(list@.take(0) =~= Seq::empty());
    assert(start =~= start + Seq::<Effect>::empty());
    let mut i: usize = 0;
    while i < list.len()
        invariant
            i <= list@.len(),
            sc == constraints::scope_of(*vars, *old(builder)),
            constraints::well_typed(sc),
            forall|j: int|
                0 <= j < list@.len() ==> ((
                #[trigger] list@[j]).table matches LookupQueryTableType::Constant(t) ==> !(t is Other)),
            start == old(builder).effects(),
            k == start.len(),
            builder.continues(*old(builder)),
            queries(sc, list@.take(i as int), k) is Ok,
            builder.effects() == start + queries(sc, list@.take(i as int), k)->Ok_0,
        decreases list@.len() - i,
    {
        let ghost head = queries(sc, list@.take(i as int), k)->Ok_0;
        assert(list@.take(i + 1).drop_last() =~= list@.take(i as int));
        assert(list@.take(i + 1).last() == list@[i as int]);
        proof {
            lemma_queries_error(sc, list@, i + 1, k);
        }
        list[i].emit_constrain(builder, vars)?;
        assert(builder.effects() =~= start + queries(sc, list@.take(i + 1), k)->Ok_0);
        i = i + 1;
    }
    assert(list@.take(list@.len() as int) =~= list@);
    Ok(())
}

proof fn lemma_queries_error(sc: Scope, s: Seq<LookupQuery>, i: int, k: nat)
    requires
        0 <= i <= s.len(),
    ensures
        queries(sc, s.take(i), k) matches Err(e) ==> queries(sc, s, k) == Err::<
            Seq<Effect>,
            LlzkError,
        >(e),
    decreases s.len(),
{
    if i == s.len() {
        assert(s.take(i) =~= s);
    } else {
        assert(s.drop_last().take(i) =~= s.take(i));
        lemma_queries_error(sc, s.drop_last(), i, k);
    }
}

fn emit_polynomials(builder: &mut OpsBuilder, vars: &StructVars, list: &Vec<(Constraint, bool)>) -> (r: Result<
    (),
    LlzkError,
>)
    requires
        constraints::well_typed(constraints::scope_of(*vars, *old(builder))),
    ensures
        constraints::has_effects(
            *old(builder),
            *final(builder),
            r,
            polynomials(
                constraints::scope_of(*vars, *old(builder)),
                list@,
                old(builder).effects().len(),
            ),
        ),
{
    let ghost sc = constraints::scope_of(*vars, *builder);
    let ghost start = builder.effects();
    let ghost k = start.len();
    assert(list@.take(0) =~= Seq::empty());
    assert(start =~= start + Seq::<Effect>::empty());
    let mut i: usize = 0;
    while i < list.len()
        invariant
            i <= list@.len(),
            sc == constraints::scope_of(*vars, *old(builder)),
            constraints::well_typed(sc),
            start == old(builder).effects(),
            k == start.len(),
            builder.continues(*old(builder)),
            polynomials(sc, list@.take(i as int), k) is Ok,
            builder.effects() == start + polynomials(sc, list@.take(i as int), k)->Ok_0,
        decreases list@.len() - i,
    {
        let ghost head = polynomials(sc, list@.take(i as int), k)->Ok_0;
        assert(list@.take(i + 1).drop_last() =~= list@.take(i as int));
        assert(list@.take(i + 1).last() == list@[i as int]);
        proof {
            lemma_polynomials_error(sc, list@, i + 1, k);
        }
        list[i].0.emit_constrain(builder, vars)?;
        assert(builder.effects() =~= start + polynomials(sc, list@.take(i + 1), k)->Ok_0);
        i = i + 1;
    }
    assert(list@.take(list@.len() as int) =~= list@);
    Ok(())
}

proof fn lemma_polynomials_error(sc: Scope, s: Seq<(Constraint, bool)>, i: int, k: nat)
    requires
        0 <= i <= s.len(),
    ensures
        polynomials(sc, s.take(i), k) matches Err(e) ==> polynomials(sc, s, k) == Err::<
            Seq<Effect>,
            LlzkError,
        >(e),
    decreases s.len(),
{
    if i == s.len() {
        assert(s.take(i) =~= s);
    } else {
        assert(s.drop_last().take(i) =~= s.take(i));
        lemma_polynomials_error(sc, s.drop_last(), i, k);
    }
}

/// Whether zero and one are among the constants, as an index and as a field element.
pub open spec fn has_basic_constants(prologue: Seq<(ConstType, u64)>) -> bool {
    &&& prologue.contains((ConstType::Index, 1))
    &&& prologue.contains((ConstType::Index, 0))
    &&& prologue.contains((ConstType::Felt, 1))
    &&& prologue.contains((ConstType::Felt, 0))
}

proof fn lemma_with_constant(
    consts: Seq<(ConstType, u64)>,
    ty: ConstType,
    i: u64,
    other: (ConstType, u64),
)
    ensures
        builder::with_constant(consts, ty, i).contains((ty, i)),
        consts.contains(other) ==> builder::with_constant(consts, ty, i).contains(other),
{
    let pushed = consts.push((ty, i));
    assert(pushed[consts.len() as int] == (ty, i));
    if consts.contains(other) {
        let j = choose|j: int| 0 <= j < consts.len() && consts[j] == other;
        assert(pushed[j] == other);
    }
}

proof fn lemma_basic_constants(consts: Seq<(ConstType, u64)>)
    ensures
        ({
            let a = builder::with_constant(consts, ConstType::Index, 1);
            let b = builder::with_constant(a, ConstType::Index, 0);
            let c = builder::with_constant(b, ConstType::Felt, 1);
            has_basic_constants(builder::with_constant(c, ConstType::Felt, 0))
        }),
{
    let one = (ConstType::Index, 1u64);
    let zero = (ConstType::Index, 0u64);
    let a = builder::with_constant(consts, ConstType::Index, 1);
    let b = builder::with_constant(a, ConstType::Index, 0);
    let c = builder::with_constant(b, ConstType::Felt, 1);
    lemma_with_constant(consts, ConstType::Index, 1, one);
    lemma_with_constant(a, ConstType::Index, 0, one);
    lemma_with_constant(b, ConstType::Felt, 1, one);
    lemma_with_constant(b, ConstType::Felt, 1, zero);
    lemma_with_constant(c, ConstType::Felt, 0, one);
    lemma_with_constant(c, ConstType::Felt, 0, zero);
    lemma_with_constant(c, ConstType::Felt, 0, (ConstType::Felt, 1u64));
}

/// The body of the constrain function of a circuit.
fn emit_constraints(builder: &mut OpsBuilder, vars: &StructVars, co: &CircuitOutput) -> (r: Result<
    (),
    LlzkError,
>)
    requires
        constraints::well_typed(constraints::scope_of(*vars, *old(builder))),
        supported(*co),
        old(builder).effects().len() == 0,
    ensures
        constraints::has_effects(
            *old(builder),
            *final(builder),
            r,
            constrain_effects(*co, constraints::scope_of(*vars, *old(builder))),
        ),
        r is Ok ==> has_basic_constants(final(builder).constants()),
{
    let ghost sc = constraints::scope_of(*vars, *builder);
    let ghost start = builder.effects();
    builder.insert_constant_at_start(ConstType::Index, 1)?;
    builder.insert_constant_at_start(ConstType::Index, 0)?;
    builder.insert_constant_at_start(ConstType::Felt, 1)?;
    builder.insert_constant_at_start(ConstType::Felt, 0)?;
    proof {
        lemma_basic_constants(old(builder).constants());
    }
    let ghost basic = *builder;
    assert(has_basic_constants(basic.constants()));
    emit_booleans(builder, vars, &co.boolean_vars)?;
    let ghost a = booleans(sc, co.boolean_vars@, 0);
    assert(builder.effects() =~= a->Ok_0);
    emit_ranges(builder, vars, &co.range_check_expressions)?;
    let ghost b = sequel(a, ranges(sc, co.range_check_expressions@, after(0, a)));
    assert(builder.effects() =~= b->Ok_0);
    emit_queries(builder, vars, &co.lookups)?;
    let ghost c = sequel(b, queries(sc, co.lookups@, after(0, b)));
    assert(builder.effects() =~= c->Ok_0);
    emit_polynomials(builder, vars, &co.constraints)?;
    assert(builder.effects() =~= start + constrain_effects(*co, sc)->Ok_0);
    proof {
        builder.constants_are_kept(basic, (ConstType::Index, 1));
        builder.constants_are_kept(basic, (ConstType::Index, 0));
        builder.constants_are_kept(basic, (ConstType::Felt, 1));
        builder.constants_are_kept(basic, (ConstType::Felt, 0));
    }
    Ok(())
}

/// Whether a struct is what a circuit is emitted as.
pub open spec fn is_emitted(
    s: StructDef,
    name: Seq<char>,
    layout: LlzkStructLayout,
    co: CircuitOutput,
    compute_effects: Seq<Effect>,
) -> bool {
    let legacy = extract::legacy_circuit(name);
    &&& s.name@ == name
    &&& vars::member_views(s.members@) == vars::member_defs(outputs_of(co, legacy), true)
        + vars::member_defs(intermediates_of(co, legacy), false)
    &&& s.compute.arguments@ == argument_types(co, legacy)
    &&& s.constrain.arguments@ == seq![ValueType::Struct] + argument_types(co, legacy)
    &&& ir::meaning(s.constrain.ops@).1 == (if layout == LlzkStructLayout::ComputeOnly {
        Seq::empty()
    } else {
        constrain_effects(co, constrain_scope(co, legacy))->Ok_0
    })
    &&& ir::meaning(s.compute.ops@).1 == compute_effects
    &&& module::is_closed(s.compute, true)
    &&& module::is_closed(s.constrain, false)
    &&& layout != LlzkStructLayout::ComputeOnly ==> has_basic_constants(s.constrain.prologue@)
}

/// What the witness program of a circuit is lowered against.
pub open spec fn compute_scope(
    w: WitnessComputation,
    co: CircuitOutput,
    legacy: bool,
) -> ComputeScope {
    w.scope(
        (VarMaps {
            args_map: vars::arg_slots(inputs_of(co, legacy)),
            members: members_of(co, legacy),
        }),
        argument_types(co, legacy),
    )
}

/// The effects of the compute function of a circuit.
pub open spec fn witness_effects(
    w: WitnessComputation,
    co: CircuitOutput,
    legacy: bool,
) -> Result<Seq<Effect>, LlzkError> {
    witness::program_lowering(compute_scope(w, co, legacy), w.blocks(), w.blocks().len(), 0)
}

/// What emitting a circuit gives: the effects of its compute function, or the first error.
pub open spec fn emission(
    name: Seq<char>,
    layout: LlzkStructLayout,
    co: CircuitOutput,
    witness: Option<WitnessComputation>,
) -> Result<Seq<Effect>, LlzkError> {
    let legacy = extract::legacy_circuit(name);
    let constrained = constrain_effects(co, constrain_scope(co, legacy));
    if co.executor_machine_state is None {
        Err(LlzkError::MissingExecutorState)
    } else if layout != LlzkStructLayout::ComputeOnly && constrained is Err {
        Err(constrained->Err_0)
    } else if layout == LlzkStructLayout::ConstrainOnly {
        Ok(Seq::empty())
    } else {
        match witness {
            None => Err(LlzkError::MissingWitness),
            Some(w) => witness_effects(w, co, legacy),
        }
    }
}

impl VariableExtractor for CircuitBundle {
    /// The inputs of the circuit, sorted.
    fn get_inputs(&self) -> (r: Result<Vec<ExtractedVariable>, LlzkError>)
        ensures
            match r {
                Ok(xs) => {
                    &&& self.circuit().executor_machine_state is Some
                    &&& xs@ == inputs_of(
                        self.circuit(),
                        extract::legacy_circuit(self.struct_name()),
                    )
                },
                Err(e) => {
                    &&& self.circuit().executor_machine_state is None
                    &&& e == LlzkError::MissingExecutorState
                },
            },
    {
        let legacy = uses_legacy_query2_write_input(self.name.as_str());
        let r = extracted_inputs(&self.circuit_output, legacy)?;
        proof {
            extract::sorted_forms_are_unique(
                r@,
                inputs_of(self.circuit(), legacy),
                extract::input_list(
                    self.circuit().executor_machine_state->0,
                    self.circuit().shuffle_ram_queries@,
                    legacy,
                ),
            );
        }
        Ok(r)
    }

    /// The outputs of the circuit, sorted.
    fn get_outputs(&self) -> (r: Result<Vec<ExtractedVariable>, LlzkError>)
        ensures
            match r {
                Ok(xs) => {
                    &&& self.circuit().executor_machine_state is Some
                    &&& xs@ == outputs_of(
                        self.circuit(),
                        extract::legacy_circuit(self.struct_name()),
                    )
                },
                Err(e) => {
                    &&& self.circuit().executor_machine_state is None
                    &&& e == LlzkError::MissingExecutorState
                },
            },
    {
        let legacy = uses_legacy_query2_write_input(self.name.as_str());
        let r = extracted_outputs(&self.circuit_output, legacy)?;
        proof {
            extract::sorted_forms_are_unique(
                r@,
                outputs_of(self.circuit(), legacy),
                extract::output_list(
                    self.circuit().executor_machine_state->0,
                    self.circuit().shuffle_ram_queries@,
                    legacy,
                ),
            );
        }
        Ok(r)
    }

    /// The intermediates of the circuit, in order.
    fn get_intermediates(&self) -> (r: Result<Vec<ExtractedVariable>, LlzkError>)
        ensures
            match r {
                Ok(xs) => {
                    &&& self.circuit().executor_machine_state is Some
                    &&& xs@ == intermediates_of(
                        self.circuit(),
                        extract::legacy_circuit(self.struct_name()),
                    )
                },
                Err(e) => {
                    &&& self.circuit().executor_machine_state is None
                    &&& e == LlzkError::MissingExecutorState
                },
            },
    {
        let legacy = uses_legacy_query2_write_input(self.name.as_str());
        extracted_intermediates(&self.circuit_output, legacy)
    }
}

impl CircuitBundle {
    /// The name of the struct.
    pub closed spec fn struct_name(self) -> Seq<char> {
        self.name@
    }

    /// Which functions the struct has.
    pub closed spec fn struct_layout(self) -> LlzkStructLayout {
        self.layout
    }

    /// The circuit.
    pub closed spec fn circuit(self) -> CircuitOutput {
        self.circuit_output
    }

    /// The witness program, if there is one.
    pub closed spec fn program(self) -> Option<WitnessComputation> {
        self.witness
    }

    /// Bundles what is needed to emit a circuit. Only the compute-only layout may go without a
    /// witness.
    pub fn new(
        name: &str,
        layout: LlzkStructLayout,
        circuit_output: CircuitOutput,
        witness: Option<WitnessComputation>,
    ) -> (r: Result<Self, LlzkError>)
        ensures
            match r {
                Ok(b) => {
                    &&& witness is Some || layout == LlzkStructLayout::ComputeOnly
                    &&& b.struct_name() == name@
                    &&& b.struct_layout() == layout
                    &&& b.circuit() == circuit_output
                    &&& b.program() == witness
                },
                Err(e) => {
                    &&& witness is None
                    &&& layout != LlzkStructLayout::ComputeOnly
                    &&& e == LlzkError::MissingWitness
                },
            },
    {
        if layout != LlzkStructLayout::ComputeOnly && witness.is_none() {
            return Err(LlzkError::MissingWitness);
        }
        Ok(CircuitBundle { name: name.to_owned(), layout, circuit_output, witness })
    }

    /// The name of the struct.
    pub fn name(&self) -> (r: &str)
        ensures
            r@ == self.struct_name(),
    {
        self.name.as_str()
    }

    /// Whether every variable of the circuit is an input, an output or an intermediate.
    pub fn covers_every_variable(&self) -> (r: Result<bool, LlzkError>)
        ensures
            match r {
                Ok(b) => {
                    &&& self.circuit().executor_machine_state is Some
                    &&& b == complete(
                        self.circuit(),
                        extract::legacy_circuit(self.struct_name()),
                    )
                },
                Err(e) => {
                    &&& self.circuit().executor_machine_state is None
                    &&& e == LlzkError::MissingExecutorState
                },
            },
    {
        let inputs = num_vars(&self.get_inputs()?);
        let outputs = num_vars(&self.get_outputs()?);
        let intermediates = num_vars(&self.get_intermediates()?);
        Ok(inputs + outputs + intermediates == self.circuit_output.num_of_variables as u128)
    }

    /// Emits the circuit as a struct of the module, and declares the hooks that it calls.
    pub fn emit_llzk(&self, env: &mut ModuleEnv) -> (r: Result<(), LlzkError>)
        requires
            self.struct_layout() != LlzkStructLayout::Product,
            self.struct_layout() != LlzkStructLayout::ComputeOnly ==> supported(self.circuit()),
            self.circuit().executor_machine_state is Some ==> complete(
                self.circuit(),
                extract::legacy_circuit(self.struct_name()),
            ) && (self.struct_layout() != LlzkStructLayout::ConstrainOnly ==> (
            self.program() matches Some(w) ==> w.writes_have_places(
                members_of(self.circuit(), extract::legacy_circuit(self.struct_name())),
            ))),
        ensures
            match (
                r,
                emission(
                    self.struct_name(),
                    self.struct_layout(),
                    self.circuit(),
                    self.program(),
                ),
            ) {
                (Ok(_), Ok(compute_effects)) => {
                    &&& final(env).structs@.len() == old(env).structs@.len() + 1
                    &&& final(env).structs@.drop_last() == old(env).structs@
                    &&& is_emitted(
                        final(env).structs@.last(),
                        self.struct_name(),
                        self.struct_layout(),
                        self.circuit(),
                        compute_effects,
                    )
                    &&& module::decl_views(final(env).functions@) == (
                    if self.struct_layout() == LlzkStructLayout::ConstrainOnly {
                        module::decl_views(old(env).functions@)
                    } else {
                        witness::with_hooks(
                            final(env).structs@,
                            module::decl_views(old(env).functions@),
                            8,
                        )
                    })
                },
                (Err(e), Err(x)) => e == x && *final(env) == *old(env),
                _ => false,
            },
    {
        let ghost legacy = extract::legacy_circuit(self.struct_name());
        let ghost co = self.circuit();
        let inputs = self.get_inputs()?;
        let outputs = self.get_outputs()?;
        let intermediates = self.get_intermediates()?;
        let mut struct_builder = StructBuilder::new(self.name.as_str());
        let vars = StructVars::new(
            &self.circuit_output,
            &inputs,
            &outputs,
            &intermediates,
            &mut struct_builder,
        );
        assert(struct_builder.inputs@ =~= argument_types(co, legacy));
        assert(vars::member_views(struct_builder.members@) =~= vars::member_defs(
            outputs@,
            true,
        ) + vars::member_defs(intermediates@, false));
        proof {
            lemma_well_typed(inputs@);
        }

        let mut constrain = OpsBuilder::new(
            FunctionKind::Constrain,
            struct_builder.constrain_arguments(),
        );
        assert(constraints::scope_of(vars, constrain) == constrain_scope(co, legacy));
        if self.layout != LlzkStructLayout::ComputeOnly {
            emit_constraints(&mut constrain, &vars, &self.circuit_output)?;
            assert(constrain.effects() =~= constrain_effects(
                co,
                constrain_scope(co, legacy),
            )->Ok_0);
        }
        let mut compute = OpsBuilder::new(
            FunctionKind::Compute,
            struct_builder.compute_arguments(),
        );
        if self.layout != LlzkStructLayout::ConstrainOnly {
            match &self.witness {
                None => {
                    return Err(LlzkError::MissingWitness);
                },
                Some(wit) => {
                    wit.emit_compute(&mut compute, &vars)?;
                    assert(compute.effects() =~= witness_effects(*wit, co, legacy)->Ok_0);
                },
            }
        }
        let (arguments, prologue, ops) = compute.finish();
        let compute = FunctionBody { arguments, prologue, ops };
        let (arguments, prologue, ops) = constrain.finish();
        let constrain = FunctionBody { arguments, prologue, ops };
        struct_builder.build_in_module(env, compute, constrain);
        assert(env.structs@.drop_last() =~= old(env).structs@);
        if self.layout != LlzkStructLayout::ConstrainOnly {
            if let Some(wit) = &self.witness {
                wit.declare_runtime_externs(env);
            }
        }
        Ok(())
    }
}

} // verus!
