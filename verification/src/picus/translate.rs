//! Circuits as constraint modules.
use vstd::prelude::*;
use vstd::string::StringExecFns;

use crate::circuit::CircuitOutput;
use crate::circuit::Constraint;
use crate::circuit::LookupInput;
use crate::circuit::OpcodeFamilyCircuitState;
use crate::circuit::RangeCheckQuery;
use crate::circuit::ShuffleRamMemQuery;
use crate::circuit::Term;
use crate::circuit::Variable;
use crate::circuit::CHARACTERISTICS;
use crate::circuit::RS1_LOAD_LOCAL_TIMESTAMP;
use crate::circuit::RS2_LOAD_LOCAL_TIMESTAMP;
use crate::picus::ir;
use crate::picus::ir::PicusConstraint;
use crate::picus::ir::PicusExpr;
use crate::picus::ir::PicusModule;
use crate::picus::ir::PicusProgram;
use crate::picus::lookups;
use crate::picus::lookups::add_disjunctive_lookup_constraints;
use crate::picus::lookups::add_lookup_constraints;
use crate::picus::lookups::U16_BOUND;
use crate::text;
use crate::text::push_decimal;

verus! {

/// A circuit variable as an expression.
pub open spec fn var_expr(v: Variable) -> PicusExpr {
    PicusExpr::Var(v.0 as usize)
}

/// Zero minus an expression.
pub open spec fn negated(e: PicusExpr) -> PicusExpr {
    ir::difference(PicusExpr::Const(0), e)
}

/// The product of variables, starting from one.
pub open spec fn product_expr(factors: Seq<Variable>) -> PicusExpr
    decreases factors.len(),
{
    if factors.len() == 0 {
        PicusExpr::Const(1)
    } else {
        ir::product(product_expr(factors.drop_last()), var_expr(factors.last()))
    }
}

/// A term as an expression whose constant is at most half of the characteristic: a larger
/// coefficient is written as the negation of its opposite, and a unit coefficient is left out.
pub open spec fn term_expr(term: Term) -> PicusExpr {
    let coeff = term.coefficient();
    let opposite = (CHARACTERISTICS - coeff) as u64;
    let monomial = product_expr(term.factors());
    match term {
        Term::Constant(_) => if coeff < opposite {
            PicusExpr::Const(coeff)
        } else {
            negated(PicusExpr::Const(opposite))
        },
        Term::Expression { .. } => if coeff < opposite {
            if coeff == 1 {
                monomial
            } else {
                ir::product(PicusExpr::Const(coeff), monomial)
            }
        } else if opposite == 1 {
            negated(monomial)
        } else {
            negated(ir::product(PicusExpr::Const(opposite), monomial))
        },
    }
}

/// The sum of terms, starting from zero.
pub open spec fn terms_expr(terms: Seq<Term>) -> PicusExpr
    decreases terms.len(),
{
    if terms.len() == 0 {
        PicusExpr::Const(0)
    } else {
        ir::sum(terms_expr(terms.drop_last()), term_expr(terms.last()))
    }
}

/// A polynomial constraint.
pub open spec fn polynomial_constraint(constraint: Constraint) -> PicusConstraint {
    PicusConstraint::Eq(Box::new(terms_expr(constraint.terms@)))
}

/// The polynomial constraints of a circuit.
pub open spec fn polynomial_constraints(constraints: Seq<(Constraint, bool)>) -> Seq<
    PicusConstraint,
> {
    constraints.map_values(|c: (Constraint, bool)| polynomial_constraint(c.0))
}

/// A linear combination, starting from a constant.
pub open spec fn linear_expr(
    constant: u64,
    terms: Seq<(crate::circuit::Mersenne31Field, Variable)>,
) -> PicusExpr
    decreases terms.len(),
{
    if terms.len() == 0 {
        PicusExpr::Const(constant)
    } else {
        ir::sum(
            linear_expr(constant, terms.drop_last()),
            ir::product(PicusExpr::Const(terms.last().0.reduced()), var_expr(terms.last().1)),
        )
    }
}

/// A lookup input as an expression.
pub open spec fn input_expr(input: LookupInput) -> PicusExpr {
    match input {
        LookupInput::Variable(v) => var_expr(v),
        LookupInput::Expression { linear_terms, constant_coeff } => linear_expr(
            constant_coeff.reduced(),
            linear_terms@,
        ),
    }
}

/// Variables as expressions.
pub open spec fn var_exprs(vs: Seq<Variable>) -> Seq<PicusExpr> {
    vs.map_values(|v: Variable| var_expr(v))
}

/// Variables as 16-bit values.
pub open spec fn u16_constraints(vs: Seq<Variable>) -> Seq<PicusConstraint> {
    vs.map_values(|v: Variable| ir::below_const(var_expr(v), U16_BOUND))
}

/// The read values of the queries, in order.
pub open spec fn read_variables(queries: Seq<ShuffleRamMemQuery>) -> Seq<Variable>
    decreases queries.len(),
{
    if queries.len() == 0 {
        Seq::empty()
    } else {
        read_variables(queries.drop_last()) + queries.last().read_value@
    }
}

/// Whether a query writes something that its circuit computes.
pub open spec fn writes_output(query: ShuffleRamMemQuery) -> bool {
    query.local_timestamp_in_cycle != RS1_LOAD_LOCAL_TIMESTAMP && query.local_timestamp_in_cycle
        != RS2_LOAD_LOCAL_TIMESTAMP
}

/// The written values of the queries that are no register loads, in order.
pub open spec fn written_variables(queries: Seq<ShuffleRamMemQuery>) -> Seq<Variable>
    decreases queries.len(),
{
    if queries.len() == 0 {
        Seq::empty()
    } else if writes_output(queries.last()) {
        written_variables(queries.drop_last()) + queries.last().write_value@
    } else {
        written_variables(queries.drop_last())
    }
}

/// The range check of a lookup input.
pub open spec fn range_constraint(query: RangeCheckQuery) -> PicusConstraint {
    ir::below_const(input_expr(query.input), 1u64 << (query.width as u32))
}

/// The machine-state inputs, in order.
pub open spec fn state_inputs(cs: OpcodeFamilyCircuitState) -> Seq<Variable> {
    seq![
        cs.decoder_data.rd_is_zero,
        cs.decoder_data.imm[0],
        cs.decoder_data.imm[1],
        cs.decoder_data.funct3,
        cs.decoder_data.rs1_index,
        cs.decoder_data.rs2_index,
        cs.decoder_data.rd_index,
    ] + (match cs.decoder_data.funct7 {
        Some(v) => seq![v],
        None => Seq::empty(),
    }) + seq![
        cs.cycle_start_state.timestamp[0],
        cs.cycle_start_state.timestamp[1],
        cs.cycle_start_state.pc[0],
        cs.cycle_start_state.pc[1],
    ]
}

/// The machine-state outputs.
pub open spec fn state_outputs(cs: OpcodeFamilyCircuitState) -> Seq<Variable> {
    seq![cs.cycle_end_state.pc[0], cs.cycle_end_state.pc[1]]
}

/// The ranges of the machine-state inputs.
pub open spec fn state_constraints(cs: OpcodeFamilyCircuitState) -> Seq<PicusConstraint> {
    seq![ir::below_const(var_expr(cs.decoder_data.funct3), 8)] + (match cs.decoder_data.funct7 {
        Some(v) => seq![ir::below_const(var_expr(v), 128)],
        None => Seq::empty(),
    }) + seq![
        ir::bit(var_expr(cs.decoder_data.rd_is_zero)),
        ir::below_const(var_expr(cs.decoder_data.imm[0]), U16_BOUND),
        ir::below_const(var_expr(cs.decoder_data.imm[1]), U16_BOUND),
        ir::below_const(var_expr(cs.cycle_start_state.pc[0]), U16_BOUND),
        ir::below_const(var_expr(cs.cycle_start_state.pc[1]), U16_BOUND),
    ]
}

/// How many fresh variables a circuit takes.
pub open spec fn circuit_fresh(co: CircuitOutput) -> int {
    lookups::queries_fresh(co.lookups@) + lookups::relations_fresh(
        co.picus_extraction_metadata.disjunctive_lookups@,
        co.table_ids,
    )
}

/// The inputs of a circuit's module.
pub open spec fn circuit_inputs(
    co: CircuitOutput,
    state: Option<OpcodeFamilyCircuitState>,
) -> Seq<PicusExpr> {
    var_exprs(read_variables(co.shuffle_ram_queries@)) + (match state {
        Some(cs) => var_exprs(state_inputs(cs)),
        None => Seq::empty(),
    })
}

/// The outputs of a circuit's module.
pub open spec fn circuit_outputs(
    co: CircuitOutput,
    state: Option<OpcodeFamilyCircuitState>,
) -> Seq<PicusExpr> {
    var_exprs(written_variables(co.shuffle_ram_queries@)) + (match state {
        Some(cs) => var_exprs(state_outputs(cs)),
        None => Seq::empty(),
    })
}

/// The constraints of a circuit's module: read values, polynomials, lookups, disjunctive
/// lookups, booleans, range checks, machine state.
pub open spec fn circuit_constraints(
    co: CircuitOutput,
    state: Option<OpcodeFamilyCircuitState>,
) -> Seq<PicusConstraint> {
    let n = co.num_of_variables as int;
    u16_constraints(read_variables(co.shuffle_ram_queries@)) + polynomial_constraints(
        co.constraints@,
    ) + lookups::queries_constraints(co.lookups@, n) + lookups::relations_constraints(
        co.picus_extraction_metadata.disjunctive_lookups@,
        co.table_ids,
        n + lookups::queries_fresh(co.lookups@),
    ) + co.boolean_vars@.map_values(|v: Variable| ir::bit(var_expr(v)))
        + co.range_check_expressions@.map_values(|q: RangeCheckQuery| range_constraint(q)) + (
    match state {
        Some(cs) => state_constraints(cs),
        None => Seq::empty(),
    })
}

/// The postconditions of a circuit's module.
pub open spec fn circuit_postconditions(co: CircuitOutput) -> Seq<PicusConstraint> {
    lookups::relations_postconditions(co.picus_extraction_metadata.disjunctive_lookups@)
}

/// The binding of the decoded bits in which one is set.
pub open spec fn one_hot_binding(bits: Seq<usize>, active: int) -> Seq<(usize, u64)> {
    Seq::new(
        bits.len(),
        |i: int|
            (
                bits[i],
                if i == active {
                    1u64
                } else {
                    0u64
                },
            ),
    )
}

/// The bindings under which a module is specialized: both values of a single decoded bit, or
/// one binding for each of several bits.
pub open spec fn specializations(bits: Seq<usize>) -> Seq<Seq<(usize, u64)>> {
    if bits.len() == 1 {
        seq![seq![(bits[0], 0u64)], seq![(bits[0], 1u64)]]
    } else {
        Seq::new(bits.len(), |i: int| one_hot_binding(bits, i))
    }
}

/// The name of a specialized module.
pub open spec fn specialized_name(name: Seq<char>, index: int) -> Seq<char> {
    name + "_"@ + text::decimal(index as nat)
}

/// A circuit variable as an expression.
pub fn variable_to_picus_expr(var: Variable) -> (r: PicusExpr)
    ensures
        r == var_expr(var),
{
    PicusExpr::Var(var.0 as usize)
}

fn neg_expr(expr: PicusExpr) -> (r: PicusExpr)
    ensures
        r == negated(expr),
{
    PicusExpr::Const(0).minus(expr)
}

/// A term as an expression.
pub fn term_to_picus_expr(term: &Term) -> (r: PicusExpr)
    ensures
        r == term_expr(*term),
{
    match term {
        Term::Constant(c) => {
            let coeff: u64 = c.as_u64_reduced();
            let coeff_opp: u64 = CHARACTERISTICS - coeff;
            if coeff < coeff_opp {
                PicusExpr::Const(coeff)
            } else {
                neg_expr(PicusExpr::Const(coeff_opp))
            }
        },
        Term::Expression { coeff, inner, degree } => {
            let coeff: u64 = coeff.as_u64_reduced();
            let coeff_opp: u64 = CHARACTERISTICS - coeff;
            let count: usize = if *degree < 4 {
                *degree
            } else {
                4
            };
            let mut monomial = PicusExpr::Const(1);
            for i in 0..count
                invariant
                    count <= 4,
                    monomial == product_expr(inner@.take(i as int)),
            {
                monomial = monomial.times(variable_to_picus_expr(inner[i]));
                assert(inner@.take(i + 1).drop_last() =~= inner@.take(i as int));
            }
            assert(inner@.take(count as int) == term.factors());

            if coeff < coeff_opp {
                if coeff == 1 {
                    monomial
                } else {
                    PicusExpr::Const(coeff).times(monomial)
                }
            } else if coeff_opp == 1 {
                neg_expr(monomial)
            } else {
                neg_expr(PicusExpr::Const(coeff_opp).times(monomial))
            }
        },
    }
}

/// A polynomial constraint: the sum of the terms is zero.
pub fn constraint_to_picus_constraint(constraint: &Constraint) -> (r: PicusConstraint)
    ensures
        r == polynomial_constraint(*constraint),
{
    let mut expr = PicusExpr::Const(0);
    assert(constraint.terms@.take(0) =~= Seq::empty());
    for i in 0..constraint.terms.len()
        invariant
            expr == terms_expr(constraint.terms@.take(i as int)),
    {
        expr = expr.plus(term_to_picus_expr(&constraint.terms[i]));
        assert(constraint.terms@.take(i + 1).drop_last() =~= constraint.terms@.take(i as int));
    }
    assert(constraint.terms@.take(constraint.terms.len() as int) =~= constraint.terms@);
    PicusConstraint::Eq(Box::new(expr))
}

/// A lookup input as an expression.
pub fn lookup_input_to_picus_expr(input: &LookupInput) -> (r: PicusExpr)
    ensures
        r == input_expr(*input),
{
    match input {
        LookupInput::Variable(variable) => variable_to_picus_expr(*variable),
        LookupInput::Expression { linear_terms, constant_coeff } => {
            let constant: u64 = constant_coeff.as_u64_reduced();
            let mut expr = PicusExpr::Const(constant);
            for i in 0..linear_terms.len()
                invariant
                    expr == linear_expr(constant, linear_terms@.take(i as int)),
            {
                let coeff: u64 = linear_terms[i].0.as_u64_reduced();
                let variable = linear_terms[i].1;
                expr = expr.plus(PicusExpr::Const(coeff).times(variable_to_picus_expr(variable)));
                assert(linear_terms@.take(i + 1).drop_last() =~= linear_terms@.take(i as int));
            }
            assert(linear_terms@.take(linear_terms.len() as int) =~= linear_terms@);
            expr
        },
    }
}

/// Takes the next unused variable.
pub fn fresh_picus_var_expr(next_fresh_var_id: &mut usize) -> (r: PicusExpr)
    requires
        *old(next_fresh_var_id) < usize::MAX,
    ensures
        r == PicusExpr::Var(*old(next_fresh_var_id)),
        *final(next_fresh_var_id) == *old(next_fresh_var_id) + 1,
{
    let var = PicusExpr::Var(*next_fresh_var_id);
    *next_fresh_var_id = *next_fresh_var_id + 1;
    var
}

/// Declares what the memory queries read as 16-bit inputs, and what they write as outputs
/// unless the query only loads a source register.
pub fn add_circuit_input_and_outputs(
    module: &mut PicusModule,
    ram_queries: &Vec<ShuffleRamMemQuery>,
)
    ensures
        final(module).inputs@ == old(module).inputs@ + var_exprs(read_variables(ram_queries@)),
        final(module).outputs@ == old(module).outputs@ + var_exprs(
            written_variables(ram_queries@),
        ),
        final(module).constraints@ == old(module).constraints@ + u16_constraints(
            read_variables(ram_queries@),
        ),
        final(module).name == old(module).name,
        final(module).postconditions == old(module).postconditions,
{
    let ghost queries = ram_queries@;
    assert(queries.take(0) =~= Seq::empty());
    assert(module.inputs@ =~= old(module).inputs@ + var_exprs(read_variables(queries.take(0))));
    assert(module.outputs@ =~= old(module).outputs@ + var_exprs(
        written_variables(queries.take(0)),
    ));
    assert(module.constraints@ =~= old(module).constraints@ + u16_constraints(
        read_variables(queries.take(0)),
    ));
    for i in 0..ram_queries.len()
        invariant
            queries == ram_queries@,
            module.inputs@ == old(module).inputs@ + var_exprs(
                read_variables(queries.take(i as int)),
            ),
            module.outputs@ == old(module).outputs@ + var_exprs(
                written_variables(queries.take(i as int)),
            ),
            module.constraints@ == old(module).constraints@ + u16_constraints(
                read_variables(queries.take(i as int)),
            ),
            module.name == old(module).name,
            module.postconditions == old(module).postconditions,
    {
        let query = &ram_queries[i];
        assert(queries.take(i + 1).drop_last() =~= queries.take(i as int));
        assert(queries.take(i + 1).last() == *query);
        let low = variable_to_picus_expr(query.read_value[0]);
        let high = variable_to_picus_expr(query.read_value[1]);
        module.inputs.push(low.clone());
        module.constraints.push(PicusConstraint::new_lt(low, U16_BOUND));
        module.inputs.push(high.clone());
        module.constraints.push(PicusConstraint::new_lt(high, U16_BOUND));
        if query.local_timestamp_in_cycle != RS1_LOAD_LOCAL_TIMESTAMP
            && query.local_timestamp_in_cycle != RS2_LOAD_LOCAL_TIMESTAMP {
            module.outputs.push(variable_to_picus_expr(query.write_value[0]));
            module.outputs.push(variable_to_picus_expr(query.write_value[1]));
        }
        assert(module.inputs@ =~= old(module).inputs@ + var_exprs(
            read_variables(queries.take(i + 1)),
        ));
        assert(module.outputs@ =~= old(module).outputs@ + var_exprs(
            written_variables(queries.take(i + 1)),
        ));
        assert(module.constraints@ =~= old(module).constraints@ + u16_constraints(
            read_variables(queries.take(i + 1)),
        ));
    }
    assert(queries.take(queries.len() as int) =~= queries);
}

/// Declares the machine state: decoder fields, timestamp and program counter are inputs with
/// their ranges, the next program counter is an output.
fn add_circuit_state(module: &mut PicusModule, cs: &OpcodeFamilyCircuitState)
    ensures
        final(module).inputs@ == old(module).inputs@ + var_exprs(state_inputs(*cs)),
        final(module).outputs@ == old(module).outputs@ + var_exprs(state_outputs(*cs)),
        final(module).constraints@ == old(module).constraints@ + state_constraints(*cs),
        final(module).name == old(module).name,
        final(module).postconditions == old(module).postconditions,
{
    let rd_is_zero = variable_to_picus_expr(cs.decoder_data.rd_is_zero);
    let funct3 = variable_to_picus_expr(cs.decoder_data.funct3);
    let imm_low = variable_to_picus_expr(cs.decoder_data.imm[0]);
    let imm_high = variable_to_picus_expr(cs.decoder_data.imm[1]);
    let pc_low = variable_to_picus_expr(cs.cycle_start_state.pc[0]);
    let pc_high = variable_to_picus_expr(cs.cycle_start_state.pc[1]);
    module.inputs.push(rd_is_zero.clone());
    module.inputs.push(imm_low.clone());
    module.inputs.push(imm_high.clone());
    module.inputs.push(funct3.clone());
    module.inputs.push(variable_to_picus_expr(cs.decoder_data.rs1_index));
    module.inputs.push(variable_to_picus_expr(cs.decoder_data.rs2_index));
    module.inputs.push(variable_to_picus_expr(cs.decoder_data.rd_index));
    module.constraints.push(PicusConstraint::new_lt(funct3, 8));
    match cs.decoder_data.funct7 {
        Some(funct7) => {
            let funct7 = variable_to_picus_expr(funct7);
            module.inputs.push(funct7.clone());
            module.constraints.push(PicusConstraint::new_lt(funct7, 128));
        },
        None => {},
    }
    module.inputs.push(variable_to_picus_expr(cs.cycle_start_state.timestamp[0]));
    module.inputs.push(variable_to_picus_expr(cs.cycle_start_state.timestamp[1]));
    module.outputs.push(variable_to_picus_expr(cs.cycle_end_state.pc[0]));
    module.outputs.push(variable_to_picus_expr(cs.cycle_end_state.pc[1]));
    module.inputs.push(pc_low.clone());
    module.inputs.push(pc_high.clone());
    module.constraints.push(PicusConstraint::new_bit(rd_is_zero));
    module.constraints.push(PicusConstraint::new_lt(imm_low, U16_BOUND));
    module.constraints.push(PicusConstraint::new_lt(imm_high, U16_BOUND));
    module.constraints.push(PicusConstraint::new_lt(pc_low, U16_BOUND));
    module.constraints.push(PicusConstraint::new_lt(pc_high, U16_BOUND));
    assert(module.inputs@ =~= old(module).inputs@ + var_exprs(state_inputs(*cs)));
    assert(module.outputs@ =~= old(module).outputs@ + var_exprs(state_outputs(*cs)));
    assert(module.constraints@ =~= old(module).constraints@ + state_constraints(*cs));
}

/// Adds the booleans and the range checks of a circuit.
fn add_boolean_and_range_constraints(module: &mut PicusModule, circuit_output: &CircuitOutput)
    requires
        forall|i: int|
            0 <= i < circuit_output.range_check_expressions@.len() ==> ((
            #[trigger] circuit_output.range_check_expressions@[i]).width as u32) < 64,
    ensures
        final(module).constraints@ == old(module).constraints@
            + circuit_output.boolean_vars@.map_values(|v: Variable| ir::bit(var_expr(v)))
            + circuit_output.range_check_expressions@.map_values(
            |q: RangeCheckQuery| range_constraint(q),
        ),
        final(module).name == old(module).name,
        final(module).inputs == old(module).inputs,
        final(module).outputs == old(module).outputs,
        final(module).postconditions == old(module).postconditions,
{
    let ghost bools = circuit_output.boolean_vars@;
    let ghost bit_of = |v: Variable| ir::bit(var_expr(v));
    for i in 0..circuit_output.boolean_vars.len()
        invariant
            bools == circuit_output.boolean_vars@,
            bit_of == (|v: Variable| ir::bit(var_expr(v))),
            module.constraints@ == old(module).constraints@ + bools.take(i as int).map_values(
                bit_of,
            ),
            module.name == old(module).name,
            module.inputs == old(module).inputs,
            module.outputs == old(module).outputs,
            module.postconditions == old(module).postconditions,
    {
        module.constraints.push(
            PicusConstraint::new_bit(variable_to_picus_expr(circuit_output.boolean_vars[i])),
        );
        assert(module.constraints@ =~= old(module).constraints@ + bools.take(i + 1).map_values(
            bit_of,
        ));
    }
    assert(bools.take(bools.len() as int) =~= bools);
    let ghost middle = module.constraints@;
    let ghost ranges = circuit_output.range_check_expressions@;
    let ghost range_of = |q: RangeCheckQuery| range_constraint(q);
    for i in 0..circuit_output.range_check_expressions.len()
        invariant
            ranges == circuit_output.range_check_expressions@,
            range_of == (|q: RangeCheckQuery| range_constraint(q)),
            forall|i: int|
                0 <= i < ranges.len() ==> ((#[trigger] ranges[i]).width as u32) < 64,
            module.constraints@ == middle + ranges.take(i as int).map_values(range_of),
            module.name == old(module).name,
            module.inputs == old(module).inputs,
            module.outputs == old(module).outputs,
            module.postconditions == old(module).postconditions,
    {
        let query = &circuit_output.range_check_expressions[i];
        assert(*query == ranges[i as int]);
        let bound: u64 = 1u64 << (query.width as u32);
        module.constraints.push(
            PicusConstraint::new_lt(lookup_input_to_picus_expr(&query.input), bound),
        );
        assert(module.constraints@ =~= middle + ranges.take(i + 1).map_values(range_of));
    }
    assert(ranges.take(ranges.len() as int) =~= ranges);
}

/// The module of a whole circuit, before specialization.
fn circuit_module(
    module_name: &String,
    circuit_output: &CircuitOutput,
    circuit_state: Option<&OpcodeFamilyCircuitState>,
) -> (module: PicusModule)
    requires
        circuit_output.num_of_variables + circuit_fresh(*circuit_output) <= usize::MAX,
        forall|i: int|
            0 <= i < circuit_output.range_check_expressions@.len() ==> ((
            #[trigger] circuit_output.range_check_expressions@[i]).width as u32) < 64,
    ensures
        module.name@ == module_name@,
        module.inputs@ == circuit_inputs(*circuit_output, deref_state(circuit_state)),
        module.outputs@ == circuit_outputs(*circuit_output, deref_state(circuit_state)),
        module.constraints@ == circuit_constraints(*circuit_output, deref_state(circuit_state)),
        module.postconditions@ == circuit_postconditions(*circuit_output),
{
    let mut module = PicusModule::new(module_name.clone());
    add_circuit_input_and_outputs(&mut module, &circuit_output.shuffle_ram_queries);
    let ghost io = module.constraints@;
    let ghost polys = circuit_output.constraints@;
    assert(io + polynomial_constraints(polys.take(0)) =~= io);
    for i in 0..circuit_output.constraints.len()
        invariant
            polys == circuit_output.constraints@,
            module.constraints@ == io + polynomial_constraints(polys.take(i as int)),
            module.name@ == module_name@,
            module.inputs@ == Seq::<PicusExpr>::empty() + var_exprs(
                read_variables(circuit_output.shuffle_ram_queries@),
            ),
            module.outputs@ == Seq::<PicusExpr>::empty() + var_exprs(
                written_variables(circuit_output.shuffle_ram_queries@),
            ),
            module.postconditions@ == Seq::<PicusConstraint>::empty(),
    {
        let parsed = constraint_to_picus_constraint(&circuit_output.constraints[i].0);
        module.constraints.push(parsed);
        assert(module.constraints@ =~= io + polynomial_constraints(polys.take(i + 1)));
    }
    assert(polys.take(polys.len() as int) =~= polys);
    let mut next_fresh_var_id: usize = circuit_output.num_of_variables;
    proof {
        lookups::lemma_fresh_counts_nonnegative(
            circuit_output.lookups@,
            circuit_output.picus_extraction_metadata.disjunctive_lookups@,
            circuit_output.table_ids,
        );
    }
    add_lookup_constraints(&mut module, &circuit_output.lookups, &mut next_fresh_var_id);
    add_disjunctive_lookup_constraints(
        &mut module,
        &circuit_output.picus_extraction_metadata.disjunctive_lookups,
        &circuit_output.table_ids,
        &mut next_fresh_var_id,
    );
    add_boolean_and_range_constraints(&mut module, circuit_output);
    match circuit_state {
        Some(cs) => {
            add_circuit_state(&mut module, cs);
        },
        None => {},
    }
    assert(module.inputs@ =~= circuit_inputs(*circuit_output, deref_state(circuit_state)));
    assert(module.outputs@ =~= circuit_outputs(*circuit_output, deref_state(circuit_state)));
    assert(module.constraints@ =~= circuit_constraints(
        *circuit_output,
        deref_state(circuit_state),
    ));
    assert(module.postconditions@ =~= circuit_postconditions(*circuit_output));
    module
}

/// The state behind an optional reference.
pub open spec fn deref_state(state: Option<&OpcodeFamilyCircuitState>) -> Option<
    OpcodeFamilyCircuitState,
> {
    match state {
        Some(cs) => Some(*cs),
        None => None,
    }
}

/// The module of a circuit, specialized by a binding.
pub open spec fn is_specialized_circuit(
    module: PicusModule,
    co: CircuitOutput,
    state: Option<OpcodeFamilyCircuitState>,
    env: Seq<(usize, u64)>,
) -> bool {
    &&& module.inputs@ == ir::subst_exprs(circuit_inputs(co, state), env)
    &&& module.outputs@ == ir::subst_exprs(circuit_outputs(co, state), env)
    &&& module.constraints@ == ir::subst_constraints(circuit_constraints(co, state), env)
    &&& module.postconditions@ == ir::subst_constraints(circuit_postconditions(co), env)
}

/// Whether a program holds the module of a circuit, or those that it is specialized to by decoded bits.
pub open spec fn is_program_of(
    program: PicusProgram,
    name: Seq<char>,
    co: CircuitOutput,
    state: Option<OpcodeFamilyCircuitState>,
    bits: Option<Seq<usize>>,
) -> bool {
    &&& program.prime == CHARACTERISTICS
    &&& match bits {
        None => {
            &&& program.modules@.len() == 1
            &&& program.modules@[0].name@ == name
            &&& program.modules@[0].inputs@ == circuit_inputs(co, state)
            &&& program.modules@[0].outputs@ == circuit_outputs(co, state)
            &&& program.modules@[0].constraints@ == circuit_constraints(co, state)
            &&& program.modules@[0].postconditions@ == circuit_postconditions(co)
        },
        Some(bits) => {
            &&& program.modules@.len() == specializations(bits).len()
            &&& forall|i: int|
                0 <= i < program.modules@.len() ==> {
                    &&& (#[trigger] program.modules@[i]).name@ == specialized_name(name, i)
                    &&& is_specialized_circuit(
                        program.modules@[i],
                        co,
                        state,
                        specializations(bits)[i],
                    )
                }
        },
    }
}

fn binding_for(bits: &[usize], index: usize) -> (env: Vec<(usize, u64)>)
    requires
        index < specializations(bits@).len(),
    ensures
        env@ == specializations(bits@)[index as int],
{
    let mut env: Vec<(usize, u64)> = Vec::new();
    if bits.len() == 1 {
        env.push(
            (
                bits[0],
                if index == 0 {
                    0
                } else {
                    1
                },
            ),
        );
        assert(env@ =~= specializations(bits@)[index as int]);
    } else {
        for i in 0..bits.len()
            invariant
                env@ == one_hot_binding(bits@, index as int).take(i as int),
        {
            let value: u64 = if i == index {
                1
            } else {
                0
            };
            env.push((bits[i], value));
            assert(env@ =~= one_hot_binding(bits@, index as int).take(i + 1));
        }
        assert(env@ =~= one_hot_binding(bits@, index as int));
    }
    env
}

/// The constraint program of a circuit.
///
/// Without decoded bits it holds one module. With them it holds the module specialized for
/// both values of a single bit, or for each of several bits being the one that is set.
pub fn circuit_output_to_picus_program(
    module_name: String,
    circuit_output: &CircuitOutput,
    circuit_state: Option<&OpcodeFamilyCircuitState>,
    decoded_bits: Option<&[usize]>,
) -> (program: PicusProgram)
    requires
        circuit_output.num_of_variables + circuit_fresh(*circuit_output) <= usize::MAX,
        forall|i: int|
            0 <= i < circuit_output.range_check_expressions@.len() ==> ((
            #[trigger] circuit_output.range_check_expressions@[i]).width as u32) < 64,
    ensures
        program.prime == CHARACTERISTICS,
        match decoded_bits {
            None => {
                &&& program.modules@.len() == 1
                &&& program.modules@[0].name@ == module_name@
                &&& program.modules@[0].inputs@ == circuit_inputs(
                    *circuit_output,
                    deref_state(circuit_state),
                )
                &&& program.modules@[0].outputs@ == circuit_outputs(
                    *circuit_output,
                    deref_state(circuit_state),
                )
                &&& program.modules@[0].constraints@ == circuit_constraints(
                    *circuit_output,
                    deref_state(circuit_state),
                )
                &&& program.modules@[0].postconditions@ == circuit_postconditions(*circuit_output)
            },
            Some(bits) => {
                &&& program.modules@.len() == specializations(bits@).len()
                &&& forall|i: int|
                    0 <= i < program.modules@.len() ==> {
                        &&& (#[trigger] program.modules@[i]).name@ == specialized_name(
                            module_name@,
                            i,
                        )
                        &&& is_specialized_circuit(
                            program.modules@[i],
                            *circuit_output,
                            deref_state(circuit_state),
                            specializations(bits@)[i],
                        )
                    }
            },
        },
        is_program_of(
            program,
            module_name@,
            *circuit_output,
            deref_state(circuit_state),
            match decoded_bits {
                Some(bits) => Some(bits@),
                None => None,
            },
        ),
{
    let module = circuit_module(&module_name, circuit_output, circuit_state);
    let mut modules: Vec<PicusModule> = Vec::new();
    match decoded_bits {
        None => {
            modules.push(module);
        },
        Some(bits) => {
            let count: usize = if bits.len() == 1 {
                2
            } else {
                bits.len()
            };
            for i in 0..count
                invariant
                    count == specializations(bits@).len(),
                    modules@.len() == i,
                    module.inputs@ == circuit_inputs(*circuit_output, deref_state(circuit_state)),
                    module.outputs@ == circuit_outputs(
                        *circuit_output,
                        deref_state(circuit_state),
                    ),
                    module.constraints@ == circuit_constraints(
                        *circuit_output,
                        deref_state(circuit_state),
                    ),
                    module.postconditions@ == circuit_postconditions(*circuit_output),
                    forall|j: int|
                        0 <= j < i ==> {
                            &&& (#[trigger] modules@[j]).name@ == specialized_name(
                                module_name@,
                                j,
                            )
                            &&& is_specialized_circuit(
                                modules@[j],
                                *circuit_output,
                                deref_state(circuit_state),
                                specializations(bits@)[j],
                            )
                        },
            {
                let env = binding_for(bits, i);
                let mut name = module_name.clone();
                name.append("_");
                push_decimal(&mut name, i as u64);
                let specialized = module.partial_eval(&env, name);
                modules.push(specialized);
            }
        },
    }
    PicusProgram { prime: CHARACTERISTICS, modules }
}

} // verus!
