//! Lowering of constraints into the constrain function of a struct.
use vstd::prelude::*;

use crate::circuit::Boolean;
use crate::circuit::Constraint;
use crate::circuit::LookupInput;
use crate::circuit::Mersenne31Field;
use crate::circuit::RangeCheckQuery;
use crate::circuit::Term;
use crate::circuit::Variable;
use crate::circuit::CHARACTERISTICS;
use crate::llzk::builder;
use crate::llzk::builder::LlzkError;
use crate::llzk::builder::OpsBuilder;
use crate::llzk::builder::Value;
use crate::llzk::ir;
use crate::llzk::ir::Effect;
use crate::llzk::ir::FeltBinary;
use crate::llzk::ir::FeltUnary;
use crate::llzk::ir::Sym;
use crate::llzk::ir::ValueType;
use crate::llzk::vars;
use crate::llzk::vars::ArgSlot;
use crate::llzk::vars::Reading;
use crate::llzk::vars::StructVars;

verus! {

/// What the variables of a circuit are in a constrain function.
pub struct Scope {
    pub args_map: Map<u64, ArgSlot>,
    pub members: Map<u64, (Seq<char>, Option<u64>)>,
    pub args: Seq<ValueType>,
}

/// The scope of a body with a representation of variables.
pub open spec fn scope_of(vars: StructVars, builder: OpsBuilder) -> Scope {
    Scope { args_map: vars.args_map(), members: vars.members(), args: builder.arguments() }
}

/// Whether scalar inputs have field arguments behind the struct.
pub open spec fn well_typed(sc: Scope) -> bool {
    vars::scalars_are_felts(sc.args_map, sc.args, 1)
}

/// Reading a variable, `k` effects having gone before.
pub open spec fn read(sc: Scope, var: Variable, k: nat) -> Result<Reading, LlzkError> {
    vars::required(
        vars::constrain_reading(sc.args_map, sc.members, sc.args, var, k),
        LlzkError::NotInConstrain,
    )
}

/// A term with no effect.
pub open spec fn pure(sym: Sym) -> Reading {
    Reading { sym, effects: Seq::empty() }
}

/// The product of variables, starting from one.
pub open spec fn monomial(sc: Scope, factors: Seq<Variable>, k: nat) -> Result<Reading, LlzkError>
    decreases factors.len(),
{
    if factors.len() == 0 {
        Ok(pure(ir::felt(1)))
    } else {
        match monomial(sc, factors.drop_last(), k) {
            Err(e) => Err(e),
            Ok(m) => match read(sc, factors.last(), k + m.effects.len()) {
                Err(e) => Err(e),
                Ok(v) => Ok(
                    (Reading {
                        sym: ir::felt2(FeltBinary::Mul, m.sym, v.sym),
                        effects: m.effects + v.effects,
                    }),
                ),
            },
        }
    }
}

/// A monomial with a coefficient. A coefficient past half of the characteristic is written as
/// the negation of its opposite, and a unit coefficient is left out.
pub open spec fn scaled_monomial(coeff: u64, m: Sym) -> Sym {
    let opposite = (CHARACTERISTICS - coeff) as u64;
    if coeff < opposite {
        if coeff == 1 {
            m
        } else {
            ir::felt2(FeltBinary::Mul, ir::felt(coeff), m)
        }
    } else if opposite == 1 {
        ir::felt1(FeltUnary::Neg, m)
    } else {
        ir::felt1(FeltUnary::Neg, ir::felt2(FeltBinary::Mul, ir::felt(opposite), m))
    }
}

/// A constant term. One past half of the characteristic is negated.
pub open spec fn constant_term(coeff: u64) -> Sym {
    let opposite = (CHARACTERISTICS - coeff) as u64;
    if coeff < opposite {
        ir::felt(coeff)
    } else {
        ir::felt1(FeltUnary::Neg, ir::felt(coeff))
    }
}

/// A term of a constraint.
pub open spec fn term(sc: Scope, t: Term, k: nat) -> Result<Reading, LlzkError> {
    match t {
        Term::Constant(_) => Ok(pure(constant_term(t.coefficient()))),
        Term::Expression { .. } => match monomial(sc, t.factors(), k) {
            Err(e) => Err(e),
            Ok(m) => Ok(
                (Reading {
                    sym: scaled_monomial(t.coefficient(), m.sym),
                    effects: m.effects,
                }),
            ),
        },
    }
}

/// The terms of several readings and their effects.
pub struct Readings {
    pub syms: Seq<Sym>,
    pub effects: Seq<Effect>,
}

/// The terms of a constraint.
pub open spec fn terms(sc: Scope, ts: Seq<Term>, k: nat) -> Result<Readings, LlzkError>
    decreases ts.len(),
{
    if ts.len() == 0 {
        Ok((Readings { syms: Seq::empty(), effects: Seq::empty() }))
    } else {
        match terms(sc, ts.drop_last(), k) {
            Err(e) => Err(e),
            Ok(head) => match term(sc, ts.last(), k + head.effects.len()) {
                Err(e) => Err(e),
                Ok(t) => Ok(
                    (Readings {
                        syms: head.syms.push(t.sym),
                        effects: head.effects + t.effects,
                    }),
                ),
            },
        }
    }
}

/// The effects of a constraint: its terms are read, and their sum is zero.
pub open spec fn constraint(sc: Scope, c: Constraint, k: nat) -> Result<Seq<Effect>, LlzkError> {
    match terms(sc, c.terms@, k) {
        Err(e) => Err(e),
        Ok(r) => if r.syms.len() == 0 {
            Err(LlzkError::EmptyFold)
        } else {
            Ok(
                r.effects.push(
                    Effect::ConstrainEq(builder::fold(FeltBinary::Add, r.syms), ir::felt(0)),
                ),
            )
        },
    }
}

/// A linear combination, starting from a constant.
pub open spec fn linear(
    sc: Scope,
    constant: u64,
    ts: Seq<(Mersenne31Field, Variable)>,
    k: nat,
) -> Result<Reading, LlzkError>
    decreases ts.len(),
{
    if ts.len() == 0 {
        Ok(pure(ir::felt(constant)))
    } else {
        match linear(sc, constant, ts.drop_last(), k) {
            Err(e) => Err(e),
            Ok(head) => match read(sc, ts.last().1, k + head.effects.len()) {
                Err(e) => Err(e),
                Ok(v) => Ok(
                    (Reading {
                        sym: ir::felt2(
                            FeltBinary::Add,
                            head.sym,
                            ir::felt2(FeltBinary::Mul, ir::felt(ts.last().0.reduced()), v.sym),
                        ),
                        effects: head.effects + v.effects,
                    }),
                ),
            },
        }
    }
}

/// A lookup input.
pub open spec fn input(sc: Scope, i: LookupInput, k: nat) -> Result<Reading, LlzkError> {
    match i {
        LookupInput::Variable(v) => read(sc, v, k),
        LookupInput::Expression { linear_terms, constant_coeff } => linear(
            sc,
            constant_coeff.reduced(),
            linear_terms@,
            k,
        ),
    }
}

/// A boolean as a field element.
pub open spec fn boolean(sc: Scope, b: Boolean, k: nat) -> Result<Reading, LlzkError> {
    match b {
        Boolean::Is(v) => read(sc, v, k),
        Boolean::Not(v) => match read(sc, v, k) {
            Err(e) => Err(e),
            Ok(r) => Ok(
                (Reading {
                    sym: ir::felt2(FeltBinary::Sub, ir::felt(1), r.sym),
                    effects: r.effects,
                }),
            ),
        },
        Boolean::Constant(c) => Ok(
            pure(
                ir::felt(
                    if c {
                        1
                    } else {
                        0
                    },
                ),
            ),
        ),
    }
}

/// The effects of a range check of a variable.
pub open spec fn range_check(sc: Scope, var: Variable, width: usize, k: nat) -> Result<
    Seq<Effect>,
    LlzkError,
> {
    match read(sc, var, k) {
        Err(e) => Err(e),
        Ok(r) => Ok(
            r.effects.push(
                Effect::ConstrainEq(builder::in_range(r.sym, width), ir::boolean(true)),
            ),
        ),
    }
}

/// The effects of the boolean check of a variable.
pub open spec fn boolean_check(sc: Scope, var: Variable, k: nat) -> Result<
    Seq<Effect>,
    LlzkError,
> {
    match read(sc, var, k) {
        Err(e) => Err(e),
        Ok(r) => Ok(
            r.effects.push(
                Effect::ConstrainEq(builder::boolean_product(r.sym), ir::felt(0)),
            ),
        ),
    }
}

/// Whether a body was continued by expected effects, or failed with the expected error.
pub open spec fn has_effects(
    before: OpsBuilder,
    after: OpsBuilder,
    r: Result<(), LlzkError>,
    expected: Result<Seq<Effect>, LlzkError>,
) -> bool {
    &&& after.continues(before)
    &&& match (r, expected) {
        (Ok(_), Ok(es)) => after.effects() == before.effects() + es,
        (Err(e), Err(expected_error)) => e == expected_error,
        _ => false,
    }
}

/// Lowers a variable.
fn read_variable(var: &Variable, builder: &mut OpsBuilder, vars: &StructVars) -> (r: Result<
    Value,
    LlzkError,
>)
    requires
        well_typed(scope_of(*vars, *old(builder))),
    ensures
        vars::is_required_reading(
            *old(builder),
            *final(builder),
            r,
            read(scope_of(*vars, *old(builder)), *var, old(builder).effects().len()),
        ),
        r matches Ok(v) ==> v.ty == ValueType::Felt,
{
    vars.get_constrain_val(builder, var)
}

impl Term {
    /// Lowers the term to the value that it adds to its constraint.
    pub fn emit_constrain(&self, builder: &mut OpsBuilder, vars: &StructVars) -> (r: Result<
        Value,
        LlzkError,
    >)
        requires
            well_typed(scope_of(*vars, *old(builder))),
        ensures
            vars::is_required_reading(
                *old(builder),
                *final(builder),
                r,
                term(scope_of(*vars, *old(builder)), *self, old(builder).effects().len()),
            ),
            r matches Ok(v) ==> v.ty == ValueType::Felt,
    {
        let ghost sc = scope_of(*vars, *builder);
        let ghost start = builder.effects();
        match self {
            Term::Constant(c) => {
                let coeff: u64 = c.as_u64_reduced();
                let coeff_opp: u64 = CHARACTERISTICS - coeff;
                let coeff_val = builder.get_felt_constant_from_start(coeff);
                assert(start =~= start + Seq::<Effect>::empty());
                if coeff < coeff_opp {
                    Ok(coeff_val)
                } else {
                    Ok(builder.append_felt_unary(FeltUnary::Neg, coeff_val))
                }
            },
            Term::Expression { coeff, inner, degree } => {
                let coeff: u64 = coeff.as_u64_reduced();
                let coeff_opp: u64 = CHARACTERISTICS - coeff;
                let count: usize = if *degree < 4 {
                    *degree
                } else {
                    4
                };
                let mut monomial_value = builder.get_felt_constant_from_start(1);
                let ghost factors = self.factors();
                assert(factors.take(0) =~= Seq::empty());
                assert(start =~= start + Seq::<Effect>::empty());
                assert(factors =~= inner@.take(count as int));
                let mut i: usize = 0;
                while i < count
                    invariant
                        count <= 4,
                        i <= count,
                        factors == inner@.take(count as int),
                        factors == self.factors(),
                        sc == scope_of(*vars, *old(builder)),
                        start == old(builder).effects(),
                        well_typed(sc),
                        builder.continues(*old(builder)),
                        builder.has(monomial_value),
                        monomial_value.ty == ValueType::Felt,
                        monomial(sc, factors.take(i as int), start.len()) is Ok,
                        monomial_value.sym@ == monomial(
                            sc,
                            factors.take(i as int),
                            start.len(),
                        )->Ok_0.sym,
                        builder.effects() == start + monomial(
                            sc,
                            factors.take(i as int),
                            start.len(),
                        )->Ok_0.effects,
                    decreases count - i,
                {
                    let ghost m = monomial(sc, factors.take(i as int), start.len())->Ok_0;
                    assert(factors.take(i + 1).drop_last() =~= factors.take(i as int));
                    assert(factors.take(i + 1).last() == inner[i as int]);
                    proof {
                        lemma_monomial_error(sc, factors, i + 1, start.len());
                    }
                    let var_val = read_variable(&inner[i], builder, vars)?;
                    let ghost v = read(sc, inner[i as int], start.len() + m.effects.len())->Ok_0;
                    monomial_value = builder.append_felt_binary(
                        FeltBinary::Mul,
                        monomial_value,
                        var_val,
                    );
                    assert(builder.effects() =~= start + (m.effects + v.effects));
                    i = i + 1;
                }
                assert(factors.take(count as int) =~= factors);

                if coeff < coeff_opp {
                    if coeff == 1 {
                        Ok(monomial_value)
                    } else {
                        let coeff_val = builder.get_felt_constant_from_start(coeff);
                        Ok(builder.append_felt_binary(FeltBinary::Mul, coeff_val, monomial_value))
                    }
                } else if coeff_opp == 1 {
                    Ok(builder.append_felt_unary(FeltUnary::Neg, monomial_value))
                } else {
                    let coeff_opp_val = builder.get_felt_constant_from_start(coeff_opp);
                    let product = builder.append_felt_binary(
                        FeltBinary::Mul,
                        coeff_opp_val,
                        monomial_value,
                    );
                    Ok(builder.append_felt_unary(FeltUnary::Neg, product))
                }
            },
        }
    }
}

/// A failing prefix of a monomial makes the monomial fail in the same way.
proof fn lemma_monomial_error(sc: Scope, factors: Seq<Variable>, i: int, k: nat)
    requires
        0 <= i <= factors.len(),
    ensures
        monomial(sc, factors.take(i), k) matches Err(e) ==> monomial(sc, factors, k) == Err::<
            Reading,
            LlzkError,
        >(e),
    decreases factors.len(),
{
    if i == factors.len() {
        assert(factors.take(i) =~= factors);
    } else {
        assert(factors.drop_last().take(i) =~= factors.take(i));
        lemma_monomial_error(sc, factors.drop_last(), i, k);
    }
}

proof fn lemma_terms_error(sc: Scope, ts: Seq<Term>, i: int, k: nat)
    requires
        0 <= i <= ts.len(),
    ensures
        terms(sc, ts.take(i), k) matches Err(e) ==> terms(sc, ts, k) == Err::<
            Readings,
            LlzkError,
        >(e),
    decreases ts.len(),
{
    if i == ts.len() {
        assert(ts.take(i) =~= ts);
    } else {
        assert(ts.drop_last().take(i) =~= ts.take(i));
        lemma_terms_error(sc, ts.drop_last(), i, k);
    }
}

proof fn lemma_linear_error(
    sc: Scope,
    constant: u64,
    ts: Seq<(Mersenne31Field, Variable)>,
    i: int,
    k: nat,
)
    requires
        0 <= i <= ts.len(),
    ensures
        linear(sc, constant, ts.take(i), k) matches Err(e) ==> linear(sc, constant, ts, k)
            == Err::<Reading, LlzkError>(e),
    decreases ts.len(),
{
    if i == ts.len() {
        assert(ts.take(i) =~= ts);
    } else {
        assert(ts.drop_last().take(i) =~= ts.take(i));
        lemma_linear_error(sc, constant, ts.drop_last(), i, k);
    }
}

impl Constraint {
    /// Lowers the constraint that the sum of the terms is zero.
    pub fn emit_constrain(&self, builder: &mut OpsBuilder, vars: &StructVars) -> (r: Result<
        (),
        LlzkError,
    >)
        requires
            well_typed(scope_of(*vars, *old(builder))),
        ensures
            has_effects(
                *old(builder),
                *final(builder),
                r,
                constraint(scope_of(*vars, *old(builder)), *self, old(builder).effects().len()),
            ),
    {
        let ghost sc = scope_of(*vars, *builder);
        let ghost start = builder.effects();
        let ghost ts = self.terms@;
        let zero = builder.get_felt_constant_from_start(0);
        let mut values: Vec<Value> = Vec::new();
        assert(ts.take(0) =~= Seq::empty());
        assert(start =~= start + Seq::<Effect>::empty());
        let mut i: usize = 0;
        while i < self.terms.len()
            invariant
                i <= ts.len(),
                ts == self.terms@,
                sc == scope_of(*vars, *old(builder)),
                start == old(builder).effects(),
                well_typed(sc),
                builder.continues(*old(builder)),
                builder.has(zero),
                zero.sym@ == ir::felt(0),
                builder.has_all(values@),
                values@.len() == i,
                forall|j: int| 0 <= j < i ==> (#[trigger] values@[j]).ty == ValueType::Felt,
                terms(sc, ts.take(i as int), start.len()) is Ok,
                builder::syms(values@) == terms(sc, ts.take(i as int), start.len())->Ok_0.syms,
                builder.effects() == start + terms(
                    sc,
                    ts.take(i as int),
                    start.len(),
                )->Ok_0.effects,
            decreases ts.len() - i,
        {
            let ghost head = terms(sc, ts.take(i as int), start.len())->Ok_0;
            let ghost before = *builder;
            assert(ts.take(i + 1).drop_last() =~= ts.take(i as int));
            assert(ts.take(i + 1).last() == ts[i as int]);
            proof {
                lemma_terms_error(sc, ts, i + 1, start.len());
            }
            let value = self.terms[i].emit_constrain(builder, vars)?;
            let ghost t = term(sc, ts[i as int], start.len() + head.effects.len())->Ok_0;
            let ghost earlier = values@;
            values.push(value);
            assert(builder::syms(values@) =~= head.syms.push(t.sym)) by {
                assert(builder::syms(values@) =~= builder::syms(earlier).push(value.sym@));
            }
            assert(builder.effects() =~= start + (head.effects + t.effects));
            assert forall|j: int| 0 <= j < values@.len() implies builder.has(
                #[trigger] values@[j],
            ) by {
                if j < i {
                    assert(before.has(earlier[j]));
                }
            }
            i = i + 1;
        }
        assert(ts.take(ts.len() as int) =~= ts);
        assert(builder::syms(values@).len() == values@.len());
        let ghost gathered = builder.effects();
        let sum = builder.append_sum(&values)?;
        builder.append_constrain_eq(sum, zero);
        assert(builder.effects() =~= start + constraint(sc, *self, start.len())->Ok_0);
        Ok(())
    }
}

impl LookupInput {
    /// Lowers the input to its value.
    pub fn emit_constrain(&self, builder: &mut OpsBuilder, vars: &StructVars) -> (r: Result<
        Value,
        LlzkError,
    >)
        requires
            well_typed(scope_of(*vars, *old(builder))),
        ensures
            vars::is_required_reading(
                *old(builder),
                *final(builder),
                r,
                input(scope_of(*vars, *old(builder)), *self, old(builder).effects().len()),
            ),
            r matches Ok(v) ==> v.ty == ValueType::Felt,
    {
        let ghost sc = scope_of(*vars, *builder);
        let ghost start = builder.effects();
        match self {
            LookupInput::Variable(var) => read_variable(var, builder, vars),
            LookupInput::Expression { linear_terms, constant_coeff } => {
                let constant: u64 = constant_coeff.as_u64_reduced();
                let mut acc = builder.get_felt_constant_from_start(constant);
                let ghost ts = linear_terms@;
                assert(ts.take(0) =~= Seq::empty());
                assert(start =~= start + Seq::<Effect>::empty());
                let mut i: usize = 0;
                while i < linear_terms.len()
                    invariant
                        i <= ts.len(),
                        ts == linear_terms@,
                        sc == scope_of(*vars, *old(builder)),
                        start == old(builder).effects(),
                        well_typed(sc),
                        input(sc, *self, start.len()) == linear(sc, constant, ts, start.len()),
                        builder.continues(*old(builder)),
                        builder.has(acc),
                        acc.ty == ValueType::Felt,
                        linear(sc, constant, ts.take(i as int), start.len()) is Ok,
                        acc.sym@ == linear(
                            sc,
                            constant,
                            ts.take(i as int),
                            start.len(),
                        )->Ok_0.sym,
                        builder.effects() == start + linear(
                            sc,
                            constant,
                            ts.take(i as int),
                            start.len(),
                        )->Ok_0.effects,
                    decreases ts.len() - i,
                {
                    let ghost head = linear(sc, constant, ts.take(i as int), start.len())->Ok_0;
                    assert(ts.take(i + 1).drop_last() =~= ts.take(i as int));
                    assert(ts.take(i + 1).last() == ts[i as int]);
                    proof {
                        lemma_linear_error(sc, constant, ts, i + 1, start.len());
                    }
                    let coeff: u64 = linear_terms[i].0.as_u64_reduced();
                    let var = linear_terms[i].1;
                    let coeff_val = builder.get_felt_constant_from_start(coeff);
                    let var_val = read_variable(&var, builder, vars)?;
                    let ghost v = read(sc, var, start.len() + head.effects.len())->Ok_0;
                    let product = builder.append_felt_binary(FeltBinary::Mul, coeff_val, var_val);
                    acc = builder.append_felt_binary(FeltBinary::Add, acc, product);
                    assert(builder.effects() =~= start + (head.effects + v.effects));
                    i = i + 1;
                }
                assert(ts.take(ts.len() as int) =~= ts);
                Ok(acc)
            },
        }
    }
}

impl Boolean {
    /// Lowers the boolean to a field element.
    pub fn emit_constrain(&self, builder: &mut OpsBuilder, vars: &StructVars) -> (r: Result<
        Value,
        LlzkError,
    >)
        requires
            well_typed(scope_of(*vars, *old(builder))),
        ensures
            vars::is_required_reading(
                *old(builder),
                *final(builder),
                r,
                boolean(scope_of(*vars, *old(builder)), *self, old(builder).effects().len()),
            ),
            r matches Ok(v) ==> v.ty == ValueType::Felt,
    {
        match self {
            Boolean::Is(variable) => read_variable(variable, builder, vars),
            Boolean::Not(variable) => {
                let one = builder.get_felt_constant_from_start(1);
                let value = read_variable(variable, builder, vars)?;
                Ok(builder.append_felt_binary(FeltBinary::Sub, one, value))
            },
            Boolean::Constant(c) => {
                assert(builder.effects() =~= builder.effects() + Seq::<Effect>::empty());
                Ok(
                    builder.get_felt_constant_from_start(
                        if *c {
                            1
                        } else {
                            0
                        },
                    ),
                )
            },
        }
    }
}

impl RangeCheckQuery {
    /// Lowers the range check of a variable.
    pub fn emit_constrain(&self, builder: &mut OpsBuilder, vars: &StructVars) -> (r: Result<
        (),
        LlzkError,
    >)
        requires
            well_typed(scope_of(*vars, *old(builder))),
            self.input is Variable,
            self.width < 64,
        ensures
            has_effects(
                *old(builder),
                *final(builder),
                r,
                range_check(
                    scope_of(*vars, *old(builder)),
                    self.input->Variable_0,
                    self.width,
                    old(builder).effects().len(),
                ),
            ),
    {
        let ghost start = builder.effects();
        match &self.input {
            LookupInput::Variable(variable) => {
                let val = read_variable(variable, builder, vars)?;
                builder.append_range_constraint(val, self.width);
                assert(builder.effects() =~= start + range_check(
                    scope_of(*vars, *old(builder)),
                    *variable,
                    self.width,
                    start.len(),
                )->Ok_0);
                Ok(())
            },
            LookupInput::Expression { .. } => Ok(()),
        }
    }
}

/// Lowers the constraint that a variable is zero or one.
pub fn emit_boolean_variable(var: &Variable, builder: &mut OpsBuilder, vars: &StructVars) -> (r:
    Result<(), LlzkError>)
    requires
        well_typed(scope_of(*vars, *old(builder))),
    ensures
        has_effects(
            *old(builder),
            *final(builder),
            r,
            boolean_check(scope_of(*vars, *old(builder)), *var, old(builder).effects().len()),
        ),
{
    let ghost start = builder.effects();
    let val = read_variable(var, builder, vars)?;
    builder.append_boolean_constraint(val);
    assert(builder.effects() =~= start + boolean_check(
        scope_of(*vars, *old(builder)),
        *var,
        start.len(),
    )->Ok_0);
    Ok(())
}

} // verus!
