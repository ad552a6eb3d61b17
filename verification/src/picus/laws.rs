//! What the translated constraints mean.
use vstd::prelude::*;

use crate::circuit::Constraint;
use crate::circuit::LookupInput;
use crate::circuit::Mersenne31Field;
use crate::circuit::Term;
use crate::circuit::Variable;
use crate::circuit::CHARACTERISTICS;
use crate::picus::ir;
use crate::picus::ir::PicusConstraint;
use crate::picus::ir::PicusExpr;
use crate::picus::lookups;
use crate::picus::translate;
use crate::primality;
use crate::tables;
use crate::text;

verus! {

/// The characteristic as an integer.
pub open spec fn p() -> int {
    CHARACTERISTICS as int
}

/// The product of the values of variables.
pub open spec fn monomial_value(factors: Seq<Variable>, rho: spec_fn(usize) -> int) -> int
    decreases factors.len(),
{
    if factors.len() == 0 {
        1
    } else {
        monomial_value(factors.drop_last(), rho) * rho(factors.last().0 as usize)
    }
}

/// The value of a term: its coefficient times its monomial.
pub open spec fn term_value(term: Term, rho: spec_fn(usize) -> int) -> int {
    term.coefficient() * monomial_value(term.factors(), rho)
}

/// The value of a polynomial.
pub open spec fn polynomial_value(terms: Seq<Term>, rho: spec_fn(usize) -> int) -> int
    decreases terms.len(),
{
    if terms.len() == 0 {
        0
    } else {
        polynomial_value(terms.drop_last(), rho) + term_value(terms.last(), rho)
    }
}

/// The value of a linear combination.
pub open spec fn linear_value(
    constant: int,
    terms: Seq<(Mersenne31Field, Variable)>,
    rho: spec_fn(usize) -> int,
) -> int
    decreases terms.len(),
{
    if terms.len() == 0 {
        constant
    } else {
        linear_value(constant, terms.drop_last(), rho) + terms.last().0.reduced() * rho(
            terms.last().1.0 as usize,
        )
    }
}

/// The value of a lookup input.
pub open spec fn input_value(input: LookupInput, rho: spec_fn(usize) -> int) -> int {
    match input {
        LookupInput::Variable(v) => rho(v.0 as usize),
        LookupInput::Expression { linear_terms, constant_coeff } => linear_value(
            constant_coeff.reduced() as int,
            linear_terms@,
            rho,
        ),
    }
}

/// Every value of an expression is a canonical field element.
pub proof fn expressions_have_canonical_values(e: PicusExpr, rho: spec_fn(usize) -> int)
    ensures
        0 <= e.eval(rho) < p(),
{
    reveal(PicusExpr::eval);
}

/// A number stands for its residue, a variable for the residue of its value.
pub proof fn leaves_have_their_residues(c: u64, v: usize, rho: spec_fn(usize) -> int)
    ensures
        PicusExpr::Const(c).eval(rho) == c as int % p(),
        PicusExpr::Var(v).eval(rho) == rho(v) % p(),
{
    reveal(PicusExpr::eval);
}

/// Sums, differences and products are those of the field.
pub proof fn operators_are_those_of_the_field(
    a: PicusExpr,
    b: PicusExpr,
    rho: spec_fn(usize) -> int,
)
    ensures
        ir::sum(a, b).eval(rho) == (a.eval(rho) + b.eval(rho)) % p(),
        ir::difference(a, b).eval(rho) == (a.eval(rho) - b.eval(rho)) % p(),
        ir::product(a, b).eval(rho) == (a.eval(rho) * b.eval(rho)) % p(),
        0 <= a.eval(rho) < p(),
        0 <= b.eval(rho) < p(),
{
    expressions_have_canonical_values(a, rho);
    expressions_have_canonical_values(b, rho);
    reveal_with_fuel(PicusExpr::eval, 2);
}

proof fn lemma_product_expr(factors: Seq<Variable>, rho: spec_fn(usize) -> int)
    ensures
        translate::product_expr(factors).eval(rho) == monomial_value(factors, rho) % p(),
    decreases factors.len(),
{
    reveal_with_fuel(PicusExpr::eval, 2);
    if factors.len() > 0 {
        let head = factors.drop_last();
        lemma_product_expr(head, rho);
        let v = rho(factors.last().0 as usize);
        let e = translate::product_expr(factors);
        assert(e.eval(rho) == (translate::product_expr(head).eval(rho) * translate::var_expr(
            factors.last(),
        ).eval(rho)) % p());
        vstd::arithmetic::div_mod::lemma_mul_mod_noop(monomial_value(head, rho), v, p());
    }
}

proof fn lemma_opposite(coeff: int, m: int)
    ensures
        (0 - ((p() - coeff) * m) % p()) % p() == (coeff * m) % p(),
{
    let w = (p() - coeff) * m;
    vstd::arithmetic::div_mod::lemma_sub_mod_noop_right(0, w, p());
    assert(0 - w == p() * (0 - m) + coeff * m) by (nonlinear_arith)
        requires
            w == (p() - coeff) * m,
    {
    }
    vstd::arithmetic::div_mod::lemma_mod_multiples_vanish(0 - m, coeff * m, p());
}

/// A translated term has the value of the term: writing a large coefficient as the negation of
/// its opposite, and leaving out a unit coefficient, changes nothing.
pub proof fn terms_keep_their_value(term: Term, rho: spec_fn(usize) -> int)
    ensures
        translate::term_expr(term).eval(rho) == term_value(term, rho) % p(),
{
    reveal_with_fuel(PicusExpr::eval, 4);
    let coeff = term.coefficient() as int;
    let opposite = p() - coeff;
    let factors = term.factors();
    let m = monomial_value(factors, rho);
    let monomial = translate::product_expr(factors);
    lemma_product_expr(factors, rho);
    lemma_opposite(coeff, m);
    match term {
        Term::Constant(c) => {
            assert(m == 1);
            assert(term_value(term, rho) == coeff);
            assert(opposite * m == opposite);
        },
        Term::Expression { .. } => {
            vstd::arithmetic::div_mod::lemma_mul_mod_noop_right(coeff, m, p());
            vstd::arithmetic::div_mod::lemma_mul_mod_noop_right(opposite, m, p());
            if coeff < opposite {
                if coeff == 1 {
                    assert(coeff * m == m) by (nonlinear_arith)
                        requires
                            coeff == 1,
                    {
                    }
                } else {
                    let scaled = ir::product(PicusExpr::Const(coeff as u64), monomial);
                    assert(PicusExpr::Const(coeff as u64).eval(rho) == coeff) by {
                        vstd::arithmetic::div_mod::lemma_small_mod(coeff as nat, p() as nat);
                    }
                    assert(scaled.eval(rho) == (coeff * monomial.eval(rho)) % p());
                }
            } else if opposite == 1 {
                assert(opposite * m == m) by (nonlinear_arith)
                    requires
                        opposite == 1,
                {
                }
                assert(translate::negated(monomial).eval(rho) == (0 - monomial.eval(rho)) % p());
            } else {
                let scaled = ir::product(PicusExpr::Const(opposite as u64), monomial);
                vstd::arithmetic::div_mod::lemma_small_mod(opposite as nat, p() as nat);
                assert(scaled.eval(rho) == (opposite * monomial.eval(rho)) % p());
                assert(translate::negated(scaled).eval(rho) == (0 - scaled.eval(rho)) % p());
            }
        },
    }
}

proof fn lemma_terms_expr(terms: Seq<Term>, rho: spec_fn(usize) -> int)
    ensures
        translate::terms_expr(terms).eval(rho) == polynomial_value(terms, rho) % p(),
    decreases terms.len(),
{
    reveal_with_fuel(PicusExpr::eval, 2);
    if terms.len() > 0 {
        lemma_terms_expr(terms.drop_last(), rho);
        terms_keep_their_value(terms.last(), rho);
        let head = translate::terms_expr(terms.drop_last());
        let last = translate::term_expr(terms.last());
        assert(translate::terms_expr(terms).eval(rho) == (head.eval(rho) + last.eval(rho)) % p());
        vstd::arithmetic::div_mod::lemma_add_mod_noop(
            polynomial_value(terms.drop_last(), rho),
            term_value(terms.last(), rho),
            p(),
        );
    }
}

/// A translated constraint holds exactly where the polynomial vanishes in the field.
pub proof fn constraints_hold_where_the_polynomial_vanishes(
    constraint: Constraint,
    rho: spec_fn(usize) -> int,
    other: spec_fn(usize) -> int,
)
    ensures
        translate::polynomial_constraint(constraint).holds(rho, other) <==> polynomial_value(
            constraint.terms@,
            rho,
        ) % p() == 0,
{
    lemma_terms_expr(constraint.terms@, rho);
}

proof fn lemma_linear_expr(
    constant: u64,
    terms: Seq<(Mersenne31Field, Variable)>,
    rho: spec_fn(usize) -> int,
)
    ensures
        translate::linear_expr(constant, terms).eval(rho) == linear_value(
            constant as int,
            terms,
            rho,
        ) % p(),
    decreases terms.len(),
{
    reveal_with_fuel(PicusExpr::eval, 2);
    if terms.len() > 0 {
        let head = terms.drop_last();
        lemma_linear_expr(constant, head, rho);
        let c = terms.last().0.reduced();
        let v = rho(terms.last().1.0 as usize);
        let scaled = ir::product(PicusExpr::Const(c), translate::var_expr(terms.last().1));
        vstd::arithmetic::div_mod::lemma_mul_mod_noop(c as int, v, p());
        assert(scaled.eval(rho) == (PicusExpr::Const(c).eval(rho) * translate::var_expr(
            terms.last().1,
        ).eval(rho)) % p());
        vstd::arithmetic::div_mod::lemma_add_mod_noop(
            linear_value(constant as int, head, rho),
            c * v,
            p(),
        );
        assert(translate::linear_expr(constant, terms).eval(rho) == (translate::linear_expr(
            constant,
            head,
        ).eval(rho) + scaled.eval(rho)) % p());
    }
}

/// A translated lookup input has the value of the input.
pub proof fn lookup_inputs_keep_their_value(input: LookupInput, rho: spec_fn(usize) -> int)
    ensures
        translate::input_expr(input).eval(rho) == input_value(input, rho) % p(),
{
    reveal_with_fuel(PicusExpr::eval, 2);
    match input {
        LookupInput::Variable(v) => {},
        LookupInput::Expression { linear_terms, constant_coeff } => {
            lemma_linear_expr(constant_coeff.reduced(), linear_terms@, rho);
        },
    }
}

/// Specializing an expression is evaluating it with the bound variables fixed.
pub proof fn specialized_expressions_fix_the_bound_variables(
    e: PicusExpr,
    env: Seq<(usize, u64)>,
    rho: spec_fn(usize) -> int,
)
    ensures
        e.subst(env).eval(rho) == e.eval(ir::overridden(rho, env)),
    decreases e,
{
    reveal_with_fuel(PicusExpr::eval, 2);
    match e {
        PicusExpr::Const(_) => {},
        PicusExpr::Var(_) => {},
        PicusExpr::Add(a, b) | PicusExpr::Sub(a, b) | PicusExpr::Mul(a, b) => {
            specialized_expressions_fix_the_bound_variables(*a, env, rho);
            specialized_expressions_fix_the_bound_variables(*b, env, rho);
        },
    }
}

/// A specialized constraint holds exactly where the constraint holds with the bound variables
/// fixed.
pub proof fn specialized_constraints_fix_the_bound_variables(
    c: PicusConstraint,
    env: Seq<(usize, u64)>,
    rho: spec_fn(usize) -> int,
    other: spec_fn(usize) -> int,
)
    ensures
        c.subst(env).holds(rho, other) <==> c.holds(
            ir::overridden(rho, env),
            ir::overridden(other, env),
        ),
    decreases c,
{
    match c {
        PicusConstraint::Lt(a, b) | PicusConstraint::Leq(a, b) => {
            specialized_expressions_fix_the_bound_variables(*a, env, rho);
            specialized_expressions_fix_the_bound_variables(*b, env, rho);
        },
        PicusConstraint::Eq(e) => {
            specialized_expressions_fix_the_bound_variables(*e, env, rho);
        },
        PicusConstraint::Det(e) => {
            specialized_expressions_fix_the_bound_variables(*e, env, rho);
            specialized_expressions_fix_the_bound_variables(*e, env, other);
        },
        PicusConstraint::And(a, b) | PicusConstraint::Implies(a, b) => {
            specialized_constraints_fix_the_bound_variables(*a, env, rho, other);
            specialized_constraints_fix_the_bound_variables(*b, env, rho, other);
        },
    }
}

/// A one-hot specialization sets its own bit and clears every other decoded bit.
pub proof fn one_hot_bindings_set_one_bit(bits: Seq<usize>, active: int, i: int)
    requires
        0 <= active < bits.len(),
        0 <= i < bits.len(),
        forall|a: int, b: int| 0 <= a < b < bits.len() ==> bits[a] != bits[b],
    ensures
        ir::bound_value(translate::one_hot_binding(bits, active), bits[i]) == Some(
            if i == active {
                1u64
            } else {
                0u64
            },
        ),
{
    lemma_bound_value(translate::one_hot_binding(bits, active), i);
}

proof fn lemma_bound_value(env: Seq<(usize, u64)>, i: int)
    requires
        0 <= i < env.len(),
        forall|a: int, b: int| 0 <= a < b < env.len() ==> env[a].0 != env[b].0,
    ensures
        ir::bound_value(env, env[i].0) == Some(env[i].1),
    decreases env.len(),
{
    if i < env.len() - 1 {
        lemma_bound_value(env.drop_last(), i);
    }
}

/// Specialized modules of one circuit have different names.
pub proof fn specialized_names_differ(name: Seq<char>, i: int, j: int)
    requires
        0 <= i,
        0 <= j,
        i != j,
    ensures
        translate::specialized_name(name, i) != translate::specialized_name(name, j),
{
    let head = name + "_"@;
    let a = translate::specialized_name(name, i);
    let b = translate::specialized_name(name, j);
    if a == b {
        assert(a.skip(head.len() as int) =~= text::decimal(i as nat));
        assert(b.skip(head.len() as int) =~= text::decimal(j as nat));
        text::decimal_is_injective(i as nat, j as nat);
    }
}

/// A bit constraint holds exactly for the values zero and one.
pub proof fn bits_are_zero_or_one(
    e: PicusExpr,
    rho: spec_fn(usize) -> int,
    other: spec_fn(usize) -> int,
)
    ensures
        ir::bit(e).holds(rho, other) <==> (e.eval(rho) == 0 || e.eval(rho) == 1),
{
    reveal_with_fuel(PicusExpr::eval, 3);
    let x = e.eval(rho);
    let shifted = ir::difference(e, PicusExpr::Const(1));
    let y = shifted.eval(rho);
    assert(y == (x - 1) % p());
    let prod = ir::product(e, shifted);
    assert(prod.eval(rho) == (x * y) % p());
    if (x * y) % p() == 0 {
        primality::product_vanishes(x, y);
        if x != 0 && x != 1 {
            vstd::arithmetic::div_mod::lemma_small_mod(x as nat, p() as nat);
            vstd::arithmetic::div_mod::lemma_small_mod((x - 1) as nat, p() as nat);
            assert(false);
        }
    }
    if x == 0 || x == 1 {
        assert(x * y == 0) by (nonlinear_arith)
            requires
                x == 0 || x == 1,
                y == (x - 1) % p(),
        {
        }
    }
}

/// An equality constraint holds exactly for equal values.
pub proof fn equalities_compare_values(
    a: PicusExpr,
    b: PicusExpr,
    rho: spec_fn(usize) -> int,
    other: spec_fn(usize) -> int,
)
    ensures
        ir::equal(a, b).holds(rho, other) <==> a.eval(rho) == b.eval(rho),
{
    reveal_with_fuel(PicusExpr::eval, 2);
    let d = ir::difference(a, b);
    assert(d.eval(rho) == (a.eval(rho) - b.eval(rho)) % p());
}

proof fn lemma_scaled(c: u64, e: PicusExpr, rho: spec_fn(usize) -> int)
    requires
        c < CHARACTERISTICS,
    ensures
        ir::product(lookups::lit(c), e).eval(rho) == (c as int * e.eval(rho)) % p(),
        0 <= e.eval(rho) < p(),
{
    operators_are_those_of_the_field(lookups::lit(c), e, rho);
    leaves_have_their_residues(c, 0, rho);
    lemma_small(c as int);
}

proof fn lemma_masked(a: PicusExpr, b: PicusExpr, rho: spec_fn(usize) -> int)
    requires
        a.eval(rho) == 0 || a.eval(rho) == 1,
    ensures
        ir::product(a, b).eval(rho) == (if a.eval(rho) == 0 {
            0
        } else {
            b.eval(rho)
        }),
{
    operators_are_those_of_the_field(a, b, rho);
    let x = a.eval(rho);
    let y = b.eval(rho);
    assert(x * y == (if x == 0 {
        0
    } else {
        y
    })) by (nonlinear_arith)
        requires
            x == 0 || x == 1,
    {
    }
    lemma_small(0);
    lemma_small(y);
}

/// A bound constraint compares the value with the bound.
pub proof fn bounds_compare_values(
    a: PicusExpr,
    bound: u64,
    rho: spec_fn(usize) -> int,
    other: spec_fn(usize) -> int,
)
    requires
        bound < CHARACTERISTICS,
    ensures
        ir::below_const(a, bound).holds(rho, other) <==> a.eval(rho) < bound,
{
    leaves_have_their_residues(bound, 0, rho);
    lemma_small(bound as int);
}

/// All constraints of a list hold.
pub open spec fn all_hold(
    cs: Seq<PicusConstraint>,
    rho: spec_fn(usize) -> int,
    other: spec_fn(usize) -> int,
) -> bool {
    forall|i: int| 0 <= i < cs.len() ==> (#[trigger] cs[i]).holds(rho, other)
}

/// Two assignments agree on the variables below `n`.
pub open spec fn agree_below(
    rho: spec_fn(usize) -> int,
    rho2: spec_fn(usize) -> int,
    n: int,
) -> bool {
    forall|v: usize| v < n ==> #[trigger] rho2(v) == rho(v)
}

/// Some choice of the variables from `n` on satisfies the constraints.
pub open spec fn satisfiable(
    cs: Seq<PicusConstraint>,
    n: int,
    rho: spec_fn(usize) -> int,
    other: spec_fn(usize) -> int,
) -> bool {
    exists|rho2: spec_fn(usize) -> int| #[trigger]
        agree_below(rho, rho2, n) && all_hold(cs, rho2, other)
}

pub(crate) proof fn lemma_eval_agrees(
    e: PicusExpr,
    rho: spec_fn(usize) -> int,
    rho2: spec_fn(usize) -> int,
    n: int,
)
    requires
        agree_below(rho, rho2, n),
        e.vars_below(n),
    ensures
        e.eval(rho2) == e.eval(rho),
    decreases e,
{
    reveal_with_fuel(PicusExpr::eval, 2);
    match e {
        PicusExpr::Const(_) => {},
        PicusExpr::Var(v) => {
            assert(rho2(v) == rho(v));
        },
        PicusExpr::Add(a, b) | PicusExpr::Sub(a, b) | PicusExpr::Mul(a, b) => {
            lemma_eval_agrees(*a, rho, rho2, n);
            lemma_eval_agrees(*b, rho, rho2, n);
        },
    }
}

proof fn lemma_small(x: int)
    requires
        0 <= x < p(),
    ensures
        x % p() == x,
{
    vstd::arithmetic::div_mod::lemma_small_mod(x as nat, p() as nat);
}

proof fn lemma_jump_cleanup_sound(
    a: PicusExpr,
    bit_1: PicusExpr,
    cleaned: PicusExpr,
    n: int,
    rho: spec_fn(usize) -> int,
    other: spec_fn(usize) -> int,
)
    requires
        all_hold(lookups::jump_cleanup_constraints(a, bit_1, cleaned, n), rho, other),
    ensures
        a.eval(rho) < 0x1_0000,
        (bit_1.eval(rho), cleaned.eval(rho)) == tables::jump_cleanup(a.eval(rho)),
{
    let cs = lookups::jump_cleanup_constraints(a, bit_1, cleaned, n);
    let bit_0 = lookups::fresh(n, 0);
    let k = lookups::fresh(n, 1);
    assert(cs[0].holds(rho, other));
    assert(cs[1].holds(rho, other));
    assert(cs[2].holds(rho, other));
    assert(cs[3].holds(rho, other));
    assert(cs[4].holds(rho, other));
    assert(cs[5].holds(rho, other));
    assert(cs[6].holds(rho, other));
    bits_are_zero_or_one(bit_0, rho, other);
    bits_are_zero_or_one(bit_1, rho, other);
    lemma_scaled(2, bit_1, rho);
    operators_are_those_of_the_field(
        cleaned,
        ir::product(lookups::lit(2), bit_1),
        rho,
    );
    operators_are_those_of_the_field(
        ir::sum(cleaned, ir::product(lookups::lit(2), bit_1)),
        bit_0,
        rho,
    );
    lemma_scaled(4, k, rho);
    bounds_compare_values(a, lookups::U16_BOUND, rho, other);
    bounds_compare_values(cleaned, lookups::U16_BOUND, rho, other);
    bounds_compare_values(k, lookups::U14_BOUND, rho, other);
    let total = ir::sum(ir::sum(cleaned, ir::product(lookups::lit(2), bit_1)), bit_0);
    equalities_compare_values(a, total, rho, other);
    equalities_compare_values(cleaned, ir::product(lookups::lit(4), k), rho, other);
    lemma_small(2 * bit_1.eval(rho));
    lemma_small(cleaned.eval(rho) + 2 * bit_1.eval(rho));
    lemma_small(cleaned.eval(rho) + 2 * bit_1.eval(rho) + bit_0.eval(rho));
    lemma_small(4 * k.eval(rho));
    assert(cleaned.eval(rho) == 4 * k.eval(rho));
    assert(a.eval(rho) == 4 * k.eval(rho) + 2 * bit_1.eval(rho) + bit_0.eval(rho));
}

/// An assignment with two variables changed.
spec fn with_two(rho: spec_fn(usize) -> int, n: int, x: int, y: int) -> spec_fn(usize) -> int {
    |v: usize|
        if v as int == n {
            x
        } else if v as int == n + 1 {
            y
        } else {
            rho(v)
        }
}

proof fn lemma_jump_cleanup_complete(
    a: PicusExpr,
    bit_1: PicusExpr,
    cleaned: PicusExpr,
    n: int,
    rho: spec_fn(usize) -> int,
    other: spec_fn(usize) -> int,
)
    requires
        0 <= n,
        n + 2 <= usize::MAX,
        a.vars_below(n),
        bit_1.vars_below(n),
        cleaned.vars_below(n),
        a.eval(rho) < 0x1_0000,
        (bit_1.eval(rho), cleaned.eval(rho)) == tables::jump_cleanup(a.eval(rho)),
    ensures
        satisfiable(lookups::jump_cleanup_constraints(a, bit_1, cleaned, n), n, rho, other),
{
    let cs = lookups::jump_cleanup_constraints(a, bit_1, cleaned, n);
    expressions_have_canonical_values(a, rho);
    let av = a.eval(rho);
    let rho2 = with_two(rho, n, av % 2, av / 4);
    lemma_eval_agrees(a, rho, rho2, n);
    lemma_eval_agrees(bit_1, rho, rho2, n);
    lemma_eval_agrees(cleaned, rho, rho2, n);
    let bit_0 = lookups::fresh(n, 0);
    let k = lookups::fresh(n, 1);
    lemma_small(av % 2);
    lemma_small(av / 4);
    leaves_have_their_residues(0, n as usize, rho2);
    leaves_have_their_residues(0, (n + 1) as usize, rho2);
    assert(bit_0.eval(rho2) == av % 2);
    assert(k.eval(rho2) == av / 4);
    bits_are_zero_or_one(bit_0, rho2, other);
    bits_are_zero_or_one(bit_1, rho2, other);
    lemma_scaled(2, bit_1, rho2);
    operators_are_those_of_the_field(
        cleaned,
        ir::product(lookups::lit(2), bit_1),
        rho2,
    );
    operators_are_those_of_the_field(
        ir::sum(cleaned, ir::product(lookups::lit(2), bit_1)),
        bit_0,
        rho2,
    );
    lemma_scaled(4, k, rho2);
    bounds_compare_values(a, lookups::U16_BOUND, rho2, other);
    bounds_compare_values(cleaned, lookups::U16_BOUND, rho2, other);
    bounds_compare_values(k, lookups::U14_BOUND, rho2, other);
    let total = ir::sum(ir::sum(cleaned, ir::product(lookups::lit(2), bit_1)), bit_0);
    equalities_compare_values(a, total, rho2, other);
    equalities_compare_values(cleaned, ir::product(lookups::lit(4), k), rho2, other);
    lemma_small(2 * bit_1.eval(rho2));
    lemma_small(cleaned.eval(rho2) + 2 * bit_1.eval(rho2));
    lemma_small(cleaned.eval(rho2) + 2 * bit_1.eval(rho2) + bit_0.eval(rho2));
    lemma_small(4 * k.eval(rho2));
    lemma_small(0x1_0000);
    lemma_small(0x4000);
    assert(cs[0].holds(rho2, other));
    assert(cs[1].holds(rho2, other));
    assert(cs[2].holds(rho2, other));
    assert(cs[3].holds(rho2, other));
    assert(cs[4].holds(rho2, other));
    assert(cs[5].holds(rho2, other));
    assert(cs[6].holds(rho2, other));
    assert(all_hold(cs, rho2, other));
    assert(agree_below(rho, rho2, n));
}

/// The constraints for a `JumpCleanupOffset` row can be satisfied by a choice of their fresh
/// variables exactly where the row is in the table.
pub proof fn jump_cleanup_constraints_describe_the_table(
    a: PicusExpr,
    bit_1: PicusExpr,
    cleaned: PicusExpr,
    n: int,
    rho: spec_fn(usize) -> int,
    other: spec_fn(usize) -> int,
)
    requires
        0 <= n,
        n + 2 <= usize::MAX,
        a.vars_below(n),
        bit_1.vars_below(n),
        cleaned.vars_below(n),
    ensures
        satisfiable(lookups::jump_cleanup_constraints(a, bit_1, cleaned, n), n, rho, other) <==> {
            &&& a.eval(rho) < 0x1_0000
            &&& (bit_1.eval(rho), cleaned.eval(rho)) == tables::jump_cleanup(a.eval(rho))
        },
{
    let cs = lookups::jump_cleanup_constraints(a, bit_1, cleaned, n);
    if satisfiable(cs, n, rho, other) {
        let rho2 = choose|rho2: spec_fn(usize) -> int| #[trigger]
            agree_below(rho, rho2, n) && all_hold(cs, rho2, other);
        lemma_jump_cleanup_sound(a, bit_1, cleaned, n, rho2, other);
        lemma_eval_agrees(a, rho, rho2, n);
        lemma_eval_agrees(bit_1, rho, rho2, n);
        lemma_eval_agrees(cleaned, rho, rho2, n);
    }
    if a.eval(rho) < 0x1_0000 && (bit_1.eval(rho), cleaned.eval(rho)) == tables::jump_cleanup(
        a.eval(rho),
    ) {
        lemma_jump_cleanup_complete(a, bit_1, cleaned, n, rho, other);
    }
}

proof fn lemma_rom_separator_sound(
    high: PicusExpr,
    is_ram: PicusExpr,
    chunk: PicusExpr,
    n: int,
    rho: spec_fn(usize) -> int,
    other: spec_fn(usize) -> int,
)
    requires
        all_hold(lookups::rom_separator_constraints(high, is_ram, chunk, n), rho, other),
    ensures
        high.eval(rho) < 0x1_0000,
        (is_ram.eval(rho), chunk.eval(rho)) == tables::rom_separator(high.eval(rho)),
{
    let cs = lookups::rom_separator_constraints(high, is_ram, chunk, n);
    let q_tail = lookups::fresh(n, 0);
    let q = lookups::fresh(n, 1);
    assert(cs[0].holds(rho, other));
    assert(cs[1].holds(rho, other));
    assert(cs[2].holds(rho, other));
    assert(cs[3].holds(rho, other));
    assert(cs[4].holds(rho, other));
    assert(cs[5].holds(rho, other));
    assert(cs[6].holds(rho, other));
    bits_are_zero_or_one(is_ram, rho, other);
    let total = ir::sum(chunk, ir::product(lookups::lit(lookups::ROM_BOUND), q));
    let scaled = ir::product(is_ram, ir::sum(q_tail, lookups::lit(1)));
    lemma_scaled(lookups::ROM_BOUND, q, rho);
    operators_are_those_of_the_field(
        chunk,
        ir::product(lookups::lit(lookups::ROM_BOUND), q),
        rho,
    );
    operators_are_those_of_the_field(q_tail, lookups::lit(1), rho);
    lemma_masked(is_ram, ir::sum(q_tail, lookups::lit(1)), rho);
    leaves_have_their_residues(1, 0, rho);
    bounds_compare_values(high, lookups::U16_BOUND, rho, other);
    bounds_compare_values(chunk, lookups::ROM_BOUND, rho, other);
    bounds_compare_values(q_tail, lookups::ROM_CHUNK_COUNT, rho, other);
    bounds_compare_values(q, lookups::ROM_CHUNK_COUNT, rho, other);
    equalities_compare_values(high, total, rho, other);
    equalities_compare_values(q, scaled, rho, other);
    let r = is_ram.eval(rho);
    let t = q_tail.eval(rho);
    let qv = q.eval(rho);
    lemma_small(64 * qv);
    lemma_small(chunk.eval(rho) + 64 * qv);
    lemma_small(t + 1);
    assert(high.eval(rho) == chunk.eval(rho) + 64 * qv);
    assert(qv == (if r == 0 {
        0
    } else {
        t + 1
    }));
}

proof fn lemma_rom_separator_complete(
    high: PicusExpr,
    is_ram: PicusExpr,
    chunk: PicusExpr,
    n: int,
    rho: spec_fn(usize) -> int,
    other: spec_fn(usize) -> int,
)
    requires
        0 <= n,
        n + 2 <= usize::MAX,
        high.vars_below(n),
        is_ram.vars_below(n),
        chunk.vars_below(n),
        high.eval(rho) < 0x1_0000,
        (is_ram.eval(rho), chunk.eval(rho)) == tables::rom_separator(high.eval(rho)),
    ensures
        satisfiable(lookups::rom_separator_constraints(high, is_ram, chunk, n), n, rho, other),
{
    let cs = lookups::rom_separator_constraints(high, is_ram, chunk, n);
    expressions_have_canonical_values(high, rho);
    let hv = high.eval(rho);
    let qv = hv / 64;
    let tv = if qv == 0 {
        0
    } else {
        qv - 1
    };
    let rho2 = with_two(rho, n, tv, qv);
    lemma_eval_agrees(high, rho, rho2, n);
    lemma_eval_agrees(is_ram, rho, rho2, n);
    lemma_eval_agrees(chunk, rho, rho2, n);
    let q_tail = lookups::fresh(n, 0);
    let q = lookups::fresh(n, 1);
    lemma_small(tv);
    lemma_small(qv);
    leaves_have_their_residues(0, n as usize, rho2);
    leaves_have_their_residues(0, (n + 1) as usize, rho2);
    assert(q_tail.eval(rho2) == tv);
    assert(q.eval(rho2) == qv);
    let r = is_ram.eval(rho2);
    bits_are_zero_or_one(is_ram, rho2, other);
    let total = ir::sum(chunk, ir::product(lookups::lit(lookups::ROM_BOUND), q));
    let scaled = ir::product(is_ram, ir::sum(q_tail, lookups::lit(1)));
    lemma_scaled(lookups::ROM_BOUND, q, rho2);
    operators_are_those_of_the_field(
        chunk,
        ir::product(lookups::lit(lookups::ROM_BOUND), q),
        rho2,
    );
    operators_are_those_of_the_field(q_tail, lookups::lit(1), rho2);
    lemma_masked(is_ram, ir::sum(q_tail, lookups::lit(1)), rho2);
    leaves_have_their_residues(1, 0, rho2);
    bounds_compare_values(high, lookups::U16_BOUND, rho2, other);
    bounds_compare_values(chunk, lookups::ROM_BOUND, rho2, other);
    bounds_compare_values(q_tail, lookups::ROM_CHUNK_COUNT, rho2, other);
    bounds_compare_values(q, lookups::ROM_CHUNK_COUNT, rho2, other);
    equalities_compare_values(high, total, rho2, other);
    equalities_compare_values(q, scaled, rho2, other);
    lemma_small(64 * qv);
    lemma_small(chunk.eval(rho2) + 64 * qv);
    lemma_small(tv + 1);
    lemma_small(0x1_0000);
    assert(cs[0].holds(rho2, other));
    assert(cs[1].holds(rho2, other));
    assert(cs[2].holds(rho2, other));
    assert(cs[3].holds(rho2, other));
    assert(cs[4].holds(rho2, other));
    assert(cs[5].holds(rho2, other));
    assert(cs[6].holds(rho2, other));
    assert(all_hold(cs, rho2, other));
    assert(agree_below(rho, rho2, n));
}

/// The constraints for a `RomAddressSpaceSeparator` row can be satisfied by a choice of their
/// fresh variables exactly where the row is in the table.
pub proof fn rom_separator_constraints_describe_the_table(
    high: PicusExpr,
    is_ram: PicusExpr,
    chunk: PicusExpr,
    n: int,
    rho: spec_fn(usize) -> int,
    other: spec_fn(usize) -> int,
)
    requires
        0 <= n,
        n + 2 <= usize::MAX,
        high.vars_below(n),
        is_ram.vars_below(n),
        chunk.vars_below(n),
    ensures
        satisfiable(lookups::rom_separator_constraints(high, is_ram, chunk, n), n, rho, other)
            <==> {
            &&& high.eval(rho) < 0x1_0000
            &&& (is_ram.eval(rho), chunk.eval(rho)) == tables::rom_separator(high.eval(rho))
        },
{
    let cs = lookups::rom_separator_constraints(high, is_ram, chunk, n);
    if satisfiable(cs, n, rho, other) {
        let rho2 = choose|rho2: spec_fn(usize) -> int| #[trigger]
            agree_below(rho, rho2, n) && all_hold(cs, rho2, other);
        lemma_rom_separator_sound(high, is_ram, chunk, n, rho2, other);
        lemma_eval_agrees(high, rho, rho2, n);
        lemma_eval_agrees(is_ram, rho, rho2, n);
        lemma_eval_agrees(chunk, rho, rho2, n);
    }
    if high.eval(rho) < 0x1_0000 && (is_ram.eval(rho), chunk.eval(rho)) == tables::rom_separator(
        high.eval(rho),
    ) {
        lemma_rom_separator_complete(high, is_ram, chunk, n, rho, other);
    }
}

/// The values of `count` fresh variables, summed.
spec fn hot_sum(n: int, count: int, rho: spec_fn(usize) -> int) -> int
    decreases count,
{
    if count <= 0 {
        0
    } else {
        hot_sum(n, count - 1, rho) + lookups::fresh(n, count - 1).eval(rho)
    }
}

/// The values of `count` fresh variables, each times its position, summed.
spec fn hot_index(n: int, count: int, rho: spec_fn(usize) -> int) -> int
    decreases count,
{
    if count <= 0 {
        0
    } else {
        hot_index(n, count - 1, rho) + (count - 1) * lookups::fresh(n, count - 1).eval(rho)
    }
}

proof fn lemma_hot_sums(n: int, count: int, rho: spec_fn(usize) -> int)
    requires
        0 <= count <= 8,
        forall|i: int|
            0 <= i < count ==> 0 <= (#[trigger] lookups::fresh(n, i)).eval(rho) <= 1,
    ensures
        lookups::one_hot_sum(n, count).eval(rho) == hot_sum(n, count, rho),
        0 <= hot_sum(n, count, rho) <= count,
        lookups::one_hot_index(n, count).eval(rho) == hot_index(n, count, rho),
        0 <= hot_index(n, count, rho) <= 8 * count,
    decreases count,
{
    if count == 0 {
        leaves_have_their_residues(0, 0, rho);
        lemma_small(0);
    } else {
        lemma_hot_sums(n, count - 1, rho);
        let b = lookups::fresh(n, count - 1);
        let i = (count - 1) as u64;
        operators_are_those_of_the_field(lookups::one_hot_sum(n, count - 1), b, rho);
        lemma_scaled(i, b, rho);
        let scaled = ir::product(lookups::lit(i), b);
        operators_are_those_of_the_field(lookups::one_hot_index(n, count - 1), scaled, rho);
        assert(0 <= i * b.eval(rho) <= i) by (nonlinear_arith)
            requires
                0 <= i,
                0 <= b.eval(rho) <= 1,
        {
        }
        lemma_small(i * b.eval(rho));
        lemma_small(hot_sum(n, count, rho));
        lemma_small(hot_index(n, count, rho));
    }
}

/// Bits that sum to one and index `f` are all zero but the one at `f`.
proof fn lemma_hot_position(n: int, rho: spec_fn(usize) -> int)
    requires
        forall|i: int| 0 <= i < 8 ==> 0 <= (#[trigger] lookups::fresh(n, i)).eval(rho) <= 1,
        hot_sum(n, 8, rho) == 1,
    ensures
        0 <= hot_index(n, 8, rho) < 8,
        forall|i: int|
            0 <= i < 8 ==> (#[trigger] lookups::fresh(n, i)).eval(rho) == tables::flag(
                i == hot_index(n, 8, rho),
            ),
{
    reveal_with_fuel(hot_sum, 9);
    reveal_with_fuel(hot_index, 9);
    let b0 = lookups::fresh(n, 0).eval(rho);
    let b1 = lookups::fresh(n, 1).eval(rho);
    let b2 = lookups::fresh(n, 2).eval(rho);
    let b3 = lookups::fresh(n, 3).eval(rho);
    let b4 = lookups::fresh(n, 4).eval(rho);
    let b5 = lookups::fresh(n, 5).eval(rho);
    let b6 = lookups::fresh(n, 6).eval(rho);
    let b7 = lookups::fresh(n, 7).eval(rho);
    assert(b0 + b1 + b2 + b3 + b4 + b5 + b6 + b7 == 1);
    assert(b1 + 2 * b2 + 3 * b3 + 4 * b4 + 5 * b5 + 6 * b6 + 7 * b7 == hot_index(n, 8, rho));
}

/// Bits that are zero but for the one at `f` sum to one and index `f`.
proof fn lemma_hot_values(n: int, f: int, rho: spec_fn(usize) -> int)
    requires
        0 <= f < 8,
        forall|i: int|
            0 <= i < 8 ==> (#[trigger] lookups::fresh(n, i)).eval(rho) == tables::flag(i == f),
    ensures
        hot_sum(n, 8, rho) == 1,
        hot_index(n, 8, rho) == f,
{
    reveal_with_fuel(hot_sum, 9);
    reveal_with_fuel(hot_index, 9);
    let b0 = lookups::fresh(n, 0).eval(rho);
    let b1 = lookups::fresh(n, 1).eval(rho);
    let b2 = lookups::fresh(n, 2).eval(rho);
    let b3 = lookups::fresh(n, 3).eval(rho);
    let b4 = lookups::fresh(n, 4).eval(rho);
    let b5 = lookups::fresh(n, 5).eval(rho);
    let b6 = lookups::fresh(n, 6).eval(rho);
    let b7 = lookups::fresh(n, 7).eval(rho);
    assert(b0 + b1 + b2 + b3 + b4 + b5 + b6 + b7 == 1);
    assert(b1 + 2 * b2 + 3 * b3 + 4 * b4 + 5 * b5 + 6 * b6 + 7 * b7 == f);
}

proof fn lemma_one_minus(e: PicusExpr, rho: spec_fn(usize) -> int)
    requires
        e.eval(rho) == 0 || e.eval(rho) == 1,
    ensures
        lookups::one_minus(e).eval(rho) == 1 - e.eval(rho),
{
    operators_are_those_of_the_field(lookups::lit(1), e, rho);
    leaves_have_their_residues(1, 0, rho);
    lemma_small(0);
    lemma_small(1);
}

proof fn lemma_signed_less(
    uf: PicusExpr,
    sign1: PicusExpr,
    sign2: PicusExpr,
    rho: spec_fn(usize) -> int,
)
    requires
        uf.eval(rho) == 0 || uf.eval(rho) == 1,
        sign1.eval(rho) == 0 || sign1.eval(rho) == 1,
        sign2.eval(rho) == 0 || sign2.eval(rho) == 1,
    ensures
        lookups::signed_less(uf, sign1, sign2).eval(rho) == (if sign1.eval(rho) != sign2.eval(rho) {
            sign1.eval(rho)
        } else {
            uf.eval(rho)
        }),
{
    lemma_scaled(2, sign1, rho);
    let twice = ir::product(lookups::lit(2), sign1);
    operators_are_those_of_the_field(twice, sign2, rho);
    operators_are_those_of_the_field(sign1, sign2, rho);
    lemma_small(0);
    lemma_small(1);
    lemma_small(2);
    let both = ir::product(twice, sign2);
    let x = sign1.eval(rho);
    let y = sign2.eval(rho);
    assert((2 * x) * y == (if y == 0 {
        0
    } else {
        2 * x
    })) by (nonlinear_arith)
        requires
            y == 0 || y == 1,
    {
    }
    operators_are_those_of_the_field(ir::sum(sign1, sign2), both, rho);
    let differ = lookups::signs_differ(sign1, sign2);
    assert(differ.eval(rho) == tables::flag(x != y));
    lemma_one_minus(differ, rho);
    lemma_masked(sign1, differ, rho);
    lemma_masked(uf, lookups::one_minus(differ), rho);
    operators_are_those_of_the_field(
        ir::product(sign1, differ),
        ir::product(uf, lookups::one_minus(differ)),
        rho,
    );
}

/// The condition that a `funct3` code selects.
spec fn condition_for(f: int, eq: int, signed_lt: int, unsigned_lt: int) -> int {
    if f == 0 {
        eq
    } else if f == 1 {
        1 - eq
    } else if f == 2 || f == 4 {
        signed_lt
    } else if f == 3 || f == 6 {
        unsigned_lt
    } else if f == 5 {
        1 - signed_lt
    } else {
        1 - unsigned_lt
    }
}

proof fn lemma_hot_term(h: int, i: int, f: int, e: PicusExpr, rho: spec_fn(usize) -> int)
    requires
        lookups::fresh(h, i).eval(rho) == tables::flag(i == f),
        e.eval(rho) == 0 || e.eval(rho) == 1,
    ensures
        ir::product(lookups::fresh(h, i), e).eval(rho) == (if i == f {
            e.eval(rho)
        } else {
            0
        }),
{
    lemma_masked(lookups::fresh(h, i), e, rho);
}

proof fn lemma_small_sum(a: PicusExpr, b: PicusExpr, rho: spec_fn(usize) -> int)
    requires
        a.eval(rho) + b.eval(rho) < p(),
    ensures
        ir::sum(a, b).eval(rho) == a.eval(rho) + b.eval(rho),
{
    operators_are_those_of_the_field(a, b, rho);
    lemma_small(a.eval(rho) + b.eval(rho));
}

proof fn lemma_selected_condition(
    h: int,
    f: int,
    eq: PicusExpr,
    signed_lt: PicusExpr,
    unsigned_lt: PicusExpr,
    rho: spec_fn(usize) -> int,
)
    requires
        0 <= f < 8,
        forall|i: int|
            0 <= i < 8 ==> (#[trigger] lookups::fresh(h, i)).eval(rho) == tables::flag(i == f),
        eq.eval(rho) == 0 || eq.eval(rho) == 1,
        signed_lt.eval(rho) == 0 || signed_lt.eval(rho) == 1,
        unsigned_lt.eval(rho) == 0 || unsigned_lt.eval(rho) == 1,
    ensures
        lookups::selected_condition(h, eq, signed_lt, unsigned_lt).eval(rho) == condition_for(
            f,
            eq.eval(rho),
            signed_lt.eval(rho),
            unsigned_lt.eval(rho),
        ),
{
    lemma_one_minus(eq, rho);
    lemma_one_minus(signed_lt, rho);
    lemma_one_minus(unsigned_lt, rho);
    let t0 = ir::product(lookups::fresh(h, 0), eq);
    let t1 = ir::product(lookups::fresh(h, 1), lookups::one_minus(eq));
    let t2 = ir::product(lookups::fresh(h, 2), signed_lt);
    let t3 = ir::product(lookups::fresh(h, 3), unsigned_lt);
    let t4 = ir::product(lookups::fresh(h, 4), signed_lt);
    let t5 = ir::product(lookups::fresh(h, 5), lookups::one_minus(signed_lt));
    let t6 = ir::product(lookups::fresh(h, 6), unsigned_lt);
    let t7 = ir::product(lookups::fresh(h, 7), lookups::one_minus(unsigned_lt));
    lemma_hot_term(h, 0, f, eq, rho);
    lemma_hot_term(h, 1, f, lookups::one_minus(eq), rho);
    lemma_hot_term(h, 2, f, signed_lt, rho);
    lemma_hot_term(h, 3, f, unsigned_lt, rho);
    lemma_hot_term(h, 4, f, signed_lt, rho);
    lemma_hot_term(h, 5, f, lookups::one_minus(signed_lt), rho);
    lemma_hot_term(h, 6, f, unsigned_lt, rho);
    lemma_hot_term(h, 7, f, lookups::one_minus(unsigned_lt), rho);
    let s1 = ir::sum(t0, t1);
    let s2 = ir::sum(s1, t2);
    let s3 = ir::sum(s2, t3);
    let s4 = ir::sum(s3, t4);
    let s5 = ir::sum(s4, t5);
    let s6 = ir::sum(s5, t6);
    lemma_small_sum(t0, t1, rho);
    lemma_small_sum(s1, t2, rho);
    lemma_small_sum(s2, t3, rho);
    lemma_small_sum(s3, t4, rho);
    lemma_small_sum(s4, t5, rho);
    lemma_small_sum(s5, t6, rho);
    lemma_small_sum(s6, t7, rho);
}

proof fn lemma_packed_condition(
    uf: PicusExpr,
    oz: PicusExpr,
    s1: PicusExpr,
    s2: PicusExpr,
    rho: spec_fn(usize) -> int,
)
    requires
        uf.eval(rho) == 0 || uf.eval(rho) == 1,
        oz.eval(rho) == 0 || oz.eval(rho) == 1,
        s1.eval(rho) == 0 || s1.eval(rho) == 1,
        s2.eval(rho) == 0 || s2.eval(rho) == 1,
    ensures
        lookups::packed_condition(uf, oz, s1, s2).eval(rho) == uf.eval(rho) + 2 * oz.eval(rho) + 4
            * s1.eval(rho) + 8 * s2.eval(rho),
{
    lemma_scaled(2, oz, rho);
    lemma_scaled(4, s1, rho);
    lemma_scaled(8, s2, rho);
    lemma_small(2 * oz.eval(rho));
    lemma_small(4 * s1.eval(rho));
    lemma_small(8 * s2.eval(rho));
    let t1 = ir::product(lookups::lit(2), oz);
    let t2 = ir::product(lookups::lit(4), s1);
    let t3 = ir::product(lookups::lit(8), s2);
    lemma_small_sum(uf, t1, rho);
    lemma_small_sum(ir::sum(uf, t1), t2, rho);
    lemma_small_sum(ir::sum(ir::sum(uf, t1), t2), t3, rho);
}

proof fn lemma_conditional_jmp(
    a: PicusExpr,
    f3: PicusExpr,
    flag: PicusExpr,
    n: int,
    rho: spec_fn(usize) -> int,
    other: spec_fn(usize) -> int,
)
    ensures
        ({
            let uf = lookups::fresh(n, 0).eval(rho);
            let oz = lookups::fresh(n, 1).eval(rho);
            let s1 = lookups::fresh(n, 2).eval(rho);
            let s2 = lookups::fresh(n, 3).eval(rho);
            let f = f3.eval(rho);
            all_hold(lookups::conditional_jmp_constraints(a, f3, flag, n), rho, other) <==> {
                &&& a.eval(rho) < 16
                &&& f < 8
                &&& uf == 0 || uf == 1
                &&& oz == 0 || oz == 1
                &&& s1 == 0 || s1 == 1
                &&& s2 == 0 || s2 == 1
                &&& flag.eval(rho) == 0 || flag.eval(rho) == 1
                &&& a.eval(rho) == uf + 2 * oz + 4 * s1 + 8 * s2
                &&& forall|i: int|
                    0 <= i < 8 ==> (#[trigger] lookups::fresh(n + 4, i)).eval(rho) == tables::flag(
                        i == f,
                    )
                &&& flag.eval(rho) == condition_for(
                    f,
                    oz,
                    if s1 != s2 {
                        s1
                    } else {
                        uf
                    },
                    uf,
                )
            }
        }),
{
    let cs = lookups::conditional_jmp_constraints(a, f3, flag, n);
    let hot = lookups::one_hot_constraints(n + 4, 8);
    let uf = lookups::fresh(n, 0);
    let oz = lookups::fresh(n, 1);
    let s1 = lookups::fresh(n, 2);
    let s2 = lookups::fresh(n, 3);
    let h = n + 4;
    assert(cs.len() == 19);
    assert forall|i: int| 0 <= i < 9 implies #[trigger] cs[8 + i] == hot[i] by {}
    bounds_compare_values(a, 16, rho, other);
    bounds_compare_values(f3, 8, rho, other);
    bits_are_zero_or_one(uf, rho, other);
    bits_are_zero_or_one(oz, rho, other);
    bits_are_zero_or_one(s1, rho, other);
    bits_are_zero_or_one(s2, rho, other);
    bits_are_zero_or_one(flag, rho, other);
    equalities_compare_values(a, lookups::packed_condition(uf, oz, s1, s2), rho, other);
    assert forall|i: int| 0 <= i < 8 implies hot[i].holds(rho, other) <==> ((
    #[trigger] lookups::fresh(h, i)).eval(rho) == 0 || lookups::fresh(h, i).eval(rho) == 1) by {
        bits_are_zero_or_one(lookups::fresh(h, i), rho, other);
    }
    equalities_compare_values(lookups::one_hot_sum(h, 8), lookups::lit(1), rho, other);
    leaves_have_their_residues(1, 0, rho);
    lemma_small(1);
    equalities_compare_values(f3, lookups::one_hot_index(h, 8), rho, other);
    let signed_lt = lookups::signed_less(uf, s1, s2);
    let selected = lookups::selected_condition(h, oz, signed_lt, uf);
    equalities_compare_values(flag, selected, rho, other);
    assert(cs[17] == ir::equal(f3, lookups::one_hot_index(h, 8)));
    assert(cs[18] == ir::equal(flag, selected));
    assert(cs[16] == ir::equal(lookups::one_hot_sum(h, 8), lookups::lit(1)));
    if all_hold(cs, rho, other) {
        assert(cs[0].holds(rho, other));
        assert(cs[1].holds(rho, other));
        assert(cs[2].holds(rho, other));
        assert(cs[3].holds(rho, other));
        assert(cs[4].holds(rho, other));
        assert(cs[5].holds(rho, other));
        assert(cs[6].holds(rho, other));
        assert(cs[7].holds(rho, other));
        assert forall|i: int| 0 <= i < 8 implies 0 <= (#[trigger] lookups::fresh(h, i)).eval(
            rho,
        ) <= 1 by {
            assert(cs[8 + i].holds(rho, other));
        }
        assert(cs[16].holds(rho, other));
        assert(cs[17].holds(rho, other));
        assert(cs[18].holds(rho, other));
        lemma_packed_condition(uf, oz, s1, s2, rho);
        lemma_hot_sums(h, 8, rho);
        lemma_hot_position(h, rho);
        lemma_signed_less(uf, s1, s2, rho);
        lemma_selected_condition(h, f3.eval(rho), oz, signed_lt, uf, rho);
    }
    let f = f3.eval(rho);
    expressions_have_canonical_values(f3, rho);
    if {
        &&& a.eval(rho) < 16
        &&& f < 8
        &&& uf.eval(rho) == 0 || uf.eval(rho) == 1
        &&& oz.eval(rho) == 0 || oz.eval(rho) == 1
        &&& s1.eval(rho) == 0 || s1.eval(rho) == 1
        &&& s2.eval(rho) == 0 || s2.eval(rho) == 1
        &&& flag.eval(rho) == 0 || flag.eval(rho) == 1
        &&& a.eval(rho) == uf.eval(rho) + 2 * oz.eval(rho) + 4 * s1.eval(rho) + 8 * s2.eval(rho)
        &&& forall|i: int|
            0 <= i < 8 ==> (#[trigger] lookups::fresh(h, i)).eval(rho) == tables::flag(i == f)
        &&& flag.eval(rho) == condition_for(
            f,
            oz.eval(rho),
            if s1.eval(rho) != s2.eval(rho) {
                s1.eval(rho)
            } else {
                uf.eval(rho)
            },
            uf.eval(rho),
        )
    } {
        lemma_packed_condition(uf, oz, s1, s2, rho);
        lemma_hot_sums(h, 8, rho);
        lemma_hot_values(h, f, rho);
        lemma_signed_less(uf, s1, s2, rho);
        lemma_selected_condition(h, f, oz, signed_lt, uf, rho);
        assert forall|i: int| 0 <= i < cs.len() implies (#[trigger] cs[i]).holds(rho, other) by {
            if 8 <= i < 16 {
                assert(cs[8 + (i - 8)] == hot[i - 8]);
                assert(lookups::fresh(h, i - 8).eval(rho) == tables::flag(i - 8 == f));
            }
        }
    }
}

/// An assignment of the twelve fresh variables of a `ConditionalJmpBranchSlt` row.
spec fn with_condition(rho: spec_fn(usize) -> int, n: int, bits: int, f: int) -> spec_fn(
    usize,
) -> int {
    |v: usize|
        if v as int == n {
            tables::bit_at(bits, 1)
        } else if v as int == n + 1 {
            tables::bit_at(bits, 2)
        } else if v as int == n + 2 {
            tables::bit_at(bits, 4)
        } else if v as int == n + 3 {
            tables::bit_at(bits, 8)
        } else if n + 4 <= v < n + 12 {
            tables::flag(v as int == n + 4 + f)
        } else {
            rho(v)
        }
}

/// The constraints for a `ConditionalJmpBranchSlt` row can be satisfied by a choice of their
/// fresh variables exactly where the row is in the table.
pub proof fn conditional_jmp_constraints_describe_the_table(
    a: PicusExpr,
    f3: PicusExpr,
    flag: PicusExpr,
    n: int,
    rho: spec_fn(usize) -> int,
    other: spec_fn(usize) -> int,
)
    requires
        0 <= n,
        n + 12 <= usize::MAX,
        a.vars_below(n),
        f3.vars_below(n),
        flag.vars_below(n),
    ensures
        satisfiable(lookups::conditional_jmp_constraints(a, f3, flag, n), n, rho, other) <==> {
            &&& a.eval(rho) < 16
            &&& f3.eval(rho) < 8
            &&& flag.eval(rho) == tables::branch_flag(a.eval(rho), f3.eval(rho))
        },
{
    let cs = lookups::conditional_jmp_constraints(a, f3, flag, n);
    if satisfiable(cs, n, rho, other) {
        let rho2 = choose|rho2: spec_fn(usize) -> int| #[trigger]
            agree_below(rho, rho2, n) && all_hold(cs, rho2, other);
        lemma_conditional_jmp(a, f3, flag, n, rho2, other);
        lemma_eval_agrees(a, rho, rho2, n);
        lemma_eval_agrees(f3, rho, rho2, n);
        lemma_eval_agrees(flag, rho, rho2, n);
    }
    expressions_have_canonical_values(a, rho);
    expressions_have_canonical_values(f3, rho);
    let bits = a.eval(rho);
    let f = f3.eval(rho);
    if bits < 16 && f < 8 && flag.eval(rho) == tables::branch_flag(bits, f) {
        let rho2 = with_condition(rho, n, bits, f);
        assert(agree_below(rho, rho2, n));
        lemma_eval_agrees(a, rho, rho2, n);
        lemma_eval_agrees(f3, rho, rho2, n);
        lemma_eval_agrees(flag, rho, rho2, n);
        lemma_small(0);
        lemma_small(1);
        leaves_have_their_residues(0, n as usize, rho2);
        leaves_have_their_residues(0, (n + 1) as usize, rho2);
        leaves_have_their_residues(0, (n + 2) as usize, rho2);
        leaves_have_their_residues(0, (n + 3) as usize, rho2);
        assert forall|i: int| 0 <= i < 8 implies (#[trigger] lookups::fresh(n + 4, i)).eval(rho2)
            == tables::flag(i == f) by {
            leaves_have_their_residues(0, (n + 4 + i) as usize, rho2);
        }
        lemma_conditional_jmp(a, f3, flag, n, rho2, other);
        assert(all_hold(cs, rho2, other));
    }
}

/// A guarded list holds exactly where its condition implies the whole list.
pub proof fn guarded_constraints_hold_where_the_guard_implies_them(
    cond: PicusConstraint,
    cs: Seq<PicusConstraint>,
    rho: spec_fn(usize) -> int,
    other: spec_fn(usize) -> int,
)
    ensures
        all_hold(lookups::guarded(cond, cs), rho, other) <==> (cond.holds(rho, other)
            ==> all_hold(cs, rho, other)),
{
    let gs = lookups::guarded(cond, cs);
    reveal_with_fuel(PicusConstraint::holds, 2);
    if all_hold(gs, rho, other) && cond.holds(rho, other) {
        assert forall|i: int| 0 <= i < cs.len() implies (#[trigger] cs[i]).holds(rho, other) by {
            assert(gs[i].holds(rho, other));
        }
    }
    if cond.holds(rho, other) ==> all_hold(cs, rho, other) {
        assert forall|i: int| 0 <= i < gs.len() implies (#[trigger] gs[i]).holds(rho, other) by {
            if cond.holds(rho, other) {
                assert(cs[i].holds(rho, other));
            }
        }
    }
}

/// A summary admits every row whose outputs are a function of its key and lie in range.
pub proof fn summaries_admit_functional_rows(
    input: PicusExpr,
    input_bound: u64,
    first: PicusExpr,
    first_bound: u64,
    second: PicusExpr,
    second_bound: u64,
    table: spec_fn(int) -> (int, int),
    rho: spec_fn(usize) -> int,
    other: spec_fn(usize) -> int,
)
    requires
        input_bound < CHARACTERISTICS,
        first_bound < CHARACTERISTICS,
        second_bound < CHARACTERISTICS,
        input.eval(rho) < input_bound,
        table(input.eval(rho)).0 < first_bound,
        table(input.eval(rho)).1 < second_bound,
        (first.eval(rho), second.eval(rho)) == table(input.eval(rho)),
        (first.eval(other), second.eval(other)) == table(input.eval(other)),
    ensures
        all_hold(
            lookups::summary_constraints(
                input,
                input_bound,
                first,
                first_bound,
                second,
                second_bound,
            ),
            rho,
            other,
        ),
{
    reveal_with_fuel(PicusConstraint::holds, 3);
    bounds_compare_values(input, input_bound, rho, other);
    bounds_compare_values(first, first_bound, rho, other);
    bounds_compare_values(second, second_bound, rho, other);
    let cs = lookups::summary_constraints(
        input,
        input_bound,
        first,
        first_bound,
        second,
        second_bound,
    );
    assert(cs[0].holds(rho, other));
    assert(cs[1].holds(rho, other));
    assert(cs[2].holds(rho, other));
    assert(cs[3].holds(rho, other));
}

/// The rows of the summarized tables lie in the ranges that their summaries state.
pub proof fn summarized_rows_lie_in_range(key: int)
    requires
        0 <= key < lookups::PACKED_KEY_BOUND,
    ensures
        0 <= tables::offset_and_mask(key).0 < lookups::U4_BOUND,
        0 <= tables::offset_and_mask(key).1 < lookups::U8_BOUND,
        0 <= tables::load_subword(key).0 < lookups::U16_BOUND,
        0 <= tables::load_subword(key).1 < lookups::U16_BOUND,
        0 <= tables::clear_original(key) < lookups::U16_BOUND,
        0 <= tables::clear_written(key) < lookups::U16_BOUND,
{
}

/// Where an inactive row is multiplied out, the row of zeros is in the table.
pub proof fn zero_rows_of_multiplied_tables_are_rows()
    ensures
        tables::load_subword(0) == (0int, 0int),
        tables::clear_original(0) == 0,
{
}

} // verus!
