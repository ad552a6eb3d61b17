//! What the emitted constraints say of the values of a circuit.
use vstd::prelude::*;

use crate::circuit::Boolean;
use crate::circuit::Constraint;
use crate::circuit::LookupInput;
use crate::circuit::Mersenne31Field;
use crate::circuit::Term;
use crate::circuit::Variable;
use crate::circuit::CHARACTERISTICS;
use crate::circuit::ROM_SECOND_WORD_BITS;
use crate::llzk::builder;
use crate::llzk::constraints;
use crate::llzk::constraints::Scope;
use crate::llzk::ir;
use crate::llzk::ir::Comparison;
use crate::llzk::ir::Effect;
use crate::llzk::ir::FeltBinary;
use crate::llzk::ir::FeltUnary;
use crate::llzk::ir::Sym;
use crate::llzk::ir::Valuation;
use crate::llzk::ir::ValueType;
use crate::llzk::lookups;
use crate::primality;
use crate::tables;

verus! {

/// The characteristic as an integer.
pub open spec fn p() -> int {
    CHARACTERISTICS as int
}

/// What the members of a struct hold, limb by limb.
pub type Store = spec_fn(Seq<char>, int) -> int;

/// Whether every member read among the effects gives what the store holds.
pub open spec fn faithful(es: Seq<Effect>, k: nat, rho: Valuation, store: Store) -> bool {
    forall|i: int, limb: int|
        0 <= i < es.len() ==> match es[i] {
            Effect::MemberRead(_, name, _) => #[trigger] (rho.result)((k + i) as nat, 0, limb)
                == store(name, limb),
            _ => true,
        }
}

/// The position of a limb.
pub open spec fn limb_index(limb: Option<u64>) -> int {
    match limb {
        Some(i) => i as int,
        None => 0,
    }
}

/// The value of a variable in a constrain function.
pub open spec fn variable_value(sc: Scope, rho: Valuation, store: Store) -> spec_fn(Variable) -> int {
    |v: Variable|
        if sc.args_map.contains_key(v.0) {
            let slot = sc.args_map[v.0];
            (rho.arg)((slot.arg + 1) as usize, limb_index(slot.limb)) % p()
        } else {
            let slot = sc.members[v.0];
            store(slot.0, limb_index(slot.1)) % p()
        }
}

/// The product of the values of variables.
pub open spec fn monomial_value(factors: Seq<Variable>, sigma: spec_fn(Variable) -> int) -> int
    decreases factors.len(),
{
    if factors.len() == 0 {
        1
    } else {
        monomial_value(factors.drop_last(), sigma) * sigma(factors.last())
    }
}

/// The value of a term: its coefficient times its monomial.
pub open spec fn term_value(term: Term, sigma: spec_fn(Variable) -> int) -> int {
    term.coefficient() * monomial_value(term.factors(), sigma)
}

/// The value of a polynomial.
pub open spec fn polynomial_value(terms: Seq<Term>, sigma: spec_fn(Variable) -> int) -> int
    decreases terms.len(),
{
    if terms.len() == 0 {
        0
    } else {
        polynomial_value(terms.drop_last(), sigma) + term_value(terms.last(), sigma)
    }
}

/// The value of a linear combination.
pub open spec fn linear_value(
    constant: int,
    terms: Seq<(Mersenne31Field, Variable)>,
    sigma: spec_fn(Variable) -> int,
) -> int
    decreases terms.len(),
{
    if terms.len() == 0 {
        constant
    } else {
        linear_value(constant, terms.drop_last(), sigma) + terms.last().0.reduced() * sigma(
            terms.last().1,
        )
    }
}

/// The value of a lookup input.
pub open spec fn input_value(input: LookupInput, sigma: spec_fn(Variable) -> int) -> int {
    match input {
        LookupInput::Variable(v) => sigma(v),
        LookupInput::Expression { linear_terms, constant_coeff } => linear_value(
            constant_coeff.reduced() as int,
            linear_terms@,
            sigma,
        ),
    }
}

/// The value of a boolean.
pub open spec fn boolean_value(b: Boolean, sigma: spec_fn(Variable) -> int) -> int {
    match b {
        Boolean::Is(v) => sigma(v),
        Boolean::Not(v) => 1 - sigma(v),
        Boolean::Constant(c) => ir::truth(c),
    }
}

pub(crate) proof fn lemma_small(x: int)
    requires
        0 <= x < p(),
    ensures
        x % p() == x,
{
    vstd::arithmetic::div_mod::lemma_small_mod(x as nat, p() as nat);
}

/// A binary operation works on the values of its operands.
pub proof fn binary_operations_work_on_values(op: FeltBinary, a: Sym, b: Sym, rho: Valuation)
    ensures
        ir::felt2(op, a, b).eval(rho) == ir::felt_binary_value(op, a.eval(rho), b.eval(rho)),
{
    reveal(Sym::eval);
}

/// A negation has the opposite value.
pub proof fn negations_have_the_opposite_value(a: Sym, rho: Valuation)
    ensures
        ir::felt1(FeltUnary::Neg, a).eval(rho) == (0 - a.eval(rho)) % p(),
{
    reveal(Sym::eval);
}

/// A field constant below the characteristic has its own value.
pub proof fn constants_have_their_value(c: u64, rho: Valuation)
    requires
        c < CHARACTERISTICS,
    ensures
        ir::felt(c).eval(rho) == c,
{
    reveal(Sym::eval);
    lemma_small(c as int);
}

proof fn lemma_result(k: nat, rho: Valuation)
    ensures
        lookups::fresh(k).eval(rho) == (rho.result)(k, 0, 0) % p(),
        0 <= lookups::fresh(k).eval(rho) < p(),
{
    reveal(Sym::eval);
}

/// A variable that can be read has its value.
pub proof fn variables_are_read(sc: Scope, v: Variable, k: nat, rho: Valuation, store: Store)
    requires
        constraints::read(sc, v, k) is Ok,
        faithful(constraints::read(sc, v, k)->Ok_0.effects, k, rho, store),
    ensures
        constraints::read(sc, v, k)->Ok_0.sym.eval(rho) == variable_value(sc, rho, store)(v),
{
    reveal_with_fuel(Sym::eval, 2);
    let r = constraints::read(sc, v, k)->Ok_0;
    if !sc.args_map.contains_key(v.0) {
        let slot = sc.members[v.0];
        let limb = limb_index(slot.1);
        assert(r.effects[0] is MemberRead);
        assert((rho.result)((k + 0) as nat, 0, limb) == store(slot.0, limb));
    }
}

pub(crate) proof fn lemma_faithful_append(a: Seq<Effect>, b: Seq<Effect>, k: nat, rho: Valuation, store: Store)
    requires
        faithful(a + b, k, rho, store),
    ensures
        faithful(a, k, rho, store),
        faithful(b, k + a.len(), rho, store),
{
    let es = a + b;
    assert forall|i: int, limb: int| 0 <= i < a.len() implies match a[i] {
        Effect::MemberRead(_, name, _) => #[trigger] (rho.result)((k + i) as nat, 0, limb) == store(
            name,
            limb,
        ),
        _ => true,
    } by {
        assert(es[i] == a[i]);
        if es[i] is MemberRead {
            assert((rho.result)((k + i) as nat, 0, limb) == store(es[i]->MemberRead_1, limb));
        }
    }
    assert forall|i: int, limb: int| 0 <= i < b.len() implies match b[i] {
        Effect::MemberRead(_, name, _) => #[trigger] (rho.result)(
            (k + a.len() + i) as nat,
            0,
            limb,
        ) == store(name, limb),
        _ => true,
    } by {
        assert(es[a.len() + i] == b[i]);
        if b[i] is MemberRead {
            assert((rho.result)((k + (a.len() + i)) as nat, 0, limb) == store(
                es[a.len() + i]->MemberRead_1,
                limb,
            ));
        }
    }
}

proof fn lemma_monomial(sc: Scope, factors: Seq<Variable>, k: nat, rho: Valuation, store: Store)
    requires
        constraints::monomial(sc, factors, k) is Ok,
        faithful(constraints::monomial(sc, factors, k)->Ok_0.effects, k, rho, store),
    ensures
        constraints::monomial(sc, factors, k)->Ok_0.sym.eval(rho) == monomial_value(
            factors,
            variable_value(sc, rho, store),
        ) % p(),
    decreases factors.len(),
{
    let sigma = variable_value(sc, rho, store);
    if factors.len() == 0 {
        constants_have_their_value(1, rho);
        lemma_small(1);
    } else {
        let m = constraints::monomial(sc, factors.drop_last(), k)->Ok_0;
        let v = constraints::read(sc, factors.last(), k + m.effects.len())->Ok_0;
        lemma_faithful_append(m.effects, v.effects, k, rho, store);
        lemma_monomial(sc, factors.drop_last(), k, rho, store);
        variables_are_read(sc, factors.last(), k + m.effects.len(), rho, store);
        binary_operations_work_on_values(FeltBinary::Mul, m.sym, v.sym, rho);
        vstd::arithmetic::div_mod::lemma_mul_mod_noop_left(
            monomial_value(factors.drop_last(), sigma),
            sigma(factors.last()),
            p(),
        );
    }
}

proof fn lemma_opposite(coeff: int, m: int)
    ensures
        (0 - ((p() - coeff) * m) % p()) % p() == (coeff * m) % p(),
{
    let w = (p() - coeff) * m;
    vstd::arithmetic::div_mod::lemma_sub_mod_noop_right(0, w, p());
    assert(0 - w == p() * (0 - m) + coeff * m) by (nonlinear_arith)
        requires
            w == (p() - coeff) * m,
    {
    }
    vstd::arithmetic::div_mod::lemma_mod_multiples_vanish(0 - m, coeff * m, p());
}

/// Whether a term is lowered to its own value: all are but the constants past half of the
/// characteristic.
pub open spec fn keeps_value(term: Term) -> bool {
    term is Constant ==> term.coefficient() < CHARACTERISTICS - term.coefficient()
}

/// A lowered term has the value of the term: writing a large coefficient as the negation of its
/// opposite, and leaving out a unit coefficient, changes nothing.
pub proof fn terms_keep_their_value(sc: Scope, t: Term, k: nat, rho: Valuation, store: Store)
    requires
        constraints::term(sc, t, k) is Ok,
        faithful(constraints::term(sc, t, k)->Ok_0.effects, k, rho, store),
        keeps_value(t),
    ensures
        constraints::term(sc, t, k)->Ok_0.sym.eval(rho) == term_value(
            t,
            variable_value(sc, rho, store),
        ) % p(),
{
    let sigma = variable_value(sc, rho, store);
    let coeff = t.coefficient();
    let opposite = (p() - coeff) as u64;
    match t {
        Term::Constant(_) => {
            constants_have_their_value(coeff, rho);
            assert(monomial_value(t.factors(), sigma) == 1);
            lemma_small(coeff as int);
        },
        Term::Expression { .. } => {
            let monomial = constraints::monomial(sc, t.factors(), k)->Ok_0.sym;
            let m = monomial_value(t.factors(), sigma);
            lemma_monomial(sc, t.factors(), k, rho, store);
            vstd::arithmetic::div_mod::lemma_mul_mod_noop_right(coeff as int, m, p());
            vstd::arithmetic::div_mod::lemma_mul_mod_noop_right(opposite as int, m, p());
            lemma_opposite(coeff as int, m);
            assert(1 * m == m);
            if coeff < opposite {
                if coeff != 1 {
                    constants_have_their_value(coeff, rho);
                    binary_operations_work_on_values(
                        FeltBinary::Mul,
                        ir::felt(coeff),
                        monomial,
                        rho,
                    );
                }
            } else if opposite == 1 {
                negations_have_the_opposite_value(monomial, rho);
            } else {
                constants_have_their_value(opposite, rho);
                binary_operations_work_on_values(
                    FeltBinary::Mul,
                    ir::felt(opposite),
                    monomial,
                    rho,
                );
                negations_have_the_opposite_value(
                    ir::felt2(FeltBinary::Mul, ir::felt(opposite), monomial),
                    rho,
                );
            }
        },
    }
}

proof fn lemma_terms(sc: Scope, ts: Seq<Term>, k: nat, rho: Valuation, store: Store)
    requires
        ts.len() > 0,
        constraints::terms(sc, ts, k) is Ok,
        faithful(constraints::terms(sc, ts, k)->Ok_0.effects, k, rho, store),
        forall|i: int| 0 <= i < ts.len() ==> keeps_value(#[trigger] ts[i]),
    ensures
        constraints::terms(sc, ts, k)->Ok_0.syms.len() == ts.len(),
        builder::fold(FeltBinary::Add, constraints::terms(sc, ts, k)->Ok_0.syms).eval(rho)
            == polynomial_value(ts, variable_value(sc, rho, store)) % p(),
    decreases ts.len(),
{
    let sigma = variable_value(sc, rho, store);
    let front = ts.drop_last();
    let head = constraints::terms(sc, front, k)->Ok_0;
    let t = constraints::term(sc, ts.last(), k + head.effects.len())->Ok_0;
    lemma_faithful_append(head.effects, t.effects, k, rho, store);
    terms_keep_their_value(sc, ts.last(), k + head.effects.len(), rho, store);
    if ts.len() == 1 {
        assert(head.syms.len() == 0);
        assert(polynomial_value(front, sigma) == 0);
    } else {
        lemma_terms(sc, front, k, rho, store);
        assert(head.syms.push(t.sym).drop_last() =~= head.syms);
        binary_operations_work_on_values(
            FeltBinary::Add,
            builder::fold(FeltBinary::Add, head.syms),
            t.sym,
            rho,
        );
        vstd::arithmetic::div_mod::lemma_add_mod_noop(
            polynomial_value(front, sigma),
            term_value(ts.last(), sigma),
            p(),
        );
    }
}

/// A lowered constraint is satisfied exactly where its polynomial vanishes in the field.
pub proof fn constraints_hold_where_the_polynomial_vanishes(
    sc: Scope,
    c: Constraint,
    k: nat,
    rho: Valuation,
    store: Store,
)
    requires
        constraints::constraint(sc, c, k) is Ok,
        faithful(constraints::constraint(sc, c, k)->Ok_0, k, rho, store),
        forall|i: int| 0 <= i < c.terms@.len() ==> keeps_value(#[trigger] c.terms@[i]),
    ensures
        ir::satisfied(constraints::constraint(sc, c, k)->Ok_0.last(), rho) <==> polynomial_value(
            c.terms@,
            variable_value(sc, rho, store),
        ) % p() == 0,
{
    let r = constraints::terms(sc, c.terms@, k)->Ok_0;
    let es = constraints::constraint(sc, c, k)->Ok_0;
    assert(es =~= r.effects + seq![es.last()]);
    lemma_faithful_append(r.effects, seq![es.last()], k, rho, store);
    if c.terms@.len() == 0 {
        assert(r.syms.len() == 0);
    }
    lemma_terms(sc, c.terms@, k, rho, store);
    constants_have_their_value(0, rho);
}

proof fn lemma_linear(
    sc: Scope,
    constant: u64,
    ts: Seq<(Mersenne31Field, Variable)>,
    k: nat,
    rho: Valuation,
    store: Store,
)
    requires
        constant < CHARACTERISTICS,
        constraints::linear(sc, constant, ts, k) is Ok,
        faithful(constraints::linear(sc, constant, ts, k)->Ok_0.effects, k, rho, store),
    ensures
        constraints::linear(sc, constant, ts, k)->Ok_0.sym.eval(rho) == linear_value(
            constant as int,
            ts,
            variable_value(sc, rho, store),
        ) % p(),
    decreases ts.len(),
{
    let sigma = variable_value(sc, rho, store);
    if ts.len() == 0 {
        constants_have_their_value(constant, rho);
        lemma_small(constant as int);
    } else {
        let front = ts.drop_last();
        let head = constraints::linear(sc, constant, front, k)->Ok_0;
        let (c, x) = ts.last();
        let v = constraints::read(sc, x, k + head.effects.len())->Ok_0;
        lemma_faithful_append(head.effects, v.effects, k, rho, store);
        lemma_linear(sc, constant, front, k, rho, store);
        variables_are_read(sc, x, k + head.effects.len(), rho, store);
        constants_have_their_value(c.reduced(), rho);
        let product = ir::felt2(FeltBinary::Mul, ir::felt(c.reduced()), v.sym);
        binary_operations_work_on_values(FeltBinary::Mul, ir::felt(c.reduced()), v.sym, rho);
        binary_operations_work_on_values(FeltBinary::Add, head.sym, product, rho);
        vstd::arithmetic::div_mod::lemma_add_mod_noop(
            linear_value(constant as int, front, sigma),
            c.reduced() * sigma(x),
            p(),
        );
    }
}

/// A lowered lookup input has the value of the input.
pub proof fn lookup_inputs_keep_their_value(
    sc: Scope,
    i: LookupInput,
    k: nat,
    rho: Valuation,
    store: Store,
)
    requires
        constraints::input(sc, i, k) is Ok,
        faithful(constraints::input(sc, i, k)->Ok_0.effects, k, rho, store),
    ensures
        constraints::input(sc, i, k)->Ok_0.sym.eval(rho) == input_value(
            i,
            variable_value(sc, rho, store),
        ) % p(),
{
    match i {
        LookupInput::Variable(v) => {
            variables_are_read(sc, v, k, rho, store);
            lemma_small(variable_value(sc, rho, store)(v));
        },
        LookupInput::Expression { linear_terms, constant_coeff } => {
            lemma_linear(sc, constant_coeff.reduced(), linear_terms@, k, rho, store);
        },
    }
}

/// A lowered boolean has its value; a negated one has one minus that of its variable.
pub proof fn booleans_keep_their_value(sc: Scope, b: Boolean, k: nat, rho: Valuation, store: Store)
    requires
        constraints::boolean(sc, b, k) is Ok,
        faithful(constraints::boolean(sc, b, k)->Ok_0.effects, k, rho, store),
    ensures
        constraints::boolean(sc, b, k)->Ok_0.sym.eval(rho) == boolean_value(
            b,
            variable_value(sc, rho, store),
        ) % p(),
{
    let sigma = variable_value(sc, rho, store);
    constants_have_their_value(0, rho);
    constants_have_their_value(1, rho);
    lemma_small(0);
    lemma_small(1);
    match b {
        Boolean::Is(v) => {
            variables_are_read(sc, v, k, rho, store);
            lemma_small(sigma(v));
        },
        Boolean::Not(v) => {
            variables_are_read(sc, v, k, rho, store);
            binary_operations_work_on_values(
                FeltBinary::Sub,
                ir::felt(1),
                constraints::read(sc, v, k)->Ok_0.sym,
                rho,
            );
        },
        Boolean::Constant(_) => {},
    }
}

/// Whether a condition is zero.
pub open spec fn inactive(cond: Option<Sym>, rho: Valuation) -> bool {
    cond matches Some(c) && c.eval(rho) == 0
}

/// A conditional equality holds where the condition is zero, and elsewhere where the values
/// are equal.
pub proof fn conditional_equalities_compare_values(
    cond: Option<Sym>,
    a: Sym,
    b: Sym,
    rho: Valuation,
)
    ensures
        ir::satisfied(lookups::equal(cond, a, b), rho) <==> inactive(cond, rho) || a.eval(rho)
            == b.eval(rho),
{
    reveal_with_fuel(Sym::eval, 3);
    lemma_small(0);
    match cond {
        None => {},
        Some(c) => {
            let zero = ir::compare(Comparison::Eq, ir::felt(0), c);
            let same = ir::compare(Comparison::Eq, a, b);
            assert(zero.eval(rho) == ir::truth(0 == c.eval(rho)));
            assert(same.eval(rho) == ir::truth(a.eval(rho) == b.eval(rho)));
        },
    }
}

/// A conditional boolean constraint holds where the condition is zero, and elsewhere where the
/// value is zero or one.
pub proof fn conditional_booleans_are_zero_or_one(cond: Option<Sym>, v: Sym, rho: Valuation)
    requires
        0 <= v.eval(rho) < p(),
    ensures
        ir::satisfied(builder::conditional_boolean(cond, v), rho) <==> inactive(cond, rho)
            || v.eval(rho) == 0 || v.eval(rho) == 1,
{
    let x = v.eval(rho);
    constants_have_their_value(0, rho);
    constants_have_their_value(1, rho);
    let less = ir::felt2(FeltBinary::Sub, v, ir::felt(1));
    binary_operations_work_on_values(FeltBinary::Sub, v, ir::felt(1), rho);
    binary_operations_work_on_values(FeltBinary::Mul, v, less, rho);
    conditional_equalities_compare_values(cond, builder::boolean_product(v), ir::felt(0), rho);
    vstd::arithmetic::div_mod::lemma_mul_mod_noop_right(x, x - 1, p());
    lemma_small(x);
    if (x * (x - 1)) % p() == 0 {
        primality::product_vanishes(x, x - 1);
        if x > 0 {
            lemma_small(x - 1);
        }
    }
    if x == 0 || x == 1 {
        assert(x * (x - 1) == 0) by (nonlinear_arith)
            requires
                x == 0 || x == 1,
        {
        }
        lemma_small(0);
    }
}

/// A conditional range constraint holds where the condition is zero, and elsewhere where the
/// value is below the bound.
pub proof fn conditional_ranges_bound_values(cond: Option<Sym>, v: Sym, width: usize, rho: Valuation)
    requires
        (1u64 << width) < CHARACTERISTICS,
    ensures
        ir::satisfied(builder::conditional_range(cond, v, width), rho) <==> inactive(cond, rho)
            || v.eval(rho) < (1u64 << width),
{
    reveal_with_fuel(Sym::eval, 4);
    let bound = 1u64 << width;
    lemma_small(bound as int);
    lemma_small(0);
    let below = builder::in_range(v, width);
    assert(ir::felt(bound).eval(rho) == bound);
    assert(below.eval(rho) == ir::truth(v.eval(rho) < bound));
    assert(ir::boolean(true).eval(rho) == 1);
    match cond {
        None => {},
        Some(c) => {
            let zero = ir::compare(Comparison::Eq, ir::felt(0), c);
            assert(zero.eval(rho) == ir::truth(0 == c.eval(rho)));
            let same = ir::compare_int(below, ir::boolean(true));
            assert(same.eval(rho) == ir::truth(below.eval(rho) == 1));
        },
    }
}

/// Whether a term reads no result from effect `n` on.
pub open spec fn reads_below(e: Sym, n: nat) -> bool
    decreases e,
{
    match e {
        Sym::FeltBinary(_, a, b)
        | Sym::Compare(_, a, b)
        | Sym::CompareInt(a, b)
        | Sym::BoolBinary(_, a, b)
        | Sym::ArrayRead(a, b) => reads_below(*a, n) && reads_below(*b, n),
        Sym::FeltUnary(_, a) | Sym::BoolNot(a) => reads_below(*a, n),
        Sym::Select(c, a, b) => reads_below(*c, n) && reads_below(*a, n) && reads_below(*b, n),
        Sym::Result(k, _) => k < n,
        Sym::Arg(_) | Sym::SelfStruct | Sym::Const(_, _) | Sym::Unit => true,
    }
}

/// Whether two valuations agree but on the results from effect `n` on.
pub open spec fn agree_below(a: Valuation, b: Valuation, n: nat) -> bool {
    &&& a.arg == b.arg
    &&& forall|k: nat, r: nat, limb: int| k < n ==> #[trigger] (a.result)(k, r, limb) == (b.result)(
        k,
        r,
        limb,
    )
}

/// Whether the constraints can be satisfied by a choice of the results from effect `n` on.
pub open spec fn satisfiable(es: Seq<Effect>, n: nat, rho: Valuation) -> bool {
    exists|rho2: Valuation| #[trigger] agree_below(rho, rho2, n) && ir::all_satisfied(es, rho2)
}

/// Whether an optional term reads no result from effect `n` on.
pub open spec fn condition_below(cond: Option<Sym>, n: nat) -> bool {
    cond matches Some(c) ==> reads_below(c, n)
}

/// Whether a term has a canonical field value that reads no result from effect `n` on.
pub open spec fn column(e: Sym, n: nat, rho: Valuation) -> bool {
    reads_below(e, n) && 0 <= e.eval(rho) < p()
}

pub(crate) proof fn lemma_eval_agrees(e: Sym, a: Valuation, b: Valuation, n: nat)
    requires
        reads_below(e, n),
        agree_below(a, b, n),
    ensures
        e.eval(a) == e.eval(b),
    decreases e,
{
    reveal(Sym::eval);
    match e {
        Sym::FeltBinary(_, x, y)
        | Sym::Compare(_, x, y)
        | Sym::CompareInt(x, y)
        | Sym::BoolBinary(_, x, y) => {
            lemma_eval_agrees(*x, a, b, n);
            lemma_eval_agrees(*y, a, b, n);
        },
        Sym::ArrayRead(x, y) => {
            lemma_eval_agrees(*y, a, b, n);
            match *x {
                Sym::Result(k, r) => {
                    assert(reads_below(*x, n));
                    assert((a.result)(k, r, y.eval(a)) == (b.result)(k, r, y.eval(a)));
                },
                _ => {},
            }
        },
        Sym::FeltUnary(_, x) | Sym::BoolNot(x) => {
            lemma_eval_agrees(*x, a, b, n);
        },
        Sym::Select(c, x, y) => {
            lemma_eval_agrees(*c, a, b, n);
            lemma_eval_agrees(*x, a, b, n);
            lemma_eval_agrees(*y, a, b, n);
        },
        Sym::Result(k, r) => {
            assert((a.result)(k, r, 0) == (b.result)(k, r, 0));
        },
        _ => {},
    }
}

proof fn lemma_condition_agrees(cond: Option<Sym>, a: Valuation, b: Valuation, n: nat)
    requires
        condition_below(cond, n),
        agree_below(a, b, n),
    ensures
        inactive(cond, a) == inactive(cond, b),
{
    if let Some(c) = cond {
        lemma_eval_agrees(c, a, b, n);
    }
}

/// A valuation with other results from effect `n` on.
spec fn with_results(rho: Valuation, n: nat, values: Seq<int>) -> Valuation {
    Valuation {
        arg: rho.arg,
        result: |k: nat, r: nat, limb: int|
            if n <= k < n + values.len() {
                values[k - n]
            } else {
                (rho.result)(k, r, limb)
            },
    }
}

pub(crate) proof fn lemma_widths()
    ensures
        1u64 << 3usize == 8,
        1u64 << 4usize == 16,
        1u64 << 6usize == 64,
        1u64 << 8usize == 0x100,
        1u64 << 10usize == 0x400,
        1u64 << 14usize == 0x4000,
        1u64 << 16usize == 0x1_0000,
        1u64 << 20usize == 0x10_0000,
        1u64 << 21usize == 0x20_0000,
{
    assert(1u64 << 3usize == 8 && 1u64 << 4usize == 16 && 1u64 << 6usize == 64 && 1u64 << 8usize
        == 0x100 && 1u64 << 10usize == 0x400 && 1u64 << 14usize == 0x4000 && 1u64 << 16usize
        == 0x1_0000 && 1u64 << 20usize == 0x10_0000 && 1u64 << 21usize == 0x20_0000)
        by (bit_vector);
}

/// What the constraints of a `JumpCleanupOffset` row say of the values involved.
proof fn lemma_jump_cleanup_values(
    cond: Option<Sym>,
    a: Sym,
    bit_1: Sym,
    cleaned: Sym,
    n: nat,
    rho: Valuation,
)
    requires
        0 <= a.eval(rho) < p(),
        0 <= bit_1.eval(rho) < p(),
        0 <= cleaned.eval(rho) < p(),
    ensures
        ({
            let av = a.eval(rho);
            let b1 = bit_1.eval(rho);
            let c = cleaned.eval(rho);
            let b0 = lookups::fresh(n).eval(rho);
            let k = lookups::fresh(n + 1).eval(rho);
            ir::all_satisfied(lookups::jump_cleanup_effects(cond, a, bit_1, cleaned, n), rho) <==> {
                ||| inactive(cond, rho)
                ||| {
                    &&& av < 0x1_0000
                    &&& c < 0x1_0000
                    &&& b0 == 0 || b0 == 1
                    &&& b1 == 0 || b1 == 1
                    &&& k < 0x4000
                    &&& av == c + 2 * b1 + b0
                    &&& c == 4 * k
                }
            }
        }),
{
    let es = lookups::jump_cleanup_effects(cond, a, bit_1, cleaned, n);
    let b0 = lookups::fresh(n);
    let k = lookups::fresh(n + 1);
    lemma_widths();
    lemma_result(n, rho);
    lemma_result(n + 1, rho);
    conditional_ranges_bound_values(cond, a, 16, rho);
    conditional_ranges_bound_values(cond, cleaned, 16, rho);
    conditional_ranges_bound_values(cond, k, 14, rho);
    conditional_booleans_are_zero_or_one(cond, b0, rho);
    conditional_booleans_are_zero_or_one(cond, bit_1, rho);
    constants_have_their_value(2, rho);
    constants_have_their_value(4, rho);
    let twice = lookups::times(ir::felt(2), bit_1);
    let twit = lookups::plus(twice, b0);
    let total = lookups::plus(cleaned, twit);
    let aligned = lookups::times(ir::felt(4), k);
    binary_operations_work_on_values(FeltBinary::Mul, ir::felt(2), bit_1, rho);
    binary_operations_work_on_values(FeltBinary::Add, twice, b0, rho);
    binary_operations_work_on_values(FeltBinary::Add, cleaned, twit, rho);
    binary_operations_work_on_values(FeltBinary::Mul, ir::felt(4), k, rho);
    conditional_equalities_compare_values(cond, a, total, rho);
    conditional_equalities_compare_values(cond, cleaned, aligned, rho);
    let small = cleaned.eval(rho) < 0x1_0000 && b0.eval(rho) <= 1 && bit_1.eval(rho) <= 1 && k.eval(
        rho,
    ) < 0x4000;
    if small {
        lemma_small(2 * bit_1.eval(rho));
        lemma_small(2 * bit_1.eval(rho) + b0.eval(rho));
        lemma_small(cleaned.eval(rho) + 2 * bit_1.eval(rho) + b0.eval(rho));
        lemma_small(4 * k.eval(rho));
    }
    if ir::all_satisfied(es, rho) {
        assert(ir::satisfied(es[2], rho));
        assert(ir::satisfied(es[3], rho));
        assert(ir::satisfied(es[4], rho));
        assert(ir::satisfied(es[5], rho));
        assert(ir::satisfied(es[6], rho));
        assert(ir::satisfied(es[7], rho));
        assert(ir::satisfied(es[8], rho));
    }
}

/// The constraints of a `JumpCleanupOffset` row can be satisfied by a choice of the values that
/// they introduce exactly where the condition is zero or the row is in the table.
pub proof fn jump_cleanup_constraints_describe_the_table(
    cond: Option<Sym>,
    a: Sym,
    bit_1: Sym,
    cleaned: Sym,
    n: nat,
    rho: Valuation,
)
    requires
        condition_below(cond, n),
        column(a, n, rho),
        column(bit_1, n, rho),
        column(cleaned, n, rho),
    ensures
        satisfiable(lookups::jump_cleanup_effects(cond, a, bit_1, cleaned, n), n, rho) <==> {
            ||| inactive(cond, rho)
            ||| {
                &&& a.eval(rho) < 0x1_0000
                &&& (bit_1.eval(rho), cleaned.eval(rho)) == tables::jump_cleanup(a.eval(rho))
            }
        },
{
    let es = lookups::jump_cleanup_effects(cond, a, bit_1, cleaned, n);
    if satisfiable(es, n, rho) {
        let rho2 = choose|rho2: Valuation| #[trigger]
            agree_below(rho, rho2, n) && ir::all_satisfied(es, rho2);
        lemma_eval_agrees(a, rho, rho2, n);
        lemma_eval_agrees(bit_1, rho, rho2, n);
        lemma_eval_agrees(cleaned, rho, rho2, n);
        lemma_condition_agrees(cond, rho, rho2, n);
        lemma_jump_cleanup_values(cond, a, bit_1, cleaned, n, rho2);
    }
    if inactive(cond, rho) || a.eval(rho) < 0x1_0000 && (bit_1.eval(rho), cleaned.eval(rho))
        == tables::jump_cleanup(a.eval(rho)) {
        let av = a.eval(rho);
        let rho2 = with_results(rho, n, seq![av % 2, av / 4]);
        assert(agree_below(rho, rho2, n));
        lemma_eval_agrees(a, rho, rho2, n);
        lemma_eval_agrees(bit_1, rho, rho2, n);
        lemma_eval_agrees(cleaned, rho, rho2, n);
        lemma_condition_agrees(cond, rho, rho2, n);
        lemma_result(n, rho2);
        lemma_result(n + 1, rho2);
        lemma_small(av % 2);
        lemma_small(av / 4);
        lemma_jump_cleanup_values(cond, a, bit_1, cleaned, n, rho2);
    }
}

/// What the constraints of a `RomAddressSpaceSeparator` row say of the values involved.
proof fn lemma_rom_separator_values(
    cond: Option<Sym>,
    high: Sym,
    is_ram: Sym,
    chunk: Sym,
    n: nat,
    rho: Valuation,
)
    requires
        0 <= high.eval(rho) < p(),
        0 <= is_ram.eval(rho) < p(),
        0 <= chunk.eval(rho) < p(),
    ensures
        ({
            let h = high.eval(rho);
            let r = is_ram.eval(rho);
            let c = chunk.eval(rho);
            let tail = lookups::fresh(n).eval(rho);
            let q = lookups::fresh(n + 1).eval(rho);
            ir::all_satisfied(lookups::rom_separator_effects(cond, high, is_ram, chunk, n), rho)
                <==> {
                ||| inactive(cond, rho)
                ||| {
                    &&& h < 0x1_0000
                    &&& r == 0 || r == 1
                    &&& c < 64
                    &&& tail < 0x400
                    &&& q == (if r == 0 {
                        0
                    } else {
                        1 + tail
                    })
                    &&& h == c + 64 * q
                }
            }
        }),
{
    let es = lookups::rom_separator_effects(cond, high, is_ram, chunk, n);
    let tail = lookups::fresh(n);
    let q = lookups::fresh(n + 1);
    lemma_widths();
    lemma_result(n, rho);
    lemma_result(n + 1, rho);
    conditional_ranges_bound_values(cond, high, 16, rho);
    conditional_ranges_bound_values(cond, chunk, ROM_SECOND_WORD_BITS, rho);
    conditional_ranges_bound_values(cond, tail, (16 - ROM_SECOND_WORD_BITS) as usize, rho);
    conditional_booleans_are_zero_or_one(cond, is_ram, rho);
    constants_have_their_value(1, rho);
    constants_have_their_value(64, rho);
    let scaled = lookups::times(ir::felt(lookups::ROM_BOUND), q);
    let total = lookups::plus(chunk, scaled);
    let next = lookups::plus(ir::felt(1), tail);
    let product = lookups::times(is_ram, next);
    binary_operations_work_on_values(FeltBinary::Mul, ir::felt(lookups::ROM_BOUND), q, rho);
    binary_operations_work_on_values(FeltBinary::Add, chunk, scaled, rho);
    binary_operations_work_on_values(FeltBinary::Add, ir::felt(1), tail, rho);
    binary_operations_work_on_values(FeltBinary::Mul, is_ram, next, rho);
    conditional_equalities_compare_values(cond, high, total, rho);
    conditional_equalities_compare_values(cond, q, product, rho);
    if tail.eval(rho) < 0x400 {
        lemma_small(1 + tail.eval(rho));
        let r = is_ram.eval(rho);
        let t = 1 + tail.eval(rho);
        if r == 0 || r == 1 {
            assert(r * t == (if r == 0 {
                0
            } else {
                t
            })) by (nonlinear_arith)
                requires
                    r == 0 || r == 1,
            {
            }
            lemma_small(r * t);
            assert(product.eval(rho) == r * t);
        }
    }
    if q.eval(rho) <= 0x400 && chunk.eval(rho) < 64 {
        lemma_small(64 * q.eval(rho));
        lemma_small(chunk.eval(rho) + 64 * q.eval(rho));
    }
    if ir::all_satisfied(es, rho) {
        assert(ir::satisfied(es[2], rho));
        assert(ir::satisfied(es[3], rho));
        assert(ir::satisfied(es[4], rho));
        assert(ir::satisfied(es[5], rho));
        assert(ir::satisfied(es[7], rho));
        assert(ir::satisfied(es[8], rho));
    }
}

/// The constraints of a `RomAddressSpaceSeparator` row can be satisfied by a choice of the
/// values that they introduce exactly where the condition is zero or the row is in the table.
pub proof fn rom_separator_constraints_describe_the_table(
    cond: Option<Sym>,
    high: Sym,
    is_ram: Sym,
    chunk: Sym,
    n: nat,
    rho: Valuation,
)
    requires
        condition_below(cond, n),
        column(high, n, rho),
        column(is_ram, n, rho),
        column(chunk, n, rho),
    ensures
        satisfiable(lookups::rom_separator_effects(cond, high, is_ram, chunk, n), n, rho) <==> {
            ||| inactive(cond, rho)
            ||| {
                &&& high.eval(rho) < 0x1_0000
                &&& (is_ram.eval(rho), chunk.eval(rho)) == tables::rom_separator(high.eval(rho))
            }
        },
{
    let es = lookups::rom_separator_effects(cond, high, is_ram, chunk, n);
    if satisfiable(es, n, rho) {
        let rho2 = choose|rho2: Valuation| #[trigger]
            agree_below(rho, rho2, n) && ir::all_satisfied(es, rho2);
        lemma_eval_agrees(high, rho, rho2, n);
        lemma_eval_agrees(is_ram, rho, rho2, n);
        lemma_eval_agrees(chunk, rho, rho2, n);
        lemma_condition_agrees(cond, rho, rho2, n);
        lemma_rom_separator_values(cond, high, is_ram, chunk, n, rho2);
        if !inactive(cond, rho) {
            let q = lookups::fresh(n + 1).eval(rho2);
            lemma_result(n, rho2);
            assert(high.eval(rho) == chunk.eval(rho) + 64 * q);
            assert(high.eval(rho) % 64 == chunk.eval(rho));
        }
    }
    if inactive(cond, rho) || high.eval(rho) < 0x1_0000 && (is_ram.eval(rho), chunk.eval(rho))
        == tables::rom_separator(high.eval(rho)) {
        let h = high.eval(rho);
        let q = h / 64;
        let tail = if q == 0 {
            0
        } else {
            q - 1
        };
        let rho2 = with_results(rho, n, seq![tail, q]);
        assert(agree_below(rho, rho2, n));
        lemma_eval_agrees(high, rho, rho2, n);
        lemma_eval_agrees(is_ram, rho, rho2, n);
        lemma_eval_agrees(chunk, rho, rho2, n);
        lemma_condition_agrees(cond, rho, rho2, n);
        lemma_result(n, rho2);
        lemma_result(n + 1, rho2);
        lemma_small(tail);
        lemma_small(q);
        assert(lookups::fresh(n).eval(rho2) == tail);
        assert(lookups::fresh(n + 1).eval(rho2) == q);
        lemma_rom_separator_values(cond, high, is_ram, chunk, n, rho2);
        assert(ir::all_satisfied(es, rho2));
    }
}

/// The constraints of a summarized table hold exactly where the condition is zero or every
/// column fits its width.
pub proof fn summarized_tables_bound_their_columns(
    cond: Option<Sym>,
    columns: (Sym, Sym, Sym),
    widths: (usize, usize, usize),
    rho: Valuation,
)
    requires
        (1u64 << widths.0) < CHARACTERISTICS,
        (1u64 << widths.1) < CHARACTERISTICS,
        (1u64 << widths.2) < CHARACTERISTICS,
    ensures
        ir::all_satisfied(lookups::range_effects(cond, columns, widths), rho) <==> {
            ||| inactive(cond, rho)
            ||| {
                &&& columns.0.eval(rho) < (1u64 << widths.0)
                &&& columns.1.eval(rho) < (1u64 << widths.1)
                &&& columns.2.eval(rho) < (1u64 << widths.2)
            }
        },
{
    let es = lookups::range_effects(cond, columns, widths);
    conditional_ranges_bound_values(cond, columns.0, widths.0, rho);
    conditional_ranges_bound_values(cond, columns.1, widths.1, rho);
    conditional_ranges_bound_values(cond, columns.2, widths.2, rho);
    if ir::all_satisfied(es, rho) {
        assert(ir::satisfied(es[0], rho));
        assert(ir::satisfied(es[1], rho));
        assert(ir::satisfied(es[2], rho));
    }
}

/// The `i`-th bit of a one-hot vector whose effects start at `k`.
spec fn hot(k: nat, i: int) -> Sym {
    lookups::fresh((k + 2 * i) as nat)
}

spec fn is_bit(x: int) -> bool {
    x == 0 || x == 1
}

/// The values of one-hot bits, summed.
spec fn hot_sum(k: nat, count: int, rho: Valuation) -> int
    decreases count,
{
    if count <= 0 {
        0
    } else {
        hot_sum(k, count - 1, rho) + hot(k, count - 1).eval(rho)
    }
}

/// The values of one-hot bits, each times its position, summed.
spec fn hot_index(k: nat, count: int, rho: Valuation) -> int
    decreases count,
{
    if count <= 0 {
        0
    } else {
        hot_index(k, count - 1, rho) + (count - 1) * hot(k, count - 1).eval(rho)
    }
}

proof fn lemma_masked(a: Sym, b: Sym, rho: Valuation)
    requires
        is_bit(a.eval(rho)) || is_bit(b.eval(rho)),
        0 <= a.eval(rho) < p(),
        0 <= b.eval(rho) < p(),
    ensures
        lookups::times(a, b).eval(rho) == (if is_bit(a.eval(rho)) {
            if a.eval(rho) == 0 {
                0
            } else {
                b.eval(rho)
            }
        } else {
            if b.eval(rho) == 0 {
                0
            } else {
                a.eval(rho)
            }
        }),
{
    binary_operations_work_on_values(FeltBinary::Mul, a, b, rho);
    let x = a.eval(rho);
    let y = b.eval(rho);
    assert(x * y == (if is_bit(x) {
        if x == 0 {
            0
        } else {
            y
        }
    } else {
        if y == 0 {
            0
        } else {
            x
        }
    })) by (nonlinear_arith)
        requires
            is_bit(x) || is_bit(y),
    {
    }
    lemma_small(x * y);
}

proof fn lemma_scaled(c: u64, e: Sym, rho: Valuation)
    requires
        c <= 64,
        is_bit(e.eval(rho)),
    ensures
        lookups::times(ir::felt(c), e).eval(rho) == c * e.eval(rho),
{
    constants_have_their_value(c, rho);
    lemma_masked(ir::felt(c), e, rho);
    let x = e.eval(rho);
    assert(c * x == (if x == 0 {
        0
    } else {
        c as int
    })) by (nonlinear_arith)
        requires
            is_bit(x),
    {
    }
}

proof fn lemma_small_sum(a: Sym, b: Sym, rho: Valuation)
    requires
        0 <= a.eval(rho) + b.eval(rho) < p(),
    ensures
        lookups::plus(a, b).eval(rho) == a.eval(rho) + b.eval(rho),
{
    binary_operations_work_on_values(FeltBinary::Add, a, b, rho);
    lemma_small(a.eval(rho) + b.eval(rho));
}

proof fn lemma_one_minus(e: Sym, rho: Valuation)
    requires
        is_bit(e.eval(rho)),
    ensures
        lookups::one_minus(e).eval(rho) == 1 - e.eval(rho),
{
    constants_have_their_value(1, rho);
    binary_operations_work_on_values(FeltBinary::Sub, ir::felt(1), e, rho);
    lemma_small(1 - e.eval(rho));
}

proof fn lemma_hot_sums(k: nat, count: int, rho: Valuation)
    requires
        1 <= count <= 8,
        forall|i: int| 0 <= i < count ==> is_bit(#[trigger] hot(k, i).eval(rho)),
    ensures
        builder::fold(FeltBinary::Add, builder::one_hot_terms(k, count as nat)).eval(rho)
            == hot_sum(k, count, rho),
        0 <= hot_sum(k, count, rho) <= count,
        builder::one_hot_reconstruction(builder::one_hot_terms(k, count as nat)).eval(rho)
            == hot_index(k, count, rho),
        0 <= hot_index(k, count, rho) <= 8 * count,
    decreases count,
{
    let terms = builder::one_hot_terms(k, count as nat);
    let b = hot(k, count - 1);
    assert(is_bit(b.eval(rho)));
    assert(terms.last() == b);
    if count == 1 {
        assert(hot_sum(k, 0, rho) == 0);
        assert(hot_index(k, 0, rho) == 0);
        lemma_scaled(0, b, rho);
    } else {
        lemma_hot_sums(k, count - 1, rho);
        let front = builder::one_hot_terms(k, (count - 1) as nat);
        assert(terms.drop_last() =~= front);
        lemma_small_sum(builder::fold(FeltBinary::Add, front), b, rho);
        lemma_scaled((count - 1) as u64, b, rho);
        let x = b.eval(rho);
        assert(0 <= (count - 1) * x <= 8) by (nonlinear_arith)
            requires
                is_bit(x),
                1 <= count <= 8,
        {
        }
        lemma_small_sum(
            builder::one_hot_reconstruction(front),
            lookups::times(ir::felt((count - 1) as u64), b),
            rho,
        );
    }
}

/// Bits that sum to one are all zero but for the one at the position that they index.
proof fn lemma_hot_position(k: nat, rho: Valuation)
    requires
        forall|i: int| 0 <= i < 8 ==> is_bit(#[trigger] hot(k, i).eval(rho)),
        hot_sum(k, 8, rho) == 1,
    ensures
        0 <= hot_index(k, 8, rho) < 8,
        forall|i: int|
            0 <= i < 8 ==> (#[trigger] hot(k, i)).eval(rho) == tables::flag(
                i == hot_index(k, 8, rho),
            ),
{
    reveal_with_fuel(hot_sum, 9);
    reveal_with_fuel(hot_index, 9);
    let b0 = hot(k, 0).eval(rho);
    let b1 = hot(k, 1).eval(rho);
    let b2 = hot(k, 2).eval(rho);
    let b3 = hot(k, 3).eval(rho);
    let b4 = hot(k, 4).eval(rho);
    let b5 = hot(k, 5).eval(rho);
    let b6 = hot(k, 6).eval(rho);
    let b7 = hot(k, 7).eval(rho);
    assert(b0 + b1 + b2 + b3 + b4 + b5 + b6 + b7 == 1);
    assert(b1 + 2 * b2 + 3 * b3 + 4 * b4 + 5 * b5 + 6 * b6 + 7 * b7 == hot_index(k, 8, rho));
}

/// Bits that are zero but for the one at `f` sum to one and index `f`.
proof fn lemma_hot_values(k: nat, f: int, rho: Valuation)
    requires
        0 <= f < 8,
        forall|i: int| 0 <= i < 8 ==> (#[trigger] hot(k, i)).eval(rho) == tables::flag(i == f),
    ensures
        hot_sum(k, 8, rho) == 1,
        hot_index(k, 8, rho) == f,
{
    reveal_with_fuel(hot_sum, 9);
    reveal_with_fuel(hot_index, 9);
    let b0 = hot(k, 0).eval(rho);
    let b1 = hot(k, 1).eval(rho);
    let b2 = hot(k, 2).eval(rho);
    let b3 = hot(k, 3).eval(rho);
    let b4 = hot(k, 4).eval(rho);
    let b5 = hot(k, 5).eval(rho);
    let b6 = hot(k, 6).eval(rho);
    let b7 = hot(k, 7).eval(rho);
    assert(b0 + b1 + b2 + b3 + b4 + b5 + b6 + b7 == 1);
    assert(b1 + 2 * b2 + 3 * b3 + 4 * b4 + 5 * b5 + 6 * b6 + 7 * b7 == f);
}

proof fn lemma_hot_bits_satisfied(k: nat, count: nat, rho: Valuation)
    ensures
        builder::one_hot_bit_effects(k, count).len() == 2 * count,
        ir::all_satisfied(builder::one_hot_bit_effects(k, count), rho) <==> forall|i: int|
            0 <= i < count ==> is_bit(#[trigger] hot(k, i).eval(rho)),
    decreases count,
{
    let es = builder::one_hot_bit_effects(k, count);
    if count > 0 {
        let front = builder::one_hot_bit_effects(k, (count - 1) as nat);
        lemma_hot_bits_satisfied(k, (count - 1) as nat, rho);
        let last = seq![
            Effect::Nondet(ValueType::Felt),
            builder::conditional_boolean(None, hot(k, count - 1)),
        ];
        assert(es =~= front + last);
        ir::satisfied_appended(front, last, rho);
        lemma_result((k + 2 * (count - 1)) as nat, rho);
        conditional_booleans_are_zero_or_one(None, hot(k, count - 1), rho);
        assert(ir::all_satisfied(last, rho) <==> is_bit(hot(k, count - 1).eval(rho))) by {
            if ir::all_satisfied(last, rho) {
                assert(ir::satisfied(last[1], rho));
            }
        }
        if forall|i: int| 0 <= i < count ==> is_bit(#[trigger] hot(k, i).eval(rho)) {
            assert(is_bit(hot(k, count - 1).eval(rho)));
        }
    }
}

/// The constraints of a one-hot vector of eight hold exactly where one of the bits is one and
/// the others are zero.
proof fn lemma_one_hot_satisfied(k: nat, rho: Valuation)
    ensures
        ir::all_satisfied(builder::one_hot_effects(k, 8), rho) <==> {
            &&& forall|i: int| 0 <= i < 8 ==> is_bit(#[trigger] hot(k, i).eval(rho))
            &&& hot_sum(k, 8, rho) == 1
        },
{
    let front = builder::one_hot_bit_effects(k, 8);
    let es = builder::one_hot_effects(k, 8);
    lemma_hot_bits_satisfied(k, 8, rho);
    assert(es =~= front + seq![es.last()]);
    ir::satisfied_appended(front, seq![es.last()], rho);
    constants_have_their_value(1, rho);
    if ir::all_satisfied(front, rho) {
        lemma_hot_sums(k, 8, rho);
        assert(ir::all_satisfied(seq![es.last()], rho) <==> hot_sum(k, 8, rho) == 1) by {
            if ir::all_satisfied(seq![es.last()], rho) {
                assert(ir::satisfied(seq![es.last()][0], rho));
            }
        }
    }
}

proof fn lemma_signed_less(uf: Sym, sign1: Sym, sign2: Sym, rho: Valuation)
    requires
        is_bit(uf.eval(rho)),
        is_bit(sign1.eval(rho)),
        is_bit(sign2.eval(rho)),
    ensures
        lookups::signed_less(uf, sign1, sign2).eval(rho) == (if sign1.eval(rho) != sign2.eval(rho) {
            sign1.eval(rho)
        } else {
            uf.eval(rho)
        }),
{
    let x = sign1.eval(rho);
    let y = sign2.eval(rho);
    lemma_scaled(2, sign1, rho);
    let twice = lookups::times(ir::felt(2), sign1);
    lemma_masked(twice, sign2, rho);
    let both = lookups::times(twice, sign2);
    assert(both.eval(rho) == (if y == 0 {
        0
    } else {
        2 * x
    }));
    negations_have_the_opposite_value(both, rho);
    lemma_small_sum(sign1, sign2, rho);
    let minus = ir::felt1(FeltUnary::Neg, both);
    binary_operations_work_on_values(FeltBinary::Add, lookups::plus(sign1, sign2), minus, rho);
    let differ = lookups::signs_differ(sign1, sign2);
    assert(differ.eval(rho) == (x + y + (0 - both.eval(rho)) % p()) % p());
    vstd::arithmetic::div_mod::lemma_add_mod_noop_right(x + y, 0 - both.eval(rho), p());
    lemma_small(x + y - both.eval(rho));
    assert(differ.eval(rho) == tables::flag(x != y));
    lemma_one_minus(differ, rho);
    lemma_masked(sign1, differ, rho);
    lemma_masked(uf, lookups::one_minus(differ), rho);
    lemma_small_sum(
        lookups::times(sign1, differ),
        lookups::times(uf, lookups::one_minus(differ)),
        rho,
    );
}

/// The condition that a `funct3` code selects.
spec fn condition_for(f: int, eq: int, signed_lt: int, unsigned_lt: int) -> int {
    if f == 0 {
        eq
    } else if f == 1 {
        1 - eq
    } else if f == 2 || f == 4 {
        signed_lt
    } else if f == 3 || f == 6 {
        unsigned_lt
    } else if f == 5 {
        1 - signed_lt
    } else {
        1 - unsigned_lt
    }
}

proof fn lemma_selected_condition(
    k: nat,
    f: int,
    eq: Sym,
    signed_lt: Sym,
    unsigned_lt: Sym,
    rho: Valuation,
)
    requires
        0 <= f < 8,
        forall|i: int| 0 <= i < 8 ==> (#[trigger] hot(k, i)).eval(rho) == tables::flag(i == f),
        is_bit(eq.eval(rho)),
        is_bit(signed_lt.eval(rho)),
        is_bit(unsigned_lt.eval(rho)),
    ensures
        lookups::selected_condition(
            builder::one_hot_terms(k, 8),
            eq,
            signed_lt,
            unsigned_lt,
        ).eval(rho) == condition_for(
            f,
            eq.eval(rho),
            signed_lt.eval(rho),
            unsigned_lt.eval(rho),
        ),
{
    lemma_one_minus(eq, rho);
    lemma_one_minus(signed_lt, rho);
    lemma_one_minus(unsigned_lt, rho);
    let t0 = lookups::times(hot(k, 0), eq);
    let t1 = lookups::times(hot(k, 1), lookups::one_minus(eq));
    let t2 = lookups::times(hot(k, 2), signed_lt);
    let t3 = lookups::times(hot(k, 3), unsigned_lt);
    let t4 = lookups::times(hot(k, 4), signed_lt);
    let t5 = lookups::times(hot(k, 5), lookups::one_minus(signed_lt));
    let t6 = lookups::times(hot(k, 6), unsigned_lt);
    let t7 = lookups::times(hot(k, 7), lookups::one_minus(unsigned_lt));
    lemma_masked(hot(k, 0), eq, rho);
    lemma_masked(hot(k, 1), lookups::one_minus(eq), rho);
    lemma_masked(hot(k, 2), signed_lt, rho);
    lemma_masked(hot(k, 3), unsigned_lt, rho);
    lemma_masked(hot(k, 4), signed_lt, rho);
    lemma_masked(hot(k, 5), lookups::one_minus(signed_lt), rho);
    lemma_masked(hot(k, 6), unsigned_lt, rho);
    lemma_masked(hot(k, 7), lookups::one_minus(unsigned_lt), rho);
    let s1 = lookups::plus(t0, t1);
    let s2 = lookups::plus(s1, t2);
    let s3 = lookups::plus(s2, t3);
    let s4 = lookups::plus(s3, t4);
    let s5 = lookups::plus(s4, t5);
    let s6 = lookups::plus(s5, t6);
    lemma_small_sum(t0, t1, rho);
    lemma_small_sum(s1, t2, rho);
    lemma_small_sum(s2, t3, rho);
    lemma_small_sum(s3, t4, rho);
    lemma_small_sum(s4, t5, rho);
    lemma_small_sum(s5, t6, rho);
    lemma_small_sum(s6, t7, rho);
}

/// What the constraints on the packed comparison bits say of the values involved.
proof fn lemma_comparison_values(
    cond: Option<Sym>,
    a: Sym,
    f3: Sym,
    flag: Sym,
    n: nat,
    rho: Valuation,
)
    requires
        0 <= a.eval(rho) < p(),
        0 <= f3.eval(rho) < p(),
        0 <= flag.eval(rho) < p(),
    ensures
        ({
            let uf = lookups::fresh(n).eval(rho);
            let oz = lookups::fresh(n + 1).eval(rho);
            let s1 = lookups::fresh(n + 2).eval(rho);
            let s2 = lookups::fresh(n + 3).eval(rho);
            ir::all_satisfied(lookups::comparison_effects(cond, a, f3, flag, n), rho) <==> {
                ||| inactive(cond, rho)
                ||| {
                    &&& a.eval(rho) < 16
                    &&& f3.eval(rho) < 8
                    &&& is_bit(uf)
                    &&& is_bit(oz)
                    &&& is_bit(s1)
                    &&& is_bit(s2)
                    &&& is_bit(flag.eval(rho))
                    &&& a.eval(rho) == uf + 2 * oz + 4 * s1 + 8 * s2
                }
            }
        }),
{
    let es = lookups::comparison_effects(cond, a, f3, flag, n);
    let uf = lookups::fresh(n);
    let oz = lookups::fresh(n + 1);
    let s1 = lookups::fresh(n + 2);
    let s2 = lookups::fresh(n + 3);
    lemma_widths();
    lemma_result(n, rho);
    lemma_result(n + 1, rho);
    lemma_result(n + 2, rho);
    lemma_result(n + 3, rho);
    conditional_ranges_bound_values(cond, a, 4, rho);
    conditional_ranges_bound_values(cond, f3, 3, rho);
    conditional_booleans_are_zero_or_one(cond, uf, rho);
    conditional_booleans_are_zero_or_one(cond, oz, rho);
    conditional_booleans_are_zero_or_one(cond, s1, rho);
    conditional_booleans_are_zero_or_one(cond, s2, rho);
    conditional_booleans_are_zero_or_one(cond, flag, rho);
    let t1 = lookups::times(ir::felt(2), oz);
    let t2 = lookups::times(ir::felt(4), s1);
    let t3 = lookups::times(ir::felt(8), s2);
    let packed = lookups::plus(lookups::plus(lookups::plus(uf, t1), t2), t3);
    conditional_equalities_compare_values(cond, a, packed, rho);
    if is_bit(uf.eval(rho)) && is_bit(oz.eval(rho)) && is_bit(s1.eval(rho)) && is_bit(
        s2.eval(rho),
    ) {
        lemma_scaled(2, oz, rho);
        lemma_scaled(4, s1, rho);
        lemma_scaled(8, s2, rho);
        lemma_small_sum(uf, t1, rho);
        lemma_small_sum(lookups::plus(uf, t1), t2, rho);
        lemma_small_sum(lookups::plus(lookups::plus(uf, t1), t2), t3, rho);
    }
    if ir::all_satisfied(es, rho) {
        assert(ir::satisfied(es[4], rho));
        assert(ir::satisfied(es[5], rho));
        assert(ir::satisfied(es[6], rho));
        assert(ir::satisfied(es[7], rho));
        assert(ir::satisfied(es[8], rho));
        assert(ir::satisfied(es[9], rho));
        assert(ir::satisfied(es[10], rho));
        assert(ir::satisfied(es[11], rho));
    }
}

/// What the constraints of a `ConditionalJmpBranchSlt` row say of the values involved.
proof fn lemma_conditional_jmp_values(
    cond: Option<Sym>,
    a: Sym,
    f3: Sym,
    flag: Sym,
    n: nat,
    rho: Valuation,
)
    requires
        0 <= a.eval(rho) < p(),
        0 <= f3.eval(rho) < p(),
        0 <= flag.eval(rho) < p(),
    ensures
        ({
            let uf = lookups::fresh(n).eval(rho);
            let oz = lookups::fresh(n + 1).eval(rho);
            let s1 = lookups::fresh(n + 2).eval(rho);
            let s2 = lookups::fresh(n + 3).eval(rho);
            let f = f3.eval(rho);
            ir::all_satisfied(lookups::conditional_jmp_effects(cond, a, f3, flag, n), rho) <==> {
                &&& ir::all_satisfied(lookups::comparison_effects(cond, a, f3, flag, n), rho)
                &&& forall|i: int| 0 <= i < 8 ==> is_bit(#[trigger] hot(n + 12, i).eval(rho))
                &&& hot_sum(n + 12, 8, rho) == 1
                &&& inactive(cond, rho) || {
                    &&& f == hot_index(n + 12, 8, rho)
                    &&& flag.eval(rho) == condition_for(
                        f,
                        oz,
                        if s1 != s2 {
                            s1
                        } else {
                            uf
                        },
                        uf,
                    )
                }
            }
        }),
{
    let uf = lookups::fresh(n);
    let oz = lookups::fresh(n + 1);
    let s1 = lookups::fresh(n + 2);
    let s2 = lookups::fresh(n + 3);
    let k = n + 12;
    let terms = builder::one_hot_terms(k, 8);
    let head = lookups::comparison_effects(cond, a, f3, flag, n);
    let middle = builder::one_hot_effects(k, 8);
    let signed_lt = lookups::signed_less(uf, s1, s2);
    let selected = lookups::selected_condition(terms, oz, signed_lt, uf);
    let index = builder::one_hot_reconstruction(terms);
    let tail = seq![lookups::equal(cond, f3, index), lookups::equal(cond, flag, selected)];
    let es = lookups::conditional_jmp_effects(cond, a, f3, flag, n);
    assert(es == head + middle + tail);
    ir::satisfied_appended(head, middle, rho);
    ir::satisfied_appended(head + middle, tail, rho);
    lemma_one_hot_satisfied(k, rho);
    lemma_comparison_values(cond, a, f3, flag, n, rho);
    conditional_equalities_compare_values(cond, f3, index, rho);
    conditional_equalities_compare_values(cond, flag, selected, rho);
    assert(ir::all_satisfied(tail, rho) <==> ir::satisfied(tail[0], rho) && ir::satisfied(
        tail[1],
        rho,
    )) by {
        assert(tail.len() == 2);
    }
    if ir::all_satisfied(head, rho) && ir::all_satisfied(middle, rho) && !inactive(cond, rho) {
        lemma_hot_sums(k, 8, rho);
        lemma_hot_position(k, rho);
        lemma_signed_less(uf, s1, s2, rho);
        lemma_selected_condition(k, hot_index(k, 8, rho), oz, signed_lt, uf, rho);
    }
}

/// Results that satisfy the constraints of a `ConditionalJmpBranchSlt` row.
spec fn condition_results(bits: int, f: int) -> Seq<int> {
    Seq::new(
        28,
        |i: int|
            if i == 0 {
                tables::bit_at(bits, 1)
            } else if i == 1 {
                tables::bit_at(bits, 2)
            } else if i == 2 {
                tables::bit_at(bits, 4)
            } else if i == 3 {
                tables::bit_at(bits, 8)
            } else {
                tables::flag(i == 12 + 2 * f)
            },
    )
}

/// The constraints of a `ConditionalJmpBranchSlt` row can be satisfied by a choice of the values
/// that they introduce exactly where the condition is zero or the row is in the table.
pub proof fn conditional_jmp_constraints_describe_the_table(
    cond: Option<Sym>,
    a: Sym,
    f3: Sym,
    flag: Sym,
    n: nat,
    rho: Valuation,
)
    requires
        condition_below(cond, n),
        column(a, n, rho),
        column(f3, n, rho),
        column(flag, n, rho),
    ensures
        satisfiable(lookups::conditional_jmp_effects(cond, a, f3, flag, n), n, rho) <==> {
            ||| inactive(cond, rho)
            ||| {
                &&& a.eval(rho) < 16
                &&& f3.eval(rho) < 8
                &&& flag.eval(rho) == tables::branch_flag(a.eval(rho), f3.eval(rho))
            }
        },
{
    let es = lookups::conditional_jmp_effects(cond, a, f3, flag, n);
    if satisfiable(es, n, rho) {
        let rho2 = choose|rho2: Valuation| #[trigger]
            agree_below(rho, rho2, n) && ir::all_satisfied(es, rho2);
        lemma_eval_agrees(a, rho, rho2, n);
        lemma_eval_agrees(f3, rho, rho2, n);
        lemma_eval_agrees(flag, rho, rho2, n);
        lemma_condition_agrees(cond, rho, rho2, n);
        lemma_conditional_jmp_values(cond, a, f3, flag, n, rho2);
        lemma_comparison_values(cond, a, f3, flag, n, rho2);
    }
    let bits = a.eval(rho);
    let in_table = bits < 16 && f3.eval(rho) < 8 && flag.eval(rho) == tables::branch_flag(
        bits,
        f3.eval(rho),
    );
    if inactive(cond, rho) || in_table {
        let f = if in_table {
            f3.eval(rho)
        } else {
            0
        };
        let rho2 = with_results(rho, n, condition_results(bits, f));
        assert(agree_below(rho, rho2, n));
        lemma_eval_agrees(a, rho, rho2, n);
        lemma_eval_agrees(f3, rho, rho2, n);
        lemma_eval_agrees(flag, rho, rho2, n);
        lemma_condition_agrees(cond, rho, rho2, n);
        lemma_small(0);
        lemma_small(1);
        lemma_result(n, rho2);
        lemma_result(n + 1, rho2);
        lemma_result(n + 2, rho2);
        lemma_result(n + 3, rho2);
        assert forall|i: int| 0 <= i < 8 implies (#[trigger] hot(n + 12, i)).eval(rho2)
            == tables::flag(i == f) by {
            lemma_result((n + 12 + 2 * i) as nat, rho2);
        }
        lemma_hot_values(n + 12, f, rho2);
        lemma_comparison_values(cond, a, f3, flag, n, rho2);
        lemma_conditional_jmp_values(cond, a, f3, flag, n, rho2);
        assert(ir::all_satisfied(es, rho2));
    }
}

/// The sum of values.
pub open spec fn total_value(syms: Seq<Sym>, rho: Valuation) -> int
    decreases syms.len(),
{
    if syms.len() == 0 {
        0
    } else {
        total_value(syms.drop_last(), rho) + syms.last().eval(rho)
    }
}

proof fn lemma_bit_total(syms: Seq<Sym>, rho: Valuation)
    requires
        0 < syms.len() < p(),
        forall|i: int| 0 <= i < syms.len() ==> is_bit(#[trigger] syms[i].eval(rho)),
    ensures
        builder::fold(FeltBinary::Add, syms).eval(rho) == total_value(syms, rho),
        0 <= total_value(syms, rho) <= syms.len(),
    decreases syms.len(),
{
    assert(is_bit(syms.last().eval(rho)));
    if syms.len() > 1 {
        let front = syms.drop_last();
        assert forall|i: int| 0 <= i < front.len() implies is_bit(
            #[trigger] front[i].eval(rho),
        ) by {
            assert(is_bit(syms[i].eval(rho)));
        }
        lemma_bit_total(front, rho);
        lemma_small_sum(builder::fold(FeltBinary::Add, front), syms.last(), rho);
    } else {
        assert(total_value(syms.drop_last(), rho) == 0);
    }
}

/// The flag constraints of a disjunctive lookup hold exactly where every flag is zero or one
/// and at most one of them is one.
pub proof fn at_most_one_case_is_active(syms: Seq<Sym>, rho: Valuation)
    requires
        0 < syms.len() < p(),
        forall|i: int| 0 <= i < syms.len() ==> 0 <= #[trigger] syms[i].eval(rho) < p(),
    ensures
        ir::all_satisfied(
            lookups::boolean_effects(syms).push(
                builder::conditional_boolean(None, builder::fold(FeltBinary::Add, syms)),
            ),
            rho,
        ) <==> {
            &&& forall|i: int|
                0 <= i < syms.len() ==> (#[trigger] syms[i]).eval(rho) == 0 || syms[i].eval(rho)
                    == 1
            &&& total_value(syms, rho) <= 1
        },
{
    let bits = lookups::boolean_effects(syms);
    let sum = builder::fold(FeltBinary::Add, syms);
    let es = bits.push(builder::conditional_boolean(None, sum));
    assert forall|i: int| 0 <= i < syms.len() implies ir::satisfied(es[i], rho) <==> is_bit(
        #[trigger] syms[i].eval(rho),
    ) by {
        assert(es[i] == builder::conditional_boolean(None, syms[i]));
        conditional_booleans_are_zero_or_one(None, syms[i], rho);
    }
    if ir::all_satisfied(es, rho) {
        assert forall|i: int| 0 <= i < syms.len() implies is_bit(#[trigger] syms[i].eval(rho)) by {
            assert(ir::satisfied(es[i], rho));
        }
        lemma_bit_total(syms, rho);
        conditional_booleans_are_zero_or_one(None, sum, rho);
        assert(ir::satisfied(es[syms.len() as int], rho));
    }
    if (forall|i: int| 0 <= i < syms.len() ==> is_bit(#[trigger] syms[i].eval(rho)))
        && total_value(syms, rho) <= 1 {
        lemma_bit_total(syms, rho);
        conditional_booleans_are_zero_or_one(None, sum, rho);
        assert forall|i: int| 0 <= i < es.len() implies ir::satisfied(#[trigger] es[i], rho) by {
            if i < syms.len() {
                assert(is_bit(syms[i].eval(rho)));
            }
        }
    }
}

} // verus!
