//! The constraint language: expressions over the circuit field, constraints, modules.
use vstd::prelude::*;

use crate::circuit::CHARACTERISTICS;

verus! {

/// An arithmetic expression over the circuit field.
#[derive(Debug, PartialEq, Eq)]
pub enum PicusExpr {
    Const(u64),
    Var(usize),
    Add(Box<PicusExpr>, Box<PicusExpr>),
    Sub(Box<PicusExpr>, Box<PicusExpr>),
    Mul(Box<PicusExpr>, Box<PicusExpr>),
}

/// A constraint. `Eq` states that its expression is zero, `Det` that it is determined by the
/// inputs of its module.
#[derive(Debug, PartialEq, Eq)]
pub enum PicusConstraint {
    Lt(Box<PicusExpr>, Box<PicusExpr>),
    Leq(Box<PicusExpr>, Box<PicusExpr>),
    Eq(Box<PicusExpr>),
    Det(Box<PicusExpr>),
    And(Box<PicusConstraint>, Box<PicusConstraint>),
    Implies(Box<PicusConstraint>, Box<PicusConstraint>),
}

/// The sum of two expressions.
pub open spec fn sum(a: PicusExpr, b: PicusExpr) -> PicusExpr {
    PicusExpr::Add(Box::new(a), Box::new(b))
}

/// The difference of two expressions.
pub open spec fn difference(a: PicusExpr, b: PicusExpr) -> PicusExpr {
    PicusExpr::Sub(Box::new(a), Box::new(b))
}

/// The product of two expressions.
pub open spec fn product(a: PicusExpr, b: PicusExpr) -> PicusExpr {
    PicusExpr::Mul(Box::new(a), Box::new(b))
}

/// The constraint that an expression is zero or one.
pub open spec fn bit(e: PicusExpr) -> PicusConstraint {
    PicusConstraint::Eq(Box::new(product(e, difference(e, PicusExpr::Const(1)))))
}

/// The constraint that two expressions are equal.
pub open spec fn equal(a: PicusExpr, b: PicusExpr) -> PicusConstraint {
    PicusConstraint::Eq(Box::new(difference(a, b)))
}

/// The constraint that one expression is below another.
pub open spec fn below(a: PicusExpr, b: PicusExpr) -> PicusConstraint {
    PicusConstraint::Lt(Box::new(a), Box::new(b))
}

/// The constraint that an expression is below a number.
pub open spec fn below_const(a: PicusExpr, bound: u64) -> PicusConstraint {
    PicusConstraint::Lt(Box::new(a), Box::new(PicusExpr::Const(bound)))
}

/// The constraint that one expression is at most another.
pub open spec fn at_most(a: PicusExpr, b: PicusExpr) -> PicusConstraint {
    PicusConstraint::Leq(Box::new(a), Box::new(b))
}

/// The constraint that an expression is determined.
pub open spec fn det(e: PicusExpr) -> PicusConstraint {
    PicusConstraint::Det(Box::new(e))
}

/// The constraint that both hold.
pub open spec fn both(a: PicusConstraint, b: PicusConstraint) -> PicusConstraint {
    PicusConstraint::And(Box::new(a), Box::new(b))
}

/// The constraint that the first implies the second.
pub open spec fn implies(a: PicusConstraint, b: PicusConstraint) -> PicusConstraint {
    PicusConstraint::Implies(Box::new(a), Box::new(b))
}

/// The value that the last pair for a variable binds.
pub open spec fn bound_value(env: Seq<(usize, u64)>, var: usize) -> Option<u64>
    decreases env.len(),
{
    if env.len() == 0 {
        None
    } else if env.last().0 == var {
        Some(env.last().1)
    } else {
        bound_value(env.drop_last(), var)
    }
}

/// An assignment with some variables fixed.
pub open spec fn overridden(rho: spec_fn(usize) -> int, env: Seq<(usize, u64)>) -> spec_fn(
    usize,
) -> int {
    |v: usize|
        match bound_value(env, v) {
            Some(x) => x as int,
            None => rho(v),
        }
}

impl PicusExpr {
    /// The value under an assignment, as a canonical field element.
    #[verifier::opaque]
    pub open spec fn eval(self, rho: spec_fn(usize) -> int) -> int
        decreases self,
    {
        match self {
            PicusExpr::Const(c) => c as int % CHARACTERISTICS as int,
            PicusExpr::Var(v) => rho(v) % CHARACTERISTICS as int,
            PicusExpr::Add(a, b) => (a.eval(rho) + b.eval(rho)) % CHARACTERISTICS as int,
            PicusExpr::Sub(a, b) => (a.eval(rho) - b.eval(rho)) % CHARACTERISTICS as int,
            PicusExpr::Mul(a, b) => (a.eval(rho) * b.eval(rho)) % CHARACTERISTICS as int,
        }
    }

    /// Whether every variable of the expression is below a bound.
    pub open spec fn vars_below(self, n: int) -> bool
        decreases self,
    {
        match self {
            PicusExpr::Const(_) => true,
            PicusExpr::Var(v) => v < n,
            PicusExpr::Add(a, b) => a.vars_below(n) && b.vars_below(n),
            PicusExpr::Sub(a, b) => a.vars_below(n) && b.vars_below(n),
            PicusExpr::Mul(a, b) => a.vars_below(n) && b.vars_below(n),
        }
    }

    /// The expression with the bound variables replaced by their values.
    pub open spec fn subst(self, env: Seq<(usize, u64)>) -> PicusExpr
        decreases self,
    {
        match self {
            PicusExpr::Const(c) => PicusExpr::Const(c),
            PicusExpr::Var(v) => match bound_value(env, v) {
                Some(x) => PicusExpr::Const(x),
                None => PicusExpr::Var(v),
            },
            PicusExpr::Add(a, b) => sum(a.subst(env), b.subst(env)),
            PicusExpr::Sub(a, b) => difference(a.subst(env), b.subst(env)),
            PicusExpr::Mul(a, b) => product(a.subst(env), b.subst(env)),
        }
    }

    /// `self + other`
    pub fn plus(self, other: PicusExpr) -> (r: PicusExpr)
        ensures
            r == sum(self, other),
    {
        PicusExpr::Add(Box::new(self), Box::new(other))
    }

    /// `self - other`
    pub fn minus(self, other: PicusExpr) -> (r: PicusExpr)
        ensures
            r == difference(self, other),
    {
        PicusExpr::Sub(Box::new(self), Box::new(other))
    }

    /// `self * other`
    pub fn times(self, other: PicusExpr) -> (r: PicusExpr)
        ensures
            r == product(self, other),
    {
        PicusExpr::Mul(Box::new(self), Box::new(other))
    }

    /// Replaces the bound variables by their values.
    pub fn partial_eval(&self, env: &Vec<(usize, u64)>) -> (r: PicusExpr)
        ensures
            r == self.subst(env@),
        decreases self,
    {
        match self {
            PicusExpr::Const(c) => PicusExpr::Const(*c),
            PicusExpr::Var(v) => match lookup_bound(env, *v) {
                Some(x) => PicusExpr::Const(x),
                None => PicusExpr::Var(*v),
            },
            PicusExpr::Add(a, b) => a.partial_eval(env).plus(b.partial_eval(env)),
            PicusExpr::Sub(a, b) => a.partial_eval(env).minus(b.partial_eval(env)),
            PicusExpr::Mul(a, b) => a.partial_eval(env).times(b.partial_eval(env)),
        }
    }
}

impl Clone for PicusExpr {
    fn clone(&self) -> (r: Self)
        ensures
            r == *self,
        decreases self,
    {
        match self {
            PicusExpr::Const(c) => PicusExpr::Const(*c),
            PicusExpr::Var(v) => PicusExpr::Var(*v),
            PicusExpr::Add(a, b) => PicusExpr::Add(
                Box::new((&**a).clone()),
                Box::new((&**b).clone()),
            ),
            PicusExpr::Sub(a, b) => PicusExpr::Sub(
                Box::new((&**a).clone()),
                Box::new((&**b).clone()),
            ),
            PicusExpr::Mul(a, b) => PicusExpr::Mul(
                Box::new((&**a).clone()),
                Box::new((&**b).clone()),
            ),
        }
    }
}

/// The value bound to a variable, the last pair winning.
pub fn lookup_bound(env: &Vec<(usize, u64)>, var: usize) -> (r: Option<u64>)
    ensures
        r == bound_value(env@, var),
{
    let mut i: usize = env.len();
    assert(env@.take(i as int) =~= env@);
    while i > 0
        invariant
            i <= env.len(),
            bound_value(env@, var) == bound_value(env@.take(i as int), var),
        decreases i,
    {
        assert(env@.take(i as int).drop_last() =~= env@.take(i - 1));
        if env[i - 1].0 == var {
            return Some(env[i - 1].1);
        }
        i = i - 1;
    }
    None
}

impl PicusConstraint {
    /// Whether the constraint holds in the world `rho`, where `other` is a second world with
    /// the same inputs that determinism compares against.
    pub open spec fn holds(self, rho: spec_fn(usize) -> int, other: spec_fn(usize) -> int) -> bool
        decreases self,
    {
        match self {
            PicusConstraint::Lt(a, b) => a.eval(rho) < b.eval(rho),
            PicusConstraint::Leq(a, b) => a.eval(rho) <= b.eval(rho),
            PicusConstraint::Eq(e) => e.eval(rho) == 0,
            PicusConstraint::Det(e) => e.eval(rho) == e.eval(other),
            PicusConstraint::And(a, b) => a.holds(rho, other) && b.holds(rho, other),
            PicusConstraint::Implies(a, b) => a.holds(rho, other) ==> b.holds(rho, other),
        }
    }

    /// The constraint with the bound variables replaced by their values.
    pub open spec fn subst(self, env: Seq<(usize, u64)>) -> PicusConstraint
        decreases self,
    {
        match self {
            PicusConstraint::Lt(a, b) => below(a.subst(env), b.subst(env)),
            PicusConstraint::Leq(a, b) => at_most(a.subst(env), b.subst(env)),
            PicusConstraint::Eq(e) => PicusConstraint::Eq(Box::new(e.subst(env))),
            PicusConstraint::Det(e) => det(e.subst(env)),
            PicusConstraint::And(a, b) => both(a.subst(env), b.subst(env)),
            PicusConstraint::Implies(a, b) => implies(a.subst(env), b.subst(env)),
        }
    }

    /// The constraint that `e` is zero or one.
    pub fn new_bit(e: PicusExpr) -> (r: PicusConstraint)
        ensures
            r == bit(e),
    {
        let shifted = e.clone().minus(PicusExpr::Const(1));
        PicusConstraint::Eq(Box::new(e.times(shifted)))
    }

    /// The constraint that `a` and `b` are equal.
    pub fn new_equality(a: PicusExpr, b: PicusExpr) -> (r: PicusConstraint)
        ensures
            r == equal(a, b),
    {
        PicusConstraint::Eq(Box::new(a.minus(b)))
    }

    /// The constraint that `a` is below `bound`.
    pub fn new_lt(a: PicusExpr, bound: u64) -> (r: PicusConstraint)
        ensures
            r == below_const(a, bound),
    {
        PicusConstraint::Lt(Box::new(a), Box::new(PicusExpr::Const(bound)))
    }

    /// The constraint that `a` is at most `b`.
    pub fn new_leq(a: PicusExpr, b: PicusExpr) -> (r: PicusConstraint)
        ensures
            r == at_most(a, b),
    {
        PicusConstraint::Leq(Box::new(a), Box::new(b))
    }

    /// The constraint that `e` is determined.
    pub fn new_det(e: PicusExpr) -> (r: PicusConstraint)
        ensures
            r == det(e),
    {
        PicusConstraint::Det(Box::new(e))
    }

    /// Replaces the bound variables by their values.
    pub fn partial_eval(&self, env: &Vec<(usize, u64)>) -> (r: PicusConstraint)
        ensures
            r == self.subst(env@),
        decreases self,
    {
        match self {
            PicusConstraint::Lt(a, b) => PicusConstraint::Lt(
                Box::new(a.partial_eval(env)),
                Box::new(b.partial_eval(env)),
            ),
            PicusConstraint::Leq(a, b) => PicusConstraint::Leq(
                Box::new(a.partial_eval(env)),
                Box::new(b.partial_eval(env)),
            ),
            PicusConstraint::Eq(e) => PicusConstraint::Eq(Box::new(e.partial_eval(env))),
            PicusConstraint::Det(e) => PicusConstraint::Det(Box::new(e.partial_eval(env))),
            PicusConstraint::And(a, b) => PicusConstraint::And(
                Box::new(a.partial_eval(env)),
                Box::new(b.partial_eval(env)),
            ),
            PicusConstraint::Implies(a, b) => PicusConstraint::Implies(
                Box::new(a.partial_eval(env)),
                Box::new(b.partial_eval(env)),
            ),
        }
    }
}

impl Clone for PicusConstraint {
    fn clone(&self) -> (r: Self)
        ensures
            r == *self,
        decreases self,
    {
        match self {
            PicusConstraint::Lt(a, b) => PicusConstraint::Lt(
                Box::new((&**a).clone()),
                Box::new((&**b).clone()),
            ),
            PicusConstraint::Leq(a, b) => PicusConstraint::Leq(
                Box::new((&**a).clone()),
                Box::new((&**b).clone()),
            ),
            PicusConstraint::Eq(e) => PicusConstraint::Eq(Box::new((&**e).clone())),
            PicusConstraint::Det(e) => PicusConstraint::Det(Box::new((&**e).clone())),
            PicusConstraint::And(a, b) => PicusConstraint::And(
                Box::new((&**a).clone()),
                Box::new((&**b).clone()),
            ),
            PicusConstraint::Implies(a, b) => PicusConstraint::Implies(
                Box::new((&**a).clone()),
                Box::new((&**b).clone()),
            ),
        }
    }
}

/// A named set of constraints between inputs and outputs.
#[derive(Debug)]
pub struct PicusModule {
    pub name: String,
    pub inputs: Vec<PicusExpr>,
    pub outputs: Vec<PicusExpr>,
    pub constraints: Vec<PicusConstraint>,
    pub postconditions: Vec<PicusConstraint>,
}

/// Every expression of a list with the bound variables replaced.
pub open spec fn subst_exprs(es: Seq<PicusExpr>, env: Seq<(usize, u64)>) -> Seq<PicusExpr> {
    es.map_values(|e: PicusExpr| e.subst(env))
}

/// Every constraint of a list with the bound variables replaced.
pub open spec fn subst_constraints(
    cs: Seq<PicusConstraint>,
    env: Seq<(usize, u64)>,
) -> Seq<PicusConstraint> {
    cs.map_values(|c: PicusConstraint| c.subst(env))
}

fn partial_eval_exprs(es: &Vec<PicusExpr>, env: &Vec<(usize, u64)>) -> (r: Vec<PicusExpr>)
    ensures
        r@ == subst_exprs(es@, env@),
{
    let mut r: Vec<PicusExpr> = Vec::new();
    for i in 0..es.len()
        invariant
            r@ == subst_exprs(es@.take(i as int), env@),
    {
        r.push(es[i].partial_eval(env));
        assert(r@ =~= subst_exprs(es@.take(i + 1), env@));
    }
    assert(es@.take(es.len() as int) =~= es@);
    r
}

fn partial_eval_constraints(cs: &Vec<PicusConstraint>, env: &Vec<(usize, u64)>) -> (r: Vec<
    PicusConstraint,
>)
    ensures
        r@ == subst_constraints(cs@, env@),
{
    let mut r: Vec<PicusConstraint> = Vec::new();
    for i in 0..cs.len()
        invariant
            r@ == subst_constraints(cs@.take(i as int), env@),
    {
        r.push(cs[i].partial_eval(env));
        assert(r@ =~= subst_constraints(cs@.take(i + 1), env@));
    }
    assert(cs@.take(cs.len() as int) =~= cs@);
    r
}

impl PicusModule {
    /// An empty module.
    pub fn new(name: String) -> (r: PicusModule)
        ensures
            r.name@ == name@,
            r.inputs@ == Seq::<PicusExpr>::empty(),
            r.outputs@ == Seq::<PicusExpr>::empty(),
            r.constraints@ == Seq::<PicusConstraint>::empty(),
            r.postconditions@ == Seq::<PicusConstraint>::empty(),
    {
        PicusModule {
            name,
            inputs: Vec::new(),
            outputs: Vec::new(),
            constraints: Vec::new(),
            postconditions: Vec::new(),
        }
    }

    /// The module that is left when some variables are fixed, under a name of its own.
    pub open spec fn specialized_as(self, env: Seq<(usize, u64)>, r: PicusModule) -> bool {
        &&& r.inputs@ == subst_exprs(self.inputs@, env)
        &&& r.outputs@ == subst_exprs(self.outputs@, env)
        &&& r.constraints@ == subst_constraints(self.constraints@, env)
        &&& r.postconditions@ == subst_constraints(self.postconditions@, env)
    }

    /// Fixes some variables of the module and names the result.
    pub fn partial_eval(&self, env: &Vec<(usize, u64)>, name: String) -> (r: PicusModule)
        ensures
            self.specialized_as(env@, r),
            r.name@ == name@,
    {
        PicusModule {
            name,
            inputs: partial_eval_exprs(&self.inputs, env),
            outputs: partial_eval_exprs(&self.outputs, env),
            constraints: partial_eval_constraints(&self.constraints, env),
            postconditions: partial_eval_constraints(&self.postconditions, env),
        }
    }
}

/// Modules over one prime field.
#[derive(Debug)]
pub struct PicusProgram {
    pub prime: u64,
    pub modules: Vec<PicusModule>,
}

/// A later binding of a variable wins over an earlier one, and says nothing of other variables.
pub proof fn later_bindings_win(env: Seq<(usize, u64)>, var: usize, value: u64, other: usize)
    ensures
        bound_value(env.push((var, value)), var) == Some(value),
        other != var ==> bound_value(env.push((var, value)), other) == bound_value(env, other),
        bound_value(Seq::empty(), other) is None,
{
    assert(env.push((var, value)).drop_last() =~= env);
}

} // verus!
