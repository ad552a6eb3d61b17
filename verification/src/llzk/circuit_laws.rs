//! What the constrain function of a whole circuit says.
use vstd::prelude::*;

use crate::circuit::Boolean;
use crate::circuit::CircuitOutput;
use crate::circuit::Constraint;
use crate::circuit::DisjunctiveLookupCase;
use crate::circuit::LookupInput;
use crate::circuit::LookupQuery;
use crate::circuit::LookupQueryTableType;
use crate::circuit::Mersenne31Field;
use crate::circuit::RangeCheckQuery;
use crate::circuit::TableIds;
use crate::circuit::TableType;
use crate::circuit::Term;
use crate::circuit::Variable;
use crate::llzk::builder;
use crate::llzk::codegen;
use crate::llzk::config::LlzkStructLayout;
use crate::llzk::constraints;
use crate::llzk::constraints::Scope;
use crate::llzk::extract;
use crate::llzk::ir;
use crate::llzk::ir::Effect;
use crate::llzk::ir::FeltBinary;
use crate::llzk::ir::Sym;
use crate::llzk::ir::Valuation;
use crate::llzk::laws;
use crate::llzk::laws::Store;
use crate::llzk::lookups;
use crate::llzk::module::StructDef;
use crate::tables;

verus! {

/// Whether effects only read members.
pub open spec fn only_reads(es: Seq<Effect>) -> bool {
    forall|i: int| 0 <= i < es.len() ==> (#[trigger] es[i]) is MemberRead
}

/// Whether no effect reads a member.
pub open spec fn no_reads(es: Seq<Effect>) -> bool {
    forall|i: int| 0 <= i < es.len() ==> !((#[trigger] es[i]) is MemberRead)
}

/// Whether the constraints among the effects read no result from effect `n` on.
pub open spec fn effects_below(es: Seq<Effect>, n: nat) -> bool {
    forall|i: int| 0 <= i < es.len() ==> effect_below(#[trigger] es[i], n)
}

/// Whether an effect, if it is a constraint, reads no result from effect `n` on.
pub open spec fn effect_below(e: Effect, n: nat) -> bool {
    match e {
        Effect::ConstrainEq(a, b) => laws::reads_below(a, n) && laws::reads_below(b, n),
        _ => true,
    }
}

/// Whether effects that follow `k` others can be satisfied on a struct by a choice of the results
/// that they introduce.
pub open spec fn solvable(es: Seq<Effect>, k: nat, rho: Valuation, store: Store) -> bool {
    exists|rho2: Valuation| #[trigger]
        laws::agree_below(rho, rho2, k) && laws::faithful(es, k, rho2, store) && ir::all_satisfied(
            es,
            rho2,
        )
}

proof fn lemma_reads_weakened(e: Sym, n: nat, m: nat)
    requires
        laws::reads_below(e, n),
        n <= m,
    ensures
        laws::reads_below(e, m),
    decreases e,
{
    match e {
        Sym::FeltBinary(_, a, b)
        | Sym::Compare(_, a, b)
        | Sym::CompareInt(a, b)
        | Sym::BoolBinary(_, a, b)
        | Sym::ArrayRead(a, b) => {
            lemma_reads_weakened(*a, n, m);
            lemma_reads_weakened(*b, n, m);
        },
        Sym::FeltUnary(_, a) | Sym::BoolNot(a) => {
            lemma_reads_weakened(*a, n, m);
        },
        Sym::Select(c, a, b) => {
            lemma_reads_weakened(*c, n, m);
            lemma_reads_weakened(*a, n, m);
            lemma_reads_weakened(*b, n, m);
        },
        _ => {},
    }
}

proof fn lemma_effects_weakened(es: Seq<Effect>, n: nat, m: nat)
    requires
        effects_below(es, n),
        n <= m,
    ensures
        effects_below(es, m),
{
    assert forall|i: int| 0 <= i < es.len() implies effect_below(#[trigger] es[i], m) by {
        assert(effect_below(es[i], n));
        if let Effect::ConstrainEq(a, b) = es[i] {
            lemma_reads_weakened(a, n, m);
            lemma_reads_weakened(b, n, m);
        }
    }
}

proof fn lemma_effects_appended(a: Seq<Effect>, b: Seq<Effect>, n: nat)
    requires
        effects_below(a, n),
        effects_below(b, n),
    ensures
        effects_below(a + b, n),
{
    let es = a + b;
    assert forall|i: int| 0 <= i < es.len() implies effect_below(#[trigger] es[i], n) by {
        if i < a.len() {
            assert(es[i] == a[i]);
        } else {
            assert(es[i] == b[i - a.len()]);
        }
    }
}

proof fn lemma_satisfied_agrees(es: Seq<Effect>, n: nat, rho: Valuation, rho2: Valuation)
    requires
        effects_below(es, n),
        laws::agree_below(rho, rho2, n),
        ir::all_satisfied(es, rho),
    ensures
        ir::all_satisfied(es, rho2),
{
    assert forall|i: int| 0 <= i < es.len() implies ir::satisfied(#[trigger] es[i], rho2) by {
        assert(effect_below(es[i], n));
        assert(ir::satisfied(es[i], rho));
        if let Effect::ConstrainEq(a, b) = es[i] {
            laws::lemma_eval_agrees(a, rho, rho2, n);
            laws::lemma_eval_agrees(b, rho, rho2, n);
        }
    }
}

proof fn lemma_faithful_agrees(
    es: Seq<Effect>,
    k: nat,
    n: nat,
    rho: Valuation,
    rho2: Valuation,
    store: Store,
)
    requires
        k + es.len() <= n,
        laws::agree_below(rho, rho2, n),
        laws::faithful(es, k, rho, store),
    ensures
        laws::faithful(es, k, rho2, store),
{
    assert forall|i: int, limb: int| 0 <= i < es.len() implies match es[i] {
        Effect::MemberRead(_, name, _) => #[trigger] (rho2.result)((k + i) as nat, 0, limb)
            == store(name, limb),
        _ => true,
    } by {
        if es[i] is MemberRead {
            assert((rho.result)((k + i) as nat, 0, limb) == store(es[i]->MemberRead_1, limb));
            assert((rho.result)((k + i) as nat, 0, limb) == (rho2.result)((k + i) as nat, 0, limb));
        }
    }
}

proof fn lemma_faithful_joined(
    a: Seq<Effect>,
    b: Seq<Effect>,
    k: nat,
    rho: Valuation,
    store: Store,
)
    requires
        laws::faithful(a, k, rho, store),
        laws::faithful(b, k + a.len(), rho, store),
    ensures
        laws::faithful(a + b, k, rho, store),
{
    let es = a + b;
    assert forall|i: int, limb: int| 0 <= i < es.len() implies match es[i] {
        Effect::MemberRead(_, name, _) => #[trigger] (rho.result)((k + i) as nat, 0, limb)
            == store(name, limb),
        _ => true,
    } by {
        if i < a.len() {
            assert(es[i] == a[i]);
            if a[i] is MemberRead {
                assert((rho.result)((k + i) as nat, 0, limb) == store(a[i]->MemberRead_1, limb));
            }
        } else {
            let j = i - a.len();
            assert(es[i] == b[j]);
            if b[j] is MemberRead {
                assert((rho.result)((k + a.len() + j) as nat, 0, limb) == store(
                    b[j]->MemberRead_1,
                    limb,
                ));
            }
        }
    }
}

proof fn lemma_agree_twice(rho: Valuation, rho2: Valuation, rho3: Valuation, n: nat, m: nat)
    requires
        n <= m,
        laws::agree_below(rho, rho2, n),
        laws::agree_below(rho2, rho3, m),
    ensures
        laws::agree_below(rho, rho3, n),
{
    assert forall|k: nat, r: nat, limb: int| k < n implies #[trigger] (rho.result)(k, r, limb) == (
    rho3.result)(k, r, limb) by {
        assert((rho.result)(k, r, limb) == (rho2.result)(k, r, limb));
        assert((rho2.result)(k, r, limb) == (rho3.result)(k, r, limb));
    }
}

/// Two lists of effects in order can be satisfied where each can be satisfied on its own.
proof fn lemma_joined(
    a: Seq<Effect>,
    b: Seq<Effect>,
    k: nat,
    rho: Valuation,
    store: Store,
    holds_a: bool,
    holds_b: bool,
)
    requires
        effects_below(a, k + a.len()),
        solvable(a, k, rho, store) <==> holds_a,
        forall|rho2: Valuation|
            rho2.arg == rho.arg ==> (#[trigger] solvable(b, k + a.len(), rho2, store) <==> holds_b),
    ensures
        solvable(a + b, k, rho, store) <==> holds_a && holds_b,
{
    let m = k + a.len();
    if solvable(a + b, k, rho, store) {
        let rho2 = choose|rho2: Valuation| #[trigger]
            laws::agree_below(rho, rho2, k) && laws::faithful(a + b, k, rho2, store)
                && ir::all_satisfied(a + b, rho2);
        laws::lemma_faithful_append(a, b, k, rho2, store);
        ir::satisfied_appended(a, b, rho2);
        assert(laws::agree_below(rho2, rho2, m));
        assert(solvable(b, m, rho2, store));
    }
    if holds_a && holds_b {
        let rho2 = choose|rho2: Valuation| #[trigger]
            laws::agree_below(rho, rho2, k) && laws::faithful(a, k, rho2, store)
                && ir::all_satisfied(a, rho2);
        assert(solvable(b, m, rho2, store));
        let rho3 = choose|rho3: Valuation| #[trigger]
            laws::agree_below(rho2, rho3, m) && laws::faithful(b, m, rho3, store)
                && ir::all_satisfied(b, rho3);
        lemma_satisfied_agrees(a, m, rho2, rho3);
        lemma_faithful_agrees(a, k, m, rho2, rho3, store);
        lemma_faithful_joined(a, b, k, rho3, store);
        ir::satisfied_appended(a, b, rho3);
        lemma_agree_twice(rho, rho2, rho3, k, m);
    }
}

/// A valuation in which the members that effects from `k` on read have the values of the struct.
spec fn with_reads(es: Seq<Effect>, k: nat, rho: Valuation, store: Store) -> Valuation {
    Valuation {
        arg: rho.arg,
        result: |j: nat, r: nat, limb: int|
            if k <= j < k + es.len() && es[j - k] is MemberRead && r == 0 {
                store(es[j - k]->MemberRead_1, limb)
            } else {
                (rho.result)(j, r, limb)
            },
    }
}

proof fn lemma_with_reads(es: Seq<Effect>, k: nat, rho: Valuation, store: Store)
    ensures
        laws::agree_below(rho, with_reads(es, k, rho, store), k),
        laws::faithful(es, k, with_reads(es, k, rho, store), store),
{
}

/// Whether a reading reads members only, and its term no later result.
pub open spec fn reads_only(sym: Sym, effects: Seq<Effect>, k: nat) -> bool {
    only_reads(effects) && laws::reads_below(sym, k + effects.len())
}

proof fn lemma_read(sc: Scope, v: Variable, k: nat)
    requires
        constraints::read(sc, v, k) is Ok,
    ensures
        reads_only(
            constraints::read(sc, v, k)->Ok_0.sym,
            constraints::read(sc, v, k)->Ok_0.effects,
            k,
        ),
{
    reveal_with_fuel(laws::reads_below, 3);
}

proof fn lemma_monomial(sc: Scope, factors: Seq<Variable>, k: nat)
    requires
        constraints::monomial(sc, factors, k) is Ok,
    ensures
        reads_only(
            constraints::monomial(sc, factors, k)->Ok_0.sym,
            constraints::monomial(sc, factors, k)->Ok_0.effects,
            k,
        ),
    decreases factors.len(),
{
    reveal_with_fuel(laws::reads_below, 2);
    if factors.len() > 0 {
        let m = constraints::monomial(sc, factors.drop_last(), k)->Ok_0;
        let v = constraints::read(sc, factors.last(), k + m.effects.len())->Ok_0;
        lemma_monomial(sc, factors.drop_last(), k);
        lemma_read(sc, factors.last(), k + m.effects.len());
        lemma_reads_weakened(
            m.sym,
            k + m.effects.len(),
            k + m.effects.len() + v.effects.len(),
        );
    }
}

proof fn lemma_term(sc: Scope, t: Term, k: nat)
    requires
        constraints::term(sc, t, k) is Ok,
    ensures
        reads_only(
            constraints::term(sc, t, k)->Ok_0.sym,
            constraints::term(sc, t, k)->Ok_0.effects,
            k,
        ),
{
    reveal_with_fuel(laws::reads_below, 4);
    match t {
        Term::Constant(_) => {},
        Term::Expression { .. } => {
            lemma_monomial(sc, t.factors(), k);
        },
    }
}

proof fn lemma_fold_below(syms: Seq<Sym>, n: nat)
    requires
        forall|i: int| 0 <= i < syms.len() ==> laws::reads_below(#[trigger] syms[i], n),
    ensures
        laws::reads_below(builder::fold(FeltBinary::Add, syms), n),
    decreases syms.len(),
{
    reveal_with_fuel(laws::reads_below, 2);
    if syms.len() > 1 {
        let front = syms.drop_last();
        assert forall|i: int| 0 <= i < front.len() implies laws::reads_below(
            #[trigger] front[i],
            n,
        ) by {
            assert(front[i] == syms[i]);
        }
        assert(syms.last() == syms[syms.len() - 1]);
        lemma_fold_below(front, n);
    }
}

proof fn lemma_terms(sc: Scope, ts: Seq<Term>, k: nat)
    requires
        constraints::terms(sc, ts, k) is Ok,
    ensures
        only_reads(constraints::terms(sc, ts, k)->Ok_0.effects),
        constraints::terms(sc, ts, k)->Ok_0.syms.len() == ts.len(),
        forall|i: int|
            0 <= i < ts.len() ==> laws::reads_below(
                #[trigger] constraints::terms(sc, ts, k)->Ok_0.syms[i],
                k + constraints::terms(sc, ts, k)->Ok_0.effects.len(),
            ),
    decreases ts.len(),
{
    if ts.len() > 0 {
        let front = ts.drop_last();
        let head = constraints::terms(sc, front, k)->Ok_0;
        let t = constraints::term(sc, ts.last(), k + head.effects.len())->Ok_0;
        let all = constraints::terms(sc, ts, k)->Ok_0;
        lemma_terms(sc, front, k);
        lemma_term(sc, ts.last(), k + head.effects.len());
        assert forall|i: int| 0 <= i < ts.len() implies laws::reads_below(
            #[trigger] all.syms[i],
            k + all.effects.len(),
        ) by {
            if i < front.len() {
                assert(all.syms[i] == head.syms[i]);
                lemma_reads_weakened(
                    head.syms[i],
                    k + head.effects.len(),
                    k + all.effects.len(),
                );
            }
        }
    }
}

proof fn lemma_linear(
    sc: Scope,
    constant: u64,
    ts: Seq<(Mersenne31Field, Variable)>,
    k: nat,
)
    requires
        constraints::linear(sc, constant, ts, k) is Ok,
    ensures
        reads_only(
            constraints::linear(sc, constant, ts, k)->Ok_0.sym,
            constraints::linear(sc, constant, ts, k)->Ok_0.effects,
            k,
        ),
    decreases ts.len(),
{
    reveal_with_fuel(laws::reads_below, 4);
    if ts.len() > 0 {
        let head = constraints::linear(sc, constant, ts.drop_last(), k)->Ok_0;
        let v = constraints::read(sc, ts.last().1, k + head.effects.len())->Ok_0;
        lemma_linear(sc, constant, ts.drop_last(), k);
        lemma_read(sc, ts.last().1, k + head.effects.len());
        lemma_reads_weakened(
            head.sym,
            k + head.effects.len(),
            k + head.effects.len() + v.effects.len(),
        );
    }
}

proof fn lemma_input(sc: Scope, i: LookupInput, k: nat)
    requires
        constraints::input(sc, i, k) is Ok,
    ensures
        reads_only(
            constraints::input(sc, i, k)->Ok_0.sym,
            constraints::input(sc, i, k)->Ok_0.effects,
            k,
        ),
{
    match i {
        LookupInput::Variable(v) => lemma_read(sc, v, k),
        LookupInput::Expression { linear_terms, constant_coeff } => lemma_linear(
            sc,
            constant_coeff.reduced(),
            linear_terms@,
            k,
        ),
    }
}

proof fn lemma_reads_satisfied(es: Seq<Effect>, rho: Valuation)
    requires
        only_reads(es),
    ensures
        ir::all_satisfied(es, rho),
        forall|n: nat| effects_below(es, n),
{
    assert forall|n: nat| effects_below(es, n) by {
        assert forall|i: int| 0 <= i < es.len() implies effect_below(#[trigger] es[i], n) by {
            assert(es[i] is MemberRead);
        }
    }
    assert forall|i: int| 0 <= i < es.len() implies ir::satisfied(#[trigger] es[i], rho) by {
        assert(es[i] is MemberRead);
    }
}

/// Readings and then one constraint can be satisfied where the constraint holds of what is read.
proof fn lemma_checked(
    reads: Seq<Effect>,
    check: Effect,
    k: nat,
    rho: Valuation,
    store: Store,
    holds: bool,
)
    requires
        only_reads(reads),
        check is ConstrainEq,
        effect_below(check, k + reads.len()),
        forall|rho2: Valuation|
            rho2.arg == rho.arg && #[trigger] laws::faithful(reads, k, rho2, store) ==> (
            ir::satisfied(check, rho2) <==> holds),
    ensures
        solvable(reads.push(check), k, rho, store) <==> holds,
        effects_below(reads.push(check), k + reads.len() + 1),
{
    let es = reads.push(check);
    assert(es =~= reads + seq![check]);
    lemma_reads_satisfied(reads, rho);
    assert(effects_below(seq![check], k + reads.len()));
    lemma_effects_weakened(seq![check], k + reads.len(), k + reads.len() + 1);
    lemma_effects_appended(reads, seq![check], k + reads.len() + 1);
    if solvable(es, k, rho, store) {
        let rho2 = choose|rho2: Valuation| #[trigger]
            laws::agree_below(rho, rho2, k) && laws::faithful(es, k, rho2, store)
                && ir::all_satisfied(es, rho2);
        laws::lemma_faithful_append(reads, seq![check], k, rho2, store);
        assert(ir::satisfied(es[reads.len() as int], rho2));
    }
    if holds {
        let rho2 = with_reads(es, k, rho, store);
        lemma_with_reads(es, k, rho, store);
        laws::lemma_faithful_append(reads, seq![check], k, rho2, store);
        lemma_reads_satisfied(reads, rho2);
        assert(ir::satisfied(check, rho2));
        assert(ir::all_satisfied(es, rho2)) by {
            assert forall|i: int| 0 <= i < es.len() implies ir::satisfied(
                #[trigger] es[i],
                rho2,
            ) by {
                if i < reads.len() {
                    assert(ir::satisfied(reads[i], rho2));
                }
            }
        }
    }
}

/// Whether a value is zero or one.
pub open spec fn is_bit(x: int) -> bool {
    x == 0 || x == 1
}

/// Whether a value is below the bound of a range check, as the field reads it.
pub open spec fn fits(x: int, width: usize) -> bool {
    x < (1u64 << width) as int % laws::p()
}

/// Whether the values of a row satisfy what is kept of a table: the tables with an arithmetic
/// description are kept exactly, and the others by the widths of their columns.
pub open spec fn row_holds(table: TableType, a: int, b: int, c: int) -> bool {
    match table {
        TableType::ConditionalJmpBranchSlt => a < 16 && b < 8 && c == tables::branch_flag(a, b),
        TableType::JumpCleanupOffset => a < 0x1_0000 && (b, c) == tables::jump_cleanup(a),
        TableType::RomAddressSpaceSeparator => a < 0x1_0000 && (b, c) == tables::rom_separator(a),
        TableType::MemoryGetOffsetAndMaskWithTrap => a < 0x20_0000 && b < 16 && c < 0x100,
        TableType::AlignedRomRead => a < 0x10_0000 && b < 0x1_0000 && c < 0x1_0000,
        _ => a < 0x20_0000 && b < 0x1_0000 && c < 0x1_0000,
    }
}

/// The value of a lookup input in the field.
pub open spec fn column_value(input: LookupInput, sigma: spec_fn(Variable) -> int) -> int {
    laws::input_value(input, sigma) % laws::p()
}

/// Whether a lookup query holds. One whose table is a variable is not constrained.
pub open spec fn query_holds(query: LookupQuery, sigma: spec_fn(Variable) -> int) -> bool {
    match query.table {
        LookupQueryTableType::Variable(_) => true,
        LookupQueryTableType::Constant(table) => row_holds(
            table,
            column_value(query.row@[0], sigma),
            column_value(query.row@[1], sigma),
            column_value(query.row@[2], sigma),
        ),
    }
}

/// Whether a polynomial constraint holds in the field.
pub open spec fn constraint_holds(c: Constraint, sigma: spec_fn(Variable) -> int) -> bool {
    laws::polynomial_value(c.terms@, sigma) % laws::p() == 0
}

/// Whether every boolean variable is zero or one.
pub open spec fn booleans_hold(vs: Seq<Variable>, sigma: spec_fn(Variable) -> int) -> bool {
    forall|i: int| 0 <= i < vs.len() ==> is_bit(sigma(#[trigger] vs[i]))
}

/// Whether every range check holds.
pub open spec fn ranges_hold(qs: Seq<RangeCheckQuery>, sigma: spec_fn(Variable) -> int) -> bool {
    forall|i: int|
        0 <= i < qs.len() ==> fits(sigma((#[trigger] qs[i]).input->Variable_0), qs[i].width)
}

/// Whether every lookup query holds.
pub open spec fn queries_hold(qs: Seq<LookupQuery>, sigma: spec_fn(Variable) -> int) -> bool {
    forall|i: int| 0 <= i < qs.len() ==> query_holds(#[trigger] qs[i], sigma)
}

/// Whether every polynomial constraint holds.
pub open spec fn constraints_hold(
    cs: Seq<(Constraint, bool)>,
    sigma: spec_fn(Variable) -> int,
) -> bool {
    forall|i: int| 0 <= i < cs.len() ==> constraint_holds((#[trigger] cs[i]).0, sigma)
}

/// Whether values of the variables satisfy a circuit.
pub open spec fn circuit_holds(co: CircuitOutput, sigma: spec_fn(Variable) -> int) -> bool {
    &&& booleans_hold(co.boolean_vars@, sigma)
    &&& ranges_hold(co.range_check_expressions@, sigma)
    &&& queries_hold(co.lookups@, sigma)
    &&& constraints_hold(co.constraints@, sigma)
}

/// Whether every term of a constraint keeps its value when it is lowered.
pub open spec fn keeps_values(c: Constraint) -> bool {
    forall|i: int| 0 <= i < c.terms@.len() ==> laws::keeps_value(#[trigger] c.terms@[i])
}

proof fn lemma_same_values(sc: Scope, rho: Valuation, rho2: Valuation, store: Store)
    requires
        rho.arg == rho2.arg,
    ensures
        laws::variable_value(sc, rho, store) == laws::variable_value(sc, rho2, store),
{
    assert(laws::variable_value(sc, rho, store) =~= laws::variable_value(sc, rho2, store));
}

proof fn lemma_boolean_check(sc: Scope, v: Variable, k: nat, rho: Valuation, store: Store)
    requires
        constraints::boolean_check(sc, v, k) is Ok,
    ensures
        solvable(constraints::boolean_check(sc, v, k)->Ok_0, k, rho, store) <==> is_bit(
            laws::variable_value(sc, rho, store)(v),
        ),
        effects_below(
            constraints::boolean_check(sc, v, k)->Ok_0,
            k + constraints::boolean_check(sc, v, k)->Ok_0.len(),
        ),
{
    reveal_with_fuel(laws::reads_below, 4);
    let r = constraints::read(sc, v, k)->Ok_0;
    let check = builder::conditional_boolean(None, r.sym);
    let holds = is_bit(laws::variable_value(sc, rho, store)(v));
    lemma_read(sc, v, k);
    assert forall|rho2: Valuation|
        rho2.arg == rho.arg && #[trigger] laws::faithful(r.effects, k, rho2, store) implies (
    ir::satisfied(check, rho2) <==> holds) by {
        lemma_same_values(sc, rho, rho2, store);
        laws::variables_are_read(sc, v, k, rho2, store);
        laws::conditional_booleans_are_zero_or_one(None, r.sym, rho2);
    }
    lemma_checked(r.effects, check, k, rho, store, holds);
}

proof fn lemma_range_check(
    sc: Scope,
    v: Variable,
    width: usize,
    k: nat,
    rho: Valuation,
    store: Store,
)
    requires
        constraints::range_check(sc, v, width, k) is Ok,
    ensures
        solvable(constraints::range_check(sc, v, width, k)->Ok_0, k, rho, store) <==> fits(
            laws::variable_value(sc, rho, store)(v),
            width,
        ),
        effects_below(
            constraints::range_check(sc, v, width, k)->Ok_0,
            k + constraints::range_check(sc, v, width, k)->Ok_0.len(),
        ),
{
    reveal_with_fuel(laws::reads_below, 4);
    let r = constraints::read(sc, v, k)->Ok_0;
    let check = Effect::ConstrainEq(builder::in_range(r.sym, width), ir::boolean(true));
    let holds = fits(laws::variable_value(sc, rho, store)(v), width);
    lemma_read(sc, v, k);
    assert forall|rho2: Valuation|
        rho2.arg == rho.arg && #[trigger] laws::faithful(r.effects, k, rho2, store) implies (
    ir::satisfied(check, rho2) <==> holds) by {
        reveal_with_fuel(Sym::eval, 3);
        lemma_same_values(sc, rho, rho2, store);
        laws::variables_are_read(sc, v, k, rho2, store);
        assert(ir::felt(1u64 << width).eval(rho2) == (1u64 << width) as int % laws::p());
        assert(ir::boolean(true).eval(rho2) == 1);
    }
    lemma_checked(r.effects, check, k, rho, store, holds);
}

proof fn lemma_constraint(sc: Scope, c: Constraint, k: nat, rho: Valuation, store: Store)
    requires
        constraints::constraint(sc, c, k) is Ok,
        keeps_values(c),
    ensures
        solvable(constraints::constraint(sc, c, k)->Ok_0, k, rho, store) <==> constraint_holds(
            c,
            laws::variable_value(sc, rho, store),
        ),
        effects_below(
            constraints::constraint(sc, c, k)->Ok_0,
            k + constraints::constraint(sc, c, k)->Ok_0.len(),
        ),
{
    reveal_with_fuel(laws::reads_below, 2);
    let r = constraints::terms(sc, c.terms@, k)->Ok_0;
    let check = Effect::ConstrainEq(builder::fold(FeltBinary::Add, r.syms), ir::felt(0));
    let es = constraints::constraint(sc, c, k)->Ok_0;
    let holds = constraint_holds(c, laws::variable_value(sc, rho, store));
    lemma_terms(sc, c.terms@, k);
    lemma_fold_below(r.syms, k + r.effects.len());
    assert forall|rho2: Valuation|
        rho2.arg == rho.arg && #[trigger] laws::faithful(r.effects, k, rho2, store) implies (
    ir::satisfied(check, rho2) <==> holds) by {
        lemma_same_values(sc, rho, rho2, store);
        lemma_faithful_joined(r.effects, seq![check], k, rho2, store);
        assert(es =~= r.effects + seq![check]);
        laws::constraints_hold_where_the_polynomial_vanishes(sc, c, k, rho2, store);
    }
    lemma_checked(r.effects, check, k, rho, store, holds);
}

proof fn lemma_selected_below(hot: Seq<Sym>, eq: Sym, signed_lt: Sym, unsigned_lt: Sym, n: nat)
    requires
        hot.len() == 8,
        forall|i: int| 0 <= i < 8 ==> laws::reads_below(#[trigger] hot[i], n),
        laws::reads_below(eq, n),
        laws::reads_below(signed_lt, n),
        laws::reads_below(unsigned_lt, n),
    ensures
        laws::reads_below(lookups::selected_condition(hot, eq, signed_lt, unsigned_lt), n),
{
    reveal_with_fuel(laws::reads_below, 12);
}

proof fn lemma_reconstruction_below(bits: Seq<Sym>, n: nat)
    requires
        bits.len() > 0,
        forall|i: int| 0 <= i < bits.len() ==> laws::reads_below(#[trigger] bits[i], n),
    ensures
        laws::reads_below(builder::one_hot_reconstruction(bits), n),
    decreases bits.len(),
{
    reveal_with_fuel(laws::reads_below, 4);
    if bits.len() > 1 {
        let front = bits.drop_last();
        assert forall|i: int| 0 <= i < front.len() implies laws::reads_below(
            #[trigger] front[i],
            n,
        ) by {
            assert(front[i] == bits[i]);
        }
        lemma_reconstruction_below(front, n);
    }
}

/// Whether effects read no member, and their constraints no result from effect `n` on.
spec fn constrains_below(es: Seq<Effect>, n: nat) -> bool {
    no_reads(es) && effects_below(es, n)
}

proof fn lemma_one_hot_bits_below(k: nat, count: nat, n: nat)
    requires
        k + 2 * count <= n,
    ensures
        constrains_below(builder::one_hot_bit_effects(k, count), n),
        builder::one_hot_bit_effects(k, count).len() == 2 * count,
    decreases count,
{
    reveal_with_fuel(laws::reads_below, 4);
    if count > 0 {
        lemma_one_hot_bits_below(k, (count - 1) as nat, n);
    }
}

proof fn lemma_condition_weakened(cond: Option<Sym>, n: nat, m: nat)
    requires
        laws::condition_below(cond, n),
        n <= m,
    ensures
        laws::condition_below(cond, m),
{
    if let Some(c) = cond {
        lemma_reads_weakened(c, n, m);
    }
}

proof fn lemma_comparison_below(cond: Option<Sym>, a: Sym, f3: Sym, flag: Sym, n: nat)
    requires
        laws::condition_below(cond, n),
        laws::reads_below(a, n),
        laws::reads_below(f3, n),
        laws::reads_below(flag, n),
    ensures
        constrains_below(lookups::comparison_effects(cond, a, f3, flag, n), n + 12),
{
    reveal_with_fuel(laws::reads_below, 10);
    lemma_condition_weakened(cond, n, n + 12);
    lemma_reads_weakened(a, n, n + 12);
    lemma_reads_weakened(f3, n, n + 12);
    lemma_reads_weakened(flag, n, n + 12);
}

proof fn lemma_conditional_jmp_below(cond: Option<Sym>, a: Sym, f3: Sym, flag: Sym, n: nat)
    requires
        laws::condition_below(cond, n),
        laws::reads_below(a, n),
        laws::reads_below(f3, n),
        laws::reads_below(flag, n),
    ensures
        constrains_below(
            lookups::conditional_jmp_effects(cond, a, f3, flag, n),
            n + lookups::conditional_jmp_effects(cond, a, f3, flag, n).len(),
        ),
{
    let m = n + 31;
    let hot = builder::one_hot_terms(n + 12, 8);
    let first = lookups::comparison_effects(cond, a, f3, flag, n);
    let second = builder::one_hot_effects(n + 12, 8);
    let signed_lt = lookups::signed_less(
        lookups::fresh(n),
        lookups::fresh(n + 2),
        lookups::fresh(n + 3),
    );
    lemma_comparison_below(cond, a, f3, flag, n);
    lemma_effects_weakened(first, n + 12, m);
    lemma_one_hot_bits_below(n + 12, 8, m);
    lemma_fold_below(hot, m);
    lemma_reconstruction_below(hot, m);
    assert(laws::reads_below(signed_lt, m)) by {
        reveal_with_fuel(laws::reads_below, 10);
    }
    lemma_selected_below(hot, lookups::fresh(n + 1), signed_lt, lookups::fresh(n), m);
    lemma_condition_weakened(cond, n, m);
    lemma_reads_weakened(f3, n, m);
    lemma_reads_weakened(flag, n, m);
    let third = seq![
        lookups::equal(cond, f3, builder::one_hot_reconstruction(hot)),
        lookups::equal(
            cond,
            flag,
            lookups::selected_condition(hot, lookups::fresh(n + 1), signed_lt, lookups::fresh(n)),
        ),
    ];
    assert(constrains_below(second, m));
    assert(constrains_below(third, m)) by {
        reveal_with_fuel(laws::reads_below, 6);
    }
    lemma_effects_appended(first, second, m);
    lemma_effects_appended(first + second, third, m);
    assert(lookups::conditional_jmp_effects(cond, a, f3, flag, n) =~= first + second + third);
}

proof fn lemma_table_below(
    table: TableType,
    cond: Option<Sym>,
    columns: (Sym, Sym, Sym),
    n: nat,
)
    requires
        laws::condition_below(cond, n),
        laws::reads_below(columns.0, n),
        laws::reads_below(columns.1, n),
        laws::reads_below(columns.2, n),
    ensures
        constrains_below(
            lookups::table_effects(table, cond, columns, n),
            n + lookups::table_effects(table, cond, columns, n).len(),
        ),
{
    let es = lookups::table_effects(table, cond, columns, n);
    if table is ConditionalJmpBranchSlt {
        lemma_conditional_jmp_below(cond, columns.0, columns.1, columns.2, n);
    } else {
        reveal_with_fuel(laws::reads_below, 6);
        lemma_condition_weakened(cond, n, n + es.len());
        lemma_reads_weakened(columns.0, n, n + es.len());
        lemma_reads_weakened(columns.1, n, n + es.len());
        lemma_reads_weakened(columns.2, n, n + es.len());
    }
}

/// The effects of a row can be satisfied by a choice of the values that they introduce exactly
/// where the row satisfies what is kept of its table.
pub proof fn table_effects_describe_rows(
    table: TableType,
    columns: (Sym, Sym, Sym),
    n: nat,
    rho: Valuation,
)
    requires
        laws::column(columns.0, n, rho),
        laws::column(columns.1, n, rho),
        laws::column(columns.2, n, rho),
    ensures
        laws::satisfiable(lookups::table_effects(table, None, columns, n), n, rho) <==> row_holds(
            table,
            columns.0.eval(rho),
            columns.1.eval(rho),
            columns.2.eval(rho),
        ),
{
    let (a, b, c) = columns;
    let es = lookups::table_effects(table, None, columns, n);
    match table {
        TableType::ConditionalJmpBranchSlt => {
            laws::conditional_jmp_constraints_describe_the_table(None, a, b, c, n, rho);
        },
        TableType::JumpCleanupOffset => {
            laws::jump_cleanup_constraints_describe_the_table(None, a, b, c, n, rho);
        },
        TableType::RomAddressSpaceSeparator => {
            laws::rom_separator_constraints_describe_the_table(None, a, b, c, n, rho);
        },
        _ => {
            let widths = lookups::column_widths(table);
            laws::lemma_widths();
            laws::summarized_tables_bound_their_columns(None, columns, widths, rho);
            assert(laws::agree_below(rho, rho, n));
            if laws::satisfiable(es, n, rho) {
                let rho2 = choose|rho2: Valuation| #[trigger]
                    laws::agree_below(rho, rho2, n) && ir::all_satisfied(es, rho2);
                laws::lemma_eval_agrees(a, rho, rho2, n);
                laws::lemma_eval_agrees(b, rho, rho2, n);
                laws::lemma_eval_agrees(c, rho, rho2, n);
                laws::summarized_tables_bound_their_columns(None, columns, widths, rho2);
            }
        },
    }
}

proof fn lemma_row_reading(sc: Scope, row: Seq<LookupInput>, k: nat, rho: Valuation, store: Store)
    requires
        lookups::row_reading(sc, row, None, k) is Ok,
    ensures
        ({
            let r = lookups::row_reading(sc, row, None, k)->Ok_0;
            let sigma = laws::variable_value(sc, rho, store);
            let m = k + r.effects.len();
            &&& only_reads(r.effects)
            &&& laws::reads_below(r.columns.0, m)
            &&& laws::reads_below(r.columns.1, m)
            &&& laws::reads_below(r.columns.2, m)
            &&& laws::faithful(r.effects, k, rho, store) ==> {
                &&& r.columns.0.eval(rho) == column_value(row[0], sigma)
                &&& r.columns.1.eval(rho) == column_value(row[1], sigma)
                &&& r.columns.2.eval(rho) == column_value(row[2], sigma)
            }
        }),
{
    let a = constraints::input(sc, row[0], k)->Ok_0;
    let kb = k + a.effects.len();
    let b = constraints::input(sc, row[1], kb)->Ok_0;
    let kc = kb + b.effects.len();
    let c = constraints::input(sc, row[2], kc)->Ok_0;
    let m = kc + c.effects.len();
    lemma_input(sc, row[0], k);
    lemma_input(sc, row[1], kb);
    lemma_input(sc, row[2], kc);
    lemma_reads_weakened(a.sym, kb, m);
    lemma_reads_weakened(b.sym, kc, m);
    if laws::faithful(a.effects + b.effects + c.effects, k, rho, store) {
        laws::lemma_faithful_append(a.effects + b.effects, c.effects, k, rho, store);
        laws::lemma_faithful_append(a.effects, b.effects, k, rho, store);
        laws::lookup_inputs_keep_their_value(sc, row[0], k, rho, store);
        laws::lookup_inputs_keep_their_value(sc, row[1], kb, rho, store);
        laws::lookup_inputs_keep_their_value(sc, row[2], kc, rho, store);
    }
}

proof fn lemma_query(sc: Scope, q: LookupQuery, k: nat, rho: Valuation, store: Store)
    requires
        lookups::query_effects(sc, q, k) is Ok,
    ensures
        solvable(lookups::query_effects(sc, q, k)->Ok_0, k, rho, store) <==> query_holds(
            q,
            laws::variable_value(sc, rho, store),
        ),
        effects_below(
            lookups::query_effects(sc, q, k)->Ok_0,
            k + lookups::query_effects(sc, q, k)->Ok_0.len(),
        ),
{
    let es = lookups::query_effects(sc, q, k)->Ok_0;
    let sigma = laws::variable_value(sc, rho, store);
    match q.table {
        LookupQueryTableType::Variable(_) => {
            assert(laws::agree_below(rho, rho, k));
        },
        LookupQueryTableType::Constant(table) => {
            let r = lookups::row_reading(sc, q.row@, None, k)->Ok_0;
            let m = k + r.effects.len();
            let te = lookups::table_effects(table, None, r.columns, m);
            lemma_row_reading(sc, q.row@, k, rho, store);
            lemma_table_below(table, None, r.columns, m);
            lemma_reads_satisfied(r.effects, rho);
            lemma_effects_appended(r.effects, te, m + te.len());
            if solvable(es, k, rho, store) {
                let rho2 = choose|rho2: Valuation| #[trigger]
                    laws::agree_below(rho, rho2, k) && laws::faithful(es, k, rho2, store)
                        && ir::all_satisfied(es, rho2);
                lemma_same_values(sc, rho, rho2, store);
                laws::lemma_faithful_append(r.effects, te, k, rho2, store);
                ir::satisfied_appended(r.effects, te, rho2);
                lemma_row_reading(sc, q.row@, k, rho2, store);
                assert(laws::agree_below(rho2, rho2, m));
                table_effects_describe_rows(table, r.columns, m, rho2);
            }
            if query_holds(q, sigma) {
                let rho2 = with_reads(r.effects, k, rho, store);
                lemma_with_reads(r.effects, k, rho, store);
                lemma_same_values(sc, rho, rho2, store);
                lemma_row_reading(sc, q.row@, k, rho2, store);
                table_effects_describe_rows(table, r.columns, m, rho2);
                let rho3 = choose|rho3: Valuation| #[trigger]
                    laws::agree_below(rho2, rho3, m) && ir::all_satisfied(te, rho3);
                lemma_faithful_agrees(r.effects, k, m, rho2, rho3, store);
                lemma_faithful_joined(r.effects, te, k, rho3, store);
                lemma_reads_satisfied(r.effects, rho3);
                ir::satisfied_appended(r.effects, te, rho3);
                lemma_agree_twice(rho, rho2, rho3, k, m);
            }
        },
    }
}

/// An empty list of effects can be satisfied.
proof fn lemma_none(k: nat, rho: Valuation, store: Store)
    ensures
        solvable(Seq::empty(), k, rho, store),
        effects_below(Seq::empty(), k),
{
    assert(laws::agree_below(rho, rho, k));
}

/// One more item after a list: both can be satisfied where each can.
proof fn lemma_extended(
    a: Seq<Effect>,
    b: Seq<Effect>,
    k: nat,
    rho: Valuation,
    store: Store,
    holds_a: bool,
    holds_b: bool,
)
    requires
        effects_below(a, k + a.len()),
        effects_below(b, k + a.len() + b.len()),
        solvable(a, k, rho, store) <==> holds_a,
        forall|rho2: Valuation|
            rho2.arg == rho.arg ==> (#[trigger] solvable(b, k + a.len(), rho2, store) <==> holds_b),
    ensures
        solvable(a + b, k, rho, store) <==> holds_a && holds_b,
        effects_below(a + b, k + (a + b).len()),
{
    lemma_joined(a, b, k, rho, store, holds_a, holds_b);
    lemma_effects_weakened(a, k + a.len(), k + a.len() + b.len());
    lemma_effects_appended(a, b, k + a.len() + b.len());
}

/// The boolean constraints of a list can be satisfied where every variable is zero or one.
proof fn lemma_booleans(sc: Scope, vs: Seq<Variable>, k: nat, rho: Valuation, store: Store)
    requires
        codegen::booleans(sc, vs, k) is Ok,
    ensures
        solvable(codegen::booleans(sc, vs, k)->Ok_0, k, rho, store) <==> booleans_hold(
            vs,
            laws::variable_value(sc, rho, store),
        ),
        effects_below(
            codegen::booleans(sc, vs, k)->Ok_0,
            k + codegen::booleans(sc, vs, k)->Ok_0.len(),
        ),
    decreases vs.len(),
{
    let sigma = laws::variable_value(sc, rho, store);
    if vs.len() == 0 {
        lemma_none(k, rho, store);
    } else {
        let front = vs.drop_last();
        let a = codegen::booleans(sc, front, k)->Ok_0;
        let m = k + a.len();
        let b = constraints::boolean_check(sc, vs.last(), m)->Ok_0;
        let holds = is_bit(sigma(vs.last()));
        lemma_booleans(sc, front, k, rho, store);
        lemma_boolean_check(sc, vs.last(), m, rho, store);
        assert forall|rho2: Valuation| rho2.arg == rho.arg implies (#[trigger] solvable(
            b,
            m,
            rho2,
            store,
        ) <==> holds) by {
            lemma_same_values(sc, rho, rho2, store);
            lemma_boolean_check(sc, vs.last(), m, rho2, store);
        }
        lemma_extended(a, b, k, rho, store, booleans_hold(front, sigma), holds);
        if booleans_hold(vs, sigma) {
            assert forall|i: int| 0 <= i < front.len() implies is_bit(
                sigma(#[trigger] front[i]),
            ) by {
                assert(front[i] == vs[i]);
            }
            assert(vs.last() == vs[vs.len() - 1]);
        }
        if booleans_hold(front, sigma) && holds {
            assert forall|i: int| 0 <= i < vs.len() implies is_bit(sigma(#[trigger] vs[i])) by {
                if i < front.len() {
                    assert(front[i] == vs[i]);
                }
            }
        }
    }
}

/// The range checks of a list can be satisfied where every one holds.
proof fn lemma_ranges(sc: Scope, qs: Seq<RangeCheckQuery>, k: nat, rho: Valuation, store: Store)
    requires
        codegen::ranges(sc, qs, k) is Ok,
    ensures
        solvable(codegen::ranges(sc, qs, k)->Ok_0, k, rho, store) <==> ranges_hold(
            qs,
            laws::variable_value(sc, rho, store),
        ),
        effects_below(
            codegen::ranges(sc, qs, k)->Ok_0,
            k + codegen::ranges(sc, qs, k)->Ok_0.len(),
        ),
    decreases qs.len(),
{
    let sigma = laws::variable_value(sc, rho, store);
    if qs.len() == 0 {
        lemma_none(k, rho, store);
    } else {
        let front = qs.drop_last();
        let q = qs.last();
        let v = q.input->Variable_0;
        let a = codegen::ranges(sc, front, k)->Ok_0;
        let m = k + a.len();
        let b = constraints::range_check(sc, v, q.width, m)->Ok_0;
        let holds = fits(sigma(v), q.width);
        lemma_ranges(sc, front, k, rho, store);
        lemma_range_check(sc, v, q.width, m, rho, store);
        assert forall|rho2: Valuation| rho2.arg == rho.arg implies (#[trigger] solvable(
            b,
            m,
            rho2,
            store,
        ) <==> holds) by {
            lemma_same_values(sc, rho, rho2, store);
            lemma_range_check(sc, v, q.width, m, rho2, store);
        }
        lemma_extended(a, b, k, rho, store, ranges_hold(front, sigma), holds);
        if ranges_hold(qs, sigma) {
            assert forall|i: int| 0 <= i < front.len() implies fits(
                sigma((#[trigger] front[i]).input->Variable_0),
                front[i].width,
            ) by {
                assert(front[i] == qs[i]);
            }
            assert(q == qs[qs.len() - 1]);
        }
        if ranges_hold(front, sigma) && holds {
            assert forall|i: int| 0 <= i < qs.len() implies fits(
                sigma((#[trigger] qs[i]).input->Variable_0),
                qs[i].width,
            ) by {
                if i < front.len() {
                    assert(front[i] == qs[i]);
                }
            }
        }
    }
}

/// The lookups of a list can be satisfied where every one holds.
proof fn lemma_queries(sc: Scope, qs: Seq<LookupQuery>, k: nat, rho: Valuation, store: Store)
    requires
        codegen::queries(sc, qs, k) is Ok,
    ensures
        solvable(codegen::queries(sc, qs, k)->Ok_0, k, rho, store) <==> queries_hold(
            qs,
            laws::variable_value(sc, rho, store),
        ),
        effects_below(
            codegen::queries(sc, qs, k)->Ok_0,
            k + codegen::queries(sc, qs, k)->Ok_0.len(),
        ),
    decreases qs.len(),
{
    let sigma = laws::variable_value(sc, rho, store);
    if qs.len() == 0 {
        lemma_none(k, rho, store);
    } else {
        let front = qs.drop_last();
        let q = qs.last();
        let a = codegen::queries(sc, front, k)->Ok_0;
        let m = k + a.len();
        let b = lookups::query_effects(sc, q, m)->Ok_0;
        let holds = query_holds(q, sigma);
        lemma_queries(sc, front, k, rho, store);
        lemma_query(sc, q, m, rho, store);
        assert forall|rho2: Valuation| rho2.arg == rho.arg implies (#[trigger] solvable(
            b,
            m,
            rho2,
            store,
        ) <==> holds) by {
            lemma_same_values(sc, rho, rho2, store);
            lemma_query(sc, q, m, rho2, store);
        }
        lemma_extended(a, b, k, rho, store, queries_hold(front, sigma), holds);
        if queries_hold(qs, sigma) {
            assert forall|i: int| 0 <= i < front.len() implies query_holds(
                #[trigger] front[i],
                sigma,
            ) by {
                assert(front[i] == qs[i]);
            }
            assert(q == qs[qs.len() - 1]);
        }
        if queries_hold(front, sigma) && holds {
            assert forall|i: int| 0 <= i < qs.len() implies query_holds(
                #[trigger] qs[i],
                sigma,
            ) by {
                if i < front.len() {
                    assert(front[i] == qs[i]);
                }
            }
        }
    }
}

/// The polynomial constraints of a list can be satisfied where every one holds.
proof fn lemma_polynomials(
    sc: Scope,
    cs: Seq<(Constraint, bool)>,
    k: nat,
    rho: Valuation,
    store: Store,
)
    requires
        codegen::polynomials(sc, cs, k) is Ok,
        forall|i: int| 0 <= i < cs.len() ==> keeps_values((#[trigger] cs[i]).0),
    ensures
        solvable(codegen::polynomials(sc, cs, k)->Ok_0, k, rho, store) <==> constraints_hold(
            cs,
            laws::variable_value(sc, rho, store),
        ),
        effects_below(
            codegen::polynomials(sc, cs, k)->Ok_0,
            k + codegen::polynomials(sc, cs, k)->Ok_0.len(),
        ),
    decreases cs.len(),
{
    let sigma = laws::variable_value(sc, rho, store);
    if cs.len() == 0 {
        lemma_none(k, rho, store);
    } else {
        let front = cs.drop_last();
        let c = cs.last().0;
        let a = codegen::polynomials(sc, front, k)->Ok_0;
        let m = k + a.len();
        let b = constraints::constraint(sc, c, m)->Ok_0;
        let holds = constraint_holds(c, sigma);
        assert(cs.last() == cs[cs.len() - 1]);
        assert forall|i: int| 0 <= i < front.len() implies keeps_values(
            (#[trigger] front[i]).0,
        ) by {
            assert(front[i] == cs[i]);
        }
        lemma_polynomials(sc, front, k, rho, store);
        lemma_constraint(sc, c, m, rho, store);
        assert forall|rho2: Valuation| rho2.arg == rho.arg implies (#[trigger] solvable(
            b,
            m,
            rho2,
            store,
        ) <==> holds) by {
            lemma_same_values(sc, rho, rho2, store);
            lemma_constraint(sc, c, m, rho2, store);
        }
        lemma_extended(a, b, k, rho, store, constraints_hold(front, sigma), holds);
        if constraints_hold(cs, sigma) {
            assert forall|i: int| 0 <= i < front.len() implies constraint_holds(
                (#[trigger] front[i]).0,
                sigma,
            ) by {
                assert(front[i] == cs[i]);
            }
        }
        if constraints_hold(front, sigma) && holds {
            assert forall|i: int| 0 <= i < cs.len() implies constraint_holds(
                (#[trigger] cs[i]).0,
                sigma,
            ) by {
                if i < front.len() {
                    assert(front[i] == cs[i]);
                }
            }
        }
    }
}

/// The constrain function of a circuit can be satisfied on a struct, by a choice of the values
/// that it introduces, exactly where the members of the struct and the arguments satisfy the
/// circuit: its boolean variables, range checks, lookups and constraints. Constants whose
/// lowering does not keep their value are left out.
pub proof fn constrain_functions_describe_their_circuits(
    co: CircuitOutput,
    sc: Scope,
    rho: Valuation,
    store: Store,
)
    requires
        codegen::constrain_effects(co, sc) is Ok,
        forall|i: int|
            0 <= i < co.constraints@.len() ==> keeps_values((#[trigger] co.constraints@[i]).0),
    ensures
        solvable(codegen::constrain_effects(co, sc)->Ok_0, 0, rho, store) <==> circuit_holds(
            co,
            laws::variable_value(sc, rho, store),
        ),
{
    let sigma = laws::variable_value(sc, rho, store);
    let a = codegen::booleans(sc, co.boolean_vars@, 0)->Ok_0;
    let b = codegen::ranges(sc, co.range_check_expressions@, a.len())->Ok_0;
    let c = codegen::queries(sc, co.lookups@, (a + b).len())->Ok_0;
    let d = codegen::polynomials(sc, co.constraints@, (a + b + c).len())->Ok_0;
    let holds_a = booleans_hold(co.boolean_vars@, sigma);
    let holds_b = ranges_hold(co.range_check_expressions@, sigma);
    let holds_c = queries_hold(co.lookups@, sigma);
    let holds_d = constraints_hold(co.constraints@, sigma);
    lemma_booleans(sc, co.boolean_vars@, 0, rho, store);
    lemma_ranges(sc, co.range_check_expressions@, a.len(), rho, store);
    lemma_queries(sc, co.lookups@, (a + b).len(), rho, store);
    lemma_polynomials(sc, co.constraints@, (a + b + c).len(), rho, store);
    assert forall|rho2: Valuation| rho2.arg == rho.arg implies (#[trigger] solvable(
        b,
        a.len(),
        rho2,
        store,
    ) <==> holds_b) by {
        lemma_same_values(sc, rho, rho2, store);
        lemma_ranges(sc, co.range_check_expressions@, a.len(), rho2, store);
    }
    lemma_extended(a, b, 0, rho, store, holds_a, holds_b);
    assert forall|rho2: Valuation| rho2.arg == rho.arg implies (#[trigger] solvable(
        c,
        (a + b).len(),
        rho2,
        store,
    ) <==> holds_c) by {
        lemma_same_values(sc, rho, rho2, store);
        lemma_queries(sc, co.lookups@, (a + b).len(), rho2, store);
    }
    lemma_extended(a + b, c, 0, rho, store, holds_a && holds_b, holds_c);
    assert forall|rho2: Valuation| rho2.arg == rho.arg implies (#[trigger] solvable(
        d,
        (a + b + c).len(),
        rho2,
        store,
    ) <==> holds_d) by {
        lemma_same_values(sc, rho, rho2, store);
        lemma_polynomials(sc, co.constraints@, (a + b + c).len(), rho2, store);
    }
    lemma_extended(a + b + c, d, 0, rho, store, holds_a && holds_b && holds_c, holds_d);
}

/// The struct that a circuit is emitted as can be satisfied exactly where the circuit is, except
/// that a struct which only computes is not constrained.
pub proof fn emitted_structs_describe_their_circuits(
    s: StructDef,
    name: Seq<char>,
    layout: LlzkStructLayout,
    co: CircuitOutput,
    compute_effects: Seq<Effect>,
    rho: Valuation,
    store: Store,
)
    requires
        codegen::is_emitted(s, name, layout, co, compute_effects),
        codegen::constrain_effects(
            co,
            codegen::constrain_scope(co, extract::legacy_circuit(name)),
        ) is Ok,
        forall|i: int|
            0 <= i < co.constraints@.len() ==> keeps_values((#[trigger] co.constraints@[i]).0),
    ensures
        solvable(ir::meaning(s.constrain.ops@).1, 0, rho, store) <==> layout
            == LlzkStructLayout::ComputeOnly || circuit_holds(
            co,
            laws::variable_value(
                codegen::constrain_scope(co, extract::legacy_circuit(name)),
                rho,
                store,
            ),
        ),
{
    let sc = codegen::constrain_scope(co, extract::legacy_circuit(name));
    constrain_functions_describe_their_circuits(co, sc, rho, store);
    if layout == LlzkStructLayout::ComputeOnly {
        lemma_none(0, rho, store);
    }
}

proof fn lemma_table_reads_nothing(
    table: TableType,
    cond: Option<Sym>,
    columns: (Sym, Sym, Sym),
    n: nat,
)
    ensures
        no_reads(lookups::table_effects(table, cond, columns, n)),
{
    if table is ConditionalJmpBranchSlt {
        lemma_one_hot_bits_below(n + 12, 8, n + 31);
        let first = lookups::comparison_effects(cond, columns.0, columns.1, columns.2, n);
        let second = builder::one_hot_effects(n + 12, 8);
        let es = lookups::table_effects(table, cond, columns, n);
        assert(no_reads(first));
        assert(no_reads(second));
        assert forall|i: int| 0 <= i < es.len() implies !((#[trigger] es[i]) is MemberRead) by {
            if i < first.len() {
                assert(es[i] == first[i]);
            } else if i < first.len() + second.len() {
                assert(es[i] == second[i - first.len()]);
            }
        }
    }
}

/// A row that is guarded by a flag of zero or one can be satisfied exactly where the flag is zero or
/// the row satisfies what is kept of its table: whether the flag guards the constraints of the row, or
/// multiplies its columns.
pub proof fn guarded_rows_hold_where_their_flag_is_set(
    table: TableType,
    flag: Sym,
    columns: (Sym, Sym, Sym),
    n: nat,
    rho: Valuation,
)
    requires
        laws::column(flag, n, rho),
        is_bit(flag.eval(rho)),
        laws::column(columns.0, n, rho),
        laws::column(columns.1, n, rho),
        laws::column(columns.2, n, rho),
    ensures
        ({
            let multiplied = (
                lookups::scaled(Some(flag), columns.0),
                lookups::scaled(Some(flag), columns.1),
                lookups::scaled(Some(flag), columns.2),
            );
            let holds = flag.eval(rho) == 1 ==> row_holds(
                table,
                columns.0.eval(rho),
                columns.1.eval(rho),
                columns.2.eval(rho),
            );
            &&& laws::satisfiable(
                lookups::table_effects(table, Some(flag), columns, n),
                n,
                rho,
            ) <==> holds
            &&& lookups::zero_row_safe(table) ==> (laws::satisfiable(
                lookups::table_effects(table, None, multiplied, n),
                n,
                rho,
            ) <==> holds)
        }),
{
    let (a, b, c) = columns;
    let cond = Some(flag);
    let es = lookups::table_effects(table, cond, columns, n);
    match table {
        TableType::ConditionalJmpBranchSlt => {
            laws::conditional_jmp_constraints_describe_the_table(cond, a, b, c, n, rho);
        },
        TableType::JumpCleanupOffset => {
            laws::jump_cleanup_constraints_describe_the_table(cond, a, b, c, n, rho);
        },
        TableType::RomAddressSpaceSeparator => {
            laws::rom_separator_constraints_describe_the_table(cond, a, b, c, n, rho);
        },
        _ => {
            let widths = lookups::column_widths(table);
            laws::lemma_widths();
            laws::summarized_tables_bound_their_columns(cond, columns, widths, rho);
            assert(laws::agree_below(rho, rho, n));
            if laws::satisfiable(es, n, rho) {
                let rho2 = choose|rho2: Valuation| #[trigger]
                    laws::agree_below(rho, rho2, n) && ir::all_satisfied(es, rho2);
                laws::lemma_eval_agrees(flag, rho, rho2, n);
                laws::lemma_eval_agrees(a, rho, rho2, n);
                laws::lemma_eval_agrees(b, rho, rho2, n);
                laws::lemma_eval_agrees(c, rho, rho2, n);
                laws::summarized_tables_bound_their_columns(cond, columns, widths, rho2);
            }
        },
    }
    if lookups::zero_row_safe(table) {
        let multiplied = (
            lookups::scaled(cond, a),
            lookups::scaled(cond, b),
            lookups::scaled(cond, c),
        );
        laws::binary_operations_work_on_values(FeltBinary::Mul, flag, a, rho);
        laws::binary_operations_work_on_values(FeltBinary::Mul, flag, b, rho);
        laws::binary_operations_work_on_values(FeltBinary::Mul, flag, c, rho);
        laws::lemma_small(0);
        laws::lemma_small(a.eval(rho));
        laws::lemma_small(b.eval(rho));
        laws::lemma_small(c.eval(rho));
        reveal_with_fuel(laws::reads_below, 3);
        assert(flag.eval(rho) == 0 ==> multiplied.0.eval(rho) == 0 && multiplied.1.eval(rho) == 0
            && multiplied.2.eval(rho) == 0);
        assert(flag.eval(rho) == 1 ==> multiplied.0.eval(rho) == a.eval(rho)
            && multiplied.1.eval(rho) == b.eval(rho) && multiplied.2.eval(rho) == c.eval(rho));
        table_effects_describe_rows(table, multiplied, n, rho);
    }
}

proof fn lemma_flag(sc: Scope, flag: Boolean, k: nat)
    requires
        constraints::boolean(sc, flag, k) is Ok,
    ensures
        reads_only(
            constraints::boolean(sc, flag, k)->Ok_0.sym,
            constraints::boolean(sc, flag, k)->Ok_0.effects,
            k,
        ),
{
    reveal_with_fuel(laws::reads_below, 3);
    match flag {
        Boolean::Is(v) => lemma_read(sc, v, k),
        Boolean::Not(v) => lemma_read(sc, v, k),
        Boolean::Constant(_) => {},
    }
}

/// The constraints of a case of a disjunctive lookup can be satisfied exactly where its flag is not set
/// or its row satisfies what is kept of the table that its number names.
pub proof fn cases_hold_where_they_are_active(
    sc: Scope,
    ids: TableIds,
    case: DisjunctiveLookupCase,
    k: nat,
    rho: Valuation,
    store: Store,
)
    requires
        lookups::case_effects(sc, ids, case, k) is Ok,
        is_bit(laws::boolean_value(case.flag, laws::variable_value(sc, rho, store))),
    ensures
        ({
            let sigma = laws::variable_value(sc, rho, store);
            solvable(lookups::case_effects(sc, ids, case, k)->Ok_0, k, rho, store) <==> (
            laws::boolean_value(case.flag, sigma) == 1 ==> row_holds(
                ids.table_of(case.table->Constant_0.reduced() as u32),
                column_value(case.row@[0], sigma),
                column_value(case.row@[1], sigma),
                column_value(case.row@[2], sigma),
            ))
        }),
{
    let es = lookups::case_effects(sc, ids, case, k)->Ok_0;
    let sigma = laws::variable_value(sc, rho, store);
    let table = ids.table_of(case.table->Constant_0.reduced() as u32);
    let value = laws::boolean_value(case.flag, sigma);
    let f = constraints::boolean(sc, case.flag, k)->Ok_0;
    let kf = k + f.effects.len();
    let base = lookups::row_reading(sc, case.row@, None, kf)->Ok_0;
    let n = kf + base.effects.len();
    let safe = lookups::zero_row_safe(table);
    let multiplied = (
        lookups::scaled(Some(f.sym), base.columns.0),
        lookups::scaled(Some(f.sym), base.columns.1),
        lookups::scaled(Some(f.sym), base.columns.2),
    );
    let te = if safe {
        lookups::table_effects(table, None, multiplied, n)
    } else {
        lookups::table_effects(table, Some(f.sym), base.columns, n)
    };
    let reads = f.effects + base.effects;
    assert(es =~= reads + te);
    lemma_flag(sc, case.flag, k);
    lemma_row_reading(sc, case.row@, kf, rho, store);
    lemma_reads_weakened(f.sym, kf, n);
    lemma_table_reads_nothing(table, None, multiplied, n);
    lemma_table_reads_nothing(table, Some(f.sym), base.columns, n);
    assert(only_reads(reads)) by {
        assert forall|i: int| 0 <= i < reads.len() implies (#[trigger] reads[i]) is MemberRead by {
            if i < f.effects.len() {
                assert(reads[i] == f.effects[i]);
            } else {
                assert(reads[i] == base.effects[i - f.effects.len()]);
            }
        }
    }
    let holds = value == 1 ==> row_holds(
        table,
        column_value(case.row@[0], sigma),
        column_value(case.row@[1], sigma),
        column_value(case.row@[2], sigma),
    );
    assert forall|rho2: Valuation|
        rho2.arg == rho.arg && #[trigger] laws::faithful(reads, k, rho2, store) implies (
    laws::satisfiable(te, n, rho2) <==> holds) by {
        lemma_same_values(sc, rho, rho2, store);
        laws::lemma_faithful_append(f.effects, base.effects, k, rho2, store);
        laws::booleans_keep_their_value(sc, case.flag, k, rho2, store);
        laws::lemma_small(value);
        lemma_row_reading(sc, case.row@, kf, rho2, store);
        guarded_rows_hold_where_their_flag_is_set(table, f.sym, base.columns, n, rho2);
    }
    if solvable(es, k, rho, store) {
        let rho2 = choose|rho2: Valuation| #[trigger]
            laws::agree_below(rho, rho2, k) && laws::faithful(es, k, rho2, store)
                && ir::all_satisfied(es, rho2);
        laws::lemma_faithful_append(reads, te, k, rho2, store);
        ir::satisfied_appended(reads, te, rho2);
        assert(laws::agree_below(rho2, rho2, n));
        assert(laws::satisfiable(te, n, rho2));
    }
    if holds {
        let rho2 = with_reads(reads, k, rho, store);
        lemma_with_reads(reads, k, rho, store);
        assert(laws::satisfiable(te, n, rho2));
        let rho3 = choose|rho3: Valuation| #[trigger]
            laws::agree_below(rho2, rho3, n) && ir::all_satisfied(te, rho3);
        lemma_faithful_agrees(reads, k, n, rho2, rho3, store);
        lemma_faithful_joined(reads, te, k, rho3, store);
        lemma_reads_satisfied(reads, rho3);
        ir::satisfied_appended(reads, te, rho3);
        lemma_agree_twice(rho, rho2, rho3, k, n);
    }
}

proof fn lemma_case_below(sc: Scope, ids: TableIds, case: DisjunctiveLookupCase, k: nat)
    requires
        lookups::case_effects(sc, ids, case, k) is Ok,
    ensures
        effects_below(
            lookups::case_effects(sc, ids, case, k)->Ok_0,
            k + lookups::case_effects(sc, ids, case, k)->Ok_0.len(),
        ),
{
    let es = lookups::case_effects(sc, ids, case, k)->Ok_0;
    let table = lookups::case_table(case, ids);
    let f = constraints::boolean(sc, case.flag, k)->Ok_0;
    let kf = k + f.effects.len();
    let base = lookups::row_reading(sc, case.row@, None, kf)->Ok_0;
    let n = kf + base.effects.len();
    let multiplied = (
        lookups::scaled(Some(f.sym), base.columns.0),
        lookups::scaled(Some(f.sym), base.columns.1),
        lookups::scaled(Some(f.sym), base.columns.2),
    );
    let te = if lookups::zero_row_safe(table) {
        lookups::table_effects(table, None, multiplied, n)
    } else {
        lookups::table_effects(table, Some(f.sym), base.columns, n)
    };
    let rho = arbitrary();
    let store = arbitrary();
    assert(es =~= f.effects + base.effects + te);
    lemma_flag(sc, case.flag, k);
    lemma_row_reading(sc, case.row@, kf, rho, store);
    lemma_reads_weakened(f.sym, kf, n);
    reveal_with_fuel(laws::reads_below, 3);
    if lookups::zero_row_safe(table) {
        lemma_table_below(table, None, multiplied, n);
    } else {
        lemma_table_below(table, Some(f.sym), base.columns, n);
    }
    lemma_reads_satisfied(f.effects, rho);
    lemma_reads_satisfied(base.effects, rho);
    lemma_effects_appended(f.effects, base.effects, n + te.len());
    lemma_effects_appended(f.effects + base.effects, te, n + te.len());
}

/// Whether a case of a disjunctive lookup holds: it is not active, or its row is one of the table that
/// its number names, as far as the table is kept.
pub open spec fn case_holds(
    ids: TableIds,
    case: DisjunctiveLookupCase,
    sigma: spec_fn(Variable) -> int,
) -> bool {
    laws::boolean_value(case.flag, sigma) == 1 ==> row_holds(
        ids.table_of(case.table->Constant_0.reduced() as u32),
        column_value(case.row@[0], sigma),
        column_value(case.row@[1], sigma),
        column_value(case.row@[2], sigma),
    )
}

/// How many cases are active.
pub open spec fn active_cases(
    cases: Seq<DisjunctiveLookupCase>,
    sigma: spec_fn(Variable) -> int,
) -> int
    decreases cases.len(),
{
    if cases.len() == 0 {
        0
    } else {
        active_cases(cases.drop_last(), sigma) + laws::boolean_value(cases.last().flag, sigma)
    }
}

/// Whether a disjunctive lookup holds: its flags are zero or one, at most one case is active, and every
/// case holds.
pub open spec fn disjunction_holds(
    ids: TableIds,
    cases: Seq<DisjunctiveLookupCase>,
    sigma: spec_fn(Variable) -> int,
) -> bool {
    &&& forall|i: int|
        0 <= i < cases.len() ==> is_bit(laws::boolean_value((#[trigger] cases[i]).flag, sigma))
    &&& active_cases(cases, sigma) <= 1
    &&& forall|i: int| 0 <= i < cases.len() ==> case_holds(ids, #[trigger] cases[i], sigma)
}

proof fn lemma_cases(
    sc: Scope,
    ids: TableIds,
    cases: Seq<DisjunctiveLookupCase>,
    k: nat,
    rho: Valuation,
    store: Store,
)
    requires
        lookups::cases_effects(sc, ids, cases, k) is Ok,
        forall|i: int|
            0 <= i < cases.len() ==> is_bit(
                laws::boolean_value(
                    (#[trigger] cases[i]).flag,
                    laws::variable_value(sc, rho, store),
                ),
            ),
    ensures
        solvable(lookups::cases_effects(sc, ids, cases, k)->Ok_0, k, rho, store) <==> (forall|
            i: int,
        |
            0 <= i < cases.len() ==> case_holds(
                ids,
                #[trigger] cases[i],
                laws::variable_value(sc, rho, store),
            )),
        effects_below(
            lookups::cases_effects(sc, ids, cases, k)->Ok_0,
            k + lookups::cases_effects(sc, ids, cases, k)->Ok_0.len(),
        ),
    decreases cases.len(),
{
    let sigma = laws::variable_value(sc, rho, store);
    if cases.len() == 0 {
        lemma_none(k, rho, store);
    } else {
        let front = cases.drop_last();
        let last = cases[cases.len() - 1];
        assert forall|i: int| 0 <= i < front.len() implies is_bit(
            laws::boolean_value((#[trigger] front[i]).flag, sigma),
        ) by {
            assert(front[i] == cases[i]);
        }
        lemma_cases(sc, ids, front, k, rho, store);
        let a = lookups::cases_effects(sc, ids, front, k)->Ok_0;
        let m = k + a.len();
        let b = lookups::case_effects(sc, ids, last, m)->Ok_0;
        lemma_case_below(sc, ids, last, m);
        let holds = case_holds(ids, last, sigma);
        assert(is_bit(laws::boolean_value(last.flag, sigma)));
        assert forall|rho2: Valuation| rho2.arg == rho.arg implies (#[trigger] solvable(
            b,
            m,
            rho2,
            store,
        ) <==> holds) by {
            lemma_same_values(sc, rho, rho2, store);
            cases_hold_where_they_are_active(sc, ids, last, m, rho2, store);
        }
        let before = forall|i: int|
            0 <= i < front.len() ==> case_holds(ids, #[trigger] front[i], sigma);
        lemma_extended(a, b, k, rho, store, before, holds);
        if forall|i: int| 0 <= i < cases.len() ==> case_holds(ids, #[trigger] cases[i], sigma) {
            assert forall|i: int| 0 <= i < front.len() implies case_holds(
                ids,
                #[trigger] front[i],
                sigma,
            ) by {
                assert(front[i] == cases[i]);
            }
            assert(case_holds(ids, cases[cases.len() - 1], sigma));
        }
        if before && holds {
            assert forall|i: int| 0 <= i < cases.len() implies case_holds(
                ids,
                #[trigger] cases[i],
                sigma,
            ) by {
                if i < front.len() {
                    assert(front[i] == cases[i]);
                }
            }
        }
    }
}

proof fn lemma_flags(
    sc: Scope,
    cases: Seq<DisjunctiveLookupCase>,
    k: nat,
    rho: Valuation,
    store: Store,
)
    requires
        lookups::flags(sc, cases, k) is Ok,
    ensures
        ({
            let r = lookups::flags(sc, cases, k)->Ok_0;
            let sigma = laws::variable_value(sc, rho, store);
            &&& only_reads(r.effects)
            &&& r.syms.len() == cases.len()
            &&& forall|i: int|
                0 <= i < cases.len() ==> laws::reads_below(
                    #[trigger] r.syms[i],
                    k + r.effects.len(),
                )
            &&& laws::faithful(r.effects, k, rho, store) ==> forall|i: int|
                0 <= i < cases.len() ==> (#[trigger] r.syms[i]).eval(rho) == laws::boolean_value(
                    cases[i].flag,
                    sigma,
                ) % laws::p()
        }),
    decreases cases.len(),
{
    if cases.len() > 0 {
        let front = cases.drop_last();
        lemma_flags(sc, front, k, rho, store);
        let head = lookups::flags(sc, front, k)->Ok_0;
        let m = k + head.effects.len();
        let flag = cases.last().flag;
        let f = constraints::boolean(sc, flag, m)->Ok_0;
        let r = lookups::flags(sc, cases, k)->Ok_0;
        lemma_flag(sc, flag, m);
        assert forall|i: int| 0 <= i < cases.len() implies laws::reads_below(
            #[trigger] r.syms[i],
            k + r.effects.len(),
        ) by {
            if i < front.len() {
                assert(r.syms[i] == head.syms[i]);
                lemma_reads_weakened(head.syms[i], m, k + r.effects.len());
            }
        }
        assert forall|i: int| 0 <= i < r.effects.len() implies (
        #[trigger] r.effects[i]) is MemberRead by {
            if i < head.effects.len() {
                assert(r.effects[i] == head.effects[i]);
            } else {
                assert(r.effects[i] == f.effects[i - head.effects.len()]);
            }
        }
        if laws::faithful(r.effects, k, rho, store) {
            laws::lemma_faithful_append(head.effects, f.effects, k, rho, store);
            laws::booleans_keep_their_value(sc, flag, m, rho, store);
            assert forall|i: int| 0 <= i < cases.len() implies (#[trigger] r.syms[i]).eval(rho)
                == laws::boolean_value(
                cases[i].flag,
                laws::variable_value(sc, rho, store),
            ) % laws::p() by {
                if i < front.len() {
                    assert(r.syms[i] == head.syms[i]);
                    assert(front[i] == cases[i]);
                }
            }
        }
    }
}

proof fn lemma_flag_bit(sc: Scope, b: Boolean, rho: Valuation, store: Store)
    ensures
        ({
            let x = laws::boolean_value(b, laws::variable_value(sc, rho, store));
            &&& is_bit(x % laws::p()) <==> is_bit(x)
            &&& is_bit(x) ==> x % laws::p() == x
        }),
{
    let sigma = laws::variable_value(sc, rho, store);
    let x = laws::boolean_value(b, sigma);
    laws::lemma_small(0);
    laws::lemma_small(1);
    match b {
        Boolean::Is(v) => {
            laws::lemma_small(sigma(v));
        },
        Boolean::Not(v) => {
            if sigma(v) > 1 {
                vstd::arithmetic::div_mod::lemma_mod_add_multiples_vanish(x, laws::p());
                laws::lemma_small(x + laws::p());
            }
        },
        Boolean::Constant(_) => {},
    }
}

proof fn lemma_active(
    cases: Seq<DisjunctiveLookupCase>,
    syms: Seq<Sym>,
    rho: Valuation,
    sigma: spec_fn(Variable) -> int,
)
    requires
        syms.len() == cases.len(),
        forall|i: int|
            0 <= i < cases.len() ==> (#[trigger] syms[i]).eval(rho) == laws::boolean_value(
                cases[i].flag,
                sigma,
            ),
    ensures
        laws::total_value(syms, rho) == active_cases(cases, sigma),
    decreases cases.len(),
{
    if cases.len() > 0 {
        assert forall|i: int| 0 <= i < cases.drop_last().len() implies (
        #[trigger] syms.drop_last()[i]).eval(rho) == laws::boolean_value(
            cases.drop_last()[i].flag,
            sigma,
        ) by {
            assert(syms[i].eval(rho) == laws::boolean_value(cases[i].flag, sigma));
        }
        lemma_active(cases.drop_last(), syms.drop_last(), rho, sigma);
        assert(syms[cases.len() - 1].eval(rho) == laws::boolean_value(
            cases[cases.len() - 1].flag,
            sigma,
        ));
    }
}

/// The constraints of a disjunctive lookup can be satisfied exactly where its flags are zero or one, at
/// most one case is active, and the row of an active case satisfies what is kept of its table.
pub proof fn disjunctive_lookups_hold_where_their_cases_do(
    sc: Scope,
    ids: TableIds,
    cases: Seq<DisjunctiveLookupCase>,
    k: nat,
    rho: Valuation,
    store: Store,
)
    requires
        lookups::disjunctive_effects(sc, ids, cases, k) is Ok,
        cases.len() < laws::p(),
    ensures
        solvable(lookups::disjunctive_effects(sc, ids, cases, k)->Ok_0, k, rho, store)
            <==> disjunction_holds(ids, cases, laws::variable_value(sc, rho, store)),
{
    let sigma = laws::variable_value(sc, rho, store);
    let r = lookups::flags(sc, cases, k)->Ok_0;
    let m = k + r.effects.len();
    let sum = builder::fold(FeltBinary::Add, r.syms);
    let checks = lookups::boolean_effects(r.syms).push(
        Effect::ConstrainEq(builder::boolean_product(sum), ir::felt(0)),
    );
    let before = r.effects + checks;
    let rest = lookups::cases_effects(sc, ids, cases, k + before.len())->Ok_0;
    let es = lookups::disjunctive_effects(sc, ids, cases, k)->Ok_0;
    assert(es == before + rest);
    let bits = forall|i: int|
        0 <= i < cases.len() ==> is_bit(laws::boolean_value((#[trigger] cases[i]).flag, sigma));
    let flags_hold = bits && active_cases(cases, sigma) <= 1;
    lemma_flags(sc, cases, k, rho, store);
    assert(no_reads(checks));
    assert forall|rho2: Valuation|
        rho2.arg == rho.arg && #[trigger] laws::faithful(r.effects, k, rho2, store) implies (
    ir::all_satisfied(checks, rho2) <==> flags_hold) by {
        lemma_same_values(sc, rho, rho2, store);
        lemma_flags(sc, cases, k, rho2, store);
        assert forall|i: int| 0 <= i < r.syms.len() implies 0 <= #[trigger] r.syms[i].eval(rho2)
            < laws::p() by {}
        laws::at_most_one_case_is_active(r.syms, rho2);
        assert(checks =~= lookups::boolean_effects(r.syms).push(
            builder::conditional_boolean(None, sum),
        ));
        assert forall|i: int| 0 <= i < cases.len() implies (is_bit(
            (#[trigger] r.syms[i]).eval(rho2),
        ) <==> is_bit(laws::boolean_value(cases[i].flag, sigma))) && (is_bit(
            laws::boolean_value(cases[i].flag, sigma),
        ) ==> r.syms[i].eval(rho2) == laws::boolean_value(cases[i].flag, sigma)) by {
            lemma_flag_bit(sc, cases[i].flag, rho, store);
        }
        if bits {
            assert forall|i: int| 0 <= i < cases.len() implies (#[trigger] r.syms[i]).eval(rho2)
                == laws::boolean_value(cases[i].flag, sigma) by {
                assert(is_bit(laws::boolean_value(cases[i].flag, sigma)));
            }
            lemma_active(cases, r.syms, rho2, sigma);
        } else {
            let i = choose|i: int|
                0 <= i < cases.len() && !is_bit(
                    laws::boolean_value((#[trigger] cases[i]).flag, sigma),
                );
            assert(!is_bit(r.syms[i].eval(rho2)));
        }
    }
    assert(solvable(before, k, rho, store) <==> flags_hold) by {
        if solvable(before, k, rho, store) {
            let rho2 = choose|rho2: Valuation| #[trigger]
                laws::agree_below(rho, rho2, k) && laws::faithful(before, k, rho2, store)
                    && ir::all_satisfied(before, rho2);
            laws::lemma_faithful_append(r.effects, checks, k, rho2, store);
            ir::satisfied_appended(r.effects, checks, rho2);
        }
        if flags_hold {
            let rho2 = with_reads(r.effects, k, rho, store);
            lemma_with_reads(r.effects, k, rho, store);
            lemma_faithful_joined(r.effects, checks, k, rho2, store);
            lemma_reads_satisfied(r.effects, rho2);
            ir::satisfied_appended(r.effects, checks, rho2);
            assert(laws::agree_below(rho, rho2, k));
        }
    }
    let n = k + before.len();
    assert(effects_below(before, n)) by {
        reveal_with_fuel(laws::reads_below, 4);
        lemma_reads_satisfied(r.effects, rho);
        lemma_fold_below(r.syms, m);
        lemma_reads_weakened(sum, m, n);
        assert forall|i: int| 0 <= i < checks.len() implies effect_below(#[trigger] checks[i], n) by {
            if i < r.syms.len() {
                lemma_reads_weakened(r.syms[i], m, n);
                assert(checks[i] == Effect::ConstrainEq(
                    builder::boolean_product(r.syms[i]),
                    ir::felt(0),
                ));
            }
        }
        lemma_effects_appended(r.effects, checks, n);
    }
    let cases_hold = forall|i: int|
        0 <= i < cases.len() ==> case_holds(ids, #[trigger] cases[i], sigma);
    if bits {
        assert forall|rho2: Valuation| rho2.arg == rho.arg implies (#[trigger] solvable(
            rest,
            n,
            rho2,
            store,
        ) <==> cases_hold) by {
            lemma_same_values(sc, rho, rho2, store);
            lemma_cases(sc, ids, cases, n, rho2, store);
        }
        lemma_joined(before, rest, k, rho, store, flags_hold, cases_hold);
    } else if solvable(es, k, rho, store) {
        let rho2 = choose|rho2: Valuation| #[trigger]
            laws::agree_below(rho, rho2, k) && laws::faithful(es, k, rho2, store)
                && ir::all_satisfied(es, rho2);
        laws::lemma_faithful_append(before, rest, k, rho2, store);
        ir::satisfied_appended(before, rest, rho2);
        assert(solvable(before, k, rho, store));
    }
}

} // verus!
