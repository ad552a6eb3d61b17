//! What the constraint module of a whole circuit says.
use vstd::prelude::*;

use crate::circuit::Boolean;
use crate::circuit::CircuitOutput;
use crate::circuit::Constraint;
use crate::circuit::DisjunctiveLookup;
use crate::circuit::DisjunctiveLookupCase;
use crate::circuit::LookupInput;
use crate::circuit::LookupQuery;
use crate::circuit::LookupQueryTableType;
use crate::circuit::Mersenne31Field;
use crate::circuit::Num;
use crate::circuit::OpcodeFamilyCircuitState;
use crate::circuit::RangeCheckQuery;
use crate::circuit::ShuffleRamMemQuery;
use crate::circuit::TableIds;
use crate::circuit::TableType;
use crate::circuit::Term;
use crate::circuit::Variable;
use crate::circuit::CHARACTERISTICS;
use crate::picus::ir;
use crate::picus::ir::PicusConstraint;
use crate::picus::ir::PicusExpr;
use crate::picus::laws;
use crate::picus::lookups;
use crate::picus::translate;
use crate::tables;

verus! {

/// Whether a constraint mentions variables below a bound only.
pub open spec fn constraint_below(c: PicusConstraint, n: int) -> bool
    decreases c,
{
    match c {
        PicusConstraint::Lt(a, b) => a.vars_below(n) && b.vars_below(n),
        PicusConstraint::Leq(a, b) => a.vars_below(n) && b.vars_below(n),
        PicusConstraint::Eq(e) => e.vars_below(n),
        PicusConstraint::Det(e) => e.vars_below(n),
        PicusConstraint::And(a, b) => constraint_below(*a, n) && constraint_below(*b, n),
        PicusConstraint::Implies(a, b) => constraint_below(*a, n) && constraint_below(*b, n),
    }
}

/// Whether the constraints of a list mention variables below a bound only.
pub open spec fn all_below(cs: Seq<PicusConstraint>, n: int) -> bool {
    forall|i: int| 0 <= i < cs.len() ==> constraint_below(#[trigger] cs[i], n)
}

proof fn lemma_holds_agrees(
    c: PicusConstraint,
    n: int,
    rho: spec_fn(usize) -> int,
    rho2: spec_fn(usize) -> int,
    other: spec_fn(usize) -> int,
)
    requires
        laws::agree_below(rho, rho2, n),
        constraint_below(c, n),
    ensures
        c.holds(rho2, other) == c.holds(rho, other),
    decreases c,
{
    match c {
        PicusConstraint::Lt(a, b) | PicusConstraint::Leq(a, b) => {
            laws::lemma_eval_agrees(*a, rho, rho2, n);
            laws::lemma_eval_agrees(*b, rho, rho2, n);
        },
        PicusConstraint::Eq(e) | PicusConstraint::Det(e) => {
            laws::lemma_eval_agrees(*e, rho, rho2, n);
        },
        PicusConstraint::And(a, b) | PicusConstraint::Implies(a, b) => {
            lemma_holds_agrees(*a, n, rho, rho2, other);
            lemma_holds_agrees(*b, n, rho, rho2, other);
        },
    }
}

proof fn lemma_all_agrees(
    cs: Seq<PicusConstraint>,
    n: int,
    rho: spec_fn(usize) -> int,
    rho2: spec_fn(usize) -> int,
    other: spec_fn(usize) -> int,
)
    requires
        laws::agree_below(rho, rho2, n),
        all_below(cs, n),
    ensures
        laws::all_hold(cs, rho2, other) == laws::all_hold(cs, rho, other),
{
    assert forall|i: int| 0 <= i < cs.len() implies (#[trigger] cs[i]).holds(rho2, other)
        == cs[i].holds(rho, other) by {
        lemma_holds_agrees(cs[i], n, rho, rho2, other);
    }
    if laws::all_hold(cs, rho2, other) {
        assert forall|i: int| 0 <= i < cs.len() implies (#[trigger] cs[i]).holds(rho, other) by {
            assert(cs[i].holds(rho2, other));
        }
    }
    if laws::all_hold(cs, rho, other) {
        assert forall|i: int| 0 <= i < cs.len() implies (#[trigger] cs[i]).holds(rho2, other) by {
            assert(cs[i].holds(rho, other));
        }
    }
}

proof fn lemma_below_weakened(e: PicusExpr, n: int, m: int)
    requires
        e.vars_below(n),
        n <= m,
    ensures
        e.vars_below(m),
    decreases e,
{
    match e {
        PicusExpr::Const(_) => {},
        PicusExpr::Var(_) => {},
        PicusExpr::Add(a, b) | PicusExpr::Sub(a, b) | PicusExpr::Mul(a, b) => {
            lemma_below_weakened(*a, n, m);
            lemma_below_weakened(*b, n, m);
        },
    }
}

proof fn lemma_constraint_weakened(c: PicusConstraint, n: int, m: int)
    requires
        constraint_below(c, n),
        n <= m,
    ensures
        constraint_below(c, m),
    decreases c,
{
    match c {
        PicusConstraint::Lt(a, b) | PicusConstraint::Leq(a, b) => {
            lemma_below_weakened(*a, n, m);
            lemma_below_weakened(*b, n, m);
        },
        PicusConstraint::Eq(e) | PicusConstraint::Det(e) => {
            lemma_below_weakened(*e, n, m);
        },
        PicusConstraint::And(a, b) | PicusConstraint::Implies(a, b) => {
            lemma_constraint_weakened(*a, n, m);
            lemma_constraint_weakened(*b, n, m);
        },
    }
}

proof fn lemma_all_weakened(cs: Seq<PicusConstraint>, n: int, m: int)
    requires
        all_below(cs, n),
        n <= m,
    ensures
        all_below(cs, m),
{
    assert forall|i: int| 0 <= i < cs.len() implies constraint_below(#[trigger] cs[i], m) by {
        lemma_constraint_weakened(cs[i], n, m);
    }
}

proof fn lemma_all_appended(a: Seq<PicusConstraint>, b: Seq<PicusConstraint>, n: int)
    requires
        all_below(a, n),
        all_below(b, n),
    ensures
        all_below(a + b, n),
{
    let cs = a + b;
    assert forall|i: int| 0 <= i < cs.len() implies constraint_below(#[trigger] cs[i], n) by {
        if i < a.len() {
            assert(cs[i] == a[i]);
        } else {
            assert(cs[i] == b[i - a.len()]);
        }
    }
}

pub(crate) proof fn lemma_hold_appended(
    a: Seq<PicusConstraint>,
    b: Seq<PicusConstraint>,
    rho: spec_fn(usize) -> int,
    other: spec_fn(usize) -> int,
)
    ensures
        laws::all_hold(a + b, rho, other) <==> laws::all_hold(a, rho, other) && laws::all_hold(
            b,
            rho,
            other,
        ),
{
    let cs = a + b;
    if laws::all_hold(cs, rho, other) {
        assert forall|i: int| 0 <= i < a.len() implies (#[trigger] a[i]).holds(rho, other) by {
            assert(cs[i].holds(rho, other));
        }
        assert forall|i: int| 0 <= i < b.len() implies (#[trigger] b[i]).holds(rho, other) by {
            assert(cs[a.len() + i].holds(rho, other));
        }
    }
    if laws::all_hold(a, rho, other) && laws::all_hold(b, rho, other) {
        assert forall|i: int| 0 <= i < cs.len() implies (#[trigger] cs[i]).holds(rho, other) by {
            if i < a.len() {
                assert(a[i].holds(rho, other));
            } else {
                assert(b[i - a.len()].holds(rho, other));
            }
        }
    }
}

/// Two lists whose fresh variables are apart can be satisfied together where each can be satisfied.
proof fn lemma_joined(
    a: Seq<PicusConstraint>,
    b: Seq<PicusConstraint>,
    n: int,
    m: int,
    rho: spec_fn(usize) -> int,
    other: spec_fn(usize) -> int,
    holds_a: bool,
    holds_b: bool,
)
    requires
        n <= m,
        all_below(a, m),
        laws::satisfiable(a, n, rho, other) <==> holds_a,
        forall|rho2: spec_fn(usize) -> int| #[trigger]
            laws::agree_below(rho, rho2, n) ==> (laws::satisfiable(b, m, rho2, other) <==> holds_b),
    ensures
        laws::satisfiable(a + b, n, rho, other) <==> holds_a && holds_b,
{
    if laws::satisfiable(a + b, n, rho, other) {
        let rho2 = choose|rho2: spec_fn(usize) -> int| #[trigger]
            laws::agree_below(rho, rho2, n) && laws::all_hold(a + b, rho2, other);
        lemma_hold_appended(a, b, rho2, other);
        assert(laws::agree_below(rho2, rho2, m));
    }
    if holds_a && holds_b {
        let rho2 = choose|rho2: spec_fn(usize) -> int| #[trigger]
            laws::agree_below(rho, rho2, n) && laws::all_hold(a, rho2, other);
        let rho3 = choose|rho3: spec_fn(usize) -> int| #[trigger]
            laws::agree_below(rho2, rho3, m) && laws::all_hold(b, rho3, other);
        lemma_all_agrees(a, m, rho2, rho3, other);
        lemma_hold_appended(a, b, rho3, other);
        assert forall|v: usize| v < n implies #[trigger] rho3(v) == rho(v) by {
            assert(rho2(v) == rho(v));
            assert(rho3(v) == rho2(v));
        }
        assert(laws::agree_below(rho, rho3, n));
    }
}

/// Constraints without fresh variables hold or do not.
proof fn lemma_plain(
    cs: Seq<PicusConstraint>,
    n: int,
    m: int,
    rho: spec_fn(usize) -> int,
    other: spec_fn(usize) -> int,
)
    requires
        n <= m,
        all_below(cs, n),
    ensures
        laws::satisfiable(cs, m, rho, other) <==> laws::all_hold(cs, rho, other),
{
    if laws::satisfiable(cs, m, rho, other) {
        let rho2 = choose|rho2: spec_fn(usize) -> int| #[trigger]
            laws::agree_below(rho, rho2, m) && laws::all_hold(cs, rho2, other);
        assert(laws::agree_below(rho, rho2, n));
        lemma_all_agrees(cs, n, rho, rho2, other);
    }
    assert(laws::agree_below(rho, rho, m));
}

/// A row of a summarized table: the columns lie in range, and where the key is that of the other
/// world, the outputs are too.
pub open spec fn summarized(
    x: (int, int, int),
    y: (int, int, int),
    bounds: (u64, u64, u64),
) -> bool {
    &&& x.0 < bounds.0
    &&& x.1 < bounds.1
    &&& x.2 < bounds.2
    &&& x.0 == y.0 ==> x.1 == y.1 && x.2 == y.2
}

/// Whether a row is one that the constraints of a table admit: a row of the table itself, or for a
/// summarized table one that its summary admits in both worlds.
pub open spec fn row_holds(table: TableType, x: (int, int, int), y: (int, int, int)) -> bool {
    match table {
        TableType::ConditionalJmpBranchSlt => {
            x.0 < 16 && x.1 < 8 && x.2 == tables::branch_flag(x.0, x.1)
        },
        TableType::JumpCleanupOffset => {
            x.0 < 0x1_0000 && (x.1, x.2) == tables::jump_cleanup(x.0)
        },
        TableType::RomAddressSpaceSeparator => {
            x.0 < 0x1_0000 && (x.1, x.2) == tables::rom_separator(x.0)
        },
        TableType::MemoryGetOffsetAndMaskWithTrap => summarized(
            x,
            y,
            (lookups::PACKED_KEY_BOUND, lookups::U4_BOUND, lookups::U8_BOUND),
        ),
        TableType::MemoryLoadHalfwordOrByte
        | TableType::MemStoreClearOriginalRamValueLimb
        | TableType::MemStoreClearWrittenValueLimb => summarized(
            x,
            y,
            (lookups::PACKED_KEY_BOUND, lookups::U16_BOUND, lookups::U16_BOUND),
        ),
        TableType::AlignedRomRead => summarized(
            x,
            y,
            (lookups::ROM_WORD_COUNT, lookups::U16_BOUND, lookups::U16_BOUND),
        ),
        TableType::Other(_) => true,
    }
}

/// The values of three expressions.
pub open spec fn values(
    c: (PicusExpr, PicusExpr, PicusExpr),
    rho: spec_fn(usize) -> int,
) -> (int, int, int) {
    (c.0.eval(rho), c.1.eval(rho), c.2.eval(rho))
}

/// Whether three expressions mention variables below a bound only.
pub open spec fn columns_below(c: (PicusExpr, PicusExpr, PicusExpr), n: int) -> bool {
    c.0.vars_below(n) && c.1.vars_below(n) && c.2.vars_below(n)
}

proof fn lemma_summary(
    c: (PicusExpr, PicusExpr, PicusExpr),
    bounds: (u64, u64, u64),
    n: int,
    rho: spec_fn(usize) -> int,
    other: spec_fn(usize) -> int,
)
    requires
        columns_below(c, n),
        bounds.0 < CHARACTERISTICS,
        bounds.1 < CHARACTERISTICS,
        bounds.2 < CHARACTERISTICS,
    ensures
        all_below(
            lookups::summary_constraints(c.0, bounds.0, c.1, bounds.1, c.2, bounds.2),
            n,
        ),
        laws::satisfiable(
            lookups::summary_constraints(c.0, bounds.0, c.1, bounds.1, c.2, bounds.2),
            n,
            rho,
            other,
        ) <==> summarized(values(c, rho), values(c, other), bounds),
{
    let cs = lookups::summary_constraints(c.0, bounds.0, c.1, bounds.1, c.2, bounds.2);
    reveal_with_fuel(constraint_below, 3);
    reveal_with_fuel(PicusConstraint::holds, 3);
    assert(all_below(cs, n));
    lemma_plain(cs, n, n, rho, other);
    laws::bounds_compare_values(c.0, bounds.0, rho, other);
    laws::bounds_compare_values(c.1, bounds.1, rho, other);
    laws::bounds_compare_values(c.2, bounds.2, rho, other);
    if laws::all_hold(cs, rho, other) {
        assert(cs[0].holds(rho, other));
        assert(cs[1].holds(rho, other));
        assert(cs[2].holds(rho, other));
        assert(cs[3].holds(rho, other));
    }
}

proof fn lemma_conditional_jmp_below(c: (PicusExpr, PicusExpr, PicusExpr), n: int)
    requires
        0 <= n,
        n + 12 <= usize::MAX,
        columns_below(c, n),
    ensures
        all_below(lookups::conditional_jmp_constraints(c.0, c.1, c.2, n), n + 12),
{
    let m = n + 12;
    lemma_below_weakened(c.0, n, m);
    lemma_below_weakened(c.1, n, m);
    lemma_below_weakened(c.2, n, m);
    let cs = lookups::conditional_jmp_constraints(c.0, c.1, c.2, n);
    let hot = lookups::one_hot_constraints(n + 4, 8);
    reveal_with_fuel(PicusExpr::vars_below, 20);
    reveal_with_fuel(lookups::one_hot_sum, 9);
    reveal_with_fuel(lookups::one_hot_index, 9);
    assert(cs.len() == 19);
    assert forall|i: int| 0 <= i < cs.len() implies constraint_below(#[trigger] cs[i], m) by {
        if 8 <= i < 17 {
            assert(cs[i] == hot[i - 8]);
        }
    }
}

/// The constraints for a row can be satisfied by a choice of their fresh variables exactly where
/// the row is admitted.
pub proof fn rows_are_described(
    table: TableType,
    c: (PicusExpr, PicusExpr, PicusExpr),
    n: int,
    rho: spec_fn(usize) -> int,
    other: spec_fn(usize) -> int,
)
    requires
        0 <= n,
        n + lookups::table_fresh(table) <= usize::MAX,
        columns_below(c, n),
    ensures
        laws::satisfiable(
            lookups::table_constraints(table, c.0, c.1, c.2, n),
            n,
            rho,
            other,
        ) <==> row_holds(table, values(c, rho), values(c, other)),
        all_below(
            lookups::table_constraints(table, c.0, c.1, c.2, n),
            n + lookups::table_fresh(table),
        ),
{
    let cs = lookups::table_constraints(table, c.0, c.1, c.2, n);
    let key = lookups::PACKED_KEY_BOUND;
    match table {
        TableType::ConditionalJmpBranchSlt => {
            lemma_conditional_jmp_below(c, n);
            laws::conditional_jmp_constraints_describe_the_table(c.0, c.1, c.2, n, rho, other);
        },
        TableType::JumpCleanupOffset => {
            lemma_below_weakened(c.0, n, n + 2);
            lemma_below_weakened(c.1, n, n + 2);
            lemma_below_weakened(c.2, n, n + 2);
            reveal_with_fuel(PicusExpr::vars_below, 6);
            assert(all_below(cs, n + 2));
            laws::jump_cleanup_constraints_describe_the_table(c.0, c.1, c.2, n, rho, other);
        },
        TableType::RomAddressSpaceSeparator => {
            lemma_below_weakened(c.0, n, n + 2);
            lemma_below_weakened(c.1, n, n + 2);
            lemma_below_weakened(c.2, n, n + 2);
            reveal_with_fuel(PicusExpr::vars_below, 6);
            assert(all_below(cs, n + 2));
            laws::rom_separator_constraints_describe_the_table(c.0, c.1, c.2, n, rho, other);
        },
        TableType::MemoryGetOffsetAndMaskWithTrap => {
            lemma_summary(c, (key, lookups::U4_BOUND, lookups::U8_BOUND), n, rho, other);
        },
        TableType::MemoryLoadHalfwordOrByte
        | TableType::MemStoreClearOriginalRamValueLimb
        | TableType::MemStoreClearWrittenValueLimb => {
            lemma_summary(c, (key, lookups::U16_BOUND, lookups::U16_BOUND), n, rho, other);
        },
        TableType::AlignedRomRead => {
            lemma_summary(
                c,
                (lookups::ROM_WORD_COUNT, lookups::U16_BOUND, lookups::U16_BOUND),
                n,
                rho,
                other,
            );
        },
        TableType::Other(_) => {
            lemma_plain(cs, n, n, rho, other);
        },
    }
}

/// Whether the variables of a lookup input are below a bound.
pub open spec fn input_below(input: LookupInput, n: int) -> bool {
    match input {
        LookupInput::Variable(v) => v.0 < n,
        LookupInput::Expression { linear_terms, .. } => forall|i: int|
            0 <= i < linear_terms@.len() ==> (#[trigger] linear_terms@[i]).1.0 < n,
    }
}

/// Whether the variables of the columns of a row are below a bound.
pub open spec fn row_below(row: Seq<LookupInput>, n: int) -> bool {
    input_below(row[0], n) && input_below(row[1], n) && input_below(row[2], n)
}

proof fn lemma_linear_below(
    constant: u64,
    terms: Seq<(Mersenne31Field, Variable)>,
    n: int,
)
    requires
        n <= usize::MAX,
        forall|i: int| 0 <= i < terms.len() ==> (#[trigger] terms[i]).1.0 < n,
    ensures
        translate::linear_expr(constant, terms).vars_below(n),
    decreases terms.len(),
{
    reveal_with_fuel(PicusExpr::vars_below, 4);
    if terms.len() > 0 {
        assert(terms.last() == terms[terms.len() - 1]);
        assert forall|i: int| 0 <= i < terms.drop_last().len() implies (
        #[trigger] terms.drop_last()[i]).1.0 < n by {
            assert(terms.drop_last()[i] == terms[i]);
        }
        lemma_linear_below(constant, terms.drop_last(), n);
    }
}

proof fn lemma_input_below(input: LookupInput, n: int)
    requires
        n <= usize::MAX,
        input_below(input, n),
    ensures
        translate::input_expr(input).vars_below(n),
{
    match input {
        LookupInput::Variable(_) => {},
        LookupInput::Expression { linear_terms, constant_coeff } => {
            lemma_linear_below(constant_coeff.reduced(), linear_terms@, n);
        },
    }
}

/// The columns of a row.
pub open spec fn columns(row: Seq<LookupInput>) -> (PicusExpr, PicusExpr, PicusExpr) {
    (translate::input_expr(row[0]), translate::input_expr(row[1]), translate::input_expr(row[2]))
}

/// The values of the columns of a row.
pub open spec fn row_values(row: Seq<LookupInput>, rho: spec_fn(usize) -> int) -> (int, int, int) {
    (
        laws::input_value(row[0], rho) % laws::p(),
        laws::input_value(row[1], rho) % laws::p(),
        laws::input_value(row[2], rho) % laws::p(),
    )
}

proof fn lemma_row(row: Seq<LookupInput>, n: int, rho: spec_fn(usize) -> int)
    requires
        n <= usize::MAX,
        row_below(row, n),
    ensures
        columns_below(columns(row), n),
        values(columns(row), rho) == row_values(row, rho),
{
    lemma_input_below(row[0], n);
    lemma_input_below(row[1], n);
    lemma_input_below(row[2], n);
    laws::lookup_inputs_keep_their_value(row[0], rho);
    laws::lookup_inputs_keep_their_value(row[1], rho);
    laws::lookup_inputs_keep_their_value(row[2], rho);
}

proof fn lemma_values_agree(
    c: (PicusExpr, PicusExpr, PicusExpr),
    n: int,
    rho: spec_fn(usize) -> int,
    rho2: spec_fn(usize) -> int,
)
    requires
        columns_below(c, n),
        laws::agree_below(rho, rho2, n),
    ensures
        values(c, rho2) == values(c, rho),
{
    laws::lemma_eval_agrees(c.0, rho, rho2, n);
    laws::lemma_eval_agrees(c.1, rho, rho2, n);
    laws::lemma_eval_agrees(c.2, rho, rho2, n);
}

/// Whether the row of a query is admitted. Queries of variable tables admit every row.
pub open spec fn query_holds(
    query: LookupQuery,
    rho: spec_fn(usize) -> int,
    other: spec_fn(usize) -> int,
) -> bool {
    match query.table {
        LookupQueryTableType::Constant(table) => row_holds(
            table,
            row_values(query.row@, rho),
            row_values(query.row@, other),
        ),
        LookupQueryTableType::Variable(_) => true,
    }
}

proof fn lemma_query(
    query: LookupQuery,
    n: int,
    m: int,
    rho: spec_fn(usize) -> int,
    rho2: spec_fn(usize) -> int,
    other: spec_fn(usize) -> int,
)
    requires
        0 <= n <= m,
        m + lookups::query_fresh(query) <= usize::MAX,
        row_below(query.row@, n),
        laws::agree_below(rho, rho2, n),
    ensures
        laws::satisfiable(lookups::query_constraints(query, m), m, rho2, other) <==> query_holds(
            query,
            rho,
            other,
        ),
        all_below(lookups::query_constraints(query, m), m + lookups::query_fresh(query)),
{
    let c = columns(query.row@);
    lemma_row(query.row@, n, rho);
    lemma_row(query.row@, n, other);
    lemma_values_agree(c, n, rho, rho2);
    lemma_below_weakened(c.0, n, m);
    lemma_below_weakened(c.1, n, m);
    lemma_below_weakened(c.2, n, m);
    match query.table {
        LookupQueryTableType::Constant(table) => {
            rows_are_described(table, c, m, rho2, other);
        },
        LookupQueryTableType::Variable(_) => {
            lemma_plain(Seq::empty(), m, m, rho2, other);
        },
    }
}

proof fn lemma_queries_fresh(queries: Seq<LookupQuery>)
    ensures
        lookups::queries_fresh(queries) >= 0,
    decreases queries.len(),
{
    if queries.len() > 0 {
        lemma_queries_fresh(queries.drop_last());
    }
}

/// The constraints of plain queries can be satisfied by a choice of their fresh variables exactly
/// where the row of every query is admitted.
pub proof fn queries_are_independent(
    queries: Seq<LookupQuery>,
    n: int,
    m: int,
    rho: spec_fn(usize) -> int,
    rho2: spec_fn(usize) -> int,
    other: spec_fn(usize) -> int,
)
    requires
        0 <= n <= m,
        m + lookups::queries_fresh(queries) <= usize::MAX,
        forall|i: int| 0 <= i < queries.len() ==> row_below((#[trigger] queries[i]).row@, n),
        laws::agree_below(rho, rho2, n),
    ensures
        laws::satisfiable(lookups::queries_constraints(queries, m), m, rho2, other) <==> (forall|
            i: int,
        |
            0 <= i < queries.len() ==> query_holds(#[trigger] queries[i], rho, other)),
        all_below(
            lookups::queries_constraints(queries, m),
            m + lookups::queries_fresh(queries),
        ),
    decreases queries.len(),
{
    if queries.len() == 0 {
        lemma_plain(Seq::empty(), m, m, rho2, other);
    } else {
        let front = queries.drop_last();
        let last = queries.last();
        let k = m + lookups::queries_fresh(front);
        lemma_queries_fresh(front);
        assert(last == queries[queries.len() - 1]);
        assert forall|i: int| 0 <= i < front.len() implies row_below(
            (#[trigger] front[i]).row@,
            n,
        ) by {
            assert(front[i] == queries[i]);
        }
        queries_are_independent(front, n, m, rho, rho2, other);
        lemma_query(last, n, k, rho, rho2, other);
        let a = lookups::queries_constraints(front, m);
        let b = lookups::query_constraints(last, k);
        let end = k + lookups::query_fresh(last);
        lemma_all_weakened(a, k, end);
        lemma_all_appended(a, b, end);
        let holds_front = forall|i: int|
            0 <= i < front.len() ==> query_holds(#[trigger] front[i], rho, other);
        assert forall|rho3: spec_fn(usize) -> int| #[trigger]
            laws::agree_below(rho2, rho3, m) implies (laws::satisfiable(b, k, rho3, other)
            <==> query_holds(last, rho, other)) by {
            assert forall|v: usize| v < n implies #[trigger] rho3(v) == rho(v) by {
                assert(rho3(v) == rho2(v));
                assert(rho2(v) == rho(v));
            }
            assert(laws::agree_below(rho, rho3, n));
            lemma_query(last, n, k, rho, rho3, other);
        }
        lemma_joined(
            a,
            b,
            m,
            k,
            rho2,
            other,
            holds_front,
            query_holds(last, rho, other),
        );
        if holds_front && query_holds(last, rho, other) {
            assert forall|i: int| 0 <= i < queries.len() implies query_holds(
                #[trigger] queries[i],
                rho,
                other,
            ) by {
                if i < front.len() {
                    assert(query_holds(front[i], rho, other));
                }
            }
        }
        if forall|i: int|
            0 <= i < queries.len() ==> query_holds(#[trigger] queries[i], rho, other) {
            assert forall|i: int| 0 <= i < front.len() implies query_holds(
                #[trigger] front[i],
                rho,
                other,
            ) by {
                assert(query_holds(queries[i], rho, other));
            }
        }
    }
}

/// The value of a circuit boolean.
pub open spec fn flag_value(flag: Boolean, rho: spec_fn(usize) -> int) -> int {
    match flag {
        Boolean::Is(v) => rho(v.0 as usize) % laws::p(),
        Boolean::Not(v) => (1 - rho(v.0 as usize)) % laws::p(),
        Boolean::Constant(c) => if c {
            1
        } else {
            0
        },
    }
}

/// Whether the variable of a circuit boolean is below a bound.
pub open spec fn flag_below(flag: Boolean, n: int) -> bool {
    match flag.variable() {
        Some(v) => v.0 < n,
        None => true,
    }
}

proof fn lemma_flag(flag: Boolean, n: int, rho: spec_fn(usize) -> int)
    requires
        n <= usize::MAX,
        flag_below(flag, n),
    ensures
        lookups::boolean_expr(flag).vars_below(n),
        lookups::boolean_expr(flag).eval(rho) == flag_value(flag, rho),
{
    reveal_with_fuel(PicusExpr::eval, 2);
    reveal_with_fuel(PicusExpr::vars_below, 2);
    match flag {
        Boolean::Is(_) => {},
        Boolean::Not(v) => {
            let x = rho(v.0 as usize);
            vstd::arithmetic::div_mod::lemma_small_mod(1, laws::p() as nat);
            vstd::arithmetic::div_mod::lemma_sub_mod_noop_right(1, x, laws::p());
        },
        Boolean::Constant(_) => {},
    }
}

/// The values of a row, multiplied by a flag.
pub open spec fn scaled_values(flag: int, x: (int, int, int)) -> (int, int, int) {
    ((flag * x.0) % laws::p(), (flag * x.1) % laws::p(), (flag * x.2) % laws::p())
}

/// Whether a case is admitted: its row is where its flag is set, or for tables in which a row of
/// zeros is harmless the row multiplied by the flag is. Cases whose table a variable chooses admit every row.
pub open spec fn case_holds(
    case: DisjunctiveLookupCase,
    ids: TableIds,
    rho: spec_fn(usize) -> int,
    other: spec_fn(usize) -> int,
) -> bool {
    match case.table {
        Num::Var(_) => true,
        Num::Constant(number) => {
            let table = ids.table_of((number.0 as int % laws::p()) as u32);
            if table is MemoryLoadHalfwordOrByte || table is MemStoreClearOriginalRamValueLimb {
                row_holds(
                    table,
                    scaled_values(flag_value(case.flag, rho), row_values(case.row@, rho)),
                    scaled_values(flag_value(case.flag, other), row_values(case.row@, other)),
                )
            } else {
                flag_value(case.flag, rho) == 1 ==> row_holds(
                    table,
                    row_values(case.row@, rho),
                    row_values(case.row@, other),
                )
            }
        },
    }
}

/// Whether the variables of a case are below a bound.
pub open spec fn case_below(case: DisjunctiveLookupCase, n: int) -> bool {
    flag_below(case.flag, n) && row_below(case.row@, n)
}

proof fn lemma_scaled_row(
    flag: Boolean,
    row: Seq<LookupInput>,
    n: int,
    rho: spec_fn(usize) -> int,
)
    requires
        n <= usize::MAX,
        flag_below(flag, n),
        row_below(row, n),
    ensures
        ({
            let f = lookups::boolean_expr(flag);
            let c = columns(row);
            let scaled = (ir::product(f, c.0), ir::product(f, c.1), ir::product(f, c.2));
            columns_below(scaled, n) && values(scaled, rho) == scaled_values(
                flag_value(flag, rho),
                row_values(row, rho),
            )
        }),
{
    let f = lookups::boolean_expr(flag);
    let c = columns(row);
    lemma_flag(flag, n, rho);
    lemma_row(row, n, rho);
    reveal_with_fuel(PicusExpr::vars_below, 2);
    laws::operators_are_those_of_the_field(f, c.0, rho);
    laws::operators_are_those_of_the_field(f, c.1, rho);
    laws::operators_are_those_of_the_field(f, c.2, rho);
}

/// A guarded list can be satisfied where its guard fails, and where the list can be satisfied.
proof fn lemma_guarded(
    cond: PicusConstraint,
    cs: Seq<PicusConstraint>,
    n: int,
    m: int,
    rho: spec_fn(usize) -> int,
    other: spec_fn(usize) -> int,
)
    requires
        n <= m,
        constraint_below(cond, n),
        all_below(cs, m),
    ensures
        laws::satisfiable(lookups::guarded(cond, cs), n, rho, other) <==> (cond.holds(rho, other)
            ==> laws::satisfiable(cs, n, rho, other)),
        all_below(lookups::guarded(cond, cs), m),
{
    let gs = lookups::guarded(cond, cs);
    lemma_constraint_weakened(cond, n, m);
    assert forall|i: int| 0 <= i < gs.len() implies constraint_below(#[trigger] gs[i], m) by {
        assert(constraint_below(cs[i], m));
        reveal_with_fuel(constraint_below, 2);
    }
    if laws::satisfiable(gs, n, rho, other) && cond.holds(rho, other) {
        let rho2 = choose|rho2: spec_fn(usize) -> int| #[trigger]
            laws::agree_below(rho, rho2, n) && laws::all_hold(gs, rho2, other);
        lemma_holds_agrees(cond, n, rho, rho2, other);
        laws::guarded_constraints_hold_where_the_guard_implies_them(cond, cs, rho2, other);
    }
    if !cond.holds(rho, other) {
        laws::guarded_constraints_hold_where_the_guard_implies_them(cond, cs, rho, other);
        assert(laws::agree_below(rho, rho, n));
    } else if laws::satisfiable(cs, n, rho, other) {
        let rho2 = choose|rho2: spec_fn(usize) -> int| #[trigger]
            laws::agree_below(rho, rho2, n) && laws::all_hold(cs, rho2, other);
        laws::guarded_constraints_hold_where_the_guard_implies_them(cond, cs, rho2, other);
        assert(laws::agree_below(rho, rho2, n) && laws::all_hold(gs, rho2, other));
    }
}

proof fn lemma_case(
    case: DisjunctiveLookupCase,
    ids: TableIds,
    n: int,
    m: int,
    rho: spec_fn(usize) -> int,
    rho2: spec_fn(usize) -> int,
    other: spec_fn(usize) -> int,
)
    requires
        0 <= n <= m,
        m + lookups::case_fresh(case, ids) <= usize::MAX,
        case_below(case, n),
        laws::agree_below(rho, rho2, n),
    ensures
        laws::satisfiable(lookups::case_constraints(case, ids, m), m, rho2, other) <==> case_holds(
            case,
            ids,
            rho,
            other,
        ),
        all_below(
            lookups::case_constraints(case, ids, m),
            m + lookups::case_fresh(case, ids),
        ),
{
    match lookups::case_table(case, ids) {
        None => {
            lemma_plain(Seq::empty(), m, m, rho2, other);
        },
        Some(table) => {
            let f = lookups::boolean_expr(case.flag);
            let c = columns(case.row@);
            lemma_row(case.row@, n, rho);
            lemma_row(case.row@, n, other);
            lemma_flag(case.flag, n, rho);
            if lookups::multiplies_in(table) {
                let scaled = (ir::product(f, c.0), ir::product(f, c.1), ir::product(f, c.2));
                lemma_scaled_row(case.flag, case.row@, n, rho);
                lemma_scaled_row(case.flag, case.row@, n, other);
                lemma_values_agree(scaled, n, rho, rho2);
                lemma_below_weakened(scaled.0, n, m);
                lemma_below_weakened(scaled.1, n, m);
                lemma_below_weakened(scaled.2, n, m);
                rows_are_described(table, scaled, m, rho2, other);
            } else {
                let cond = ir::equal(f, lookups::lit(1));
                let cs = lookups::table_constraints(table, c.0, c.1, c.2, m);
                lemma_values_agree(c, n, rho, rho2);
                lemma_below_weakened(c.0, n, m);
                lemma_below_weakened(c.1, n, m);
                lemma_below_weakened(c.2, n, m);
                lemma_below_weakened(f, n, m);
                rows_are_described(table, c, m, rho2, other);
                laws::lemma_eval_agrees(f, rho, rho2, n);
                laws::equalities_compare_values(f, lookups::lit(1), rho2, other);
                laws::leaves_have_their_residues(1, 0, rho2);
                vstd::arithmetic::div_mod::lemma_small_mod(1, laws::p() as nat);
                reveal_with_fuel(PicusExpr::vars_below, 2);
                assert(constraint_below(cond, m));
                lemma_guarded(cond, cs, m, m + lookups::table_fresh(table), rho2, other);
            }
        },
    }
}

proof fn lemma_cases_fresh(cases: Seq<DisjunctiveLookupCase>, ids: TableIds)
    ensures
        lookups::cases_fresh(cases, ids) >= 0,
    decreases cases.len(),
{
    if cases.len() > 0 {
        lemma_cases_fresh(cases.drop_last(), ids);
    }
}

/// Whether every case is admitted.
pub open spec fn cases_hold(
    cases: Seq<DisjunctiveLookupCase>,
    ids: TableIds,
    rho: spec_fn(usize) -> int,
    other: spec_fn(usize) -> int,
) -> bool {
    forall|i: int| 0 <= i < cases.len() ==> case_holds(#[trigger] cases[i], ids, rho, other)
}

/// Whether the variables of every case are below a bound.
pub open spec fn cases_below(cases: Seq<DisjunctiveLookupCase>, n: int) -> bool {
    forall|i: int| 0 <= i < cases.len() ==> case_below(#[trigger] cases[i], n)
}

proof fn lemma_cases(
    cases: Seq<DisjunctiveLookupCase>,
    ids: TableIds,
    n: int,
    m: int,
    rho: spec_fn(usize) -> int,
    rho2: spec_fn(usize) -> int,
    other: spec_fn(usize) -> int,
)
    requires
        0 <= n <= m,
        m + lookups::cases_fresh(cases, ids) <= usize::MAX,
        cases_below(cases, n),
        laws::agree_below(rho, rho2, n),
    ensures
        laws::satisfiable(lookups::cases_constraints(cases, ids, m), m, rho2, other) <==> cases_hold(
            cases,
            ids,
            rho,
            other,
        ),
        all_below(
            lookups::cases_constraints(cases, ids, m),
            m + lookups::cases_fresh(cases, ids),
        ),
    decreases cases.len(),
{
    if cases.len() == 0 {
        lemma_plain(Seq::empty(), m, m, rho2, other);
    } else {
        let front = cases.drop_last();
        let last = cases.last();
        let k = m + lookups::cases_fresh(front, ids);
        lemma_cases_fresh(front, ids);
        assert(last == cases[cases.len() - 1]);
        assert forall|i: int| 0 <= i < front.len() implies case_below(#[trigger] front[i], n) by {
            assert(front[i] == cases[i]);
        }
        lemma_cases(front, ids, n, m, rho, rho2, other);
        lemma_case(last, ids, n, k, rho, rho2, other);
        let a = lookups::cases_constraints(front, ids, m);
        let b = lookups::case_constraints(last, ids, k);
        let end = k + lookups::case_fresh(last, ids);
        lemma_all_weakened(a, k, end);
        lemma_all_appended(a, b, end);
        assert forall|rho3: spec_fn(usize) -> int| #[trigger]
            laws::agree_below(rho2, rho3, m) implies (laws::satisfiable(b, k, rho3, other)
            <==> case_holds(last, ids, rho, other)) by {
            assert forall|v: usize| v < n implies #[trigger] rho3(v) == rho(v) by {
                assert(rho3(v) == rho2(v));
                assert(rho2(v) == rho(v));
            }
            assert(laws::agree_below(rho, rho3, n));
            lemma_case(last, ids, n, k, rho, rho3, other);
        }
        lemma_joined(
            a,
            b,
            m,
            k,
            rho2,
            other,
            cases_hold(front, ids, rho, other),
            case_holds(last, ids, rho, other),
        );
        if cases_hold(front, ids, rho, other) && case_holds(last, ids, rho, other) {
            assert forall|i: int| 0 <= i < cases.len() implies case_holds(
                #[trigger] cases[i],
                ids,
                rho,
                other,
            ) by {
                if i < front.len() {
                    assert(case_holds(front[i], ids, rho, other));
                }
            }
        }
        if cases_hold(cases, ids, rho, other) {
            assert forall|i: int| 0 <= i < front.len() implies case_holds(
                #[trigger] front[i],
                ids,
                rho,
                other,
            ) by {
                assert(case_holds(cases[i], ids, rho, other));
            }
        }
    }
}

proof fn lemma_relations_fresh(relations: Seq<DisjunctiveLookup>, ids: TableIds)
    ensures
        lookups::relations_fresh(relations, ids) >= 0,
    decreases relations.len(),
{
    if relations.len() > 0 {
        lemma_relations_fresh(relations.drop_last(), ids);
        lemma_cases_fresh(relations.last().cases@, ids);
    }
}

/// The constraints of disjunctive lookups can be satisfied by a choice of their fresh variables
/// exactly where every case is admitted.
pub proof fn relations_are_independent(
    relations: Seq<DisjunctiveLookup>,
    ids: TableIds,
    n: int,
    m: int,
    rho: spec_fn(usize) -> int,
    rho2: spec_fn(usize) -> int,
    other: spec_fn(usize) -> int,
)
    requires
        0 <= n <= m,
        m + lookups::relations_fresh(relations, ids) <= usize::MAX,
        forall|i: int|
            0 <= i < relations.len() ==> cases_below((#[trigger] relations[i]).cases@, n),
        laws::agree_below(rho, rho2, n),
    ensures
        laws::satisfiable(
            lookups::relations_constraints(relations, ids, m),
            m,
            rho2,
            other,
        ) <==> (forall|i: int|
            0 <= i < relations.len() ==> cases_hold(
                (#[trigger] relations[i]).cases@,
                ids,
                rho,
                other,
            )),
        all_below(
            lookups::relations_constraints(relations, ids, m),
            m + lookups::relations_fresh(relations, ids),
        ),
    decreases relations.len(),
{
    if relations.len() == 0 {
        lemma_plain(Seq::empty(), m, m, rho2, other);
    } else {
        let front = relations.drop_last();
        let last = relations.last().cases@;
        let k = m + lookups::relations_fresh(front, ids);
        lemma_relations_fresh(front, ids);
        lemma_cases_fresh(last, ids);
        assert(relations.last() == relations[relations.len() - 1]);
        assert forall|i: int| 0 <= i < front.len() implies cases_below(
            (#[trigger] front[i]).cases@,
            n,
        ) by {
            assert(front[i] == relations[i]);
        }
        relations_are_independent(front, ids, n, m, rho, rho2, other);
        lemma_cases(last, ids, n, k, rho, rho2, other);
        let a = lookups::relations_constraints(front, ids, m);
        let b = lookups::cases_constraints(last, ids, k);
        let end = k + lookups::cases_fresh(last, ids);
        lemma_all_weakened(a, k, end);
        lemma_all_appended(a, b, end);
        let holds_front = forall|i: int|
            0 <= i < front.len() ==> cases_hold((#[trigger] front[i]).cases@, ids, rho, other);
        assert forall|rho3: spec_fn(usize) -> int| #[trigger]
            laws::agree_below(rho2, rho3, m) implies (laws::satisfiable(b, k, rho3, other)
            <==> cases_hold(last, ids, rho, other)) by {
            assert forall|v: usize| v < n implies #[trigger] rho3(v) == rho(v) by {
                assert(rho3(v) == rho2(v));
                assert(rho2(v) == rho(v));
            }
            assert(laws::agree_below(rho, rho3, n));
            lemma_cases(last, ids, n, k, rho, rho3, other);
        }
        lemma_joined(
            a,
            b,
            m,
            k,
            rho2,
            other,
            holds_front,
            cases_hold(last, ids, rho, other),
        );
        if holds_front && cases_hold(last, ids, rho, other) {
            assert forall|i: int| 0 <= i < relations.len() implies cases_hold(
                (#[trigger] relations[i]).cases@,
                ids,
                rho,
                other,
            ) by {
                if i < front.len() {
                    assert(cases_hold(front[i].cases@, ids, rho, other));
                }
            }
        }
        if forall|i: int|
            0 <= i < relations.len() ==> cases_hold(
                (#[trigger] relations[i]).cases@,
                ids,
                rho,
                other,
            ) {
            assert forall|i: int| 0 <= i < front.len() implies cases_hold(
                (#[trigger] front[i]).cases@,
                ids,
                rho,
                other,
            ) by {
                assert(cases_hold(relations[i].cases@, ids, rho, other));
            }
        }
    }
}

/// Whether the variables of the circuit that its constraints mention are below its number of
/// variables.
pub open spec fn is_closed(co: CircuitOutput, state: Option<OpcodeFamilyCircuitState>) -> bool {
    let n = co.num_of_variables as int;
    &&& forall|i: int|
        0 <= i < co.shuffle_ram_queries@.len() ==> {
            &&& (#[trigger] co.shuffle_ram_queries@[i]).read_value[0].0 < n
            &&& co.shuffle_ram_queries@[i].read_value[1].0 < n
        }
    &&& forall|i: int, j: int, k: int|
        0 <= i < co.constraints@.len() && 0 <= j < co.constraints@[i].0.terms@.len() && 0 <= k
            < co.constraints@[i].0.terms@[j].factors().len()
            ==> (#[trigger] co.constraints@[i].0.terms@[j].factors()[k]).0 < n
    &&& forall|i: int| 0 <= i < co.lookups@.len() ==> row_below((#[trigger] co.lookups@[i]).row@, n)
    &&& forall|i: int|
        0 <= i < co.picus_extraction_metadata.disjunctive_lookups@.len() ==> cases_below(
            (#[trigger] co.picus_extraction_metadata.disjunctive_lookups@[i]).cases@,
            n,
        )
    &&& forall|i: int| 0 <= i < co.boolean_vars@.len() ==> (#[trigger] co.boolean_vars@[i]).0 < n
    &&& forall|i: int|
        0 <= i < co.range_check_expressions@.len() ==> input_below(
            (#[trigger] co.range_check_expressions@[i]).input,
            n,
        )
    &&& state matches Some(cs) ==> {
        &&& cs.decoder_data.funct3.0 < n
        &&& cs.decoder_data.funct7 matches Some(v) ==> v.0 < n
        &&& cs.decoder_data.rd_is_zero.0 < n
        &&& cs.decoder_data.imm[0].0 < n
        &&& cs.decoder_data.imm[1].0 < n
        &&& cs.cycle_start_state.pc[0].0 < n
        &&& cs.cycle_start_state.pc[1].0 < n
    }
}

/// The value of a variable as a field element.
pub open spec fn value_of(v: Variable, rho: spec_fn(usize) -> int) -> int {
    rho(v.0 as usize) % laws::p()
}

/// Whether an assignment is one of the circuit: the values that are read fit in limbs, every
/// polynomial vanishes, every lookup is admitted, booleans are bits, every range check passes, and
/// the machine state is in range.
pub open spec fn circuit_holds(
    co: CircuitOutput,
    state: Option<OpcodeFamilyCircuitState>,
    rho: spec_fn(usize) -> int,
    other: spec_fn(usize) -> int,
) -> bool {
    let relations = co.picus_extraction_metadata.disjunctive_lookups@;
    &&& forall|i: int|
        0 <= i < co.shuffle_ram_queries@.len() ==> {
            &&& value_of((#[trigger] co.shuffle_ram_queries@[i]).read_value[0], rho) < 0x1_0000
            &&& value_of(co.shuffle_ram_queries@[i].read_value[1], rho) < 0x1_0000
        }
    &&& forall|i: int|
        0 <= i < co.constraints@.len() ==> laws::polynomial_value(
            (#[trigger] co.constraints@[i]).0.terms@,
            rho,
        ) % laws::p() == 0
    &&& forall|i: int|
        0 <= i < co.lookups@.len() ==> query_holds(#[trigger] co.lookups@[i], rho, other)
    &&& forall|i: int|
        0 <= i < relations.len() ==> cases_hold(
            (#[trigger] relations[i]).cases@,
            co.table_ids,
            rho,
            other,
        )
    &&& forall|i: int|
        0 <= i < co.boolean_vars@.len() ==> {
            let x = value_of(#[trigger] co.boolean_vars@[i], rho);
            x == 0 || x == 1
        }
    &&& forall|i: int|
        0 <= i < co.range_check_expressions@.len() ==> range_holds(
            #[trigger] co.range_check_expressions@[i],
            rho,
        )
    &&& state matches Some(cs) ==> state_holds(cs, rho)
}

/// Whether a range check passes.
pub open spec fn range_holds(query: RangeCheckQuery, rho: spec_fn(usize) -> int) -> bool {
    laws::input_value(query.input, rho) % laws::p() < (1u64 << (query.width as u32)) as int
        % laws::p()
}

/// Whether the machine state is in range.
pub open spec fn state_holds(cs: OpcodeFamilyCircuitState, rho: spec_fn(usize) -> int) -> bool {
    &&& value_of(cs.decoder_data.funct3, rho) < 8
    &&& cs.decoder_data.funct7 matches Some(v) ==> value_of(v, rho) < 128
    &&& value_of(cs.decoder_data.rd_is_zero, rho) == 0 || value_of(cs.decoder_data.rd_is_zero, rho)
        == 1
    &&& value_of(cs.decoder_data.imm[0], rho) < 0x1_0000
    &&& value_of(cs.decoder_data.imm[1], rho) < 0x1_0000
    &&& value_of(cs.cycle_start_state.pc[0], rho) < 0x1_0000
    &&& value_of(cs.cycle_start_state.pc[1], rho) < 0x1_0000
}

/// The limbs that the queries read, two for each query.
proof fn lemma_reads(queries: Seq<ShuffleRamMemQuery>)
    ensures
        translate::read_variables(queries).len() == 2 * queries.len(),
        forall|i: int|
            0 <= i < queries.len() ==> {
                &&& translate::read_variables(queries)[2 * i] == (
                #[trigger] queries[i]).read_value[0]
                &&& translate::read_variables(queries)[2 * i + 1] == queries[i].read_value[1]
            },
    decreases queries.len(),
{
    if queries.len() > 0 {
        let front = queries.drop_last();
        let head = translate::read_variables(front);
        let all = translate::read_variables(queries);
        lemma_reads(front);
        assert forall|i: int| 0 <= i < queries.len() implies {
            &&& all[2 * i] == (#[trigger] queries[i]).read_value[0]
            &&& all[2 * i + 1] == queries[i].read_value[1]
        } by {
            if i < front.len() {
                assert(front[i] == queries[i]);
                assert(all[2 * i] == head[2 * i]);
                assert(all[2 * i + 1] == head[2 * i + 1]);
            }
        }
    }
}

proof fn lemma_u16(vs: Seq<Variable>, n: int, rho: spec_fn(usize) -> int, other: spec_fn(usize) -> int)
    requires
        n <= usize::MAX,
        forall|i: int| 0 <= i < vs.len() ==> (#[trigger] vs[i]).0 < n,
    ensures
        all_below(translate::u16_constraints(vs), n),
        laws::all_hold(translate::u16_constraints(vs), rho, other) <==> (forall|i: int|
            0 <= i < vs.len() ==> value_of(#[trigger] vs[i], rho) < 0x1_0000),
{
    let cs = translate::u16_constraints(vs);
    assert forall|i: int| 0 <= i < vs.len() implies constraint_below(cs[i], n) && (
    cs[i].holds(rho, other) <==> value_of(#[trigger] vs[i], rho) < 0x1_0000) by {
        laws::bounds_compare_values(translate::var_expr(vs[i]), lookups::U16_BOUND, rho, other);
        laws::leaves_have_their_residues(0, vs[i].0 as usize, rho);
    }
    if laws::all_hold(cs, rho, other) {
        assert forall|i: int| 0 <= i < vs.len() implies value_of(#[trigger] vs[i], rho)
            < 0x1_0000 by {
            assert(cs[i].holds(rho, other));
        }
    }
    if forall|i: int| 0 <= i < vs.len() ==> value_of(#[trigger] vs[i], rho) < 0x1_0000 {
        assert forall|i: int| 0 <= i < cs.len() implies (#[trigger] cs[i]).holds(rho, other) by {
            assert(value_of(vs[i], rho) < 0x1_0000);
        }
    }
    assert forall|i: int| 0 <= i < cs.len() implies constraint_below(#[trigger] cs[i], n) by {
        assert(vs[i].0 < n);
    }
}

proof fn lemma_bits(vs: Seq<Variable>, n: int, rho: spec_fn(usize) -> int, other: spec_fn(usize) -> int)
    requires
        n <= usize::MAX,
        forall|i: int| 0 <= i < vs.len() ==> (#[trigger] vs[i]).0 < n,
    ensures
        ({
            let cs = vs.map_values(|v: Variable| ir::bit(translate::var_expr(v)));
            all_below(cs, n) && (laws::all_hold(cs, rho, other) <==> (forall|i: int|
                0 <= i < vs.len() ==> {
                    let x = value_of(#[trigger] vs[i], rho);
                    x == 0 || x == 1
                }))
        }),
{
    let cs = vs.map_values(|v: Variable| ir::bit(translate::var_expr(v)));
    reveal_with_fuel(PicusExpr::vars_below, 4);
    assert forall|i: int| 0 <= i < vs.len() implies (cs[i].holds(rho, other) <==> {
        let x = value_of(#[trigger] vs[i], rho);
        x == 0 || x == 1
    }) by {
        laws::bits_are_zero_or_one(translate::var_expr(vs[i]), rho, other);
        laws::leaves_have_their_residues(0, vs[i].0 as usize, rho);
    }
    if laws::all_hold(cs, rho, other) {
        assert forall|i: int| 0 <= i < vs.len() implies ({
            let x = value_of(#[trigger] vs[i], rho);
            x == 0 || x == 1
        }) by {
            assert(cs[i].holds(rho, other));
        }
    }
    if forall|i: int|
        0 <= i < vs.len() ==> {
            let x = value_of(#[trigger] vs[i], rho);
            x == 0 || x == 1
        } {
        assert forall|i: int| 0 <= i < cs.len() implies (#[trigger] cs[i]).holds(rho, other) by {
            let x = value_of(vs[i], rho);
        }
    }
    assert forall|i: int| 0 <= i < cs.len() implies constraint_below(#[trigger] cs[i], n) by {
        assert(vs[i].0 < n);
    }
}

proof fn lemma_ranges(
    qs: Seq<RangeCheckQuery>,
    n: int,
    rho: spec_fn(usize) -> int,
    other: spec_fn(usize) -> int,
)
    requires
        n <= usize::MAX,
        forall|i: int| 0 <= i < qs.len() ==> input_below((#[trigger] qs[i]).input, n),
    ensures
        ({
            let cs = qs.map_values(|q: RangeCheckQuery| translate::range_constraint(q));
            all_below(cs, n) && (laws::all_hold(cs, rho, other) <==> (forall|i: int|
                0 <= i < qs.len() ==> range_holds(#[trigger] qs[i], rho)))
        }),
{
    let cs = qs.map_values(|q: RangeCheckQuery| translate::range_constraint(q));
    assert forall|i: int| 0 <= i < qs.len() implies (cs[i].holds(rho, other) <==> range_holds(
        #[trigger] qs[i],
        rho,
    )) by {
        laws::lookup_inputs_keep_their_value(qs[i].input, rho);
        laws::leaves_have_their_residues(1u64 << (qs[i].width as u32), 0, rho);
    }
    if laws::all_hold(cs, rho, other) {
        assert forall|i: int| 0 <= i < qs.len() implies range_holds(#[trigger] qs[i], rho) by {
            assert(cs[i].holds(rho, other));
        }
    }
    if forall|i: int| 0 <= i < qs.len() ==> range_holds(#[trigger] qs[i], rho) {
        assert forall|i: int| 0 <= i < cs.len() implies (#[trigger] cs[i]).holds(rho, other) by {
            assert(range_holds(qs[i], rho));
        }
    }
    assert forall|i: int| 0 <= i < cs.len() implies constraint_below(#[trigger] cs[i], n) by {
        assert(input_below(qs[i].input, n));
        lemma_input_below(qs[i].input, n);
    }
}

proof fn lemma_state(
    cs: OpcodeFamilyCircuitState,
    n: int,
    rho: spec_fn(usize) -> int,
    other: spec_fn(usize) -> int,
)
    requires
        n <= usize::MAX,
        cs.decoder_data.funct3.0 < n,
        cs.decoder_data.funct7 matches Some(v) ==> v.0 < n,
        cs.decoder_data.rd_is_zero.0 < n,
        cs.decoder_data.imm[0].0 < n,
        cs.decoder_data.imm[1].0 < n,
        cs.cycle_start_state.pc[0].0 < n,
        cs.cycle_start_state.pc[1].0 < n,
    ensures
        all_below(translate::state_constraints(cs), n),
        laws::all_hold(translate::state_constraints(cs), rho, other) <==> state_holds(cs, rho),
{
    let list = translate::state_constraints(cs);
    let d = cs.decoder_data;
    let pc = cs.cycle_start_state.pc;
    reveal_with_fuel(PicusExpr::vars_below, 4);
    laws::leaves_have_their_residues(0, d.funct3.0 as usize, rho);
    laws::leaves_have_their_residues(0, d.rd_is_zero.0 as usize, rho);
    laws::leaves_have_their_residues(0, d.imm[0].0 as usize, rho);
    laws::leaves_have_their_residues(0, d.imm[1].0 as usize, rho);
    laws::leaves_have_their_residues(0, pc[0].0 as usize, rho);
    laws::leaves_have_their_residues(0, pc[1].0 as usize, rho);
    laws::bounds_compare_values(translate::var_expr(d.funct3), 8, rho, other);
    laws::bits_are_zero_or_one(translate::var_expr(d.rd_is_zero), rho, other);
    laws::bounds_compare_values(translate::var_expr(d.imm[0]), lookups::U16_BOUND, rho, other);
    laws::bounds_compare_values(translate::var_expr(d.imm[1]), lookups::U16_BOUND, rho, other);
    laws::bounds_compare_values(translate::var_expr(pc[0]), lookups::U16_BOUND, rho, other);
    laws::bounds_compare_values(translate::var_expr(pc[1]), lookups::U16_BOUND, rho, other);
    let at: int = match d.funct7 {
        Some(v) => {
            laws::leaves_have_their_residues(0, v.0 as usize, rho);
            laws::bounds_compare_values(translate::var_expr(v), 128, rho, other);
            assert(list[1] == ir::below_const(translate::var_expr(v), 128));
            2
        },
        None => 1,
    };
    assert(list.len() == at + 5);
    assert(list[0] == ir::below_const(translate::var_expr(d.funct3), 8));
    assert(list[at] == ir::bit(translate::var_expr(d.rd_is_zero)));
    assert(list[at + 1] == ir::below_const(translate::var_expr(d.imm[0]), lookups::U16_BOUND));
    assert(list[at + 2] == ir::below_const(translate::var_expr(d.imm[1]), lookups::U16_BOUND));
    assert(list[at + 3] == ir::below_const(translate::var_expr(pc[0]), lookups::U16_BOUND));
    assert(list[at + 4] == ir::below_const(translate::var_expr(pc[1]), lookups::U16_BOUND));
    if laws::all_hold(list, rho, other) {
        assert(list[0].holds(rho, other));
        assert(list[1].holds(rho, other));
        assert(list[at].holds(rho, other));
        assert(list[at + 1].holds(rho, other));
        assert(list[at + 2].holds(rho, other));
        assert(list[at + 3].holds(rho, other));
        assert(list[at + 4].holds(rho, other));
    }
}

proof fn lemma_product_below(factors: Seq<Variable>, n: int)
    requires
        n <= usize::MAX,
        forall|k: int| 0 <= k < factors.len() ==> (#[trigger] factors[k]).0 < n,
    ensures
        translate::product_expr(factors).vars_below(n),
    decreases factors.len(),
{
    reveal_with_fuel(PicusExpr::vars_below, 3);
    if factors.len() > 0 {
        let front = factors.drop_last();
        assert(factors.last() == factors[factors.len() - 1]);
        assert forall|k: int| 0 <= k < front.len() implies (#[trigger] front[k]).0 < n by {
            assert(front[k] == factors[k]);
        }
        lemma_product_below(front, n);
    }
}

proof fn lemma_terms_below(terms: Seq<Term>, n: int)
    requires
        n <= usize::MAX,
        forall|j: int, k: int|
            0 <= j < terms.len() && 0 <= k < terms[j].factors().len() ==> (
            #[trigger] terms[j].factors()[k]).0 < n,
    ensures
        translate::terms_expr(terms).vars_below(n),
    decreases terms.len(),
{
    reveal_with_fuel(PicusExpr::vars_below, 4);
    if terms.len() > 0 {
        let front = terms.drop_last();
        let last = terms[terms.len() - 1];
        assert forall|j: int, k: int|
            0 <= j < front.len() && 0 <= k < front[j].factors().len() implies (
        #[trigger] front[j].factors()[k]).0 < n by {
            assert(front[j] == terms[j]);
            assert(terms[j].factors()[k].0 < n);
        }
        lemma_terms_below(front, n);
        assert forall|k: int| 0 <= k < last.factors().len() implies (
        #[trigger] last.factors()[k]).0 < n by {
            assert(terms[terms.len() - 1].factors()[k].0 < n);
        }
        lemma_product_below(last.factors(), n);
    }
}

proof fn lemma_polynomials(
    constraints: Seq<(Constraint, bool)>,
    n: int,
    rho: spec_fn(usize) -> int,
    other: spec_fn(usize) -> int,
)
    requires
        n <= usize::MAX,
        forall|i: int, j: int, k: int|
            0 <= i < constraints.len() && 0 <= j < constraints[i].0.terms@.len() && 0 <= k
                < constraints[i].0.terms@[j].factors().len() ==> (
            #[trigger] constraints[i].0.terms@[j].factors()[k]).0 < n,
    ensures
        all_below(translate::polynomial_constraints(constraints), n),
        laws::all_hold(translate::polynomial_constraints(constraints), rho, other) <==> (forall|
            i: int,
        |
            0 <= i < constraints.len() ==> laws::polynomial_value(
                (#[trigger] constraints[i]).0.terms@,
                rho,
            ) % laws::p() == 0),
{
    let cs = translate::polynomial_constraints(constraints);
    assert forall|i: int| 0 <= i < constraints.len() implies (cs[i].holds(rho, other)
        <==> laws::polynomial_value((#[trigger] constraints[i]).0.terms@, rho) % laws::p()
        == 0) by {
        laws::constraints_hold_where_the_polynomial_vanishes(constraints[i].0, rho, other);
    }
    if laws::all_hold(cs, rho, other) {
        assert forall|i: int| 0 <= i < constraints.len() implies laws::polynomial_value(
            (#[trigger] constraints[i]).0.terms@,
            rho,
        ) % laws::p() == 0 by {
            assert(cs[i].holds(rho, other));
        }
    }
    if forall|i: int|
        0 <= i < constraints.len() ==> laws::polynomial_value(
            (#[trigger] constraints[i]).0.terms@,
            rho,
        ) % laws::p() == 0 {
        assert forall|i: int| 0 <= i < cs.len() implies (#[trigger] cs[i]).holds(rho, other) by {
            assert(laws::polynomial_value(constraints[i].0.terms@, rho) % laws::p() == 0);
        }
    }
    assert forall|i: int| 0 <= i < cs.len() implies constraint_below(#[trigger] cs[i], n) by {
        let terms = constraints[i].0.terms@;
        assert forall|j: int, k: int|
            0 <= j < terms.len() && 0 <= k < terms[j].factors().len() implies (
        #[trigger] terms[j].factors()[k]).0 < n by {
            assert(constraints[i].0.terms@[j].factors()[k].0 < n);
        }
        lemma_terms_below(terms, n);
    }
}

/// A list without fresh variables added after another one.
proof fn lemma_joined_plain(
    a: Seq<PicusConstraint>,
    b: Seq<PicusConstraint>,
    n: int,
    m: int,
    rho: spec_fn(usize) -> int,
    other: spec_fn(usize) -> int,
)
    requires
        n <= m,
        all_below(a, m),
        all_below(b, n),
    ensures
        laws::satisfiable(a + b, n, rho, other) <==> laws::satisfiable(a, n, rho, other)
            && laws::all_hold(b, rho, other),
        all_below(a + b, m),
{
    assert forall|rho2: spec_fn(usize) -> int| #[trigger]
        laws::agree_below(rho, rho2, n) implies (laws::satisfiable(b, m, rho2, other)
        <==> laws::all_hold(b, rho, other)) by {
        lemma_plain(b, n, m, rho2, other);
        lemma_all_agrees(b, n, rho, rho2, other);
    }
    lemma_joined(
        a,
        b,
        n,
        m,
        rho,
        other,
        laws::satisfiable(a, n, rho, other),
        laws::all_hold(b, rho, other),
    );
    lemma_all_weakened(b, n, m);
    lemma_all_appended(a, b, m);
}

/// The constraints of the module of a circuit can be satisfied by a choice of the auxiliary
/// variables exactly where the values of its own variables are an assignment of the circuit.
pub proof fn modules_describe_their_circuits(
    co: CircuitOutput,
    state: Option<OpcodeFamilyCircuitState>,
    rho: spec_fn(usize) -> int,
    other: spec_fn(usize) -> int,
)
    requires
        is_closed(co, state),
        co.num_of_variables + translate::circuit_fresh(co) <= usize::MAX,
    ensures
        laws::satisfiable(
            translate::circuit_constraints(co, state),
            co.num_of_variables as int,
            rho,
            other,
        ) <==> circuit_holds(co, state, rho, other),
{
    let n = co.num_of_variables as int;
    let relations = co.picus_extraction_metadata.disjunctive_lookups@;
    let reads = translate::read_variables(co.shuffle_ram_queries@);
    let m = n + lookups::queries_fresh(co.lookups@);
    let end = m + lookups::relations_fresh(relations, co.table_ids);
    lemma_queries_fresh(co.lookups@);
    lemma_relations_fresh(relations, co.table_ids);
    assert(laws::agree_below(rho, rho, n));

    let c1 = translate::u16_constraints(reads);
    let c2 = translate::polynomial_constraints(co.constraints@);
    let c3 = lookups::queries_constraints(co.lookups@, n);
    let c4 = lookups::relations_constraints(relations, co.table_ids, m);
    let c5 = co.boolean_vars@.map_values(|v: Variable| ir::bit(translate::var_expr(v)));
    let c6 = co.range_check_expressions@.map_values(
        |q: RangeCheckQuery| translate::range_constraint(q),
    );
    let c7 = match state {
        Some(cs) => translate::state_constraints(cs),
        None => Seq::empty(),
    };

    let queries = co.shuffle_ram_queries@;
    lemma_reads(queries);
    assert forall|i: int| 0 <= i < reads.len() implies (#[trigger] reads[i]).0 < n by {
        assert(queries[i / 2].read_value[0].0 < n);
    }
    lemma_u16(reads, n, rho, other);
    let limbs_hold = forall|i: int|
        0 <= i < queries.len() ==> {
            &&& value_of((#[trigger] queries[i]).read_value[0], rho) < 0x1_0000
            &&& value_of(queries[i].read_value[1], rho) < 0x1_0000
        };
    if limbs_hold {
        assert forall|i: int| 0 <= i < reads.len() implies value_of(#[trigger] reads[i], rho)
            < 0x1_0000 by {
            assert(value_of(queries[i / 2].read_value[0], rho) < 0x1_0000);
        }
    }
    if laws::all_hold(c1, rho, other) {
        assert forall|i: int| 0 <= i < queries.len() implies {
            &&& value_of((#[trigger] queries[i]).read_value[0], rho) < 0x1_0000
            &&& value_of(queries[i].read_value[1], rho) < 0x1_0000
        } by {
            assert(value_of(reads[2 * i], rho) < 0x1_0000);
            assert(value_of(reads[2 * i + 1], rho) < 0x1_0000);
        }
    }
    assert(limbs_hold <==> laws::all_hold(c1, rho, other));
    lemma_plain(c1, n, n, rho, other);
    lemma_polynomials(co.constraints@, n, rho, other);
    lemma_joined_plain(c1, c2, n, n, rho, other);

    queries_are_independent(co.lookups@, n, n, rho, rho, other);
    let queries_hold = forall|i: int|
        0 <= i < co.lookups@.len() ==> query_holds(#[trigger] co.lookups@[i], rho, other);
    assert forall|rho2: spec_fn(usize) -> int| #[trigger]
        laws::agree_below(rho, rho2, n) implies (laws::satisfiable(c3, n, rho2, other)
        <==> queries_hold) by {
        queries_are_independent(co.lookups@, n, n, rho, rho2, other);
    }
    let head = c1 + c2;
    lemma_joined(
        head,
        c3,
        n,
        n,
        rho,
        other,
        laws::satisfiable(head, n, rho, other),
        queries_hold,
    );
    lemma_all_weakened(head, n, m);
    lemma_all_appended(head, c3, m);

    relations_are_independent(relations, co.table_ids, n, m, rho, rho, other);
    let relations_hold = forall|i: int|
        0 <= i < relations.len() ==> cases_hold(
            (#[trigger] relations[i]).cases@,
            co.table_ids,
            rho,
            other,
        );
    assert forall|rho2: spec_fn(usize) -> int| #[trigger]
        laws::agree_below(rho, rho2, n) implies (laws::satisfiable(c4, m, rho2, other)
        <==> relations_hold) by {
        relations_are_independent(relations, co.table_ids, n, m, rho, rho2, other);
    }
    lemma_joined(
        head + c3,
        c4,
        n,
        m,
        rho,
        other,
        laws::satisfiable(head + c3, n, rho, other),
        relations_hold,
    );
    lemma_all_weakened(head + c3, m, end);
    lemma_all_appended(head + c3, c4, end);

    let body = head + c3 + c4;
    lemma_bits(co.boolean_vars@, n, rho, other);
    lemma_joined_plain(body, c5, n, end, rho, other);
    lemma_ranges(co.range_check_expressions@, n, rho, other);
    lemma_joined_plain(body + c5, c6, n, end, rho, other);
    if let Some(cs) = state {
        lemma_state(cs, n, rho, other);
    }
    lemma_joined_plain(body + c5 + c6, c7, n, end, rho, other);
    assert(translate::circuit_constraints(co, state) == c1 + c2 + c3 + c4 + c5 + c6 + c7);
}

/// The constraints of a specialized module hold exactly where those of the module hold with the
/// bound variables fixed.
pub proof fn specialized_modules_fix_the_bound_variables(
    cs: Seq<PicusConstraint>,
    env: Seq<(usize, u64)>,
    rho: spec_fn(usize) -> int,
    other: spec_fn(usize) -> int,
)
    ensures
        laws::all_hold(ir::subst_constraints(cs, env), rho, other) <==> laws::all_hold(
            cs,
            ir::overridden(rho, env),
            ir::overridden(other, env),
        ),
{
    let fixed = ir::subst_constraints(cs, env);
    let (r, o) = (ir::overridden(rho, env), ir::overridden(other, env));
    assert forall|i: int| 0 <= i < cs.len() implies fixed[i].holds(rho, other) == (
    #[trigger] cs[i]).holds(r, o) by {
        laws::specialized_constraints_fix_the_bound_variables(cs[i], env, rho, other);
    }
    if laws::all_hold(fixed, rho, other) {
        assert forall|i: int| 0 <= i < cs.len() implies (#[trigger] cs[i]).holds(r, o) by {
            assert(fixed[i].holds(rho, other));
        }
    }
    if laws::all_hold(cs, r, o) {
        assert forall|i: int| 0 <= i < fixed.len() implies (#[trigger] fixed[i]).holds(
            rho,
            other,
        ) by {
            assert(cs[i].holds(r, o));
        }
    }
}

} // verus!
