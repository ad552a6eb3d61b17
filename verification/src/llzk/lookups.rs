//! Lookup tables as constraints of a constrain function.
//!
//! Tables whose rows have an arithmetic description keep it; the others are summarized by the
//! ranges of their columns.
use vstd::prelude::*;

use crate::circuit::DisjunctiveLookup;
use crate::circuit::DisjunctiveLookupCase;
use crate::circuit::LookupInput;
use crate::circuit::LookupQuery;
use crate::circuit::LookupQueryTableType;
use crate::circuit::Num;
use crate::circuit::TableIds;
use crate::circuit::TableType;
use crate::circuit::ROM_SECOND_WORD_BITS;
use crate::llzk::builder;
use crate::llzk::builder::LlzkError;
use crate::llzk::builder::OpsBuilder;
use crate::llzk::builder::Value;
use crate::llzk::constraints;
use crate::llzk::constraints::Readings;
use crate::llzk::constraints::Scope;
use crate::llzk::ir;
use crate::llzk::ir::Effect;
use crate::llzk::ir::FeltBinary;
use crate::llzk::ir::FeltUnary;
use crate::llzk::ir::Sym;
use crate::llzk::ir::ValueType;
use crate::llzk::vars::StructVars;

verus! {

/// `2^ROM_SECOND_WORD_BITS`: the number of address high limbs that lie in the ROM.
pub const ROM_BOUND: u64 = 0x40;

/// The sum of two field terms.
pub open spec fn plus(a: Sym, b: Sym) -> Sym {
    ir::felt2(FeltBinary::Add, a, b)
}

/// The product of two field terms.
pub open spec fn times(a: Sym, b: Sym) -> Sym {
    ir::felt2(FeltBinary::Mul, a, b)
}

/// `1 - a`
pub open spec fn one_minus(a: Sym) -> Sym {
    ir::felt2(FeltBinary::Sub, ir::felt(1), a)
}

/// A conditional equality of field terms.
pub open spec fn equal(cond: Option<Sym>, a: Sym, b: Sym) -> Effect {
    builder::conditional_eq(cond, ValueType::Felt, a, b)
}

/// The value that effect `k` introduces.
pub open spec fn fresh(k: nat) -> Sym {
    Sym::Result(k, 0)
}

/// `JumpCleanupOffset`: `a = cleaned + 2 * bit_1 + bit_0` with `cleaned = 4 * k`.
pub open spec fn jump_cleanup_effects(
    cond: Option<Sym>,
    a: Sym,
    bit_1: Sym,
    cleaned: Sym,
    n: nat,
) -> Seq<Effect> {
    let bit_0 = fresh(n);
    let k = fresh(n + 1);
    seq![
        Effect::Nondet(ValueType::Felt),
        Effect::Nondet(ValueType::Felt),
        builder::conditional_range(cond, a, 16),
        builder::conditional_range(cond, cleaned, 16),
        builder::conditional_boolean(cond, bit_0),
        builder::conditional_boolean(cond, bit_1),
        builder::conditional_range(cond, k, 14),
        equal(cond, a, plus(cleaned, plus(times(ir::felt(2), bit_1), bit_0))),
        equal(cond, cleaned, times(ir::felt(4), k)),
    ]
}

/// `sign1 + sign2 - 2 * sign1 * sign2`
pub open spec fn signs_differ(sign1: Sym, sign2: Sym) -> Sym {
    plus(
        plus(sign1, sign2),
        ir::felt1(FeltUnary::Neg, times(times(ir::felt(2), sign1), sign2)),
    )
}

/// The signed comparison: the first sign where the signs differ, the unsigned one elsewhere.
pub open spec fn signed_less(uf: Sym, sign1: Sym, sign2: Sym) -> Sym {
    let differ = signs_differ(sign1, sign2);
    plus(times(sign1, differ), times(uf, one_minus(differ)))
}

/// The condition that a one-hot `funct3` code selects.
pub open spec fn selected_condition(hot: Seq<Sym>, eq: Sym, signed_lt: Sym, unsigned_lt: Sym) -> Sym {
    plus(
        plus(
            plus(
                plus(
                    plus(
                        plus(
                            plus(times(hot[0], eq), times(hot[1], one_minus(eq))),
                            times(hot[2], signed_lt),
                        ),
                        times(hot[3], unsigned_lt),
                    ),
                    times(hot[4], signed_lt),
                ),
                times(hot[5], one_minus(signed_lt)),
            ),
            times(hot[6], unsigned_lt),
        ),
        times(hot[7], one_minus(unsigned_lt)),
    )
}

/// The first part of `ConditionalJmpBranchSlt`: the packed comparison bits.
pub open spec fn comparison_effects(
    cond: Option<Sym>,
    a: Sym,
    funct3: Sym,
    flag: Sym,
    n: nat,
) -> Seq<Effect> {
    let uf = fresh(n);
    let out_is_zero = fresh(n + 1);
    let sign1 = fresh(n + 2);
    let sign2 = fresh(n + 3);
    seq![
        Effect::Nondet(ValueType::Felt),
        Effect::Nondet(ValueType::Felt),
        Effect::Nondet(ValueType::Felt),
        Effect::Nondet(ValueType::Felt),
        builder::conditional_range(cond, a, 4),
        builder::conditional_range(cond, funct3, 3),
        builder::conditional_boolean(cond, uf),
        builder::conditional_boolean(cond, out_is_zero),
        builder::conditional_boolean(cond, sign1),
        builder::conditional_boolean(cond, sign2),
        builder::conditional_boolean(cond, flag),
        equal(
            cond,
            a,
            plus(
                plus(plus(uf, times(ir::felt(2), out_is_zero)), times(ir::felt(4), sign1)),
                times(ir::felt(8), sign2),
            ),
        ),
    ]
}

/// `ConditionalJmpBranchSlt`: the packed comparison bits, the one-hot form of `funct3` and the
/// flag that it selects. The one-hot bits are constrained whether or not the condition holds.
pub open spec fn conditional_jmp_effects(
    cond: Option<Sym>,
    a: Sym,
    funct3: Sym,
    flag: Sym,
    n: nat,
) -> Seq<Effect> {
    let hot = builder::one_hot_terms(n + 12, 8);
    let uf = fresh(n);
    comparison_effects(cond, a, funct3, flag, n) + builder::one_hot_effects(n + 12, 8) + seq![
        equal(cond, funct3, builder::one_hot_reconstruction(hot)),
        equal(
            cond,
            flag,
            selected_condition(hot, fresh(n + 1), signed_less(uf, fresh(n + 2), fresh(n + 3)), uf),
        ),
    ]
}

/// `RomAddressSpaceSeparator`: `high = chunk + ROM_BOUND * q` with `q = is_ram * (1 + q_tail)`.
pub open spec fn rom_separator_effects(
    cond: Option<Sym>,
    high: Sym,
    is_ram: Sym,
    chunk: Sym,
    n: nat,
) -> Seq<Effect> {
    let q_tail = fresh(n);
    let q = fresh(n + 1);
    let tail_width = (16 - ROM_SECOND_WORD_BITS) as usize;
    seq![
        Effect::Nondet(ValueType::Felt),
        Effect::Nondet(ValueType::Felt),
        builder::conditional_range(cond, high, 16),
        builder::conditional_boolean(cond, is_ram),
        builder::conditional_range(cond, chunk, ROM_SECOND_WORD_BITS),
        builder::conditional_range(cond, q_tail, tail_width),
        builder::conditional_range(cond, q_tail, tail_width),
        equal(cond, high, plus(chunk, times(ir::felt(ROM_BOUND), q))),
        equal(cond, q, times(is_ram, plus(ir::felt(1), q_tail))),
    ]
}

/// A table that is summarized by the widths of its columns.
pub open spec fn range_effects(
    cond: Option<Sym>,
    columns: (Sym, Sym, Sym),
    widths: (usize, usize, usize),
) -> Seq<Effect> {
    seq![
        builder::conditional_range(cond, columns.0, widths.0),
        builder::conditional_range(cond, columns.1, widths.1),
        builder::conditional_range(cond, columns.2, widths.2),
    ]
}

/// The column widths of a summarized table.
pub open spec fn column_widths(table: TableType) -> (usize, usize, usize) {
    match table {
        TableType::MemoryGetOffsetAndMaskWithTrap => (21, 4, 8),
        TableType::AlignedRomRead => ((16 + ROM_SECOND_WORD_BITS - 2) as usize, 16, 16),
        _ => (21, 16, 16),
    }
}

/// The effects that describe one row of a table.
pub open spec fn table_effects(
    table: TableType,
    cond: Option<Sym>,
    columns: (Sym, Sym, Sym),
    n: nat,
) -> Seq<Effect> {
    match table {
        TableType::ConditionalJmpBranchSlt => conditional_jmp_effects(
            cond,
            columns.0,
            columns.1,
            columns.2,
            n,
        ),
        TableType::JumpCleanupOffset => jump_cleanup_effects(
            cond,
            columns.0,
            columns.1,
            columns.2,
            n,
        ),
        TableType::RomAddressSpaceSeparator => rom_separator_effects(
            cond,
            columns.0,
            columns.1,
            columns.2,
            n,
        ),
        _ => range_effects(cond, columns, column_widths(table)),
    }
}

/// A column times an optional row multiplier.
pub open spec fn scaled(multiplier: Option<Sym>, column: Sym) -> Sym {
    match multiplier {
        Some(c) => times(c, column),
        None => column,
    }
}

/// The columns of a row and the effects of reading them.
pub struct RowReading {
    pub columns: (Sym, Sym, Sym),
    pub effects: Seq<Effect>,
}

/// Reading the columns of a row in order.
pub open spec fn row_reading(
    sc: Scope,
    row: Seq<LookupInput>,
    multiplier: Option<Sym>,
    k: nat,
) -> Result<RowReading, LlzkError> {
    match constraints::input(sc, row[0], k) {
        Err(e) => Err(e),
        Ok(a) => match constraints::input(sc, row[1], k + a.effects.len()) {
            Err(e) => Err(e),
            Ok(b) => match constraints::input(
                sc,
                row[2],
                k + a.effects.len() + b.effects.len(),
            ) {
                Err(e) => Err(e),
                Ok(c) => Ok(
                    (RowReading {
                        columns: (
                            scaled(multiplier, a.sym),
                            scaled(multiplier, b.sym),
                            scaled(multiplier, c.sym),
                        ),
                        effects: a.effects + b.effects + c.effects,
                    }),
                ),
            },
        },
    }
}

/// The effects of a lookup: its row is read, then described.
pub open spec fn lookup(
    sc: Scope,
    row: Seq<LookupInput>,
    table: TableType,
    multiplier: Option<Sym>,
    cond: Option<Sym>,
    k: nat,
) -> Result<Seq<Effect>, LlzkError> {
    match row_reading(sc, row, multiplier, k) {
        Err(e) => Err(e),
        Ok(r) => Ok(r.effects + table_effects(table, cond, r.columns, k + r.effects.len())),
    }
}

/// Whether zeroing a row of the table keeps it a row.
pub open spec fn zero_row_safe(table: TableType) -> bool {
    table is MemoryLoadHalfwordOrByte || table is MemStoreClearOriginalRamValueLimb
}

/// The activation flags of a disjunctive lookup.
pub open spec fn flags(sc: Scope, cases: Seq<DisjunctiveLookupCase>, k: nat) -> Result<
    Readings,
    LlzkError,
>
    decreases cases.len(),
{
    if cases.len() == 0 {
        Ok((Readings { syms: Seq::empty(), effects: Seq::empty() }))
    } else {
        match flags(sc, cases.drop_last(), k) {
            Err(e) => Err(e),
            Ok(head) => match constraints::boolean(
                sc,
                cases.last().flag,
                k + head.effects.len(),
            ) {
                Err(e) => Err(e),
                Ok(f) => Ok(
                    (Readings {
                        syms: head.syms.push(f.sym),
                        effects: head.effects + f.effects,
                    }),
                ),
            },
        }
    }
}

/// A boolean constraint for each term.
pub open spec fn boolean_effects(syms: Seq<Sym>) -> Seq<Effect> {
    syms.map_values(
        |s: Sym| Effect::ConstrainEq(builder::boolean_product(s), ir::felt(0)),
    )
}

/// The table of a case.
pub open spec fn case_table(case: DisjunctiveLookupCase, ids: TableIds) -> TableType {
    ids.table_of(case.table->Constant_0.reduced() as u32)
}

/// Whether the case names a table that can be lowered.
pub open spec fn case_supported(case: DisjunctiveLookupCase, ids: TableIds) -> bool {
    case.table is Constant && !(case_table(case, ids) is Other)
}

/// The effects of one case: its flag multiplies the row where that is safe, and guards the
/// constraints elsewhere.
pub open spec fn case_effects(
    sc: Scope,
    ids: TableIds,
    case: DisjunctiveLookupCase,
    k: nat,
) -> Result<Seq<Effect>, LlzkError> {
    match constraints::boolean(sc, case.flag, k) {
        Err(e) => Err(e),
        Ok(f) => {
            let table = case_table(case, ids);
            let rest = if zero_row_safe(table) {
                lookup(sc, case.row@, table, Some(f.sym), None, k + f.effects.len())
            } else {
                lookup(sc, case.row@, table, None, Some(f.sym), k + f.effects.len())
            };
            match rest {
                Err(e) => Err(e),
                Ok(es) => Ok(f.effects + es),
            }
        },
    }
}

/// The effects of several cases in order.
pub open spec fn cases_effects(
    sc: Scope,
    ids: TableIds,
    cases: Seq<DisjunctiveLookupCase>,
    k: nat,
) -> Result<Seq<Effect>, LlzkError>
    decreases cases.len(),
{
    if cases.len() == 0 {
        Ok(Seq::empty())
    } else {
        match cases_effects(sc, ids, cases.drop_last(), k) {
            Err(e) => Err(e),
            Ok(head) => match case_effects(sc, ids, cases.last(), k + head.len()) {
                Err(e) => Err(e),
                Ok(es) => Ok(head + es),
            },
        }
    }
}

/// The effects of a disjunctive lookup: its flags are boolean and at most one is set, and every
/// case holds where its flag is set.
pub open spec fn disjunctive_effects(
    sc: Scope,
    ids: TableIds,
    cases: Seq<DisjunctiveLookupCase>,
    k: nat,
) -> Result<Seq<Effect>, LlzkError> {
    match flags(sc, cases, k) {
        Err(e) => Err(e),
        Ok(r) => if r.syms.len() == 0 {
            Err(LlzkError::EmptyFold)
        } else {
            let before = r.effects + boolean_effects(r.syms).push(
                Effect::ConstrainEq(
                    builder::boolean_product(builder::fold(FeltBinary::Add, r.syms)),
                    ir::felt(0),
                ),
            );
            match cases_effects(sc, ids, cases, k + before.len()) {
                Err(e) => Err(e),
                Ok(es) => Ok(before + es),
            }
        },
    }
}

fn apply_row_multiplier(builder: &mut OpsBuilder, row_multiplier: Option<Value>, val: Value) -> (r:
    Value)
    requires
        old(builder).has_opt(row_multiplier),
        old(builder).has(val),
        val.ty == ValueType::Felt,
    ensures
        final(builder).purely_continues(*old(builder)),
        final(builder).has(r),
        r.ty == ValueType::Felt,
        r.sym@ == scaled(builder::opt_sym(row_multiplier), val.sym@),
{
    match row_multiplier {
        Some(coeff) => builder.append_felt_binary(FeltBinary::Mul, coeff, val),
        None => val,
    }
}

/// Reads the columns of a row.
fn emit_row(
    builder: &mut OpsBuilder,
    vars: &StructVars,
    row: &[LookupInput; 3],
    row_multiplier: Option<Value>,
) -> (r: Result<(Value, Value, Value), LlzkError>)
    requires
        constraints::well_typed(constraints::scope_of(*vars, *old(builder))),
        old(builder).has_opt(row_multiplier),
    ensures
        final(builder).continues(*old(builder)),
        match (
            r,
            row_reading(
                constraints::scope_of(*vars, *old(builder)),
                row@,
                builder::opt_sym(row_multiplier),
                old(builder).effects().len(),
            ),
        ) {
            (Ok((a, b, c)), Ok(e)) => {
                &&& final(builder).has(a)
                &&& final(builder).has(b)
                &&& final(builder).has(c)
                &&& a.ty == ValueType::Felt
                &&& b.ty == ValueType::Felt
                &&& c.ty == ValueType::Felt
                &&& (a.sym@, b.sym@, c.sym@) == e.columns
                &&& final(builder).effects() == old(builder).effects() + e.effects
            },
            (Err(x), Err(e)) => x == e,
            _ => false,
        },
{
    let ghost start = builder.effects();
    let a = row[0].emit_constrain(builder, vars)?;
    let a = apply_row_multiplier(builder, row_multiplier, a);
    let b = row[1].emit_constrain(builder, vars)?;
    let b = apply_row_multiplier(builder, row_multiplier, b);
    let c = row[2].emit_constrain(builder, vars)?;
    let c = apply_row_multiplier(builder, row_multiplier, c);
    assert(builder.effects() =~= start + row_reading(
        constraints::scope_of(*vars, *old(builder)),
        row@,
        builder::opt_sym(row_multiplier),
        start.len(),
    )->Ok_0.effects);
    Ok((a, b, c))
}

fn append_one_minus(builder: &mut OpsBuilder, v: Value) -> (r: Value)
    requires
        old(builder).has(v),
    ensures
        final(builder).purely_continues(*old(builder)),
        final(builder).has(r),
        r.ty == ValueType::Felt,
        r.sym@ == one_minus(v.sym@),
{
    let one = builder.get_felt_constant_from_start(1);
    builder.append_felt_binary(FeltBinary::Sub, one, v)
}

/// Whether three columns are field values of a body.
spec fn has_columns(builder: OpsBuilder, a: Value, b: Value, c: Value) -> bool {
    &&& builder.has(a)
    &&& builder.has(b)
    &&& builder.has(c)
    &&& a.ty == ValueType::Felt
    &&& b.ty == ValueType::Felt
    &&& c.ty == ValueType::Felt
}

/// Whether a condition is a field value of a body.
spec fn has_condition(builder: OpsBuilder, conditional: Option<Value>) -> bool {
    &&& builder.has_opt(conditional)
    &&& conditional matches Some(c) ==> c.ty == ValueType::Felt
}

fn add_jump_cleanup_lookup_constraints(
    builder: &mut OpsBuilder,
    a: Value,
    bit_1: Value,
    cleaned: Value,
    conditional: Option<Value>,
)
    requires
        has_columns(*old(builder), a, bit_1, cleaned),
        has_condition(*old(builder), conditional),
    ensures
        final(builder).continues(*old(builder)),
        final(builder).effects() == old(builder).effects() + jump_cleanup_effects(
            builder::opt_sym(conditional),
            a.sym@,
            bit_1.sym@,
            cleaned.sym@,
            old(builder).effects().len(),
        ),
{
    let ghost start = builder.effects();
    let bit_0 = builder.new_nondet_felt();
    let k = builder.new_nondet_felt();

    builder.append_conditional_range_constraint(conditional, a, 16);
    builder.append_conditional_range_constraint(conditional, cleaned, 16);
    builder.append_conditional_boolean_constraint(conditional, bit_0);
    builder.append_conditional_boolean_constraint(conditional, bit_1);
    builder.append_conditional_range_constraint(conditional, k, 14);

    let two = builder.get_felt_constant_from_start(2);
    let bit_1_mul = builder.append_felt_binary(FeltBinary::Mul, two, bit_1);
    let twit = builder.append_felt_binary(FeltBinary::Add, bit_1_mul, bit_0);
    let a_computed = builder.append_felt_binary(FeltBinary::Add, cleaned, twit);
    builder.append_conditional_felt_eq(conditional, a, a_computed);

    let four = builder.get_felt_constant_from_start(4);
    let aligned = builder.append_felt_binary(FeltBinary::Mul, four, k);
    builder.append_conditional_felt_eq(conditional, cleaned, aligned);
    assert(builder.effects() =~= start + jump_cleanup_effects(
        builder::opt_sym(conditional),
        a.sym@,
        bit_1.sym@,
        cleaned.sym@,
        start.len(),
    ));
}

fn append_signed_less(builder: &mut OpsBuilder, uf: Value, sign1: Value, sign2: Value) -> (r: Value)
    requires
        has_columns(*old(builder), uf, sign1, sign2),
    ensures
        final(builder).purely_continues(*old(builder)),
        final(builder).has(r),
        r.ty == ValueType::Felt,
        r.sym@ == signed_less(uf.sym@, sign1.sym@, sign2.sym@),
{
    let two = builder.get_felt_constant_from_start(2);
    let twice = builder.append_felt_binary(FeltBinary::Mul, two, sign1);
    let both = builder.append_felt_binary(FeltBinary::Mul, twice, sign2);
    let minus_both = builder.append_felt_unary(FeltUnary::Neg, both);
    let signs = builder.append_felt_binary(FeltBinary::Add, sign1, sign2);
    let signs_different = builder.append_felt_binary(FeltBinary::Add, signs, minus_both);
    let by_sign = builder.append_felt_binary(FeltBinary::Mul, sign1, signs_different);
    let same = append_one_minus(builder, signs_different);
    let by_value = builder.append_felt_binary(FeltBinary::Mul, uf, same);
    builder.append_felt_binary(FeltBinary::Add, by_sign, by_value)
}

fn append_selected_condition(
    builder: &mut OpsBuilder,
    hot: &Vec<Value>,
    eq: Value,
    signed_lt: Value,
    unsigned_lt: Value,
) -> (r: Value)
    requires
        old(builder).has_all(hot@),
        hot@.len() == 8,
        has_columns(*old(builder), eq, signed_lt, unsigned_lt),
    ensures
        final(builder).purely_continues(*old(builder)),
        final(builder).has(r),
        r.ty == ValueType::Felt,
        r.sym@ == selected_condition(
            builder::syms(hot@),
            eq.sym@,
            signed_lt.sym@,
            unsigned_lt.sym@,
        ),
{
    assert(builder.has(hot@[0]) && builder.has(hot@[1]) && builder.has(hot@[2]) && builder.has(
        hot@[3],
    ) && builder.has(hot@[4]) && builder.has(hot@[5]) && builder.has(hot@[6]) && builder.has(
        hot@[7],
    ));
    let t0 = builder.append_felt_binary(FeltBinary::Mul, hot[0], eq);
    let not_eq = append_one_minus(builder, eq);
    let t1 = builder.append_felt_binary(FeltBinary::Mul, hot[1], not_eq);
    let t2 = builder.append_felt_binary(FeltBinary::Mul, hot[2], signed_lt);
    let t3 = builder.append_felt_binary(FeltBinary::Mul, hot[3], unsigned_lt);
    let t4 = builder.append_felt_binary(FeltBinary::Mul, hot[4], signed_lt);
    let signed_ge = append_one_minus(builder, signed_lt);
    let t5 = builder.append_felt_binary(FeltBinary::Mul, hot[5], signed_ge);
    let t6 = builder.append_felt_binary(FeltBinary::Mul, hot[6], unsigned_lt);
    let unsigned_ge = append_one_minus(builder, unsigned_lt);
    let t7 = builder.append_felt_binary(FeltBinary::Mul, hot[7], unsigned_ge);
    let s = builder.append_felt_binary(FeltBinary::Add, t0, t1);
    let s = builder.append_felt_binary(FeltBinary::Add, s, t2);
    let s = builder.append_felt_binary(FeltBinary::Add, s, t3);
    let s = builder.append_felt_binary(FeltBinary::Add, s, t4);
    let s = builder.append_felt_binary(FeltBinary::Add, s, t5);
    let s = builder.append_felt_binary(FeltBinary::Add, s, t6);
    builder.append_felt_binary(FeltBinary::Add, s, t7)
}

fn add_conditional_jmp_branch_slt_lookup_constraints(
    builder: &mut OpsBuilder,
    a: Value,
    f3: Value,
    flag: Value,
    conditional: Option<Value>,
) -> (r: Result<(), LlzkError>)
    requires
        has_columns(*old(builder), a, f3, flag),
        has_condition(*old(builder), conditional),
    ensures
        r is Ok,
        final(builder).continues(*old(builder)),
        final(builder).effects() == old(builder).effects() + conditional_jmp_effects(
            builder::opt_sym(conditional),
            a.sym@,
            f3.sym@,
            flag.sym@,
            old(builder).effects().len(),
        ),
{
    let ghost start = builder.effects();
    let ghost n = start.len();
    let ghost cond = builder::opt_sym(conditional);
    let uf = builder.new_nondet_felt();
    let out_is_zero = builder.new_nondet_felt();
    let sign1 = builder.new_nondet_felt();
    let sign2 = builder.new_nondet_felt();

    builder.append_conditional_range_constraint(conditional, a, 4);
    builder.append_conditional_range_constraint(conditional, f3, 3);
    builder.append_conditional_boolean_constraint(conditional, uf);
    builder.append_conditional_boolean_constraint(conditional, out_is_zero);
    builder.append_conditional_boolean_constraint(conditional, sign1);
    builder.append_conditional_boolean_constraint(conditional, sign2);
    builder.append_conditional_boolean_constraint(conditional, flag);

    let zero_bit = builder.append_const_scaling(2, out_is_zero);
    let sign1_bit = builder.append_const_scaling(4, sign1);
    let sign2_bit = builder.append_const_scaling(8, sign2);
    let packed = builder.append_felt_binary(FeltBinary::Add, uf, zero_bit);
    let packed = builder.append_felt_binary(FeltBinary::Add, packed, sign1_bit);
    let packed = builder.append_felt_binary(FeltBinary::Add, packed, sign2_bit);
    builder.append_conditional_felt_eq(conditional, a, packed);
    assert(builder.effects() =~= start + comparison_effects(
        cond,
        a.sym@,
        f3.sym@,
        flag.sym@,
        n,
    ));

    let signed_lt = append_signed_less(builder, uf, sign1, sign2);
    let f3_one_hot = builder.append_one_hot(8)?;
    let f3_reconstructed = builder.append_one_hot_reconstruction(&f3_one_hot)?;
    builder.append_conditional_felt_eq(conditional, f3, f3_reconstructed);
    let ghost before = *builder;
    let expected_flag = append_selected_condition(
        builder,
        &f3_one_hot,
        out_is_zero,
        signed_lt,
        uf,
    );
    builder.append_conditional_felt_eq(conditional, flag, expected_flag);
    assert(builder.effects() =~= start + conditional_jmp_effects(
        cond,
        a.sym@,
        f3.sym@,
        flag.sym@,
        n,
    ));
    Ok(())
}

fn add_rom_address_space_separator_lookup_constraints(
    builder: &mut OpsBuilder,
    address_high: Value,
    is_ram_range: Value,
    rom_chunk: Value,
    conditional: Option<Value>,
)
    requires
        has_columns(*old(builder), address_high, is_ram_range, rom_chunk),
        has_condition(*old(builder), conditional),
    ensures
        final(builder).continues(*old(builder)),
        final(builder).effects() == old(builder).effects() + rom_separator_effects(
            builder::opt_sym(conditional),
            address_high.sym@,
            is_ram_range.sym@,
            rom_chunk.sym@,
            old(builder).effects().len(),
        ),
{
    let ghost start = builder.effects();
    let q_tail = builder.new_nondet_felt();
    let q = builder.new_nondet_felt();

    builder.append_conditional_range_constraint(conditional, address_high, 16);
    builder.append_conditional_boolean_constraint(conditional, is_ram_range);
    builder.append_conditional_range_constraint(conditional, rom_chunk, ROM_SECOND_WORD_BITS);
    builder.append_conditional_range_constraint(conditional, q_tail, 16 - ROM_SECOND_WORD_BITS);
    builder.append_conditional_range_constraint(conditional, q_tail, 16 - ROM_SECOND_WORD_BITS);

    let rom_bound = builder.get_felt_constant_from_start(ROM_BOUND);
    let scaled_q = builder.append_felt_binary(FeltBinary::Mul, rom_bound, q);
    let address = builder.append_felt_binary(FeltBinary::Add, rom_chunk, scaled_q);
    builder.append_conditional_felt_eq(conditional, address_high, address);

    let one = builder.get_felt_constant_from_start(1);
    let next = builder.append_felt_binary(FeltBinary::Add, one, q_tail);
    let product = builder.append_felt_binary(FeltBinary::Mul, is_ram_range, next);
    builder.append_conditional_felt_eq(conditional, q, product);
    assert(builder.effects() =~= start + rom_separator_effects(
        builder::opt_sym(conditional),
        address_high.sym@,
        is_ram_range.sym@,
        rom_chunk.sym@,
        start.len(),
    ));
}

fn add_range_lookup_constraints(
    builder: &mut OpsBuilder,
    columns: (Value, Value, Value),
    widths: (usize, usize, usize),
    conditional: Option<Value>,
)
    requires
        has_columns(*old(builder), columns.0, columns.1, columns.2),
        has_condition(*old(builder), conditional),
        widths.0 < 64,
        widths.1 < 64,
        widths.2 < 64,
    ensures
        final(builder).continues(*old(builder)),
        final(builder).effects() == old(builder).effects() + range_effects(
            builder::opt_sym(conditional),
            (columns.0.sym@, columns.1.sym@, columns.2.sym@),
            widths,
        ),
{
    let ghost start = builder.effects();
    builder.append_conditional_range_constraint(conditional, columns.0, widths.0);
    builder.append_conditional_range_constraint(conditional, columns.1, widths.1);
    builder.append_conditional_range_constraint(conditional, columns.2, widths.2);
    assert(builder.effects() =~= start + range_effects(
        builder::opt_sym(conditional),
        (columns.0.sym@, columns.1.sym@, columns.2.sym@),
        widths,
    ));
}

/// Adds the constraints that a row is in a table.
fn add_lookup_constraints_for_row(
    builder: &mut OpsBuilder,
    vars: &StructVars,
    row: &[LookupInput; 3],
    table: TableType,
    row_multiplier: Option<Value>,
    conditional: Option<Value>,
) -> (r: Result<(), LlzkError>)
    requires
        constraints::well_typed(constraints::scope_of(*vars, *old(builder))),
        old(builder).has_opt(row_multiplier),
        old(builder).has_opt(conditional),
        conditional matches Some(c) ==> c.ty == ValueType::Felt,
        !(table is Other),
    ensures
        constraints::has_effects(
            *old(builder),
            *final(builder),
            r,
            lookup(
                constraints::scope_of(*vars, *old(builder)),
                row@,
                table,
                builder::opt_sym(row_multiplier),
                builder::opt_sym(conditional),
                old(builder).effects().len(),
            ),
        ),
{
    let ghost start = builder.effects();
    let (a, b, c) = emit_row(builder, vars, row, row_multiplier)?;
    match table {
        TableType::ConditionalJmpBranchSlt => {
            add_conditional_jmp_branch_slt_lookup_constraints(builder, a, b, c, conditional)?;
        },
        TableType::JumpCleanupOffset => {
            add_jump_cleanup_lookup_constraints(builder, a, b, c, conditional);
        },
        TableType::RomAddressSpaceSeparator => {
            add_rom_address_space_separator_lookup_constraints(builder, a, b, c, conditional);
        },
        TableType::MemoryGetOffsetAndMaskWithTrap => {
            add_range_lookup_constraints(builder, (a, b, c), (21, 4, 8), conditional);
        },
        TableType::AlignedRomRead => {
            add_range_lookup_constraints(
                builder,
                (a, b, c),
                (16 + ROM_SECOND_WORD_BITS - 2, 16, 16),
                conditional,
            );
        },
        TableType::MemoryLoadHalfwordOrByte
        | TableType::MemStoreClearOriginalRamValueLimb
        | TableType::MemStoreClearWrittenValueLimb
        | TableType::Other(_) => {
            add_range_lookup_constraints(builder, (a, b, c), (21, 16, 16), conditional);
        },
    }
    assert(builder.effects() =~= start + lookup(
        constraints::scope_of(*vars, *old(builder)),
        row@,
        table,
        builder::opt_sym(row_multiplier),
        builder::opt_sym(conditional),
        start.len(),
    )->Ok_0);
    Ok(())
}

/// Adds the constraints of a lookup query into a table. With a row multiplier every column is
/// multiplied by it first; with a condition the constraints hold where it is nonzero.
pub fn add_lookup_constraints_for_table(
    builder: &mut OpsBuilder,
    vars: &StructVars,
    query: &LookupQuery,
    table: TableType,
    row_multiplier: Option<Value>,
    conditional: Option<Value>,
) -> (r: Result<(), LlzkError>)
    requires
        constraints::well_typed(constraints::scope_of(*vars, *old(builder))),
        old(builder).has_opt(row_multiplier),
        old(builder).has_opt(conditional),
        conditional matches Some(c) ==> c.ty == ValueType::Felt,
        !(table is Other),
    ensures
        constraints::has_effects(
            *old(builder),
            *final(builder),
            r,
            lookup(
                constraints::scope_of(*vars, *old(builder)),
                query.row@,
                table,
                builder::opt_sym(row_multiplier),
                builder::opt_sym(conditional),
                old(builder).effects().len(),
            ),
        ),
{
    add_lookup_constraints_for_row(builder, vars, &query.row, table, row_multiplier, conditional)
}

impl LookupQuery {
    /// Lowers the query. A query whose table is a variable adds no constraint.
    pub fn emit_constrain(&self, builder: &mut OpsBuilder, vars: &StructVars) -> (r: Result<
        (),
        LlzkError,
    >)
        requires
            constraints::well_typed(constraints::scope_of(*vars, *old(builder))),
            self.table matches LookupQueryTableType::Constant(t) ==> !(t is Other),
        ensures
            constraints::has_effects(
                *old(builder),
                *final(builder),
                r,
                query_effects(
                    constraints::scope_of(*vars, *old(builder)),
                    *self,
                    old(builder).effects().len(),
                ),
            ),
    {
        match &self.table {
            LookupQueryTableType::Variable(_) => {
                assert(builder.effects() + Seq::<Effect>::empty() =~= builder.effects());
                Ok(())
            },
            LookupQueryTableType::Constant(table) => add_lookup_constraints_for_table(
                builder,
                vars,
                self,
                *table,
                None,
                None,
            ),
        }
    }
}

/// The effects of a lookup query.
pub open spec fn query_effects(sc: Scope, query: LookupQuery, k: nat) -> Result<
    Seq<Effect>,
    LlzkError,
> {
    match query.table {
        LookupQueryTableType::Variable(_) => Ok(Seq::empty()),
        LookupQueryTableType::Constant(table) => lookup(sc, query.row@, table, None, None, k),
    }
}

/// Whether multiplying a row by an inactive flag leaves a row of the table.
pub fn table_supports_zero_row_multiply_in(table: TableType) -> (r: bool)
    ensures
        r == zero_row_safe(table),
{
    matches!(
        table,
        TableType::MemoryLoadHalfwordOrByte | TableType::MemStoreClearOriginalRamValueLimb
    )
}

proof fn lemma_flags_error(sc: Scope, cases: Seq<DisjunctiveLookupCase>, i: int, k: nat)
    requires
        0 <= i <= cases.len(),
    ensures
        flags(sc, cases.take(i), k) matches Err(e) ==> flags(sc, cases, k) == Err::<
            Readings,
            LlzkError,
        >(e),
    decreases cases.len(),
{
    if i == cases.len() {
        assert(cases.take(i) =~= cases);
    } else {
        assert(cases.drop_last().take(i) =~= cases.take(i));
        lemma_flags_error(sc, cases.drop_last(), i, k);
    }
}

proof fn lemma_cases_error(
    sc: Scope,
    ids: TableIds,
    cases: Seq<DisjunctiveLookupCase>,
    i: int,
    k: nat,
)
    requires
        0 <= i <= cases.len(),
    ensures
        cases_effects(sc, ids, cases.take(i), k) matches Err(e) ==> cases_effects(sc, ids, cases, k)
            == Err::<Seq<Effect>, LlzkError>(e),
    decreases cases.len(),
{
    if i == cases.len() {
        assert(cases.take(i) =~= cases);
    } else {
        assert(cases.drop_last().take(i) =~= cases.take(i));
        lemma_cases_error(sc, ids, cases.drop_last(), i, k);
    }
}

/// Reads the activation flags.
fn emit_flags(builder: &mut OpsBuilder, vars: &StructVars, cases: &Vec<DisjunctiveLookupCase>) -> (r:
    Result<Vec<Value>, LlzkError>)
    requires
        constraints::well_typed(constraints::scope_of(*vars, *old(builder))),
    ensures
        final(builder).continues(*old(builder)),
        match (
            r,
            flags(
                constraints::scope_of(*vars, *old(builder)),
                cases@,
                old(builder).effects().len(),
            ),
        ) {
            (Ok(vs), Ok(e)) => {
                &&& final(builder).has_all(vs@)
                &&& forall|i: int| 0 <= i < vs@.len() ==> (#[trigger] vs@[i]).ty == ValueType::Felt
                &&& builder::syms(vs@) == e.syms
                &&& final(builder).effects() == old(builder).effects() + e.effects
            },
            (Err(x), Err(e)) => x == e,
            _ => false,
        },
{
    let ghost sc = constraints::scope_of(*vars, *builder);
    let ghost start = builder.effects();
    let ghost cs = cases@;
    let mut values: Vec<Value> = Vec::new();
    assert(cs.take(0) =~= Seq::empty());
    assert(start =~= start + Seq::<Effect>::empty());
    let mut i: usize = 0;
    while i < cases.len()
        invariant
            i <= cs.len(),
            cs == cases@,
            sc == constraints::scope_of(*vars, *old(builder)),
            start == old(builder).effects(),
            constraints::well_typed(sc),
            builder.continues(*old(builder)),
            builder.has_all(values@),
            values@.len() == i,
            forall|j: int| 0 <= j < i ==> (#[trigger] values@[j]).ty == ValueType::Felt,
            flags(sc, cs.take(i as int), start.len()) is Ok,
            builder::syms(values@) == flags(sc, cs.take(i as int), start.len())->Ok_0.syms,
            builder.effects() == start + flags(sc, cs.take(i as int), start.len())->Ok_0.effects,
        decreases cs.len() - i,
    {
        let ghost head = flags(sc, cs.take(i as int), start.len())->Ok_0;
        let ghost before = *builder;
        assert(cs.take(i + 1).drop_last() =~= cs.take(i as int));
        assert(cs.take(i + 1).last() == cs[i as int]);
        proof {
            lemma_flags_error(sc, cs, i + 1, start.len());
        }
        let value = cases[i].flag.emit_constrain(builder, vars)?;
        let ghost f = constraints::boolean(
            sc,
            cs[i as int].flag,
            start.len() + head.effects.len(),
        )->Ok_0;
        let ghost earlier = values@;
        values.push(value);
        assert(builder::syms(values@) =~= builder::syms(earlier).push(value.sym@));
        assert(builder.effects() =~= start + (head.effects + f.effects));
        assert forall|j: int| 0 <= j < values@.len() implies builder.has(#[trigger] values@[j]) by {
            if j < i {
                assert(before.has(earlier[j]));
            }
        }
        i = i + 1;
    }
    assert(cs.take(cs.len() as int) =~= cs);
    Ok(values)
}

/// Adds the constraints of one case.
fn add_case_constraints(
    builder: &mut OpsBuilder,
    vars: &StructVars,
    case: &DisjunctiveLookupCase,
    ids: &TableIds,
) -> (r: Result<(), LlzkError>)
    requires
        constraints::well_typed(constraints::scope_of(*vars, *old(builder))),
        case_supported(*case, *ids),
    ensures
        constraints::has_effects(
            *old(builder),
            *final(builder),
            r,
            case_effects(
                constraints::scope_of(*vars, *old(builder)),
                *ids,
                *case,
                old(builder).effects().len(),
            ),
        ),
{
    let ghost start = builder.effects();
    let table_id: u64 = match &case.table {
        Num::Var(_) => 0,
        Num::Constant(table_id) => table_id.as_u64_reduced(),
    };
    let table = ids.get_table_from_id(table_id as u32);
    let flag_expr = case.flag.emit_constrain(builder, vars)?;
    if table_supports_zero_row_multiply_in(table) {
        add_lookup_constraints_for_row(builder, vars, &case.row, table, Some(flag_expr), None)?;
    } else {
        add_lookup_constraints_for_row(builder, vars, &case.row, table, None, Some(flag_expr))?;
    }
    assert(builder.effects() =~= start + case_effects(
        constraints::scope_of(*vars, *old(builder)),
        *ids,
        *case,
        start.len(),
    )->Ok_0);
    Ok(())
}

/// Adds the constraints of a disjunctive lookup: the flags are boolean and at most one of them
/// is set, and each case either has its row multiplied by its flag or holds under it.
pub fn add_disjunctive_lookup_constraints(
    builder: &mut OpsBuilder,
    vars: &StructVars,
    relation: &DisjunctiveLookup,
    ids: &TableIds,
) -> (r: Result<(), LlzkError>)
    requires
        constraints::well_typed(constraints::scope_of(*vars, *old(builder))),
        forall|i: int|
            0 <= i < relation.cases@.len() ==> case_supported(#[trigger] relation.cases@[i], *ids),
    ensures
        constraints::has_effects(
            *old(builder),
            *final(builder),
            r,
            disjunctive_effects(
                constraints::scope_of(*vars, *old(builder)),
                *ids,
                relation.cases@,
                old(builder).effects().len(),
            ),
        ),
{
    let ghost sc = constraints::scope_of(*vars, *builder);
    let ghost start = builder.effects();
    let ghost cs = relation.cases@;
    let flag_values = emit_flags(builder, vars, &relation.cases)?;
    let ghost r = flags(sc, cs, start.len())->Ok_0;
    let ghost read = builder.effects();
    assert(boolean_effects(r.syms.take(0)) =~= Seq::empty());
    assert(read =~= read + boolean_effects(r.syms.take(0)));
    assert(builder::syms(flag_values@).len() == flag_values@.len());
    let mut i: usize = 0;
    while i < flag_values.len()
        invariant
            i <= flag_values@.len(),
            builder.continues(*old(builder)),
            sc == constraints::scope_of(*vars, *old(builder)),
            constraints::well_typed(sc),
            builder.has_all(flag_values@),
            forall|j: int|
                0 <= j < flag_values@.len() ==> (#[trigger] flag_values@[j]).ty == ValueType::Felt,
            r.syms == builder::syms(flag_values@),
            builder.effects() == read + boolean_effects(r.syms.take(i as int)),
        decreases flag_values@.len() - i,
    {
        let ghost before = *builder;
        assert(builder.has(flag_values@[i as int]));
        builder.append_boolean_constraint(flag_values[i]);
        assert(r.syms.take(i + 1) =~= r.syms.take(i as int).push(r.syms[i as int]));
        assert(builder.effects() =~= read + boolean_effects(r.syms.take(i + 1)));
        assert forall|j: int| 0 <= j < flag_values@.len() implies builder.has(
            #[trigger] flag_values@[j],
        ) by {
            assert(before.has(flag_values@[j]));
        }
        i = i + 1;
    }
    assert(r.syms.take(r.syms.len() as int) =~= r.syms);
    let flag_sum = builder.append_sum(&flag_values)?;
    builder.append_boolean_constraint(flag_sum);
    let ghost before_cases = r.effects + boolean_effects(r.syms).push(
        Effect::ConstrainEq(
            builder::boolean_product(builder::fold(FeltBinary::Add, r.syms)),
            ir::felt(0),
        ),
    );
    assert(builder.effects() =~= start + before_cases);
    let ghost k = start.len() + before_cases.len();
    assert(cs.take(0) =~= Seq::empty());
    assert(builder.effects() =~= start + before_cases + Seq::<Effect>::empty());
    let mut i: usize = 0;
    while i < relation.cases.len()
        invariant
            i <= cs.len(),
            cs == relation.cases@,
            forall|j: int| 0 <= j < cs.len() ==> case_supported(#[trigger] cs[j], *ids),
            sc == constraints::scope_of(*vars, *old(builder)),
            start == old(builder).effects(),
            constraints::well_typed(sc),
            builder.continues(*old(builder)),
            k == start.len() + before_cases.len(),
            disjunctive_effects(sc, *ids, cs, start.len()) == (match cases_effects(
                sc,
                *ids,
                cs,
                k,
            ) {
                Err(e) => Err::<Seq<Effect>, LlzkError>(e),
                Ok(es) => Ok(before_cases + es),
            }),
            cases_effects(sc, *ids, cs.take(i as int), k) is Ok,
            builder.effects() == start + before_cases + cases_effects(
                sc,
                *ids,
                cs.take(i as int),
                k,
            )->Ok_0,
        decreases cs.len() - i,
    {
        let ghost head = cases_effects(sc, *ids, cs.take(i as int), k)->Ok_0;
        assert(cs.take(i + 1).drop_last() =~= cs.take(i as int));
        assert(cs.take(i + 1).last() == cs[i as int]);
        proof {
            lemma_cases_error(sc, *ids, cs, i + 1, k);
        }
        add_case_constraints(builder, vars, &relation.cases[i], ids)?;
        let ghost es = case_effects(sc, *ids, cs[i as int], k + head.len())->Ok_0;
        assert(builder.effects() =~= start + before_cases + (head + es));
        i = i + 1;
    }
    assert(cs.take(cs.len() as int) =~= cs);
    assert(builder.effects() =~= start + disjunctive_effects(sc, *ids, cs, start.len())->Ok_0);
    Ok(())
}

} // verus!
