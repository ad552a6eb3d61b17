//! Lookup tables as constraints.
//!
//! Tables whose rows have an arithmetic description keep it; the others are summarized by the
//! ranges of their columns and by the determinism of their outputs.
use vstd::prelude::*;

use crate::circuit::Boolean;
use crate::circuit::DisjunctiveLookup;
use crate::circuit::DisjunctiveLookupCase;
use crate::circuit::LookupInput;
use crate::circuit::LookupQuery;
use crate::circuit::LookupQueryTableType;
use crate::circuit::Num;
use crate::circuit::TableIds;
use crate::circuit::TableType;
use crate::circuit::ROM_SECOND_WORD_BITS;
use crate::picus::ir;
use crate::picus::ir::PicusConstraint;
use crate::picus::ir::PicusExpr;
use crate::picus::ir::PicusModule;
use crate::picus::translate;
use crate::picus::translate::fresh_picus_var_expr;
use crate::picus::translate::lookup_input_to_picus_expr;
use crate::picus::translate::variable_to_picus_expr;

verus! {

pub const U16_BOUND: u64 = 0x1_0000;

pub const U14_BOUND: u64 = 0x4000;

pub const U8_BOUND: u64 = 0x100;

pub const U4_BOUND: u64 = 0x10;

/// Bound of a packed key: a limb, two offset bits and three mode bits.
pub const PACKED_KEY_BOUND: u64 = 0x20_0000;

/// Number of address high limbs that lie in the ROM.
pub const ROM_BOUND: u64 = 0x40;

/// Number of ROM-sized chunks in the range of a high limb.
pub const ROM_CHUNK_COUNT: u64 = 0x400;

/// Number of words in the ROM.
pub const ROM_WORD_COUNT: u64 = 0x10_0000;

/// The constants above follow the ROM size.
pub proof fn rom_bounds_follow_the_rom_size()
    ensures
        ROM_BOUND == 1u64 << ROM_SECOND_WORD_BITS,
        ROM_CHUNK_COUNT == 1u64 << ((16 - ROM_SECOND_WORD_BITS) as usize),
        ROM_WORD_COUNT == 1u64 << ((16 + ROM_SECOND_WORD_BITS - 2) as usize),
{
    assert(0x40u64 == 1u64 << 6usize) by (bit_vector);
    assert(0x400u64 == 1u64 << 10usize) by (bit_vector);
    assert(0x10_0000u64 == 1u64 << 20usize) by (bit_vector);
}

/// The `i`-th fresh variable after `n`.
pub open spec fn fresh(n: int, i: int) -> PicusExpr {
    PicusExpr::Var((n + i) as usize)
}

/// A number as an expression.
pub open spec fn lit(c: u64) -> PicusExpr {
    PicusExpr::Const(c)
}

/// `JumpCleanupOffset`: `a = cleaned + 2 * bit_1 + bit_0` with `cleaned = 4 * k`.
pub open spec fn jump_cleanup_constraints(
    a: PicusExpr,
    bit_1: PicusExpr,
    cleaned: PicusExpr,
    n: int,
) -> Seq<PicusConstraint> {
    let bit_0 = fresh(n, 0);
    let k = fresh(n, 1);
    seq![
        ir::below_const(a, U16_BOUND),
        ir::below_const(cleaned, U16_BOUND),
        ir::bit(bit_0),
        ir::bit(bit_1),
        ir::below_const(k, U14_BOUND),
        ir::equal(
            a,
            ir::sum(
                ir::sum(cleaned, ir::product(lit(2), bit_1)),
                bit_0,
            ),
        ),
        ir::equal(cleaned, ir::product(lit(4), k)),
    ]
}

/// The sum of the first `count` fresh variables after `n`, starting from zero.
pub open spec fn one_hot_sum(n: int, count: int) -> PicusExpr
    decreases count,
{
    if count <= 0 {
        lit(0)
    } else {
        ir::sum(one_hot_sum(n, count - 1), fresh(n, count - 1))
    }
}

/// The sum of the first `count` fresh variables after `n`, each times its position.
pub open spec fn one_hot_index(n: int, count: int) -> PicusExpr
    decreases count,
{
    if count <= 0 {
        lit(0)
    } else {
        ir::sum(
            one_hot_index(n, count - 1),
            ir::product(lit((count - 1) as u64), fresh(n, count - 1)),
        )
    }
}

/// The first `count` fresh variables after `n` are bits of which exactly one is set.
pub open spec fn one_hot_constraints(n: int, count: int) -> Seq<PicusConstraint> {
    Seq::new(count as nat, |i: int| ir::bit(fresh(n, i))).push(
        ir::equal(one_hot_sum(n, count), lit(1)),
    )
}

/// `1 - e`
pub open spec fn one_minus(e: PicusExpr) -> PicusExpr {
    ir::difference(lit(1), e)
}

/// `sign1 + sign2 - 2 * sign1 * sign2`
pub open spec fn signs_differ(sign1: PicusExpr, sign2: PicusExpr) -> PicusExpr {
    ir::difference(
        ir::sum(sign1, sign2),
        ir::product(ir::product(lit(2), sign1), sign2),
    )
}

/// `sign1` where the signs differ, the unsigned comparison elsewhere.
pub open spec fn signed_less(uf: PicusExpr, sign1: PicusExpr, sign2: PicusExpr) -> PicusExpr {
    ir::sum(
        ir::product(sign1, signs_differ(sign1, sign2)),
        ir::product(uf, one_minus(signs_differ(sign1, sign2))),
    )
}

/// The condition that the one-hot `funct3` bits after `h` select.
pub open spec fn selected_condition(
    h: int,
    eq: PicusExpr,
    signed_lt: PicusExpr,
    unsigned_lt: PicusExpr,
) -> PicusExpr {
    let t0 = ir::product(fresh(h, 0), eq);
    let t1 = ir::product(fresh(h, 1), one_minus(eq));
    let t2 = ir::product(fresh(h, 2), signed_lt);
    let t3 = ir::product(fresh(h, 3), unsigned_lt);
    let t4 = ir::product(fresh(h, 4), signed_lt);
    let t5 = ir::product(fresh(h, 5), one_minus(signed_lt));
    let t6 = ir::product(fresh(h, 6), unsigned_lt);
    let t7 = ir::product(fresh(h, 7), one_minus(unsigned_lt));
    ir::sum(
        ir::sum(
            ir::sum(
                ir::sum(
                    ir::sum(
                        ir::sum(ir::sum(t0, t1), t2),
                        t3,
                    ),
                    t4,
                ),
                t5,
            ),
            t6,
        ),
        t7,
    )
}

/// `uf + 2 * out_is_zero + 4 * sign1 + 8 * sign2`
pub open spec fn packed_condition(
    uf: PicusExpr,
    out_is_zero: PicusExpr,
    sign1: PicusExpr,
    sign2: PicusExpr,
) -> PicusExpr {
    ir::sum(
        ir::sum(
            ir::sum(uf, ir::product(lit(2), out_is_zero)),
            ir::product(lit(4), sign1),
        ),
        ir::product(lit(8), sign2),
    )
}

/// `ConditionalJmpBranchSlt`: unpack four condition bits, decode `funct3`, select the flag.
pub open spec fn conditional_jmp_constraints(
    a: PicusExpr,
    f3: PicusExpr,
    flag: PicusExpr,
    n: int,
) -> Seq<PicusConstraint> {
    let uf = fresh(n, 0);
    let out_is_zero = fresh(n, 1);
    let sign1 = fresh(n, 2);
    let sign2 = fresh(n, 3);
    seq![
        ir::below_const(a, 16),
        ir::below_const(f3, 8),
        ir::bit(uf),
        ir::bit(out_is_zero),
        ir::bit(sign1),
        ir::bit(sign2),
        ir::bit(flag),
        ir::equal(a, packed_condition(uf, out_is_zero, sign1, sign2)),
    ] + one_hot_constraints(n + 4, 8) + seq![
        ir::equal(f3, one_hot_index(n + 4, 8)),
        ir::equal(
            flag,
            selected_condition(n + 4, out_is_zero, signed_less(uf, sign1, sign2), uf),
        ),
    ]
}

/// Range bounds of three columns, and that the first determines the others.
pub open spec fn summary_constraints(
    input: PicusExpr,
    input_bound: u64,
    first: PicusExpr,
    first_bound: u64,
    second: PicusExpr,
    second_bound: u64,
) -> Seq<PicusConstraint> {
    seq![
        ir::below_const(input, input_bound),
        ir::below_const(first, first_bound),
        ir::below_const(second, second_bound),
        ir::implies(
            ir::det(input),
            ir::both(ir::det(first), ir::det(second)),
        ),
    ]
}

/// `RomAddressSpaceSeparator`: `address_high = rom_chunk + ROM_BOUND * q`, and `q` is nonzero
/// exactly for RAM addresses.
pub open spec fn rom_separator_constraints(
    address_high: PicusExpr,
    is_ram_range: PicusExpr,
    rom_chunk: PicusExpr,
    n: int,
) -> Seq<PicusConstraint> {
    let q_tail = fresh(n, 0);
    let q = fresh(n, 1);
    seq![
        ir::below_const(address_high, U16_BOUND),
        ir::bit(is_ram_range),
        ir::below_const(rom_chunk, ROM_BOUND),
        ir::below_const(q_tail, ROM_CHUNK_COUNT),
        ir::below_const(q, ROM_CHUNK_COUNT),
        ir::equal(
            address_high,
            ir::sum(rom_chunk, ir::product(lit(ROM_BOUND), q)),
        ),
        ir::equal(
            q,
            ir::product(is_ram_range, ir::sum(q_tail, lit(1))),
        ),
    ]
}

/// The constraints that stand for one row of a table. A table without a dedicated description
/// adds none.
pub open spec fn table_constraints(
    table: TableType,
    c0: PicusExpr,
    c1: PicusExpr,
    c2: PicusExpr,
    n: int,
) -> Seq<PicusConstraint> {
    match table {
        TableType::ConditionalJmpBranchSlt => conditional_jmp_constraints(c0, c1, c2, n),
        TableType::JumpCleanupOffset => jump_cleanup_constraints(c0, c1, c2, n),
        TableType::MemoryGetOffsetAndMaskWithTrap => {
            summary_constraints(c0, PACKED_KEY_BOUND, c1, U4_BOUND, c2, U8_BOUND)
        },
        TableType::RomAddressSpaceSeparator => rom_separator_constraints(c0, c1, c2, n),
        TableType::MemoryLoadHalfwordOrByte => {
            summary_constraints(c0, PACKED_KEY_BOUND, c1, U16_BOUND, c2, U16_BOUND)
        },
        TableType::MemStoreClearOriginalRamValueLimb => {
            summary_constraints(c0, PACKED_KEY_BOUND, c1, U16_BOUND, c2, U16_BOUND)
        },
        TableType::MemStoreClearWrittenValueLimb => {
            summary_constraints(c0, PACKED_KEY_BOUND, c1, U16_BOUND, c2, U16_BOUND)
        },
        TableType::AlignedRomRead => {
            summary_constraints(c0, ROM_WORD_COUNT, c1, U16_BOUND, c2, U16_BOUND)
        },
        TableType::Other(_) => Seq::empty(),
    }
}

/// How many fresh variables a row of a table takes.
pub open spec fn table_fresh(table: TableType) -> int {
    match table {
        TableType::ConditionalJmpBranchSlt => 12,
        TableType::JumpCleanupOffset => 2,
        TableType::RomAddressSpaceSeparator => 2,
        _ => 0,
    }
}

/// A lookup input, scaled where there is a multiplier.
pub open spec fn scaled_input(input: LookupInput, multiplier: Option<PicusExpr>) -> PicusExpr {
    match multiplier {
        Some(m) => ir::product(m, translate::input_expr(input)),
        None => translate::input_expr(input),
    }
}

/// The constraints for one row, its columns scaled where there is a multiplier.
pub open spec fn row_constraints(
    table: TableType,
    row: Seq<LookupInput>,
    multiplier: Option<PicusExpr>,
    n: int,
) -> Seq<PicusConstraint> {
    table_constraints(
        table,
        scaled_input(row[0], multiplier),
        scaled_input(row[1], multiplier),
        scaled_input(row[2], multiplier),
        n,
    )
}

/// The constraints for one plain query. Queries of variable tables add none.
pub open spec fn query_constraints(query: LookupQuery, n: int) -> Seq<PicusConstraint> {
    match query.table {
        LookupQueryTableType::Constant(table) => row_constraints(table, query.row@, None, n),
        LookupQueryTableType::Variable(_) => Seq::empty(),
    }
}

/// How many fresh variables one plain query takes.
pub open spec fn query_fresh(query: LookupQuery) -> int {
    match query.table {
        LookupQueryTableType::Constant(table) => table_fresh(table),
        LookupQueryTableType::Variable(_) => 0,
    }
}

/// How many fresh variables the queries take together.
pub open spec fn queries_fresh(queries: Seq<LookupQuery>) -> int
    decreases queries.len(),
{
    if queries.len() == 0 {
        0
    } else {
        queries_fresh(queries.drop_last()) + query_fresh(queries.last())
    }
}

/// The constraints for the queries in order, fresh variables numbered from `n`.
pub open spec fn queries_constraints(queries: Seq<LookupQuery>, n: int) -> Seq<PicusConstraint>
    decreases queries.len(),
{
    if queries.len() == 0 {
        Seq::empty()
    } else {
        queries_constraints(queries.drop_last(), n) + query_constraints(
            queries.last(),
            n + queries_fresh(queries.drop_last()),
        )
    }
}

/// A circuit boolean as an expression.
pub open spec fn boolean_expr(flag: Boolean) -> PicusExpr {
    match flag {
        Boolean::Is(v) => PicusExpr::Var(v.0 as usize),
        Boolean::Not(v) => one_minus(PicusExpr::Var(v.0 as usize)),
        Boolean::Constant(c) => lit(
            if c {
                1
            } else {
                0
            },
        ),
    }
}

/// Tables in which a row of zeros is harmless, so that an inactive row may be multiplied out.
pub open spec fn multiplies_in(table: TableType) -> bool {
    table == TableType::MemoryLoadHalfwordOrByte || table
        == TableType::MemStoreClearOriginalRamValueLimb
}

/// Every constraint guarded by a condition.
pub open spec fn guarded(cond: PicusConstraint, cs: Seq<PicusConstraint>) -> Seq<
    PicusConstraint,
> {
    cs.map_values(|c: PicusConstraint| ir::implies(cond, c))
}

/// The table that a case addresses, unless a variable chooses it.
pub open spec fn case_table(case: DisjunctiveLookupCase, ids: TableIds) -> Option<TableType> {
    match case.table {
        Num::Var(_) => None,
        Num::Constant(id) => Some(ids.table_of(id.reduced() as u32)),
    }
}

/// The constraints for one case.
pub open spec fn case_constraints(case: DisjunctiveLookupCase, ids: TableIds, n: int) -> Seq<
    PicusConstraint,
> {
    match case_table(case, ids) {
        None => Seq::empty(),
        Some(table) => {
            let flag = boolean_expr(case.flag);
            if multiplies_in(table) {
                row_constraints(table, case.row@, Some(flag), n)
            } else {
                guarded(
                    ir::equal(flag, lit(1)),
                    row_constraints(table, case.row@, None, n),
                )
            }
        },
    }
}

/// How many fresh variables one case takes.
pub open spec fn case_fresh(case: DisjunctiveLookupCase, ids: TableIds) -> int {
    match case_table(case, ids) {
        None => 0,
        Some(table) => table_fresh(table),
    }
}

/// How many fresh variables the cases take together.
pub open spec fn cases_fresh(cases: Seq<DisjunctiveLookupCase>, ids: TableIds) -> int
    decreases cases.len(),
{
    if cases.len() == 0 {
        0
    } else {
        cases_fresh(cases.drop_last(), ids) + case_fresh(cases.last(), ids)
    }
}

/// The constraints for the cases in order.
pub open spec fn cases_constraints(
    cases: Seq<DisjunctiveLookupCase>,
    ids: TableIds,
    n: int,
) -> Seq<PicusConstraint>
    decreases cases.len(),
{
    if cases.len() == 0 {
        Seq::empty()
    } else {
        cases_constraints(cases.drop_last(), ids, n) + case_constraints(
            cases.last(),
            ids,
            n + cases_fresh(cases.drop_last(), ids),
        )
    }
}

/// The flags of the cases.
pub open spec fn flag_exprs(cases: Seq<DisjunctiveLookupCase>) -> Seq<PicusExpr> {
    cases.map_values(|case: DisjunctiveLookupCase| boolean_expr(case.flag))
}

/// The sum of expressions, starting from zero.
pub open spec fn sum_of(es: Seq<PicusExpr>) -> PicusExpr
    decreases es.len(),
{
    if es.len() == 0 {
        lit(0)
    } else {
        ir::sum(sum_of(es.drop_last()), es.last())
    }
}

/// The flags of one relation are bits, and at most one is set.
pub open spec fn relation_postconditions(relation: DisjunctiveLookup) -> Seq<PicusConstraint> {
    let flags = flag_exprs(relation.cases@);
    flags.map_values(|f: PicusExpr| ir::bit(f)).push(
        ir::at_most(sum_of(flags), lit(1)),
    )
}

/// How many fresh variables the relations take together.
pub open spec fn relations_fresh(relations: Seq<DisjunctiveLookup>, ids: TableIds) -> int
    decreases relations.len(),
{
    if relations.len() == 0 {
        0
    } else {
        relations_fresh(relations.drop_last(), ids) + cases_fresh(relations.last().cases@, ids)
    }
}

/// The constraints for the relations in order.
pub open spec fn relations_constraints(
    relations: Seq<DisjunctiveLookup>,
    ids: TableIds,
    n: int,
) -> Seq<PicusConstraint>
    decreases relations.len(),
{
    if relations.len() == 0 {
        Seq::empty()
    } else {
        relations_constraints(relations.drop_last(), ids, n) + cases_constraints(
            relations.last().cases@,
            ids,
            n + relations_fresh(relations.drop_last(), ids),
        )
    }
}

/// The postconditions for the relations in order.
pub open spec fn relations_postconditions(relations: Seq<DisjunctiveLookup>) -> Seq<
    PicusConstraint,
>
    decreases relations.len(),
{
    if relations.len() == 0 {
        Seq::empty()
    } else {
        relations_postconditions(relations.drop_last()) + relation_postconditions(relations.last())
    }
}

/// Allocates `width` boolean indicators and constrains them to be one-hot.
fn add_one_hot_bits(
    constraints: &mut Vec<PicusConstraint>,
    width: usize,
    next_fresh_var_id: &mut usize,
) -> (bits: Vec<PicusExpr>)
    requires
        *old(next_fresh_var_id) + width <= usize::MAX,
    ensures
        *final(next_fresh_var_id) == *old(next_fresh_var_id) + width,
        bits@ == Seq::new(width as nat, |i: int| fresh(*old(next_fresh_var_id) as int, i)),
        final(constraints)@ == old(constraints)@ + one_hot_constraints(
            *old(next_fresh_var_id) as int,
            width as int,
        ),
{
    let ghost n = *next_fresh_var_id as int;
    let ghost before = constraints@;
    let mut bits: Vec<PicusExpr> = Vec::new();
    for i in 0..width
        invariant
            *next_fresh_var_id == n + i,
            n + width <= usize::MAX,
            bits@ == Seq::new(i as nat, |j: int| fresh(n, j)),
            constraints@ == before + Seq::new(
                i as nat,
                |j: int| ir::bit(fresh(n, j)),
            ),
    {
        let b = fresh_picus_var_expr(next_fresh_var_id);
        constraints.push(PicusConstraint::new_bit(b.clone()));
        bits.push(b);
        assert(bits@ =~= Seq::new((i + 1) as nat, |j: int| fresh(n, j)));
        assert(constraints@ =~= before + Seq::new(
            (i + 1) as nat,
            |j: int| ir::bit(fresh(n, j)),
        ));
    }
    let mut total = PicusExpr::Const(0);
    for i in 0..width
        invariant
            bits@ == Seq::new(width as nat, |j: int| fresh(n, j)),
            total == one_hot_sum(n, i as int),
    {
        total = total.plus(bits[i].clone());
    }
    constraints.push(PicusConstraint::new_equality(total, PicusExpr::Const(1)));
    assert(constraints@ =~= before + one_hot_constraints(n, width as int));
    bits
}

/// `JumpCleanupOffset`: decompose a low program counter limb into its aligned part and its two
/// low bits.
fn add_jump_cleanup_lookup_constraints(
    constraints: &mut Vec<PicusConstraint>,
    a: PicusExpr,
    bit_1: PicusExpr,
    cleaned: PicusExpr,
    next_fresh_var_id: &mut usize,
)
    requires
        *old(next_fresh_var_id) + 2 <= usize::MAX,
    ensures
        *final(next_fresh_var_id) == *old(next_fresh_var_id) + 2,
        final(constraints)@ == old(constraints)@ + jump_cleanup_constraints(
            a,
            bit_1,
            cleaned,
            *old(next_fresh_var_id) as int,
        ),
{
    let bit_0 = fresh_picus_var_expr(next_fresh_var_id);
    let k = fresh_picus_var_expr(next_fresh_var_id);

    constraints.push(PicusConstraint::new_lt(a.clone(), U16_BOUND));
    constraints.push(PicusConstraint::new_lt(cleaned.clone(), U16_BOUND));
    constraints.push(PicusConstraint::new_bit(bit_0.clone()));
    constraints.push(PicusConstraint::new_bit(bit_1.clone()));
    constraints.push(PicusConstraint::new_lt(k.clone(), U14_BOUND));
    constraints.push(
        PicusConstraint::new_equality(
            a,
            cleaned.clone().plus(PicusExpr::Const(2).times(bit_1)).plus(bit_0),
        ),
    );
    constraints.push(PicusConstraint::new_equality(cleaned, PicusExpr::Const(4).times(k)));
    assert(constraints@ =~= old(constraints)@ + jump_cleanup_constraints(
        a,
        bit_1,
        cleaned,
        *old(next_fresh_var_id) as int,
    ));
}

/// `ConditionalJmpBranchSlt`: resolve branch and set-less-than flags from packed condition bits.
fn add_conditional_jmp_branch_slt_lookup_constraints(
    constraints: &mut Vec<PicusConstraint>,
    a: PicusExpr,
    f3: PicusExpr,
    flag: PicusExpr,
    next_fresh_var_id: &mut usize,
)
    requires
        *old(next_fresh_var_id) + 12 <= usize::MAX,
    ensures
        *final(next_fresh_var_id) == *old(next_fresh_var_id) + 12,
        final(constraints)@ == old(constraints)@ + conditional_jmp_constraints(
            a,
            f3,
            flag,
            *old(next_fresh_var_id) as int,
        ),
{
    let ghost n = *next_fresh_var_id as int;
    let ghost before = constraints@;
    let uf = fresh_picus_var_expr(next_fresh_var_id);
    let out_is_zero = fresh_picus_var_expr(next_fresh_var_id);
    let sign1 = fresh_picus_var_expr(next_fresh_var_id);
    let sign2 = fresh_picus_var_expr(next_fresh_var_id);

    constraints.push(PicusConstraint::new_lt(a.clone(), 16));
    constraints.push(PicusConstraint::new_lt(f3.clone(), 8));
    constraints.push(PicusConstraint::new_bit(uf.clone()));
    constraints.push(PicusConstraint::new_bit(out_is_zero.clone()));
    constraints.push(PicusConstraint::new_bit(sign1.clone()));
    constraints.push(PicusConstraint::new_bit(sign2.clone()));
    constraints.push(PicusConstraint::new_bit(flag.clone()));
    let packed = uf.clone().plus(PicusExpr::Const(2).times(out_is_zero.clone())).plus(
        PicusExpr::Const(4).times(sign1.clone()),
    ).plus(PicusExpr::Const(8).times(sign2.clone()));
    constraints.push(PicusConstraint::new_equality(a, packed));
    let ghost unpacking = seq![
        ir::below_const(a, 16),
        ir::below_const(f3, 8),
        ir::bit(uf),
        ir::bit(out_is_zero),
        ir::bit(sign1),
        ir::bit(sign2),
        ir::bit(flag),
        ir::equal(a, packed_condition(uf, out_is_zero, sign1, sign2)),
    ];
    assert(constraints@ =~= before + unpacking);

    let signs_different = sign1.clone().plus(sign2.clone()).minus(
        PicusExpr::Const(2).times(sign1.clone()).times(sign2),
    );
    let unsigned_lt = uf.clone();
    let signed_lt = sign1.times(signs_different.clone()).plus(
        uf.times(PicusExpr::Const(1).minus(signs_different)),
    );
    let eq = out_is_zero;

    let f3_one_hot = add_one_hot_bits(constraints, 8, next_fresh_var_id);
    let mut f3_reconstructed = PicusExpr::Const(0);
    for i in 0..8usize
        invariant
            f3_one_hot@ == Seq::new(8nat, |j: int| fresh(n + 4, j)),
            f3_reconstructed == one_hot_index(n + 4, i as int),
    {
        f3_reconstructed = f3_reconstructed.plus(
            PicusExpr::Const(i as u64).times(f3_one_hot[i].clone()),
        );
    }
    constraints.push(PicusConstraint::new_equality(f3, f3_reconstructed));

    let expected_flag = f3_one_hot[0].clone().times(eq.clone()).plus(
        f3_one_hot[1].clone().times(PicusExpr::Const(1).minus(eq)),
    ).plus(f3_one_hot[2].clone().times(signed_lt.clone())).plus(
        f3_one_hot[3].clone().times(unsigned_lt.clone()),
    ).plus(f3_one_hot[4].clone().times(signed_lt.clone())).plus(
        f3_one_hot[5].clone().times(PicusExpr::Const(1).minus(signed_lt)),
    ).plus(f3_one_hot[6].clone().times(unsigned_lt.clone())).plus(
        f3_one_hot[7].clone().times(PicusExpr::Const(1).minus(unsigned_lt)),
    );
    constraints.push(PicusConstraint::new_equality(flag, expected_flag));
    assert(constraints@ =~= before + conditional_jmp_constraints(a, f3, flag, n));
}

/// Bounds three columns and states that the first determines the other two.
fn add_summary_constraints(
    constraints: &mut Vec<PicusConstraint>,
    input: PicusExpr,
    input_bound: u64,
    first: PicusExpr,
    first_bound: u64,
    second: PicusExpr,
    second_bound: u64,
)
    ensures
        final(constraints)@ == old(constraints)@ + summary_constraints(
            input,
            input_bound,
            first,
            first_bound,
            second,
            second_bound,
        ),
{
    constraints.push(PicusConstraint::new_lt(input.clone(), input_bound));
    constraints.push(PicusConstraint::new_lt(first.clone(), first_bound));
    constraints.push(PicusConstraint::new_lt(second.clone(), second_bound));
    constraints.push(
        PicusConstraint::Implies(
            Box::new(PicusConstraint::new_det(input)),
            Box::new(
                PicusConstraint::And(
                    Box::new(PicusConstraint::new_det(first)),
                    Box::new(PicusConstraint::new_det(second)),
                ),
            ),
        ),
    );
    assert(constraints@ =~= old(constraints)@ + summary_constraints(
        input,
        input_bound,
        first,
        first_bound,
        second,
        second_bound,
    ));
}

/// `RomAddressSpaceSeparator`: split a high address limb into a RAM flag and a ROM chunk.
fn add_rom_address_space_separator_lookup_constraints(
    constraints: &mut Vec<PicusConstraint>,
    address_high: PicusExpr,
    is_ram_range: PicusExpr,
    rom_chunk: PicusExpr,
    next_fresh_var_id: &mut usize,
)
    requires
        *old(next_fresh_var_id) + 2 <= usize::MAX,
    ensures
        *final(next_fresh_var_id) == *old(next_fresh_var_id) + 2,
        final(constraints)@ == old(constraints)@ + rom_separator_constraints(
            address_high,
            is_ram_range,
            rom_chunk,
            *old(next_fresh_var_id) as int,
        ),
{
    let q_tail = fresh_picus_var_expr(next_fresh_var_id);
    let q = fresh_picus_var_expr(next_fresh_var_id);

    constraints.push(PicusConstraint::new_lt(address_high.clone(), U16_BOUND));
    constraints.push(PicusConstraint::new_bit(is_ram_range.clone()));
    constraints.push(PicusConstraint::new_lt(rom_chunk.clone(), ROM_BOUND));
    constraints.push(PicusConstraint::new_lt(q_tail.clone(), ROM_CHUNK_COUNT));
    constraints.push(PicusConstraint::new_lt(q.clone(), ROM_CHUNK_COUNT));
    constraints.push(
        PicusConstraint::new_equality(
            address_high,
            rom_chunk.plus(PicusExpr::Const(ROM_BOUND).times(q.clone())),
        ),
    );
    constraints.push(
        PicusConstraint::new_equality(
            q,
            is_ram_range.times(q_tail.plus(PicusExpr::Const(1))),
        ),
    );
    assert(constraints@ =~= old(constraints)@ + rom_separator_constraints(
        address_high,
        is_ram_range,
        rom_chunk,
        *old(next_fresh_var_id) as int,
    ));
}

/// A lookup input as an expression, scaled where there is a multiplier.
fn lookup_input_to_picus_expr_with_multiplier(
    input: &LookupInput,
    row_multiplier: Option<&PicusExpr>,
) -> (r: PicusExpr)
    ensures
        r == scaled_input(
            *input,
            match row_multiplier {
                Some(m) => Some(*m),
                None => None,
            },
        ),
{
    let expr = lookup_input_to_picus_expr(input);
    match row_multiplier {
        Some(multiplier) => multiplier.clone().times(expr),
        None => expr,
    }
}

/// A circuit boolean as an expression.
pub fn boolean_to_picus_expr(flag: Boolean) -> (r: PicusExpr)
    ensures
        r == boolean_expr(flag),
{
    match flag {
        Boolean::Is(v) => variable_to_picus_expr(v),
        Boolean::Not(v) => PicusExpr::Const(1).minus(variable_to_picus_expr(v)),
        Boolean::Constant(c) => PicusExpr::Const(
            if c {
                1
            } else {
                0
            },
        ),
    }
}

/// Whether multiplying a row by its activation flag is safe for the table.
pub fn table_supports_zero_row_multiply_in(table: TableType) -> (r: bool)
    ensures
        r == multiplies_in(table),
{
    match table {
        TableType::MemoryLoadHalfwordOrByte => true,
        TableType::MemStoreClearOriginalRamValueLimb => true,
        _ => false,
    }
}

/// Adds the constraints for one row of a table.
pub fn add_lookup_constraints_for_table(
    constraints: &mut Vec<PicusConstraint>,
    row: &[LookupInput; 3],
    table: TableType,
    next_fresh_var_id: &mut usize,
    row_multiplier: Option<&PicusExpr>,
)
    requires
        *old(next_fresh_var_id) + table_fresh(table) <= usize::MAX,
    ensures
        *final(next_fresh_var_id) == *old(next_fresh_var_id) + table_fresh(table),
        final(constraints)@ == old(constraints)@ + row_constraints(
            table,
            row@,
            match row_multiplier {
                Some(m) => Some(*m),
                None => None,
            },
            *old(next_fresh_var_id) as int,
        ),
{
    let c0 = lookup_input_to_picus_expr_with_multiplier(&row[0], row_multiplier);
    let c1 = lookup_input_to_picus_expr_with_multiplier(&row[1], row_multiplier);
    let c2 = lookup_input_to_picus_expr_with_multiplier(&row[2], row_multiplier);
    match table {
        TableType::ConditionalJmpBranchSlt => {
            add_conditional_jmp_branch_slt_lookup_constraints(
                constraints,
                c0,
                c1,
                c2,
                next_fresh_var_id,
            );
        },
        TableType::JumpCleanupOffset => {
            add_jump_cleanup_lookup_constraints(constraints, c0, c1, c2, next_fresh_var_id);
        },
        TableType::MemoryGetOffsetAndMaskWithTrap => {
            add_summary_constraints(constraints, c0, PACKED_KEY_BOUND, c1, U4_BOUND, c2, U8_BOUND);
        },
        TableType::RomAddressSpaceSeparator => {
            add_rom_address_space_separator_lookup_constraints(
                constraints,
                c0,
                c1,
                c2,
                next_fresh_var_id,
            );
        },
        TableType::MemoryLoadHalfwordOrByte => {
            add_summary_constraints(
                constraints,
                c0,
                PACKED_KEY_BOUND,
                c1,
                U16_BOUND,
                c2,
                U16_BOUND,
            );
        },
        TableType::MemStoreClearOriginalRamValueLimb => {
            add_summary_constraints(
                constraints,
                c0,
                PACKED_KEY_BOUND,
                c1,
                U16_BOUND,
                c2,
                U16_BOUND,
            );
        },
        TableType::MemStoreClearWrittenValueLimb => {
            add_summary_constraints(
                constraints,
                c0,
                PACKED_KEY_BOUND,
                c1,
                U16_BOUND,
                c2,
                U16_BOUND,
            );
        },
        TableType::AlignedRomRead => {
            add_summary_constraints(constraints, c0, ROM_WORD_COUNT, c1, U16_BOUND, c2, U16_BOUND);
        },
        TableType::Other(_) => {
            assert(constraints@ =~= old(constraints)@ + Seq::<PicusConstraint>::empty());
        },
    }
}

proof fn lemma_queries_fresh_bounds(queries: Seq<LookupQuery>, i: int)
    requires
        0 <= i <= queries.len(),
    ensures
        0 <= queries_fresh(queries.take(i)) <= queries_fresh(queries),
    decreases queries.len(),
{
    if i == queries.len() {
        assert(queries.take(i) =~= queries);
        lemma_queries_fresh_nonnegative(queries);
    } else {
        assert(queries.drop_last().take(i) =~= queries.take(i));
        lemma_queries_fresh_bounds(queries.drop_last(), i);
    }
}

proof fn lemma_queries_fresh_nonnegative(queries: Seq<LookupQuery>)
    ensures
        0 <= queries_fresh(queries),
    decreases queries.len(),
{
    if queries.len() > 0 {
        lemma_queries_fresh_nonnegative(queries.drop_last());
    }
}

/// Adds the constraints of the plain lookups over constant tables.
pub fn add_lookup_constraints(
    module: &mut PicusModule,
    lookups: &Vec<LookupQuery>,
    next_fresh_var_id: &mut usize,
)
    requires
        *old(next_fresh_var_id) + queries_fresh(lookups@) <= usize::MAX,
    ensures
        *final(next_fresh_var_id) == *old(next_fresh_var_id) + queries_fresh(lookups@),
        final(module).constraints@ == old(module).constraints@ + queries_constraints(
            lookups@,
            *old(next_fresh_var_id) as int,
        ),
        final(module).name == old(module).name,
        final(module).inputs == old(module).inputs,
        final(module).outputs == old(module).outputs,
        final(module).postconditions == old(module).postconditions,
{
    let ghost n = *next_fresh_var_id as int;
    let ghost before = module.constraints@;
    assert(lookups@.take(0) =~= Seq::empty());
    assert(before + Seq::<PicusConstraint>::empty() =~= before);
    for i in 0..lookups.len()
        invariant
            n + queries_fresh(lookups@) <= usize::MAX,
            *next_fresh_var_id == n + queries_fresh(lookups@.take(i as int)),
            module.constraints@ == before + queries_constraints(lookups@.take(i as int), n),
            module.name == old(module).name,
            module.inputs == old(module).inputs,
            module.outputs == old(module).outputs,
            module.postconditions == old(module).postconditions,
    {
        let query = &lookups[i];
        proof {
            lemma_queries_fresh_bounds(lookups@, i + 1);
            assert(lookups@.take(i + 1).drop_last() =~= lookups@.take(i as int));
            assert(lookups@.take(i + 1).last() == *query);
        }
        let ghost prefix = queries_constraints(lookups@.take(i as int), n);
        match query.table {
            LookupQueryTableType::Constant(table) => {
                add_lookup_constraints_for_table(
                    &mut module.constraints,
                    &query.row,
                    table,
                    next_fresh_var_id,
                    None,
                );
            },
            LookupQueryTableType::Variable(_) => {},
        }
        assert(module.constraints@ =~= before + queries_constraints(lookups@.take(i + 1), n));
    }
    assert(lookups@.take(lookups.len() as int) =~= lookups@);
}

proof fn lemma_cases_fresh_bounds(cases: Seq<DisjunctiveLookupCase>, ids: TableIds, i: int)
    requires
        0 <= i <= cases.len(),
    ensures
        0 <= cases_fresh(cases.take(i), ids) <= cases_fresh(cases, ids),
    decreases cases.len(),
{
    if i == cases.len() {
        assert(cases.take(i) =~= cases);
        if i > 0 {
            lemma_cases_fresh_bounds(cases.drop_last(), ids, i - 1);
        }
    } else {
        assert(cases.drop_last().take(i) =~= cases.take(i));
        lemma_cases_fresh_bounds(cases.drop_last(), ids, i);
    }
}

proof fn lemma_relations_fresh_bounds(relations: Seq<DisjunctiveLookup>, ids: TableIds, i: int)
    requires
        0 <= i <= relations.len(),
    ensures
        0 <= relations_fresh(relations.take(i), ids) <= relations_fresh(relations, ids),
    decreases relations.len(),
{
    if i == relations.len() {
        assert(relations.take(i) =~= relations);
        if i > 0 {
            lemma_relations_fresh_bounds(relations.drop_last(), ids, i - 1);
            lemma_cases_fresh_bounds(relations.last().cases@, ids, 0);
        }
    } else {
        assert(relations.drop_last().take(i) =~= relations.take(i));
        lemma_relations_fresh_bounds(relations.drop_last(), ids, i);
        lemma_cases_fresh_bounds(relations.last().cases@, ids, 0);
    }
}

/// Lookups take a nonnegative number of fresh variables.
pub proof fn lemma_fresh_counts_nonnegative(
    queries: Seq<LookupQuery>,
    relations: Seq<DisjunctiveLookup>,
    ids: TableIds,
)
    ensures
        0 <= queries_fresh(queries),
        0 <= relations_fresh(relations, ids),
{
    lemma_queries_fresh_nonnegative(queries);
    lemma_relations_fresh_bounds(relations, ids, 0);
}

/// Adds the constraints for one guarded row.
fn add_case_constraints(
    constraints: &mut Vec<PicusConstraint>,
    case: &DisjunctiveLookupCase,
    ids: &TableIds,
    next_fresh_var_id: &mut usize,
)
    requires
        *old(next_fresh_var_id) + case_fresh(*case, *ids) <= usize::MAX,
    ensures
        *final(next_fresh_var_id) == *old(next_fresh_var_id) + case_fresh(*case, *ids),
        final(constraints)@ == old(constraints)@ + case_constraints(
            *case,
            *ids,
            *old(next_fresh_var_id) as int,
        ),
{
    let ghost n = *next_fresh_var_id as int;
    let ghost before = constraints@;
    match case.table {
        Num::Var(_) => {
            assert(constraints@ =~= before + Seq::<PicusConstraint>::empty());
        },
        Num::Constant(table_id) => {
            let table = ids.get_table_from_id(table_id.as_u64_reduced() as u32);
            let flag_expr = boolean_to_picus_expr(case.flag);
            if table_supports_zero_row_multiply_in(table) {
                add_lookup_constraints_for_table(
                    constraints,
                    &case.row,
                    table,
                    next_fresh_var_id,
                    Some(&flag_expr),
                );
            } else {
                let mut added: Vec<PicusConstraint> = Vec::new();
                add_lookup_constraints_for_table(
                    &mut added,
                    &case.row,
                    table,
                    next_fresh_var_id,
                    None,
                );
                let ghost plain = row_constraints(table, case.row@, None, n);
                assert(added@ =~= plain);
                let cond = PicusConstraint::new_equality(flag_expr, PicusExpr::Const(1));
                for i in 0..added.len()
                    invariant
                        added@ == plain,
                        constraints@ == before + guarded(cond, plain.take(i as int)),
                {
                    constraints.push(
                        PicusConstraint::Implies(
                            Box::new(cond.clone()),
                            Box::new(added[i].clone()),
                        ),
                    );
                    assert(constraints@ =~= before + guarded(cond, plain.take(i + 1)));
                }
                assert(plain.take(plain.len() as int) =~= plain);
            }
        },
    }
}

/// Adds the constraints and postconditions of the disjunctive lookups.
///
/// The flags of a relation are bits of which at most one is set; a row either is multiplied by
/// its flag or holds where its flag is one.
pub fn add_disjunctive_lookup_constraints(
    module: &mut PicusModule,
    disjunctive_lookups: &Vec<DisjunctiveLookup>,
    ids: &TableIds,
    next_fresh_var_id: &mut usize,
)
    requires
        *old(next_fresh_var_id) + relations_fresh(disjunctive_lookups@, *ids) <= usize::MAX,
    ensures
        *final(next_fresh_var_id) == *old(next_fresh_var_id) + relations_fresh(
            disjunctive_lookups@,
            *ids,
        ),
        final(module).constraints@ == old(module).constraints@ + relations_constraints(
            disjunctive_lookups@,
            *ids,
            *old(next_fresh_var_id) as int,
        ),
        final(module).postconditions@ == old(module).postconditions@ + relations_postconditions(
            disjunctive_lookups@,
        ),
        final(module).name == old(module).name,
        final(module).inputs == old(module).inputs,
        final(module).outputs == old(module).outputs,
{
    let ghost n = *next_fresh_var_id as int;
    let ghost relations = disjunctive_lookups@;
    assert(relations.take(0) =~= Seq::empty());
    assert(module.constraints@ + Seq::<PicusConstraint>::empty() =~= module.constraints@);
    assert(module.postconditions@ + Seq::<PicusConstraint>::empty() =~= module.postconditions@);
    for i in 0..disjunctive_lookups.len()
        invariant
            relations == disjunctive_lookups@,
            n + relations_fresh(relations, *ids) <= usize::MAX,
            *next_fresh_var_id == n + relations_fresh(relations.take(i as int), *ids),
            module.constraints@ == old(module).constraints@ + relations_constraints(
                relations.take(i as int),
                *ids,
                n,
            ),
            module.postconditions@ == old(module).postconditions@ + relations_postconditions(
                relations.take(i as int),
            ),
            module.name == old(module).name,
            module.inputs == old(module).inputs,
            module.outputs == old(module).outputs,
    {
        let relation = &disjunctive_lookups[i];
        let ghost cases = relation.cases@;
        let ghost m = *next_fresh_var_id as int;
        let ghost before = module.constraints@;
        let ghost before_post = module.postconditions@;
        proof {
            lemma_relations_fresh_bounds(relations, *ids, i + 1);
            assert(relations.take(i + 1).drop_last() =~= relations.take(i as int));
            assert(relations.take(i + 1).last() == *relation);
        }

        let mut flag_sum = PicusExpr::Const(0);
        assert(flag_exprs(cases).take(0) =~= Seq::empty());
        for j in 0..relation.cases.len()
            invariant
                cases == relation.cases@,
                flag_sum == sum_of(flag_exprs(cases).take(j as int)),
                module.constraints@ == before,
                module.postconditions@ == before_post + flag_exprs(cases).take(
                    j as int,
                ).map_values(|f: PicusExpr| ir::bit(f)),
                module.name == old(module).name,
                module.inputs == old(module).inputs,
                module.outputs == old(module).outputs,
        {
            let flag = boolean_to_picus_expr(relation.cases[j].flag);
            module.postconditions.push(PicusConstraint::new_bit(flag.clone()));
            flag_sum = flag_sum.plus(flag);
            assert(flag_exprs(cases).take(j + 1).drop_last() =~= flag_exprs(cases).take(j as int));
            assert(module.postconditions@ =~= before_post + flag_exprs(cases).take(
                j + 1,
            ).map_values(|f: PicusExpr| ir::bit(f)));
        }
        assert(flag_exprs(cases).take(cases.len() as int) =~= flag_exprs(cases));
        module.postconditions.push(PicusConstraint::new_leq(flag_sum, PicusExpr::Const(1)));
        assert(module.postconditions@ =~= before_post + relation_postconditions(*relation));

        assert(cases.take(0) =~= Seq::empty());
        for j in 0..relation.cases.len()
            invariant
                cases == relation.cases@,
                m + cases_fresh(cases, *ids) <= usize::MAX,
                *next_fresh_var_id == m + cases_fresh(cases.take(j as int), *ids),
                module.constraints@ == before + cases_constraints(cases.take(j as int), *ids, m),
                module.postconditions@ == before_post + relation_postconditions(*relation),
                module.name == old(module).name,
                module.inputs == old(module).inputs,
                module.outputs == old(module).outputs,
        {
            proof {
                lemma_cases_fresh_bounds(cases, *ids, j + 1);
                assert(cases.take(j + 1).drop_last() =~= cases.take(j as int));
                assert(cases.take(j + 1).last() == relation.cases[j as int]);
            }
            add_case_constraints(
                &mut module.constraints,
                &relation.cases[j],
                ids,
                next_fresh_var_id,
            );
            assert(module.constraints@ =~= before + cases_constraints(
                cases.take(j + 1),
                *ids,
                m,
            ));
        }
        assert(cases.take(cases.len() as int) =~= cases);
        assert(module.constraints@ =~= old(module).constraints@ + relations_constraints(
            relations.take(i + 1),
            *ids,
            n,
        ));
        assert(module.postconditions@ =~= old(module).postconditions@ + relations_postconditions(
            relations.take(i + 1),
        ));
    }
    assert(relations.take(relations.len() as int) =~= relations);
}

} // verus!
