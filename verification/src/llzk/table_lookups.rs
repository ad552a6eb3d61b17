//! Lookup tables computed from their keys.
//!
//! The tables with a closed form are recomputed; the ROM is read through a hook, and the outputs
//! of every other table are left open.
use vstd::prelude::*;

use crate::circuit::TableIds;
use crate::circuit::TableType;
use crate::circuit::ROM_SECOND_WORD_BITS;
use crate::llzk::builder;
use crate::llzk::builder::LlzkError;
use crate::llzk::builder::OpsBuilder;
use crate::llzk::builder::Value;
use crate::llzk::constraints::Readings;
use crate::llzk::ir;
use crate::llzk::ir::BoolBinary;
use crate::llzk::ir::Comparison;
use crate::llzk::ir::Effect;
use crate::llzk::ir::FeltBinary;
use crate::llzk::ir::Sym;
use crate::llzk::ir::ValueType;
use crate::llzk::lookups::ROM_BOUND;

verus! {

/// The hook that reads a word of the ROM as two limbs.
pub const READ_FROM_ROM_HOOK: &'static str = "read_from_rom";

/// The conjunction of two boolean terms.
pub open spec fn both(a: Sym, b: Sym) -> Sym {
    ir::bool2(BoolBinary::And, a, b)
}

/// The disjunction of two boolean terms.
pub open spec fn either(a: Sym, b: Sym) -> Sym {
    ir::bool2(BoolBinary::Or, a, b)
}

/// `ConditionalJmpBranchSlt`: whether the first operand is less, as signed numbers.
pub open spec fn signed_less_sym(a: Sym) -> Sym {
    let unsigned_lt = builder::is_nonzero(builder::shifted_low_bits(a, 0, 1));
    let sign1 = builder::is_nonzero(builder::shifted_low_bits(a, 2, 1));
    let sign2 = builder::is_nonzero(builder::shifted_low_bits(a, 3, 1));
    ir::select(
        either(both(sign1, ir::not(sign2)), both(ir::not(sign1), sign2)),
        sign1,
        unsigned_lt,
    )
}

/// `ConditionalJmpBranchSlt`: the flag that `funct3` selects.
pub open spec fn branch_flag_sym(a: Sym, funct3: Sym) -> Sym {
    let unsigned_lt = builder::is_nonzero(builder::shifted_low_bits(a, 0, 1));
    let eq = builder::is_nonzero(builder::shifted_low_bits(a, 1, 1));
    let signed_lt = signed_less_sym(a);
    builder::to_field(
        ir::select(
            builder::is_constant(funct3, 0),
            eq,
            ir::select(
                builder::is_constant(funct3, 1),
                ir::not(eq),
                ir::select(
                    builder::is_constant(funct3, 2),
                    signed_lt,
                    ir::select(
                        builder::is_constant(funct3, 3),
                        unsigned_lt,
                        ir::select(
                            builder::is_constant(funct3, 4),
                            signed_lt,
                            ir::select(
                                builder::is_constant(funct3, 5),
                                ir::not(signed_lt),
                                ir::select(
                                    builder::is_constant(funct3, 6),
                                    unsigned_lt,
                                    ir::not(unsigned_lt),
                                ),
                            ),
                        ),
                    ),
                ),
            ),
        ),
    )
}

/// `JumpCleanupOffset`: the second bit of a limb, and the limb without its two low bits.
pub open spec fn jump_cleanup_syms(input: Sym) -> Seq<Sym> {
    seq![
        builder::shifted_low_bits(input, 1, 1),
        ir::felt2(FeltBinary::Sub, input, builder::lowest_bits(input, 2)),
    ]
}

/// `MemoryGetOffsetAndMaskWithTrap`: whether the access is narrower than a word, given its code.
pub open spec fn halfword_sym(funct3: Sym) -> Sym {
    either(builder::is_constant(funct3, 1), builder::is_constant(funct3, 5))
}

/// Whether the code is that of a byte access.
pub open spec fn byte_sym(funct3: Sym) -> Sym {
    either(builder::is_constant(funct3, 0), builder::is_constant(funct3, 4))
}

/// `MemoryGetOffsetAndMaskWithTrap`: whether the access traps.
pub open spec fn trap_sym(input: Sym) -> Sym {
    let offset = builder::lowest_bits(input, 2);
    let funct3 = builder::shifted_low_bits(input, 16, 3);
    let is_store = builder::is_nonzero(builder::shifted_low_bits(input, 17, 1));
    let rd_is_x0 = builder::is_nonzero(builder::shifted_low_bits(input, 18, 1));
    let is_word = builder::is_constant(funct3, 2);
    let is_halfword = halfword_sym(funct3);
    let is_byte = byte_sym(funct3);
    let base_trap = ir::select(
        is_word,
        builder::is_nonzero(offset),
        ir::select(
            is_halfword,
            builder::is_nonzero(builder::lowest_bits(offset, 1)),
            ir::select(is_byte, ir::boolean(false), ir::boolean(true)),
        ),
    );
    ir::select(
        both(
            either(is_word, either(is_halfword, is_byte)),
            both(ir::not(is_store), rd_is_x0),
        ),
        ir::boolean(false),
        base_trap,
    )
}

/// `MemoryGetOffsetAndMaskWithTrap`: the offset and the packed mask.
pub open spec fn offset_and_mask_syms(input: Sym) -> Seq<Sym> {
    let offset = builder::lowest_bits(input, 2);
    let funct3 = builder::shifted_low_bits(input, 16, 3);
    let less_than_word = either(halfword_sym(funct3), byte_sym(funct3));
    let use_high_limb = ir::compare(Comparison::Ge, offset, ir::felt(2));
    seq![
        offset,
        ir::felt2(
            FeltBinary::Add,
            builder::to_field(less_than_word),
            ir::felt2(
                FeltBinary::Add,
                ir::felt2(FeltBinary::Mul, builder::to_field(use_high_limb), ir::felt(2)),
                ir::felt2(FeltBinary::Mul, builder::to_field(trap_sym(input)), ir::felt(4)),
            ),
        ),
    ]
}

/// `RomAddressSpaceSeparator`: whether a high limb is past the ROM, and its chunk.
pub open spec fn rom_separator_syms(input: Sym) -> Seq<Sym> {
    seq![
        builder::to_field(ir::compare(Comparison::Ge, input, ir::felt(ROM_BOUND))),
        builder::lowest_bits(input, ROM_SECOND_WORD_BITS as u32),
    ]
}

/// The byte of a packed limb that its offset addresses.
pub open spec fn selected_byte_sym(input: Sym) -> Sym {
    let limb = builder::lowest_bits(input, 16);
    let offset = builder::shifted_low_bits(input, 16, 2);
    let odd = builder::is_nonzero(builder::lowest_bits(offset, 1));
    ir::select(
        ir::not(odd),
        builder::lowest_bits(limb, 8),
        builder::shifted_low_bits(limb, 8, 8),
    )
}

/// `MemoryLoadHalfwordOrByte`: the low limb.
pub open spec fn load_low_sym(input: Sym) -> Sym {
    let limb = builder::lowest_bits(input, 16);
    let offset = builder::shifted_low_bits(input, 16, 2);
    let funct3 = builder::shifted_low_bits(input, 18, 3);
    let odd = builder::is_nonzero(builder::lowest_bits(offset, 1));
    let byte = selected_byte_sym(input);
    let byte_sign = builder::is_nonzero(builder::shifted_low_bits(byte, 7, 1));
    let halfword_low = ir::select(odd, ir::felt(0), limb);
    let signed_low = ir::select(
        byte_sign,
        ir::felt2(FeltBinary::Add, byte, ir::felt(0xff00)),
        byte,
    );
    ir::select(
        builder::is_constant(funct3, 2),
        ir::felt(0),
        ir::select(
            builder::is_constant(funct3, 1),
            halfword_low,
            ir::select(
                builder::is_constant(funct3, 5),
                halfword_low,
                ir::select(
                    builder::is_constant(funct3, 0),
                    signed_low,
                    ir::select(builder::is_constant(funct3, 4), byte, ir::felt(0)),
                ),
            ),
        ),
    )
}

/// `MemoryLoadHalfwordOrByte`: the high limb.
pub open spec fn load_high_sym(input: Sym) -> Sym {
    let limb = builder::lowest_bits(input, 16);
    let offset = builder::shifted_low_bits(input, 16, 2);
    let funct3 = builder::shifted_low_bits(input, 18, 3);
    let odd = builder::is_nonzero(builder::lowest_bits(offset, 1));
    let byte_sign = builder::is_nonzero(
        builder::shifted_low_bits(selected_byte_sym(input), 7, 1),
    );
    let limb_sign = builder::is_nonzero(builder::shifted_low_bits(limb, 15, 1));
    let halfword_high = ir::select(
        odd,
        ir::felt(0),
        ir::select(limb_sign, ir::felt(0xffff), ir::felt(0)),
    );
    let byte_high = ir::select(byte_sign, ir::felt(0xffff), ir::felt(0));
    ir::select(
        builder::is_constant(funct3, 2),
        ir::felt(0),
        ir::select(
            builder::is_constant(funct3, 1),
            halfword_high,
            ir::select(
                builder::is_constant(funct3, 5),
                ir::felt(0),
                ir::select(builder::is_constant(funct3, 0), byte_high, ir::felt(0)),
            ),
        ),
    )
}

/// `MemStoreClearOriginalRamValueLimb`: the bytes that a store leaves.
pub open spec fn clear_original_sym(input: Sym) -> Sym {
    let limb = builder::lowest_bits(input, 16);
    let offset = builder::shifted_low_bits(input, 16, 2);
    let funct3 = builder::shifted_low_bits(input, 18, 3);
    let odd = builder::is_nonzero(builder::lowest_bits(offset, 1));
    ir::select(
        builder::is_constant(funct3, 0),
        ir::select(
            odd,
            builder::lowest_bits(limb, 8),
            ir::felt2(FeltBinary::BitAnd, limb, ir::felt(0xff00)),
        ),
        ir::felt(0),
    )
}

/// `MemStoreClearWrittenValueLimb`: what a store contributes.
pub open spec fn clear_written_sym(input: Sym) -> Sym {
    let limb = builder::lowest_bits(input, 16);
    let offset = builder::shifted_low_bits(input, 16, 2);
    let funct3 = builder::shifted_low_bits(input, 18, 3);
    let odd = builder::is_nonzero(builder::lowest_bits(offset, 1));
    let byte = builder::lowest_bits(limb, 8);
    ir::select(
        builder::is_constant(funct3, 1),
        limb,
        ir::select(
            builder::is_constant(funct3, 0),
            ir::select(odd, ir::felt2(FeltBinary::Shl, byte, ir::felt(8)), byte),
            ir::felt(0),
        ),
    )
}

/// Outputs trimmed to a number, or padded with zeros to it.
pub open spec fn finalized(outputs: Seq<Sym>, n: nat) -> Seq<Sym> {
    if outputs.len() > n {
        outputs.take(n as int)
    } else {
        outputs + Seq::new((n - outputs.len()) as nat, |i: int| ir::felt(0))
    }
}

/// `n` values that are left open, `k` effects having gone before.
pub open spec fn open_outputs(n: nat, k: nat) -> Readings {
    Readings {
        syms: Seq::new(n, |i: int| Sym::Result((k + i) as nat, 0)),
        effects: Seq::new(n, |i: int| Effect::Nondet(ValueType::Felt)),
    }
}

/// How many inputs a table takes, where it is computed.
pub open spec fn input_count(table: TableType) -> nat {
    if table is ConditionalJmpBranchSlt {
        2
    } else {
        1
    }
}

/// The outputs of the tables that are recomputed from their keys.
pub open spec fn computed_outputs(table: TableType, inputs: Seq<Sym>) -> Seq<Sym> {
    match table {
        TableType::ConditionalJmpBranchSlt => seq![branch_flag_sym(inputs[0], inputs[1])],
        TableType::JumpCleanupOffset => jump_cleanup_syms(inputs[0]),
        TableType::MemoryGetOffsetAndMaskWithTrap => offset_and_mask_syms(inputs[0]),
        TableType::RomAddressSpaceSeparator => rom_separator_syms(inputs[0]),
        TableType::MemoryLoadHalfwordOrByte => seq![
            load_low_sym(inputs[0]),
            load_high_sym(inputs[0]),
        ],
        TableType::MemStoreClearOriginalRamValueLimb => seq![clear_original_sym(inputs[0])],
        TableType::MemStoreClearWrittenValueLimb => seq![clear_written_sym(inputs[0])],
        _ => Seq::empty(),
    }
}

/// The outputs of a lookup and the effects of computing them.
pub open spec fn table_outputs(table: TableType, inputs: Seq<Sym>, n: nat, k: nat) -> Result<
    Readings,
    LlzkError,
> {
    if table is Other {
        Ok(open_outputs(n, k))
    } else if inputs.len() != input_count(table) {
        Err(LlzkError::WrongInputCount)
    } else if table is AlignedRomRead {
        Ok(
            (Readings {
                syms: finalized(seq![Sym::Result(k, 0), Sym::Result(k, 1)], n),
                effects: seq![Effect::Call(READ_FROM_ROM_HOOK@, inputs, 2)],
            }),
        )
    } else {
        Ok(
            (Readings {
                syms: finalized(computed_outputs(table, inputs), n),
                effects: Seq::empty(),
            }),
        )
    }
}

/// The tables among which a lookup with a computed table number chooses.
pub open spec fn dynamic_tables(inputs: nat) -> Seq<TableType> {
    if inputs == 1 {
        seq![
            TableType::JumpCleanupOffset,
            TableType::MemoryGetOffsetAndMaskWithTrap,
            TableType::RomAddressSpaceSeparator,
            TableType::MemoryLoadHalfwordOrByte,
            TableType::MemStoreClearOriginalRamValueLimb,
            TableType::MemStoreClearWrittenValueLimb,
        ]
    } else if inputs == 2 {
        seq![TableType::ConditionalJmpBranchSlt]
    } else {
        Seq::empty()
    }
}

/// The outputs after trying the given tables: those of the table that has the number, or the
/// ones left open.
pub open spec fn dispatched(
    tables: Seq<TableType>,
    ids: TableIds,
    table_id: Sym,
    inputs: Seq<Sym>,
    n: nat,
    k: nat,
) -> Seq<Sym>
    decreases tables.len(),
{
    if tables.len() == 0 {
        open_outputs(n, k).syms
    } else {
        let fallback = dispatched(tables.drop_last(), ids, table_id, inputs, n, k);
        let table = tables.last();
        let candidate = finalized(computed_outputs(table, inputs), n);
        Seq::new(
            n,
            |i: int|
                ir::select(
                    builder::is_constant(table_id, ids.id_of(table) as u64),
                    candidate[i],
                    fallback[i],
                ),
        )
    }
}

/// The outputs of a lookup with a computed table number.
pub open spec fn dynamic_outputs(
    ids: TableIds,
    table_id: Sym,
    inputs: Seq<Sym>,
    n: nat,
    k: nat,
) -> Readings {
    Readings {
        syms: dispatched(dynamic_tables(inputs.len()), ids, table_id, inputs, n, k),
        effects: open_outputs(n, k).effects,
    }
}

/// Outputs that are zero where the mask is not set.
pub open spec fn masked(mask: Sym, outputs: Seq<Sym>) -> Seq<Sym> {
    outputs.map_values(|s: Sym| ir::select(mask, s, ir::felt(0)))
}

fn shr_bit(builder: &mut OpsBuilder, value: Value, shift: u64) -> (r: Value)
    requires
        old(builder).has(value),
    ensures
        final(builder).purely_continues(*old(builder)),
        final(builder).has(r),
        r.sym@ == builder::is_nonzero(builder::shifted_low_bits(value.sym@, shift, 1)),
{
    let bit = builder.append_shifted_low_bits(value, shift, 1);
    builder.append_field_is_nonzero(bit)
}

fn compute_conditional_jmp_branch_slt_lookup(builder: &mut OpsBuilder, a: Value, funct3: Value) -> (r: Value)
    requires
        old(builder).has(a),
        old(builder).has(funct3),
    ensures
        final(builder).purely_continues(*old(builder)),
        final(builder).has(r),
        r.sym@ == branch_flag_sym(a.sym@, funct3.sym@),
{
    let unsigned_lt = shr_bit(builder, a, 0);
    let eq = shr_bit(builder, a, 1);
    let sign1 = shr_bit(builder, a, 2);
    let sign2 = shr_bit(builder, a, 3);
    let not_sign1 = builder.append_bool_not(sign1);
    let not_sign2 = builder.append_bool_not(sign2);
    let first_only = builder.append_bool_binary(BoolBinary::And, sign1, not_sign2);
    let second_only = builder.append_bool_binary(BoolBinary::And, not_sign1, sign2);
    let signs_differ = builder.append_bool_binary(BoolBinary::Or, first_only, second_only);
    let signed_lt = builder.append_select_value(signs_differ, sign1, unsigned_lt);
    let not_eq = builder.append_bool_not(eq);
    let not_signed_lt = builder.append_bool_not(signed_lt);
    let not_unsigned_lt = builder.append_bool_not(unsigned_lt);

    let is_0 = builder.append_field_eq_constant(funct3, 0);
    let is_1 = builder.append_field_eq_constant(funct3, 1);
    let is_2 = builder.append_field_eq_constant(funct3, 2);
    let is_3 = builder.append_field_eq_constant(funct3, 3);
    let is_4 = builder.append_field_eq_constant(funct3, 4);
    let is_5 = builder.append_field_eq_constant(funct3, 5);
    let is_6 = builder.append_field_eq_constant(funct3, 6);
    let flag = builder.append_select_value(is_6, unsigned_lt, not_unsigned_lt);
    let flag = builder.append_select_value(is_5, not_signed_lt, flag);
    let flag = builder.append_select_value(is_4, signed_lt, flag);
    let flag = builder.append_select_value(is_3, unsigned_lt, flag);
    let flag = builder.append_select_value(is_2, signed_lt, flag);
    let flag = builder.append_select_value(is_1, not_eq, flag);
    let flag = builder.append_select_value(is_0, eq, flag);
    builder.append_bool_to_field(flag)
}

/// Whether a list of values of a body has the expected terms.
pub open spec fn are(b: OpsBuilder, vs: Seq<Value>, expected: Seq<Sym>) -> bool {
    b.has_all(vs) && builder::syms(vs) == expected
}

fn compute_jump_cleanup_offset_lookup(builder: &mut OpsBuilder, input: Value) -> (r: Vec<Value>)
    requires
        old(builder).has(input),
    ensures
        final(builder).purely_continues(*old(builder)),
        are(*final(builder), r@, jump_cleanup_syms(input.sym@)),
{
    let check_bit = builder.append_shifted_low_bits(input, 1, 1);
    let low_bits = builder.append_lowest_bits_felt(input, 2);
    let cleaned = builder.append_felt_binary(FeltBinary::Sub, input, low_bits);
    let r = vec![check_bit, cleaned];
    assert(builder::syms(r@) =~= jump_cleanup_syms(input.sym@));
    r
}

fn append_either_code(builder: &mut OpsBuilder, funct3: Value, x: u64, y: u64) -> (r: Value)
    requires
        old(builder).has(funct3),
    ensures
        final(builder).purely_continues(*old(builder)),
        final(builder).has(r),
        r.sym@ == either(
            builder::is_constant(funct3.sym@, x),
            builder::is_constant(funct3.sym@, y),
        ),
{
    let is_x = builder.append_field_eq_constant(funct3, x);
    let is_y = builder.append_field_eq_constant(funct3, y);
    builder.append_bool_binary(BoolBinary::Or, is_x, is_y)
}

fn compute_memory_get_offset_and_mask_with_trap_lookup(builder: &mut OpsBuilder, input: Value) -> (r: Vec<
    Value,
>)
    requires
        old(builder).has(input),
    ensures
        final(builder).purely_continues(*old(builder)),
        are(*final(builder), r@, offset_and_mask_syms(input.sym@)),
{
    let offset = builder.append_lowest_bits_felt(input, 2);
    let funct3 = builder.append_shifted_low_bits(input, 16, 3);
    let is_store = shr_bit(builder, input, 17);
    let rd_is_x0 = shr_bit(builder, input, 18);

    let offset_is_nonzero = builder.append_field_is_nonzero(offset);
    let offset_bit = builder.append_lowest_bits_felt(offset, 1);
    let offset_is_odd = builder.append_field_is_nonzero(offset_bit);
    let false_bool = builder.get_bool_constant_from_start(false);
    let true_bool = builder.get_bool_constant_from_start(true);

    let is_word = builder.append_field_eq_constant(funct3, 2);
    let is_halfword = append_either_code(builder, funct3, 1, 5);
    let is_byte = append_either_code(builder, funct3, 0, 4);
    let less_than_word = builder.append_bool_binary(BoolBinary::Or, is_halfword, is_byte);

    let base_trap = builder.append_select_value(is_byte, false_bool, true_bool);
    let base_trap = builder.append_select_value(is_halfword, offset_is_odd, base_trap);
    let base_trap = builder.append_select_value(is_word, offset_is_nonzero, base_trap);

    let valid_for_load = builder.append_bool_binary(BoolBinary::Or, is_word, less_than_word);
    let is_load = builder.append_bool_not(is_store);
    let load_to_x0 = builder.append_bool_binary(BoolBinary::And, is_load, rd_is_x0);
    let allowed = builder.append_bool_binary(BoolBinary::And, valid_for_load, load_to_x0);
    let is_trap = builder.append_select_value(allowed, false_bool, base_trap);

    let two = builder.get_felt_constant_from_start(2);
    let use_high_limb = builder.append_compare(Comparison::Ge, offset, two);
    let narrow_bit = builder.append_bool_to_field(less_than_word);
    let high_bit = builder.append_bool_to_field(use_high_limb);
    let high_part = builder.append_felt_binary(FeltBinary::Mul, high_bit, two);
    let trap_bit = builder.append_bool_to_field(is_trap);
    let four = builder.get_felt_constant_from_start(4);
    let trap_part = builder.append_felt_binary(FeltBinary::Mul, trap_bit, four);
    let upper = builder.append_felt_binary(FeltBinary::Add, high_part, trap_part);
    let bitmask = builder.append_felt_binary(FeltBinary::Add, narrow_bit, upper);
    let r = vec![offset, bitmask];
    assert(builder::syms(r@) =~= offset_and_mask_syms(input.sym@));
    r
}

fn compute_rom_address_space_separator_lookup(builder: &mut OpsBuilder, input: Value) -> (r: Vec<Value>)
    requires
        old(builder).has(input),
    ensures
        final(builder).purely_continues(*old(builder)),
        are(*final(builder), r@, rom_separator_syms(input.sym@)),
{
    let rom_bound = builder.get_felt_constant_from_start(ROM_BOUND);
    let is_ram_range = builder.append_compare(Comparison::Ge, input, rom_bound);
    let rom_chunk = builder.append_lowest_bits_felt(input, ROM_SECOND_WORD_BITS as u32);
    let is_ram = builder.append_bool_to_field(is_ram_range);
    let r = vec![is_ram, rom_chunk];
    assert(builder::syms(r@) =~= rom_separator_syms(input.sym@));
    r
}

fn compute_memory_load_halfword_or_byte_lookup(builder: &mut OpsBuilder, input: Value) -> (r: Vec<Value>)
    requires
        old(builder).has(input),
    ensures
        final(builder).purely_continues(*old(builder)),
        are(*final(builder), r@, seq![load_low_sym(input.sym@), load_high_sym(input.sym@)]),
{
    let limb_value = builder.append_lowest_bits_felt(input, 16);
    let offset = builder.append_shifted_low_bits(input, 16, 2);
    let funct3 = builder.append_shifted_low_bits(input, 18, 3);
    let offset_bit = builder.append_lowest_bits_felt(offset, 1);
    let offset_is_odd = builder.append_field_is_nonzero(offset_bit);
    let use_low_byte = builder.append_bool_not(offset_is_odd);
    let low_byte = builder.append_lowest_bits_felt(limb_value, 8);
    let high_byte = builder.append_shifted_low_bits(limb_value, 8, 8);
    let selected_byte = builder.append_select_value(use_low_byte, low_byte, high_byte);
    let byte_sign = shr_bit(builder, selected_byte, 7);
    let limb_sign = shr_bit(builder, limb_value, 15);
    let zero = builder.get_felt_constant_from_start(0);
    let byte_fill = builder.get_felt_constant_from_start(0xff00);
    let limb_fill = builder.get_felt_constant_from_start(0xffff);
    let filled = builder.append_felt_binary(FeltBinary::Add, selected_byte, byte_fill);
    let byte_signed_low = builder.append_select_value(byte_sign, filled, selected_byte);
    let byte_signed_high = builder.append_select_value(byte_sign, limb_fill, zero);
    let halfword_fill = builder.append_select_value(limb_sign, limb_fill, zero);
    let halfword_low = builder.append_select_value(offset_is_odd, zero, limb_value);
    let halfword_signed_high = builder.append_select_value(offset_is_odd, zero, halfword_fill);

    let is_word = builder.append_field_eq_constant(funct3, 2);
    let is_half = builder.append_field_eq_constant(funct3, 1);
    let is_half_unsigned = builder.append_field_eq_constant(funct3, 5);
    let is_byte = builder.append_field_eq_constant(funct3, 0);
    let is_byte_unsigned = builder.append_field_eq_constant(funct3, 4);
    let low = builder.append_select_value(is_byte_unsigned, selected_byte, zero);
    let low = builder.append_select_value(is_byte, byte_signed_low, low);
    let low = builder.append_select_value(is_half_unsigned, halfword_low, low);
    let low = builder.append_select_value(is_half, halfword_low, low);
    let low = builder.append_select_value(is_word, zero, low);
    let high = builder.append_select_value(is_byte, byte_signed_high, zero);
    let high = builder.append_select_value(is_half_unsigned, zero, high);
    let high = builder.append_select_value(is_half, halfword_signed_high, high);
    let high = builder.append_select_value(is_word, zero, high);
    let r = vec![low, high];
    assert(builder::syms(r@) =~= seq![load_low_sym(input.sym@), load_high_sym(input.sym@)]);
    r
}

fn compute_mem_store_clear_original_ram_value_limb_lookup(builder: &mut OpsBuilder, input: Value) -> (r:
    Vec<Value>)
    requires
        old(builder).has(input),
    ensures
        final(builder).purely_continues(*old(builder)),
        are(*final(builder), r@, seq![clear_original_sym(input.sym@)]),
{
    let limb_value = builder.append_lowest_bits_felt(input, 16);
    let offset = builder.append_shifted_low_bits(input, 16, 2);
    let funct3 = builder.append_shifted_low_bits(input, 18, 3);
    let offset_bit = builder.append_lowest_bits_felt(offset, 1);
    let offset_is_odd = builder.append_field_is_nonzero(offset_bit);
    let low_byte = builder.append_lowest_bits_felt(limb_value, 8);
    let mask = builder.get_felt_constant_from_start(0xff00);
    let high_byte = builder.append_felt_binary(FeltBinary::BitAnd, limb_value, mask);
    let cleaned_byte = builder.append_select_value(offset_is_odd, low_byte, high_byte);
    let is_byte = builder.append_field_eq_constant(funct3, 0);
    let zero = builder.get_felt_constant_from_start(0);
    let cleaned = builder.append_select_value(is_byte, cleaned_byte, zero);
    let r = vec![cleaned];
    assert(builder::syms(r@) =~= seq![clear_original_sym(input.sym@)]);
    r
}

fn compute_mem_store_clear_written_value_limb_lookup(builder: &mut OpsBuilder, input: Value) -> (r: Vec<
    Value,
>)
    requires
        old(builder).has(input),
    ensures
        final(builder).purely_continues(*old(builder)),
        are(*final(builder), r@, seq![clear_written_sym(input.sym@)]),
{
    let limb_value = builder.append_lowest_bits_felt(input, 16);
    let offset = builder.append_shifted_low_bits(input, 16, 2);
    let funct3 = builder.append_shifted_low_bits(input, 18, 3);
    let offset_bit = builder.append_lowest_bits_felt(offset, 1);
    let offset_is_odd = builder.append_field_is_nonzero(offset_bit);
    let value_to_store = builder.append_lowest_bits_felt(limb_value, 8);
    let eight = builder.get_felt_constant_from_start(8);
    let moved = builder.append_felt_binary(FeltBinary::Shl, value_to_store, eight);
    let shifted_byte = builder.append_select_value(offset_is_odd, moved, value_to_store);
    let is_halfword = builder.append_field_eq_constant(funct3, 1);
    let is_byte = builder.append_field_eq_constant(funct3, 0);
    let zero = builder.get_felt_constant_from_start(0);
    let cleaned = builder.append_select_value(is_byte, shifted_byte, zero);
    let cleaned = builder.append_select_value(is_halfword, limb_value, cleaned);
    let r = vec![cleaned];
    assert(builder::syms(r@) =~= seq![clear_written_sym(input.sym@)]);
    r
}

/// Zeros for the columns that a row does not have.
pub fn zero_lookup_outputs(builder: &mut OpsBuilder, num_outputs: usize) -> (r: Vec<Value>)
    ensures
        final(builder).purely_continues(*old(builder)),
        are(*final(builder), r@, Seq::new(num_outputs as nat, |i: int| ir::felt(0))),
{
    let zero = builder.get_felt_constant_from_start(0);
    let mut r: Vec<Value> = Vec::new();
    for i in 0..num_outputs
        invariant
            r@.len() == i,
            builder.has(zero),
            zero.sym@ == ir::felt(0),
            forall|j: int| 0 <= j < i ==> r@[j] == zero,
    {
        r.push(zero);
    }
    assert(builder::syms(r@) =~= Seq::new(num_outputs as nat, |i: int| ir::felt(0)));
    r
}

/// Trims the outputs of a table to a number, or pads them with zeros to it.
pub fn finalize_lookup_outputs(
    builder: &mut OpsBuilder,
    outputs: Vec<Value>,
    num_outputs: usize,
) -> (r: Vec<Value>)
    requires
        old(builder).has_all(outputs@),
    ensures
        final(builder).purely_continues(*old(builder)),
        are(*final(builder), r@, finalized(builder::syms(outputs@), num_outputs as nat)),
{
    let mut outputs = outputs;
    let ghost given = outputs@;
    if outputs.len() > num_outputs {
        outputs.truncate(num_outputs);
        assert(builder::syms(outputs@) =~= finalized(builder::syms(given), num_outputs as nat));
        assert forall|j: int| 0 <= j < outputs@.len() implies builder.has(#[trigger] outputs@[j]) by {
            assert(builder.has(given[j]));
        }
        return outputs;
    }
    let mut padding = zero_lookup_outputs(builder, num_outputs - outputs.len());
    let ghost zeros = padding@;
    outputs.append(&mut padding);
    assert(outputs@ =~= given + zeros);
    assert(builder::syms(outputs@) =~= builder::syms(given) + builder::syms(zeros));
    assert forall|j: int| 0 <= j < outputs@.len() implies builder.has(#[trigger] outputs@[j]) by {
        if j < given.len() {
            assert(old(builder).has(given[j]));
        } else {
            assert(builder.has(zeros[j - given.len()]));
        }
    }
    outputs
}

/// Values for outputs that are left open.
pub fn new_lookup_outputs(builder: &mut OpsBuilder, num_outputs: usize) -> (r: Vec<Value>)
    ensures
        final(builder).continues(*old(builder)),
        are(
            *final(builder),
            r@,
            open_outputs(num_outputs as nat, old(builder).effects().len()).syms,
        ),
        final(builder).effects() == old(builder).effects() + open_outputs(
            num_outputs as nat,
            old(builder).effects().len(),
        ).effects,
{
    let ghost start = builder.effects();
    let mut r: Vec<Value> = Vec::new();
    assert(start =~= start + open_outputs(0, start.len()).effects);
    for i in 0..num_outputs
        invariant
            builder.continues(*old(builder)),
            start == old(builder).effects(),
            builder.has_all(r@),
            r@.len() == i,
            forall|j: int|
                0 <= j < i ==> (#[trigger] r@[j]).sym@ == Sym::Result((start.len() + j) as nat, 0),
            builder.effects() == start + open_outputs(i as nat, start.len()).effects,
    {
        let ghost before = *builder;
        let ghost earlier = r@;
        let value = builder.new_nondet_felt();
        r.push(value);
        assert forall|j: int| 0 <= j < r@.len() implies builder.has(#[trigger] r@[j]) by {
            if j < i {
                assert(before.has(earlier[j]));
            }
        }
        assert(builder.effects() =~= start + open_outputs((i + 1) as nat, start.len()).effects);
    }
    assert(builder::syms(r@) =~= open_outputs(num_outputs as nat, start.len()).syms);
    r
}

/// Whether outputs and effects are those expected, or the error is.
pub open spec fn are_outputs(
    before: OpsBuilder,
    after: OpsBuilder,
    r: Result<Vec<Value>, LlzkError>,
    expected: Result<Readings, LlzkError>,
) -> bool {
    &&& after.continues(before)
    &&& match (r, expected) {
        (Ok(vs), Ok(e)) => {
            &&& are(after, vs@, e.syms)
            &&& after.effects() == before.effects() + e.effects
        },
        (Err(x), Err(e)) => x == e,
        _ => false,
    }
}

fn computed_lookup(builder: &mut OpsBuilder, table: TableType, inputs: &Vec<Value>) -> (r: Vec<Value>)
    requires
        old(builder).has_all(inputs@),
        inputs@.len() == input_count(table),
    ensures
        final(builder).purely_continues(*old(builder)),
        are(*final(builder), r@, computed_outputs(table, builder::syms(inputs@))),
{
    assert(builder.has(inputs@[0]));
    match table {
        TableType::ConditionalJmpBranchSlt => {
            assert(builder.has(inputs@[1]));
            let flag = compute_conditional_jmp_branch_slt_lookup(builder, inputs[0], inputs[1]);
            let r = vec![flag];
            assert(builder::syms(r@) =~= computed_outputs(table, builder::syms(inputs@)));
            r
        },
        TableType::JumpCleanupOffset => compute_jump_cleanup_offset_lookup(builder, inputs[0]),
        TableType::MemoryGetOffsetAndMaskWithTrap => {
            compute_memory_get_offset_and_mask_with_trap_lookup(builder, inputs[0])
        },
        TableType::RomAddressSpaceSeparator => compute_rom_address_space_separator_lookup(
            builder,
            inputs[0],
        ),
        TableType::MemoryLoadHalfwordOrByte => compute_memory_load_halfword_or_byte_lookup(
            builder,
            inputs[0],
        ),
        TableType::MemStoreClearOriginalRamValueLimb => {
            compute_mem_store_clear_original_ram_value_limb_lookup(builder, inputs[0])
        },
        TableType::MemStoreClearWrittenValueLimb => {
            compute_mem_store_clear_written_value_limb_lookup(builder, inputs[0])
        },
        TableType::AlignedRomRead | TableType::Other(_) => {
            let r: Vec<Value> = Vec::new();
            assert(builder::syms(r@) =~= Seq::empty());
            r
        },
    }
}

/// Lowers a lookup into a known table.
pub fn compute_lookup_for_table(
    builder: &mut OpsBuilder,
    table: TableType,
    inputs: &Vec<Value>,
    num_outputs: usize,
) -> (r: Result<Vec<Value>, LlzkError>)
    requires
        old(builder).has_all(inputs@),
    ensures
        are_outputs(
            *old(builder),
            *final(builder),
            r,
            table_outputs(
                table,
                builder::syms(inputs@),
                num_outputs as nat,
                old(builder).effects().len(),
            ),
        ),
{
    let ghost start = builder.effects();
    assert(builder::syms(inputs@).len() == inputs@.len());
    let expected: usize = match table {
        TableType::Other(_) => {
            return Ok(new_lookup_outputs(builder, num_outputs));
        },
        TableType::ConditionalJmpBranchSlt => 2,
        _ => 1,
    };
    if inputs.len() != expected {
        return Err(LlzkError::WrongInputCount);
    }
    match table {
        TableType::AlignedRomRead => {
            let (low, high) = builder.append_call_with_two_results(READ_FROM_ROM_HOOK, inputs);
            let outputs = vec![low, high];
            assert(builder::syms(outputs@) =~= seq![
                Sym::Result(start.len(), 0),
                Sym::Result(start.len(), 1),
            ]);
            let r = finalize_lookup_outputs(builder, outputs, num_outputs);
            assert(builder.effects() =~= start + seq![
                Effect::Call(READ_FROM_ROM_HOOK@, builder::syms(inputs@), 2),
            ]);
            Ok(r)
        },
        _ => {
            let outputs = computed_lookup(builder, table, inputs);
            let r = finalize_lookup_outputs(builder, outputs, num_outputs);
            assert(builder.effects() =~= start + Seq::<Effect>::empty());
            Ok(r)
        },
    }
}

fn dynamic_table_list(inputs: usize) -> (r: Vec<TableType>)
    ensures
        r@ == dynamic_tables(inputs as nat),
{
    if inputs == 1 {
        let r = vec![
            TableType::JumpCleanupOffset,
            TableType::MemoryGetOffsetAndMaskWithTrap,
            TableType::RomAddressSpaceSeparator,
            TableType::MemoryLoadHalfwordOrByte,
            TableType::MemStoreClearOriginalRamValueLimb,
            TableType::MemStoreClearWrittenValueLimb,
        ];
        assert(r@ =~= dynamic_tables(1));
        r
    } else if inputs == 2 {
        let r = vec![TableType::ConditionalJmpBranchSlt];
        assert(r@ =~= dynamic_tables(2));
        r
    } else {
        Vec::new()
    }
}

fn select_outputs(
    builder: &mut OpsBuilder,
    condition: Value,
    candidate: &Vec<Value>,
    fallback: &Vec<Value>,
) -> (r: Vec<Value>)
    requires
        old(builder).has(condition),
        old(builder).has_all(candidate@),
        old(builder).has_all(fallback@),
        candidate@.len() == fallback@.len(),
    ensures
        final(builder).purely_continues(*old(builder)),
        are(
            *final(builder),
            r@,
            Seq::new(
                candidate@.len(),
                |i: int|
                    ir::select(
                        condition.sym@,
                        builder::syms(candidate@)[i],
                        builder::syms(fallback@)[i],
                    ),
            ),
        ),
{
    let mut r: Vec<Value> = Vec::new();
    for i in 0..candidate.len()
        invariant
            builder.purely_continues(*old(builder)),
            old(builder).has(condition),
            old(builder).has_all(candidate@),
            old(builder).has_all(fallback@),
            candidate@.len() == fallback@.len(),
            builder.has_all(r@),
            r@.len() == i,
            forall|j: int|
                0 <= j < i ==> (#[trigger] r@[j]).sym@ == ir::select(
                    condition.sym@,
                    candidate@[j].sym@,
                    fallback@[j].sym@,
                ),
    {
        let ghost before = *builder;
        let ghost earlier = r@;
        assert(old(builder).has(candidate@[i as int]));
        assert(old(builder).has(fallback@[i as int]));
        let value = builder.append_select_value(condition, candidate[i], fallback[i]);
        r.push(value);
        assert forall|j: int| 0 <= j < r@.len() implies builder.has(#[trigger] r@[j]) by {
            if j < i {
                assert(before.has(earlier[j]));
            }
        }
    }
    assert(builder::syms(r@) =~= Seq::new(
        candidate@.len(),
        |i: int|
            ir::select(
                condition.sym@,
                builder::syms(candidate@)[i],
                builder::syms(fallback@)[i],
            ),
    ));
    r
}

/// Lowers a lookup whose table number is computed: the supported tables are all computed, and
/// the outputs of the one with the number are selected.
pub fn compute_dynamic_lookup(
    builder: &mut OpsBuilder,
    ids: &TableIds,
    table_id: Value,
    inputs: &Vec<Value>,
    num_outputs: usize,
) -> (r: Vec<Value>)
    requires
        old(builder).has_all(inputs@),
        old(builder).has(table_id),
    ensures
        final(builder).continues(*old(builder)),
        are(
            *final(builder),
            r@,
            dynamic_outputs(
                *ids,
                table_id.sym@,
                builder::syms(inputs@),
                num_outputs as nat,
                old(builder).effects().len(),
            ).syms,
        ),
        final(builder).effects() == old(builder).effects() + open_outputs(
            num_outputs as nat,
            old(builder).effects().len(),
        ).effects,
{
    let ghost k = builder.effects().len();
    let ghost ins = builder::syms(inputs@);
    assert(ins.len() == inputs@.len());
    let tables = dynamic_table_list(inputs.len());
    let mut outputs = new_lookup_outputs(builder, num_outputs);
    let ghost opened = *builder;
    assert(tables@.take(0) =~= Seq::empty());
    assert(builder::syms(outputs@).len() == num_outputs);
    for i in 0..tables.len()
        invariant
            ins == builder::syms(inputs@),
            ins.len() == inputs@.len(),
            tables@ == dynamic_tables(inputs@.len()),
            opened.continues(*old(builder)),
            builder.purely_continues(opened),
            old(builder).has_all(inputs@),
            old(builder).has(table_id),
            are(
                *builder,
                outputs@,
                dispatched(
                    tables@.take(i as int),
                    *ids,
                    table_id.sym@,
                    ins,
                    num_outputs as nat,
                    k,
                ),
            ),
            outputs@.len() == num_outputs,
    {
        let table = tables[i];
        assert(tables@.take(i + 1).drop_last() =~= tables@.take(i as int));
        assert(tables@.take(i + 1).last() == table);
        assert forall|j: int| 0 <= j < inputs@.len() implies builder.has(#[trigger] inputs@[j]) by {
            assert(old(builder).has(inputs@[j]));
        }
        let ghost before = *builder;
        let computed = computed_lookup(builder, table, inputs);
        let candidate = finalize_lookup_outputs(builder, computed, num_outputs);
        assert(builder::syms(candidate@).len() == num_outputs);
        let is_selected = builder.append_field_eq_constant(
            table_id,
            ids.to_table_id(table) as u64,
        );
        assert forall|j: int| 0 <= j < outputs@.len() implies builder.has(#[trigger] outputs@[j]) by {
            assert(before.has(outputs@[j]));
        }
        outputs = select_outputs(builder, is_selected, &candidate, &outputs);
        assert(builder::syms(outputs@) =~= dispatched(
            tables@.take(i + 1),
            *ids,
            table_id.sym@,
            ins,
            num_outputs as nat,
            k,
        ));
    }
    assert(tables@.take(tables@.len() as int) =~= tables@);
    outputs
}

/// Makes the outputs zero where the mask is not set.
pub fn mask_lookup_outputs(builder: &mut OpsBuilder, mask: Value, outputs: &Vec<Value>) -> (r: Vec<
    Value,
>)
    requires
        old(builder).has(mask),
        old(builder).has_all(outputs@),
    ensures
        final(builder).purely_continues(*old(builder)),
        are(*final(builder), r@, masked(mask.sym@, builder::syms(outputs@))),
{
    let zero = builder.get_felt_constant_from_start(0);
    let mut r: Vec<Value> = Vec::new();
    for i in 0..outputs.len()
        invariant
            builder.purely_continues(*old(builder)),
            old(builder).has(mask),
            builder.has(zero),
            zero.sym@ == ir::felt(0),
            old(builder).has_all(outputs@),
            builder.has_all(r@),
            r@.len() == i,
            forall|j: int|
                0 <= j < i ==> (#[trigger] r@[j]).sym@ == ir::select(
                    mask.sym@,
                    outputs@[j].sym@,
                    ir::felt(0),
                ),
    {
        let ghost before = *builder;
        let ghost earlier = r@;
        assert(old(builder).has(outputs@[i as int]));
        let value = builder.append_select_value(mask, outputs[i], zero);
        r.push(value);
        assert forall|j: int| 0 <= j < r@.len() implies builder.has(#[trigger] r@[j]) by {
            if j < i {
                assert(before.has(earlier[j]));
            }
        }
    }
    assert(builder::syms(r@) =~= masked(mask.sym@, builder::syms(outputs@)));
    r
}

} // verus!
