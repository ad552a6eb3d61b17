//! The computed lookup outputs are the rows of the tables.
use vstd::prelude::*;

use crate::circuit::TableIds;
use crate::circuit::TableType;
use crate::circuit::ROM_SECOND_WORD_BITS;
use crate::llzk::builder;
use crate::llzk::integer_laws;
use crate::llzk::ir;
use crate::llzk::ir::Comparison;
use crate::llzk::ir::FeltBinary;
use crate::llzk::ir::Sym;
use crate::llzk::ir::Valuation;
use crate::llzk::laws;
use crate::llzk::lookups::ROM_BOUND;
use crate::llzk::table_lookups;
use crate::tables;

verus! {

proof fn lemma_compare(op: Comparison, a: Sym, b: Sym, rho: Valuation)
    ensures
        ir::compare(op, a, b).eval(rho) == ir::truth(
            ir::comparison_value(op, a.eval(rho), b.eval(rho)),
        ),
{
    reveal(Sym::eval);
}

proof fn lemma_select(c: Sym, a: Sym, b: Sym, rho: Valuation)
    ensures
        ir::select(c, a, b).eval(rho) == (if c.eval(rho) != 0 {
            a.eval(rho)
        } else {
            b.eval(rho)
        }),
{
    reveal(Sym::eval);
}

proof fn lemma_not(a: Sym, rho: Valuation)
    ensures
        ir::not(a).eval(rho) == ir::truth(a.eval(rho) == 0),
{
    reveal(Sym::eval);
}

proof fn lemma_both(a: Sym, b: Sym, rho: Valuation)
    ensures
        table_lookups::both(a, b).eval(rho) == ir::truth(a.eval(rho) != 0 && b.eval(rho) != 0),
{
    reveal(Sym::eval);
}

proof fn lemma_either(a: Sym, b: Sym, rho: Valuation)
    ensures
        table_lookups::either(a, b).eval(rho) == ir::truth(a.eval(rho) != 0 || b.eval(rho) != 0),
{
    reveal(Sym::eval);
}

proof fn lemma_boolean(b: bool, rho: Valuation)
    ensures
        ir::boolean(b).eval(rho) == ir::truth(b),
{
    reveal(Sym::eval);
}

proof fn lemma_is_constant(s: Sym, c: u64, rho: Valuation)
    requires
        c < laws::p(),
    ensures
        builder::is_constant(s, c).eval(rho) == ir::truth(s.eval(rho) == c),
{
    laws::constants_have_their_value(c, rho);
    lemma_compare(Comparison::Eq, s, ir::felt(c), rho);
}

/// A bit field of a value is a remainder of a quotient.
proof fn lemma_field(s: Sym, shift: u64, bits: u32, rho: Valuation)
    requires
        0 <= s.eval(rho),
        shift <= 30,
        bits <= 30,
    ensures
        builder::shifted_low_bits(s, shift, bits).eval(rho) == (s.eval(rho) / (
        vstd::arithmetic::power2::pow2(shift as nat) as int)) % (
        vstd::arithmetic::power2::pow2(bits as nat) as int),
{
    vstd::arithmetic::power2::lemma2_to64();
    if shift == 0 {
        vstd::arithmetic::div_mod::lemma_div_basics(s.eval(rho));
        integer_laws::lowest_bits_are_remainders(s, bits, rho);
    } else {
        let moved = ir::felt2(FeltBinary::Shr, s, ir::felt(shift));
        laws::constants_have_their_value(shift, rho);
        laws::binary_operations_work_on_values(FeltBinary::Shr, s, ir::felt(shift), rho);
        vstd::arithmetic::power2::lemma_pow2_pos(shift as nat);
        vstd::arithmetic::div_mod::lemma_div_pos_is_pos(
            s.eval(rho),
            vstd::arithmetic::power2::pow2(shift as nat) as int,
        );
        integer_laws::lowest_bits_are_remainders(moved, bits, rho);
    }
}

proof fn lemma_bit(s: Sym, shift: u64, rho: Valuation)
    requires
        0 <= s.eval(rho),
        shift <= 30,
    ensures
        builder::is_nonzero(builder::shifted_low_bits(s, shift, 1)).eval(rho) == tables::bit_at(
            s.eval(rho),
            vstd::arithmetic::power2::pow2(shift as nat) as int,
        ),
{
    vstd::arithmetic::power2::lemma2_to64();
    lemma_field(s, shift, 1, rho);
    integer_laws::nonzero_values_are_found(builder::shifted_low_bits(s, shift, 1), rho);
}

/// The computed flag of `ConditionalJmpBranchSlt` is that of the table.
pub proof fn computed_branch_flags_are_rows(a: Sym, funct3: Sym, rho: Valuation)
    requires
        0 <= a.eval(rho) < 16,
        0 <= funct3.eval(rho) < 8,
    ensures
        table_lookups::branch_flag_sym(a, funct3).eval(rho) == tables::branch_flag(
            a.eval(rho),
            funct3.eval(rho),
        ),
{
    vstd::arithmetic::power2::lemma2_to64();
    lemma_bit(a, 0, rho);
    lemma_bit(a, 1, rho);
    lemma_bit(a, 2, rho);
    lemma_bit(a, 3, rho);
    let unsigned_lt = builder::is_nonzero(builder::shifted_low_bits(a, 0, 1));
    let eq = builder::is_nonzero(builder::shifted_low_bits(a, 1, 1));
    let sign1 = builder::is_nonzero(builder::shifted_low_bits(a, 2, 1));
    let sign2 = builder::is_nonzero(builder::shifted_low_bits(a, 3, 1));
    let signed_lt = table_lookups::signed_less_sym(a);
    lemma_not(sign1, rho);
    lemma_not(sign2, rho);
    let first = table_lookups::both(sign1, ir::not(sign2));
    let second = table_lookups::both(ir::not(sign1), sign2);
    lemma_both(sign1, ir::not(sign2), rho);
    lemma_both(ir::not(sign1), sign2, rho);
    lemma_either(first, second, rho);
    lemma_select(table_lookups::either(first, second), sign1, unsigned_lt, rho);
    lemma_not(eq, rho);
    lemma_not(signed_lt, rho);
    lemma_not(unsigned_lt, rho);
    lemma_is_constant(funct3, 0, rho);
    lemma_is_constant(funct3, 1, rho);
    lemma_is_constant(funct3, 2, rho);
    lemma_is_constant(funct3, 3, rho);
    lemma_is_constant(funct3, 4, rho);
    lemma_is_constant(funct3, 5, rho);
    lemma_is_constant(funct3, 6, rho);
    let s6 = ir::select(builder::is_constant(funct3, 6), unsigned_lt, ir::not(unsigned_lt));
    let s5 = ir::select(builder::is_constant(funct3, 5), ir::not(signed_lt), s6);
    let s4 = ir::select(builder::is_constant(funct3, 4), signed_lt, s5);
    let s3 = ir::select(builder::is_constant(funct3, 3), unsigned_lt, s4);
    let s2 = ir::select(builder::is_constant(funct3, 2), signed_lt, s3);
    let s1 = ir::select(builder::is_constant(funct3, 1), ir::not(eq), s2);
    let s0 = ir::select(builder::is_constant(funct3, 0), eq, s1);
    lemma_select(builder::is_constant(funct3, 6), unsigned_lt, ir::not(unsigned_lt), rho);
    lemma_select(builder::is_constant(funct3, 5), ir::not(signed_lt), s6, rho);
    lemma_select(builder::is_constant(funct3, 4), signed_lt, s5, rho);
    lemma_select(builder::is_constant(funct3, 3), unsigned_lt, s4, rho);
    lemma_select(builder::is_constant(funct3, 2), signed_lt, s3, rho);
    lemma_select(builder::is_constant(funct3, 1), ir::not(eq), s2, rho);
    lemma_select(builder::is_constant(funct3, 0), eq, s1, rho);
    integer_laws::booleans_in_the_field(s0, rho);
}

/// The computed outputs of `JumpCleanupOffset` are those of the table.
pub proof fn computed_jump_cleanups_are_rows(input: Sym, rho: Valuation)
    requires
        0 <= input.eval(rho) < laws::p(),
    ensures
        ({
            let outputs = table_lookups::jump_cleanup_syms(input);
            (outputs[0].eval(rho), outputs[1].eval(rho)) == tables::jump_cleanup(input.eval(rho))
        }),
{
    vstd::arithmetic::power2::lemma2_to64();
    lemma_field(input, 1, 1, rho);
    integer_laws::lowest_bits_are_remainders(input, 2, rho);
    laws::binary_operations_work_on_values(
        FeltBinary::Sub,
        input,
        builder::lowest_bits(input, 2),
        rho,
    );
    laws::lemma_small(input.eval(rho) - input.eval(rho) % 4);
}

/// The computed outputs of `RomAddressSpaceSeparator` are those of the table.
pub proof fn computed_rom_separators_are_rows(input: Sym, rho: Valuation)
    requires
        0 <= input.eval(rho) < laws::p(),
    ensures
        ({
            let outputs = table_lookups::rom_separator_syms(input);
            (outputs[0].eval(rho), outputs[1].eval(rho)) == tables::rom_separator(input.eval(rho))
        }),
{
    vstd::arithmetic::power2::lemma2_to64();
    laws::constants_have_their_value(ROM_BOUND, rho);
    lemma_compare(Comparison::Ge, input, ir::felt(ROM_BOUND), rho);
    integer_laws::booleans_in_the_field(
        ir::compare(Comparison::Ge, input, ir::felt(ROM_BOUND)),
        rho,
    );
    integer_laws::lowest_bits_are_remainders(input, ROM_SECOND_WORD_BITS as u32, rho);
}

proof fn lemma_trap(input: Sym, rho: Valuation)
    requires
        0 <= input.eval(rho) < laws::p(),
    ensures
        ({
            let key = input.eval(rho);
            let offset = key % 4;
            let funct3 = (key / 0x1_0000) % 8;
            let is_word = funct3 == 2;
            let is_halfword = funct3 == 1 || funct3 == 5;
            let is_byte = funct3 == 0 || funct3 == 4;
            let misaligned = if is_word {
                offset != 0
            } else if is_halfword {
                offset % 2 != 0
            } else {
                !is_byte
            };
            table_lookups::trap_sym(input).eval(rho) == ir::truth(
                misaligned && !((is_word || is_halfword || is_byte) && tables::bit_at(
                    key,
                    0x2_0000,
                ) != 1 && tables::bit_at(key, 0x4_0000) == 1),
            )
        }),
{
    vstd::arithmetic::power2::lemma2_to64();
    let offset = builder::lowest_bits(input, 2);
    let funct3 = builder::shifted_low_bits(input, 16, 3);
    integer_laws::lowest_bits_are_remainders(input, 2, rho);
    integer_laws::lowest_bits_are_remainders(offset, 1, rho);
    lemma_field(input, 16, 3, rho);
    lemma_bit(input, 17, rho);
    lemma_bit(input, 18, rho);
    let is_store = builder::is_nonzero(builder::shifted_low_bits(input, 17, 1));
    let rd_is_x0 = builder::is_nonzero(builder::shifted_low_bits(input, 18, 1));
    let odd = builder::is_nonzero(builder::lowest_bits(offset, 1));
    integer_laws::nonzero_values_are_found(offset, rho);
    integer_laws::nonzero_values_are_found(builder::lowest_bits(offset, 1), rho);
    lemma_codes(funct3, rho);
    let is_word = builder::is_constant(funct3, 2);
    let is_halfword = table_lookups::halfword_sym(funct3);
    let is_byte = table_lookups::byte_sym(funct3);
    lemma_is_constant(funct3, 2, rho);
    lemma_boolean(false, rho);
    lemma_boolean(true, rho);
    let t2 = ir::select(is_byte, ir::boolean(false), ir::boolean(true));
    let t1 = ir::select(is_halfword, odd, t2);
    let t0 = ir::select(is_word, builder::is_nonzero(offset), t1);
    lemma_select(is_byte, ir::boolean(false), ir::boolean(true), rho);
    lemma_select(is_halfword, odd, t2, rho);
    lemma_select(is_word, builder::is_nonzero(offset), t1, rho);
    let narrow = table_lookups::either(is_halfword, is_byte);
    lemma_either(is_halfword, is_byte, rho);
    lemma_either(is_word, narrow, rho);
    lemma_not(is_store, rho);
    lemma_both(ir::not(is_store), rd_is_x0, rho);
    let allowed = table_lookups::both(
        table_lookups::either(is_word, narrow),
        table_lookups::both(ir::not(is_store), rd_is_x0),
    );
    lemma_both(
        table_lookups::either(is_word, narrow),
        table_lookups::both(ir::not(is_store), rd_is_x0),
        rho,
    );
    lemma_select(allowed, ir::boolean(false), t0, rho);
}

proof fn lemma_codes(funct3: Sym, rho: Valuation)
    ensures
        table_lookups::halfword_sym(funct3).eval(rho) == ir::truth(
            funct3.eval(rho) == 1 || funct3.eval(rho) == 5,
        ),
        table_lookups::byte_sym(funct3).eval(rho) == ir::truth(
            funct3.eval(rho) == 0 || funct3.eval(rho) == 4,
        ),
{
    lemma_is_constant(funct3, 0, rho);
    lemma_is_constant(funct3, 1, rho);
    lemma_is_constant(funct3, 4, rho);
    lemma_is_constant(funct3, 5, rho);
    lemma_either(builder::is_constant(funct3, 1), builder::is_constant(funct3, 5), rho);
    lemma_either(builder::is_constant(funct3, 0), builder::is_constant(funct3, 4), rho);
}

/// The computed outputs of `MemoryGetOffsetAndMaskWithTrap` are those of the table.
pub proof fn computed_offsets_and_masks_are_rows(input: Sym, rho: Valuation)
    requires
        0 <= input.eval(rho) < laws::p(),
    ensures
        ({
            let outputs = table_lookups::offset_and_mask_syms(input);
            (outputs[0].eval(rho), outputs[1].eval(rho)) == tables::offset_and_mask(
                input.eval(rho),
            )
        }),
{
    vstd::arithmetic::power2::lemma2_to64();
    let offset = builder::lowest_bits(input, 2);
    let funct3 = builder::shifted_low_bits(input, 16, 3);
    integer_laws::lowest_bits_are_remainders(input, 2, rho);
    lemma_field(input, 16, 3, rho);
    lemma_codes(funct3, rho);
    lemma_trap(input, rho);
    let narrow = table_lookups::either(
        table_lookups::halfword_sym(funct3),
        table_lookups::byte_sym(funct3),
    );
    lemma_either(
        table_lookups::halfword_sym(funct3),
        table_lookups::byte_sym(funct3),
        rho,
    );
    let high = ir::compare(Comparison::Ge, offset, ir::felt(2));
    laws::constants_have_their_value(2, rho);
    laws::constants_have_their_value(4, rho);
    lemma_compare(Comparison::Ge, offset, ir::felt(2), rho);
    integer_laws::booleans_in_the_field(narrow, rho);
    integer_laws::booleans_in_the_field(high, rho);
    integer_laws::booleans_in_the_field(table_lookups::trap_sym(input), rho);
    let high_bit = builder::to_field(high);
    let trap_bit = builder::to_field(table_lookups::trap_sym(input));
    let high_part = ir::felt2(FeltBinary::Mul, high_bit, ir::felt(2));
    let trap_part = ir::felt2(FeltBinary::Mul, trap_bit, ir::felt(4));
    let upper = ir::felt2(FeltBinary::Add, high_part, trap_part);
    laws::binary_operations_work_on_values(FeltBinary::Mul, high_bit, ir::felt(2), rho);
    laws::binary_operations_work_on_values(FeltBinary::Mul, trap_bit, ir::felt(4), rho);
    laws::lemma_small(high_bit.eval(rho) * 2);
    laws::lemma_small(trap_bit.eval(rho) * 4);
    laws::binary_operations_work_on_values(FeltBinary::Add, high_part, trap_part, rho);
    laws::lemma_small(high_part.eval(rho) + trap_part.eval(rho));
    laws::binary_operations_work_on_values(
        FeltBinary::Add,
        builder::to_field(narrow),
        upper,
        rho,
    );
    laws::lemma_small(builder::to_field(narrow).eval(rho) + upper.eval(rho));
}

/// What the fields of a packed key hold.
proof fn lemma_packed(input: Sym, rho: Valuation)
    requires
        0 <= input.eval(rho) < laws::p(),
    ensures
        ({
            let (limb, offset, funct3) = tables::packed_limb(input.eval(rho));
            let offset_sym = builder::shifted_low_bits(input, 16, 2);
            &&& builder::lowest_bits(input, 16).eval(rho) == limb
            &&& builder::shifted_low_bits(input, 16, 2).eval(rho) == offset
            &&& builder::shifted_low_bits(input, 18, 3).eval(rho) == funct3
            &&& builder::is_nonzero(builder::lowest_bits(offset_sym, 1)).eval(rho) == ir::truth(
                offset % 2 != 0,
            )
            &&& 0 <= limb < 0x1_0000
            &&& 0 <= offset < 4
            &&& 0 <= funct3 < 8
        }),
{
    vstd::arithmetic::power2::lemma2_to64();
    let offset_sym = builder::shifted_low_bits(input, 16, 2);
    integer_laws::lowest_bits_are_remainders(input, 16, rho);
    lemma_field(input, 16, 2, rho);
    lemma_field(input, 18, 3, rho);
    integer_laws::lowest_bits_are_remainders(offset_sym, 1, rho);
    integer_laws::nonzero_values_are_found(builder::lowest_bits(offset_sym, 1), rho);
}

proof fn lemma_selected_byte(input: Sym, rho: Valuation)
    requires
        0 <= input.eval(rho) < laws::p(),
    ensures
        ({
            let (limb, offset, funct3) = tables::packed_limb(input.eval(rho));
            let byte = table_lookups::selected_byte_sym(input);
            &&& byte.eval(rho) == tables::byte_at(limb, offset)
            &&& 0 <= byte.eval(rho) < 0x100
            &&& builder::is_nonzero(builder::shifted_low_bits(byte, 7, 1)).eval(rho) == ir::truth(
                byte.eval(rho) >= 0x80,
            )
        }),
{
    vstd::arithmetic::power2::lemma2_to64();
    lemma_packed(input, rho);
    let limb = builder::lowest_bits(input, 16);
    let offset = builder::shifted_low_bits(input, 16, 2);
    let odd = builder::is_nonzero(builder::lowest_bits(offset, 1));
    let byte = table_lookups::selected_byte_sym(input);
    lemma_not(odd, rho);
    integer_laws::lowest_bits_are_remainders(limb, 8, rho);
    lemma_field(limb, 8, 8, rho);
    lemma_select(
        ir::not(odd),
        builder::lowest_bits(limb, 8),
        builder::shifted_low_bits(limb, 8, 8),
        rho,
    );
    lemma_bit(byte, 7, rho);
}

/// The computed outputs of `MemoryLoadHalfwordOrByte` are those of the table.
pub proof fn computed_loads_are_rows(input: Sym, rho: Valuation)
    requires
        0 <= input.eval(rho) < laws::p(),
    ensures
        (
            table_lookups::load_low_sym(input).eval(rho),
            table_lookups::load_high_sym(input).eval(rho),
        ) == tables::load_subword(input.eval(rho)),
{
    vstd::arithmetic::power2::lemma2_to64();
    lemma_packed(input, rho);
    lemma_selected_byte(input, rho);
    let limb = builder::lowest_bits(input, 16);
    let offset = builder::shifted_low_bits(input, 16, 2);
    let funct3 = builder::shifted_low_bits(input, 18, 3);
    let odd = builder::is_nonzero(builder::lowest_bits(offset, 1));
    let byte = table_lookups::selected_byte_sym(input);
    let byte_sign = builder::is_nonzero(builder::shifted_low_bits(byte, 7, 1));
    let limb_sign = builder::is_nonzero(builder::shifted_low_bits(limb, 15, 1));
    lemma_bit(limb, 15, rho);
    laws::constants_have_their_value(0, rho);
    laws::constants_have_their_value(0xff00, rho);
    laws::constants_have_their_value(0xffff, rho);
    let zero = ir::felt(0);
    let full = ir::felt(0xffff);
    let filled = ir::felt2(FeltBinary::Add, byte, ir::felt(0xff00));
    laws::binary_operations_work_on_values(FeltBinary::Add, byte, ir::felt(0xff00), rho);
    laws::lemma_small(byte.eval(rho) + 0xff00);
    lemma_is_constant(funct3, 0, rho);
    lemma_is_constant(funct3, 1, rho);
    lemma_is_constant(funct3, 2, rho);
    lemma_is_constant(funct3, 4, rho);
    lemma_is_constant(funct3, 5, rho);
    let halfword_low = ir::select(odd, zero, limb);
    lemma_select(odd, zero, limb, rho);
    let signed_low = ir::select(byte_sign, filled, byte);
    lemma_select(byte_sign, filled, byte, rho);
    let l4 = ir::select(builder::is_constant(funct3, 4), byte, zero);
    let l3 = ir::select(builder::is_constant(funct3, 0), signed_low, l4);
    let l2 = ir::select(builder::is_constant(funct3, 5), halfword_low, l3);
    let l1 = ir::select(builder::is_constant(funct3, 1), halfword_low, l2);
    lemma_select(builder::is_constant(funct3, 4), byte, zero, rho);
    lemma_select(builder::is_constant(funct3, 0), signed_low, l4, rho);
    lemma_select(builder::is_constant(funct3, 5), halfword_low, l3, rho);
    lemma_select(builder::is_constant(funct3, 1), halfword_low, l2, rho);
    lemma_select(builder::is_constant(funct3, 2), zero, l1, rho);
    let fill = ir::select(limb_sign, full, zero);
    lemma_select(limb_sign, full, zero, rho);
    let halfword_high = ir::select(odd, zero, fill);
    lemma_select(odd, zero, fill, rho);
    let byte_high = ir::select(byte_sign, full, zero);
    lemma_select(byte_sign, full, zero, rho);
    let h3 = ir::select(builder::is_constant(funct3, 0), byte_high, zero);
    let h2 = ir::select(builder::is_constant(funct3, 5), zero, h3);
    let h1 = ir::select(builder::is_constant(funct3, 1), halfword_high, h2);
    lemma_select(builder::is_constant(funct3, 0), byte_high, zero, rho);
    lemma_select(builder::is_constant(funct3, 5), zero, h3, rho);
    lemma_select(builder::is_constant(funct3, 1), halfword_high, h2, rho);
    lemma_select(builder::is_constant(funct3, 2), zero, h1, rho);
}

/// The computed output of `MemStoreClearOriginalRamValueLimb` is that of the table.
pub proof fn computed_cleared_originals_are_rows(input: Sym, rho: Valuation)
    requires
        0 <= input.eval(rho) < laws::p(),
    ensures
        table_lookups::clear_original_sym(input).eval(rho) == tables::clear_original(
            input.eval(rho),
        ),
{
    vstd::arithmetic::power2::lemma2_to64();
    lemma_packed(input, rho);
    let limb = builder::lowest_bits(input, 16);
    let offset = builder::shifted_low_bits(input, 16, 2);
    let funct3 = builder::shifted_low_bits(input, 18, 3);
    let odd = builder::is_nonzero(builder::lowest_bits(offset, 1));
    integer_laws::lowest_bits_are_remainders(limb, 8, rho);
    laws::constants_have_their_value(0, rho);
    laws::constants_have_their_value(0xff00, rho);
    let x = limb.eval(rho) as u32;
    assert(x & 0xff00 == x - x % 256) by (bit_vector)
        requires
            x < 0x1_0000,
    ;
    let high = ir::felt2(FeltBinary::BitAnd, limb, ir::felt(0xff00));
    laws::binary_operations_work_on_values(FeltBinary::BitAnd, limb, ir::felt(0xff00), rho);
    laws::lemma_small(x - x % 256);
    lemma_select(odd, builder::lowest_bits(limb, 8), high, rho);
    lemma_is_constant(funct3, 0, rho);
    lemma_select(
        builder::is_constant(funct3, 0),
        ir::select(odd, builder::lowest_bits(limb, 8), high),
        ir::felt(0),
        rho,
    );
}

/// The computed output of `MemStoreClearWrittenValueLimb` is that of the table.
pub proof fn computed_cleared_writes_are_rows(input: Sym, rho: Valuation)
    requires
        0 <= input.eval(rho) < laws::p(),
    ensures
        table_lookups::clear_written_sym(input).eval(rho) == tables::clear_written(
            input.eval(rho),
        ),
{
    vstd::arithmetic::power2::lemma2_to64();
    lemma_packed(input, rho);
    let limb = builder::lowest_bits(input, 16);
    let offset = builder::shifted_low_bits(input, 16, 2);
    let funct3 = builder::shifted_low_bits(input, 18, 3);
    let odd = builder::is_nonzero(builder::lowest_bits(offset, 1));
    let byte = builder::lowest_bits(limb, 8);
    integer_laws::lowest_bits_are_remainders(limb, 8, rho);
    laws::constants_have_their_value(0, rho);
    laws::constants_have_their_value(8, rho);
    let moved = ir::felt2(FeltBinary::Shl, byte, ir::felt(8));
    laws::binary_operations_work_on_values(FeltBinary::Shl, byte, ir::felt(8), rho);
    laws::lemma_small(byte.eval(rho) * 256);
    lemma_select(odd, moved, byte, rho);
    lemma_is_constant(funct3, 0, rho);
    lemma_is_constant(funct3, 1, rho);
    let narrow = ir::select(odd, moved, byte);
    lemma_select(builder::is_constant(funct3, 0), narrow, ir::felt(0), rho);
    lemma_select(
        builder::is_constant(funct3, 1),
        limb,
        ir::select(builder::is_constant(funct3, 0), narrow, ir::felt(0)),
        rho,
    );
}

/// A lookup with a computed table number gives the outputs of the table that has the number.
pub proof fn dynamic_lookups_give_the_named_table(
    list: Seq<TableType>,
    chosen: int,
    ids: TableIds,
    table_id: Sym,
    inputs: Seq<Sym>,
    n: nat,
    k: nat,
    i: int,
    rho: Valuation,
)
    requires
        0 <= chosen < list.len(),
        0 <= i < n,
        forall|j: int| 0 <= j < list.len() ==> #[trigger] ids.id_of(list[j]) < laws::p(),
        forall|j: int|
            0 <= j < list.len() && j != chosen ==> #[trigger] ids.id_of(list[j]) != ids.id_of(
                list[chosen],
            ),
        table_id.eval(rho) == ids.id_of(list[chosen]),
    ensures
        table_lookups::dispatched(list, ids, table_id, inputs, n, k)[i].eval(rho)
            == table_lookups::finalized(
            table_lookups::computed_outputs(list[chosen], inputs),
            n,
        )[i].eval(rho),
    decreases list.len(),
{
    let front = list.drop_last();
    let table = list.last();
    let fallback = table_lookups::dispatched(front, ids, table_id, inputs, n, k);
    let candidate = table_lookups::finalized(
        table_lookups::computed_outputs(table, inputs),
        n,
    );
    let c = builder::is_constant(table_id, ids.id_of(table) as u64);
    lemma_is_constant(table_id, ids.id_of(table) as u64, rho);
    lemma_select(c, candidate[i], fallback[i], rho);
    if chosen < list.len() - 1 {
        assert(ids.id_of(list[list.len() - 1]) != ids.id_of(list[chosen]));
        assert forall|j: int| 0 <= j < front.len() implies #[trigger] ids.id_of(front[j])
            < laws::p() by {
            assert(ids.id_of(list[j]) < laws::p());
        }
        assert forall|j: int| 0 <= j < front.len() && j != chosen implies #[trigger] ids.id_of(
            front[j],
        ) != ids.id_of(front[chosen]) by {
            assert(ids.id_of(list[j]) != ids.id_of(list[chosen]));
        }
        dynamic_lookups_give_the_named_table(
            front,
            chosen,
            ids,
            table_id,
            inputs,
            n,
            k,
            i,
            rho,
        );
    }
}

/// Masked outputs are zero where the mask is not set, and unchanged elsewhere.
pub proof fn masked_outputs_vanish(mask: Sym, outputs: Seq<Sym>, i: int, rho: Valuation)
    requires
        0 <= i < outputs.len(),
    ensures
        table_lookups::masked(mask, outputs)[i].eval(rho) == (if mask.eval(rho) != 0 {
            outputs[i].eval(rho)
        } else {
            0
        }),
{
    lemma_select(mask, outputs[i], ir::felt(0), rho);
    laws::constants_have_their_value(0, rho);
}

} // verus!
