//! What the lookup tables hold, as functions from keys to outputs.
use vstd::prelude::*;

verus! {

/// `1` for true and `0` for false.
pub open spec fn flag(b: bool) -> int {
    if b {
        1
    } else {
        0
    }
}

/// Bit `i` of a number given as the power of two `w`.
pub open spec fn bit_at(x: int, w: int) -> int {
    (x / w) % 2
}

/// `ConditionalJmpBranchSlt`: the flag for packed comparison bits and a `funct3` code. The key
/// packs unsigned-less (1), equal (2), sign of the first (4) and sign of the second (8).
pub open spec fn branch_flag(bits: int, funct3: int) -> int {
    let unsigned_lt = bit_at(bits, 1) == 1;
    let eq = bit_at(bits, 2) == 1;
    let sign1 = bit_at(bits, 4) == 1;
    let sign2 = bit_at(bits, 8) == 1;
    let signed_lt = if sign1 != sign2 {
        sign1
    } else {
        unsigned_lt
    };
    flag(
        if funct3 == 0 {
            eq
        } else if funct3 == 1 {
            !eq
        } else if funct3 == 2 || funct3 == 4 {
            signed_lt
        } else if funct3 == 3 || funct3 == 6 {
            unsigned_lt
        } else if funct3 == 5 {
            !signed_lt
        } else {
            !unsigned_lt
        },
    )
}

/// `JumpCleanupOffset`: bit 1 of a limb, and the limb without its two low bits.
pub open spec fn jump_cleanup(limb: int) -> (int, int) {
    (bit_at(limb, 2), limb - limb % 4)
}

/// `RomAddressSpaceSeparator`: whether a high limb is past the ROM, and its ROM chunk.
pub open spec fn rom_separator(high: int) -> (int, int) {
    (flag(high >= 64), high % 64)
}

/// `MemoryGetOffsetAndMaskWithTrap`: the byte offset of an access, and a mask of
/// narrower-than-word (1), high limb (2) and trap (4).
///
/// The key packs a low address limb, `funct3` from bit 16, and from bit 17 and bit 18 whether
/// the access is a store and whether it loads into `x0`.
pub open spec fn offset_and_mask(key: int) -> (int, int) {
    let offset = key % 4;
    let funct3 = (key / 0x1_0000) % 8;
    let is_store = bit_at(key, 0x2_0000) == 1;
    let rd_is_x0 = bit_at(key, 0x4_0000) == 1;
    let is_word = funct3 == 2;
    let is_halfword = funct3 == 1 || funct3 == 5;
    let is_byte = funct3 == 0 || funct3 == 4;
    let less_than_word = is_halfword || is_byte;
    let misaligned = if is_word {
        offset != 0
    } else if is_halfword {
        offset % 2 != 0
    } else {
        !is_byte
    };
    let trap = misaligned && !((is_word || less_than_word) && !is_store && rd_is_x0);
    (offset, flag(less_than_word) + 2 * flag(offset >= 2) + 4 * flag(trap))
}

/// The limb, the offset within the word, and the `funct3` code of a packed store or load key.
pub open spec fn packed_limb(key: int) -> (int, int, int) {
    (key % 0x1_0000, (key / 0x1_0000) % 4, (key / 0x4_0000) % 8)
}

/// The byte of a limb that an offset addresses.
pub open spec fn byte_at(limb: int, offset: int) -> int {
    if offset % 2 == 0 {
        limb % 256
    } else {
        limb / 256
    }
}

/// `MemoryLoadHalfwordOrByte`: the two limbs of a loaded byte or halfword, sign extended for
/// the signed codes.
pub open spec fn load_subword(key: int) -> (int, int) {
    let (limb, offset, funct3) = packed_limb(key);
    let byte = byte_at(limb, offset);
    if funct3 == 1 {
        if offset % 2 != 0 {
            (0, 0)
        } else if limb >= 0x8000 {
            (limb, 0xffff)
        } else {
            (limb, 0)
        }
    } else if funct3 == 5 {
        if offset % 2 != 0 {
            (0, 0)
        } else {
            (limb, 0)
        }
    } else if funct3 == 0 {
        if byte >= 0x80 {
            (byte + 0xff00, 0xffff)
        } else {
            (byte, 0)
        }
    } else if funct3 == 4 {
        (byte, 0)
    } else {
        (0, 0)
    }
}

/// `MemStoreClearOriginalRamValueLimb`: the bytes of a limb that a store leaves.
pub open spec fn clear_original(key: int) -> int {
    let (limb, offset, funct3) = packed_limb(key);
    if funct3 == 0 {
        if offset % 2 != 0 {
            limb % 256
        } else {
            limb - limb % 256
        }
    } else {
        0
    }
}

/// `MemStoreClearWrittenValueLimb`: the contribution of a store to a limb.
pub open spec fn clear_written(key: int) -> int {
    let (limb, offset, funct3) = packed_limb(key);
    if funct3 == 1 {
        limb
    } else if funct3 == 0 {
        if offset % 2 != 0 {
            256 * (limb % 256)
        } else {
            limb % 256
        }
    } else {
        0
    }
}

/// A stored byte is what the written limb contributes to the limb with that byte cleared.
pub proof fn stored_byte_replaces_the_byte(old_limb: int, new_limb: int, offset: int)
    requires
        0 <= old_limb < 0x1_0000,
        0 <= new_limb < 0x1_0000,
        0 <= offset < 4,
    ensures
        ({
            let stored = clear_original(old_limb + 0x1_0000 * offset) + clear_written(
                new_limb + 0x1_0000 * offset,
            );
            &&& byte_at(stored, offset) == new_limb % 256
            &&& byte_at(stored, offset + 1) == byte_at(old_limb, offset + 1)
            &&& 0 <= stored < 0x1_0000
        }),
{
}

/// Loading the low halfword of a word and clearing a limb for a halfword store agree with
/// replacing the whole limb.
pub proof fn stored_halfword_replaces_the_limb(old_limb: int, new_limb: int, offset: int)
    requires
        0 <= old_limb < 0x1_0000,
        0 <= new_limb < 0x1_0000,
        0 <= offset < 4,
    ensures
        clear_original(old_limb + 0x1_0000 * offset + 0x4_0000) + clear_written(
            new_limb + 0x1_0000 * offset + 0x4_0000,
        ) == new_limb,
{
}

/// The number that a 32-bit word stands for as a signed one.
pub open spec fn signed_word(x: int) -> int {
    if x >= 0x8000_0000 {
        x - 0x1_0000_0000
    } else {
        x
    }
}

/// The key of two words: how they compare and their signs.
pub open spec fn comparison_key(x: int, y: int) -> int {
    flag(x < y) + 2 * flag(x == y) + 4 * flag(x >= 0x8000_0000) + 8 * flag(y >= 0x8000_0000)
}

/// The flag for two words is the condition of the instruction with that code: equality, its
/// negation, signed and unsigned comparison and their negations, and the two set-less-than
/// instructions.
pub proof fn branch_flags_are_the_conditions_of_instructions(x: int, y: int)
    requires
        0 <= x < 0x1_0000_0000,
        0 <= y < 0x1_0000_0000,
    ensures
        ({
            let key = comparison_key(x, y);
            &&& branch_flag(key, 0) == flag(x == y)
            &&& branch_flag(key, 1) == flag(x != y)
            &&& branch_flag(key, 2) == flag(signed_word(x) < signed_word(y))
            &&& branch_flag(key, 3) == flag(x < y)
            &&& branch_flag(key, 4) == flag(signed_word(x) < signed_word(y))
            &&& branch_flag(key, 5) == flag(signed_word(x) >= signed_word(y))
            &&& branch_flag(key, 6) == flag(x < y)
            &&& branch_flag(key, 7) == flag(x >= y)
        }),
{
    let key = comparison_key(x, y);
    assert((bit_at(key, 1) == 1) == (x < y));
    assert((bit_at(key, 2) == 1) == (x == y));
    assert((bit_at(key, 4) == 1) == (x >= 0x8000_0000));
    assert((bit_at(key, 8) == 1) == (y >= 0x8000_0000));
}

/// A cleaned-up limb is the largest multiple of four that is not past the limb, and the flag tells
/// whether it was misaligned by a halfword.
pub proof fn cleaned_up_limbs_are_aligned(limb: int)
    requires
        0 <= limb < 0x1_0000,
    ensures
        jump_cleanup(limb).1 % 4 == 0,
        jump_cleanup(limb).1 <= limb < jump_cleanup(limb).1 + 4,
        jump_cleanup(limb).1 + 2 * jump_cleanup(limb).0 + limb % 2 == limb,
        0 <= jump_cleanup(limb).0 <= 1,
{
}

/// An address is in the ROM exactly where its high limb is not past it, and there the chunk is the high
/// limb.
pub proof fn rom_addresses_are_separated(high: int, low: int)
    requires
        0 <= high < 0x1_0000,
        0 <= low < 0x1_0000,
    ensures
        rom_separator(high).0 == 0 <==> 0x1_0000 * high + low < 0x40_0000,
        rom_separator(high).0 == 0 || rom_separator(high).0 == 1,
        rom_separator(high).0 == 0 ==> rom_separator(high).1 == high,
        0 <= rom_separator(high).1 < 64,
        (high - rom_separator(high).1) % 64 == 0,
{
}

/// The offset of an access is its address within the word; the mask tells a byte or a halfword from a
/// word, and the high limb from the low one; and a misaligned word or signed halfword, or a code that is
/// no access, traps.
pub proof fn masks_describe_the_access(low: int, funct3: int)
    requires
        0 <= low < 0x1_0000,
        0 <= funct3 < 8,
    ensures
        ({
            let (offset, mask) = offset_and_mask(low + 0x1_0000 * funct3);
            &&& offset == low % 4
            &&& 0 <= mask < 8
            &&& mask % 2 == 1 <==> funct3 == 0 || funct3 == 1 || funct3 == 4 || funct3 == 5
            &&& (mask / 2) % 2 == 1 <==> low % 4 >= 2
            &&& funct3 == 0 || funct3 == 4 ==> mask < 4
            &&& funct3 == 1 ==> (mask >= 4 <==> low % 2 != 0)
            &&& funct3 == 2 ==> (mask >= 4 <==> low % 4 != 0)
            &&& funct3 == 3 || funct3 == 6 || funct3 == 7 ==> mask >= 4
        }),
{
    let key = low + 0x1_0000 * funct3;
    assert(key % 4 == low % 4);
    assert((key / 0x1_0000) % 8 == funct3);
    assert(bit_at(key, 0x2_0000) == (funct3 / 2) % 2) by {
        assert(key / 0x2_0000 == funct3 / 2);
    }
    assert(bit_at(key, 0x4_0000) == (funct3 / 4) % 2) by {
        assert(key / 0x4_0000 == funct3 / 4);
    }
    let offset = low % 4;
    assert(offset % 2 == low % 2);
}

/// What is loaded is the addressed byte or halfword as a word: the unsigned codes fill it up with
/// zeros, and the signed ones keep the signed number.
pub proof fn loads_extend_what_is_addressed(limb: int, offset: int)
    requires
        0 <= limb < 0x1_0000,
        0 <= offset < 4,
    ensures
        ({
            let at = limb + 0x1_0000 * offset;
            let byte = if offset % 2 == 0 {
                limb % 256
            } else {
                limb / 256
            };
            let signed_byte = load_subword(at);
            let halfword = load_subword(at + 0x4_0000 * 1);
            let unsigned_byte = load_subword(at + 0x4_0000 * 4);
            let unsigned_halfword = load_subword(at + 0x4_0000 * 5);
            &&& signed_word(signed_byte.0 + 0x1_0000 * signed_byte.1) == if byte >= 128 {
                byte - 256
            } else {
                byte
            }
            &&& unsigned_byte == (byte, 0int)
            &&& offset % 2 == 0 ==> unsigned_halfword == (limb, 0int)
            &&& offset % 2 == 0 ==> signed_word(halfword.0 + 0x1_0000 * halfword.1) == if limb
                >= 0x8000 {
                limb - 0x1_0000
            } else {
                limb
            }
            &&& 0 <= signed_byte.0 < 0x1_0000 && 0 <= signed_byte.1 < 0x1_0000
            &&& 0 <= halfword.0 < 0x1_0000 && 0 <= halfword.1 < 0x1_0000
        }),
{
    let at = limb + 0x1_0000 * offset;
    assert(packed_limb(at) == (limb, offset, 0int));
    assert(packed_limb(at + 0x4_0000 * 1) == (limb, offset, 1int));
    assert(packed_limb(at + 0x4_0000 * 4) == (limb, offset, 4int));
    assert(packed_limb(at + 0x4_0000 * 5) == (limb, offset, 5int));
}

} // verus!
