//! Integer terms compute what machine integers do.
use vstd::prelude::*;

use crate::circuit::CHARACTERISTICS;
use crate::llzk::builder;
use crate::llzk::integers;
use crate::llzk::integers::IntSym;
use crate::llzk::ir;
use crate::llzk::ir::BoolBinary;
use crate::llzk::ir::Comparison;
use crate::llzk::ir::FeltBinary;
use crate::llzk::ir::Sym;
use crate::llzk::ir::Valuation;
use crate::llzk::laws;

verus! {

/// The number that an integer stands for.
pub open spec fn value(v: IntSym, rho: Valuation) -> int {
    match v {
        IntSym::U8(s) => s.eval(rho),
        IntSym::U16(s) => s.eval(rho),
        IntSym::U32(l, h) => l.eval(rho) + 0x1_0000 * h.eval(rho),
    }
}

/// Whether the limbs of an integer fit their widths.
pub open spec fn fits(v: IntSym, rho: Valuation) -> bool {
    match v {
        IntSym::U8(s) => 0 <= s.eval(rho) < 0x100,
        IntSym::U16(s) => 0 <= s.eval(rho) < 0x1_0000,
        IntSym::U32(l, h) => 0 <= l.eval(rho) < 0x1_0000 && 0 <= h.eval(rho) < 0x1_0000,
    }
}

/// `2^width`
pub open spec fn modulus(v: IntSym) -> int {
    match v {
        IntSym::U8(_) => 0x100,
        IntSym::U16(_) => 0x1_0000,
        IntSym::U32(_, _) => 0x1_0000_0000,
    }
}

proof fn lemma_two_power(n: u32)
    requires
        n <= 31,
    ensures
        1u64 << n == vstd::arithmetic::power2::pow2(n as nat),
        1 <= vstd::arithmetic::power2::pow2(n as nat) <= 0x8000_0000,
        n <= 30 ==> vstd::arithmetic::power2::pow2(n as nat) <= 0x4000_0000,
        n <= 16 ==> vstd::arithmetic::power2::pow2(n as nat) <= 0x1_0000,
{
    vstd::bits::lemma_u64_pow2_no_overflow(n as nat);
    vstd::bits::lemma_u64_shl_is_mul(1, n as u64);
    vstd::arithmetic::power2::lemma2_to64();
    vstd::arithmetic::power2::lemma_pow2_pos(n as nat);
    if n < 31 {
        vstd::arithmetic::power2::lemma_pow2_strictly_increases(n as nat, 31);
    }
    if n < 30 {
        vstd::arithmetic::power2::lemma_pow2_strictly_increases(n as nat, 30);
    }
    if n < 16 {
        vstd::arithmetic::power2::lemma_pow2_strictly_increases(n as nat, 16);
    }
}

/// The lowest bits of a field value are its remainder.
pub proof fn lowest_bits_are_remainders(s: Sym, bits: u32, rho: Valuation)
    requires
        bits <= 30,
        0 <= s.eval(rho),
    ensures
        builder::lowest_bits(s, bits).eval(rho) == s.eval(rho) % (
        vstd::arithmetic::power2::pow2(bits as nat) as int),
        0 <= builder::lowest_bits(s, bits).eval(rho) < vstd::arithmetic::power2::pow2(bits as nat),
{
    lemma_two_power(bits);
    if bits == 0 {
        vstd::arithmetic::power2::lemma2_to64();
        laws::constants_have_their_value(0, rho);
    } else {
        laws::constants_have_their_value(1u64 << bits, rho);
        laws::binary_operations_work_on_values(
            FeltBinary::Umod,
            s,
            ir::felt(1u64 << bits),
            rho,
        );
    }
}

proof fn lemma_compare(op: Comparison, a: Sym, b: Sym, rho: Valuation)
    ensures
        ir::compare(op, a, b).eval(rho) == ir::truth(
            ir::comparison_value(op, a.eval(rho), b.eval(rho)),
        ),
{
    reveal(Sym::eval);
}

proof fn lemma_select(c: Sym, a: Sym, b: Sym, rho: Valuation)
    ensures
        ir::select(c, a, b).eval(rho) == (if c.eval(rho) != 0 {
            a.eval(rho)
        } else {
            b.eval(rho)
        }),
{
    reveal(Sym::eval);
}

proof fn lemma_bool(op: BoolBinary, a: Sym, b: Sym, rho: Valuation)
    ensures
        ir::bool2(op, a, b).eval(rho) == ir::truth(
            if op == BoolBinary::And {
                a.eval(rho) != 0 && b.eval(rho) != 0
            } else {
                a.eval(rho) != 0 || b.eval(rho) != 0
            },
        ),
{
    reveal(Sym::eval);
}

/// A boolean in the field is zero or one.
pub proof fn booleans_in_the_field(s: Sym, rho: Valuation)
    ensures
        builder::to_field(s).eval(rho) == ir::truth(s.eval(rho) != 0),
{
    lemma_select(s, ir::felt(1), ir::felt(0), rho);
    laws::constants_have_their_value(1, rho);
    laws::constants_have_their_value(0, rho);
}

proof fn lemma_small_sum(a: Sym, b: Sym, width: u32, rho: Valuation)
    requires
        width == 8 || width == 16,
        0 <= a.eval(rho) < (1u64 << width),
        0 <= b.eval(rho) <= (1u64 << width),
    ensures
        ({
            let m = (1u64 << width) as int;
            let (sum, carry) = integers::small_sum(a, b, width);
            &&& m == vstd::arithmetic::power2::pow2(width as nat)
            &&& sum.eval(rho) == (a.eval(rho) + b.eval(rho)) % m
            &&& carry.eval(rho) == ir::truth(a.eval(rho) + b.eval(rho) >= m)
        }),
{
    lemma_two_power(width);
    let sum = ir::felt2(FeltBinary::Add, a, b);
    laws::binary_operations_work_on_values(FeltBinary::Add, a, b, rho);
    laws::lemma_small(a.eval(rho) + b.eval(rho));
    laws::constants_have_their_value(1u64 << width, rho);
    lemma_compare(Comparison::Ge, sum, ir::felt(1u64 << width), rho);
    lowest_bits_are_remainders(sum, width, rho);
}

proof fn lemma_small_difference(a: Sym, b: Sym, width: u32, rho: Valuation)
    requires
        width == 8 || width == 16,
        0 <= a.eval(rho) < (1u64 << width),
        0 <= b.eval(rho) <= (1u64 << width),
    ensures
        ({
            let m = (1u64 << width) as int;
            let (difference, borrow) = integers::small_difference(a, b, width);
            &&& m == vstd::arithmetic::power2::pow2(width as nat)
            &&& difference.eval(rho) == (a.eval(rho) - b.eval(rho)) % m
            &&& borrow.eval(rho) == ir::truth(a.eval(rho) < b.eval(rho))
        }),
{
    lemma_two_power(width);
    let m = (1u64 << width) as int;
    let x = a.eval(rho);
    let y = b.eval(rho);
    let raised = ir::felt2(FeltBinary::Add, a, ir::felt(1u64 << width));
    laws::constants_have_their_value(1u64 << width, rho);
    laws::binary_operations_work_on_values(FeltBinary::Add, a, ir::felt(1u64 << width), rho);
    laws::lemma_small(x + m);
    laws::binary_operations_work_on_values(FeltBinary::Sub, raised, b, rho);
    laws::lemma_small(x + m - y);
    laws::binary_operations_work_on_values(FeltBinary::Sub, a, b, rho);
    let borrow = ir::compare(Comparison::Lt, a, b);
    lemma_compare(Comparison::Lt, a, b, rho);
    lemma_select(
        borrow,
        ir::felt2(FeltBinary::Sub, raised, b),
        ir::felt2(FeltBinary::Sub, a, b),
        rho,
    );
    if x < y {
        assert((x - y) % m == x + m - y) by {
            vstd::arithmetic::div_mod::lemma_mod_add_multiples_vanish(x - y, m);
            vstd::arithmetic::div_mod::lemma_small_mod((x + m - y) as nat, m as nat);
        }
    } else {
        laws::lemma_small(x - y);
        vstd::arithmetic::div_mod::lemma_small_mod((x - y) as nat, m as nat);
    }
}

/// Adding integers wraps around at their width, with the carry as the flag.
pub proof fn sums_wrap_around(a: IntSym, b: IntSym, rho: Valuation)
    requires
        a.width() == b.width(),
        fits(a, rho),
        fits(b, rho),
    ensures
        integers::sum_sym(a, b) is Ok,
        ({
            let (sum, carry) = integers::sum_sym(a, b)->Ok_0;
            let total = value(a, rho) + value(b, rho);
            &&& sum.width() == a.width()
            &&& fits(sum, rho)
            &&& value(sum, rho) == total % modulus(a)
            &&& carry.eval(rho) == ir::truth(total >= modulus(a))
        }),
{
    vstd::arithmetic::power2::lemma2_to64();
    lemma_two_power(8);
    lemma_two_power(16);
    match (a, b) {
        (IntSym::U8(x), IntSym::U8(y)) => {
            lemma_small_sum(x, y, 8, rho);
        },
        (IntSym::U16(x), IntSym::U16(y)) => {
            lemma_small_sum(x, y, 16, rho);
        },
        (IntSym::U32(xl, xh), IntSym::U32(yl, yh)) => {
            lemma_small_sum(xl, yl, 16, rho);
            let (low, carry) = integers::small_sum(xl, yl, 16);
            booleans_in_the_field(carry, rho);
            let high_rhs = ir::felt2(FeltBinary::Add, yh, builder::to_field(carry));
            laws::binary_operations_work_on_values(
                FeltBinary::Add,
                yh,
                builder::to_field(carry),
                rho,
            );
            laws::lemma_small(yh.eval(rho) + builder::to_field(carry).eval(rho));
            lemma_small_sum(xh, high_rhs, 16, rho);
        },
        _ => {},
    }
}

/// Subtracting integers wraps around at their width, with the borrow as the flag.
pub proof fn differences_wrap_around(a: IntSym, b: IntSym, rho: Valuation)
    requires
        a.width() == b.width(),
        fits(a, rho),
        fits(b, rho),
    ensures
        integers::difference_sym(a, b) is Ok,
        ({
            let (difference, borrow) = integers::difference_sym(a, b)->Ok_0;
            &&& difference.width() == a.width()
            &&& fits(difference, rho)
            &&& value(difference, rho) == (value(a, rho) - value(b, rho)) % modulus(a)
            &&& borrow.eval(rho) == ir::truth(value(a, rho) < value(b, rho))
        }),
{
    vstd::arithmetic::power2::lemma2_to64();
    lemma_two_power(8);
    lemma_two_power(16);
    match (a, b) {
        (IntSym::U8(x), IntSym::U8(y)) => {
            lemma_small_difference(x, y, 8, rho);
        },
        (IntSym::U16(x), IntSym::U16(y)) => {
            lemma_small_difference(x, y, 16, rho);
        },
        (IntSym::U32(xl, xh), IntSym::U32(yl, yh)) => {
            lemma_small_difference(xl, yl, 16, rho);
            let (low, borrow) = integers::small_difference(xl, yl, 16);
            booleans_in_the_field(borrow, rho);
            let high_rhs = ir::felt2(FeltBinary::Add, yh, builder::to_field(borrow));
            laws::binary_operations_work_on_values(
                FeltBinary::Add,
                yh,
                builder::to_field(borrow),
                rho,
            );
            laws::lemma_small(yh.eval(rho) + builder::to_field(borrow).eval(rho));
            lemma_small_difference(xh, high_rhs, 16, rho);
        },
        _ => {},
    }
}

/// An integer in the field is its number, modulo the characteristic.
pub proof fn integers_in_the_field(v: IntSym, rho: Valuation)
    requires
        fits(v, rho),
    ensures
        integers::to_field_sym(v).eval(rho) == value(v, rho) % laws::p(),
{
    match v {
        IntSym::U8(s) => {
            laws::lemma_small(s.eval(rho));
        },
        IntSym::U16(s) => {
            laws::lemma_small(s.eval(rho));
        },
        IntSym::U32(l, h) => {
            let m = ir::felt(integers::U16_MODULUS);
            let scaled = ir::felt2(FeltBinary::Mul, h, m);
            laws::constants_have_their_value(integers::U16_MODULUS, rho);
            laws::binary_operations_work_on_values(FeltBinary::Mul, h, m, rho);
            laws::binary_operations_work_on_values(FeltBinary::Add, l, scaled, rho);
            vstd::arithmetic::div_mod::lemma_add_mod_noop_right(
                l.eval(rho),
                h.eval(rho) * 0x1_0000,
                laws::p(),
            );
        },
    }
}

/// A field value as a 32-bit integer keeps its number.
pub proof fn field_values_as_integers(s: Sym, rho: Valuation)
    requires
        0 <= s.eval(rho) < laws::p(),
    ensures
        fits(integers::from_field_sym(s), rho),
        value(integers::from_field_sym(s), rho) == s.eval(rho),
{
    let m = ir::felt(integers::U16_MODULUS);
    laws::constants_have_their_value(integers::U16_MODULUS, rho);
    laws::binary_operations_work_on_values(FeltBinary::Uintdiv, s, m, rho);
    lowest_bits_are_remainders(s, 16, rho);
    vstd::arithmetic::power2::lemma2_to64();
}

/// A 32-bit constant has its value.
pub proof fn integer_constants_have_their_value(c: u32, rho: Valuation)
    ensures
        fits(integers::u32_constant_sym(c), rho),
        value(integers::u32_constant_sym(c), rho) == c,
{
    assert((c & 0xffff) < 0x1_0000 && (c >> 16) < 0x1_0000 && (c & 0xffff) + 0x1_0000 * (c >> 16)
        == c) by (bit_vector);
    laws::constants_have_their_value((c & 0xffff) as u64, rho);
    laws::constants_have_their_value((c >> 16) as u64, rho);
}

/// Two integers are found equal exactly where their numbers are.
pub proof fn equalities_compare_numbers(a: IntSym, b: IntSym, rho: Valuation)
    requires
        a.width() == b.width(),
        fits(a, rho),
        fits(b, rho),
    ensures
        integers::equal_sym(a, b) is Ok,
        integers::equal_sym(a, b)->Ok_0.eval(rho) == ir::truth(value(a, rho) == value(b, rho)),
{
    match (a, b) {
        (IntSym::U8(x), IntSym::U8(y)) => {
            lemma_compare(Comparison::Eq, x, y, rho);
        },
        (IntSym::U16(x), IntSym::U16(y)) => {
            lemma_compare(Comparison::Eq, x, y, rho);
        },
        (IntSym::U32(xl, xh), IntSym::U32(yl, yh)) => {
            lemma_compare(Comparison::Eq, xl, yl, rho);
            lemma_compare(Comparison::Eq, xh, yh, rho);
            lemma_bool(
                BoolBinary::And,
                ir::compare(Comparison::Eq, xl, yl),
                ir::compare(Comparison::Eq, xh, yh),
                rho,
            );
        },
        _ => {},
    }
}

/// A field value is found nonzero exactly where it is.
pub proof fn nonzero_values_are_found(s: Sym, rho: Valuation)
    ensures
        builder::is_nonzero(s).eval(rho) == ir::truth(s.eval(rho) != 0),
{
    laws::constants_have_their_value(0, rho);
    lemma_compare(Comparison::Ne, s, ir::felt(0), rho);
}

/// An integer is found nonzero exactly where its number is.
pub proof fn nonzero_integers_are_found(a: IntSym, rho: Valuation)
    requires
        fits(a, rho),
    ensures
        integers::nonzero_sym(a).eval(rho) == ir::truth(value(a, rho) != 0),
{
    match a {
        IntSym::U8(x) => {
            nonzero_values_are_found(x, rho);
        },
        IntSym::U16(x) => {
            nonzero_values_are_found(x, rho);
        },
        IntSym::U32(l, h) => {
            nonzero_values_are_found(l, rho);
            nonzero_values_are_found(h, rho);
            lemma_bool(BoolBinary::Or, builder::is_nonzero(l), builder::is_nonzero(h), rho);
        },
    }
}

/// A selection gives one of its integers.
pub proof fn selections_give_one_integer(c: Sym, a: IntSym, b: IntSym, rho: Valuation)
    requires
        a.width() == b.width(),
        fits(a, rho),
        fits(b, rho),
    ensures
        integers::select_sym(c, a, b) is Ok,
        integers::select_sym(c, a, b)->Ok_0.width() == a.width(),
        fits(integers::select_sym(c, a, b)->Ok_0, rho),
        value(integers::select_sym(c, a, b)->Ok_0, rho) == (if c.eval(rho) != 0 {
            value(a, rho)
        } else {
            value(b, rho)
        }),
{
    match (a, b) {
        (IntSym::U8(x), IntSym::U8(y)) => {
            lemma_select(c, x, y, rho);
        },
        (IntSym::U16(x), IntSym::U16(y)) => {
            lemma_select(c, x, y, rho);
        },
        (IntSym::U32(xl, xh), IntSym::U32(yl, yh)) => {
            lemma_select(c, xl, yl, rho);
            lemma_select(c, xh, yh, rho);
        },
        _ => {},
    }
}

/// The lowest bits of an integer are the remainder of its number.
pub proof fn lowest_bits_of_integers_are_remainders(a: IntSym, num_bits: u32, rho: Valuation)
    requires
        fits(a, rho),
    ensures
        integers::lowest_bits_sym(a, num_bits).width() == a.width(),
        fits(integers::lowest_bits_sym(a, num_bits), rho),
        value(integers::lowest_bits_sym(a, num_bits), rho) == value(a, rho) % (
        vstd::arithmetic::power2::pow2(integers::at_most(num_bits, a.width() as u32) as nat)
            as int),
{
    vstd::arithmetic::power2::lemma2_to64();
    match a {
        IntSym::U8(x) => {
            let n = integers::at_most(num_bits, 8);
            lowest_bits_are_remainders(x, n, rho);
            if n < 8 {
                vstd::arithmetic::power2::lemma_pow2_strictly_increases(n as nat, 8);
            }
        },
        IntSym::U16(x) => {
            let n = integers::at_most(num_bits, 16);
            lowest_bits_are_remainders(x, n, rho);
            if n < 16 {
                vstd::arithmetic::power2::lemma_pow2_strictly_increases(n as nat, 16);
            }
        },
        IntSym::U32(l, h) => {
            let x = l.eval(rho);
            let y = h.eval(rho);
            laws::constants_have_their_value(0, rho);
            if num_bits >= 32 {
                vstd::arithmetic::div_mod::lemma_small_mod(
                    value(a, rho) as nat,
                    0x1_0000_0000,
                );
            } else if num_bits <= 16 {
                lowest_bits_are_remainders(l, num_bits, rho);
                let m = vstd::arithmetic::power2::pow2(num_bits as nat) as int;
                let q = vstd::arithmetic::power2::pow2((16 - num_bits) as nat) as int;
                vstd::arithmetic::power2::lemma_pow2_pos(num_bits as nat);
                vstd::arithmetic::power2::lemma_pow2_adds(
                    num_bits as nat,
                    (16 - num_bits) as nat,
                );
                if num_bits < 16 {
                    vstd::arithmetic::power2::lemma_pow2_strictly_increases(num_bits as nat, 16);
                }
                assert(0x1_0000 * y == m * (q * y)) by (nonlinear_arith)
                    requires
                        m * q == 0x1_0000,
                {
                }
                vstd::arithmetic::div_mod::lemma_mod_multiples_vanish(q * y, x, m);
                assert((x + 0x1_0000 * y) % m == x % m);
            } else {
                let n = (num_bits - 16) as u32;
                lowest_bits_are_remainders(h, n, rho);
                let m = vstd::arithmetic::power2::pow2(n as nat) as int;
                vstd::arithmetic::power2::lemma_pow2_pos(n as nat);
                vstd::arithmetic::power2::lemma_pow2_adds(n as nat, 16);
                vstd::arithmetic::power2::lemma_pow2_strictly_increases(n as nat, 16);
                let q = y / m;
                vstd::arithmetic::div_mod::lemma_fundamental_div_mod(y, m);
                let r = y % m;
                assert(x + 0x1_0000 * y == (m * 0x1_0000) * q + (x + 0x1_0000 * r))
                    by (nonlinear_arith)
                    requires
                        y == m * q + r,
                {
                }
                let w = m * 0x1_0000;
                vstd::arithmetic::div_mod::lemma_mod_multiples_vanish(
                    q,
                    x + 0x1_0000 * r,
                    w,
                );
                vstd::arithmetic::div_mod::lemma_small_mod(
                    (x + 0x1_0000 * r) as nat,
                    w as nat,
                );
                assert((x + 0x1_0000 * y) % w == x + 0x1_0000 * r);
            }
        },
    }
}

/// The machine operation behind a bitwise field operation.
pub open spec fn bitwise_value(op: FeltBinary, a: u32, b: u32) -> u32 {
    match op {
        FeltBinary::BitAnd => a & b,
        FeltBinary::BitOr => a | b,
        _ => a ^ b,
    }
}

proof fn lemma_bitwise(op: FeltBinary, a: Sym, b: Sym, bound: u32, rho: Valuation)
    requires
        op == FeltBinary::BitAnd || op == FeltBinary::BitOr || op == FeltBinary::BitXor,
        bound == 0x100 || bound == 0x1_0000,
        0 <= a.eval(rho) < bound,
        0 <= b.eval(rho) < bound,
    ensures
        ir::felt2(op, a, b).eval(rho) == bitwise_value(op, a.eval(rho) as u32, b.eval(rho) as u32),
        0 <= ir::felt2(op, a, b).eval(rho) < bound,
{
    let x = a.eval(rho) as u32;
    let y = b.eval(rho) as u32;
    assert((x & y) < bound && (x | y) < bound && (x ^ y) < bound) by (bit_vector)
        requires
            bound == 0x100 || bound == 0x1_0000,
            x < bound,
            y < bound,
    ;
    laws::binary_operations_work_on_values(op, a, b, rho);
    laws::lemma_small((x & y) as int);
    laws::lemma_small((x | y) as int);
    laws::lemma_small((x ^ y) as int);
}

/// Bitwise operations on integers are those of the machine.
pub proof fn bitwise_operations_are_those_of_the_machine(
    op: FeltBinary,
    a: IntSym,
    b: IntSym,
    rho: Valuation,
)
    requires
        op == FeltBinary::BitAnd || op == FeltBinary::BitOr || op == FeltBinary::BitXor,
        a.width() == b.width(),
        fits(a, rho),
        fits(b, rho),
    ensures
        integers::bitwise_sym(op, a, b) is Ok,
        integers::bitwise_sym(op, a, b)->Ok_0.width() == a.width(),
        fits(integers::bitwise_sym(op, a, b)->Ok_0, rho),
        value(integers::bitwise_sym(op, a, b)->Ok_0, rho) == bitwise_value(
            op,
            value(a, rho) as u32,
            value(b, rho) as u32,
        ),
{
    match (a, b) {
        (IntSym::U8(x), IntSym::U8(y)) => {
            lemma_bitwise(op, x, y, 0x100, rho);
        },
        (IntSym::U16(x), IntSym::U16(y)) => {
            lemma_bitwise(op, x, y, 0x1_0000, rho);
        },
        (IntSym::U32(xl, xh), IntSym::U32(yl, yh)) => {
            lemma_bitwise(op, xl, yl, 0x1_0000, rho);
            lemma_bitwise(op, xh, yh, 0x1_0000, rho);
            let al = xl.eval(rho) as u32;
            let ah = xh.eval(rho) as u32;
            let bl = yl.eval(rho) as u32;
            let bh = yh.eval(rho) as u32;
            let av = (al + 0x1_0000 * ah) as u32;
            let bv = (bl + 0x1_0000 * bh) as u32;
            assert((al & bl) + 0x1_0000 * (ah & bh) == av & bv && (al | bl) + 0x1_0000 * (ah | bh)
                == av | bv && (al ^ bl) + 0x1_0000 * (ah ^ bh) == av ^ bv) by (bit_vector)
                requires
                    al < 0x1_0000,
                    ah < 0x1_0000,
                    bl < 0x1_0000,
                    bh < 0x1_0000,
                    av == al + 0x1_0000 * ah,
                    bv == bl + 0x1_0000 * bh,
            ;
        },
        _ => {},
    }
}

proof fn lemma_complement(s: Sym, mask: u64, rho: Valuation)
    requires
        mask == 0xff || mask == 0xffff,
        0 <= s.eval(rho) <= mask,
    ensures
        ir::felt2(FeltBinary::BitXor, s, ir::felt(mask)).eval(rho) == mask - s.eval(rho),
{
    let x = s.eval(rho) as u32;
    let m = mask as u32;
    laws::constants_have_their_value(mask, rho);
    lemma_bitwise(FeltBinary::BitXor, s, ir::felt(mask), (m + 1) as u32, rho);
    assert((x ^ m) == m - x) by (bit_vector)
        requires
            m == 0xff || m == 0xffff,
            x <= m,
    ;
}

/// The complement of an integer is its distance from the largest number of its width.
pub proof fn complements_are_distances(a: IntSym, rho: Valuation)
    requires
        fits(a, rho),
    ensures
        integers::not_sym(a).width() == a.width(),
        fits(integers::not_sym(a), rho),
        value(integers::not_sym(a), rho) == modulus(a) - 1 - value(a, rho),
{
    match a {
        IntSym::U8(x) => {
            lemma_complement(x, 0xff, rho);
        },
        IntSym::U16(x) => {
            lemma_complement(x, 0xffff, rho);
        },
        IntSym::U32(l, h) => {
            lemma_complement(l, 0xffff, rho);
            lemma_complement(h, 0xffff, rho);
        },
    }
}

proof fn lemma_shr(s: Sym, amount: u32, rho: Valuation)
    requires
        0 <= s.eval(rho),
        amount < CHARACTERISTICS,
    ensures
        integers::shifted(FeltBinary::Shr, s, amount).eval(rho) == s.eval(rho) / (
        vstd::arithmetic::power2::pow2(amount as nat) as int),
        0 <= integers::shifted(FeltBinary::Shr, s, amount).eval(rho) <= s.eval(rho),
{
    laws::constants_have_their_value(amount as u64, rho);
    laws::binary_operations_work_on_values(FeltBinary::Shr, s, ir::felt(amount as u64), rho);
    vstd::arithmetic::power2::lemma_pow2_pos(amount as nat);
    let m = vstd::arithmetic::power2::pow2(amount as nat) as int;
    vstd::arithmetic::div_mod::lemma_div_pos_is_pos(s.eval(rho), m);
    vstd::arithmetic::div_mod::lemma_div_is_ordered_by_denominator(s.eval(rho), 1, m);
    vstd::arithmetic::div_mod::lemma_div_basics(s.eval(rho));
}

proof fn lemma_shl(s: Sym, amount: u32, rho: Valuation)
    requires
        0 <= s.eval(rho),
        amount < 32,
        s.eval(rho) * vstd::arithmetic::power2::pow2(amount as nat) < laws::p(),
    ensures
        integers::shifted(FeltBinary::Shl, s, amount).eval(rho) == s.eval(rho)
            * vstd::arithmetic::power2::pow2(amount as nat),
{
    laws::constants_have_their_value(amount as u64, rho);
    laws::binary_operations_work_on_values(FeltBinary::Shl, s, ir::felt(amount as u64), rho);
    vstd::arithmetic::power2::lemma_pow2_pos(amount as nat);
    assert(0 <= s.eval(rho) * vstd::arithmetic::power2::pow2(amount as nat)) by (nonlinear_arith)
        requires
            0 <= s.eval(rho),
    {
    }
    laws::lemma_small(s.eval(rho) * vstd::arithmetic::power2::pow2(amount as nat));
}

proof fn lemma_shift_right_limbs(l: u32, h: u32, m: u32)
    requires
        l < 0x1_0000,
        h < 0x1_0000,
        1 <= m < 16,
    ensures
        ({
            let v = (l + 0x1_0000 * h) as u32;
            let low = (l >> m) | ((h & (((1u64 << m) - 1) as u64) as u32) << ((16 - m) as u32));
            &&& (h & (((1u64 << m) - 1) as u64) as u32) < (1u64 << m)
            &&& low < 0x1_0000
            &&& (h >> m) < 0x1_0000
            &&& ((h & (((1u64 << m) - 1) as u64) as u32) << ((16 - m) as u32)) < 0x1_0000
            &&& low + 0x1_0000 * (h >> m) == v >> m
        }),
{
    assert({
        let v = (l + 0x1_0000 * h) as u32;
        let low = (l >> m) | ((h & (((1u64 << m) - 1) as u64) as u32) << ((16 - m) as u32));
        &&& (h & (((1u64 << m) - 1) as u64) as u32) < (1u64 << m)
        &&& low < 0x1_0000
        &&& (h >> m) < 0x1_0000
        &&& ((h & (((1u64 << m) - 1) as u64) as u32) << ((16 - m) as u32)) < 0x1_0000
        &&& low + 0x1_0000 * (h >> m) == v >> m
    }) by (bit_vector)
        requires
            l < 0x1_0000,
            h < 0x1_0000,
            1 <= m < 16,
    ;
}

proof fn lemma_shift_left_limbs(l: u32, h: u32, m: u32)
    requires
        l < 0x1_0000,
        h < 0x1_0000,
        1 <= m < 16,
    ensures
        ({
            let v = (l + 0x1_0000 * h) as u32;
            let low = (l << m) % 0x1_0000;
            let high = ((h << m) % 0x1_0000) | (l >> ((16 - m) as u32));
            &&& high < 0x1_0000
            &&& (l >> ((16 - m) as u32)) < 0x1_0000
            &&& low + 0x1_0000 * high == v << m
        }),
{
    assert({
        let v = (l + 0x1_0000 * h) as u32;
        let low = (l << m) % 0x1_0000;
        let high = ((h << m) % 0x1_0000) | (l >> ((16 - m) as u32));
        &&& high < 0x1_0000
        &&& (l >> ((16 - m) as u32)) < 0x1_0000
        &&& low + 0x1_0000 * high == v << m
    }) by (bit_vector)
        requires
            l < 0x1_0000,
            h < 0x1_0000,
            1 <= m < 16,
    ;
}

/// A right shift divides the number by a power of two.
pub proof fn right_shifts_divide(a: IntSym, magnitude: u32, rho: Valuation)
    requires
        fits(a, rho),
        magnitude < CHARACTERISTICS,
    ensures
        integers::shift_right_sym(a, magnitude).width() == a.width(),
        fits(integers::shift_right_sym(a, magnitude), rho),
        value(integers::shift_right_sym(a, magnitude), rho) == value(a, rho) / (
        vstd::arithmetic::power2::pow2(magnitude as nat) as int),
{
    vstd::arithmetic::power2::lemma2_to64();
    match a {
        IntSym::U8(x) => {
            lemma_shr(x, magnitude, rho);
        },
        IntSym::U16(x) => {
            lemma_shr(x, magnitude, rho);
        },
        IntSym::U32(l, h) => {
            let x = l.eval(rho);
            let y = h.eval(rho);
            let v = value(a, rho);
            laws::constants_have_their_value(0, rho);
            if magnitude == 0 {
                vstd::arithmetic::div_mod::lemma_div_basics(v);
            } else if magnitude >= 32 {
                vstd::arithmetic::power2::lemma_pow2_pos(magnitude as nat);
                if magnitude > 32 {
                    vstd::arithmetic::power2::lemma_pow2_strictly_increases(32, magnitude as nat);
                }
                vstd::arithmetic::div_mod::lemma_basic_div(
                    v,
                    vstd::arithmetic::power2::pow2(magnitude as nat) as int,
                );
            } else if magnitude >= 16 {
                let n = (magnitude - 16) as u32;
                lemma_shr(h, n, rho);
                let q = vstd::arithmetic::power2::pow2(n as nat) as int;
                vstd::arithmetic::power2::lemma_pow2_pos(n as nat);
                vstd::arithmetic::power2::lemma_pow2_adds(16, n as nat);
                vstd::arithmetic::div_mod::lemma_div_denominator(v, 0x1_0000, q);
                assert(v / 0x1_0000 == y);
            } else {
                let lu = x as u32;
                let hu = y as u32;
                let vu = (lu + 0x1_0000 * hu) as u32;
                let mask = ((1u64 << magnitude) - 1) as u64;
                lemma_two_power(magnitude);
                lemma_two_power((16 - magnitude) as u32);
                lemma_shift_right_limbs(lu, hu, magnitude);
                lemma_shr(l, magnitude, rho);
                lemma_shr(h, magnitude, rho);
                vstd::bits::lemma_u32_shr_is_div(lu, magnitude);
                vstd::bits::lemma_u32_shr_is_div(hu, magnitude);
                vstd::bits::lemma_u32_shr_is_div(vu, magnitude);
                laws::constants_have_their_value(mask, rho);
                let carry_bits = ir::felt2(FeltBinary::BitAnd, h, ir::felt(mask));
                lemma_bitwise(FeltBinary::BitAnd, h, ir::felt(mask), 0x1_0000, rho);
                let c = carry_bits.eval(rho);
                assert(c == hu & mask as u32);
                let t = vstd::arithmetic::power2::pow2((16 - magnitude) as nat) as int;
                let b = vstd::arithmetic::power2::pow2(magnitude as nat) as int;
                vstd::arithmetic::power2::lemma_pow2_adds(
                    magnitude as nat,
                    (16 - magnitude) as nat,
                );
                assert(c * t <= 0x1_0000) by (nonlinear_arith)
                    requires
                        0 <= c < b,
                        1 <= t,
                        b * t == 0x1_0000,
                {
                }
                lemma_shl(carry_bits, (16 - magnitude) as u32, rho);
                vstd::bits::lemma_u32_shl_is_mul(c as u32, (16 - magnitude) as u32);
                let carry = integers::shifted(
                    FeltBinary::Shl,
                    carry_bits,
                    (16 - magnitude) as u32,
                );
                assert(carry.eval(rho) == (hu & mask as u32) << ((16 - magnitude) as u32));
                lemma_bitwise(
                    FeltBinary::BitOr,
                    integers::shifted(FeltBinary::Shr, l, magnitude),
                    carry,
                    0x1_0000,
                    rho,
                );
            }
        },
    }
}

/// A left shift multiplies the number by a power of two and drops what is past the width. For
/// the small widths the product has to stay below the characteristic.
pub proof fn left_shifts_multiply(a: IntSym, magnitude: u32, rho: Valuation)
    requires
        fits(a, rho),
        a.width() < 32 ==> a.width() + magnitude <= 31,
    ensures
        integers::shift_left_sym(a, magnitude).width() == a.width(),
        fits(integers::shift_left_sym(a, magnitude), rho),
        value(integers::shift_left_sym(a, magnitude), rho) == (value(a, rho)
            * vstd::arithmetic::power2::pow2(magnitude as nat)) % modulus(a),
{
    vstd::arithmetic::power2::lemma2_to64();
    lemma_two_power(8);
    lemma_two_power(16);
    match a {
        IntSym::U8(x) => {
            lemma_small_left_shift(x, 8, magnitude, rho);
        },
        IntSym::U16(x) => {
            lemma_small_left_shift(x, 16, magnitude, rho);
        },
        IntSym::U32(l, h) => {
            let x = l.eval(rho);
            let y = h.eval(rho);
            let v = value(a, rho);
            laws::constants_have_their_value(0, rho);
            if magnitude == 0 {
                assert(v * 1 == v);
                vstd::arithmetic::div_mod::lemma_small_mod(v as nat, 0x1_0000_0000);
            } else if magnitude >= 32 {
                let q = vstd::arithmetic::power2::pow2((magnitude - 32) as nat) as int;
                vstd::arithmetic::power2::lemma_pow2_adds(32, (magnitude - 32) as nat);
                assert(v * (0x1_0000_0000 * q) == 0x1_0000_0000 * (v * q) + 0)
                    by (nonlinear_arith);
                vstd::arithmetic::div_mod::lemma_mod_multiples_vanish(v * q, 0, 0x1_0000_0000);
            } else if magnitude >= 16 {
                let n = (magnitude - 16) as u32;
                let q = vstd::arithmetic::power2::pow2(n as nat) as int;
                lemma_small_left_shift(l, 16, n, rho);
                vstd::arithmetic::power2::lemma_pow2_adds(16, n as nat);
                let w = x * q;
                let high = w % 0x1_0000;
                let k = w / 0x1_0000;
                vstd::arithmetic::div_mod::lemma_fundamental_div_mod(w, 0x1_0000);
                assert(v * (0x1_0000 * q) == 0x1_0000_0000 * (k + y * q) + 0x1_0000 * high)
                    by (nonlinear_arith)
                    requires
                        v == x + 0x1_0000 * y,
                        x * q == 0x1_0000 * k + high,
                {
                }
                vstd::arithmetic::div_mod::lemma_mod_multiples_vanish(
                    k + y * q,
                    0x1_0000 * high,
                    0x1_0000_0000,
                );
                vstd::arithmetic::div_mod::lemma_small_mod(
                    (0x1_0000 * high) as nat,
                    0x1_0000_0000,
                );
            } else {
                lemma_left_shift_pair(l, h, magnitude, rho);
            }
        },
    }
}

proof fn lemma_small_left_shift(s: Sym, width: u32, magnitude: u32, rho: Valuation)
    requires
        width == 8 || width == 16,
        0 <= s.eval(rho) < (1u64 << width),
        width + magnitude <= 31,
    ensures
        s.eval(rho) * vstd::arithmetic::power2::pow2(magnitude as nat) < laws::p(),
        ({
            let t = builder::lowest_bits(
                integers::shifted(FeltBinary::Shl, s, magnitude),
                width,
            ).eval(rho);
            &&& t == (s.eval(rho) * vstd::arithmetic::power2::pow2(magnitude as nat)) % (
            vstd::arithmetic::power2::pow2(width as nat) as int)
            &&& 0 <= t < vstd::arithmetic::power2::pow2(width as nat)
        }),
{
    lemma_two_power(width);
    lemma_two_power(magnitude);
    let x = s.eval(rho);
    let m = vstd::arithmetic::power2::pow2(magnitude as nat) as int;
    let b = vstd::arithmetic::power2::pow2(width as nat) as int;
    vstd::arithmetic::power2::lemma_pow2_adds(width as nat, magnitude as nat);
    lemma_two_power((width + magnitude) as u32);
    assert(x * m + m <= b * m) by (nonlinear_arith)
        requires
            0 <= x < b,
            1 <= m,
    {
    }
    assert(0 <= x * m) by (nonlinear_arith)
        requires
            0 <= x,
            1 <= m,
    {
    }
    if magnitude == 0 {
        vstd::arithmetic::power2::lemma2_to64();
    } else {
        vstd::arithmetic::power2::lemma_pow2_strictly_increases(0, magnitude as nat);
        vstd::arithmetic::power2::lemma2_to64();
    }
    lemma_shl(s, magnitude, rho);
    lowest_bits_are_remainders(integers::shifted(FeltBinary::Shl, s, magnitude), width, rho);
}

proof fn lemma_left_shift_pair(l: Sym, h: Sym, magnitude: u32, rho: Valuation)
    requires
        fits(IntSym::U32(l, h), rho),
        1 <= magnitude < 16,
    ensures
        ({
            let a = IntSym::U32(l, h);
            &&& fits(integers::shift_left_sym(a, magnitude), rho)
            &&& value(integers::shift_left_sym(a, magnitude), rho) == (value(a, rho)
                * vstd::arithmetic::power2::pow2(magnitude as nat)) % 0x1_0000_0000
        }),
{
    vstd::arithmetic::power2::lemma2_to64();
    lemma_two_power(16);
    lemma_two_power(magnitude);
    let lu = l.eval(rho) as u32;
    let hu = h.eval(rho) as u32;
    let vu = (lu + 0x1_0000 * hu) as u32;
    let b = vstd::arithmetic::power2::pow2(magnitude as nat) as int;
    lemma_small_left_shift(l, 16, magnitude, rho);
    lemma_small_left_shift(h, 16, magnitude, rho);
    lemma_shr(l, (16 - magnitude) as u32, rho);
    vstd::bits::lemma_u32_shr_is_div(lu, (16 - magnitude) as u32);
    vstd::bits::lemma_u32_shl_is_mul(lu, magnitude);
    vstd::bits::lemma_u32_shl_is_mul(hu, magnitude);
    lemma_shift_left_limbs(lu, hu, magnitude);
    let low = builder::lowest_bits(integers::shifted(FeltBinary::Shl, l, magnitude), 16);
    let high_base = builder::lowest_bits(integers::shifted(FeltBinary::Shl, h, magnitude), 16);
    let carry = integers::shifted(FeltBinary::Shr, l, (16 - magnitude) as u32);
    assert(low.eval(rho) == (lu << magnitude) % 0x1_0000);
    assert(high_base.eval(rho) == (hu << magnitude) % 0x1_0000);
    assert(carry.eval(rho) == lu >> ((16 - magnitude) as u32));
    lemma_bitwise(FeltBinary::BitOr, high_base, carry, 0x1_0000, rho);
    let high = ir::felt2(FeltBinary::BitOr, high_base, carry);
    assert(low.eval(rho) + 0x1_0000 * high.eval(rho) == vu << magnitude);
    let wide = vu as u64;
    assert(vu << magnitude == (wide << (magnitude as u64)) % 0x1_0000_0000) by (bit_vector)
        requires
            wide == vu,
            magnitude < 16,
    ;
    assert(vu * b <= 0xffff_ffff * 0x1_0000) by (nonlinear_arith)
        requires
            0 <= vu <= 0xffff_ffff,
            0 <= b <= 0x1_0000,
    {
    }
    vstd::bits::lemma_u64_shl_is_mul(wide, magnitude as u64);
}

} // verus!
