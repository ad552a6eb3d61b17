//! Integers of 8, 16 and 32 bits as field values. A 32-bit integer is a pair of 16-bit limbs.
use vstd::prelude::*;

use crate::llzk::builder;
use crate::llzk::builder::LlzkError;
use crate::llzk::builder::OpsBuilder;
use crate::llzk::builder::Value;
use crate::llzk::ir;
use crate::llzk::ir::BoolBinary;
use crate::llzk::ir::Comparison;
use crate::llzk::ir::FeltBinary;
use crate::llzk::ir::Sym;

verus! {

pub const U8_MODULUS: u64 = 0x100;

pub const U16_MODULUS: u64 = 0x1_0000;

/// The limbs of a 32-bit integer.
#[derive(Clone, Copy)]
pub struct U32Parts {
    pub low: Value,
    pub high: Value,
}

/// An integer in a function body.
#[derive(Clone, Copy)]
pub enum IntegerValue {
    U8(Value),
    U16(Value),
    U32(U32Parts),
}

/// The terms of an integer.
pub enum IntSym {
    U8(Sym),
    U16(Sym),
    U32(Sym, Sym),
}

impl IntSym {
    /// The width in bits.
    pub open spec fn width(self) -> nat {
        match self {
            IntSym::U8(_) => 8,
            IntSym::U16(_) => 16,
            IntSym::U32(_, _) => 32,
        }
    }
}

impl IntegerValue {
    /// The terms of the integer.
    pub open spec fn sym(self) -> IntSym {
        match self {
            IntegerValue::U8(v) => IntSym::U8(v.sym@),
            IntegerValue::U16(v) => IntSym::U16(v.sym@),
            IntegerValue::U32(p) => IntSym::U32(p.low.sym@, p.high.sym@),
        }
    }

    /// Whether the integer is made of values of a body.
    pub open spec fn within(self, b: OpsBuilder) -> bool {
        match self {
            IntegerValue::U8(v) => b.has(v),
            IntegerValue::U16(v) => b.has(v),
            IntegerValue::U32(p) => b.has(p.low) && b.has(p.high),
        }
    }

    /// The width in bits.
    pub fn bit_width(&self) -> (r: u32)
        ensures
            r == self.sym().width(),
    {
        match self {
            IntegerValue::U8(_) => 8,
            IntegerValue::U16(_) => 16,
            IntegerValue::U32(_) => 32,
        }
    }
}

/// The field value of an integer.
pub open spec fn to_field_sym(v: IntSym) -> Sym {
    match v {
        IntSym::U8(s) => s,
        IntSym::U16(s) => s,
        IntSym::U32(low, high) => ir::felt2(
            FeltBinary::Add,
            low,
            ir::felt2(FeltBinary::Mul, high, ir::felt(U16_MODULUS)),
        ),
    }
}

/// A field value as a 32-bit integer.
pub open spec fn from_field_sym(s: Sym) -> IntSym {
    IntSym::U32(
        builder::lowest_bits(s, 16),
        ir::felt2(FeltBinary::Uintdiv, s, ir::felt(U16_MODULUS)),
    )
}

/// A 32-bit constant.
pub open spec fn u32_constant_sym(value: u32) -> IntSym {
    IntSym::U32(ir::felt((value & 0xffff) as u64), ir::felt((value >> 16) as u64))
}

/// Whether two integers are equal.
pub open spec fn equal_sym(a: IntSym, b: IntSym) -> Result<Sym, LlzkError> {
    match (a, b) {
        (IntSym::U8(x), IntSym::U8(y)) => Ok(ir::compare(Comparison::Eq, x, y)),
        (IntSym::U16(x), IntSym::U16(y)) => Ok(ir::compare(Comparison::Eq, x, y)),
        (IntSym::U32(xl, xh), IntSym::U32(yl, yh)) => Ok(
            ir::bool2(
                BoolBinary::And,
                ir::compare(Comparison::Eq, xl, yl),
                ir::compare(Comparison::Eq, xh, yh),
            ),
        ),
        _ => Err(LlzkError::WidthMismatch),
    }
}

/// Whether an integer is nonzero.
pub open spec fn nonzero_sym(a: IntSym) -> Sym {
    match a {
        IntSym::U8(x) => builder::is_nonzero(x),
        IntSym::U16(x) => builder::is_nonzero(x),
        IntSym::U32(l, h) => ir::bool2(
            BoolBinary::Or,
            builder::is_nonzero(l),
            builder::is_nonzero(h),
        ),
    }
}

/// The wrapped sum of two small integers, and its carry.
pub open spec fn small_sum(a: Sym, b: Sym, width: u32) -> (Sym, Sym) {
    let sum = ir::felt2(FeltBinary::Add, a, b);
    (
        builder::lowest_bits(sum, width),
        ir::compare(Comparison::Ge, sum, ir::felt(1u64 << width)),
    )
}

/// The wrapped difference of two small integers, and its borrow.
pub open spec fn small_difference(a: Sym, b: Sym, width: u32) -> (Sym, Sym) {
    let borrow = ir::compare(Comparison::Lt, a, b);
    (
        ir::select(
            borrow,
            ir::felt2(FeltBinary::Sub, ir::felt2(FeltBinary::Add, a, ir::felt(1u64 << width)), b),
            ir::felt2(FeltBinary::Sub, a, b),
        ),
        borrow,
    )
}

/// The wrapped sum of two integers, and its carry.
pub open spec fn sum_sym(a: IntSym, b: IntSym) -> Result<(IntSym, Sym), LlzkError> {
    match (a, b) {
        (IntSym::U8(x), IntSym::U8(y)) => Ok(
            (IntSym::U8(small_sum(x, y, 8).0), small_sum(x, y, 8).1),
        ),
        (IntSym::U16(x), IntSym::U16(y)) => Ok(
            (IntSym::U16(small_sum(x, y, 16).0), small_sum(x, y, 16).1),
        ),
        (IntSym::U32(xl, xh), IntSym::U32(yl, yh)) => {
            let (low, carry) = small_sum(xl, yl, 16);
            let (high, high_carry) = small_sum(
                xh,
                ir::felt2(FeltBinary::Add, yh, builder::to_field(carry)),
                16,
            );
            Ok((IntSym::U32(low, high), high_carry))
        },
        _ => Err(LlzkError::WidthMismatch),
    }
}

/// The wrapped difference of two integers, and its borrow.
pub open spec fn difference_sym(a: IntSym, b: IntSym) -> Result<(IntSym, Sym), LlzkError> {
    match (a, b) {
        (IntSym::U8(x), IntSym::U8(y)) => Ok(
            (IntSym::U8(small_difference(x, y, 8).0), small_difference(x, y, 8).1),
        ),
        (IntSym::U16(x), IntSym::U16(y)) => Ok(
            (IntSym::U16(small_difference(x, y, 16).0), small_difference(x, y, 16).1),
        ),
        (IntSym::U32(xl, xh), IntSym::U32(yl, yh)) => {
            let (low, borrow) = small_difference(xl, yl, 16);
            let (high, high_borrow) = small_difference(
                xh,
                ir::felt2(FeltBinary::Add, yh, builder::to_field(borrow)),
                16,
            );
            Ok((IntSym::U32(low, high), high_borrow))
        },
        _ => Err(LlzkError::WidthMismatch),
    }
}

/// A shift by a fixed amount.
pub open spec fn shifted(op: FeltBinary, s: Sym, amount: u32) -> Sym {
    ir::felt2(op, s, ir::felt(amount as u64))
}

/// A logical right shift.
pub open spec fn shift_right_sym(a: IntSym, magnitude: u32) -> IntSym {
    match a {
        IntSym::U8(x) => IntSym::U8(shifted(FeltBinary::Shr, x, magnitude)),
        IntSym::U16(x) => IntSym::U16(shifted(FeltBinary::Shr, x, magnitude)),
        IntSym::U32(l, h) => if magnitude == 0 {
            a
        } else if magnitude >= 32 {
            IntSym::U32(ir::felt(0), ir::felt(0))
        } else if magnitude >= 16 {
            IntSym::U32(shifted(FeltBinary::Shr, h, (magnitude - 16) as u32), ir::felt(0))
        } else {
            let carry_bits = ir::felt2(
                FeltBinary::BitAnd,
                h,
                ir::felt(((1u64 << magnitude) - 1) as u64),
            );
            IntSym::U32(
                ir::felt2(
                    FeltBinary::BitOr,
                    shifted(FeltBinary::Shr, l, magnitude),
                    shifted(FeltBinary::Shl, carry_bits, (16 - magnitude) as u32),
                ),
                shifted(FeltBinary::Shr, h, magnitude),
            )
        },
    }
}

/// A left shift that drops the bits past the width.
pub open spec fn shift_left_sym(a: IntSym, magnitude: u32) -> IntSym {
    match a {
        IntSym::U8(x) => IntSym::U8(
            builder::lowest_bits(shifted(FeltBinary::Shl, x, magnitude), 8),
        ),
        IntSym::U16(x) => IntSym::U16(
            builder::lowest_bits(shifted(FeltBinary::Shl, x, magnitude), 16),
        ),
        IntSym::U32(l, h) => if magnitude == 0 {
            a
        } else if magnitude >= 32 {
            IntSym::U32(ir::felt(0), ir::felt(0))
        } else if magnitude >= 16 {
            IntSym::U32(
                ir::felt(0),
                builder::lowest_bits(shifted(FeltBinary::Shl, l, (magnitude - 16) as u32), 16),
            )
        } else {
            IntSym::U32(
                builder::lowest_bits(shifted(FeltBinary::Shl, l, magnitude), 16),
                ir::felt2(
                    FeltBinary::BitOr,
                    builder::lowest_bits(shifted(FeltBinary::Shl, h, magnitude), 16),
                    shifted(FeltBinary::Shr, l, (16 - magnitude) as u32),
                ),
            )
        },
    }
}

/// The smaller of two widths.
pub open spec fn at_most(a: u32, b: u32) -> u32 {
    if a < b {
        a
    } else {
        b
    }
}

/// The lowest bits of an integer.
pub open spec fn lowest_bits_sym(a: IntSym, num_bits: u32) -> IntSym {
    match a {
        IntSym::U8(x) => IntSym::U8(builder::lowest_bits(x, at_most(num_bits, 8))),
        IntSym::U16(x) => IntSym::U16(builder::lowest_bits(x, at_most(num_bits, 16))),
        IntSym::U32(l, h) => if num_bits >= 32 {
            a
        } else if num_bits <= 16 {
            IntSym::U32(builder::lowest_bits(l, num_bits), ir::felt(0))
        } else {
            IntSym::U32(l, builder::lowest_bits(h, (num_bits - 16) as u32))
        },
    }
}

/// A selection between integers of one width.
pub open spec fn select_sym(c: Sym, a: IntSym, b: IntSym) -> Result<IntSym, LlzkError> {
    match (a, b) {
        (IntSym::U8(x), IntSym::U8(y)) => Ok(IntSym::U8(ir::select(c, x, y))),
        (IntSym::U16(x), IntSym::U16(y)) => Ok(IntSym::U16(ir::select(c, x, y))),
        (IntSym::U32(xl, xh), IntSym::U32(yl, yh)) => Ok(
            IntSym::U32(ir::select(c, xl, yl), ir::select(c, xh, yh)),
        ),
        _ => Err(LlzkError::WidthMismatch),
    }
}

/// A bitwise operation on integers of one width.
pub open spec fn bitwise_sym(op: FeltBinary, a: IntSym, b: IntSym) -> Result<IntSym, LlzkError> {
    match (a, b) {
        (IntSym::U8(x), IntSym::U8(y)) => Ok(IntSym::U8(ir::felt2(op, x, y))),
        (IntSym::U16(x), IntSym::U16(y)) => Ok(IntSym::U16(ir::felt2(op, x, y))),
        (IntSym::U32(xl, xh), IntSym::U32(yl, yh)) => Ok(
            IntSym::U32(ir::felt2(op, xl, yl), ir::felt2(op, xh, yh)),
        ),
        _ => Err(LlzkError::WidthMismatch),
    }
}

/// The complement of an integer.
pub open spec fn not_sym(a: IntSym) -> IntSym {
    match a {
        IntSym::U8(x) => IntSym::U8(ir::felt2(FeltBinary::BitXor, x, ir::felt(0xff))),
        IntSym::U16(x) => IntSym::U16(ir::felt2(FeltBinary::BitXor, x, ir::felt(0xffff))),
        IntSym::U32(l, h) => IntSym::U32(
            ir::felt2(FeltBinary::BitXor, l, ir::felt(0xffff)),
            ir::felt2(FeltBinary::BitXor, h, ir::felt(0xffff)),
        ),
    }
}

/// Whether an operation gave the expected integer, without an effect.
pub open spec fn is_integer(
    before: OpsBuilder,
    after: OpsBuilder,
    r: Result<IntegerValue, LlzkError>,
    expected: Result<IntSym, LlzkError>,
) -> bool {
    &&& after.purely_continues(before)
    &&& match (r, expected) {
        (Ok(v), Ok(s)) => v.within(after) && v.sym() == s,
        (Err(e), Err(x)) => e == x,
        _ => false,
    }
}

/// Whether an operation gave the expected integer and flag, without an effect.
pub open spec fn is_integer_with_flag(
    before: OpsBuilder,
    after: OpsBuilder,
    r: Result<(IntegerValue, Value), LlzkError>,
    expected: Result<(IntSym, Sym), LlzkError>,
) -> bool {
    &&& after.purely_continues(before)
    &&& match (r, expected) {
        (Ok((v, f)), Ok((s, t))) => v.within(after) && v.sym() == s && after.has(f) && f.sym@ == t,
        (Err(e), Err(x)) => e == x,
        _ => false,
    }
}

/// The field value of an integer.
pub fn integer_to_field(builder: &mut OpsBuilder, value: IntegerValue) -> (r: Value)
    requires
        value.within(*old(builder)),
    ensures
        final(builder).purely_continues(*old(builder)),
        final(builder).has(r),
        r.sym@ == to_field_sym(value.sym()),
{
    match value {
        IntegerValue::U8(v) => v,
        IntegerValue::U16(v) => v,
        IntegerValue::U32(parts) => u32_to_field(builder, parts),
    }
}

/// The field value of a pair of limbs.
pub fn u32_to_field(builder: &mut OpsBuilder, value: U32Parts) -> (r: Value)
    requires
        old(builder).has(value.low),
        old(builder).has(value.high),
    ensures
        final(builder).purely_continues(*old(builder)),
        final(builder).has(r),
        r.sym@ == to_field_sym(IntSym::U32(value.low.sym@, value.high.sym@)),
{
    let modulus = builder.get_felt_constant_from_start(U16_MODULUS);
    let high_scaled = builder.append_felt_binary(FeltBinary::Mul, value.high, modulus);
    builder.append_felt_binary(FeltBinary::Add, value.low, high_scaled)
}

/// A field value as a pair of limbs.
pub fn field_to_u32(builder: &mut OpsBuilder, value: Value) -> (r: U32Parts)
    requires
        old(builder).has(value),
    ensures
        final(builder).purely_continues(*old(builder)),
        IntegerValue::U32(r).within(*final(builder)),
        IntegerValue::U32(r).sym() == from_field_sym(value.sym@),
{
    let low = builder.append_lowest_bits_felt(value, 16);
    let modulus = builder.get_felt_constant_from_start(U16_MODULUS);
    let high = builder.append_felt_binary(FeltBinary::Uintdiv, value, modulus);
    U32Parts { low, high }
}

/// A 32-bit constant.
pub fn u32_constant(builder: &mut OpsBuilder, value: u32) -> (r: U32Parts)
    ensures
        final(builder).purely_continues(*old(builder)),
        IntegerValue::U32(r).within(*final(builder)),
        IntegerValue::U32(r).sym() == u32_constant_sym(value),
{
    let low = builder.get_felt_constant_from_start((value & 0xffff) as u64);
    let high = builder.get_felt_constant_from_start((value >> 16) as u64);
    U32Parts { low, high }
}

/// Whether two integers of one width are equal.
pub fn integer_equal(builder: &mut OpsBuilder, lhs: IntegerValue, rhs: IntegerValue) -> (r: Result<
    Value,
    LlzkError,
>)
    requires
        lhs.within(*old(builder)),
        rhs.within(*old(builder)),
    ensures
        final(builder).purely_continues(*old(builder)),
        match (r, equal_sym(lhs.sym(), rhs.sym())) {
            (Ok(v), Ok(s)) => final(builder).has(v) && v.sym@ == s,
            (Err(e), Err(x)) => e == x,
            _ => false,
        },
{
    match (lhs, rhs) {
        (IntegerValue::U8(a), IntegerValue::U8(b)) => Ok(
            builder.append_compare(Comparison::Eq, a, b),
        ),
        (IntegerValue::U16(a), IntegerValue::U16(b)) => Ok(
            builder.append_compare(Comparison::Eq, a, b),
        ),
        (IntegerValue::U32(a), IntegerValue::U32(b)) => {
            let low_eq = builder.append_compare(Comparison::Eq, a.low, b.low);
            let high_eq = builder.append_compare(Comparison::Eq, a.high, b.high);
            Ok(builder.append_bool_binary(BoolBinary::And, low_eq, high_eq))
        },
        _ => Err(LlzkError::WidthMismatch),
    }
}

/// Whether an integer is nonzero.
pub fn integer_is_nonzero(builder: &mut OpsBuilder, value: IntegerValue) -> (r: Value)
    requires
        value.within(*old(builder)),
    ensures
        final(builder).purely_continues(*old(builder)),
        final(builder).has(r),
        r.sym@ == nonzero_sym(value.sym()),
{
    match value {
        IntegerValue::U8(v) => builder.append_field_is_nonzero(v),
        IntegerValue::U16(v) => builder.append_field_is_nonzero(v),
        IntegerValue::U32(parts) => {
            let low_nonzero = builder.append_field_is_nonzero(parts.low);
            let high_nonzero = builder.append_field_is_nonzero(parts.high);
            builder.append_bool_binary(BoolBinary::Or, low_nonzero, high_nonzero)
        },
    }
}

fn add_small(builder: &mut OpsBuilder, lhs: Value, rhs: Value, width: u32) -> (r: (Value, Value))
    requires
        old(builder).has(lhs),
        old(builder).has(rhs),
        width < 64,
    ensures
        final(builder).purely_continues(*old(builder)),
        final(builder).has(r.0),
        final(builder).has(r.1),
        (r.0.sym@, r.1.sym@) == small_sum(lhs.sym@, rhs.sym@, width),
{
    let sum = builder.append_felt_binary(FeltBinary::Add, lhs, rhs);
    let modulus = builder.get_felt_constant_from_start(1u64 << width);
    let carry = builder.append_compare(Comparison::Ge, sum, modulus);
    let wrapped = builder.append_lowest_bits_felt(sum, width);
    (wrapped, carry)
}

fn sub_small(builder: &mut OpsBuilder, lhs: Value, rhs: Value, width: u32) -> (r: (Value, Value))
    requires
        old(builder).has(lhs),
        old(builder).has(rhs),
        width < 64,
    ensures
        final(builder).purely_continues(*old(builder)),
        final(builder).has(r.0),
        final(builder).has(r.1),
        (r.0.sym@, r.1.sym@) == small_difference(lhs.sym@, rhs.sym@, width),
{
    let borrow = builder.append_compare(Comparison::Lt, lhs, rhs);
    let modulus = builder.get_felt_constant_from_start(1u64 << width);
    let raised = builder.append_felt_binary(FeltBinary::Add, lhs, modulus);
    let borrow_case = builder.append_felt_binary(FeltBinary::Sub, raised, rhs);
    let direct_case = builder.append_felt_binary(FeltBinary::Sub, lhs, rhs);
    (builder.append_select_value(borrow, borrow_case, direct_case), borrow)
}

/// The wrapped sum of two integers of one width, and its carry.
pub fn overflowing_add(builder: &mut OpsBuilder, lhs: IntegerValue, rhs: IntegerValue) -> (r: Result<
    (IntegerValue, Value),
    LlzkError,
>)
    requires
        lhs.within(*old(builder)),
        rhs.within(*old(builder)),
    ensures
        is_integer_with_flag(*old(builder), *final(builder), r, sum_sym(lhs.sym(), rhs.sym())),
{
    match (lhs, rhs) {
        (IntegerValue::U8(a), IntegerValue::U8(b)) => {
            let (sum, carry) = add_small(builder, a, b, 8);
            Ok((IntegerValue::U8(sum), carry))
        },
        (IntegerValue::U16(a), IntegerValue::U16(b)) => {
            let (sum, carry) = add_small(builder, a, b, 16);
            Ok((IntegerValue::U16(sum), carry))
        },
        (IntegerValue::U32(a), IntegerValue::U32(b)) => {
            let (low, low_carry) = add_small(builder, a.low, b.low, 16);
            let carry_felt = builder.append_bool_to_field(low_carry);
            let high_rhs = builder.append_felt_binary(FeltBinary::Add, b.high, carry_felt);
            let (high, high_carry) = add_small(builder, a.high, high_rhs, 16);
            Ok((IntegerValue::U32(U32Parts { low, high }), high_carry))
        },
        _ => Err(LlzkError::WidthMismatch),
    }
}

/// The wrapped difference of two integers of one width, and its borrow.
pub fn overflowing_sub(builder: &mut OpsBuilder, lhs: IntegerValue, rhs: IntegerValue) -> (r: Result<
    (IntegerValue, Value),
    LlzkError,
>)
    requires
        lhs.within(*old(builder)),
        rhs.within(*old(builder)),
    ensures
        is_integer_with_flag(
            *old(builder),
            *final(builder),
            r,
            difference_sym(lhs.sym(), rhs.sym()),
        ),
{
    match (lhs, rhs) {
        (IntegerValue::U8(a), IntegerValue::U8(b)) => {
            let (diff, borrow) = sub_small(builder, a, b, 8);
            Ok((IntegerValue::U8(diff), borrow))
        },
        (IntegerValue::U16(a), IntegerValue::U16(b)) => {
            let (diff, borrow) = sub_small(builder, a, b, 16);
            Ok((IntegerValue::U16(diff), borrow))
        },
        (IntegerValue::U32(a), IntegerValue::U32(b)) => {
            let (low, low_borrow) = sub_small(builder, a.low, b.low, 16);
            let borrow_felt = builder.append_bool_to_field(low_borrow);
            let high_rhs = builder.append_felt_binary(FeltBinary::Add, b.high, borrow_felt);
            let (high, high_borrow) = sub_small(builder, a.high, high_rhs, 16);
            Ok((IntegerValue::U32(U32Parts { low, high }), high_borrow))
        },
        _ => Err(LlzkError::WidthMismatch),
    }
}

fn append_shift(builder: &mut OpsBuilder, op: FeltBinary, value: Value, amount: u32) -> (r: Value)
    requires
        old(builder).has(value),
    ensures
        final(builder).purely_continues(*old(builder)),
        final(builder).has(r),
        r.sym@ == shifted(op, value.sym@, amount),
{
    let amount = builder.get_felt_constant_from_start(amount as u64);
    builder.append_felt_binary(op, value, amount)
}

fn zero_parts(builder: &mut OpsBuilder) -> (r: U32Parts)
    ensures
        final(builder).purely_continues(*old(builder)),
        IntegerValue::U32(r).within(*final(builder)),
        IntegerValue::U32(r).sym() == IntSym::U32(ir::felt(0), ir::felt(0)),
{
    let zero = builder.get_felt_constant_from_start(0);
    U32Parts { low: zero, high: zero }
}

fn shift_right_u32(builder: &mut OpsBuilder, value: U32Parts, magnitude: u32) -> (r: U32Parts)
    requires
        IntegerValue::U32(value).within(*old(builder)),
    ensures
        final(builder).purely_continues(*old(builder)),
        IntegerValue::U32(r).within(*final(builder)),
        IntegerValue::U32(r).sym() == shift_right_sym(IntegerValue::U32(value).sym(), magnitude),
{
    if magnitude == 0 {
        return value;
    }
    if magnitude >= 32 {
        return zero_parts(builder);
    }
    if magnitude >= 16 {
        let low = append_shift(builder, FeltBinary::Shr, value.high, magnitude - 16);
        let high = builder.get_felt_constant_from_start(0);
        return U32Parts { low, high };
    }
    let low_base = append_shift(builder, FeltBinary::Shr, value.low, magnitude);
    let high = append_shift(builder, FeltBinary::Shr, value.high, magnitude);
    assert(1u64 << magnitude >= 1) by (bit_vector)
        requires
            magnitude < 16,
    ;
    let carry_mask = builder.get_felt_constant_from_start((1u64 << magnitude) - 1);
    let carry_bits = builder.append_felt_binary(FeltBinary::BitAnd, value.high, carry_mask);
    let carry = append_shift(builder, FeltBinary::Shl, carry_bits, 16 - magnitude);
    let low = builder.append_felt_binary(FeltBinary::BitOr, low_base, carry);
    U32Parts { low, high }
}

/// A logical right shift.
pub fn shift_right(builder: &mut OpsBuilder, value: IntegerValue, magnitude: u32) -> (r: IntegerValue)
    requires
        value.within(*old(builder)),
    ensures
        final(builder).purely_continues(*old(builder)),
        r.within(*final(builder)),
        r.sym() == shift_right_sym(value.sym(), magnitude),
{
    match value {
        IntegerValue::U8(v) => IntegerValue::U8(
            append_shift(builder, FeltBinary::Shr, v, magnitude),
        ),
        IntegerValue::U16(v) => IntegerValue::U16(
            append_shift(builder, FeltBinary::Shr, v, magnitude),
        ),
        IntegerValue::U32(parts) => IntegerValue::U32(shift_right_u32(builder, parts, magnitude)),
    }
}

fn shift_left_u32(builder: &mut OpsBuilder, value: U32Parts, magnitude: u32) -> (r: U32Parts)
    requires
        IntegerValue::U32(value).within(*old(builder)),
    ensures
        final(builder).purely_continues(*old(builder)),
        IntegerValue::U32(r).within(*final(builder)),
        IntegerValue::U32(r).sym() == shift_left_sym(IntegerValue::U32(value).sym(), magnitude),
{
    if magnitude == 0 {
        return value;
    }
    if magnitude >= 32 {
        return zero_parts(builder);
    }
    if magnitude >= 16 {
        let shifted_high = append_shift(builder, FeltBinary::Shl, value.low, magnitude - 16);
        let low = builder.get_felt_constant_from_start(0);
        let high = builder.append_lowest_bits_felt(shifted_high, 16);
        return U32Parts { low, high };
    }
    let low_shifted = append_shift(builder, FeltBinary::Shl, value.low, magnitude);
    let high_shifted = append_shift(builder, FeltBinary::Shl, value.high, magnitude);
    let carry = append_shift(builder, FeltBinary::Shr, value.low, 16 - magnitude);
    let low = builder.append_lowest_bits_felt(low_shifted, 16);
    let high_base = builder.append_lowest_bits_felt(high_shifted, 16);
    let high = builder.append_felt_binary(FeltBinary::BitOr, high_base, carry);
    U32Parts { low, high }
}

/// A left shift that drops the bits past the width.
pub fn shift_left(builder: &mut OpsBuilder, value: IntegerValue, magnitude: u32) -> (r: IntegerValue)
    requires
        value.within(*old(builder)),
    ensures
        final(builder).purely_continues(*old(builder)),
        r.within(*final(builder)),
        r.sym() == shift_left_sym(value.sym(), magnitude),
{
    match value {
        IntegerValue::U8(v) => {
            let moved = append_shift(builder, FeltBinary::Shl, v, magnitude);
            IntegerValue::U8(builder.append_lowest_bits_felt(moved, 8))
        },
        IntegerValue::U16(v) => {
            let moved = append_shift(builder, FeltBinary::Shl, v, magnitude);
            IntegerValue::U16(builder.append_lowest_bits_felt(moved, 16))
        },
        IntegerValue::U32(parts) => IntegerValue::U32(shift_left_u32(builder, parts, magnitude)),
    }
}

fn min_width(a: u32, b: u32) -> (r: u32)
    ensures
        r == at_most(a, b),
{
    if a < b {
        a
    } else {
        b
    }
}

/// The lowest bits of an integer.
pub fn lowest_bits(builder: &mut OpsBuilder, value: IntegerValue, num_bits: u32) -> (r: IntegerValue)
    requires
        value.within(*old(builder)),
    ensures
        final(builder).purely_continues(*old(builder)),
        r.within(*final(builder)),
        r.sym() == lowest_bits_sym(value.sym(), num_bits),
{
    match value {
        IntegerValue::U8(v) => IntegerValue::U8(
            builder.append_lowest_bits_felt(v, min_width(num_bits, 8)),
        ),
        IntegerValue::U16(v) => IntegerValue::U16(
            builder.append_lowest_bits_felt(v, min_width(num_bits, 16)),
        ),
        IntegerValue::U32(parts) => {
            if num_bits >= 32 {
                value
            } else if num_bits <= 16 {
                let low = builder.append_lowest_bits_felt(parts.low, num_bits);
                let high = builder.get_felt_constant_from_start(0);
                IntegerValue::U32(U32Parts { low, high })
            } else {
                let high = builder.append_lowest_bits_felt(parts.high, num_bits - 16);
                IntegerValue::U32(U32Parts { low: parts.low, high })
            }
        },
    }
}

/// A selection between two integers of one width.
pub fn select_integer(
    builder: &mut OpsBuilder,
    condition: Value,
    if_true: IntegerValue,
    if_false: IntegerValue,
) -> (r: Result<IntegerValue, LlzkError>)
    requires
        old(builder).has(condition),
        if_true.within(*old(builder)),
        if_false.within(*old(builder)),
    ensures
        is_integer(
            *old(builder),
            *final(builder),
            r,
            select_sym(condition.sym@, if_true.sym(), if_false.sym()),
        ),
{
    match (if_true, if_false) {
        (IntegerValue::U8(a), IntegerValue::U8(b)) => Ok(
            IntegerValue::U8(builder.append_select_value(condition, a, b)),
        ),
        (IntegerValue::U16(a), IntegerValue::U16(b)) => Ok(
            IntegerValue::U16(builder.append_select_value(condition, a, b)),
        ),
        (IntegerValue::U32(a), IntegerValue::U32(b)) => {
            let low = builder.append_select_value(condition, a.low, b.low);
            let high = builder.append_select_value(condition, a.high, b.high);
            Ok(IntegerValue::U32(U32Parts { low, high }))
        },
        _ => Err(LlzkError::WidthMismatch),
    }
}

/// A bitwise operation on two integers of one width.
pub fn bitwise_binop(
    builder: &mut OpsBuilder,
    op: FeltBinary,
    lhs: IntegerValue,
    rhs: IntegerValue,
) -> (r: Result<IntegerValue, LlzkError>)
    requires
        lhs.within(*old(builder)),
        rhs.within(*old(builder)),
    ensures
        is_integer(*old(builder), *final(builder), r, bitwise_sym(op, lhs.sym(), rhs.sym())),
{
    match (lhs, rhs) {
        (IntegerValue::U8(a), IntegerValue::U8(b)) => Ok(
            IntegerValue::U8(builder.append_felt_binary(op, a, b)),
        ),
        (IntegerValue::U16(a), IntegerValue::U16(b)) => Ok(
            IntegerValue::U16(builder.append_felt_binary(op, a, b)),
        ),
        (IntegerValue::U32(a), IntegerValue::U32(b)) => {
            let low = builder.append_felt_binary(op, a.low, b.low);
            let high = builder.append_felt_binary(op, a.high, b.high);
            Ok(IntegerValue::U32(U32Parts { low, high }))
        },
        _ => Err(LlzkError::WidthMismatch),
    }
}

/// The complement of an integer.
pub fn bitwise_not(builder: &mut OpsBuilder, value: IntegerValue) -> (r: IntegerValue)
    requires
        value.within(*old(builder)),
    ensures
        final(builder).purely_continues(*old(builder)),
        r.within(*final(builder)),
        r.sym() == not_sym(value.sym()),
{
    match value {
        IntegerValue::U8(v) => {
            let mask = builder.get_felt_constant_from_start(U8_MODULUS - 1);
            IntegerValue::U8(builder.append_felt_binary(FeltBinary::BitXor, v, mask))
        },
        IntegerValue::U16(v) => {
            let mask = builder.get_felt_constant_from_start(U16_MODULUS - 1);
            IntegerValue::U16(builder.append_felt_binary(FeltBinary::BitXor, v, mask))
        },
        IntegerValue::U32(parts) => {
            let mask = builder.get_felt_constant_from_start(U16_MODULUS - 1);
            let low = builder.append_felt_binary(FeltBinary::BitXor, parts.low, mask);
            let high = builder.append_felt_binary(FeltBinary::BitXor, parts.high, mask);
            IntegerValue::U32(U32Parts { low, high })
        },
    }
}

} // verus!
