use airbender_analysis::circuit::{TableIds, TableType, CHARACTERISTICS, ROM_SECOND_WORD_BITS};
use airbender_analysis::llzk::builder::{FunctionKind, LlzkError, OpsBuilder, Value};
use airbender_analysis::llzk::integers;
use airbender_analysis::llzk::integers::{IntegerValue, U32Parts};
use airbender_analysis::llzk::ir::{
    BoolBinary, Comparison, ConstType, FeltBinary, FeltUnary, Op, ValueRef, ValueType,
};
use airbender_analysis::llzk::table_lookups::{
    compute_dynamic_lookup, compute_lookup_for_table, mask_lookup_outputs,
};

const P: u64 = CHARACTERISTICS;

fn power(mut base: u64, mut exponent: u64) -> u64 {
    let mut result = 1u64;
    base %= P;
    while exponent > 0 {
        if exponent & 1 == 1 {
            result = result * base % P;
        }
        base = base * base % P;
        exponent >>= 1;
    }
    result
}

/// Runs the operations of a body on argument values.
fn run(ops: &[Op], args: &[u64]) -> Vec<u64> {
    let mut results: Vec<u64> = Vec::new();
    for op in ops {
        let get = |r: &ValueRef| -> u64 {
            match r {
                ValueRef::Arg(i) => args[*i],
                ValueRef::Const(ConstType::Felt, c) => *c % P,
                ValueRef::Const(_, c) => *c,
                ValueRef::Op(i, _) => results[*i],
                ValueRef::SelfStruct => 0,
            }
        };
        let value = match op {
            Op::FeltBinary(o, a, b) => {
                let (a, b) = (get(a), get(b));
                match o {
                    FeltBinary::Add => (a + b) % P,
                    FeltBinary::Sub => (a + P - b) % P,
                    FeltBinary::Mul => a * b % P,
                    FeltBinary::Umod => a % b,
                    FeltBinary::Uintdiv => a / b,
                    FeltBinary::Shl => (a << b) % P,
                    FeltBinary::Shr => a >> b,
                    FeltBinary::BitAnd => (a & b) % P,
                    FeltBinary::BitOr => (a | b) % P,
                    FeltBinary::BitXor => (a ^ b) % P,
                }
            }
            Op::FeltUnary(FeltUnary::Neg, a) => (P - get(a)) % P,
            Op::FeltUnary(FeltUnary::Inv, a) => power(get(a), P - 2),
            Op::Compare(o, a, b) => {
                let (a, b) = (get(a), get(b));
                (match o {
                    Comparison::Eq => a == b,
                    Comparison::Ne => a != b,
                    Comparison::Lt => a < b,
                    Comparison::Ge => a >= b,
                }) as u64
            }
            Op::CompareInt(a, b) => (get(a) == get(b)) as u64,
            Op::BoolBinary(BoolBinary::And, a, b) => (get(a) != 0 && get(b) != 0) as u64,
            Op::BoolBinary(BoolBinary::Or, a, b) => (get(a) != 0 || get(b) != 0) as u64,
            Op::BoolNot(a) => (get(a) == 0) as u64,
            Op::Select(c, a, b) => {
                if get(c) != 0 {
                    get(a)
                } else {
                    get(b)
                }
            }
            Op::Nondet(_) => 0,
            other => panic!("unexpected operation {other:?}"),
        };
        results.push(value);
    }
    results
}

fn read(value: &Value, results: &[u64], args: &[u64]) -> u64 {
    match value.id {
        ValueRef::Arg(i) => args[i],
        ValueRef::Const(_, c) => c,
        ValueRef::Op(i, _) => results[i],
        ValueRef::SelfStruct => 0,
    }
}

fn felt_body(n: usize) -> (OpsBuilder, Vec<Value>) {
    let builder = OpsBuilder::new(FunctionKind::Compute, vec![ValueType::Felt; n]);
    let values = (0..n).map(|i| builder.get_arg_value(i).unwrap()).collect();
    (builder, values)
}

/// The lowering of a lookup, which can be run on many inputs.
struct Lookup {
    builder: OpsBuilder,
    outputs: Vec<Value>,
}

impl Lookup {
    fn new(table: TableType, inputs: usize, outputs: usize) -> Self {
        let (mut builder, values) = felt_body(inputs);
        let outputs = compute_lookup_for_table(&mut builder, table, &values, outputs).unwrap();
        Lookup { builder, outputs }
    }

    fn values(&self, inputs: &[u64]) -> Vec<u64> {
        let results = run(self.builder.ops(), inputs);
        self.outputs.iter().map(|v| read(v, &results, inputs)).collect()
    }
}

fn jump_branch_lookup_outputs(input_bits: u64, funct3: u64) -> [u64; 1] {
    let uf = input_bits & 1;
    let out_is_zero = (input_bits >> 1) & 1;
    let sign1 = (input_bits >> 2) & 1;
    let sign2 = (input_bits >> 3) & 1;

    let eq = out_is_zero != 0;
    let unsigned_lt = uf != 0;
    let signed_lt = if sign1 ^ sign2 == 1 { sign1 != 0 } else { unsigned_lt };

    let flag = match funct3 {
        0b000 => eq,
        0b001 => !eq,
        0b010 | 0b100 => signed_lt,
        0b011 | 0b110 => unsigned_lt,
        0b101 => !signed_lt,
        0b111 => !unsigned_lt,
        _ => unreachable!(),
    };

    [flag as u64]
}

fn jump_cleanup_offset_outputs(input: u64) -> [u64; 2] {
    [(input >> 1) & 1, input & !0x3]
}

fn memory_get_offset_and_mask_with_trap_outputs(input: u64) -> [u64; 2] {
    let mem_address_low = input & 0xffff;
    let funct3 = (input >> 16) & 0b111;
    let is_store = ((input >> 17) & 1) != 0;
    let rd_is_x0 = ((input >> 18) & 1) != 0;

    let offset = mem_address_low & 0b11;
    let mut less_than_word = false;
    let mut is_trap = match (funct3, offset) {
        (0b010, offset) => offset != 0,
        (0b001, offset) | (0b101, offset) => {
            less_than_word = true;
            offset & 1 != 0
        }
        (0b000, _) | (0b100, _) => {
            less_than_word = true;
            false
        }
        _ => true,
    };
    let valid_funct3_for_load = matches!(funct3, 0b000 | 0b001 | 0b010 | 0b100 | 0b101);

    if valid_funct3_for_load && !is_store && rd_is_x0 {
        is_trap = false;
    }

    let use_high_limb = offset > 1;
    let mut bitmask = less_than_word as u64;
    bitmask |= (use_high_limb as u64) << 1;
    bitmask |= (is_trap as u64) << 2;

    [offset, bitmask]
}

fn rom_address_space_separator_outputs(input: u64) -> [u64; 2] {
    let bound = 1u64 << ROM_SECOND_WORD_BITS;
    [(input >= bound) as u64, input % bound]
}

fn memory_load_halfword_or_byte_outputs(input: u64) -> [u64; 2] {
    let limb_value = input & 0xffff;
    let offset = (input >> 16) & 0b11;
    let funct3 = (input >> 18) & 0b111;
    let use_low_byte = offset & 1 == 0;

    match (funct3, offset) {
        (0b010, _) => [0, 0],
        (0b001, offset) => {
            if offset & 1 != 0 {
                [0, 0]
            } else if (limb_value >> 15) != 0 {
                [limb_value, 0xffff]
            } else {
                [limb_value, 0]
            }
        }
        (0b101, offset) => {
            if offset & 1 != 0 {
                [0, 0]
            } else {
                [limb_value, 0]
            }
        }
        (0b000, _) => {
            let source = if use_low_byte { limb_value & 0xff } else { limb_value >> 8 };
            if (source >> 7) != 0 {
                [source | 0xff00, 0xffff]
            } else {
                [source, 0]
            }
        }
        (0b100, _) => {
            let source = if use_low_byte { limb_value & 0xff } else { limb_value >> 8 };
            [source, 0]
        }
        _ => [0, 0],
    }
}

fn mem_store_clear_original_ram_value_limb_outputs(input: u64) -> [u64; 2] {
    let limb_value = input & 0xffff;
    let offset = (input >> 16) & 0b11;
    let funct3 = (input >> 18) & 0b111;

    let cleaned_value = match (funct3, offset) {
        (0b010, _) | (0b001, _) => 0,
        (0b000, offset) => {
            let mask = if offset & 1 != 0 { 0x00ff } else { 0xff00 };
            limb_value & mask
        }
        _ => 0,
    };

    [cleaned_value, 0]
}

fn mem_store_clear_written_value_limb_outputs(input: u64) -> [u64; 2] {
    let limb_value = input & 0xffff;
    let offset = (input >> 16) & 0b11;
    let funct3 = (input >> 18) & 0b111;

    let cleaned_value = match (funct3, offset) {
        (0b010, _) => 0,
        (0b001, _) => limb_value,
        (0b000, offset) => {
            let value_to_store = limb_value & 0xff;
            if offset & 1 != 0 {
                value_to_store << 8
            } else {
                value_to_store
            }
        }
        _ => 0,
    };

    [cleaned_value, 0]
}

#[test]
fn jump_branch_lookup_semantics_match_table_driver() {
    let flags = Lookup::new(TableType::ConditionalJmpBranchSlt, 2, 1);
    for input_bits in 0..(1 << 4) {
        for funct3 in 0..(1 << 3) {
            assert_eq!(
                flags.values(&[input_bits, funct3]),
                jump_branch_lookup_outputs(input_bits, funct3),
            );
        }
    }

    let cleanup = Lookup::new(TableType::JumpCleanupOffset, 1, 2);
    for input in 0..(1 << 16) {
        assert_eq!(cleanup.values(&[input]), jump_cleanup_offset_outputs(input));
    }
}

#[test]
fn subword_lookup_semantics_match_table_driver() {
    let masks = Lookup::new(TableType::MemoryGetOffsetAndMaskWithTrap, 1, 2);
    for address_low in [0u64, 1, 2, 3, 0x1234, 0xffff] {
        for funct3 in 0..8u64 {
            for is_store in 0..=1u64 {
                for rd_is_x0 in 0..=1u64 {
                    let input = address_low | (funct3 << 16) | (is_store << 17) | (rd_is_x0 << 18);
                    assert_eq!(
                        masks.values(&[input]),
                        memory_get_offset_and_mask_with_trap_outputs(input),
                    );
                }
            }
        }
    }

    let separator = Lookup::new(TableType::RomAddressSpaceSeparator, 1, 2);
    let rom_bound = 1u64 << ROM_SECOND_WORD_BITS;
    for input in [0u64, 1, rom_bound.saturating_sub(1), rom_bound, rom_bound + 1, 0xffff] {
        assert_eq!(separator.values(&[input]), rom_address_space_separator_outputs(input));
    }

    let load = Lookup::new(TableType::MemoryLoadHalfwordOrByte, 1, 2);
    let original = Lookup::new(TableType::MemStoreClearOriginalRamValueLimb, 1, 2);
    let written = Lookup::new(TableType::MemStoreClearWrittenValueLimb, 1, 2);
    let limb_values = [0u64, 1, 0x7f, 0x80, 0xff, 0x100, 0x7fff, 0x8000, 0xffff];
    for limb_value in limb_values {
        for offset in 0..4u64 {
            for funct3 in 0..8u64 {
                let input = limb_value | (offset << 16) | (funct3 << 18);
                assert_eq!(load.values(&[input]), memory_load_halfword_or_byte_outputs(input));
                assert_eq!(
                    original.values(&[input]),
                    mem_store_clear_original_ram_value_limb_outputs(input),
                );
                assert_eq!(
                    written.values(&[input]),
                    mem_store_clear_written_value_limb_outputs(input),
                );
            }
        }
    }
}

fn ids() -> TableIds {
    TableIds {
        conditional_jmp_branch_slt: 1,
        jump_cleanup_offset: 2,
        memory_get_offset_and_mask_with_trap: 3,
        rom_address_space_separator: 4,
        memory_load_halfword_or_byte: 5,
        mem_store_clear_original_ram_value_limb: 6,
        mem_store_clear_written_value_limb: 7,
        aligned_rom_read: 8,
    }
}

#[test]
fn masked_outputs_are_zero() {
    let (mut builder, values) = felt_body(2);
    let mask = builder.append_field_is_nonzero(values[1]);
    let out =
        compute_lookup_for_table(&mut builder, TableType::JumpCleanupOffset, &vec![values[0]], 2)
            .unwrap();
    let masked = mask_lookup_outputs(&mut builder, mask, &out);
    for (flag, expected) in [(1u64, [1u64, 4]), (0, [0, 0])] {
        let args = [7u64, flag];
        let results = run(builder.ops(), &args);
        let got: Vec<u64> = masked.iter().map(|v| read(v, &results, &args)).collect();
        assert_eq!(got, expected);
    }
}

#[test]
fn a_table_number_selects_the_table() {
    let (mut builder, values) = felt_body(2);
    let out = compute_dynamic_lookup(&mut builder, &ids(), values[1], &vec![values[0]], 2);
    let selected = |key: u64, table: u32| -> Vec<u64> {
        let args = [key, table as u64];
        let results = run(builder.ops(), &args);
        out.iter().map(|v| read(v, &results, &args)).collect()
    };
    for key in [0, 7, 0x1237, 0x5_fffe, 0x14_00ff] {
        let offset = memory_get_offset_and_mask_with_trap_outputs(key);
        assert_eq!(selected(key, ids().jump_cleanup_offset), jump_cleanup_offset_outputs(key));
        assert_eq!(selected(key, ids().memory_get_offset_and_mask_with_trap), offset);
        assert_eq!(
            selected(key, ids().memory_load_halfword_or_byte),
            memory_load_halfword_or_byte_outputs(key)
        );
    }
    assert_eq!(
        selected(0x1041, ids().rom_address_space_separator),
        rom_address_space_separator_outputs(0x1041)
    );
}

#[test]
fn missing_outputs_are_zero_and_surplus_outputs_are_dropped() {
    let more = Lookup::new(TableType::JumpCleanupOffset, 1, 3);
    assert_eq!(more.values(&[7]), [1, 4, 0]);
    let fewer = Lookup::new(TableType::JumpCleanupOffset, 1, 1);
    assert_eq!(fewer.values(&[7]), [1]);
}

#[test]
fn the_number_of_inputs_must_be_that_of_the_table() {
    let (mut builder, values) = felt_body(2);
    let r = compute_lookup_for_table(&mut builder, TableType::JumpCleanupOffset, &values, 2);
    assert!(matches!(r, Err(LlzkError::WrongInputCount)));
    assert!(builder.ops().is_empty());
}

fn u32_of(value: &IntegerValue, results: &[u64], args: &[u64]) -> u64 {
    match value {
        IntegerValue::U8(v) | IntegerValue::U16(v) => read(v, results, args),
        IntegerValue::U32(p) => {
            read(&p.low, results, args) + 0x1_0000 * read(&p.high, results, args)
        }
    }
}

fn limbs(x: u32) -> [u64; 2] {
    [(x & 0xffff) as u64, (x >> 16) as u64]
}

const SAMPLES: [u32; 8] =
    [0, 1, 0xffff, 0x1_0000, 0x7fff_ffff, 0x8000_0000, 0xdead_beef, 0xffff_ffff];

#[test]
fn word_arithmetic_is_that_of_the_machine() {
    let (mut b, v) = felt_body(4);
    let x = IntegerValue::U32(U32Parts { low: v[0], high: v[1] });
    let y = IntegerValue::U32(U32Parts { low: v[2], high: v[3] });
    let (sum, carry) = integers::overflowing_add(&mut b, x, y).unwrap();
    let (difference, borrow) = integers::overflowing_sub(&mut b, x, y).unwrap();
    let equal = integers::integer_equal(&mut b, x, y).unwrap();
    let not = integers::bitwise_not(&mut b, x);
    let xor = integers::bitwise_binop(&mut b, FeltBinary::BitXor, x, y).unwrap();
    let in_field = integers::integer_to_field(&mut b, x);
    for p in SAMPLES {
        for q in SAMPLES {
            let args = [limbs(p), limbs(q)].concat();
            let results = run(b.ops(), &args);
            let (s, c) = p.overflowing_add(q);
            let (d, w) = p.overflowing_sub(q);
            assert_eq!(u32_of(&sum, &results, &args), s as u64);
            assert_eq!(read(&carry, &results, &args), c as u64);
            assert_eq!(u32_of(&difference, &results, &args), d as u64);
            assert_eq!(read(&borrow, &results, &args), w as u64);
            assert_eq!(read(&equal, &results, &args), (p == q) as u64);
            assert_eq!(u32_of(&not, &results, &args), !p as u64);
            assert_eq!(u32_of(&xor, &results, &args), (p ^ q) as u64);
            assert_eq!(read(&in_field, &results, &args), p as u64 % P);
        }
    }
}

#[test]
fn word_shifts_are_those_of_the_machine() {
    for magnitude in [0u32, 1, 7, 15, 16, 17, 31] {
        let (mut b, v) = felt_body(2);
        let x = IntegerValue::U32(U32Parts { low: v[0], high: v[1] });
        let left = integers::shift_left(&mut b, x, magnitude);
        let right = integers::shift_right(&mut b, x, magnitude);
        let low = integers::lowest_bits(&mut b, x, magnitude);
        for p in SAMPLES {
            let args = limbs(p);
            let results = run(b.ops(), &args);
            assert_eq!(u32_of(&left, &results, &args), (p << magnitude) as u64);
            assert_eq!(u32_of(&right, &results, &args), (p >> magnitude) as u64);
            assert_eq!(u32_of(&low, &results, &args), (p as u64) % (1u64 << magnitude));
        }
    }
}

#[test]
fn widths_must_agree() {
    let (mut b, v) = felt_body(2);
    let r = integers::overflowing_add(&mut b, IntegerValue::U8(v[0]), IntegerValue::U16(v[1]));
    assert!(matches!(r, Err(LlzkError::WidthMismatch)));
}
