//! Lowering of the expressions of a witness program.
use vstd::prelude::*;

use std::collections::HashMap;

use crate::circuit::Placeholder;
use crate::circuit::Substitution;
use crate::circuit::TableIds;
use crate::circuit::Variable;
use crate::llzk::builder;
use crate::llzk::builder::LlzkError;
use crate::llzk::builder::OpsBuilder;
use crate::llzk::builder::Value;
use crate::llzk::constraints;
use crate::llzk::integers;
use crate::llzk::integers::IntSym;
use crate::llzk::integers::IntegerValue;
use crate::llzk::integers::U32Parts;
use crate::llzk::ir;
use crate::llzk::ir::BoolBinary;
use crate::llzk::ir::Comparison;
use crate::llzk::ir::ConstType;
use crate::llzk::ir::Effect;
use crate::llzk::ir::FeltBinary;
use crate::llzk::ir::FeltUnary;
use crate::llzk::ir::Sym;
use crate::llzk::ir::ValueType;
use crate::llzk::lowering;
use crate::llzk::lowering::ComputeScope;
use crate::llzk::lowering::ComputedValue;
use crate::llzk::lowering::IntReading;
use crate::llzk::lowering::SsaSlot;
use crate::llzk::lowering::READ_FROM_MEMORY_SUBTREE_HOOK;
use crate::llzk::lowering::READ_ORACLE_BOOL_HOOK;
use crate::llzk::lowering::READ_ORACLE_FIELD_HOOK;
use crate::llzk::lowering::READ_ORACLE_U16_HOOK;
use crate::llzk::lowering::READ_ORACLE_U32_HOOK;
use crate::llzk::lowering::READ_ORACLE_U8_HOOK;
use crate::llzk::lowering::WRITE_TO_MEMORY_SUBTREE_HOOK;
use crate::llzk::oracle::encode_oracle_placeholder;
use crate::llzk::ssa::BoolNodeExpression;
use crate::llzk::ssa::ColumnAddress;
use crate::llzk::ssa::FieldNodeExpression;
use crate::llzk::ssa::FixedWidthIntegerNodeExpression;
use crate::llzk::ssa::RawExpression;
use crate::llzk::ssa::TableIndex;
use crate::llzk::vars;
use crate::llzk::vars::StructVars;

verus! {

/// What a block is lowered against, with the slots filled so far.
pub struct ComputeLowering<'a> {
    pub vars: &'a StructVars,
    pub self_value: Value,
    pub variable_mapping: &'a HashMap<u64, ColumnAddress>,
    pub lookup_tables: &'a Vec<TableIndex>,
    pub table_ids: &'a TableIds,
    pub substitutions: &'a Vec<Substitution>,
    pub has_runtime_memory_reads: bool,
    pub block: &'a Vec<RawExpression>,
    pub slots: Vec<SsaSlot>,
    pub slot_input_origins: Vec<Option<Variable>>,
}

impl<'a> ComputeLowering<'a> {
    /// What the steps are lowered against, given the arguments of the function.
    pub open spec fn scope(self, args: Seq<ValueType>) -> ComputeScope {
        ComputeScope {
            args_map: self.vars.args_map(),
            members: self.vars.members(),
            args,
            component: self.self_value.sym@,
            mapping: self.variable_mapping@,
            lookup_tables: self.lookup_tables@,
            ids: *self.table_ids,
            substitutions: self.substitutions@,
            reads_memory: self.has_runtime_memory_reads,
            block: self.block@,
            slots: self.slots@.map_values(|s: SsaSlot| s.sym()),
            origins: self.slot_input_origins@,
        }
    }

    /// Whether the slots are made of values of a body.
    pub open spec fn within(self, b: OpsBuilder) -> bool {
        &&& b.has(self.self_value)
        &&& forall|i: int| 0 <= i < self.slots@.len() ==> (#[trigger] self.slots@[i]).within(b)
    }

    /// Values stay when a body continues.
    pub proof fn lemma_within(self, before: OpsBuilder, after: OpsBuilder)
        requires
            self.within(before),
            after.continues(before),
        ensures
            self.within(after),
    {
        assert forall|i: int| 0 <= i < self.slots@.len() implies (
        #[trigger] self.slots@[i]).within(after) by {
            assert(self.slots@[i].within(before));
            if let SsaSlot::Lookup(vs) = self.slots@[i] {
                assert forall|j: int| 0 <= j < vs@.len() implies after.has(#[trigger] vs@[j]) by {
                    assert(before.has(vs@[j]));
                }
            }
        }
    }
}

/// Whether an integer of a body is the outcome of a computation.
pub open spec fn is_int_reading(
    before: OpsBuilder,
    after: OpsBuilder,
    r: Result<IntegerValue, LlzkError>,
    expected: Result<IntReading, LlzkError>,
) -> bool {
    &&& after.continues(before)
    &&& match (r, expected) {
        (Ok(v), Ok(reading)) => {
            &&& v.within(after)
            &&& v.sym() == reading.int
            &&& after.effects() == before.effects() + reading.effects
        },
        (Err(e), Err(x)) => e == x,
        _ => false,
    }
}

/// Whether a value of a body is an expected term that needed no effect.
pub open spec fn is_plain(
    before: OpsBuilder,
    after: OpsBuilder,
    r: Result<Value, LlzkError>,
    expected: Result<Sym, LlzkError>,
) -> bool {
    &&& after.purely_continues(before)
    &&& match (r, expected) {
        (Ok(v), Ok(s)) => after.has(v) && v.sym@ == s,
        (Err(e), Err(x)) => e == x,
        _ => false,
    }
}

impl<'a> ComputeLowering<'a> {
    pub(crate) fn find_substitution(&self, placeholder: Placeholder, subindex: usize) -> (r: Option<Variable>)
        ensures
            r == lowering::substituted(self.substitutions@, placeholder, subindex),
    {
        let ghost subs = self.substitutions@;
        assert(subs.skip(0) =~= subs);
        let mut i: usize = 0;
        while i < self.substitutions.len()
            invariant
                subs == self.substitutions@,
                i <= subs.len(),
                lowering::substituted(subs, placeholder, subindex) == lowering::substituted(
                    subs.skip(i as int),
                    placeholder,
                    subindex,
                ),
            decreases subs.len() - i,
        {
            let s = self.substitutions[i];
            assert(subs.skip(i as int)[0] == s);
            assert(subs.skip(i as int).skip(1) =~= subs.skip(i + 1));
            if s.placeholder == placeholder && s.subindex == subindex {
                return Some(s.variable);
            }
            i = i + 1;
        }
        None
    }

    /// Reads a memory column through its hook.
    pub(crate) fn read_memory_subtree(&self, builder: &mut OpsBuilder, offset: usize) -> (r: Result<
        Value,
        LlzkError,
    >)
        ensures
            vars::is_required_reading(
                *old(builder),
                *final(builder),
                r,
                lowering::memory_reading(offset, old(builder).effects().len()),
            ),
    {
        let ghost start = builder.effects();
        let position = builder.get_constant_from_start(ConstType::Index, offset as u64)?;
        let args = vec![position];
        assert(builder::syms(args@) =~= seq![ir::index(offset as u64)]);
        let r = builder.append_call_with_result(
            READ_FROM_MEMORY_SUBTREE_HOOK,
            &args,
            ValueType::Felt,
        );
        assert(builder.effects() =~= start + lowering::memory_reading(
            offset,
            start.len(),
        )->Ok_0.effects);
        Ok(r)
    }

    /// Writes a memory column through its hook.
    pub(crate) fn write_memory_subtree(&self, builder: &mut OpsBuilder, offset: usize, value: Value) -> (r:
        Result<(), LlzkError>)
        requires
            old(builder).has(value),
        ensures
            constraints::has_effects(
                *old(builder),
                *final(builder),
                r,
                lowering::memory_writing(offset, value.sym@),
            ),
    {
        let ghost start = builder.effects();
        let position = builder.get_constant_from_start(ConstType::Index, offset as u64)?;
        let args = vec![position, value];
        assert(builder::syms(args@) =~= seq![ir::index(offset as u64), value.sym@]);
        builder.append_call_no_results(WRITE_TO_MEMORY_SUBTREE_HOOK, &args);
        assert(builder.effects() =~= start + lowering::memory_writing(offset, value.sym@)->Ok_0);
        Ok(())
    }

    /// Reads a variable: an argument, a member, or a memory column.
    fn read_variable(&self, builder: &mut OpsBuilder, variable: Variable) -> (r: Result<
        Value,
        LlzkError,
    >)
        requires
            self.within(*old(builder)),
        ensures
            vars::is_required_reading(
                *old(builder),
                *final(builder),
                r,
                lowering::variable_reading(
                    self.scope(old(builder).arguments()),
                    variable,
                    old(builder).effects().len(),
                ),
            ),
    {
        let exposed = self.vars.try_get_compute_val(builder, self.self_value, &variable)?;
        if let Some(value) = exposed {
            return Ok(value);
        }
        match self.variable_mapping.get(&variable.0) {
            Some(ColumnAddress::MemorySubtree(offset)) => self.read_memory_subtree(
                builder,
                *offset,
            ),
            _ => Err(LlzkError::NotExposed),
        }
    }

    /// Reads a limb of a placeholder from the arguments, if it is there.
    fn try_read_placeholder_input_limb(
        &self,
        builder: &mut OpsBuilder,
        placeholder: Placeholder,
        subindex: usize,
    ) -> (r: Result<Option<Value>, LlzkError>)
        ensures
            vars::is_reading(
                *old(builder),
                *final(builder),
                r,
                lowering::limb_reading(
                    self.scope(old(builder).arguments()),
                    placeholder,
                    subindex,
                ),
            ),
    {
        match self.find_substitution(placeholder, subindex) {
            None => Ok(None),
            Some(variable) => self.vars.try_get_compute_input_val(builder, &variable),
        }
    }

    fn oracle_placeholder_args(&self, builder: &mut OpsBuilder, placeholder: Placeholder) -> (r: Vec<
        Value,
    >)
        ensures
            final(builder).purely_continues(*old(builder)),
            final(builder).has_all(r@),
            builder::syms(r@) == lowering::placeholder_args(placeholder),
    {
        let encoded = encode_oracle_placeholder(placeholder);
        let kind = builder.get_felt_constant_from_start(encoded.kind);
        let arg0 = builder.get_felt_constant_from_start(encoded.arg0);
        let arg1 = builder.get_felt_constant_from_start(encoded.arg1);
        let r = vec![kind, arg0, arg1];
        assert(builder::syms(r@) =~= lowering::placeholder_args(placeholder));
        r
    }

    /// Reads a field placeholder: an argument, or a hook.
    fn read_field_oracle(
        &self,
        builder: &mut OpsBuilder,
        placeholder: Placeholder,
        subindex: usize,
    ) -> (r: Result<Value, LlzkError>)
        ensures
            vars::is_required_reading(
                *old(builder),
                *final(builder),
                r,
                lowering::field_oracle_reading(
                    self.scope(old(builder).arguments()),
                    placeholder,
                    subindex,
                    old(builder).effects().len(),
                ),
            ),
    {
        let ghost start = builder.effects();
        let ghost sc = self.scope(builder.arguments());
        let input = self.try_read_placeholder_input_limb(builder, placeholder, subindex)?;
        if let Some(value) = input {
            return Ok(value);
        }
        let mut args = self.oracle_placeholder_args(builder, placeholder);
        let ghost named = args@;
        let ghost before = *builder;
        let limb = builder.get_felt_constant_from_start(subindex as u64);
        args.push(limb);
        assert forall|j: int| 0 <= j < args@.len() implies builder.has(#[trigger] args@[j]) by {
            if j < named.len() {
                assert(before.has(named[j]));
            }
        }
        assert(builder::syms(args@) =~= lowering::placeholder_args(placeholder).push(
            ir::felt(subindex as u64),
        )) by {
            assert(builder::syms(args@) =~= builder::syms(named).push(limb.sym@));
        }
        let r = builder.append_call_with_result(READ_ORACLE_FIELD_HOOK, &args, ValueType::Felt);
        assert(builder.effects() =~= start + lowering::field_oracle_reading(
            sc,
            placeholder,
            subindex,
            start.len(),
        )->Ok_0.effects);
        Ok(r)
    }

    /// Reads a boolean placeholder: whether an argument is nonzero, or a hook.
    fn read_bool_oracle(&self, builder: &mut OpsBuilder, placeholder: Placeholder) -> (r: Result<
        Value,
        LlzkError,
    >)
        ensures
            vars::is_required_reading(
                *old(builder),
                *final(builder),
                r,
                lowering::bool_oracle_reading(
                    self.scope(old(builder).arguments()),
                    placeholder,
                    old(builder).effects().len(),
                ),
            ),
    {
        let ghost start = builder.effects();
        let ghost sc = self.scope(builder.arguments());
        let input = self.try_read_placeholder_input_limb(builder, placeholder, 0)?;
        if let Some(value) = input {
            return Ok(builder.append_field_is_nonzero(value));
        }
        let args = self.oracle_placeholder_args(builder, placeholder);
        let r = builder.append_call_with_result(READ_ORACLE_BOOL_HOOK, &args, ValueType::Bool);
        assert(builder.effects() =~= start + lowering::bool_oracle_reading(
            sc,
            placeholder,
            start.len(),
        )->Ok_0.effects);
        Ok(r)
    }

    /// Reads a placeholder of one small integer: an argument, or the given hook.
    fn read_small_oracle(&self, builder: &mut OpsBuilder, hook: &str, placeholder: Placeholder) -> (r:
        Result<Value, LlzkError>)
        ensures
            vars::is_required_reading(
                *old(builder),
                *final(builder),
                r,
                lowering::oracle_reading(
                    self.scope(old(builder).arguments()),
                    hook@,
                    placeholder,
                    old(builder).effects().len(),
                ),
            ),
    {
        let ghost start = builder.effects();
        let ghost sc = self.scope(builder.arguments());
        let input = self.try_read_placeholder_input_limb(builder, placeholder, 0)?;
        if let Some(value) = input {
            return Ok(value);
        }
        let args = self.oracle_placeholder_args(builder, placeholder);
        let r = builder.append_call_with_result(hook, &args, ValueType::Felt);
        assert(builder.effects() =~= start + lowering::oracle_reading(
            sc,
            hook@,
            placeholder,
            start.len(),
        )->Ok_0.effects);
        Ok(r)
    }

    /// Reads a 32-bit placeholder from two arguments, if it is there.
    fn try_read_u32_placeholder_input(&self, builder: &mut OpsBuilder, placeholder: Placeholder) -> (r:
        Result<Option<U32Parts>, LlzkError>)
        ensures
            final(builder).continues(*old(builder)),
            match r {
                Ok(None) => {
                    &&& final(builder).effects() == old(builder).effects()
                    &&& lowering::u32_oracle_reading(
                        self.scope(old(builder).arguments()),
                        placeholder,
                        old(builder).effects().len(),
                    ) == Ok::<IntReading, LlzkError>(
                        (IntReading {
                            int: IntSym::U32(
                                Sym::Result(old(builder).effects().len(), 0),
                                Sym::Result(old(builder).effects().len(), 1),
                            ),
                            effects: seq![
                                Effect::Call(
                                    READ_ORACLE_U32_HOOK@,
                                    lowering::placeholder_args(placeholder),
                                    2,
                                ),
                            ],
                        }),
                    )
                },
                Ok(Some(parts)) => is_int_reading(
                    *old(builder),
                    *final(builder),
                    Ok(IntegerValue::U32(parts)),
                    lowering::u32_oracle_reading(
                        self.scope(old(builder).arguments()),
                        placeholder,
                        old(builder).effects().len(),
                    ),
                ),
                Err(e) => lowering::u32_oracle_reading(
                    self.scope(old(builder).arguments()),
                    placeholder,
                    old(builder).effects().len(),
                ) == Err::<IntReading, LlzkError>(e),
            },
    {
        let low_var = match self.find_substitution(placeholder, 0) {
            None => {
                return Ok(None);
            },
            Some(v) => v,
        };
        let high_var = match self.find_substitution(placeholder, 1) {
            None => {
                return Err(LlzkError::MissingHighLimb);
            },
            Some(v) => v,
        };
        let ghost start = builder.effects();
        let low = self.vars.try_get_compute_input_val(builder, &low_var)?;
        let high = self.vars.try_get_compute_input_val(builder, &high_var)?;
        match (low, high) {
            (Some(low), Some(high)) => {
                assert(builder.effects() =~= start + lowering::u32_oracle_reading(
                    self.scope(old(builder).arguments()),
                    placeholder,
                    start.len(),
                )->Ok_0.effects);
                Ok(Some(U32Parts { low, high }))
            },
            (None, None) => Ok(None),
            _ => Err(LlzkError::PartiallyExposed),
        }
    }

    /// Reads a 32-bit placeholder: two arguments, or a hook with two results.
    fn read_u32_oracle(&self, builder: &mut OpsBuilder, placeholder: Placeholder) -> (r: Result<
        IntegerValue,
        LlzkError,
    >)
        ensures
            is_int_reading(
                *old(builder),
                *final(builder),
                r,
                lowering::u32_oracle_reading(
                    self.scope(old(builder).arguments()),
                    placeholder,
                    old(builder).effects().len(),
                ),
            ),
    {
        let ghost start = builder.effects();
        let input = self.try_read_u32_placeholder_input(builder, placeholder)?;
        if let Some(parts) = input {
            return Ok(IntegerValue::U32(parts));
        }
        let args = self.oracle_placeholder_args(builder, placeholder);
        let (low, high) = builder.append_call_with_two_results(READ_ORACLE_U32_HOOK, &args);
        assert(builder.effects() =~= start + seq![
            Effect::Call(READ_ORACLE_U32_HOOK@, lowering::placeholder_args(placeholder), 2),
        ]);
        Ok(IntegerValue::U32(U32Parts { low, high }))
    }

    /// A slot as a field value.
    pub(crate) fn slot_as_field(&self, builder: &mut OpsBuilder, idx: usize) -> (r: Result<Value, LlzkError>)
        requires
            self.within(*old(builder)),
        ensures
            is_plain(
                *old(builder),
                *final(builder),
                r,
                lowering::slot_field(self.scope(old(builder).arguments()), idx),
            ),
    {
        if idx >= self.slots.len() {
            return Err(LlzkError::SlotOutOfBounds);
        }
        assert(self.slots@[idx as int].within(*builder));
        match &self.slots[idx] {
            SsaSlot::Value(ComputedValue::Field(value)) => Ok(*value),
            SsaSlot::Value(ComputedValue::Integer(value)) => Ok(
                integers::integer_to_field(builder, *value),
            ),
            SsaSlot::Value(ComputedValue::Bool(value)) => Ok(builder.append_bool_to_field(*value)),
            SsaSlot::Lookup(_) => Err(LlzkError::WrongSlotKind),
            SsaSlot::Unit => Err(LlzkError::WrongSlotKind),
        }
    }

    /// A slot as a boolean.
    pub(crate) fn slot_as_bool(&self, builder: &OpsBuilder, idx: usize) -> (r: Result<Value, LlzkError>)
        requires
            self.within(*builder),
        ensures
            match (r, lowering::slot_bool(self.scope(builder.arguments()), idx)) {
                (Ok(v), Ok(s)) => builder.has(v) && v.sym@ == s,
                (Err(e), Err(x)) => e == x,
                _ => false,
            },
    {
        if idx >= self.slots.len() {
            return Err(LlzkError::SlotOutOfBounds);
        }
        assert(self.slots@[idx as int].within(*builder));
        match &self.slots[idx] {
            SsaSlot::Value(ComputedValue::Bool(value)) => Ok(*value),
            _ => Err(LlzkError::WrongSlotKind),
        }
    }

    /// A slot as an integer.
    fn slot_as_integer(&self, builder: &OpsBuilder, idx: usize) -> (r: Result<
        IntegerValue,
        LlzkError,
    >)
        requires
            self.within(*builder),
        ensures
            match (r, lowering::slot_integer(self.scope(builder.arguments()), idx)) {
                (Ok(v), Ok(s)) => v.within(*builder) && v.sym() == s,
                (Err(e), Err(x)) => e == x,
                _ => false,
            },
    {
        if idx >= self.slots.len() {
            return Err(LlzkError::SlotOutOfBounds);
        }
        assert(self.slots@[idx as int].within(*builder));
        match &self.slots[idx] {
            SsaSlot::Value(ComputedValue::Integer(value)) => Ok(*value),
            _ => Err(LlzkError::WrongSlotKind),
        }
    }

    /// An output of a lookup slot.
    pub(crate) fn lookup_output(&self, builder: &OpsBuilder, idx: usize, output_index: usize) -> (r: Result<
        Value,
        LlzkError,
    >)
        requires
            self.within(*builder),
        ensures
            match (r, lowering::slot_lookup(self.scope(builder.arguments()), idx)) {
                (Ok(v), Ok(vs)) => {
                    &&& output_index < vs.len()
                    &&& builder.has(v)
                    &&& v.sym@ == vs[output_index as int]
                },
                (Err(e), Ok(vs)) => {
                    &&& output_index >= vs.len()
                    &&& e == LlzkError::LookupOutputOutOfBounds
                },
                (Err(e), Err(x)) => e == x,
                _ => false,
            },
    {
        if idx >= self.slots.len() {
            return Err(LlzkError::SlotOutOfBounds);
        }
        assert(self.slots@[idx as int].within(*builder));
        match &self.slots[idx] {
            SsaSlot::Lookup(values) => {
                if output_index >= values.len() {
                    Err(LlzkError::LookupOutputOutOfBounds)
                } else {
                    assert(builder.has(values@[output_index as int]));
                    Ok(values[output_index])
                }
            },
            _ => Err(LlzkError::WrongSlotKind),
        }
    }
}

impl FieldNodeExpression {
    /// Lowers the expression.
    #[verifier::rlimit(60)]
    pub fn emit_compute(&self, lowering: &ComputeLowering, builder: &mut OpsBuilder) -> (r: Result<
        Value,
        LlzkError,
    >)
        requires
            lowering.within(*old(builder)),
        ensures
            vars::is_required_reading(
                *old(builder),
                *final(builder),
                r,
                lowering::field_lowering(
                    lowering.scope(old(builder).arguments()),
                    *self,
                    old(builder).effects().len(),
                ),
            ),
        decreases self,
    {
        let ghost start = builder.effects();
        let ghost k = start.len();
        let ghost sc = lowering.scope(builder.arguments());
        assert(start =~= start + Seq::<Effect>::empty());
        match self {
            FieldNodeExpression::Place(variable) => lowering.read_variable(builder, *variable),
            FieldNodeExpression::SubExpression(idx) => lowering.slot_as_field(builder, *idx),
            FieldNodeExpression::Constant(constant) => Ok(
                builder.get_felt_constant_from_start(constant.as_u64_reduced()),
            ),
            FieldNodeExpression::FromInteger(expr) => {
                let value = expr.emit_compute(lowering, builder)?;
                Ok(integers::integer_to_field(builder, value))
            },
            FieldNodeExpression::FromMask(expr) => {
                let value = expr.emit_compute(lowering, builder)?;
                Ok(builder.append_bool_to_field(value))
            },
            FieldNodeExpression::OracleValue { placeholder, subindex } => lowering.read_field_oracle(
                builder,
                *placeholder,
                *subindex,
            ),
            FieldNodeExpression::Add { lhs, rhs } => {
                let a = lhs.emit_compute(lowering, builder)?;
                proof {
                    lowering.lemma_within(*old(builder), *builder);
                }
                let b = rhs.emit_compute(lowering, builder)?;
                let r = builder.append_felt_binary(FeltBinary::Add, a, b);
                assert(builder.effects() =~= start + lowering::field_lowering(sc, *self, k)->Ok_0.effects);
                Ok(r)
            },
            FieldNodeExpression::Sub { lhs, rhs } => {
                let a = lhs.emit_compute(lowering, builder)?;
                proof {
                    lowering.lemma_within(*old(builder), *builder);
                }
                let b = rhs.emit_compute(lowering, builder)?;
                let r = builder.append_felt_binary(FeltBinary::Sub, a, b);
                assert(builder.effects() =~= start + lowering::field_lowering(sc, *self, k)->Ok_0.effects);
                Ok(r)
            },
            FieldNodeExpression::Mul { lhs, rhs } => {
                let a = lhs.emit_compute(lowering, builder)?;
                proof {
                    lowering.lemma_within(*old(builder), *builder);
                }
                let b = rhs.emit_compute(lowering, builder)?;
                let r = builder.append_felt_binary(FeltBinary::Mul, a, b);
                assert(builder.effects() =~= start + lowering::field_lowering(sc, *self, k)->Ok_0.effects);
                Ok(r)
            },
            FieldNodeExpression::AddProduct { additive_term, mul_0, mul_1 } => {
                let x = mul_0.emit_compute(lowering, builder)?;
                proof {
                    lowering.lemma_within(*old(builder), *builder);
                }
                let y = mul_1.emit_compute(lowering, builder)?;
                proof {
                    lowering.lemma_within(*old(builder), *builder);
                }
                let product = builder.append_felt_binary(FeltBinary::Mul, x, y);
                let ghost first = lowering::field_lowering(sc, **mul_0, k);
                let ghost second = lowering::field_lowering(
                    sc,
                    **mul_1,
                    lowering::after(k, first),
                );
                let ghost es = first->Ok_0.effects + second->Ok_0.effects;
                assert(builder.effects() =~= start + es);
                assert(k + first->Ok_0.effects.len() + second->Ok_0.effects.len() == k + es.len());
                proof {
                    lowering.lemma_within(*old(builder), *builder);
                }
                let addend = additive_term.emit_compute(lowering, builder)?;
                let r = builder.append_felt_binary(FeltBinary::Add, addend, product);
                assert(builder.effects() =~= start + lowering::field_lowering(sc, *self, k)->Ok_0.effects);
                Ok(r)
            },
            FieldNodeExpression::Select { selector, if_true, if_false } => {
                let condition = selector.emit_compute(lowering, builder)?;
                proof {
                    lowering.lemma_within(*old(builder), *builder);
                }
                let a = if_true.emit_compute(lowering, builder)?;
                proof {
                    lowering.lemma_within(*old(builder), *builder);
                }
                let b = if_false.emit_compute(lowering, builder)?;
                let r = builder.append_select_value(condition, a, b);
                assert(builder.effects() =~= start + lowering::field_lowering(sc, *self, k)->Ok_0.effects);
                Ok(r)
            },
            FieldNodeExpression::InverseUnchecked(expr) => {
                let value = expr.emit_compute(lowering, builder)?;
                Ok(builder.append_felt_unary(FeltUnary::Inv, value))
            },
            FieldNodeExpression::InverseOrZero(_) => {
                let r = builder.new_nondet_felt();
                assert(builder.effects() =~= start + lowering::field_lowering(sc, *self, k)->Ok_0.effects);
                Ok(r)
            },
            FieldNodeExpression::LookupOutput { .. } => Err(LlzkError::LookupNotRewritten),
            FieldNodeExpression::MaybeLookupOutput { .. } => Err(LlzkError::LookupNotRewritten),
        }
    }
}

impl BoolNodeExpression {
    /// Lowers the expression.
    #[verifier::rlimit(60)]
    pub fn emit_compute(&self, lowering: &ComputeLowering, builder: &mut OpsBuilder) -> (r: Result<
        Value,
        LlzkError,
    >)
        requires
            lowering.within(*old(builder)),
        ensures
            vars::is_required_reading(
                *old(builder),
                *final(builder),
                r,
                lowering::bool_lowering(
                    lowering.scope(old(builder).arguments()),
                    *self,
                    old(builder).effects().len(),
                ),
            ),
        decreases self,
    {
        let ghost start = builder.effects();
        let ghost k = start.len();
        let ghost sc = lowering.scope(builder.arguments());
        assert(start =~= start + Seq::<Effect>::empty());
        match self {
            BoolNodeExpression::Place(variable) => {
                let value = lowering.read_variable(builder, *variable)?;
                Ok(builder.append_field_is_nonzero(value))
            },
            BoolNodeExpression::SubExpression(idx) => lowering.slot_as_bool(builder, *idx),
            BoolNodeExpression::Constant(constant) => Ok(builder.get_bool_constant_from_start(*constant)),
            BoolNodeExpression::OracleValue { placeholder } => lowering.read_bool_oracle(builder, *placeholder),
            BoolNodeExpression::FromGenericInteger(expr) => {
                let value = expr.emit_compute(lowering, builder)?;
                Ok(integers::integer_is_nonzero(builder, value))
            },
            BoolNodeExpression::FromGenericIntegerEquality { lhs, rhs } => {
                let a = lhs.emit_compute(lowering, builder)?;
                proof {
                    lowering.lemma_within(*old(builder), *builder);
                }
                let b = rhs.emit_compute(lowering, builder)?;
                let r = integers::integer_equal(builder, a, b)?;
                assert(builder.effects() =~= start + lowering::bool_lowering(sc, *self, k)->Ok_0.effects);
                Ok(r)
            },
            BoolNodeExpression::FromGenericIntegerCarry { lhs, rhs } => {
                let a = lhs.emit_compute(lowering, builder)?;
                proof {
                    lowering.lemma_within(*old(builder), *builder);
                }
                let b = rhs.emit_compute(lowering, builder)?;
                let (_, r) = integers::overflowing_add(builder, a, b)?;
                assert(builder.effects() =~= start + lowering::bool_lowering(sc, *self, k)->Ok_0.effects);
                Ok(r)
            },
            BoolNodeExpression::FromGenericIntegerBorrow { lhs, rhs } => {
                let a = lhs.emit_compute(lowering, builder)?;
                proof {
                    lowering.lemma_within(*old(builder), *builder);
                }
                let b = rhs.emit_compute(lowering, builder)?;
                let (_, r) = integers::overflowing_sub(builder, a, b)?;
                assert(builder.effects() =~= start + lowering::bool_lowering(sc, *self, k)->Ok_0.effects);
                Ok(r)
            },
            BoolNodeExpression::FromField(expr) => {
                let value = expr.emit_compute(lowering, builder)?;
                Ok(builder.append_field_is_nonzero(value))
            },
            BoolNodeExpression::FromFieldEquality { lhs, rhs } => {
                let a = lhs.emit_compute(lowering, builder)?;
                proof {
                    lowering.lemma_within(*old(builder), *builder);
                }
                let b = rhs.emit_compute(lowering, builder)?;
                let r = builder.append_compare(Comparison::Eq, a, b);
                assert(builder.effects() =~= start + lowering::bool_lowering(sc, *self, k)->Ok_0.effects);
                Ok(r)
            },
            BoolNodeExpression::And { lhs, rhs } => {
                let a = lhs.emit_compute(lowering, builder)?;
                proof {
                    lowering.lemma_within(*old(builder), *builder);
                }
                let b = rhs.emit_compute(lowering, builder)?;
                let r = builder.append_bool_binary(BoolBinary::And, a, b);
                assert(builder.effects() =~= start + lowering::bool_lowering(sc, *self, k)->Ok_0.effects);
                Ok(r)
            },
            BoolNodeExpression::Or { lhs, rhs } => {
                let a = lhs.emit_compute(lowering, builder)?;
                proof {
                    lowering.lemma_within(*old(builder), *builder);
                }
                let b = rhs.emit_compute(lowering, builder)?;
                let r = builder.append_bool_binary(BoolBinary::Or, a, b);
                assert(builder.effects() =~= start + lowering::bool_lowering(sc, *self, k)->Ok_0.effects);
                Ok(r)
            },
            BoolNodeExpression::Select { selector, if_true, if_false } => {
                let condition = selector.emit_compute(lowering, builder)?;
                proof {
                    lowering.lemma_within(*old(builder), *builder);
                }
                let a = if_true.emit_compute(lowering, builder)?;
                proof {
                    lowering.lemma_within(*old(builder), *builder);
                }
                let b = if_false.emit_compute(lowering, builder)?;
                let r = builder.append_select_value(condition, a, b);
                assert(builder.effects() =~= start + lowering::bool_lowering(sc, *self, k)->Ok_0.effects);
                Ok(r)
            },
            BoolNodeExpression::Negate(expr) => {
                let value = expr.emit_compute(lowering, builder)?;
                Ok(builder.append_bool_not(value))
            },
        }
    }
}

impl FixedWidthIntegerNodeExpression {
    /// Lowers the expression.
    #[verifier::rlimit(60)]
    pub fn emit_compute(&self, lowering: &ComputeLowering, builder: &mut OpsBuilder) -> (r: Result<
        IntegerValue,
        LlzkError,
    >)
        requires
            lowering.within(*old(builder)),
        ensures
            is_int_reading(
                *old(builder),
                *final(builder),
                r,
                lowering::integer_lowering(
                    lowering.scope(old(builder).arguments()),
                    *self,
                    old(builder).effects().len(),
                ),
            ),
        decreases self,
    {
        let ghost start = builder.effects();
        let ghost k = start.len();
        let ghost sc = lowering.scope(builder.arguments());
        assert(start =~= start + Seq::<Effect>::empty());
        match self {
            FixedWidthIntegerNodeExpression::U8Place(variable) => {
                let value = lowering.read_variable(builder, *variable)?;
                Ok(IntegerValue::U8(value))
            },
            FixedWidthIntegerNodeExpression::U16Place(variable) => {
                let value = lowering.read_variable(builder, *variable)?;
                Ok(IntegerValue::U16(value))
            },
            FixedWidthIntegerNodeExpression::U8SubExpression(idx)
            | FixedWidthIntegerNodeExpression::U16SubExpression(idx)
            | FixedWidthIntegerNodeExpression::U32SubExpression(idx) => lowering.slot_as_integer(builder, *idx),
            FixedWidthIntegerNodeExpression::U32OracleValue { placeholder } => lowering.read_u32_oracle(
                builder,
                *placeholder,
            ),
            FixedWidthIntegerNodeExpression::U16OracleValue { placeholder } => {
                let value = lowering.read_small_oracle(
                    builder,
                    READ_ORACLE_U16_HOOK,
                    *placeholder,
                )?;
                Ok(IntegerValue::U16(value))
            },
            FixedWidthIntegerNodeExpression::U8OracleValue { placeholder } => {
                let value = lowering.read_small_oracle(
                    builder,
                    READ_ORACLE_U8_HOOK,
                    *placeholder,
                )?;
                Ok(IntegerValue::U8(value))
            },
            FixedWidthIntegerNodeExpression::ConstantU8(constant) => Ok(
                IntegerValue::U8(builder.get_felt_constant_from_start(*constant as u64)),
            ),
            FixedWidthIntegerNodeExpression::ConstantU16(constant) => Ok(
                IntegerValue::U16(builder.get_felt_constant_from_start(*constant as u64)),
            ),
            FixedWidthIntegerNodeExpression::ConstantU32(constant) => Ok(
                IntegerValue::U32(integers::u32_constant(builder, *constant)),
            ),
            FixedWidthIntegerNodeExpression::U32FromMask(expr) => {
                let value = expr.emit_compute(lowering, builder)?;
                let low = builder.append_bool_to_field(value);
                let high = builder.get_felt_constant_from_start(0);
                Ok(IntegerValue::U32(U32Parts { low, high }))
            },
            FixedWidthIntegerNodeExpression::U32FromField(expr) => {
                let value = expr.emit_compute(lowering, builder)?;
                Ok(IntegerValue::U32(integers::field_to_u32(builder, value)))
            },
            FixedWidthIntegerNodeExpression::WidenFromU8(expr) => {
                match expr.emit_compute(lowering, builder)? {
                    IntegerValue::U8(value) => Ok(IntegerValue::U16(value)),
                    _ => Err(LlzkError::WidthMismatch),
                }
            },
            FixedWidthIntegerNodeExpression::WidenFromU16(expr) => {
                match expr.emit_compute(lowering, builder)? {
                    IntegerValue::U16(low) => {
                        let high = builder.get_felt_constant_from_start(0);
                        Ok(IntegerValue::U32(U32Parts { low, high }))
                    },
                    _ => Err(LlzkError::WidthMismatch),
                }
            },
            FixedWidthIntegerNodeExpression::TruncateFromU16(expr) => {
                match expr.emit_compute(lowering, builder)? {
                    IntegerValue::U16(value) => Ok(
                        IntegerValue::U8(builder.append_lowest_bits_felt(value, 8)),
                    ),
                    _ => Err(LlzkError::WidthMismatch),
                }
            },
            FixedWidthIntegerNodeExpression::TruncateFromU32(expr) => {
                match expr.emit_compute(lowering, builder)? {
                    IntegerValue::U32(parts) => Ok(IntegerValue::U16(parts.low)),
                    _ => Err(LlzkError::WidthMismatch),
                }
            },
            FixedWidthIntegerNodeExpression::I32FromU32(expr) | FixedWidthIntegerNodeExpression::U32FromI32(expr) => expr.emit_compute(lowering, builder),
            FixedWidthIntegerNodeExpression::Select { selector, if_true, if_false } => {
                let condition = selector.emit_compute(lowering, builder)?;
                proof {
                    lowering.lemma_within(*old(builder), *builder);
                }
                let a = if_true.emit_compute(lowering, builder)?;
                proof {
                    lowering.lemma_within(*old(builder), *builder);
                }
                let b = if_false.emit_compute(lowering, builder)?;
                let r = integers::select_integer(builder, condition, a, b)?;
                assert(builder.effects() =~= start + lowering::integer_lowering(sc, *self, k)->Ok_0.effects);
                Ok(r)
            },
            FixedWidthIntegerNodeExpression::WrappingAdd { lhs, rhs } => {
                let a = lhs.emit_compute(lowering, builder)?;
                proof {
                    lowering.lemma_within(*old(builder), *builder);
                }
                let b = rhs.emit_compute(lowering, builder)?;
                let (r, _) = integers::overflowing_add(builder, a, b)?;
                assert(builder.effects() =~= start + lowering::integer_lowering(sc, *self, k)->Ok_0.effects);
                Ok(r)
            },
            FixedWidthIntegerNodeExpression::WrappingSub { lhs, rhs } => {
                let a = lhs.emit_compute(lowering, builder)?;
                proof {
                    lowering.lemma_within(*old(builder), *builder);
                }
                let b = rhs.emit_compute(lowering, builder)?;
                let (r, _) = integers::overflowing_sub(builder, a, b)?;
                assert(builder.effects() =~= start + lowering::integer_lowering(sc, *self, k)->Ok_0.effects);
                Ok(r)
            },
            FixedWidthIntegerNodeExpression::WrappingShl { lhs, magnitude } => {
                let value = lhs.emit_compute(lowering, builder)?;
                Ok(integers::shift_left(builder, value, *magnitude))
            },
            FixedWidthIntegerNodeExpression::WrappingShr { lhs, magnitude } => {
                let value = lhs.emit_compute(lowering, builder)?;
                Ok(integers::shift_right(builder, value, *magnitude))
            },
            FixedWidthIntegerNodeExpression::LowestBits { value, num_bits } => {
                let value = value.emit_compute(lowering, builder)?;
                Ok(integers::lowest_bits(builder, value, *num_bits))
            },
            FixedWidthIntegerNodeExpression::BinaryNot(expr) => {
                let value = expr.emit_compute(lowering, builder)?;
                Ok(integers::bitwise_not(builder, value))
            },
            FixedWidthIntegerNodeExpression::BinaryAnd { lhs, rhs } => {
                let a = lhs.emit_compute(lowering, builder)?;
                proof {
                    lowering.lemma_within(*old(builder), *builder);
                }
                let b = rhs.emit_compute(lowering, builder)?;
                let r = integers::bitwise_binop(builder, FeltBinary::BitAnd, a, b)?;
                assert(builder.effects() =~= start + lowering::integer_lowering(sc, *self, k)->Ok_0.effects);
                Ok(r)
            },
            FixedWidthIntegerNodeExpression::BinaryOr { lhs, rhs } => {
                let a = lhs.emit_compute(lowering, builder)?;
                proof {
                    lowering.lemma_within(*old(builder), *builder);
                }
                let b = rhs.emit_compute(lowering, builder)?;
                let r = integers::bitwise_binop(builder, FeltBinary::BitOr, a, b)?;
                assert(builder.effects() =~= start + lowering::integer_lowering(sc, *self, k)->Ok_0.effects);
                Ok(r)
            },
            FixedWidthIntegerNodeExpression::BinaryXor { lhs, rhs } => {
                let a = lhs.emit_compute(lowering, builder)?;
                proof {
                    lowering.lemma_within(*old(builder), *builder);
                }
                let b = rhs.emit_compute(lowering, builder)?;
                let r = integers::bitwise_binop(builder, FeltBinary::BitXor, a, b)?;
                assert(builder.effects() =~= start + lowering::integer_lowering(sc, *self, k)->Ok_0.effects);
                Ok(r)
            },
            FixedWidthIntegerNodeExpression::MulLow { .. }
            | FixedWidthIntegerNodeExpression::MulHigh { .. }
            | FixedWidthIntegerNodeExpression::AddProduct { .. }
            | FixedWidthIntegerNodeExpression::DivAssumeNonzero { .. }
            | FixedWidthIntegerNodeExpression::RemAssumeNonzero { .. }
            | FixedWidthIntegerNodeExpression::SignedDivAssumeNonzeroNoOverflowBits { .. }
            | FixedWidthIntegerNodeExpression::SignedRemAssumeNonzeroNoOverflowBits { .. }
            | FixedWidthIntegerNodeExpression::SignedMulLowBits { .. }
            | FixedWidthIntegerNodeExpression::SignedMulHighBits { .. }
            | FixedWidthIntegerNodeExpression::SignedByUnsignedMulLowBits { .. }
            | FixedWidthIntegerNodeExpression::SignedByUnsignedMulHighBits { .. } => Err(
                LlzkError::UnsupportedInteger,
            ),
        }
    }
}

} // verus!
