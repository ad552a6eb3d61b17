//! Lowering of witness programs into the compute function of a struct.
//!
//! Every block is replayed step by step. A step leaves its values in a slot that later steps of
//! the block name by its position; a write goes to a member of the struct or to the memory hooks.
use vstd::prelude::*;

use std::collections::HashMap;

use crate::circuit::Placeholder;
use crate::circuit::Substitution;
use crate::circuit::TableIds;
use crate::circuit::TableType;
use crate::circuit::Variable;
use crate::llzk::builder;
use crate::llzk::builder::FunctionKind;
use crate::llzk::builder::LlzkError;
use crate::llzk::builder::OpsBuilder;
use crate::llzk::builder::Value;
use crate::llzk::compute::ComputeLowering;
use crate::llzk::constraints;
use crate::llzk::constraints::Readings;
use crate::llzk::integers;
use crate::llzk::ir;
use crate::llzk::ir::Effect;
use crate::llzk::ir::Sym;
use crate::llzk::ir::ValueType;
use crate::llzk::lowering;
use crate::llzk::lowering::ComputeScope;
use crate::llzk::lowering::ComputedSym;
use crate::llzk::lowering::ComputedValue;
use crate::llzk::lowering::SlotSym;
use crate::llzk::lowering::SsaSlot;
use crate::llzk::lowering::READ_FROM_MEMORY_SUBTREE_HOOK;
use crate::llzk::lowering::READ_ORACLE_BOOL_HOOK;
use crate::llzk::lowering::READ_ORACLE_FIELD_HOOK;
use crate::llzk::lowering::READ_ORACLE_U16_HOOK;
use crate::llzk::lowering::READ_ORACLE_U32_HOOK;
use crate::llzk::lowering::READ_ORACLE_U8_HOOK;
use crate::llzk::lowering::WRITE_TO_MEMORY_SUBTREE_HOOK;
use crate::llzk::module;
use crate::llzk::module::ModuleEnv;
use crate::llzk::ssa;
use crate::llzk::ssa::raw_expression_reads_runtime_memory;
use crate::llzk::ssa::BoolNodeExpression;
use crate::llzk::ssa::ColumnAddress;
use crate::llzk::ssa::Expression;
use crate::llzk::ssa::FieldNodeExpression;
use crate::llzk::ssa::FixedWidthIntegerNodeExpression;
use crate::llzk::ssa::LookupInvocation;
use crate::llzk::ssa::RawExpression;
use crate::llzk::ssa::TableIndex;
use crate::llzk::table_lookups;
use crate::llzk::table_lookups::compute_dynamic_lookup;
use crate::llzk::table_lookups::compute_lookup_for_table;
use crate::llzk::table_lookups::mask_lookup_outputs;
use crate::llzk::table_lookups::READ_FROM_ROM_HOOK;
use crate::llzk::vars;
use crate::llzk::vars::Reading;
use crate::llzk::vars::StructVars;
use crate::llzk::vars::VarMaps;

verus! {

/// The argument that a variable is, if it is one.
pub open spec fn input_origin(sc: ComputeScope, v: Variable) -> Option<Variable> {
    if sc.args_map.contains_key(v.0) {
        Some(v)
    } else {
        None
    }
}

/// The argument that a slot copies, if it only does that.
pub open spec fn slot_origin(sc: ComputeScope, idx: usize) -> Option<Variable> {
    if idx < sc.origins.len() {
        sc.origins[idx as int]
    } else {
        None
    }
}

/// The argument that carries the first limb of a placeholder, if one does.
pub open spec fn placeholder_origin(sc: ComputeScope, placeholder: Placeholder) -> Option<
    Variable,
> {
    match lowering::substituted(sc.substitutions, placeholder, 0) {
        Some(v) => input_origin(sc, v),
        None => None,
    }
}

/// The argument that a field expression copies, if it only does that.
pub open spec fn field_origin(sc: ComputeScope, e: FieldNodeExpression) -> Option<Variable> {
    match e {
        FieldNodeExpression::Place(v) => input_origin(sc, v),
        FieldNodeExpression::SubExpression(idx) => slot_origin(sc, idx),
        FieldNodeExpression::FromInteger(x) => integer_origin(sc, *x),
        FieldNodeExpression::FromMask(x) => bool_origin(sc, *x),
        FieldNodeExpression::OracleValue { placeholder, .. } => placeholder_origin(
            sc,
            placeholder,
        ),
        _ => None,
    }
}

/// The argument that a boolean expression copies, if it only does that.
pub open spec fn bool_origin(sc: ComputeScope, e: BoolNodeExpression) -> Option<Variable> {
    match e {
        BoolNodeExpression::Place(v) => input_origin(sc, v),
        BoolNodeExpression::SubExpression(idx) => slot_origin(sc, idx),
        BoolNodeExpression::OracleValue { placeholder } => placeholder_origin(sc, placeholder),
        _ => None,
    }
}

/// The argument that an integer expression copies, if it only does that or takes a limb of it.
pub open spec fn integer_origin(sc: ComputeScope, e: FixedWidthIntegerNodeExpression) -> Option<
    Variable,
>
    decreases e,
{
    match e {
        FixedWidthIntegerNodeExpression::U8Place(v)
        | FixedWidthIntegerNodeExpression::U16Place(v) => input_origin(sc, v),
        FixedWidthIntegerNodeExpression::U8SubExpression(idx)
        | FixedWidthIntegerNodeExpression::U16SubExpression(idx)
        | FixedWidthIntegerNodeExpression::U32SubExpression(idx) => slot_origin(sc, idx),
        FixedWidthIntegerNodeExpression::U32OracleValue { placeholder }
        | FixedWidthIntegerNodeExpression::U16OracleValue { placeholder }
        | FixedWidthIntegerNodeExpression::U8OracleValue { placeholder } => placeholder_origin(
            sc,
            placeholder,
        ),
        FixedWidthIntegerNodeExpression::WidenFromU8(x)
        | FixedWidthIntegerNodeExpression::WidenFromU16(x)
        | FixedWidthIntegerNodeExpression::TruncateFromU16(x)
        | FixedWidthIntegerNodeExpression::TruncateFromU32(x)
        | FixedWidthIntegerNodeExpression::I32FromU32(x)
        | FixedWidthIntegerNodeExpression::U32FromI32(x) => integer_origin(sc, *x),
        FixedWidthIntegerNodeExpression::WrappingShr { lhs, magnitude } => if magnitude == 0
            || magnitude == 16 {
            integer_origin(sc, *lhs)
        } else {
            None
        },
        _ => None,
    }
}

/// The argument that an expression copies, if it only does that or takes a limb of it.
pub open spec fn expression_origin(sc: ComputeScope, e: Expression) -> Option<Variable> {
    match e {
        Expression::Bool(x) => bool_origin(sc, x),
        Expression::Field(x) => field_origin(sc, x),
        Expression::U8(x) | Expression::U16(x) | Expression::U32(x) => integer_origin(sc, x),
    }
}

/// The field value that an expression stores.
pub open spec fn store_lowering(sc: ComputeScope, e: Expression, k: nat) -> Result<
    Reading,
    LlzkError,
> {
    match e {
        Expression::Bool(x) => lowering::mapped(
            lowering::bool_lowering(sc, x, k),
            |s: Sym| builder::to_field(s),
        ),
        Expression::Field(x) => lowering::field_lowering(sc, x, k),
        Expression::U8(x) | Expression::U16(x) | Expression::U32(x) => lowering::mapped_int(
            lowering::integer_lowering(sc, x, k),
            |i: integers::IntSym| integers::to_field_sym(i),
        ),
    }
}

/// A stored value, or where there is a condition the choice between it and the existing value.
pub open spec fn guarded_lowering(
    sc: ComputeScope,
    value: Result<Reading, LlzkError>,
    condition: Option<usize>,
    existing: Result<Reading, LlzkError>,
) -> Result<Reading, LlzkError> {
    match value {
        Err(e) => Err(e),
        Ok(v) => match condition {
            None => Ok(v),
            Some(idx) => match lowering::slot_bool(sc, idx) {
                Err(e) => Err(e),
                Ok(c) => match existing {
                    Err(e) => Err(e),
                    Ok(x) => Ok(
                        (Reading {
                            sym: ir::select(c, v.sym, x.sym),
                            effects: v.effects + x.effects,
                        }),
                    ),
                },
            },
        },
    }
}

/// Reading a variable from the arguments or the members.
pub open spec fn existing_reading(sc: ComputeScope, v: Variable, k: nat) -> Result<
    Reading,
    LlzkError,
> {
    vars::required(lowering::exposed_reading(sc, v, k), LlzkError::NotInCompute)
}

/// Assigning a variable to its member.
pub open spec fn assignment(sc: ComputeScope, v: Variable, value: Sym, k: nat) -> Result<
    Seq<Effect>,
    LlzkError,
> {
    if !sc.members.contains_key(v.0) {
        Err(LlzkError::NotAMember)
    } else if sc.members[v.0].1 is Some && sc.members[v.0].1->0 > i64::MAX {
        Err(LlzkError::ConstantOutOfRange)
    } else {
        Ok(vars::assign_effects(sc.members[v.0], sc.component, value, k))
    }
}

/// Effects after a computation, or its error.
pub open spec fn followed(
    value: Result<Reading, LlzkError>,
    rest: Result<Seq<Effect>, LlzkError>,
) -> Result<Seq<Effect>, LlzkError> {
    match value {
        Err(e) => Err(e),
        Ok(v) => match rest {
            Err(e) => Err(e),
            Ok(es) => Ok(v.effects + es),
        },
    }
}

/// The term of a computation.
pub open spec fn term(value: Result<Reading, LlzkError>) -> Sym {
    match value {
        Ok(v) => v.sym,
        Err(_) => Sym::Unit,
    }
}

/// Writing a member, with a condition or without one.
pub open spec fn member_write(
    sc: ComputeScope,
    v: Variable,
    source: Expression,
    condition: Option<usize>,
    k: nat,
) -> Result<Seq<Effect>, LlzkError> {
    let value = store_lowering(sc, source, k);
    let stored = guarded_lowering(
        sc,
        value,
        condition,
        existing_reading(sc, v, lowering::after(k, value)),
    );
    followed(stored, assignment(sc, v, term(stored), lowering::after(k, stored)))
}

/// Writing a memory column, with a condition or without one.
pub open spec fn memory_write(
    sc: ComputeScope,
    offset: usize,
    source: Expression,
    condition: Option<usize>,
    k: nat,
) -> Result<Seq<Effect>, LlzkError> {
    let value = store_lowering(sc, source, k);
    let stored = guarded_lowering(
        sc,
        value,
        condition,
        lowering::memory_reading(offset, lowering::after(k, value)),
    );
    followed(stored, lowering::memory_writing(offset, term(stored)))
}

/// Whether a write only copies an argument to a memory column that nothing reads back.
pub open spec fn omitted(
    sc: ComputeScope,
    v: Variable,
    source: Expression,
    condition: Option<usize>,
) -> bool {
    &&& !sc.reads_memory
    &&& condition is None
    &&& sc.mapping.contains_key(v.0)
    &&& sc.mapping[v.0] is MemorySubtree
    &&& expression_origin(sc, source) is Some
}

/// The effects of a write: to the member that carries the variable, where there is one; else to
/// its memory column, unless the write can be omitted.
pub open spec fn write_lowering(
    sc: ComputeScope,
    v: Variable,
    source: Expression,
    condition: Option<usize>,
    k: nat,
) -> Result<Seq<Effect>, LlzkError> {
    if sc.members.contains_key(v.0) {
        member_write(sc, v, source, condition, k)
    } else if omitted(sc, v, source, condition) {
        Ok(Seq::empty())
    } else {
        match sc.mapping[v.0] {
            ColumnAddress::SetupSubtree(_) => Err(LlzkError::SetupColumnWritten),
            ColumnAddress::MemorySubtree(offset) => memory_write(sc, offset, source, condition, k),
            _ => member_write(sc, v, source, condition, k),
        }
    }
}

/// Slots as field values.
pub open spec fn slot_fields(sc: ComputeScope, idxs: Seq<usize>) -> Result<Seq<Sym>, LlzkError>
    decreases idxs.len(),
{
    if idxs.len() == 0 {
        Ok(Seq::empty())
    } else {
        match slot_fields(sc, idxs.drop_last()) {
            Err(e) => Err(e),
            Ok(head) => match lowering::slot_field(sc, idxs.last()) {
                Err(e) => Err(e),
                Ok(s) => Ok(head.push(s)),
            },
        }
    }
}

/// The table that a step names as a constant, if it does.
pub open spec fn constant_table(ids: TableIds, e: RawExpression) -> Option<TableType> {
    match e {
        RawExpression::Integer(FixedWidthIntegerNodeExpression::ConstantU8(c)) => Some(
            ids.table_of(c as u32),
        ),
        RawExpression::Integer(FixedWidthIntegerNodeExpression::ConstantU16(c)) => Some(
            ids.table_of(c as u32),
        ),
        RawExpression::Integer(FixedWidthIntegerNodeExpression::ConstantU32(c)) => Some(
            ids.table_of(c),
        ),
        RawExpression::Field(FieldNodeExpression::Constant(c)) => Some(
            ids.table_of(c.reduced() as u32),
        ),
        _ => None,
    }
}

/// The table of a lookup where it is known: a constant of the block, which must agree with the
/// compiled lookup, or that of the compiled lookup.
pub open spec fn resolved_table(
    sc: ComputeScope,
    table_slot: usize,
    compiled: Option<usize>,
) -> Result<Option<TableType>, LlzkError> {
    if table_slot >= sc.block.len() {
        Err(LlzkError::SlotOutOfBounds)
    } else {
        let named = constant_table(sc.ids, sc.block[table_slot as int]);
        match compiled {
            None => Ok(named),
            Some(idx) => if idx >= sc.lookup_tables.len() {
                Err(LlzkError::LookupMappingOutOfBounds)
            } else {
                match sc.lookup_tables[idx as int] {
                    TableIndex::Variable(_) => Ok(named),
                    TableIndex::Constant(expected) => if named is Some && named->0 != expected {
                        Err(LlzkError::LookupTableMismatch)
                    } else {
                        Ok(Some(expected))
                    },
                }
            },
        }
    }
}

/// The outputs of a lookup before any mask.
pub open spec fn unmasked_lookup(
    sc: ComputeScope,
    inputs: Seq<usize>,
    table_slot: usize,
    compiled: Option<usize>,
    n: nat,
    k: nat,
) -> Result<Readings, LlzkError> {
    match slot_fields(sc, inputs) {
        Err(e) => Err(e),
        Ok(ins) => match resolved_table(sc, table_slot, compiled) {
            Err(e) => Err(e),
            Ok(Some(table)) => table_lookups::table_outputs(table, ins, n, k),
            Ok(None) => match lowering::slot_field(sc, table_slot) {
                Err(e) => Err(e),
                Ok(id) => Ok(table_lookups::dynamic_outputs(sc.ids, id, ins, n, k)),
            },
        },
    }
}

/// The outputs of a lookup step.
pub open spec fn lookup_lowering(
    sc: ComputeScope,
    inputs: Seq<usize>,
    table_slot: usize,
    compiled: Option<usize>,
    mask: Option<usize>,
    n: nat,
    k: nat,
) -> Result<Readings, LlzkError> {
    match unmasked_lookup(sc, inputs, table_slot, compiled, n, k) {
        Err(e) => Err(e),
        Ok(r) => match mask {
            None => Ok(r),
            Some(idx) => match lowering::slot_bool(sc, idx) {
                Err(e) => Err(e),
                Ok(m) => Ok(
                    (Readings { syms: table_lookups::masked(m, r.syms), effects: r.effects }),
                ),
            },
        },
    }
}

/// What a step leaves: its slot, the argument that it copies, and its effects.
pub struct StepOutcome {
    pub slot: SlotSym,
    pub origin: Option<Variable>,
    pub effects: Seq<Effect>,
}

/// The slot of a computed value.
pub open spec fn value_step(
    r: Result<Reading, LlzkError>,
    wrap: spec_fn(Sym) -> ComputedSym,
    origin: Option<Variable>,
) -> Result<StepOutcome, LlzkError> {
    match r {
        Err(e) => Err(e),
        Ok(r) => Ok(
            (StepOutcome { slot: SlotSym::Value(wrap(r.sym)), origin, effects: r.effects }),
        ),
    }
}

/// The slot of a lookup.
pub open spec fn lookup_step(r: Result<Readings, LlzkError>) -> Result<StepOutcome, LlzkError> {
    match r {
        Err(e) => Err(e),
        Ok(r) => Ok(
            (StepOutcome { slot: SlotSym::Lookup(r.syms), origin: None, effects: r.effects }),
        ),
    }
}

/// The lowering of a step.
pub open spec fn step_lowering(sc: ComputeScope, e: RawExpression, k: nat) -> Result<
    StepOutcome,
    LlzkError,
> {
    match e {
        RawExpression::Bool(x) => value_step(
            lowering::bool_lowering(sc, x, k),
            |s: Sym| ComputedSym::Bool(s),
            bool_origin(sc, x),
        ),
        RawExpression::Field(x) => value_step(
            lowering::field_lowering(sc, x, k),
            |s: Sym| ComputedSym::Field(s),
            field_origin(sc, x),
        ),
        RawExpression::Integer(x) => match lowering::integer_lowering(sc, x, k) {
            Err(e) => Err(e),
            Ok(r) => Ok(
                (StepOutcome {
                    slot: SlotSym::Value(ComputedSym::Integer(r.int)),
                    origin: integer_origin(sc, x),
                    effects: r.effects,
                }),
            ),
        },
        RawExpression::AccessLookup { subindex, output_index } => match lowering::slot_lookup(
            sc,
            subindex,
        ) {
            Err(e) => Err(e),
            Ok(vs) => if output_index >= vs.len() {
                Err(LlzkError::LookupOutputOutOfBounds)
            } else {
                Ok(
                    (StepOutcome {
                        slot: SlotSym::Value(ComputedSym::Field(vs[output_index as int])),
                        origin: None,
                        effects: Seq::empty(),
                    }),
                )
            },
        },
        RawExpression::PerformLookup {
            input_subexpr_idxes,
            table_id_subexpr_idx,
            num_outputs,
            lookup_mapping_idx,
        } => lookup_step(
            lookup_lowering(
                sc,
                input_subexpr_idxes@,
                table_id_subexpr_idx,
                Some(lookup_mapping_idx),
                None,
                num_outputs as nat,
                k,
            ),
        ),
        RawExpression::MaybePerformLookup {
            input_subexpr_idxes,
            table_id_subexpr_idx,
            mask_id_subexpr_idx,
            num_outputs,
        } => lookup_step(
            lookup_lowering(
                sc,
                input_subexpr_idxes@,
                table_id_subexpr_idx,
                None,
                Some(mask_id_subexpr_idx),
                num_outputs as nat,
                k,
            ),
        ),
        RawExpression::WriteVariable { into_variable, source_subexpr, condition_subexpr_idx } => {
            match write_lowering(sc, into_variable, source_subexpr, condition_subexpr_idx, k) {
                Err(e) => Err(e),
                Ok(es) => Ok(
                    (StepOutcome { slot: SlotSym::Unit, origin: None, effects: es }),
                ),
            }
        },
    }
}

/// The state of a block after its first steps.
pub struct BlockState {
    pub slots: Seq<SlotSym>,
    pub origins: Seq<Option<Variable>>,
    pub effects: Seq<Effect>,
}

/// A scope with the slots of a state.
pub open spec fn at_state(sc: ComputeScope, st: BlockState) -> ComputeScope {
    ComputeScope { slots: st.slots, origins: st.origins, ..sc }
}

/// The lowering of the first `n` steps of a block.
pub open spec fn block_lowering(sc: ComputeScope, n: nat, k: nat) -> Result<BlockState, LlzkError>
    decreases n,
{
    if n == 0 {
        Ok((BlockState { slots: Seq::empty(), origins: Seq::empty(), effects: Seq::empty() }))
    } else {
        match block_lowering(sc, (n - 1) as nat, k) {
            Err(e) => Err(e),
            Ok(st) => match step_lowering(
                at_state(sc, st),
                sc.block[n - 1],
                k + st.effects.len(),
            ) {
                Err(e) => Err(e),
                Ok(step) => Ok(
                    (BlockState {
                        slots: st.slots.push(step.slot),
                        origins: st.origins.push(step.origin),
                        effects: st.effects + step.effects,
                    }),
                ),
            },
        }
    }
}

/// The lowering of the first `n` blocks of a program.
pub open spec fn program_lowering(
    sc: ComputeScope,
    blocks: Seq<Vec<RawExpression>>,
    n: nat,
    k: nat,
) -> Result<Seq<Effect>, LlzkError>
    decreases n,
{
    if n == 0 {
        Ok(Seq::empty())
    } else {
        match program_lowering(sc, blocks, (n - 1) as nat, k) {
            Err(e) => Err(e),
            Ok(es) => match block_lowering(
                (ComputeScope { block: blocks[n - 1]@, ..sc }),
                blocks[n - 1]@.len(),
                k + es.len(),
            ) {
                Err(e) => Err(e),
                Ok(st) => Ok(es + st.effects),
            },
        }
    }
}

/// Whether the step writes, if it writes, a variable that has a member or a column.
pub open spec fn write_has_place(
    e: RawExpression,
    members: Map<u64, (Seq<char>, Option<u64>)>,
    mapping: Map<u64, ColumnAddress>,
) -> bool {
    match e {
        RawExpression::WriteVariable { into_variable, .. } => members.contains_key(into_variable.0)
            || mapping.contains_key(into_variable.0),
        _ => true,
    }
}

impl<'a> ComputeLowering<'a> {
    /// The argument that carries the first limb of a placeholder, if one does.
    fn strict_placeholder_input_origin(&self, placeholder: Placeholder, args: Ghost<
        Seq<ValueType>,
    >) -> (r: Option<Variable>)
        ensures
            r == placeholder_origin(self.scope(args@), placeholder),
    {
        match self.find_substitution(placeholder, 0) {
            Some(v) => self.strict_input_origin(v, args),
            None => None,
        }
    }

    fn strict_input_origin(&self, v: Variable, args: Ghost<Seq<ValueType>>) -> (r: Option<Variable>)
        ensures
            r == input_origin(self.scope(args@), v),
    {
        if self.vars.has_compute_input(&v) {
            Some(v)
        } else {
            None
        }
    }

    fn strict_slot_origin(&self, idx: usize, args: Ghost<Seq<ValueType>>) -> (r: Option<Variable>)
        ensures
            r == slot_origin(self.scope(args@), idx),
    {
        if idx < self.slot_input_origins.len() {
            self.slot_input_origins[idx]
        } else {
            None
        }
    }

    fn strict_input_origin_for_bool_expr(&self, expr: &BoolNodeExpression, args: Ghost<
        Seq<ValueType>,
    >) -> (r: Option<Variable>)
        ensures
            r == bool_origin(self.scope(args@), *expr),
    {
        match expr {
            BoolNodeExpression::Place(v) => self.strict_input_origin(*v, args),
            BoolNodeExpression::SubExpression(idx) => self.strict_slot_origin(*idx, args),
            BoolNodeExpression::OracleValue { placeholder } => {
                self.strict_placeholder_input_origin(*placeholder, args)
            },
            _ => None,
        }
    }

    fn strict_input_origin_for_integer_expr(
        &self,
        expr: &FixedWidthIntegerNodeExpression,
        args: Ghost<Seq<ValueType>>,
    ) -> (r: Option<Variable>)
        ensures
            r == integer_origin(self.scope(args@), *expr),
        decreases expr,
    {
        match expr {
            FixedWidthIntegerNodeExpression::U8Place(v)
            | FixedWidthIntegerNodeExpression::U16Place(v) => self.strict_input_origin(*v, args),
            FixedWidthIntegerNodeExpression::U8SubExpression(idx)
            | FixedWidthIntegerNodeExpression::U16SubExpression(idx)
            | FixedWidthIntegerNodeExpression::U32SubExpression(idx) => self.strict_slot_origin(
                *idx,
                args,
            ),
            FixedWidthIntegerNodeExpression::U32OracleValue { placeholder }
            | FixedWidthIntegerNodeExpression::U16OracleValue { placeholder }
            | FixedWidthIntegerNodeExpression::U8OracleValue { placeholder } => {
                self.strict_placeholder_input_origin(*placeholder, args)
            },
            FixedWidthIntegerNodeExpression::WidenFromU8(x)
            | FixedWidthIntegerNodeExpression::WidenFromU16(x)
            | FixedWidthIntegerNodeExpression::TruncateFromU16(x)
            | FixedWidthIntegerNodeExpression::TruncateFromU32(x)
            | FixedWidthIntegerNodeExpression::I32FromU32(x)
            | FixedWidthIntegerNodeExpression::U32FromI32(x) => {
                self.strict_input_origin_for_integer_expr(x, args)
            },
            FixedWidthIntegerNodeExpression::WrappingShr { lhs, magnitude } => {
                if *magnitude == 0 || *magnitude == 16 {
                    self.strict_input_origin_for_integer_expr(lhs, args)
                } else {
                    None
                }
            },
            _ => None,
        }
    }

    fn strict_input_origin_for_field_expr(&self, expr: &FieldNodeExpression, args: Ghost<
        Seq<ValueType>,
    >) -> (r: Option<Variable>)
        ensures
            r == field_origin(self.scope(args@), *expr),
    {
        match expr {
            FieldNodeExpression::Place(v) => self.strict_input_origin(*v, args),
            FieldNodeExpression::SubExpression(idx) => self.strict_slot_origin(*idx, args),
            FieldNodeExpression::FromInteger(x) => self.strict_input_origin_for_integer_expr(
                x,
                args,
            ),
            FieldNodeExpression::FromMask(x) => self.strict_input_origin_for_bool_expr(x, args),
            FieldNodeExpression::OracleValue { placeholder, .. } => {
                self.strict_placeholder_input_origin(*placeholder, args)
            },
            _ => None,
        }
    }

    fn strict_input_origin_for_expression(&self, expr: &Expression, args: Ghost<
        Seq<ValueType>,
    >) -> (r: Option<Variable>)
        ensures
            r == expression_origin(self.scope(args@), *expr),
    {
        match expr {
            Expression::Bool(x) => self.strict_input_origin_for_bool_expr(x, args),
            Expression::Field(x) => self.strict_input_origin_for_field_expr(x, args),
            Expression::U8(x) | Expression::U16(x) | Expression::U32(x) => {
                self.strict_input_origin_for_integer_expr(x, args)
            },
        }
    }

    /// Whether a write only copies an argument to a memory column that nothing reads back.
    fn should_omit_seed_memory_write(
        &self,
        into_variable: &Variable,
        source_subexpr: &Expression,
        condition_subexpr_idx: Option<usize>,
        args: Ghost<Seq<ValueType>>,
    ) -> (r: bool)
        ensures
            r == omitted(
                self.scope(args@),
                *into_variable,
                *source_subexpr,
                condition_subexpr_idx,
            ),
    {
        if self.has_runtime_memory_reads || condition_subexpr_idx.is_some() {
            return false;
        }
        match self.variable_mapping.get(&into_variable.0) {
            Some(ColumnAddress::MemorySubtree(_)) => {
                self.strict_input_origin_for_expression(source_subexpr, args).is_some()
            },
            _ => false,
        }
    }

    /// The field value that an expression stores.
    fn expression_to_store_value(&self, builder: &mut OpsBuilder, expr: &Expression) -> (r: Result<
        Value,
        LlzkError,
    >)
        requires
            self.within(*old(builder)),
        ensures
            vars::is_required_reading(
                *old(builder),
                *final(builder),
                r,
                store_lowering(
                    self.scope(old(builder).arguments()),
                    *expr,
                    old(builder).effects().len(),
                ),
            ),
    {
        match expr {
            Expression::Bool(x) => {
                let value = x.emit_compute(self, builder)?;
                Ok(builder.append_bool_to_field(value))
            },
            Expression::Field(x) => x.emit_compute(self, builder),
            Expression::U8(x) | Expression::U16(x) | Expression::U32(x) => {
                let value = x.emit_compute(self, builder)?;
                Ok(integers::integer_to_field(builder, value))
            },
        }
    }

    fn write_member(
        &self,
        builder: &mut OpsBuilder,
        into_variable: &Variable,
        source_subexpr: &Expression,
        condition_subexpr_idx: Option<usize>,
    ) -> (r: Result<(), LlzkError>)
        requires
            self.within(*old(builder)),
        ensures
            constraints::has_effects(
                *old(builder),
                *final(builder),
                r,
                member_write(
                    self.scope(old(builder).arguments()),
                    *into_variable,
                    *source_subexpr,
                    condition_subexpr_idx,
                    old(builder).effects().len(),
                ),
            ),
    {
        let ghost start = builder.effects();
        let ghost sc = self.scope(builder.arguments());
        let mut value = self.expression_to_store_value(builder, source_subexpr)?;
        proof {
            self.lemma_within(*old(builder), *builder);
        }
        let ghost stored = store_lowering(sc, *source_subexpr, start.len());
        let ghost existing_at = existing_reading(
            sc,
            *into_variable,
            lowering::after(start.len(), stored),
        );
        let ghost guarded = guarded_lowering(sc, stored, condition_subexpr_idx, existing_at);
        if let Some(condition_idx) = condition_subexpr_idx {
            let condition = self.slot_as_bool(builder, condition_idx)?;
            let existing = self.vars.get_compute_val(builder, self.self_value, into_variable)?;
            value = builder.append_select_value(condition, value, existing);
        }
        assert(builder.effects() =~= start + guarded->Ok_0.effects);
        self.vars.assign_compute_member(builder, self.self_value, into_variable, value)?;
        assert(builder.effects() =~= start + member_write(
            sc,
            *into_variable,
            *source_subexpr,
            condition_subexpr_idx,
            start.len(),
        )->Ok_0);
        Ok(())
    }

    fn write_memory(
        &self,
        builder: &mut OpsBuilder,
        offset: usize,
        source_subexpr: &Expression,
        condition_subexpr_idx: Option<usize>,
    ) -> (r: Result<(), LlzkError>)
        requires
            self.within(*old(builder)),
        ensures
            constraints::has_effects(
                *old(builder),
                *final(builder),
                r,
                memory_write(
                    self.scope(old(builder).arguments()),
                    offset,
                    *source_subexpr,
                    condition_subexpr_idx,
                    old(builder).effects().len(),
                ),
            ),
    {
        let ghost start = builder.effects();
        let ghost sc = self.scope(builder.arguments());
        let mut value = self.expression_to_store_value(builder, source_subexpr)?;
        proof {
            self.lemma_within(*old(builder), *builder);
        }
        let ghost stored = store_lowering(sc, *source_subexpr, start.len());
        let ghost existing_at = lowering::memory_reading(
            offset,
            lowering::after(start.len(), stored),
        );
        let ghost guarded = guarded_lowering(sc, stored, condition_subexpr_idx, existing_at);
        if let Some(condition_idx) = condition_subexpr_idx {
            let condition = self.slot_as_bool(builder, condition_idx)?;
            let existing = self.read_memory_subtree(builder, offset)?;
            value = builder.append_select_value(condition, value, existing);
        }
        assert(builder.effects() =~= start + guarded->Ok_0.effects);
        self.write_memory_subtree(builder, offset, value)?;
        assert(builder.effects() =~= start + memory_write(
            sc,
            offset,
            *source_subexpr,
            condition_subexpr_idx,
            start.len(),
        )->Ok_0);
        Ok(())
    }

    /// Writes a variable: to the member that carries it, where there is one; else to its memory
    /// column, unless the write can be omitted.
    fn lower_write(
        &self,
        builder: &mut OpsBuilder,
        into_variable: &Variable,
        source_subexpr: &Expression,
        condition_subexpr_idx: Option<usize>,
    ) -> (r: Result<(), LlzkError>)
        requires
            self.within(*old(builder)),
            self.vars.members().contains_key(into_variable.0)
                || self.variable_mapping@.contains_key(into_variable.0),
        ensures
            constraints::has_effects(
                *old(builder),
                *final(builder),
                r,
                write_lowering(
                    self.scope(old(builder).arguments()),
                    *into_variable,
                    *source_subexpr,
                    condition_subexpr_idx,
                    old(builder).effects().len(),
                ),
            ),
    {
        if self.vars.has_member(into_variable) {
            return self.write_member(
                builder,
                into_variable,
                source_subexpr,
                condition_subexpr_idx,
            );
        }
        if self.should_omit_seed_memory_write(
            into_variable,
            source_subexpr,
            condition_subexpr_idx,
            Ghost(builder.arguments()),
        ) {
            assert(builder.effects() =~= builder.effects() + Seq::<Effect>::empty());
            return Ok(());
        }
        match self.variable_mapping.get(&into_variable.0) {
            Some(ColumnAddress::SetupSubtree(_)) => Err(LlzkError::SetupColumnWritten),
            Some(ColumnAddress::MemorySubtree(offset)) => self.write_memory(
                builder,
                *offset,
                source_subexpr,
                condition_subexpr_idx,
            ),
            _ => self.write_member(
                builder,
                into_variable,
                source_subexpr,
                condition_subexpr_idx,
            ),
        }
    }

    /// The inputs of a lookup as field values.
    fn lookup_inputs_as_fields(&self, builder: &mut OpsBuilder, idxs: &Vec<usize>) -> (r: Result<
        Vec<Value>,
        LlzkError,
    >)
        requires
            self.within(*old(builder)),
        ensures
            final(builder).purely_continues(*old(builder)),
            match (r, slot_fields(self.scope(old(builder).arguments()), idxs@)) {
                (Ok(vs), Ok(ss)) => table_lookups::are(*final(builder), vs@, ss),
                (Err(e), Err(x)) => e == x,
                _ => false,
            },
    {
        let ghost sc = self.scope(builder.arguments());
        let mut values: Vec<Value> = Vec::new();
        assert(idxs@.take(0) =~= Seq::empty());
        assert(builder::syms(values@) =~= Seq::empty());
        let mut i: usize = 0;
        while i < idxs.len()
            invariant
                i <= idxs@.len(),
                sc == self.scope(old(builder).arguments()),
                self.within(*old(builder)),
                builder.purely_continues(*old(builder)),
                builder.has_all(values@),
                slot_fields(sc, idxs@.take(i as int)) is Ok,
                builder::syms(values@) == slot_fields(sc, idxs@.take(i as int))->Ok_0,
            decreases idxs@.len() - i,
        {
            let ghost before = *builder;
            let ghost earlier = values@;
            assert(idxs@.take(i + 1).drop_last() =~= idxs@.take(i as int));
            assert(idxs@.take(i + 1).last() == idxs@[i as int]);
            proof {
                lemma_slot_fields_error(sc, idxs@, i + 1);
                self.lemma_within(*old(builder), *builder);
            }
            let value = self.slot_as_field(builder, idxs[i])?;
            values.push(value);
            assert(builder::syms(values@) =~= builder::syms(earlier).push(value.sym@));
            assert forall|j: int| 0 <= j < values@.len() implies builder.has(
                #[trigger] values@[j],
            ) by {
                if j < earlier.len() {
                    assert(before.has(earlier[j]));
                }
            }
            i = i + 1;
        }
        assert(idxs@.take(idxs@.len() as int) =~= idxs@);
        Ok(values)
    }

    /// The table of a lookup, where it is known.
    fn resolve_lookup_table(
        &self,
        table_id_subexpr_idx: usize,
        lookup_mapping_idx: Option<usize>,
        args: Ghost<Seq<ValueType>>,
    ) -> (r: Result<Option<TableType>, LlzkError>)
        ensures
            r == resolved_table(self.scope(args@), table_id_subexpr_idx, lookup_mapping_idx),
    {
        if table_id_subexpr_idx >= self.block.len() {
            return Err(LlzkError::SlotOutOfBounds);
        }
        let table = match &self.block[table_id_subexpr_idx] {
            RawExpression::Integer(FixedWidthIntegerNodeExpression::ConstantU8(c)) => Some(
                self.table_ids.get_table_from_id(*c as u32),
            ),
            RawExpression::Integer(FixedWidthIntegerNodeExpression::ConstantU16(c)) => Some(
                self.table_ids.get_table_from_id(*c as u32),
            ),
            RawExpression::Integer(FixedWidthIntegerNodeExpression::ConstantU32(c)) => Some(
                self.table_ids.get_table_from_id(*c),
            ),
            RawExpression::Field(FieldNodeExpression::Constant(c)) => Some(
                self.table_ids.get_table_from_id(c.as_u64_reduced() as u32),
            ),
            _ => None,
        };
        match lookup_mapping_idx {
            None => Ok(table),
            Some(idx) => {
                if idx >= self.lookup_tables.len() {
                    return Err(LlzkError::LookupMappingOutOfBounds);
                }
                match self.lookup_tables[idx] {
                    TableIndex::Variable(_) => Ok(table),
                    TableIndex::Constant(expected) => {
                        if let Some(table) = table {
                            if expected != table {
                                return Err(LlzkError::LookupTableMismatch);
                            }
                        }
                        Ok(Some(expected))
                    },
                }
            },
        }
    }

    /// Lowers a lookup step.
    fn lower_lookup(&self, builder: &mut OpsBuilder, lookup: &LookupInvocation) -> (r: Result<
        Vec<Value>,
        LlzkError,
    >)
        requires
            self.within(*old(builder)),
        ensures
            table_lookups::are_outputs(
                *old(builder),
                *final(builder),
                r,
                lookup_lowering(
                    self.scope(old(builder).arguments()),
                    lookup.inputs(),
                    lookup.table_slot(),
                    lookup.compiled_lookup(),
                    lookup.mask_slot(),
                    lookup.outputs() as nat,
                    old(builder).effects().len(),
                ),
            ),
    {
        let inputs = self.lookup_inputs_as_fields(builder, lookup.input_subexpr_idxes())?;
        proof {
            self.lemma_within(*old(builder), *builder);
        }
        let ghost before = *builder;
        let table = self.resolve_lookup_table(
            lookup.table_id_subexpr_idx(),
            lookup.lookup_mapping_idx(),
            Ghost(builder.arguments()),
        )?;
        let outputs = match table {
            Some(table) => compute_lookup_for_table(
                builder,
                table,
                &inputs,
                lookup.num_outputs(),
            )?,
            None => {
                let table_id = self.slot_as_field(builder, lookup.table_id_subexpr_idx())?;
                assert forall|j: int| 0 <= j < inputs@.len() implies builder.has(
                    #[trigger] inputs@[j],
                ) by {
                    assert(before.has(inputs@[j]));
                }
                compute_dynamic_lookup(
                    builder,
                    self.table_ids,
                    table_id,
                    &inputs,
                    lookup.num_outputs(),
                )
            },
        };
        match lookup.mask_id_subexpr_idx() {
            None => Ok(outputs),
            Some(idx) => {
                proof {
                    self.lemma_within(*old(builder), *builder);
                }
                let mask = self.slot_as_bool(builder, idx)?;
                Ok(mask_lookup_outputs(builder, mask, &outputs))
            },
        }
    }

    /// Lowers a step and appends its slot.
    fn lower_step(&mut self, builder: &mut OpsBuilder, step: &RawExpression) -> (r: Result<
        (),
        LlzkError,
    >)
        requires
            old(self).within(*old(builder)),
            write_has_place(*step, old(self).vars.members(), old(self).variable_mapping@),
        ensures
            final(self).within(*final(builder)),
            final(builder).continues(*old(builder)),
            match (
                r,
                step_lowering(
                    old(self).scope(old(builder).arguments()),
                    *step,
                    old(builder).effects().len(),
                ),
            ) {
                (Ok(_), Ok(outcome)) => {
                    let sc = old(self).scope(old(builder).arguments());
                    &&& final(builder).effects() == old(builder).effects() + outcome.effects
                    &&& final(self).scope(old(builder).arguments()) == (ComputeScope {
                        slots: sc.slots.push(outcome.slot),
                        origins: sc.origins.push(outcome.origin),
                        ..sc
                    })
                    &&& final(self).vars == old(self).vars
                    &&& final(self).variable_mapping == old(self).variable_mapping
                    &&& final(self).block == old(self).block
                },
                (Err(e), Err(x)) => e == x,
                _ => false,
            },
    {
        let ghost start = builder.effects();
        let ghost sc = self.scope(builder.arguments());
        let ghost before = *self;
        let (slot, origin) = match self.lower_slot(builder, step) {
            Ok(x) => x,
            Err(e) => {
                proof {
                    self.lemma_within(*old(builder), *builder);
                }
                return Err(e);
            },
        };
        proof {
            self.lemma_within(*old(builder), *builder);
        }
        self.slots.push(slot);
        self.slot_input_origins.push(origin);
        assert(self.slots@.map_values(|s: SsaSlot| s.sym()) =~= before.slots@.map_values(
            |s: SsaSlot| s.sym(),
        ).push(slot.sym()));
        assert forall|i: int| 0 <= i < self.slots@.len() implies (#[trigger] self.slots@[i]).within(
            *builder,
        ) by {
            if i < before.slots@.len() {
                assert(before.slots@[i].within(*builder));
            }
        }
        Ok(())
    }

    /// Computes the slot of a step.
    fn lower_slot(&self, builder: &mut OpsBuilder, step: &RawExpression) -> (r: Result<
        (SsaSlot, Option<Variable>),
        LlzkError,
    >)
        requires
            self.within(*old(builder)),
            write_has_place(*step, self.vars.members(), self.variable_mapping@),
        ensures
            final(builder).continues(*old(builder)),
            match (
                r,
                step_lowering(
                    self.scope(old(builder).arguments()),
                    *step,
                    old(builder).effects().len(),
                ),
            ) {
                (Ok((slot, origin)), Ok(outcome)) => {
                    &&& slot.within(*final(builder))
                    &&& slot.sym() == outcome.slot
                    &&& origin == outcome.origin
                    &&& final(builder).effects() == old(builder).effects() + outcome.effects
                },
                (Err(e), Err(x)) => e == x,
                _ => false,
            },
    {
        let ghost start = builder.effects();
        let args = Ghost(builder.arguments());
        assert(start =~= start + Seq::<Effect>::empty());
        if let Some(lookup) = LookupInvocation::from_raw(step) {
            let outputs = self.lower_lookup(builder, &lookup)?;
            return Ok((SsaSlot::Lookup(outputs), None));
        }
        match step {
            RawExpression::Bool(x) => {
                let value = x.emit_compute(self, builder)?;
                Ok(
                    (
                        SsaSlot::Value(ComputedValue::Bool(value)),
                        self.strict_input_origin_for_bool_expr(x, args),
                    ),
                )
            },
            RawExpression::Field(x) => {
                let value = x.emit_compute(self, builder)?;
                Ok(
                    (
                        SsaSlot::Value(ComputedValue::Field(value)),
                        self.strict_input_origin_for_field_expr(x, args),
                    ),
                )
            },
            RawExpression::Integer(x) => {
                let value = x.emit_compute(self, builder)?;
                Ok(
                    (
                        SsaSlot::Value(ComputedValue::Integer(value)),
                        self.strict_input_origin_for_integer_expr(x, args),
                    ),
                )
            },
            RawExpression::AccessLookup { subindex, output_index } => {
                let value = self.lookup_output(builder, *subindex, *output_index)?;
                Ok((SsaSlot::Value(ComputedValue::Field(value)), None))
            },
            RawExpression::WriteVariable {
                into_variable,
                source_subexpr,
                condition_subexpr_idx,
            } => {
                self.lower_write(builder, into_variable, source_subexpr, *condition_subexpr_idx)?;
                Ok((SsaSlot::Unit, None))
            },
            RawExpression::PerformLookup { .. } => Ok((SsaSlot::Unit, None)),
            RawExpression::MaybePerformLookup { .. } => Ok((SsaSlot::Unit, None)),
        }
    }
}

proof fn lemma_slot_fields_error(sc: ComputeScope, idxs: Seq<usize>, i: int)
    requires
        0 <= i <= idxs.len(),
    ensures
        slot_fields(sc, idxs.take(i)) matches Err(e) ==> slot_fields(sc, idxs) == Err::<
            Seq<Sym>,
            LlzkError,
        >(e),
    decreases idxs.len(),
{
    if i == idxs.len() {
        assert(idxs.take(i) =~= idxs);
    } else {
        assert(idxs.drop_last().take(i) =~= idxs.take(i));
        lemma_slot_fields_error(sc, idxs.drop_last(), i);
    }
}

proof fn lemma_block_error(sc: ComputeScope, i: nat, n: nat, k: nat)
    requires
        i <= n,
    ensures
        block_lowering(sc, i, k) matches Err(e) ==> block_lowering(sc, n, k) == Err::<
            BlockState,
            LlzkError,
        >(e),
    decreases n,
{
    if i < n {
        lemma_block_error(sc, i, (n - 1) as nat, k);
    }
}

proof fn lemma_program_error(
    sc: ComputeScope,
    blocks: Seq<Vec<RawExpression>>,
    i: nat,
    n: nat,
    k: nat,
)
    requires
        i <= n,
    ensures
        program_lowering(sc, blocks, i, k) matches Err(e) ==> program_lowering(sc, blocks, n, k)
            == Err::<Seq<Effect>, LlzkError>(e),
    decreases n,
{
    if i < n {
        lemma_program_error(sc, blocks, i, (n - 1) as nat, k);
    }
}

/// A witness program together with where the compiled layout keeps its variables.
pub struct WitnessComputation {
    variable_mapping: HashMap<u64, ColumnAddress>,
    lookup_tables: Vec<TableIndex>,
    table_ids: TableIds,
    ssa: Vec<Vec<RawExpression>>,
    substitutions: Vec<Substitution>,
}

/// The name and the types of a hook.
pub open spec fn hook(name: Seq<char>, inputs: Seq<ValueType>, results: Seq<ValueType>) -> (
    Seq<char>,
    Seq<ValueType>,
    Seq<ValueType>,
) {
    (name, inputs, results)
}

/// The hooks that a program may call.
pub open spec fn runtime_hooks() -> Seq<(Seq<char>, Seq<ValueType>, Seq<ValueType>)> {
    let f = ValueType::Felt;
    seq![
        hook(READ_FROM_ROM_HOOK@, seq![f], seq![f, f]),
        hook(READ_FROM_MEMORY_SUBTREE_HOOK@, seq![ValueType::Index], seq![f]),
        hook(WRITE_TO_MEMORY_SUBTREE_HOOK@, seq![ValueType::Index, f], Seq::empty()),
        hook(READ_ORACLE_FIELD_HOOK@, seq![f, f, f, f], seq![f]),
        hook(READ_ORACLE_BOOL_HOOK@, seq![f, f, f], seq![ValueType::Bool]),
        hook(READ_ORACLE_U8_HOOK@, seq![f, f, f], seq![f]),
        hook(READ_ORACLE_U16_HOOK@, seq![f, f, f], seq![f]),
        hook(READ_ORACLE_U32_HOOK@, seq![f, f, f], seq![f, f]),
    ]
}

/// The declarations after declaring those of the first `n` hooks that the module calls.
pub open spec fn with_hooks(
    structs: Seq<module::StructDef>,
    declared: Seq<(Seq<char>, Seq<ValueType>, Seq<ValueType>)>,
    n: nat,
) -> Seq<(Seq<char>, Seq<ValueType>, Seq<ValueType>)>
    decreases n,
{
    if n == 0 {
        declared
    } else {
        let before = with_hooks(structs, declared, (n - 1) as nat);
        let (name, inputs, results) = runtime_hooks()[n - 1];
        if module::module_calls(structs, name) {
            module::with_declaration(before, name, inputs, results)
        } else {
            before
        }
    }
}

fn maybe_declare(
    env: &mut ModuleEnv,
    name: &str,
    inputs: Vec<ValueType>,
    results: Vec<ValueType>,
    n: Ghost<nat>,
    declared: Ghost<Seq<(Seq<char>, Seq<ValueType>, Seq<ValueType>)>>,
)
    requires
        n@ < 8,
        runtime_hooks()[n@ as int] == hook(name@, inputs@, results@),
        module::decl_views(old(env).functions@) == with_hooks(
            old(env).structs@,
            declared@,
            n@,
        ),
    ensures
        final(env).structs == old(env).structs,
        module::decl_views(final(env).functions@) == with_hooks(
            old(env).structs@,
            declared@,
            n@ + 1,
        ),
{
    if env.module_contains_call_to(name) {
        env.declare_private_extern_function(name, inputs, results);
    }
}

impl WitnessComputation {
    /// Where the compiled layout keeps the variables.
    pub closed spec fn mapping(self) -> Map<u64, ColumnAddress> {
        self.variable_mapping@
    }

    /// The tables of the compiled lookups.
    pub closed spec fn tables(self) -> Seq<TableIndex> {
        self.lookup_tables@
    }

    /// The numbers of the tables.
    pub closed spec fn ids(self) -> TableIds {
        self.table_ids
    }

    /// The blocks of the program.
    pub closed spec fn blocks(self) -> Seq<Vec<RawExpression>> {
        self.ssa@
    }

    /// The variables that carry placeholders.
    pub closed spec fn placeholder_variables(self) -> Seq<Substitution> {
        self.substitutions@
    }

    /// Whether some step may read a memory column.
    pub open spec fn reads_memory(self, vars: VarMaps) -> bool {
        exists|b: int, i: int|
            0 <= b < self.blocks().len() && 0 <= i < self.blocks()[b]@.len()
                && ssa::step_reads_runtime_memory(
                #[trigger] self.blocks()[b]@[i],
                self.mapping(),
                vars,
            )
    }

    /// Whether every written variable has a member or a column.
    pub open spec fn writes_have_places(
        self,
        members: Map<u64, (Seq<char>, Option<u64>)>,
    ) -> bool {
        forall|b: int, i: int|
            0 <= b < self.blocks().len() && 0 <= i < self.blocks()[b]@.len() ==> write_has_place(
                #[trigger] self.blocks()[b]@[i],
                members,
                self.mapping(),
            )
    }

    /// What the program is lowered against.
    pub open spec fn scope(self, vars: VarMaps, args: Seq<ValueType>) -> ComputeScope {
        ComputeScope {
            args_map: vars.args_map,
            members: vars.members,
            args,
            component: Sym::SelfStruct,
            mapping: self.mapping(),
            lookup_tables: self.tables(),
            ids: self.ids(),
            substitutions: self.placeholder_variables(),
            reads_memory: self.reads_memory(vars),
            block: Seq::empty(),
            slots: Seq::empty(),
            origins: Seq::empty(),
        }
    }

    /// A program with its layout.
    pub fn new(
        variable_mapping: HashMap<u64, ColumnAddress>,
        lookup_tables: Vec<TableIndex>,
        table_ids: TableIds,
        ssa: Vec<Vec<RawExpression>>,
        substitutions: Vec<Substitution>,
    ) -> (r: Self)
        ensures
            r.mapping() == variable_mapping@,
            r.tables() == lookup_tables@,
            r.ids() == table_ids,
            r.blocks() == ssa@,
            r.placeholder_variables() == substitutions@,
    {
        WitnessComputation { variable_mapping, lookup_tables, table_ids, ssa, substitutions }
    }

    /// Whether some step may read a memory column.
    pub fn has_runtime_memory_reads(&self, vars: &StructVars) -> (r: bool)
        ensures
            r == self.reads_memory(vars.maps()),
    {
        let mut b: usize = 0;
        while b < self.ssa.len()
            invariant
                b <= self.ssa@.len(),
                forall|c: int, i: int|
                    0 <= c < b && 0 <= i < self.blocks()[c]@.len()
                        ==> !ssa::step_reads_runtime_memory(
                        #[trigger] self.blocks()[c]@[i],
                        self.mapping(),
                        vars.maps(),
                    ),
            decreases self.ssa@.len() - b,
        {
            let block = &self.ssa[b];
            let mut i: usize = 0;
            while i < block.len()
                invariant
                    b < self.ssa@.len(),
                    block == self.ssa@[b as int],
                    i <= block@.len(),
                    forall|c: int, j: int|
                        0 <= c < b && 0 <= j < self.blocks()[c]@.len()
                            ==> !ssa::step_reads_runtime_memory(
                            #[trigger] self.blocks()[c]@[j],
                            self.mapping(),
                            vars.maps(),
                        ),
                    forall|j: int|
                        0 <= j < i ==> !ssa::step_reads_runtime_memory(
                            #[trigger] self.blocks()[b as int]@[j],
                            self.mapping(),
                            vars.maps(),
                        ),
                decreases block@.len() - i,
            {
                if raw_expression_reads_runtime_memory(&block[i], &self.variable_mapping, vars) {
                    assert(ssa::step_reads_runtime_memory(
                        self.blocks()[b as int]@[i as int],
                        self.mapping(),
                        vars.maps(),
                    ));
                    return true;
                }
                i = i + 1;
            }
            b = b + 1;
        }
        false
    }

    #[verifier::spinoff_prover]
    #[verifier::rlimit(50)]
    fn emit_block(
        &self,
        builder: &mut OpsBuilder,
        vars: &StructVars,
        self_value: Value,
        has_runtime_memory_reads: bool,
        b: usize,
    ) -> (r: Result<(), LlzkError>)
        requires
            b < self.blocks().len(),
            old(builder).has(self_value),
            self_value.sym@ == Sym::SelfStruct,
            has_runtime_memory_reads == self.reads_memory(vars.maps()),
            self.writes_have_places(vars.members()),
        ensures
            final(builder).continues(*old(builder)),
            match (
                r,
                block_lowering(
                    (ComputeScope {
                        block: self.blocks()[b as int]@,
                        ..self.scope(vars.maps(), old(builder).arguments())
                    }),
                    self.blocks()[b as int]@.len(),
                    old(builder).effects().len(),
                ),
            ) {
                (Ok(_), Ok(st)) => final(builder).effects() == old(builder).effects() + st.effects,
                (Err(e), Err(x)) => e == x,
                _ => false,
            },
    {
        let ghost start = builder.effects();
        let ghost k = start.len();
        let ghost args = builder.arguments();
        let block = &self.ssa[b];
        let ghost sc = ComputeScope { block: block@, ..self.scope(vars.maps(), args) };
        let ghost n = block@.len();
        let mut lowering = ComputeLowering {
            vars,
            self_value,
            variable_mapping: &self.variable_mapping,
            lookup_tables: &self.lookup_tables,
            table_ids: &self.table_ids,
            substitutions: &self.substitutions,
            has_runtime_memory_reads,
            block,
            slots: Vec::new(),
            slot_input_origins: Vec::new(),
        };
        assert(lowering.scope(args).slots =~= Seq::empty());
        assert(start =~= start + Seq::<Effect>::empty());
        let mut i: usize = 0;
        while i < block.len()
            invariant
                i <= block@.len(),
                n == block@.len(),
                b < self.blocks().len(),
                block == self.blocks()[b as int],
                args == old(builder).arguments(),
                start == old(builder).effects(),
                k == start.len(),
                sc == (ComputeScope { block: block@, ..self.scope(vars.maps(), args) }),
                self.writes_have_places(vars.members()),
                builder.continues(*old(builder)),
                lowering.within(*builder),
                lowering.vars == vars,
                lowering.variable_mapping@ == self.mapping(),
                lowering.block == block,
                block_lowering(sc, i as nat, k) is Ok,
                lowering.scope(args) == at_state(sc, block_lowering(sc, i as nat, k)->Ok_0),
                builder.effects() == start + block_lowering(sc, i as nat, k)->Ok_0.effects,
            decreases block@.len() - i,
        {
            let ghost st = block_lowering(sc, i as nat, k)->Ok_0;
            proof {
                lemma_block_error(sc, (i + 1) as nat, n, k);
                assert(write_has_place(
                    self.blocks()[b as int]@[i as int],
                    vars.members(),
                    self.mapping(),
                ));
            }
            lowering.lower_step(builder, &block[i])?;
            let ghost step = step_lowering(
                at_state(sc, st),
                block@[i as int],
                k + st.effects.len(),
            )->Ok_0;
            assert(builder.effects() =~= start + (st.effects + step.effects));
            i = i + 1;
        }
        Ok(())
    }

    /// Lowers the program into a compute function.
    pub fn emit_compute(&self, builder: &mut OpsBuilder, vars: &StructVars) -> (r: Result<
        (),
        LlzkError,
    >)
        requires
            self.writes_have_places(vars.members()),
        ensures
            constraints::has_effects(
                *old(builder),
                *final(builder),
                r,
                if old(builder).function() != FunctionKind::Compute {
                    Err(LlzkError::NotACompute)
                } else {
                    program_lowering(
                        self.scope(vars.maps(), old(builder).arguments()),
                        self.blocks(),
                        self.blocks().len(),
                        old(builder).effects().len(),
                    )
                },
            ),
    {
        let ghost start = builder.effects();
        let ghost k = start.len();
        let ghost sc = self.scope(vars.maps(), builder.arguments());
        let has_runtime_memory_reads = self.has_runtime_memory_reads(vars);
        let self_value = builder.get_compute_self_value()?;
        assert(start =~= start + Seq::<Effect>::empty());
        let mut b: usize = 0;
        while b < self.ssa.len()
            invariant
                b <= self.ssa@.len(),
                self.blocks() == self.ssa@,
                sc == self.scope(vars.maps(), old(builder).arguments()),
                start == old(builder).effects(),
                k == start.len(),
                old(builder).function() == FunctionKind::Compute,
                old(builder).has(self_value),
                self_value.sym@ == Sym::SelfStruct,
                has_runtime_memory_reads == self.reads_memory(vars.maps()),
                self.writes_have_places(vars.members()),
                builder.continues(*old(builder)),
                program_lowering(sc, self.blocks(), b as nat, k) is Ok,
                builder.effects() == start + program_lowering(
                    sc,
                    self.blocks(),
                    b as nat,
                    k,
                )->Ok_0,
            decreases self.ssa@.len() - b,
        {
            let ghost es = program_lowering(sc, self.blocks(), b as nat, k)->Ok_0;
            proof {
                lemma_program_error(
                    sc,
                    self.blocks(),
                    (b + 1) as nat,
                    self.blocks().len(),
                    k,
                );
            }
            self.emit_block(builder, vars, self_value, has_runtime_memory_reads, b)?;
            let ghost st = block_lowering(
                ComputeScope { block: self.blocks()[b as int]@, ..sc },
                self.blocks()[b as int]@.len(),
                k + es.len(),
            )->Ok_0;
            assert(builder.effects() =~= start + (es + st.effects));
            b = b + 1;
        }
        Ok(())
    }

    /// Declares the hooks that the module calls.
    pub fn declare_runtime_externs(&self, env: &mut ModuleEnv)
        ensures
            final(env).structs == old(env).structs,
            module::decl_views(final(env).functions@) == with_hooks(
                old(env).structs@,
                module::decl_views(old(env).functions@),
                8,
            ),
    {
        let ghost declared = module::decl_views(env.functions@);
        let felt = ValueType::Felt;
        let index = ValueType::Index;
        let inputs = vec![felt];
        let results = vec![felt, felt];
        assert(inputs@ =~= seq![felt] && results@ =~= seq![felt, felt]);
        maybe_declare(env, READ_FROM_ROM_HOOK, inputs, results, Ghost(0), Ghost(declared));
        let inputs = vec![index];
        let results = vec![felt];
        assert(inputs@ =~= seq![index] && results@ =~= seq![felt]);
        maybe_declare(
            env,
            READ_FROM_MEMORY_SUBTREE_HOOK,
            inputs,
            results,
            Ghost(1),
            Ghost(declared),
        );
        let inputs = vec![index, felt];
        assert(inputs@ =~= seq![index, felt]);
        maybe_declare(
            env,
            WRITE_TO_MEMORY_SUBTREE_HOOK,
            inputs,
            Vec::new(),
            Ghost(2),
            Ghost(declared),
        );
        let inputs = vec![felt, felt, felt, felt];
        let results = vec![felt];
        assert(inputs@ =~= seq![felt, felt, felt, felt] && results@ =~= seq![felt]);
        maybe_declare(env, READ_ORACLE_FIELD_HOOK, inputs, results, Ghost(3), Ghost(declared));
        let inputs = vec![felt, felt, felt];
        let results = vec![ValueType::Bool];
        assert(inputs@ =~= seq![felt, felt, felt] && results@ =~= seq![ValueType::Bool]);
        maybe_declare(env, READ_ORACLE_BOOL_HOOK, inputs, results, Ghost(4), Ghost(declared));
        let inputs = vec![felt, felt, felt];
        let results = vec![felt];
        assert(inputs@ =~= seq![felt, felt, felt] && results@ =~= seq![felt]);
        maybe_declare(env, READ_ORACLE_U8_HOOK, inputs, results, Ghost(5), Ghost(declared));
        let inputs = vec![felt, felt, felt];
        let results = vec![felt];
        assert(inputs@ =~= seq![felt, felt, felt] && results@ =~= seq![felt]);
        maybe_declare(env, READ_ORACLE_U16_HOOK, inputs, results, Ghost(6), Ghost(declared));
        let inputs = vec![felt, felt, felt];
        let results = vec![felt, felt];
        assert(inputs@ =~= seq![felt, felt, felt] && results@ =~= seq![felt, felt]);
        maybe_declare(env, READ_ORACLE_U32_HOOK, inputs, results, Ghost(7), Ghost(declared));
    }
}

} // verus!
