//! What the steps of a witness program leave.
use vstd::prelude::*;

use crate::circuit::TableIds;
use crate::circuit::TableType;
use crate::llzk::builder::LlzkError;
use crate::llzk::integer_laws;
use crate::llzk::ir::Sym;
use crate::llzk::ir::Valuation;
use crate::llzk::laws;
use crate::llzk::lowering;
use crate::llzk::lowering::ComputeScope;
use crate::llzk::lowering::ComputedSym;
use crate::llzk::lowering::SlotSym;
use crate::llzk::ssa::FieldNodeExpression;
use crate::llzk::ssa::FixedWidthIntegerNodeExpression;
use crate::llzk::ssa::RawExpression;
use crate::llzk::ssa::TableIndex;
use crate::llzk::table_laws;
use crate::llzk::table_lookups;
use crate::llzk::table_lookups::READ_FROM_ROM_HOOK;
use crate::llzk::witness;
use crate::llzk::witness_laws;
use crate::llzk::witness_laws::Meaning;
use crate::llzk::witness_laws::World;
use crate::tables;

verus! {

/// The outputs of a table for its inputs. The ROM is read by a hook.
pub open spec fn table_values(table: TableType, inputs: Seq<int>, w: World) -> Seq<int> {
    match table {
        TableType::ConditionalJmpBranchSlt => seq![tables::branch_flag(inputs[0], inputs[1])],
        TableType::JumpCleanupOffset => seq![
            tables::jump_cleanup(inputs[0]).0,
            tables::jump_cleanup(inputs[0]).1,
        ],
        TableType::MemoryGetOffsetAndMaskWithTrap => seq![
            tables::offset_and_mask(inputs[0]).0,
            tables::offset_and_mask(inputs[0]).1,
        ],
        TableType::RomAddressSpaceSeparator => seq![
            tables::rom_separator(inputs[0]).0,
            tables::rom_separator(inputs[0]).1,
        ],
        TableType::MemoryLoadHalfwordOrByte => seq![
            tables::load_subword(inputs[0]).0,
            tables::load_subword(inputs[0]).1,
        ],
        TableType::MemStoreClearOriginalRamValueLimb => seq![tables::clear_original(inputs[0])],
        TableType::MemStoreClearWrittenValueLimb => seq![tables::clear_written(inputs[0])],
        TableType::AlignedRomRead => seq![
            (w.hook)(READ_FROM_ROM_HOOK@, inputs, 0) % laws::p(),
            (w.hook)(READ_FROM_ROM_HOOK@, inputs, 1) % laws::p(),
        ],
        TableType::Other(_) => Seq::empty(),
    }
}

/// Outputs cut to a number, or filled with zeros to it.
pub open spec fn resized(values: Seq<int>, n: nat) -> Seq<int> {
    Seq::new(
        n,
        |i: int|
            if i < values.len() {
                values[i]
            } else {
                0
            },
    )
}

/// Whether the inputs are a key of the table.
pub open spec fn is_key(table: TableType, inputs: Seq<int>) -> bool {
    match table {
        TableType::ConditionalJmpBranchSlt => inputs[0] < 16 && inputs[1] < 8,
        TableType::Other(_) => false,
        _ => true,
    }
}

/// The values of the inputs of a lookup.
pub open spec fn input_values(inputs: Seq<usize>, w: World) -> Seq<int> {
    inputs.map_values(|idx: usize| witness_laws::slot_value(w, idx))
}

/// The table that the synthesis fixed for a lookup, if it fixed one.
pub open spec fn compiled_table(sc: ComputeScope, compiled: Option<usize>) -> Option<TableType> {
    match compiled {
        Some(idx) => match sc.lookup_tables[idx as int] {
            TableIndex::Constant(table) => Some(table),
            TableIndex::Variable(_) => None,
        },
        None => None,
    }
}

/// The number that a step is, where it is a constant.
pub open spec fn constant_number(e: RawExpression) -> Option<int> {
    match e {
        RawExpression::Integer(FixedWidthIntegerNodeExpression::ConstantU8(c)) => Some(c as int),
        RawExpression::Integer(FixedWidthIntegerNodeExpression::ConstantU16(c)) => Some(c as int),
        RawExpression::Integer(FixedWidthIntegerNodeExpression::ConstantU32(c)) => Some(c as int),
        RawExpression::Field(FieldNodeExpression::Constant(c)) => Some(c.0 as int % laws::p()),
        _ => None,
    }
}

/// The table of a lookup: the one that the synthesis fixed, or else the one whose number the
/// program gives.
pub open spec fn lookup_table(
    sc: ComputeScope,
    table_slot: usize,
    compiled: Option<usize>,
    w: World,
) -> TableType {
    match compiled_table(sc, compiled) {
        Some(table) => table,
        None => match constant_number(sc.block[table_slot as int]) {
            Some(number) => sc.ids.table_of(number as u32),
            None => sc.ids.table_of(witness_laws::slot_value(w, table_slot) as u32),
        },
    }
}

/// Whether a lookup takes place.
pub open spec fn lookup_happens(mask: Option<usize>, w: World) -> bool {
    match mask {
        None => true,
        Some(idx) => w.slots[idx as int]->Bool_0,
    }
}

/// The outputs of a lookup: those of its table, or zeros where it does not take place.
pub open spec fn lookup_values(
    sc: ComputeScope,
    inputs: Seq<usize>,
    table_slot: usize,
    compiled: Option<usize>,
    mask: Option<usize>,
    n: nat,
    w: World,
) -> Seq<int> {
    if lookup_happens(mask, w) {
        resized(
            table_values(
                lookup_table(sc, table_slot, compiled, w),
                input_values(inputs, w),
                w,
            ),
            n,
        )
    } else {
        resized(Seq::empty(), n)
    }
}

/// Whether tables have numbers of their own, as field elements.
pub open spec fn numbered(ids: TableIds, list: Seq<TableType>) -> bool {
    &&& forall|i: int| 0 <= i < list.len() ==> #[trigger] ids.id_of(list[i]) < laws::p()
    &&& forall|i: int, j: int|
        0 <= i < list.len() && 0 <= j < list.len() && i != j ==> #[trigger] ids.id_of(list[i])
            != #[trigger] ids.id_of(list[j])
}

/// Whether a lookup that takes place has outputs: its inputs are a key of its table, and a
/// computed number names one of the tables to choose from.
pub open spec fn lookup_sound(
    sc: ComputeScope,
    inputs: Seq<usize>,
    table_slot: usize,
    compiled: Option<usize>,
    mask: Option<usize>,
    w: World,
) -> bool {
    let table = lookup_table(sc, table_slot, compiled, w);
    let list = table_lookups::dynamic_tables(inputs.len());
    lookup_happens(mask, w) ==> {
        &&& is_key(table, input_values(inputs, w))
        &&& compiled_table(sc, compiled) is None && constant_number(
            sc.block[table_slot as int],
        ) is None ==> {
            &&& list.contains(table)
            &&& numbered(sc.ids, list)
        }
    }
}

/// A lookup for which the synthesis fixed a table is lowered to that table, or not at all: where
/// the program names another table as a constant, and where there is no such lookup, it fails.
/// Without a fixed table, the constant decides, or else the number that the program computes.
pub proof fn lookups_go_to_their_table(sc: ComputeScope, table_slot: usize, compiled: Option<usize>)
    requires
        table_slot < sc.block.len(),
    ensures
        compiled matches Some(idx) && idx >= sc.lookup_tables.len()
            ==> witness::resolved_table(sc, table_slot, compiled) == Err::<
            Option<TableType>,
            LlzkError,
        >(LlzkError::LookupMappingOutOfBounds),
        !(compiled matches Some(idx) && idx >= sc.lookup_tables.len()) ==> {
            let number = constant_number(sc.block[table_slot as int]);
            match compiled_table(sc, compiled) {
                Some(table) => if number matches Some(c) && sc.ids.table_of(c as u32) != table {
                    witness::resolved_table(sc, table_slot, compiled) == Err::<
                        Option<TableType>,
                        LlzkError,
                    >(LlzkError::LookupTableMismatch)
                } else {
                    witness::resolved_table(sc, table_slot, compiled) == Ok::<
                        Option<TableType>,
                        LlzkError,
                    >(Some(table))
                },
                None => witness::resolved_table(sc, table_slot, compiled) == Ok::<
                    Option<TableType>,
                    LlzkError,
                >(
                    match number {
                        Some(c) => Some(sc.ids.table_of(c as u32)),
                        None => None,
                    },
                ),
            }
        },
{
}

/// Whether terms have canonical field values.
spec fn canonical(xs: Seq<Sym>, rho: Valuation) -> bool {
    forall|i: int| 0 <= i < xs.len() ==> 0 <= (#[trigger] xs[i]).eval(rho) < laws::p()
}

proof fn lemma_slot(sc: ComputeScope, idx: usize, rho: Valuation, w: World)
    requires
        lowering::slot_field(sc, idx) is Ok,
        witness_laws::slots_agree(sc, rho, w),
    ensures
        lowering::slot_field(sc, idx)->Ok_0.eval(rho) == witness_laws::slot_value(w, idx),
        0 <= witness_laws::slot_value(w, idx) < laws::p(),
{
    assert(witness_laws::slot_agrees(sc.slots[idx as int], w.slots[idx as int], rho));
    match sc.slots[idx as int] {
        SlotSym::Value(ComputedSym::Integer(i)) => {
            integer_laws::integers_in_the_field(i, rho);
        },
        SlotSym::Value(ComputedSym::Bool(b)) => {
            integer_laws::booleans_in_the_field(b, rho);
        },
        _ => {},
    }
}

proof fn lemma_slots(sc: ComputeScope, idxs: Seq<usize>, rho: Valuation, w: World)
    requires
        witness::slot_fields(sc, idxs) is Ok,
        witness_laws::slots_agree(sc, rho, w),
    ensures
        witness::slot_fields(sc, idxs)->Ok_0.len() == idxs.len(),
        canonical(witness::slot_fields(sc, idxs)->Ok_0, rho),
        witness_laws::evals(witness::slot_fields(sc, idxs)->Ok_0, rho) == input_values(idxs, w),
    decreases idxs.len(),
{
    let all = witness::slot_fields(sc, idxs)->Ok_0;
    if idxs.len() > 0 {
        let front = idxs.drop_last();
        let head = witness::slot_fields(sc, front)->Ok_0;
        lemma_slots(sc, front, rho, w);
        lemma_slot(sc, idxs.last(), rho, w);
        assert forall|i: int| 0 <= i < all.len() implies {
            &&& 0 <= (#[trigger] all[i]).eval(rho) < laws::p()
            &&& all[i].eval(rho) == witness_laws::slot_value(w, idxs[i])
        } by {
            if i < front.len() {
                assert(all[i] == head[i]);
                assert(witness_laws::evals(head, rho)[i] == input_values(front, w)[i]);
            }
        }
    }
    assert(witness_laws::evals(all, rho) =~= input_values(idxs, w));
}

/// The computed outputs of a table have the values of the table.
proof fn lemma_computed(table: TableType, ins: Seq<Sym>, n: nat, rho: Valuation, w: World)
    requires
        !(table is AlignedRomRead),
        ins.len() == table_lookups::input_count(table),
        canonical(ins, rho),
        is_key(table, witness_laws::evals(ins, rho)),
    ensures
        witness_laws::outputs_agree(
            table_lookups::finalized(table_lookups::computed_outputs(table, ins), n),
            resized(table_values(table, witness_laws::evals(ins, rho), w), n),
            rho,
        ),
{
    let inputs = witness_laws::evals(ins, rho);
    let x = ins[0];
    assert(inputs[0] == x.eval(rho));
    laws::constants_have_their_value(0, rho);
    match table {
        TableType::ConditionalJmpBranchSlt => {
            assert(inputs[1] == ins[1].eval(rho));
            table_laws::computed_branch_flags_are_rows(x, ins[1], rho);
        },
        TableType::JumpCleanupOffset => {
            table_laws::computed_jump_cleanups_are_rows(x, rho);
        },
        TableType::MemoryGetOffsetAndMaskWithTrap => {
            table_laws::computed_offsets_and_masks_are_rows(x, rho);
        },
        TableType::RomAddressSpaceSeparator => {
            table_laws::computed_rom_separators_are_rows(x, rho);
        },
        TableType::MemoryLoadHalfwordOrByte => {
            table_laws::computed_loads_are_rows(x, rho);
        },
        TableType::MemStoreClearOriginalRamValueLimb => {
            table_laws::computed_cleared_originals_are_rows(x, rho);
        },
        TableType::MemStoreClearWrittenValueLimb => {
            table_laws::computed_cleared_writes_are_rows(x, rho);
        },
        _ => {},
    }
}

/// The outputs of a lookup in a known table have the values of the table.
proof fn lemma_table(table: TableType, ins: Seq<Sym>, n: nat, k: nat, rho: Valuation, w: World)
    requires
        table_lookups::table_outputs(table, ins, n, k) is Ok,
        witness_laws::answered(
            table_lookups::table_outputs(table, ins, n, k)->Ok_0.effects,
            k,
            rho,
            w,
        ),
        canonical(ins, rho),
        is_key(table, witness_laws::evals(ins, rho)),
    ensures
        witness_laws::outputs_agree(
            table_lookups::table_outputs(table, ins, n, k)->Ok_0.syms,
            resized(table_values(table, witness_laws::evals(ins, rho), w), n),
            rho,
        ),
{
    if table is AlignedRomRead {
        witness_laws::lemma_hook(READ_FROM_ROM_HOOK@, ins, 2, k, 0, rho, w);
        witness_laws::lemma_hook(READ_FROM_ROM_HOOK@, ins, 2, k, 1, rho, w);
        laws::constants_have_their_value(0, rho);
    } else {
        lemma_computed(table, ins, n, rho, w);
    }
}

/// The outputs of a lookup with a computed table number have the values of the table that has
/// the number.
proof fn lemma_dynamic(
    ids: TableIds,
    table_id: Sym,
    ins: Seq<Sym>,
    n: nat,
    k: nat,
    rho: Valuation,
    w: World,
)
    requires
        canonical(ins, rho),
        0 <= table_id.eval(rho) < laws::p(),
        numbered(ids, table_lookups::dynamic_tables(ins.len())),
        table_lookups::dynamic_tables(ins.len()).contains(
            ids.table_of(table_id.eval(rho) as u32),
        ),
        is_key(ids.table_of(table_id.eval(rho) as u32), witness_laws::evals(ins, rho)),
    ensures
        witness_laws::outputs_agree(
            table_lookups::dynamic_outputs(ids, table_id, ins, n, k).syms,
            resized(
                table_values(
                    ids.table_of(table_id.eval(rho) as u32),
                    witness_laws::evals(ins, rho),
                    w,
                ),
                n,
            ),
            rho,
        ),
{
    let list = table_lookups::dynamic_tables(ins.len());
    let table = ids.table_of(table_id.eval(rho) as u32);
    let chosen = choose|i: int| 0 <= i < list.len() && list[i] == table;
    let xs = table_lookups::dynamic_outputs(ids, table_id, ins, n, k).syms;
    let named = table_lookups::finalized(table_lookups::computed_outputs(table, ins), n);
    ids.table_of_keeps_the_number(table_id.eval(rho) as u32);
    lemma_computed(table, ins, n, rho, w);
    assert forall|i: int| 0 <= i < n implies (#[trigger] xs[i]).eval(rho) == named[i].eval(
        rho,
    ) by {
        table_laws::dynamic_lookups_give_the_named_table(
            list,
            chosen,
            ids,
            table_id,
            ins,
            n,
            k,
            i,
            rho,
        );
    }
}

/// The outputs of a lookup step have the values of the lookup.
pub proof fn lookups_are_computed(
    sc: ComputeScope,
    inputs: Seq<usize>,
    table_slot: usize,
    compiled: Option<usize>,
    mask: Option<usize>,
    n: nat,
    k: nat,
    rho: Valuation,
    w: World,
)
    requires
        witness::lookup_lowering(sc, inputs, table_slot, compiled, mask, n, k) is Ok,
        witness_laws::answered(
            witness::lookup_lowering(sc, inputs, table_slot, compiled, mask, n, k)->Ok_0.effects,
            k,
            rho,
            w,
        ),
        witness_laws::slots_agree(sc, rho, w),
        lookup_sound(sc, inputs, table_slot, compiled, mask, w),
    ensures
        witness_laws::outputs_agree(
            witness::lookup_lowering(sc, inputs, table_slot, compiled, mask, n, k)->Ok_0.syms,
            lookup_values(sc, inputs, table_slot, compiled, mask, n, w),
            rho,
        ),
{
    let r = witness::unmasked_lookup(sc, inputs, table_slot, compiled, n, k)->Ok_0;
    let ins = witness::slot_fields(sc, inputs)->Ok_0;
    let values = lookup_values(sc, inputs, table_slot, compiled, mask, n, w);
    lemma_slots(sc, inputs, rho, w);
    lookups_go_to_their_table(sc, table_slot, compiled);
    assert(r.syms.len() == n);
    if lookup_happens(mask, w) {
        match witness::resolved_table(sc, table_slot, compiled)->Ok_0 {
            Some(table) => {
                lemma_table(table, ins, n, k, rho, w);
            },
            None => {
                lemma_slot(sc, table_slot, rho, w);
                let id = lowering::slot_field(sc, table_slot)->Ok_0;
                lemma_dynamic(sc.ids, id, ins, n, k, rho, w);
            },
        }
    }
    if let Some(idx) = mask {
        let m = lowering::slot_bool(sc, idx)->Ok_0;
        let xs = table_lookups::masked(m, r.syms);
        assert(witness_laws::slot_agrees(sc.slots[idx as int], w.slots[idx as int], rho));
        assert forall|i: int| 0 <= i < n implies (#[trigger] xs[i]).eval(rho) == values[i] && 0
            <= values[i] < laws::p() by {
            table_laws::masked_outputs_vanish(m, r.syms, i, rho);
        }
    }
}

/// A lookup for which the synthesis fixed a table leaves the outputs of that table for its inputs,
/// whatever number the program gives.
pub proof fn fixed_lookups_leave_the_outputs_of_their_table(
    sc: ComputeScope,
    inputs: Seq<usize>,
    table_slot: usize,
    idx: usize,
    table: TableType,
    n: nat,
    k: nat,
    rho: Valuation,
    w: World,
)
    requires
        idx < sc.lookup_tables.len(),
        sc.lookup_tables[idx as int] == TableIndex::Constant(table),
        witness::lookup_lowering(sc, inputs, table_slot, Some(idx), None, n, k) is Ok,
        witness_laws::answered(
            witness::lookup_lowering(
                sc,
                inputs,
                table_slot,
                Some(idx),
                None,
                n,
                k,
            )->Ok_0.effects,
            k,
            rho,
            w,
        ),
        witness_laws::slots_agree(sc, rho, w),
        is_key(table, input_values(inputs, w)),
    ensures
        witness_laws::outputs_agree(
            witness::lookup_lowering(sc, inputs, table_slot, Some(idx), None, n, k)->Ok_0.syms,
            resized(table_values(table, input_values(inputs, w), w), n),
            rho,
        ),
{
    lookups_are_computed(sc, inputs, table_slot, Some(idx), None, n, k, rho, w);
}

/// A constant step leaves its number, so that where it names a table, the table is the one whose
/// number the program gives.
pub proof fn constant_steps_leave_their_number(
    sc: ComputeScope,
    e: RawExpression,
    rho: Valuation,
    w: World,
    idx: usize,
)
    requires
        w.slots[idx as int] == step_meaning(sc, e, rho, w),
        constant_number(e) matches Some(c) && c < laws::p(),
    ensures
        witness_laws::slot_value(w, idx) == constant_number(e)->0,
{
    let c = constant_number(e)->0;
    vstd::arithmetic::div_mod::lemma_small_mod(c as nat, laws::p() as nat);
}

/// What a step leaves for the later steps.
pub open spec fn step_meaning(
    sc: ComputeScope,
    e: RawExpression,
    rho: Valuation,
    w: World,
) -> Meaning {
    match e {
        RawExpression::Bool(x) => Meaning::Bool(witness_laws::bool_value(sc, x, rho, w)),
        RawExpression::Field(x) => Meaning::Field(witness_laws::field_value(sc, x, rho, w)),
        RawExpression::Integer(x) => Meaning::Integer(
            witness_laws::integer_width(x, w),
            witness_laws::integer_value(sc, x, rho, w),
        ),
        RawExpression::PerformLookup {
            input_subexpr_idxes,
            table_id_subexpr_idx,
            num_outputs,
            lookup_mapping_idx,
        } => Meaning::Lookup(
            lookup_values(
                sc,
                input_subexpr_idxes@,
                table_id_subexpr_idx,
                Some(lookup_mapping_idx),
                None,
                num_outputs as nat,
                w,
            ),
        ),
        RawExpression::MaybePerformLookup {
            input_subexpr_idxes,
            table_id_subexpr_idx,
            mask_id_subexpr_idx,
            num_outputs,
        } => Meaning::Lookup(
            lookup_values(
                sc,
                input_subexpr_idxes@,
                table_id_subexpr_idx,
                None,
                Some(mask_id_subexpr_idx),
                num_outputs as nat,
                w,
            ),
        ),
        RawExpression::AccessLookup { subindex, output_index } => Meaning::Field(
            w.slots[subindex as int]->Lookup_0[output_index as int],
        ),
        RawExpression::WriteVariable { .. } => Meaning::Unit,
    }
}

/// Whether a step has a value to leave.
pub open spec fn step_sound(
    sc: ComputeScope,
    e: RawExpression,
    rho: Valuation,
    w: World,
) -> bool {
    match e {
        RawExpression::Bool(x) => witness_laws::bool_sound(sc, x, rho, w),
        RawExpression::Field(x) => witness_laws::field_sound(sc, x, rho, w),
        RawExpression::Integer(x) => witness_laws::integer_sound(sc, x, rho, w),
        RawExpression::PerformLookup {
            input_subexpr_idxes,
            table_id_subexpr_idx,
            num_outputs,
            lookup_mapping_idx,
        } => lookup_sound(
            sc,
            input_subexpr_idxes@,
            table_id_subexpr_idx,
            Some(lookup_mapping_idx),
            None,
            w,
        ),
        RawExpression::MaybePerformLookup {
            input_subexpr_idxes,
            table_id_subexpr_idx,
            mask_id_subexpr_idx,
            num_outputs,
        } => lookup_sound(
            sc,
            input_subexpr_idxes@,
            table_id_subexpr_idx,
            None,
            Some(mask_id_subexpr_idx),
            w,
        ),
        RawExpression::AccessLookup { .. } => true,
        RawExpression::WriteVariable { source_subexpr, .. } => witness_laws::source_sound(
            sc,
            source_subexpr,
            rho,
            w,
        ),
    }
}

/// A step leaves the value of its expression, or the outputs of its lookup, for the later steps.
pub proof fn steps_leave_their_values(
    sc: ComputeScope,
    e: RawExpression,
    k: nat,
    rho: Valuation,
    w: World,
)
    requires
        witness::step_lowering(sc, e, k) is Ok,
        witness_laws::answered(witness::step_lowering(sc, e, k)->Ok_0.effects, k, rho, w),
        witness_laws::slots_agree(sc, rho, w),
        step_sound(sc, e, rho, w),
    ensures
        witness_laws::slot_agrees(
            witness::step_lowering(sc, e, k)->Ok_0.slot,
            step_meaning(sc, e, rho, w),
            rho,
        ),
{
    match e {
        RawExpression::Bool(x) => {
            witness_laws::bool_expressions_are_computed(sc, x, k, rho, w);
        },
        RawExpression::Field(x) => {
            witness_laws::field_expressions_are_computed(sc, x, k, rho, w);
        },
        RawExpression::Integer(x) => {
            witness_laws::integer_expressions_are_computed(sc, x, k, rho, w);
        },
        RawExpression::PerformLookup {
            input_subexpr_idxes,
            table_id_subexpr_idx,
            num_outputs,
            lookup_mapping_idx,
        } => {
            lookups_are_computed(
                sc,
                input_subexpr_idxes@,
                table_id_subexpr_idx,
                Some(lookup_mapping_idx),
                None,
                num_outputs as nat,
                k,
                rho,
                w,
            );
        },
        RawExpression::MaybePerformLookup {
            input_subexpr_idxes,
            table_id_subexpr_idx,
            mask_id_subexpr_idx,
            num_outputs,
        } => {
            lookups_are_computed(
                sc,
                input_subexpr_idxes@,
                table_id_subexpr_idx,
                None,
                Some(mask_id_subexpr_idx),
                num_outputs as nat,
                k,
                rho,
                w,
            );
        },
        RawExpression::AccessLookup { subindex, output_index } => {
            let xs = lowering::slot_lookup(sc, subindex)->Ok_0;
            assert(witness_laws::slot_agrees(
                sc.slots[subindex as int],
                w.slots[subindex as int],
                rho,
            ));
            assert(xs[output_index as int].eval(rho) == w.slots[subindex as int]->Lookup_0[
                output_index as int
            ]);
        },
        RawExpression::WriteVariable { .. } => {},
    }
}

} // verus!
