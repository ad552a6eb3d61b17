//! Where the variables of a circuit stand in the struct that it is emitted as.
use vstd::prelude::*;

use crate::circuit::CircuitOutput;
use crate::circuit::OpcodeFamilyCircuitState;
use crate::circuit::ShuffleRamMemQuery;
use crate::circuit::ShuffleRamQueryType;
use crate::circuit::Variable;
use crate::llzk::builder::LlzkError;
use crate::llzk::codegen;
use crate::llzk::config::LlzkStructLayout;
use crate::llzk::extract;
use crate::llzk::extract::ExtractedVariable;
use crate::llzk::ir;
use crate::llzk::ir::Effect;
use crate::llzk::ir::ValueType;
use crate::llzk::module::StructDef;
use crate::llzk::vars;
use crate::llzk::vars::ArgSlot;
use crate::llzk::witness::WitnessComputation;
use crate::text;

verus! {

/// Whether an extracted variable is the register of two limbs.
pub open spec fn is_register(x: ExtractedVariable, limbs: [Variable; 2]) -> bool {
    x == ExtractedVariable::Register { low: limbs[0], high: limbs[1] }
}

/// Whether a query writes something else than it reads.
pub open spec fn changes(query: ShuffleRamMemQuery) -> bool {
    query.write_value[0] != query.read_value[0] || query.write_value[1] != query.read_value[1]
}

/// Whether an extracted variable comes into a circuit with its machine state: the decoded
/// instruction, whether the cycle is executed, and the start of the cycle.
pub open spec fn is_state_input(cs: OpcodeFamilyCircuitState, x: ExtractedVariable) -> bool {
    ||| x == ExtractedVariable::Scalar(cs.execute)
    ||| is_register(x, cs.cycle_start_state.pc)
    ||| is_register(x, cs.cycle_start_state.timestamp)
    ||| x == ExtractedVariable::Scalar(cs.decoder_data.rs1_index)
    ||| x == ExtractedVariable::Scalar(cs.decoder_data.rs2_index)
    ||| x == ExtractedVariable::Scalar(cs.decoder_data.rd_index)
    ||| x == ExtractedVariable::Scalar(cs.decoder_data.rd_is_zero)
    ||| is_register(x, cs.decoder_data.imm)
    ||| x == ExtractedVariable::Scalar(cs.decoder_data.funct3)
    ||| x == ExtractedVariable::Scalar(cs.decoder_data.circuit_family_extra_mask)
    ||| cs.decoder_data.funct7 matches Some(v) && x == ExtractedVariable::Scalar(v)
}

/// Whether an extracted variable comes into a circuit with a query: what it reads, and where it may
/// go to memory the address and the flag that tells a register from memory. A legacy circuit is
/// also handed what its query 2 writes.
pub open spec fn is_query_input(
    query: ShuffleRamMemQuery,
    index: int,
    legacy: bool,
    x: ExtractedVariable,
) -> bool {
    ||| is_register(x, query.read_value)
    ||| legacy && index == 2 && changes(query) && is_register(x, query.write_value)
    ||| query.query_type matches ShuffleRamQueryType::RegisterOrRam { is_register: flag, address }
        && (is_register(x, address) || (flag.variable() matches Some(v) && x
        == ExtractedVariable::Scalar(v)))
}

/// Whether an extracted variable comes out of a circuit with a query: what it writes, unless that
/// is what it reads, or a legacy circuit is handed it.
pub open spec fn is_query_output(
    query: ShuffleRamMemQuery,
    index: int,
    legacy: bool,
    x: ExtractedVariable,
) -> bool {
    changes(query) && !(legacy && index == 2) && is_register(x, query.write_value)
}

/// Whether an extracted variable comes into a circuit.
pub open spec fn is_input(
    cs: OpcodeFamilyCircuitState,
    queries: Seq<ShuffleRamMemQuery>,
    legacy: bool,
    x: ExtractedVariable,
) -> bool {
    ||| is_state_input(cs, x)
    ||| exists|i: int|
        0 <= i < queries.len() && is_query_input(#[trigger] queries[i], i, legacy, x)
}

/// Whether an extracted variable comes out of a circuit: the program counter and the time at the
/// end of the cycle, and what the queries write.
pub open spec fn is_output(
    cs: OpcodeFamilyCircuitState,
    queries: Seq<ShuffleRamMemQuery>,
    legacy: bool,
    x: ExtractedVariable,
) -> bool {
    ||| is_register(x, cs.cycle_end_state.pc)
    ||| is_register(x, cs.cycle_end_state.timestamp)
    ||| exists|i: int|
        0 <= i < queries.len() && is_query_output(#[trigger] queries[i], i, legacy, x)
}

proof fn lemma_appended(
    a: Seq<ExtractedVariable>,
    b: Seq<ExtractedVariable>,
    x: ExtractedVariable,
)
    ensures
        (a + b).contains(x) <==> a.contains(x) || b.contains(x),
{
    let s = a + b;
    if a.contains(x) {
        let i = choose|i: int| 0 <= i < a.len() && a[i] == x;
        assert(s[i] == x);
    }
    if b.contains(x) {
        let i = choose|i: int| 0 <= i < b.len() && b[i] == x;
        assert(s[a.len() + i] == x);
    }
    if s.contains(x) {
        let i = choose|i: int| 0 <= i < s.len() && s[i] == x;
        if i < a.len() {
            assert(a[i] == x);
        } else {
            assert(b[i - a.len()] == x);
        }
    }
}

proof fn lemma_single(y: ExtractedVariable, x: ExtractedVariable)
    ensures
        seq![y].contains(x) <==> x == y,
{
    assert(seq![y][0] == y);
}

proof fn lemma_changes(query: ShuffleRamMemQuery)
    ensures
        query.readonly() <==> !changes(query),
{
    if !changes(query) {
        assert(query.read_value@ =~= query.write_value@);
    }
}

proof fn lemma_query_inputs(
    query: ShuffleRamMemQuery,
    index: int,
    legacy: bool,
    x: ExtractedVariable,
)
    ensures
        extract::query_inputs(query, index, legacy).contains(x) <==> is_query_input(
            query,
            index,
            legacy,
            x,
        ),
{
    lemma_changes(query);
    let none = Seq::<ExtractedVariable>::empty();
    let a = seq![extract::register_of(query.read_value@)];
    let b = if !query.readonly() && extract::write_is_input(index, legacy) {
        seq![extract::register_of(query.write_value@)]
    } else {
        none
    };
    lemma_single(extract::register_of(query.read_value@), x);
    lemma_single(extract::register_of(query.write_value@), x);
    let c = match query.query_type {
        ShuffleRamQueryType::RegisterOrRam { is_register, address } => {
            let d = match is_register.variable() {
                Some(v) => {
                    lemma_single(ExtractedVariable::Scalar(v), x);
                    seq![ExtractedVariable::Scalar(v)]
                },
                None => none,
            };
            lemma_single(extract::register_of(address@), x);
            lemma_appended(seq![extract::register_of(address@)], d, x);
            seq![extract::register_of(address@)] + d
        },
        ShuffleRamQueryType::RegisterOnly { .. } => none,
    };
    assert(extract::query_inputs(query, index, legacy) == a + b + c);
    lemma_appended(a, b, x);
    lemma_appended(a + b, c, x);
}

proof fn lemma_queries_inputs(
    queries: Seq<ShuffleRamMemQuery>,
    legacy: bool,
    x: ExtractedVariable,
)
    ensures
        extract::queries_inputs(queries, legacy).contains(x) <==> exists|i: int|
            0 <= i < queries.len() && is_query_input(#[trigger] queries[i], i, legacy, x),
    decreases queries.len(),
{
    if queries.len() > 0 {
        let front = queries.drop_last();
        let n = queries.len() - 1;
        lemma_queries_inputs(front, legacy, x);
        lemma_query_inputs(queries[n], n, legacy, x);
        lemma_appended(
            extract::queries_inputs(front, legacy),
            extract::query_inputs(queries[n], n, legacy),
            x,
        );
        if exists|i: int|
            0 <= i < front.len() && is_query_input(#[trigger] front[i], i, legacy, x) {
            let i = choose|i: int|
                0 <= i < front.len() && is_query_input(#[trigger] front[i], i, legacy, x);
            assert(is_query_input(queries[i], i, legacy, x));
        }
        if exists|i: int|
            0 <= i < queries.len() && is_query_input(#[trigger] queries[i], i, legacy, x) {
            let i = choose|i: int|
                0 <= i < queries.len() && is_query_input(#[trigger] queries[i], i, legacy, x);
            if i < n {
                assert(is_query_input(front[i], i, legacy, x));
            }
        }
    }
}

proof fn lemma_queries_outputs(
    queries: Seq<ShuffleRamMemQuery>,
    legacy: bool,
    x: ExtractedVariable,
)
    ensures
        extract::queries_outputs(queries, legacy).contains(x) <==> exists|i: int|
            0 <= i < queries.len() && is_query_output(#[trigger] queries[i], i, legacy, x),
    decreases queries.len(),
{
    if queries.len() > 0 {
        let front = queries.drop_last();
        let n = queries.len() - 1;
        lemma_queries_outputs(front, legacy, x);
        lemma_changes(queries[n]);
        lemma_single(extract::register_of(queries[n].write_value@), x);
        assert(extract::query_outputs(queries[n], n, legacy).contains(x) <==> is_query_output(
            queries[n],
            n,
            legacy,
            x,
        ));
        lemma_appended(
            extract::queries_outputs(front, legacy),
            extract::query_outputs(queries[n], n, legacy),
            x,
        );
        if exists|i: int|
            0 <= i < front.len() && is_query_output(#[trigger] front[i], i, legacy, x) {
            let i = choose|i: int|
                0 <= i < front.len() && is_query_output(#[trigger] front[i], i, legacy, x);
            assert(is_query_output(queries[i], i, legacy, x));
        }
        if exists|i: int|
            0 <= i < queries.len() && is_query_output(#[trigger] queries[i], i, legacy, x) {
            let i = choose|i: int|
                0 <= i < queries.len() && is_query_output(#[trigger] queries[i], i, legacy, x);
            if i < n {
                assert(is_query_output(front[i], i, legacy, x));
            }
        }
    }
}

proof fn lemma_state_inputs(cs: OpcodeFamilyCircuitState, x: ExtractedVariable)
    ensures
        extract::state_input_list(cs).contains(x) <==> is_state_input(cs, x),
{
    let s = extract::state_input_list(cs);
    let d = cs.decoder_data;
    assert(s[0] == ExtractedVariable::Scalar(cs.execute));
    assert(s[1] == extract::register_of(cs.cycle_start_state.pc@));
    assert(s[2] == extract::register_of(cs.cycle_start_state.timestamp@));
    assert(s[3] == ExtractedVariable::Scalar(d.rs1_index));
    assert(s[4] == ExtractedVariable::Scalar(d.rs2_index));
    assert(s[5] == ExtractedVariable::Scalar(d.rd_index));
    assert(s[6] == ExtractedVariable::Scalar(d.rd_is_zero));
    assert(s[7] == extract::register_of(d.imm@));
    assert(s[8] == ExtractedVariable::Scalar(d.funct3));
    assert(s[9] == ExtractedVariable::Scalar(d.circuit_family_extra_mask));
    match d.funct7 {
        Some(v) => {
            assert(s.len() == 11);
            assert(s[10] == ExtractedVariable::Scalar(v));
        },
        None => {
            assert(s.len() == 10);
        },
    }
    if s.contains(x) {
        let i = choose|i: int| 0 <= i < s.len() && s[i] == x;
    }
}

/// What comes into a circuit, in order and without repetitions: its machine state at the start of
/// the cycle, and for every query what it reads, whatever its type.
pub proof fn inputs_are_what_comes_in(
    inputs: Seq<ExtractedVariable>,
    cs: OpcodeFamilyCircuitState,
    queries: Seq<ShuffleRamMemQuery>,
    legacy: bool,
)
    requires
        extract::is_sorted_form(inputs, extract::input_list(cs, queries, legacy)),
    ensures
        forall|x: ExtractedVariable| #[trigger]
            inputs.contains(x) <==> is_input(cs, queries, legacy, x),
        forall|i: int, j: int|
            0 <= i < j < inputs.len() ==> extract::precedes(inputs[i], inputs[j]),
{
    assert forall|x: ExtractedVariable| #[trigger]
        inputs.contains(x) <==> is_input(cs, queries, legacy, x) by {
        lemma_state_inputs(cs, x);
        lemma_queries_inputs(queries, legacy, x);
        lemma_appended(
            extract::state_input_list(cs),
            extract::queries_inputs(queries, legacy),
            x,
        );
    }
}

/// What comes out of a circuit, in order and without repetitions: the program counter and the time
/// at the end of the cycle, and for every query what it writes, whatever its type, unless it writes
/// what it reads.
pub proof fn outputs_are_what_comes_out(
    outputs: Seq<ExtractedVariable>,
    cs: OpcodeFamilyCircuitState,
    queries: Seq<ShuffleRamMemQuery>,
    legacy: bool,
)
    requires
        extract::is_sorted_form(outputs, extract::output_list(cs, queries, legacy)),
    ensures
        forall|x: ExtractedVariable| #[trigger]
            outputs.contains(x) <==> is_output(cs, queries, legacy, x),
        forall|i: int, j: int|
            0 <= i < j < outputs.len() ==> extract::precedes(outputs[i], outputs[j]),
{
    let pc = extract::register_of(cs.cycle_end_state.pc@);
    let time = extract::register_of(cs.cycle_end_state.timestamp@);
    assert forall|x: ExtractedVariable| #[trigger]
        outputs.contains(x) <==> is_output(cs, queries, legacy, x) by {
        assert(seq![pc, time][0] == pc && seq![pc, time][1] == time);
        lemma_queries_outputs(queries, legacy, x);
        lemma_appended(
            extract::state_output_list(cs),
            extract::queries_outputs(queries, legacy),
            x,
        );
    }
}

/// Registers come before scalars, registers by their low and then by their high limb, and scalars
/// by their number.
pub proof fn extracted_variables_are_ordered(
    low: Variable,
    high: Variable,
    other_low: Variable,
    other_high: Variable,
    v: Variable,
    u: Variable,
)
    ensures
        ({
            let a = ExtractedVariable::Register { low, high };
            let b = ExtractedVariable::Register { low: other_low, high: other_high };
            let x = ExtractedVariable::Scalar(v);
            let y = ExtractedVariable::Scalar(u);
            &&& extract::precedes(a, x) && !extract::precedes(x, a)
            &&& extract::precedes(a, b) <==> low.0 < other_low.0 || (low == other_low && high.0
                < other_high.0)
            &&& extract::precedes(x, y) <==> v.0 < u.0
        }),
{
}

/// A list with an extracted variable in its place.
spec fn inserted(r: Seq<ExtractedVariable>, x: ExtractedVariable) -> Seq<ExtractedVariable>
    decreases r.len(),
{
    if r.len() == 0 {
        seq![x]
    } else if r.last() == x {
        r
    } else if extract::precedes(r.last(), x) {
        r.push(x)
    } else {
        inserted(r.drop_last(), x).push(r.last())
    }
}

proof fn lemma_inserted(r: Seq<ExtractedVariable>, x: ExtractedVariable, y: ExtractedVariable)
    requires
        extract::strictly_sorted(r),
    ensures
        extract::strictly_sorted(inserted(r, x)),
        inserted(r, x).contains(y) <==> r.contains(y) || y == x,
    decreases r.len(),
{
    let s = inserted(r, x);
    if r.len() == 0 {
        lemma_single(x, y);
    } else if r.last() == x {
        assert(r[r.len() - 1] == x);
    } else if extract::precedes(r.last(), x) {
        assert(s[r.len() as int] == x);
        assert forall|i: int, j: int| 0 <= i < j < s.len() implies extract::precedes(
            s[i],
            s[j],
        ) by {
            if j == r.len() && i < r.len() - 1 {
                assert(extract::precedes(r[i], r[r.len() - 1]));
            }
        }
        assert(s =~= r + seq![x]);
        lemma_appended(r, seq![x], y);
        lemma_single(x, y);
    } else {
        let front = r.drop_last();
        let last = r.last();
        let t = inserted(front, x);
        assert(extract::strictly_sorted(front)) by {
            assert forall|i: int, j: int| 0 <= i < j < front.len() implies extract::precedes(
                front[i],
                front[j],
            ) by {
                assert(extract::precedes(r[i], r[j]));
            }
        }
        lemma_inserted(front, x, y);
        assert forall|i: int, j: int| 0 <= i < j < s.len() implies extract::precedes(
            s[i],
            s[j],
        ) by {
            if j == t.len() {
                lemma_inserted(front, x, t[i]);
                assert(t.contains(t[i]));
                if t[i] != x {
                    let m = choose|m: int| 0 <= m < front.len() && front[m] == t[i];
                    assert(extract::precedes(r[m], r[r.len() - 1]));
                }
            } else {
                assert(extract::precedes(t[i], t[j]));
            }
        }
        assert(s =~= t + seq![last]);
        lemma_appended(t, seq![last], y);
        lemma_single(last, y);
        assert(r =~= front + seq![last]);
        lemma_appended(front, seq![last], y);
    }
}

/// Every list has a sorted form.
pub proof fn sorted_forms_exist(s: Seq<ExtractedVariable>) -> (r: Seq<ExtractedVariable>)
    ensures
        extract::is_sorted_form(r, s),
    decreases s.len(),
{
    if s.len() == 0 {
        s
    } else {
        let front = sorted_forms_exist(s.drop_last());
        let r = inserted(front, s.last());
        assert forall|x: ExtractedVariable| r.contains(x) <==> s.contains(x) by {
            lemma_inserted(front, s.last(), x);
            assert(s =~= s.drop_last() + seq![s.last()]);
            lemma_appended(s.drop_last(), seq![s.last()], x);
            lemma_single(s.last(), x);
        }
        lemma_inserted(front, s.last(), s.last());
        r
    }
}

pub(crate) proof fn lemma_sorted(co: CircuitOutput, legacy: bool)
    ensures
        extract::is_sorted_form(
            codegen::inputs_of(co, legacy),
            extract::input_list(co.executor_machine_state->0, co.shuffle_ram_queries@, legacy),
        ),
        extract::is_sorted_form(
            codegen::outputs_of(co, legacy),
            extract::output_list(co.executor_machine_state->0, co.shuffle_ram_queries@, legacy),
        ),
{
    let a = sorted_forms_exist(
        extract::input_list(co.executor_machine_state->0, co.shuffle_ram_queries@, legacy),
    );
    let b = sorted_forms_exist(
        extract::output_list(co.executor_machine_state->0, co.shuffle_ram_queries@, legacy),
    );
}

/// The name of the member for an extracted variable that comes out.
pub open spec fn output_name(x: ExtractedVariable) -> Seq<char> {
    match x {
        ExtractedVariable::Register { low, high } => "out_reg_"@ + text::decimal(low.0 as nat)
            + "_"@ + text::decimal(high.0 as nat),
        ExtractedVariable::Scalar(v) => "out_var_"@ + text::decimal(v.0 as nat),
    }
}

/// Whether a struct has a member.
pub open spec fn has_member(
    s: StructDef,
    name: Seq<char>,
    ty: ValueType,
    is_public: bool,
) -> bool {
    exists|i: int|
        0 <= i < s.members@.len() && (#[trigger] s.members@[i]).name@ == name && s.members@[i].ty
            == ty && s.members@[i].is_public == is_public
}

proof fn lemma_member(s: StructDef, m: (Seq<char>, ValueType, bool))
    ensures
        vars::member_views(s.members@).contains(m) <==> has_member(s, m.0, m.1, m.2),
{
    let views = vars::member_views(s.members@);
    if views.contains(m) {
        let i = choose|i: int| 0 <= i < views.len() && views[i] == m;
        assert(s.members@[i].name@ == m.0);
    }
    if has_member(s, m.0, m.1, m.2) {
        let i = choose|i: int|
            0 <= i < s.members@.len() && (#[trigger] s.members@[i]).name@ == m.0 && s.members@[i].ty
                == m.1 && s.members@[i].is_public == m.2;
        assert(views[i] == m);
    }
}

/// The struct that a circuit is emitted as has a public member for just what comes out of the
/// circuit: a register for two limbs.
pub proof fn structs_expose_what_comes_out(
    s: StructDef,
    name: Seq<char>,
    layout: LlzkStructLayout,
    co: CircuitOutput,
    compute_effects: Seq<Effect>,
    x: ExtractedVariable,
)
    requires
        codegen::is_emitted(s, name, layout, co, compute_effects),
        co.executor_machine_state is Some,
    ensures
        has_member(
            s,
            output_name(x),
            if x is Register {
                ValueType::Register
            } else {
                ValueType::Felt
            },
            true,
        ) <==> is_output(
            co.executor_machine_state->0,
            co.shuffle_ram_queries@,
            name == "unified_reduced_machine"@,
            x,
        ),
{
    let legacy = extract::legacy_circuit(name);
    let cs = co.executor_machine_state->0;
    let outputs = codegen::outputs_of(co, legacy);
    let rest = codegen::intermediates_of(co, legacy);
    let views = vars::member_views(s.members@);
    let outs = vars::member_defs(outputs, true);
    let ins = vars::member_defs(rest, false);
    let m = (vars::member_name(x, true), vars::slot_type(x), true);
    lemma_sorted(co, legacy);
    outputs_are_what_comes_out(outputs, cs, co.shuffle_ram_queries@, legacy);
    lemma_member(s, m);
    assert(m.0 =~= output_name(x));
    assert(views == outs + ins);
    if outputs.contains(x) {
        let i = choose|i: int| 0 <= i < outputs.len() && outputs[i] == x;
        assert(views[i] == m);
    }
    if views.contains(m) {
        let i = choose|i: int| 0 <= i < views.len() && views[i] == m;
        if i < outs.len() {
            assert(views[i] == outs[i]);
            vars::member_names_differ(outputs[i], true, x, true);
            assert(outputs.contains(outputs[i]));
        } else {
            assert(views[i] == ins[i - outs.len()]);
        }
    }
}

/// The struct that a circuit is emitted as has an internal member for each variable that neither
/// comes into the circuit nor out of it.
pub proof fn structs_keep_the_other_variables(
    s: StructDef,
    name: Seq<char>,
    layout: LlzkStructLayout,
    co: CircuitOutput,
    compute_effects: Seq<Effect>,
    v: Variable,
)
    requires
        codegen::is_emitted(s, name, layout, co, compute_effects),
        co.executor_machine_state is Some,
        v.0 < co.num_of_variables <= 0x1_0000_0000_0000_0000,
        forall|x: ExtractedVariable|
            is_input(
                co.executor_machine_state->0,
                co.shuffle_ram_queries@,
                name == "unified_reduced_machine"@,
                x,
            ) ==> !#[trigger] extract::holds(x, v),
        forall|x: ExtractedVariable|
            is_output(
                co.executor_machine_state->0,
                co.shuffle_ram_queries@,
                name == "unified_reduced_machine"@,
                x,
            ) ==> !#[trigger] extract::holds(x, v),
    ensures
        has_member(s, "internal_var_"@ + text::decimal(v.0 as nat), ValueType::Felt, false),
{
    let legacy = extract::legacy_circuit(name);
    let cs = co.executor_machine_state->0;
    let queries = co.shuffle_ram_queries@;
    let inputs = extract::input_list(cs, queries, legacy);
    let outputs = extract::output_list(cs, queries, legacy);
    let rest = codegen::intermediates_of(co, legacy);
    lemma_sorted(co, legacy);
    let sorted_in = codegen::inputs_of(co, legacy);
    let sorted_out = codegen::outputs_of(co, legacy);
    inputs_are_what_comes_in(sorted_in, cs, queries, legacy);
    outputs_are_what_comes_out(sorted_out, cs, queries, legacy);
    assert(!extract::some_holds(inputs, v)) by {
        assert forall|i: int| 0 <= i < inputs.len() implies !extract::holds(
            #[trigger] inputs[i],
            v,
        ) by {
            assert(inputs.contains(inputs[i]));
            assert(sorted_in.contains(inputs[i]));
        }
    }
    assert(!extract::some_holds(outputs, v)) by {
        assert forall|i: int| 0 <= i < outputs.len() implies !extract::holds(
            #[trigger] outputs[i],
            v,
        ) by {
            assert(outputs.contains(outputs[i]));
            assert(sorted_out.contains(outputs[i]));
        }
    }
    extract::every_variable_has_its_place(cs, queries, legacy, co.num_of_variables as nat, v);
    let i = choose|i: int| 0 <= i < rest.len() && extract::holds(#[trigger] rest[i], v);
    lemma_intermediates_are_scalars(inputs, outputs, queries, co.num_of_variables as nat, i);
    let views = vars::member_views(s.members@);
    let outs = vars::member_defs(sorted_out, true);
    let m = ("internal_var_"@ + text::decimal(v.0 as nat), ValueType::Felt, false);
    assert(views[outs.len() + i] == vars::member_defs(rest, false)[i]);
    assert(views[outs.len() + i].0 =~= m.0);
    assert(views.contains(m));
    lemma_member(s, m);
}

proof fn lemma_intermediates_are_scalars(
    inputs: Seq<ExtractedVariable>,
    outputs: Seq<ExtractedVariable>,
    queries: Seq<ShuffleRamMemQuery>,
    n: nat,
    i: int,
)
    requires
        0 <= i < extract::intermediate_list(inputs, outputs, queries, n).len(),
    ensures
        extract::intermediate_list(inputs, outputs, queries, n)[i] is Scalar,
    decreases n,
{
    if n > 0 {
        let head = extract::intermediate_list(inputs, outputs, queries, (n - 1) as nat);
        if i < head.len() {
            lemma_intermediates_are_scalars(inputs, outputs, queries, (n - 1) as nat, i);
        }
    }
}

/// The compute function of an emitted struct takes what comes into the circuit, in order, a register
/// for two limbs, and the constrain function takes the struct before it.
pub proof fn structs_take_what_comes_in(
    s: StructDef,
    name: Seq<char>,
    layout: LlzkStructLayout,
    co: CircuitOutput,
    compute_effects: Seq<Effect>,
) -> (inputs: Seq<ExtractedVariable>)
    requires
        codegen::is_emitted(s, name, layout, co, compute_effects),
        co.executor_machine_state is Some,
    ensures
        forall|x: ExtractedVariable| #[trigger]
            inputs.contains(x) <==> is_input(
                co.executor_machine_state->0,
                co.shuffle_ram_queries@,
                name == "unified_reduced_machine"@,
                x,
            ),
        forall|i: int, j: int|
            0 <= i < j < inputs.len() ==> extract::precedes(inputs[i], inputs[j]),
        s.compute.arguments@.len() == inputs.len(),
        s.constrain.arguments@.len() == inputs.len() + 1,
        s.constrain.arguments@[0] == ValueType::Struct,
        forall|i: int|
            0 <= i < inputs.len() ==> {
                &&& s.compute.arguments@[i] == if #[trigger] inputs[i] is Register {
                    ValueType::Register
                } else {
                    ValueType::Felt
                }
                &&& s.constrain.arguments@[i + 1] == s.compute.arguments@[i]
            },
{
    let legacy = extract::legacy_circuit(name);
    let inputs = codegen::inputs_of(co, legacy);
    lemma_sorted(co, legacy);
    inputs_are_what_comes_in(
        inputs,
        co.executor_machine_state->0,
        co.shuffle_ram_queries@,
        legacy,
    );
    inputs
}

/// The limb of an extracted variable at which a variable stands: the low limb of a register first.
pub open spec fn position(x: ExtractedVariable, v: Variable) -> Option<u64> {
    match x {
        ExtractedVariable::Register { low, high } => if v == high {
            Some(1)
        } else {
            Some(0)
        },
        ExtractedVariable::Scalar(_) => None,
    }
}

/// A variable that one input holds is read from the argument of that input, at its limb; one that
/// no input holds is no argument.
pub proof fn arguments_carry_their_inputs(inputs: Seq<ExtractedVariable>, i: int, v: Variable)
    requires
        inputs.len() <= usize::MAX,
    ensures
        vars::arg_slots(inputs).contains_key(v.0) <==> extract::some_holds(inputs, v),
        0 <= i < inputs.len() && extract::holds(inputs[i], v) && (forall|j: int|
            0 <= j < inputs.len() && j != i ==> !extract::holds(#[trigger] inputs[j], v))
            ==> vars::arg_slots(inputs)[v.0] == (ArgSlot {
            arg: i as usize,
            limb: position(inputs[i], v),
        }),
    decreases inputs.len(),
{
    if inputs.len() > 0 {
        let front = inputs.drop_last();
        let n = inputs.len() - 1;
        arguments_carry_their_inputs(front, i, v);
        if extract::some_holds(front, v) {
            let j = choose|j: int| 0 <= j < front.len() && extract::holds(#[trigger] front[j], v);
            assert(extract::holds(inputs[j], v));
        }
        if extract::some_holds(inputs, v) && !extract::some_holds(front, v) {
            let j = choose|j: int| 0 <= j < inputs.len() && extract::holds(
                #[trigger] inputs[j],
                v,
            );
            if j < n {
                assert(extract::holds(front[j], v));
            }
        }
        if extract::holds(inputs[n], v) {
            assert(extract::some_holds(inputs, v));
        }
        if 0 <= i < inputs.len() && extract::holds(inputs[i], v) && (forall|j: int|
            0 <= j < inputs.len() && j != i ==> !extract::holds(#[trigger] inputs[j], v)) {
            if i < n {
                assert(!extract::holds(inputs[n], v));
                assert(front[i] == inputs[i]);
                assert forall|j: int| 0 <= j < front.len() && j != i implies !extract::holds(
                    #[trigger] front[j],
                    v,
                ) by {
                    assert(!extract::holds(inputs[j], v));
                }
            }
        }
    }
}

/// A variable that one output or intermediate holds is kept in the member of that one, at its limb,
/// and one that none holds stays where it was.
pub proof fn members_carry_their_variables(
    base: Map<u64, (Seq<char>, Option<u64>)>,
    xs: Seq<ExtractedVariable>,
    is_output: bool,
    i: int,
    v: Variable,
)
    ensures
        vars::member_slots(base, xs, is_output).contains_key(v.0) <==> base.contains_key(v.0)
            || extract::some_holds(xs, v),
        !extract::some_holds(xs, v) && base.contains_key(v.0) ==> vars::member_slots(
            base,
            xs,
            is_output,
        )[v.0] == base[v.0],
        0 <= i < xs.len() && extract::holds(xs[i], v) && (forall|j: int|
            0 <= j < xs.len() && j != i ==> !extract::holds(#[trigger] xs[j], v))
            ==> vars::member_slots(base, xs, is_output)[v.0] == (
            vars::member_name(xs[i], is_output),
            position(xs[i], v),
        ),
    decreases xs.len(),
{
    if xs.len() > 0 {
        let front = xs.drop_last();
        let n = xs.len() - 1;
        members_carry_their_variables(base, front, is_output, i, v);
        if extract::some_holds(front, v) {
            let j = choose|j: int| 0 <= j < front.len() && extract::holds(#[trigger] front[j], v);
            assert(extract::holds(xs[j], v));
        }
        if extract::some_holds(xs, v) && !extract::some_holds(front, v) {
            let j = choose|j: int| 0 <= j < xs.len() && extract::holds(#[trigger] xs[j], v);
            if j < n {
                assert(extract::holds(front[j], v));
            }
        }
        if extract::holds(xs[n], v) {
            assert(extract::some_holds(xs, v));
        }
        if 0 <= i < xs.len() && extract::holds(xs[i], v) && (forall|j: int|
            0 <= j < xs.len() && j != i ==> !extract::holds(#[trigger] xs[j], v)) {
            if i < n {
                assert(!extract::holds(xs[n], v));
                assert(front[i] == xs[i]);
                assert forall|j: int| 0 <= j < front.len() && j != i implies !extract::holds(
                    #[trigger] front[j],
                    v,
                ) by {
                    assert(!extract::holds(xs[j], v));
                }
            }
        }
    }
}

/// A struct that only computes constrains nothing, and one that only constrains computes nothing and
/// needs no program; every other struct needs one, and no struct is emitted without a machine state.
pub proof fn layouts_leave_out_what_they_do_not_name(
    s: StructDef,
    name: Seq<char>,
    layout: LlzkStructLayout,
    co: CircuitOutput,
    w: Option<WitnessComputation>,
    es: Seq<Effect>,
)
    requires
        codegen::emission(name, layout, co, w) == Ok::<Seq<Effect>, LlzkError>(es),
        codegen::is_emitted(s, name, layout, co, es),
    ensures
        co.executor_machine_state is Some,
        s.name@ == name,
        layout == LlzkStructLayout::ComputeOnly ==> ir::meaning(s.constrain.ops@).1.len() == 0,
        layout == LlzkStructLayout::ConstrainOnly ==> ir::meaning(s.compute.ops@).1.len() == 0,
        layout != LlzkStructLayout::ConstrainOnly ==> w is Some && Ok::<Seq<Effect>, LlzkError>(
            ir::meaning(s.compute.ops@).1,
        ) == codegen::witness_effects(w->0, co, extract::legacy_circuit(name)),
        layout != LlzkStructLayout::ComputeOnly ==> Ok::<Seq<Effect>, LlzkError>(
            ir::meaning(s.constrain.ops@).1,
        ) == codegen::constrain_effects(
            co,
            codegen::constrain_scope(co, extract::legacy_circuit(name)),
        ),
{
}

/// What is missing is said: a machine state first, and then a program where one is needed.
pub proof fn missing_parts_are_reported(
    name: Seq<char>,
    layout: LlzkStructLayout,
    co: CircuitOutput,
    w: Option<WitnessComputation>,
)
    ensures
        co.executor_machine_state is None ==> codegen::emission(name, layout, co, w) == Err::<
            Seq<Effect>,
            LlzkError,
        >(LlzkError::MissingExecutorState),
        co.executor_machine_state is Some ==> codegen::emission(
            name,
            LlzkStructLayout::ComputeOnly,
            co,
            None,
        ) == Err::<Seq<Effect>, LlzkError>(LlzkError::MissingWitness),
{
}

} // verus!
