//! What the modules of a circuit ask about it.
use vstd::prelude::*;

use crate::circuit::Boolean;
use crate::circuit::CircuitOutput;
use crate::circuit::DisjunctiveLookup;
use crate::circuit::DisjunctiveLookupCase;
use crate::circuit::OpcodeFamilyCircuitState;
use crate::circuit::ShuffleRamMemQuery;
use crate::circuit::Variable;
use crate::picus::circuit_laws;
use crate::picus::ir;
use crate::picus::ir::PicusConstraint;
use crate::picus::ir::PicusExpr;
use crate::picus::ir::PicusModule;
use crate::picus::ir::PicusProgram;
use crate::picus::laws;
use crate::picus::lookups;
use crate::picus::translate;

verus! {

/// Whether a variable is a limb of a value.
pub open spec fn is_limb(value: [Variable; 2], v: Variable) -> bool {
    v == value[0] || v == value[1]
}

/// Whether a variable is handed to the circuit: it is a limb of a value that a query reads, or
/// belongs to the decoded instruction, the time or the program counter at the start of the cycle.
pub open spec fn is_given(
    co: CircuitOutput,
    state: Option<OpcodeFamilyCircuitState>,
    v: Variable,
) -> bool {
    ||| exists|i: int|
        0 <= i < co.shuffle_ram_queries@.len() && is_limb(
            (#[trigger] co.shuffle_ram_queries@[i]).read_value,
            v,
        )
    ||| state matches Some(cs) && {
        ||| v == cs.decoder_data.rs1_index
        ||| v == cs.decoder_data.rs2_index
        ||| v == cs.decoder_data.rd_index
        ||| v == cs.decoder_data.rd_is_zero
        ||| v == cs.decoder_data.funct3
        ||| cs.decoder_data.funct7 == Some(v)
        ||| is_limb(cs.decoder_data.imm, v)
        ||| is_limb(cs.cycle_start_state.pc, v)
        ||| is_limb(cs.cycle_start_state.timestamp, v)
    }
}

/// Whether a variable is what the circuit comes to: it is a limb of a value that is written after
/// both source registers were loaded, or of the program counter at the end of the cycle.
pub open spec fn is_result(
    co: CircuitOutput,
    state: Option<OpcodeFamilyCircuitState>,
    v: Variable,
) -> bool {
    ||| exists|i: int|
        0 <= i < co.shuffle_ram_queries@.len() && (
        #[trigger] co.shuffle_ram_queries@[i]).local_timestamp_in_cycle >= 2 && is_limb(
            co.shuffle_ram_queries@[i].write_value,
            v,
        )
    ||| state matches Some(cs) && is_limb(cs.cycle_end_state.pc, v)
}

proof fn lemma_reads(queries: Seq<ShuffleRamMemQuery>, v: Variable)
    ensures
        translate::read_variables(queries).contains(v) <==> exists|i: int|
            0 <= i < queries.len() && is_limb((#[trigger] queries[i]).read_value, v),
    decreases queries.len(),
{
    let all = translate::read_variables(queries);
    if queries.len() > 0 {
        let front = queries.drop_last();
        let head = translate::read_variables(front);
        let tail = queries.last().read_value@;
        lemma_reads(front, v);
        assert(all == head + tail);
        assert(queries.last() == queries[queries.len() - 1]);
        if head.contains(v) {
            let i = choose|i: int|
                0 <= i < front.len() && is_limb((#[trigger] front[i]).read_value, v);
            assert(is_limb(queries[i].read_value, v));
            let j = choose|j: int| 0 <= j < head.len() && head[j] == v;
            assert(all[j] == v);
        }
        assert(all[head.len() as int] == tail[0]);
        assert(all[head.len() as int + 1] == tail[1]);
        if all.contains(v) && !head.contains(v) {
            let j = choose|j: int| 0 <= j < all.len() && all[j] == v;
            if j < head.len() {
                assert(head[j] == v);
            }
            assert(is_limb(queries[queries.len() - 1].read_value, v));
        }
        if exists|i: int| 0 <= i < queries.len() && is_limb((#[trigger] queries[i]).read_value, v) {
            let i = choose|i: int|
                0 <= i < queries.len() && is_limb((#[trigger] queries[i]).read_value, v);
            if i < front.len() {
                assert(is_limb(front[i].read_value, v));
            }
        }
    }
}

proof fn lemma_writes(queries: Seq<ShuffleRamMemQuery>, v: Variable)
    ensures
        translate::written_variables(queries).contains(v) <==> exists|i: int|
            0 <= i < queries.len() && (#[trigger] queries[i]).local_timestamp_in_cycle >= 2
                && is_limb(queries[i].write_value, v),
    decreases queries.len(),
{
    let all = translate::written_variables(queries);
    if queries.len() > 0 {
        let front = queries.drop_last();
        let last = queries[queries.len() - 1];
        let head = translate::written_variables(front);
        let tail = last.write_value@;
        lemma_writes(front, v);
        let writes = last.local_timestamp_in_cycle >= 2;
        assert(all == if writes {
            head + tail
        } else {
            head
        });
        if head.contains(v) {
            let i = choose|i: int|
                0 <= i < front.len() && (#[trigger] front[i]).local_timestamp_in_cycle >= 2
                    && is_limb(front[i].write_value, v);
            assert(queries[i].local_timestamp_in_cycle >= 2 && is_limb(queries[i].write_value, v));
            let j = choose|j: int| 0 <= j < head.len() && head[j] == v;
            assert(all[j] == v);
        }
        if writes {
            assert(all[head.len() as int] == tail[0]);
            assert(all[head.len() as int + 1] == tail[1]);
        }
        if all.contains(v) && !head.contains(v) {
            let j = choose|j: int| 0 <= j < all.len() && all[j] == v;
            if j < head.len() {
                assert(head[j] == v);
            }
            assert(queries[queries.len() - 1].local_timestamp_in_cycle >= 2 && is_limb(
                queries[queries.len() - 1].write_value,
                v,
            ));
        }
        if exists|i: int|
            0 <= i < queries.len() && (#[trigger] queries[i]).local_timestamp_in_cycle >= 2
                && is_limb(queries[i].write_value, v) {
            let i = choose|i: int|
                0 <= i < queries.len() && (#[trigger] queries[i]).local_timestamp_in_cycle >= 2
                    && is_limb(queries[i].write_value, v);
            if i < front.len() {
                assert(front[i].local_timestamp_in_cycle >= 2 && is_limb(front[i].write_value, v));
            }
        }
    }
}

proof fn lemma_exprs(vs: Seq<Variable>, e: PicusExpr)
    ensures
        translate::var_exprs(vs).contains(e) <==> exists|v: Variable| #[trigger]
            vs.contains(v) && e == PicusExpr::Var(v.0 as usize),
{
    let es = translate::var_exprs(vs);
    if es.contains(e) {
        let i = choose|i: int| 0 <= i < es.len() && es[i] == e;
        assert(vs.contains(vs[i]));
    }
    if exists|v: Variable| #[trigger] vs.contains(v) && e == PicusExpr::Var(v.0 as usize) {
        let v = choose|v: Variable| #[trigger]
            vs.contains(v) && e == PicusExpr::Var(v.0 as usize);
        let i = choose|i: int| 0 <= i < vs.len() && vs[i] == v;
        assert(es[i] == e);
    }
}

proof fn lemma_appended(a: Seq<PicusExpr>, b: Seq<PicusExpr>, e: PicusExpr)
    ensures
        (a + b).contains(e) <==> a.contains(e) || b.contains(e),
{
    let s = a + b;
    if a.contains(e) {
        let i = choose|i: int| 0 <= i < a.len() && a[i] == e;
        assert(s[i] == e);
    }
    if b.contains(e) {
        let i = choose|i: int| 0 <= i < b.len() && b[i] == e;
        assert(s[a.len() + i] == e);
    }
    if s.contains(e) {
        let i = choose|i: int| 0 <= i < s.len() && s[i] == e;
        if i < a.len() {
            assert(a[i] == e);
        } else {
            assert(b[i - a.len()] == e);
        }
    }
}

proof fn lemma_state_inputs(cs: OpcodeFamilyCircuitState, v: Variable)
    ensures
        translate::state_inputs(cs).contains(v) <==> {
            ||| v == cs.decoder_data.rs1_index
            ||| v == cs.decoder_data.rs2_index
            ||| v == cs.decoder_data.rd_index
            ||| v == cs.decoder_data.rd_is_zero
            ||| v == cs.decoder_data.funct3
            ||| cs.decoder_data.funct7 == Some(v)
            ||| is_limb(cs.decoder_data.imm, v)
            ||| is_limb(cs.cycle_start_state.pc, v)
            ||| is_limb(cs.cycle_start_state.timestamp, v)
        },
{
    let s = translate::state_inputs(cs);
    let d = cs.decoder_data;
    let at: int = match d.funct7 {
        Some(f) => {
            assert(s[7] == f);
            8
        },
        None => 7,
    };
    assert(s.len() == at + 4);
    assert(s[0] == d.rd_is_zero && s[1] == d.imm[0] && s[2] == d.imm[1] && s[3] == d.funct3);
    assert(s[4] == d.rs1_index && s[5] == d.rs2_index && s[6] == d.rd_index);
    assert(s[at] == cs.cycle_start_state.timestamp[0]);
    assert(s[at + 1] == cs.cycle_start_state.timestamp[1]);
    assert(s[at + 2] == cs.cycle_start_state.pc[0]);
    assert(s[at + 3] == cs.cycle_start_state.pc[1]);
    if s.contains(v) {
        let i = choose|i: int| 0 <= i < s.len() && s[i] == v;
    }
}

proof fn lemma_state_outputs(cs: OpcodeFamilyCircuitState, v: Variable)
    ensures
        translate::state_outputs(cs).contains(v) <==> is_limb(cs.cycle_end_state.pc, v),
{
    let s = translate::state_outputs(cs);
    assert(s.len() == 2);
    assert(s[0] == cs.cycle_end_state.pc[0]);
    assert(s[1] == cs.cycle_end_state.pc[1]);
}

/// The inputs of the module of a circuit are the variables that the circuit is handed.
pub proof fn modules_take_what_the_circuit_is_given(
    co: CircuitOutput,
    state: Option<OpcodeFamilyCircuitState>,
    e: PicusExpr,
)
    ensures
        translate::circuit_inputs(co, state).contains(e) <==> exists|v: Variable| #[trigger]
            is_given(co, state, v) && e == PicusExpr::Var(v.0 as usize),
{
    let queries = co.shuffle_ram_queries@;
    let reads = translate::read_variables(queries);
    let rest = match state {
        Some(cs) => translate::state_inputs(cs),
        None => Seq::empty(),
    };
    lemma_appended(translate::var_exprs(reads), translate::var_exprs(rest), e);
    assert(translate::var_exprs(Seq::<Variable>::empty()) =~= Seq::<PicusExpr>::empty());
    lemma_exprs(reads, e);
    lemma_exprs(rest, e);
    assert forall|v: Variable| #[trigger] is_given(co, state, v) <==> reads.contains(v)
        || rest.contains(v) by {
        lemma_reads(queries, v);
        if let Some(cs) = state {
            lemma_state_inputs(cs, v);
        }
    }
    if translate::circuit_inputs(co, state).contains(e) {
        let v = if translate::var_exprs(reads).contains(e) {
            choose|v: Variable| #[trigger] reads.contains(v) && e == PicusExpr::Var(v.0 as usize)
        } else {
            choose|v: Variable| #[trigger] rest.contains(v) && e == PicusExpr::Var(v.0 as usize)
        };
        assert(is_given(co, state, v));
    }
}

/// The outputs of the module of a circuit are what the circuit comes to, the limbs of the next
/// program counter last.
pub proof fn modules_ask_for_what_the_circuit_comes_to(
    co: CircuitOutput,
    state: Option<OpcodeFamilyCircuitState>,
    e: PicusExpr,
)
    ensures
        translate::circuit_outputs(co, state).contains(e) <==> exists|v: Variable| #[trigger]
            is_result(co, state, v) && e == PicusExpr::Var(v.0 as usize),
        state matches Some(cs) ==> {
            let outputs = translate::circuit_outputs(co, state);
            &&& outputs.len() >= 2
            &&& outputs[outputs.len() - 2] == PicusExpr::Var(cs.cycle_end_state.pc[0].0 as usize)
            &&& outputs[outputs.len() - 1] == PicusExpr::Var(cs.cycle_end_state.pc[1].0 as usize)
        },
{
    let queries = co.shuffle_ram_queries@;
    let writes = translate::written_variables(queries);
    let rest = match state {
        Some(cs) => translate::state_outputs(cs),
        None => Seq::empty(),
    };
    lemma_appended(translate::var_exprs(writes), translate::var_exprs(rest), e);
    assert(translate::var_exprs(Seq::<Variable>::empty()) =~= Seq::<PicusExpr>::empty());
    lemma_exprs(writes, e);
    lemma_exprs(rest, e);
    assert forall|v: Variable| #[trigger] is_result(co, state, v) <==> writes.contains(v)
        || rest.contains(v) by {
        lemma_writes(queries, v);
        if let Some(cs) = state {
            lemma_state_outputs(cs, v);
        }
    }
    if translate::circuit_outputs(co, state).contains(e) {
        let v = if translate::var_exprs(writes).contains(e) {
            choose|v: Variable| #[trigger] writes.contains(v) && e == PicusExpr::Var(v.0 as usize)
        } else {
            choose|v: Variable| #[trigger] rest.contains(v) && e == PicusExpr::Var(v.0 as usize)
        };
        assert(is_result(co, state, v));
    }
}

/// Whether two assignments give the same values to expressions.
pub open spec fn same_values(
    es: Seq<PicusExpr>,
    rho: spec_fn(usize) -> int,
    other: spec_fn(usize) -> int,
) -> bool {
    forall|i: int| 0 <= i < es.len() ==> (#[trigger] es[i]).eval(rho) == es[i].eval(other)
}

/// Whether the inputs of a module determine its outputs: two assignments that satisfy the
/// constraints by some choice of the auxiliary variables, and agree on the inputs, agree on the
/// outputs.
pub open spec fn module_is_deterministic(
    inputs: Seq<PicusExpr>,
    outputs: Seq<PicusExpr>,
    cs: Seq<PicusConstraint>,
    n: int,
) -> bool {
    forall|rho: spec_fn(usize) -> int, other: spec_fn(usize) -> int| #[trigger]
        laws::satisfiable(cs, n, rho, other) && laws::satisfiable(cs, n, other, rho) && same_values(
            inputs,
            rho,
            other,
        ) ==> same_values(outputs, rho, other)
}

/// Whether what a circuit is given determines what it comes to: two assignments of the circuit that
/// agree on the former agree on the latter.
pub open spec fn circuit_is_deterministic(
    co: CircuitOutput,
    state: Option<OpcodeFamilyCircuitState>,
) -> bool {
    forall|rho: spec_fn(usize) -> int, other: spec_fn(usize) -> int| #[trigger]
        circuit_laws::circuit_holds(co, state, rho, other) && circuit_laws::circuit_holds(
            co,
            state,
            other,
            rho,
        ) && (forall|v: Variable| #[trigger]
            is_given(co, state, v) ==> circuit_laws::value_of(v, rho) == circuit_laws::value_of(
                v,
                other,
            )) ==> (forall|v: Variable| #[trigger]
            is_result(co, state, v) ==> circuit_laws::value_of(v, rho) == circuit_laws::value_of(
                v,
                other,
            ))
}

proof fn lemma_given(
    co: CircuitOutput,
    state: Option<OpcodeFamilyCircuitState>,
    rho: spec_fn(usize) -> int,
    other: spec_fn(usize) -> int,
)
    ensures
        same_values(translate::circuit_inputs(co, state), rho, other) <==> (forall|v: Variable|
         #[trigger]
            is_given(co, state, v) ==> circuit_laws::value_of(v, rho) == circuit_laws::value_of(
                v,
                other,
            )),
{
    let es = translate::circuit_inputs(co, state);
    if same_values(es, rho, other) {
        assert forall|v: Variable| #[trigger]
            is_given(co, state, v) implies circuit_laws::value_of(v, rho)
            == circuit_laws::value_of(v, other) by {
            let e = PicusExpr::Var(v.0 as usize);
            modules_take_what_the_circuit_is_given(co, state, e);
            let i = choose|i: int| 0 <= i < es.len() && es[i] == e;
            assert(es[i].eval(rho) == es[i].eval(other));
            laws::leaves_have_their_residues(0, v.0 as usize, rho);
            laws::leaves_have_their_residues(0, v.0 as usize, other);
        }
    }
    if forall|v: Variable| #[trigger]
        is_given(co, state, v) ==> circuit_laws::value_of(v, rho) == circuit_laws::value_of(
            v,
            other,
        ) {
        assert forall|i: int| 0 <= i < es.len() implies (#[trigger] es[i]).eval(rho)
            == es[i].eval(other) by {
            modules_take_what_the_circuit_is_given(co, state, es[i]);
            assert(es.contains(es[i]));
            let v = choose|v: Variable| #[trigger]
                is_given(co, state, v) && es[i] == PicusExpr::Var(v.0 as usize);
            laws::leaves_have_their_residues(0, v.0 as usize, rho);
            laws::leaves_have_their_residues(0, v.0 as usize, other);
        }
    }
}

proof fn lemma_results(
    co: CircuitOutput,
    state: Option<OpcodeFamilyCircuitState>,
    rho: spec_fn(usize) -> int,
    other: spec_fn(usize) -> int,
)
    ensures
        same_values(translate::circuit_outputs(co, state), rho, other) <==> (forall|v: Variable|
         #[trigger]
            is_result(co, state, v) ==> circuit_laws::value_of(v, rho) == circuit_laws::value_of(
                v,
                other,
            )),
{
    let es = translate::circuit_outputs(co, state);
    if same_values(es, rho, other) {
        assert forall|v: Variable| #[trigger]
            is_result(co, state, v) implies circuit_laws::value_of(v, rho)
            == circuit_laws::value_of(v, other) by {
            let e = PicusExpr::Var(v.0 as usize);
            modules_ask_for_what_the_circuit_comes_to(co, state, e);
            let i = choose|i: int| 0 <= i < es.len() && es[i] == e;
            assert(es[i].eval(rho) == es[i].eval(other));
            laws::leaves_have_their_residues(0, v.0 as usize, rho);
            laws::leaves_have_their_residues(0, v.0 as usize, other);
        }
    }
    if forall|v: Variable| #[trigger]
        is_result(co, state, v) ==> circuit_laws::value_of(v, rho) == circuit_laws::value_of(
            v,
            other,
        ) {
        assert forall|i: int| 0 <= i < es.len() implies (#[trigger] es[i]).eval(rho)
            == es[i].eval(other) by {
            modules_ask_for_what_the_circuit_comes_to(co, state, es[i]);
            assert(es.contains(es[i]));
            let v = choose|v: Variable| #[trigger]
                is_result(co, state, v) && es[i] == PicusExpr::Var(v.0 as usize);
            laws::leaves_have_their_residues(0, v.0 as usize, rho);
            laws::leaves_have_their_residues(0, v.0 as usize, other);
        }
    }
}

/// The module of a circuit is deterministic exactly where the circuit is: what it reads and is
/// handed at the start of the cycle determines what it writes and the next program counter.
pub proof fn modules_are_deterministic_where_their_circuits_are(
    co: CircuitOutput,
    state: Option<OpcodeFamilyCircuitState>,
)
    requires
        circuit_laws::is_closed(co, state),
        co.num_of_variables + translate::circuit_fresh(co) <= usize::MAX,
    ensures
        module_is_deterministic(
            translate::circuit_inputs(co, state),
            translate::circuit_outputs(co, state),
            translate::circuit_constraints(co, state),
            co.num_of_variables as int,
        ) <==> circuit_is_deterministic(co, state),
{
    let n = co.num_of_variables as int;
    let cs = translate::circuit_constraints(co, state);
    let inputs = translate::circuit_inputs(co, state);
    let outputs = translate::circuit_outputs(co, state);
    if module_is_deterministic(inputs, outputs, cs, n) {
        assert forall|rho: spec_fn(usize) -> int, other: spec_fn(usize) -> int|
            #[trigger] circuit_laws::circuit_holds(co, state, rho, other)
                && circuit_laws::circuit_holds(co, state, other, rho) && (forall|v: Variable|
             #[trigger]
                is_given(co, state, v) ==> circuit_laws::value_of(v, rho) == circuit_laws::value_of(
                    v,
                    other,
                )) implies (forall|v: Variable| #[trigger]
            is_result(co, state, v) ==> circuit_laws::value_of(v, rho) == circuit_laws::value_of(
                v,
                other,
            )) by {
            circuit_laws::modules_describe_their_circuits(co, state, rho, other);
            circuit_laws::modules_describe_their_circuits(co, state, other, rho);
            lemma_given(co, state, rho, other);
            lemma_results(co, state, rho, other);
            assert(laws::satisfiable(cs, n, rho, other));
        }
    }
    if circuit_is_deterministic(co, state) {
        assert forall|rho: spec_fn(usize) -> int, other: spec_fn(usize) -> int|
            #[trigger] laws::satisfiable(cs, n, rho, other) && laws::satisfiable(cs, n, other, rho)
                && same_values(inputs, rho, other) implies same_values(outputs, rho, other) by {
            circuit_laws::modules_describe_their_circuits(co, state, rho, other);
            circuit_laws::modules_describe_their_circuits(co, state, other, rho);
            lemma_given(co, state, rho, other);
            lemma_results(co, state, rho, other);
            assert(circuit_laws::circuit_holds(co, state, rho, other));
        }
    }
}

/// With several decoded bits there is one module for each, in which that bit is one and the others
/// are zero. With a single bit there is one module for each of its values, and without bits none.
pub proof fn modules_fix_the_decoded_bits(bits: Seq<usize>, i: int, j: int)
    requires
        0 <= j < bits.len(),
        forall|a: int, b: int| 0 <= a < b < bits.len() ==> bits[a] != bits[b],
    ensures
        translate::specializations(Seq::<usize>::empty()).len() == 0,
        bits.len() == 1 ==> translate::specializations(bits).len() == 2 && (0 <= i < 2
            ==> ir::bound_value(translate::specializations(bits)[i], bits[0]) == Some(i as u64)),
        bits.len() >= 2 ==> translate::specializations(bits).len() == bits.len() && (0 <= i
            < bits.len() ==> ir::bound_value(translate::specializations(bits)[i], bits[j]) == Some(
            if i == j {
                1u64
            } else {
                0u64
            },
        )),
{
    reveal_with_fuel(ir::bound_value, 2);
    if bits.len() >= 2 && 0 <= i < bits.len() {
        laws::one_hot_bindings_set_one_bit(bits, i, j);
    }
}

/// Whether an assignment is another one with the decoded bits set to a position: the bit there is
/// one, and the others are zero.
pub open spec fn decodes(
    fixed: spec_fn(usize) -> int,
    rho: spec_fn(usize) -> int,
    bits: Seq<usize>,
    i: int,
) -> bool {
    &&& forall|j: int|
        0 <= j < bits.len() ==> fixed(#[trigger] bits[j]) == if i == j {
            1int
        } else {
            0
        }
    &&& forall|v: usize| !bits.contains(v) ==> #[trigger] fixed(v) == rho(v)
}

proof fn lemma_unbound(env: Seq<(usize, u64)>, v: usize)
    requires
        forall|k: int| 0 <= k < env.len() ==> (#[trigger] env[k]).0 != v,
    ensures
        ir::bound_value(env, v) is None,
    decreases env.len(),
{
    if env.len() > 0 {
        assert(env[env.len() - 1].0 != v);
        assert forall|k: int| 0 <= k < env.drop_last().len() implies (
        #[trigger] env.drop_last()[k]).0 != v by {
            assert(env[k].0 != v);
        }
        lemma_unbound(env.drop_last(), v);
    }
}

proof fn lemma_decoded(
    fixed: spec_fn(usize) -> int,
    rho: spec_fn(usize) -> int,
    bits: Seq<usize>,
    i: int,
)
    requires
        bits.len() >= 2,
        0 <= i < bits.len(),
        forall|a: int, b: int| 0 <= a < b < bits.len() ==> bits[a] != bits[b],
        decodes(fixed, rho, bits, i),
    ensures
        ir::overridden(rho, translate::specializations(bits)[i]) == fixed,
{
    let env = translate::specializations(bits)[i];
    let o = ir::overridden(rho, env);
    assert forall|v: usize| #[trigger] o(v) == fixed(v) by {
        if bits.contains(v) {
            let j = choose|j: int| 0 <= j < bits.len() && bits[j] == v;
            modules_fix_the_decoded_bits(bits, i, j);
            assert(fixed(bits[j]) == if i == j {
                1int
            } else {
                0
            });
        } else {
            assert forall|k: int| 0 <= k < env.len() implies (#[trigger] env[k]).0 != v by {
                assert(bits.contains(bits[k]));
            }
            lemma_unbound(env, v);
        }
    }
    assert(o =~= fixed);
}

/// The module for a decoded bit says of an assignment what the circuit says of it where that
/// instruction was decoded: its constraints and postconditions hold together with those of the
/// circuit, and its inputs and outputs have the values of those of the circuit.
pub proof fn every_instruction_has_its_module(
    module: PicusModule,
    co: CircuitOutput,
    state: Option<OpcodeFamilyCircuitState>,
    bits: Seq<usize>,
    i: int,
    rho: spec_fn(usize) -> int,
    other: spec_fn(usize) -> int,
    fixed_rho: spec_fn(usize) -> int,
    fixed_other: spec_fn(usize) -> int,
)
    requires
        bits.len() >= 2,
        0 <= i < bits.len(),
        forall|a: int, b: int| 0 <= a < b < bits.len() ==> bits[a] != bits[b],
        translate::is_specialized_circuit(module, co, state, translate::specializations(bits)[i]),
        decodes(fixed_rho, rho, bits, i),
        decodes(fixed_other, other, bits, i),
    ensures
        laws::all_hold(module.constraints@, rho, other) <==> laws::all_hold(
            translate::circuit_constraints(co, state),
            fixed_rho,
            fixed_other,
        ),
        laws::all_hold(module.postconditions@, rho, other) <==> laws::all_hold(
            translate::circuit_postconditions(co),
            fixed_rho,
            fixed_other,
        ),
        module.inputs@.len() == translate::circuit_inputs(co, state).len(),
        forall|k: int|
            0 <= k < module.inputs@.len() ==> (#[trigger] module.inputs@[k]).eval(rho)
                == translate::circuit_inputs(co, state)[k].eval(fixed_rho),
        module.outputs@.len() == translate::circuit_outputs(co, state).len(),
        forall|k: int|
            0 <= k < module.outputs@.len() ==> (#[trigger] module.outputs@[k]).eval(rho)
                == translate::circuit_outputs(co, state)[k].eval(fixed_rho),
{
    let env = translate::specializations(bits)[i];
    lemma_decoded(fixed_rho, rho, bits, i);
    lemma_decoded(fixed_other, other, bits, i);
    circuit_laws::specialized_modules_fix_the_bound_variables(
        translate::circuit_constraints(co, state),
        env,
        rho,
        other,
    );
    circuit_laws::specialized_modules_fix_the_bound_variables(
        translate::circuit_postconditions(co),
        env,
        rho,
        other,
    );
    assert forall|k: int| 0 <= k < module.inputs@.len() implies (
    #[trigger] module.inputs@[k]).eval(rho) == translate::circuit_inputs(co, state)[k].eval(
        fixed_rho,
    ) by {
        laws::specialized_expressions_fix_the_bound_variables(
            translate::circuit_inputs(co, state)[k],
            env,
            rho,
        );
    }
    assert forall|k: int| 0 <= k < module.outputs@.len() implies (
    #[trigger] module.outputs@[k]).eval(rho) == translate::circuit_outputs(co, state)[k].eval(
        fixed_rho,
    ) by {
        laws::specialized_expressions_fix_the_bound_variables(
            translate::circuit_outputs(co, state)[k],
            env,
            rho,
        );
    }
}

/// How many flags of cases are set.
pub open spec fn set_flags(cases: Seq<DisjunctiveLookupCase>, rho: spec_fn(usize) -> int) -> int
    decreases cases.len(),
{
    if cases.len() == 0 {
        0
    } else {
        set_flags(cases.drop_last(), rho) + circuit_laws::flag_value(cases.last().flag, rho)
    }
}

proof fn lemma_flag(flag: Boolean, rho: spec_fn(usize) -> int)
    ensures
        lookups::boolean_expr(flag).eval(rho) == circuit_laws::flag_value(flag, rho),
{
    reveal_with_fuel(PicusExpr::eval, 2);
    if let Boolean::Not(v) = flag {
        let x = rho(v.0 as usize);
        vstd::arithmetic::div_mod::lemma_small_mod(1, laws::p() as nat);
        vstd::arithmetic::div_mod::lemma_sub_mod_noop_right(1, x, laws::p());
    }
}

/// Whether the flags of cases are bits.
pub open spec fn flags_are_bits(
    cases: Seq<DisjunctiveLookupCase>,
    rho: spec_fn(usize) -> int,
) -> bool {
    forall|i: int|
        0 <= i < cases.len() ==> {
            let f = circuit_laws::flag_value((#[trigger] cases[i]).flag, rho);
            f == 0 || f == 1
        }
}

/// Whether no two flags of cases are set.
pub open spec fn flags_exclude_each_other(
    cases: Seq<DisjunctiveLookupCase>,
    rho: spec_fn(usize) -> int,
) -> bool {
    forall|i: int, j: int|
        0 <= i < j < cases.len() ==> !(circuit_laws::flag_value((#[trigger] cases[i]).flag, rho)
            == 1 && circuit_laws::flag_value((#[trigger] cases[j]).flag, rho) == 1)
}

proof fn lemma_set_flags(cases: Seq<DisjunctiveLookupCase>, rho: spec_fn(usize) -> int)
    requires
        flags_are_bits(cases, rho),
        cases.len() < laws::p(),
    ensures
        0 <= set_flags(cases, rho) <= cases.len(),
        lookups::sum_of(lookups::flag_exprs(cases)).eval(rho) == set_flags(cases, rho),
        set_flags(cases, rho) == 0 <==> (forall|i: int|
            0 <= i < cases.len() ==> circuit_laws::flag_value((#[trigger] cases[i]).flag, rho)
                == 0),
        set_flags(cases, rho) <= 1 <==> flags_exclude_each_other(cases, rho),
    decreases cases.len(),
{
    let flags = lookups::flag_exprs(cases);
    reveal_with_fuel(PicusExpr::eval, 2);
    if cases.len() > 0 {
        let front = cases.drop_last();
        let last = cases[cases.len() - 1];
        assert forall|i: int| 0 <= i < front.len() implies {
            let f = circuit_laws::flag_value((#[trigger] front[i]).flag, rho);
            f == 0 || f == 1
        } by {
            let f = circuit_laws::flag_value(cases[i].flag, rho);
        }
        lemma_set_flags(front, rho);
        lemma_flag(last.flag, rho);
        assert(flags.drop_last() =~= lookups::flag_exprs(front));
        let s = set_flags(front, rho);
        let f = circuit_laws::flag_value(last.flag, rho);
        assert(f == 0 || f == 1);
        laws::operators_are_those_of_the_field(
            lookups::sum_of(flags.drop_last()),
            lookups::boolean_expr(last.flag),
            rho,
        );
        vstd::arithmetic::div_mod::lemma_small_mod((s + f) as nat, laws::p() as nat);
        if set_flags(cases, rho) == 0 {
            assert forall|i: int| 0 <= i < cases.len() implies circuit_laws::flag_value(
                (#[trigger] cases[i]).flag,
                rho,
            ) == 0 by {
                if i < front.len() {
                    assert(front[i] == cases[i]);
                }
            }
        }
        if forall|i: int|
            0 <= i < cases.len() ==> circuit_laws::flag_value((#[trigger] cases[i]).flag, rho)
                == 0 {
            assert forall|i: int| 0 <= i < front.len() implies circuit_laws::flag_value(
                (#[trigger] front[i]).flag,
                rho,
            ) == 0 by {
                assert(circuit_laws::flag_value(cases[i].flag, rho) == 0);
            }
        }
        if set_flags(cases, rho) <= 1 {
            assert forall|i: int, j: int| 0 <= i < j < cases.len() implies !(
            circuit_laws::flag_value((#[trigger] cases[i]).flag, rho) == 1
                && circuit_laws::flag_value((#[trigger] cases[j]).flag, rho) == 1) by {
                assert(front[i] == cases[i]);
                if j < front.len() {
                    assert(front[j] == cases[j]);
                } else if f == 1 {
                    assert(circuit_laws::flag_value(front[i].flag, rho) == 0);
                }
            }
        }
        if flags_exclude_each_other(cases, rho) {
            assert forall|i: int, j: int| 0 <= i < j < front.len() implies !(
            circuit_laws::flag_value((#[trigger] front[i]).flag, rho) == 1
                && circuit_laws::flag_value((#[trigger] front[j]).flag, rho) == 1) by {
                assert(front[i] == cases[i] && front[j] == cases[j]);
            }
            if f == 1 {
                assert forall|i: int| 0 <= i < front.len() implies circuit_laws::flag_value(
                    (#[trigger] front[i]).flag,
                    rho,
                ) == 0 by {
                    assert(front[i] == cases[i]);
                    let g = circuit_laws::flag_value(cases[i].flag, rho);
                    assert(last == cases[cases.len() - 1]);
                }
            }
        }
    }
}

proof fn lemma_relation(
    relation: DisjunctiveLookup,
    rho: spec_fn(usize) -> int,
    other: spec_fn(usize) -> int,
)
    requires
        relation.cases@.len() < laws::p(),
    ensures
        laws::all_hold(lookups::relation_postconditions(relation), rho, other)
            <==> flags_are_bits(relation.cases@, rho) && flags_exclude_each_other(
            relation.cases@,
            rho,
        ),
{
    let cases = relation.cases@;
    let flags = lookups::flag_exprs(cases);
    let cs = lookups::relation_postconditions(relation);
    let last = ir::at_most(lookups::sum_of(flags), lookups::lit(1));
    assert(cs[cases.len() as int] == last);
    assert forall|i: int| 0 <= i < cases.len() implies (cs[i].holds(rho, other) <==> {
        let f = circuit_laws::flag_value((#[trigger] cases[i]).flag, rho);
        f == 0 || f == 1
    }) by {
        assert(cs[i] == ir::bit(flags[i]));
        laws::bits_are_zero_or_one(flags[i], rho, other);
        lemma_flag(cases[i].flag, rho);
    }
    laws::leaves_have_their_residues(1, 0, rho);
    vstd::arithmetic::div_mod::lemma_small_mod(1, laws::p() as nat);
    if laws::all_hold(cs, rho, other) {
        assert forall|i: int| 0 <= i < cases.len() implies {
            let f = circuit_laws::flag_value((#[trigger] cases[i]).flag, rho);
            f == 0 || f == 1
        } by {
            assert(cs[i].holds(rho, other));
        }
        lemma_set_flags(cases, rho);
        assert(cs[cases.len() as int].holds(rho, other));
    }
    if flags_are_bits(cases, rho) && flags_exclude_each_other(cases, rho) {
        lemma_set_flags(cases, rho);
        assert forall|i: int| 0 <= i < cs.len() implies (#[trigger] cs[i]).holds(rho, other) by {
            if i < cases.len() {
                let f = circuit_laws::flag_value(cases[i].flag, rho);
                assert(f == 0 || f == 1);
            }
        }
    }
}

proof fn lemma_relations(
    relations: Seq<DisjunctiveLookup>,
    rho: spec_fn(usize) -> int,
    other: spec_fn(usize) -> int,
)
    requires
        forall|i: int| 0 <= i < relations.len() ==> (#[trigger] relations[i]).cases@.len()
            < laws::p(),
    ensures
        laws::all_hold(lookups::relations_postconditions(relations), rho, other) <==> (forall|
            i: int,
        |
            0 <= i < relations.len() ==> flags_are_bits((#[trigger] relations[i]).cases@, rho)
                && flags_exclude_each_other(relations[i].cases@, rho)),
    decreases relations.len(),
{
    if relations.len() > 0 {
        let front = relations.drop_last();
        let last = relations[relations.len() - 1];
        assert forall|i: int| 0 <= i < front.len() implies (#[trigger] front[i]).cases@.len()
            < laws::p() by {
            assert(front[i] == relations[i]);
        }
        lemma_relations(front, rho, other);
        lemma_relation(last, rho, other);
        circuit_laws::lemma_hold_appended(
            lookups::relations_postconditions(front),
            lookups::relation_postconditions(last),
            rho,
            other,
        );
        let front_holds = forall|i: int|
            0 <= i < front.len() ==> flags_are_bits((#[trigger] front[i]).cases@, rho)
                && flags_exclude_each_other(front[i].cases@, rho);
        let all_holds = forall|i: int|
            0 <= i < relations.len() ==> flags_are_bits((#[trigger] relations[i]).cases@, rho)
                && flags_exclude_each_other(relations[i].cases@, rho);
        if all_holds {
            assert forall|i: int| 0 <= i < front.len() implies flags_are_bits(
                (#[trigger] front[i]).cases@,
                rho,
            ) && flags_exclude_each_other(front[i].cases@, rho) by {
                assert(front[i] == relations[i]);
            }
            assert(flags_are_bits(relations[relations.len() - 1].cases@, rho));
        }
        if front_holds && flags_are_bits(last.cases@, rho) && flags_exclude_each_other(
            last.cases@,
            rho,
        ) {
            assert forall|i: int| 0 <= i < relations.len() implies flags_are_bits(
                (#[trigger] relations[i]).cases@,
                rho,
            ) && flags_exclude_each_other(relations[i].cases@, rho) by {
                if i < front.len() {
                    assert(front[i] == relations[i]);
                }
            }
        }
    }
}

/// The postconditions of the module of a circuit hold exactly where the flags of every disjunctive
/// lookup are bits of which at most one is set.
pub proof fn postconditions_exclude_two_active_cases(
    co: CircuitOutput,
    rho: spec_fn(usize) -> int,
    other: spec_fn(usize) -> int,
)
    requires
        forall|i: int|
            0 <= i < co.picus_extraction_metadata.disjunctive_lookups@.len() ==> (
            #[trigger] co.picus_extraction_metadata.disjunctive_lookups@[i]).cases@.len()
                < laws::p(),
    ensures
        laws::all_hold(translate::circuit_postconditions(co), rho, other) <==> (forall|i: int|
            0 <= i < co.picus_extraction_metadata.disjunctive_lookups@.len() ==> flags_are_bits(
                (#[trigger] co.picus_extraction_metadata.disjunctive_lookups@[i]).cases@,
                rho,
            ) && flags_exclude_each_other(
                co.picus_extraction_metadata.disjunctive_lookups@[i].cases@,
                rho,
            )),
{
    lemma_relations(co.picus_extraction_metadata.disjunctive_lookups@, rho, other);
}

/// A program is over the field of the circuits. Without decoded bits it holds the module of the circuit
/// under its own name, which is deterministic exactly where the circuit is; with several it holds a
/// module for each of them, under names that begin with that of the circuit and differ.
pub proof fn programs_hold_the_modules_of_their_circuit(
    program: PicusProgram,
    name: Seq<char>,
    co: CircuitOutput,
    state: Option<OpcodeFamilyCircuitState>,
    bits: Option<Seq<usize>>,
    i: int,
    j: int,
)
    requires
        translate::is_program_of(program, name, co, state, bits),
        circuit_laws::is_closed(co, state),
        co.num_of_variables + translate::circuit_fresh(co) <= usize::MAX,
    ensures
        program.prime == 0x7fff_ffff,
        bits is None ==> program.modules@.len() == 1 && program.modules@[0].name@ == name && (
        module_is_deterministic(
            program.modules@[0].inputs@,
            program.modules@[0].outputs@,
            program.modules@[0].constraints@,
            co.num_of_variables as int,
        ) <==> circuit_is_deterministic(co, state)),
        bits matches Some(b) ==> program.modules@.len() == (if b.len() == 1 {
            2
        } else {
            b.len()
        }),
        bits is Some && 0 <= i < j < program.modules@.len() ==> {
            &&& program.modules@[i].name@ != program.modules@[j].name@
            &&& program.modules@[i].name@.take(name.len() as int) == name
        },
{
    modules_are_deterministic_where_their_circuits_are(co, state);
    if bits is Some && 0 <= i < j < program.modules@.len() {
        laws::specialized_names_differ(name, i, j);
        let own = program.modules@[i].name@;
        assert(program.modules@[j].name@ == translate::specialized_name(name, j));
        assert(own.take(name.len() as int) =~= name);
    }
}

} // verus!
