//! Which variables of a circuit are inputs, outputs and intermediates.
use vstd::prelude::*;

use crate::circuit::CircuitOutput;
use crate::circuit::OpcodeFamilyCircuitState;
use crate::circuit::ShuffleRamMemQuery;
use crate::circuit::ShuffleRamQueryType;
use crate::circuit::Variable;
use crate::llzk::builder::LlzkError;

verus! {

/// A variable, or two variables that form a register.
#[derive(Clone, Copy, Debug, PartialEq, Eq, Structural)]
pub enum ExtractedVariable {
    Register { low: Variable, high: Variable },
    Scalar(Variable),
}

/// Registers come before scalars, each in the order of their variables.
pub open spec fn rank(v: ExtractedVariable) -> (int, int, int) {
    match v {
        ExtractedVariable::Register { low, high } => (0, low.0 as int, high.0 as int),
        ExtractedVariable::Scalar(x) => (1, x.0 as int, 0),
    }
}

/// Whether one extracted variable comes before another.
pub open spec fn precedes(a: ExtractedVariable, b: ExtractedVariable) -> bool {
    let (a0, a1, a2) = rank(a);
    let (b0, b1, b2) = rank(b);
    a0 < b0 || (a0 == b0 && (a1 < b1 || (a1 == b1 && a2 < b2)))
}

/// Sorted, with repetitions.
pub open spec fn sorted(s: Seq<ExtractedVariable>) -> bool {
    forall|i: int, j: int| 0 <= i < j < s.len() ==> !precedes(s[j], s[i])
}

/// Sorted, without repetitions.
pub open spec fn strictly_sorted(s: Seq<ExtractedVariable>) -> bool {
    forall|i: int, j: int| 0 <= i < j < s.len() ==> precedes(s[i], s[j])
}

/// Whether a sequence is the sorted, duplicate-free form of another.
pub open spec fn is_sorted_form(r: Seq<ExtractedVariable>, s: Seq<ExtractedVariable>) -> bool {
    &&& strictly_sorted(r)
    &&& forall|v: ExtractedVariable| r.contains(v) <==> s.contains(v)
}

/// A register.
pub open spec fn register_of(reg: Seq<Variable>) -> ExtractedVariable {
    ExtractedVariable::Register { low: reg[0], high: reg[1] }
}

/// Whether an extracted variable holds a variable.
pub open spec fn holds(x: ExtractedVariable, v: Variable) -> bool {
    match x {
        ExtractedVariable::Register { low, high } => v == low || v == high,
        ExtractedVariable::Scalar(s) => v == s,
    }
}

/// Whether some extracted variable of a list holds a variable.
pub open spec fn some_holds(xs: Seq<ExtractedVariable>, v: Variable) -> bool {
    exists|i: int| 0 <= i < xs.len() && holds(#[trigger] xs[i], v)
}

impl ExtractedVariable {
    /// A register from its low and its high limb.
    pub fn register(reg: [Variable; 2]) -> (r: Self)
        ensures
            r == register_of(reg@),
    {
        ExtractedVariable::Register { low: reg[0], high: reg[1] }
    }

    /// A scalar.
    pub fn scalar(v: Variable) -> (r: Self)
        ensures
            r == ExtractedVariable::Scalar(v),
    {
        ExtractedVariable::Scalar(v)
    }

    /// Whether the variable is contained.
    pub fn contains(&self, v: &Variable) -> (r: bool)
        ensures
            r == holds(*self, *v),
    {
        match self {
            ExtractedVariable::Register { low, high } => *v == *low || *v == *high,
            ExtractedVariable::Scalar(x) => *v == *x,
        }
    }

    /// Number of contained variables.
    pub fn num_vars(&self) -> (r: usize)
        ensures
            r == count_of(*self),
    {
        match self {
            ExtractedVariable::Register { .. } => 2,
            ExtractedVariable::Scalar(_) => 1,
        }
    }

    fn before(&self, other: &ExtractedVariable) -> (r: bool)
        ensures
            r == precedes(*self, *other),
    {
        match (self, other) {
            (
                ExtractedVariable::Register { low, high },
                ExtractedVariable::Register { low: other_low, high: other_high },
            ) => low.0 < other_low.0 || (low.0 == other_low.0 && high.0 < other_high.0),
            (ExtractedVariable::Register { .. }, ExtractedVariable::Scalar(_)) => true,
            (ExtractedVariable::Scalar(_), ExtractedVariable::Register { .. }) => false,
            (ExtractedVariable::Scalar(x), ExtractedVariable::Scalar(y)) => x.0 < y.0,
        }
    }
}

/// How many variables an extracted variable holds.
pub open spec fn count_of(x: ExtractedVariable) -> nat {
    match x {
        ExtractedVariable::Register { .. } => 2,
        ExtractedVariable::Scalar(_) => 1,
    }
}

/// How many variables a list holds.
pub open spec fn total_count(xs: Seq<ExtractedVariable>) -> nat
    decreases xs.len(),
{
    if xs.len() == 0 {
        0
    } else {
        total_count(xs.drop_last()) + count_of(xs.last())
    }
}

/// Counts the variables of a list.
pub fn num_vars(vars: &Vec<ExtractedVariable>) -> (r: u128)
    ensures
        r == total_count(vars@),
        r <= 2 * usize::MAX,
{
    let mut total: u128 = 0;
    assert(vars@.take(0) =~= Seq::empty());
    for i in 0..vars.len()
        invariant
            total == total_count(vars@.take(i as int)),
            total <= 2 * i,
    {
        assert(vars@.take(i + 1).drop_last() =~= vars@.take(i as int));
        total = total + vars[i].num_vars() as u128;
    }
    assert(vars@.take(vars@.len() as int) =~= vars@);
    total
}

fn insert_sorted(list: &mut Vec<ExtractedVariable>, v: ExtractedVariable)
    requires
        sorted(old(list)@),
    ensures
        sorted(final(list)@),
        final(list)@.to_multiset() == old(list)@.to_multiset().insert(v),
{
    let mut i: usize = list.len();
    while i > 0 && v.before(&list[i - 1])
        invariant
            i <= list@.len(),
            list@ == old(list)@,
            sorted(list@),
            forall|j: int| i <= j < list@.len() ==> precedes(v, #[trigger] list@[j]),
        decreases i,
    {
        i = i - 1;
    }
    let ghost before = list@;
    list.insert(i, v);
    proof {
        list@.to_multiset_ensures();
        assert(list@.remove(i as int) =~= before);
        assert(list@[i as int] == v);
        assert(list@.to_multiset().count(v) > 0);
        assert(list@.to_multiset() =~= before.to_multiset().insert(v));
        assert forall|a: int, b: int| 0 <= a < b < list@.len() implies !precedes(
            list@[b],
            list@[a],
        ) by {
            let old_a = if a < i {
                a
            } else {
                a - 1
            };
            let old_b = if b < i {
                b
            } else {
                b - 1
            };
            if a != i && b != i {
                assert(list@[a] == before[old_a]);
                assert(list@[b] == before[old_b]);
            } else if a == i {
                assert(list@[b] == before[b - 1]);
            } else {
                assert(list@[a] == before[a]);
                assert(!precedes(v, before[i - 1]));
                if a < i - 1 {
                    assert(!precedes(before[i - 1], before[a]));
                }
            }
        }
    }
}

/// Sorts a list.
pub fn sort(list: &Vec<ExtractedVariable>) -> (r: Vec<ExtractedVariable>)
    ensures
        sorted(r@),
        r@.to_multiset() == list@.to_multiset(),
{
    let mut r: Vec<ExtractedVariable> = Vec::new();
    assert(list@.take(0) =~= r@);
    for i in 0..list.len()
        invariant
            sorted(r@),
            r@.to_multiset() == list@.take(i as int).to_multiset(),
    {
        proof {
            assert(list@.take(i + 1) =~= list@.take(i as int).push(list@[i as int]));
            list@.take(i as int).to_multiset_ensures();
        }
        insert_sorted(&mut r, list[i]);
    }
    assert(list@.take(list@.len() as int) =~= list@);
    r
}

/// Sorts a list and drops repetitions.
pub fn sort_and_dedup(list: &Vec<ExtractedVariable>) -> (r: Vec<ExtractedVariable>)
    ensures
        is_sorted_form(r@, list@),
{
    let all = sort(list);
    let mut r: Vec<ExtractedVariable> = Vec::new();
    for i in 0..all.len()
        invariant
            sorted(all@),
            strictly_sorted(r@),
            forall|v: ExtractedVariable| r@.contains(v) <==> all@.take(i as int).contains(v),
            r@.len() > 0 ==> i > 0 && r@.last() == all@[i - 1],
            r@.len() == 0 ==> i == 0,
    {
        let ghost before = r@;
        let ghost head = all@.take(i as int);
        assert(all@.take(i + 1) =~= head.push(all@[i as int]));
        let fresh = r.len() == 0 || r[r.len() - 1] != all[i];
        if fresh {
            r.push(all[i]);
            proof {
                assert forall|a: int, b: int| 0 <= a < b < r@.len() implies precedes(
                    r@[a],
                    r@[b],
                ) by {
                    if b == before.len() {
                        assert(before.last() == all@[i - 1]);
                        assert(!precedes(all@[i as int], all@[i - 1]));
                        assert(precedes(before.last(), all@[i as int]));
                        if a < before.len() - 1 {
                            assert(precedes(before[a], before[before.len() - 1]));
                        }
                    }
                }
            }
        }
        proof {
            let x = all@[i as int];
            assert forall|v: ExtractedVariable| r@.contains(v) <==> head.push(x).contains(v) by {
                lemma_push_contains(head, x, v);
                if fresh {
                    lemma_push_contains(before, x, v);
                } else if v == x {
                    assert(r@.last() == x);
                    assert(r@[r@.len() - 1] == x);
                }
            }
        }
    }
    proof {
        assert(all@.take(all@.len() as int) =~= all@);
        all@.to_multiset_ensures();
        list@.to_multiset_ensures();
        assert forall|v: ExtractedVariable| all@.contains(v) <==> list@.contains(v) by {
            assert(all@.to_multiset().count(v) == list@.to_multiset().count(v));
        }
    }
    r
}

proof fn lemma_push_contains(s: Seq<ExtractedVariable>, x: ExtractedVariable, v: ExtractedVariable)
    ensures
        s.push(x).contains(v) <==> s.contains(v) || v == x,
{
    if s.contains(v) {
        let i = choose|i: int| 0 <= i < s.len() && s[i] == v;
        assert(s.push(x)[i] == v);
    }
    assert(s.push(x)[s.len() as int] == x);
    if s.push(x).contains(v) && v != x {
        let i = choose|i: int| 0 <= i < s.push(x).len() && s.push(x)[i] == v;
        assert(s[i] == v);
    }
}

/// The machine-state inputs, unsorted.
pub open spec fn state_input_list(cs: OpcodeFamilyCircuitState) -> Seq<ExtractedVariable> {
    seq![
        ExtractedVariable::Scalar(cs.execute),
        register_of(cs.cycle_start_state.pc@),
        register_of(cs.cycle_start_state.timestamp@),
        ExtractedVariable::Scalar(cs.decoder_data.rs1_index),
        ExtractedVariable::Scalar(cs.decoder_data.rs2_index),
        ExtractedVariable::Scalar(cs.decoder_data.rd_index),
        ExtractedVariable::Scalar(cs.decoder_data.rd_is_zero),
        register_of(cs.decoder_data.imm@),
        ExtractedVariable::Scalar(cs.decoder_data.funct3),
        ExtractedVariable::Scalar(cs.decoder_data.circuit_family_extra_mask),
    ] + (match cs.decoder_data.funct7 {
        Some(v) => seq![ExtractedVariable::Scalar(v)],
        None => Seq::empty(),
    })
}

/// The machine-state outputs, unsorted.
pub open spec fn state_output_list(cs: OpcodeFamilyCircuitState) -> Seq<ExtractedVariable> {
    seq![register_of(cs.cycle_end_state.pc@), register_of(cs.cycle_end_state.timestamp@)]
}

/// Whether the write value of a query is read from outside.
pub open spec fn write_is_input(index: int, legacy: bool) -> bool {
    legacy && index == 2
}

/// The inputs that one memory query adds.
pub open spec fn query_inputs(query: ShuffleRamMemQuery, index: int, legacy: bool) -> Seq<
    ExtractedVariable,
> {
    seq![register_of(query.read_value@)] + (if !query.readonly() && write_is_input(index, legacy) {
        seq![register_of(query.write_value@)]
    } else {
        Seq::empty()
    }) + (match query.query_type {
        ShuffleRamQueryType::RegisterOrRam { is_register, address } => seq![register_of(address@)]
            + (match is_register.variable() {
            Some(v) => seq![ExtractedVariable::Scalar(v)],
            None => Seq::empty(),
        }),
        ShuffleRamQueryType::RegisterOnly { .. } => Seq::empty(),
    })
}

/// The outputs that one memory query adds.
pub open spec fn query_outputs(query: ShuffleRamMemQuery, index: int, legacy: bool) -> Seq<
    ExtractedVariable,
> {
    if !query.readonly() && !write_is_input(index, legacy) {
        seq![register_of(query.write_value@)]
    } else {
        Seq::empty()
    }
}

/// The inputs that the memory queries add.
pub open spec fn queries_inputs(queries: Seq<ShuffleRamMemQuery>, legacy: bool) -> Seq<
    ExtractedVariable,
>
    decreases queries.len(),
{
    if queries.len() == 0 {
        Seq::empty()
    } else {
        queries_inputs(queries.drop_last(), legacy) + query_inputs(
            queries.last(),
            queries.len() - 1,
            legacy,
        )
    }
}

/// The outputs that the memory queries add.
pub open spec fn queries_outputs(queries: Seq<ShuffleRamMemQuery>, legacy: bool) -> Seq<
    ExtractedVariable,
>
    decreases queries.len(),
{
    if queries.len() == 0 {
        Seq::empty()
    } else {
        queries_outputs(queries.drop_last(), legacy) + query_outputs(
            queries.last(),
            queries.len() - 1,
            legacy,
        )
    }
}

/// All inputs of a circuit, unsorted.
pub open spec fn input_list(
    cs: OpcodeFamilyCircuitState,
    queries: Seq<ShuffleRamMemQuery>,
    legacy: bool,
) -> Seq<ExtractedVariable> {
    state_input_list(cs) + queries_inputs(queries, legacy)
}

/// All outputs of a circuit, unsorted.
pub open spec fn output_list(
    cs: OpcodeFamilyCircuitState,
    queries: Seq<ShuffleRamMemQuery>,
    legacy: bool,
) -> Seq<ExtractedVariable> {
    state_output_list(cs) + queries_outputs(queries, legacy)
}

/// Whether a variable is a limb of what some query reads.
pub open spec fn is_read(queries: Seq<ShuffleRamMemQuery>, v: Variable) -> bool {
    exists|i: int|
        0 <= i < queries.len() && ((#[trigger] queries[i]).read_value[0] == v
            || queries[i].read_value[1] == v)
}

/// Whether a variable is neither an input nor an output nor read.
pub open spec fn is_intermediate(
    inputs: Seq<ExtractedVariable>,
    outputs: Seq<ExtractedVariable>,
    queries: Seq<ShuffleRamMemQuery>,
    v: Variable,
) -> bool {
    !some_holds(inputs, v) && !some_holds(outputs, v) && !is_read(queries, v)
}

/// The intermediates among the first `n` variables, in order.
pub open spec fn intermediate_list(
    inputs: Seq<ExtractedVariable>,
    outputs: Seq<ExtractedVariable>,
    queries: Seq<ShuffleRamMemQuery>,
    n: nat,
) -> Seq<ExtractedVariable>
    decreases n,
{
    if n == 0 {
        Seq::empty()
    } else {
        let head = intermediate_list(inputs, outputs, queries, (n - 1) as nat);
        let v = Variable((n - 1) as u64);
        if is_intermediate(inputs, outputs, queries, v) {
            head.push(ExtractedVariable::Scalar(v))
        } else {
            head
        }
    }
}

/// The circuit whose second query still hands its write value in from outside.
pub open spec fn legacy_circuit(name: Seq<char>) -> bool {
    name == "unified_reduced_machine"@
}

/// Whether a circuit takes the write value of query 2 as an input.
pub fn uses_legacy_query2_write_input(circuit_name: &str) -> (r: bool)
    ensures
        r == legacy_circuit(circuit_name@),
{
    str_eq(circuit_name, "unified_reduced_machine")
}

fn str_eq(a: &str, b: &str) -> (r: bool)
    ensures
        r == (a@ == b@),
{
    a.to_owned() == b.to_owned()
}

/// Whether the write value of a query is read from outside.
pub fn shuffle_write_value_is_input(query_index: usize, use_legacy_query2_input: bool) -> (r: bool)
    ensures
        r == write_is_input(query_index as int, use_legacy_query2_input),
{
    use_legacy_query2_input && query_index == 2
}

fn state_inputs(cs: &OpcodeFamilyCircuitState) -> (r: Vec<ExtractedVariable>)
    ensures
        r@ == state_input_list(*cs),
{
    let mut inputs: Vec<ExtractedVariable> = Vec::new();
    inputs.push(ExtractedVariable::scalar(cs.execute));
    inputs.push(ExtractedVariable::register(cs.cycle_start_state.pc));
    inputs.push(ExtractedVariable::register(cs.cycle_start_state.timestamp));
    inputs.push(ExtractedVariable::scalar(cs.decoder_data.rs1_index));
    inputs.push(ExtractedVariable::scalar(cs.decoder_data.rs2_index));
    inputs.push(ExtractedVariable::scalar(cs.decoder_data.rd_index));
    inputs.push(ExtractedVariable::scalar(cs.decoder_data.rd_is_zero));
    inputs.push(ExtractedVariable::register(cs.decoder_data.imm));
    inputs.push(ExtractedVariable::scalar(cs.decoder_data.funct3));
    inputs.push(ExtractedVariable::scalar(cs.decoder_data.circuit_family_extra_mask));
    match cs.decoder_data.funct7 {
        Some(v) => inputs.push(ExtractedVariable::scalar(v)),
        None => {},
    }
    assert(inputs@ =~= state_input_list(*cs));
    inputs
}

fn state_outputs(cs: &OpcodeFamilyCircuitState) -> (r: Vec<ExtractedVariable>)
    ensures
        r@ == state_output_list(*cs),
{
    let mut outputs: Vec<ExtractedVariable> = Vec::new();
    outputs.push(ExtractedVariable::register(cs.cycle_end_state.pc));
    outputs.push(ExtractedVariable::register(cs.cycle_end_state.timestamp));
    assert(outputs@ =~= state_output_list(*cs));
    outputs
}

/// Tells which variables go in, which come out, and which are internal.
pub trait VariableExtractor {
    /// Extract all variables that need to be passed as inputs.
    fn get_inputs(&self) -> (r: Result<Vec<ExtractedVariable>, LlzkError>);

    /// Extract all variables that need to be produced as outputs.
    fn get_outputs(&self) -> (r: Result<Vec<ExtractedVariable>, LlzkError>);

    /// Extract all variables that are only internal.
    fn get_intermediates(&self) -> (r: Result<Vec<ExtractedVariable>, LlzkError>);
}

impl VariableExtractor for OpcodeFamilyCircuitState {
    /// The machine-state inputs, sorted.
    fn get_inputs(&self) -> (r: Result<Vec<ExtractedVariable>, LlzkError>)
        ensures
            r matches Ok(inputs) && sorted(inputs@) && inputs@.to_multiset() == state_input_list(
                *self,
            ).to_multiset(),
    {
        Ok(sort(&state_inputs(self)))
    }

    /// The machine-state outputs, sorted.
    fn get_outputs(&self) -> (r: Result<Vec<ExtractedVariable>, LlzkError>)
        ensures
            r matches Ok(outputs) && sorted(outputs@) && outputs@.to_multiset()
                == state_output_list(*self).to_multiset(),
    {
        Ok(sort(&state_outputs(self)))
    }

    /// The machine state has no intermediates.
    fn get_intermediates(&self) -> (r: Result<Vec<ExtractedVariable>, LlzkError>)
        ensures
            r matches Ok(intermediates) && intermediates@ == Seq::<ExtractedVariable>::empty(),
    {
        Ok(Vec::new())
    }
}

/// The inputs of a circuit: machine state, read values, addresses.
pub fn extracted_inputs(co: &CircuitOutput, use_legacy_query2_input: bool) -> (r: Result<
    Vec<ExtractedVariable>,
    LlzkError,
>)
    ensures
        match r {
            Ok(inputs) => {
                &&& co.executor_machine_state is Some
                &&& is_sorted_form(
                    inputs@,
                    input_list(
                        co.executor_machine_state->0,
                        co.shuffle_ram_queries@,
                        use_legacy_query2_input,
                    ),
                )
            },
            Err(e) => {
                &&& co.executor_machine_state is None
                &&& e == LlzkError::MissingExecutorState
            },
        },
{
    let cs = match &co.executor_machine_state {
        Some(cs) => cs,
        None => {
            return Err(LlzkError::MissingExecutorState);
        },
    };
    let mut inputs = state_inputs(cs);
    let ghost start = inputs@;
    let ghost queries = co.shuffle_ram_queries@;
    assert(queries.take(0) =~= Seq::empty());
    assert(start + Seq::<ExtractedVariable>::empty() =~= start);
    for i in 0..co.shuffle_ram_queries.len()
        invariant
            queries == co.shuffle_ram_queries@,
            inputs@ == start + queries_inputs(queries.take(i as int), use_legacy_query2_input),
    {
        let query = &co.shuffle_ram_queries[i];
        assert(queries.take(i + 1).drop_last() =~= queries.take(i as int));
        assert(queries.take(i + 1).last() == *query);
        let ghost before = inputs@;
        inputs.push(ExtractedVariable::register(query.read_value));
        if !query.is_readonly() && shuffle_write_value_is_input(i, use_legacy_query2_input) {
            inputs.push(ExtractedVariable::register(query.write_value));
        }
        match &query.query_type {
            ShuffleRamQueryType::RegisterOrRam { is_register, address } => {
                inputs.push(ExtractedVariable::register(*address));
                match is_register.get_variable() {
                    Some(v) => inputs.push(ExtractedVariable::scalar(v)),
                    None => {},
                }
            },
            ShuffleRamQueryType::RegisterOnly { .. } => {},
        }
        assert(inputs@ =~= before + query_inputs(*query, i as int, use_legacy_query2_input));
        assert(inputs@ =~= start + queries_inputs(
            queries.take(i + 1),
            use_legacy_query2_input,
        ));
    }
    assert(queries.take(queries.len() as int) =~= queries);
    Ok(sort_and_dedup(&inputs))
}

/// The outputs of a circuit: next machine state, written values.
pub fn extracted_outputs(co: &CircuitOutput, use_legacy_query2_input: bool) -> (r: Result<
    Vec<ExtractedVariable>,
    LlzkError,
>)
    ensures
        match r {
            Ok(outputs) => {
                &&& co.executor_machine_state is Some
                &&& is_sorted_form(
                    outputs@,
                    output_list(
                        co.executor_machine_state->0,
                        co.shuffle_ram_queries@,
                        use_legacy_query2_input,
                    ),
                )
            },
            Err(e) => {
                &&& co.executor_machine_state is None
                &&& e == LlzkError::MissingExecutorState
            },
        },
{
    let cs = match &co.executor_machine_state {
        Some(cs) => cs,
        None => {
            return Err(LlzkError::MissingExecutorState);
        },
    };
    let mut outputs = state_outputs(cs);
    let ghost start = outputs@;
    let ghost queries = co.shuffle_ram_queries@;
    assert(queries.take(0) =~= Seq::empty());
    assert(start + Seq::<ExtractedVariable>::empty() =~= start);
    for i in 0..co.shuffle_ram_queries.len()
        invariant
            queries == co.shuffle_ram_queries@,
            outputs@ == start + queries_outputs(queries.take(i as int), use_legacy_query2_input),
    {
        let query = &co.shuffle_ram_queries[i];
        assert(queries.take(i + 1).drop_last() =~= queries.take(i as int));
        assert(queries.take(i + 1).last() == *query);
        if !query.is_readonly() && !shuffle_write_value_is_input(i, use_legacy_query2_input) {
            outputs.push(ExtractedVariable::register(query.write_value));
        }
        assert(outputs@ =~= start + queries_outputs(
            queries.take(i + 1),
            use_legacy_query2_input,
        ));
    }
    assert(queries.take(queries.len() as int) =~= queries);
    Ok(sort_and_dedup(&outputs))
}

fn any_holds(xs: &Vec<ExtractedVariable>, v: &Variable) -> (r: bool)
    ensures
        r == some_holds(xs@, *v),
{
    for i in 0..xs.len()
        invariant
            forall|j: int| 0 <= j < i ==> !holds(#[trigger] xs@[j], *v),
    {
        if xs[i].contains(v) {
            assert(holds(xs@[i as int], *v));
            return true;
        }
    }
    false
}

fn any_reads(queries: &Vec<ShuffleRamMemQuery>, v: &Variable) -> (r: bool)
    ensures
        r == is_read(queries@, *v),
{
    for i in 0..queries.len()
        invariant
            forall|j: int|
                0 <= j < i ==> !((#[trigger] queries@[j]).read_value[0] == *v
                    || queries@[j].read_value[1] == *v),
    {
        if queries[i].read_value[0] == *v || queries[i].read_value[1] == *v {
            assert(queries@[i as int].read_value[0] == *v || queries@[i as int].read_value[1]
                == *v);
            return true;
        }
    }
    false
}

/// The remaining variables of a circuit, in order.
pub fn extracted_intermediates(co: &CircuitOutput, use_legacy_query2_input: bool) -> (r: Result<
    Vec<ExtractedVariable>,
    LlzkError,
>)
    ensures
        match r {
            Ok(intermediates) => {
                &&& co.executor_machine_state is Some
                &&& intermediates@ == intermediate_list(
                    input_list(
                        co.executor_machine_state->0,
                        co.shuffle_ram_queries@,
                        use_legacy_query2_input,
                    ),
                    output_list(
                        co.executor_machine_state->0,
                        co.shuffle_ram_queries@,
                        use_legacy_query2_input,
                    ),
                    co.shuffle_ram_queries@,
                    co.num_of_variables as nat,
                )
            },
            Err(e) => {
                &&& co.executor_machine_state is None
                &&& e == LlzkError::MissingExecutorState
            },
        },
{
    let inputs = extracted_inputs(co, use_legacy_query2_input)?;
    let outputs = extracted_outputs(co, use_legacy_query2_input)?;
    let ghost all_inputs = input_list(
        co.executor_machine_state->0,
        co.shuffle_ram_queries@,
        use_legacy_query2_input,
    );
    let ghost all_outputs = output_list(
        co.executor_machine_state->0,
        co.shuffle_ram_queries@,
        use_legacy_query2_input,
    );
    let ghost queries = co.shuffle_ram_queries@;
    let mut r: Vec<ExtractedVariable> = Vec::new();
    for i in 0..co.num_of_variables
        invariant
            queries == co.shuffle_ram_queries@,
            is_sorted_form(inputs@, all_inputs),
            is_sorted_form(outputs@, all_outputs),
            r@ == intermediate_list(all_inputs, all_outputs, queries, i as nat),
    {
        let v = Variable(i as u64);
        proof {
            lemma_some_holds_same(inputs@, all_inputs, v);
            lemma_some_holds_same(outputs@, all_outputs, v);
        }
        let used = any_holds(&inputs, &v) || any_holds(&outputs, &v) || any_reads(
            &co.shuffle_ram_queries,
            &v,
        );
        if !used {
            r.push(ExtractedVariable::Scalar(v));
        }
    }
    Ok(r)
}

proof fn lemma_some_holds_same(
    a: Seq<ExtractedVariable>,
    b: Seq<ExtractedVariable>,
    v: Variable,
)
    requires
        forall|x: ExtractedVariable| a.contains(x) <==> b.contains(x),
    ensures
        some_holds(a, v) == some_holds(b, v),
{
    if some_holds(a, v) {
        let i = choose|i: int| 0 <= i < a.len() && holds(#[trigger] a[i], v);
        assert(a.contains(a[i]));
        let j = choose|j: int| 0 <= j < b.len() && b[j] == a[i];
        assert(holds(b[j], v));
    }
    if some_holds(b, v) {
        let i = choose|i: int| 0 <= i < b.len() && holds(#[trigger] b[i], v);
        assert(b.contains(b[i]));
        let j = choose|j: int| 0 <= j < a.len() && a[j] == b[i];
        assert(holds(a[j], v));
    }
}

impl VariableExtractor for CircuitOutput {
    /// The inputs of the circuit, sorted.
    fn get_inputs(&self) -> (r: Result<Vec<ExtractedVariable>, LlzkError>)
        ensures
            match r {
                Ok(inputs) => {
                    &&& self.executor_machine_state is Some
                    &&& is_sorted_form(
                        inputs@,
                        input_list(
                            self.executor_machine_state->0,
                            self.shuffle_ram_queries@,
                            false,
                        ),
                    )
                },
                Err(e) => {
                    &&& self.executor_machine_state is None
                    &&& e == LlzkError::MissingExecutorState
                },
            },
    {
        extracted_inputs(self, false)
    }

    /// The outputs of the circuit, sorted.
    fn get_outputs(&self) -> (r: Result<Vec<ExtractedVariable>, LlzkError>)
        ensures
            match r {
                Ok(outputs) => {
                    &&& self.executor_machine_state is Some
                    &&& is_sorted_form(
                        outputs@,
                        output_list(
                            self.executor_machine_state->0,
                            self.shuffle_ram_queries@,
                            false,
                        ),
                    )
                },
                Err(e) => {
                    &&& self.executor_machine_state is None
                    &&& e == LlzkError::MissingExecutorState
                },
            },
    {
        extracted_outputs(self, false)
    }

    /// The intermediates of the circuit, in order.
    fn get_intermediates(&self) -> (r: Result<Vec<ExtractedVariable>, LlzkError>)
        ensures
            match r {
                Ok(intermediates) => {
                    &&& self.executor_machine_state is Some
                    &&& intermediates@ == intermediate_list(
                        input_list(
                            self.executor_machine_state->0,
                            self.shuffle_ram_queries@,
                            false,
                        ),
                        output_list(
                            self.executor_machine_state->0,
                            self.shuffle_ram_queries@,
                            false,
                        ),
                        self.shuffle_ram_queries@,
                        self.num_of_variables as nat,
                    )
                },
                Err(e) => {
                    &&& self.executor_machine_state is None
                    &&& e == LlzkError::MissingExecutorState
                },
            },
    {
        extracted_intermediates(self, false)
    }
}

proof fn lemma_intermediate_membership(
    inputs: Seq<ExtractedVariable>,
    outputs: Seq<ExtractedVariable>,
    queries: Seq<ShuffleRamMemQuery>,
    n: nat,
    v: Variable,
)
    requires
        n <= 0x1_0000_0000_0000_0000,
    ensures
        some_holds(intermediate_list(inputs, outputs, queries, n), v) <==> v.0 < n
            && is_intermediate(inputs, outputs, queries, v),
    decreases n,
{
    let list = intermediate_list(inputs, outputs, queries, n);
    if n > 0 {
        lemma_intermediate_membership(inputs, outputs, queries, (n - 1) as nat, v);
        let head = intermediate_list(inputs, outputs, queries, (n - 1) as nat);
        let w = Variable((n - 1) as u64);
        if some_holds(head, v) {
            let i = choose|i: int| 0 <= i < head.len() && holds(#[trigger] head[i], v);
            assert(list[i] == head[i]);
            assert(some_holds(list, v));
        }
        if is_intermediate(inputs, outputs, queries, w) {
            assert(list[head.len() as int] == ExtractedVariable::Scalar(w));
            if v == w {
                assert(holds(list[head.len() as int], v));
                assert(some_holds(list, v));
            }
        }
        if some_holds(list, v) {
            let i = choose|i: int| 0 <= i < list.len() && holds(#[trigger] list[i], v);
            if i < head.len() {
                assert(list[i] == head[i]);
                assert(some_holds(head, v));
            }
        }
    }
}

proof fn lemma_reads_are_inputs(queries: Seq<ShuffleRamMemQuery>, legacy: bool, v: Variable)
    requires
        is_read(queries, v),
    ensures
        some_holds(queries_inputs(queries, legacy), v),
    decreases queries.len(),
{
    let i = choose|i: int|
        0 <= i < queries.len() && ((#[trigger] queries[i]).read_value[0] == v
            || queries[i].read_value[1] == v);
    let all = queries_inputs(queries, legacy);
    let head = queries_inputs(queries.drop_last(), legacy);
    let tail = query_inputs(queries.last(), queries.len() - 1, legacy);
    if i == queries.len() - 1 {
        assert(all[head.len() as int] == tail[0]);
        assert(holds(all[head.len() as int], v));
    } else {
        assert(queries.drop_last()[i] == queries[i]);
        lemma_reads_are_inputs(queries.drop_last(), legacy, v);
        let j = choose|j: int| 0 <= j < head.len() && holds(#[trigger] head[j], v);
        assert(all[j] == head[j]);
    }
}

/// Every variable of a circuit is an input, an output or an intermediate, and an intermediate
/// is neither of the others.
pub proof fn every_variable_has_its_place(
    cs: OpcodeFamilyCircuitState,
    queries: Seq<ShuffleRamMemQuery>,
    legacy: bool,
    n: nat,
    v: Variable,
)
    requires
        v.0 < n <= 0x1_0000_0000_0000_0000,
    ensures
        ({
            let inputs = input_list(cs, queries, legacy);
            let outputs = output_list(cs, queries, legacy);
            let intermediates = intermediate_list(inputs, outputs, queries, n);
            some_holds(intermediates, v) <==> !some_holds(inputs, v) && !some_holds(outputs, v)
        }),
{
    let inputs = input_list(cs, queries, legacy);
    let outputs = output_list(cs, queries, legacy);
    lemma_intermediate_membership(inputs, outputs, queries, n, v);
    if is_read(queries, v) {
        lemma_reads_are_inputs(queries, legacy, v);
        let part = queries_inputs(queries, legacy);
        let j = choose|j: int| 0 <= j < part.len() && holds(#[trigger] part[j], v);
        assert(inputs[state_input_list(cs).len() + j] == part[j]);
    }
}

/// A list has only one sorted form.
pub proof fn sorted_forms_are_unique(
    a: Seq<ExtractedVariable>,
    b: Seq<ExtractedVariable>,
    s: Seq<ExtractedVariable>,
)
    requires
        is_sorted_form(a, s),
        is_sorted_form(b, s),
    ensures
        a == b,
{
    assert forall|v: ExtractedVariable| a.contains(v) <==> b.contains(v) by {
        assert(a.contains(v) <==> s.contains(v));
        assert(b.contains(v) <==> s.contains(v));
    }
    lemma_same_elements(a, b);
}

proof fn lemma_same_elements(a: Seq<ExtractedVariable>, b: Seq<ExtractedVariable>)
    requires
        strictly_sorted(a),
        strictly_sorted(b),
        forall|v: ExtractedVariable| a.contains(v) <==> b.contains(v),
    ensures
        a == b,
    decreases a.len(),
{
    if a.len() == 0 {
        if b.len() > 0 {
            assert(b.contains(b[0]));
        }
        assert(a =~= b);
    } else {
        assert(a.contains(a.last()));
        assert(b.contains(a.last()));
        assert(b.len() > 0);
        assert(b.contains(b.last()));
        assert(a.contains(b.last()));
        let i = choose|i: int| 0 <= i < b.len() && b[i] == a.last();
        let j = choose|j: int| 0 <= j < a.len() && a[j] == b.last();
        if a.last() != b.last() {
            assert(precedes(b[i], b.last()));
            assert(precedes(a[j], a.last()));
        }
        let x = a.drop_last();
        let y = b.drop_last();
        assert forall|v: ExtractedVariable| x.contains(v) <==> y.contains(v) by {
            if x.contains(v) {
                let m = choose|m: int| 0 <= m < x.len() && x[m] == v;
                assert(precedes(a[m], a.last()));
                assert(a.contains(a[m]));
                assert(b.contains(v));
                let n = choose|n: int| 0 <= n < b.len() && b[n] == v;
                assert(n != b.len() - 1);
                assert(y[n] == v);
            }
            if y.contains(v) {
                let m = choose|m: int| 0 <= m < y.len() && y[m] == v;
                assert(precedes(b[m], b.last()));
                assert(b.contains(b[m]));
                assert(a.contains(v));
                let n = choose|n: int| 0 <= n < a.len() && a[n] == v;
                assert(n != a.len() - 1);
                assert(x[n] == v);
            }
        }
        lemma_same_elements(x, y);
        assert(a =~= x.push(a.last()));
        assert(b =~= y.push(b.last()));
    }
}

} // verus!
