//! Generation of the circuits of the families.
use vstd::prelude::*;

use std::collections::HashMap;

use crate::circuit::CircuitOutput;
use crate::circuit::LookupInput;
use crate::circuit::LookupQueryTableType;
use crate::circuit::Placeholder;
use crate::circuit::TableType;
use crate::circuit::Variable;
use crate::llzk::aliases;
use crate::llzk::aliases::merge_llzk_placeholder_aliases;
use crate::llzk::builder::LlzkError;
use crate::llzk::codegen;
use crate::llzk::codegen::CircuitBundle;
use crate::llzk::config;
use crate::llzk::config::destination;
use crate::llzk::config::optimizer_pipeline;
use crate::llzk::config::Destination;
use crate::llzk::config::LlzkStructLayout;
use crate::llzk::config::OptLevel;
use crate::llzk::config::OutputFormat;
use crate::llzk::config::Pass;
use crate::llzk::extract;
use crate::llzk::extract::extracted_inputs;
use crate::llzk::extract::extracted_intermediates;
use crate::llzk::extract::extracted_outputs;
use crate::llzk::extract::num_vars;
use crate::llzk::extract::uses_legacy_query2_write_input;
use crate::llzk::extract::ExtractedVariable;
use crate::llzk::hook_laws;
use crate::llzk::lowering;
use crate::llzk::module;
use crate::llzk::module::ModuleEnv;
use crate::llzk::module::StructDef;
use crate::llzk::ssa::ColumnAddress;
use crate::llzk::ssa::RawExpression;
use crate::llzk::ssa::TableIndex;
use crate::llzk::success_laws;
use crate::llzk::vars;
use crate::llzk::witness;
use crate::llzk::witness::WitnessComputation;

verus! {

/// A synthesized circuit: the circuit, where its variables and lookups stand when it is compiled, and
/// the program that computes its witness.
pub struct CircuitSynthesis {
    pub circuit_output: CircuitOutput,
    pub variable_mapping: HashMap<u64, ColumnAddress>,
    pub lookup_tables: Vec<TableIndex>,
    pub ssa: Vec<Vec<RawExpression>>,
}

/// A generated circuit: the module, the passes that are run over it, and where the result goes.
#[derive(Debug)]
pub struct GeneratedCircuit {
    pub module: ModuleEnv,
    pub passes: Vec<Pass>,
    pub destination: Destination,
}

/// Whether a program is the one of a synthesized circuit, with placeholders carried by the variables
/// of its substitutions and of its queries.
pub open spec fn is_witness_of(w: WitnessComputation, s: CircuitSynthesis) -> bool {
    &&& w.mapping() == s.variable_mapping@
    &&& w.tables() == s.lookup_tables@
    &&& w.ids() == s.circuit_output.table_ids
    &&& w.blocks() == s.ssa@
    &&& forall|p: Placeholder, i: usize| #[trigger]
        lowering::substituted(w.placeholder_variables(), p, i) == (match lowering::substituted(
            s.circuit_output.substitutions@,
            p,
            i,
        ) {
            Some(v) => Some(v),
            None => aliases::alias_of(s.circuit_output.shuffle_ram_queries@, p, i),
        })
}

/// Whether a circuit can be generated under a name and with a layout.
pub open spec fn generable(name: Seq<char>, layout: LlzkStructLayout, s: CircuitSynthesis) -> bool {
    let legacy = extract::legacy_circuit(name);
    &&& layout != LlzkStructLayout::Product
    &&& layout != LlzkStructLayout::ComputeOnly ==> codegen::supported(s.circuit_output)
    &&& s.circuit_output.executor_machine_state is Some ==> {
        &&& codegen::complete(s.circuit_output, legacy)
        &&& layout != LlzkStructLayout::ConstrainOnly ==> forall|b: int, i: int|
            0 <= b < s.ssa@.len() && 0 <= i < s.ssa@[b]@.len() ==> witness::write_has_place(
                #[trigger] s.ssa@[b]@[i],
                codegen::members_of(s.circuit_output, legacy),
                s.variable_mapping@,
            )
    }
}

/// Whether a result is that of generating a circuit with a program.
pub open spec fn is_generated(
    r: Result<GeneratedCircuit, LlzkError>,
    name: Seq<char>,
    format: OutputFormat,
    opt_level: OptLevel,
    layout: LlzkStructLayout,
    co: CircuitOutput,
    w: WitnessComputation,
) -> bool {
    match (r, codegen::emission(name, layout, co, Some(w))) {
        (Ok(g), Ok(compute_effects)) => {
            &&& g.module.structs@.len() == 1
            &&& codegen::is_emitted(g.module.structs@[0], name, layout, co, compute_effects)
            &&& module::decl_views(g.module.functions@) == (
            if layout == LlzkStructLayout::ConstrainOnly {
                Seq::empty()
            } else {
                witness::with_hooks(g.module.structs@, Seq::empty(), 8)
            })
            &&& g.passes@ == config::cleanup_passes(opt_level) + config::conversion_passes(format)
        },
        (Err(e), Err(x)) => e == x,
        _ => false,
    }
}

fn is_supported(co: &CircuitOutput) -> (r: bool)
    ensures
        r == codegen::supported(*co),
{
    for i in 0..co.range_check_expressions.len()
        invariant
            forall|j: int|
                0 <= j < i ==> (#[trigger] co.range_check_expressions@[j]).input is Variable
                    && co.range_check_expressions@[j].width < 64,
    {
        let check = &co.range_check_expressions[i];
        let plain = match &check.input {
            LookupInput::Variable(_) => true,
            LookupInput::Expression { .. } => false,
        };
        if !plain || check.width >= 64 {
            return false;
        }
    }
    for i in 0..co.lookups.len()
        invariant
            forall|j: int|
                0 <= j < i ==> ((#[trigger] co.lookups@[j]).table matches LookupQueryTableType::Constant(
                    t,
                ) ==> !(t is Other)),
    {
        let known = match &co.lookups[i].table {
            LookupQueryTableType::Constant(TableType::Other(_)) => false,
            _ => true,
        };
        if !known {
            return false;
        }
    }
    true
}

fn any_contains(xs: &Vec<ExtractedVariable>, v: Variable) -> (r: bool)
    ensures
        r == extract::some_holds(xs@, v),
{
    for i in 0..xs.len()
        invariant
            forall|j: int| 0 <= j < i ==> !extract::holds(#[trigger] xs@[j], v),
    {
        if xs[i].contains(&v) {
            return true;
        }
    }
    false
}

proof fn lemma_members(
    base: Map<u64, (Seq<char>, Option<u64>)>,
    xs: Seq<ExtractedVariable>,
    is_output: bool,
    v: Variable,
)
    ensures
        vars::member_slots(base, xs, is_output).contains_key(v.0) <==> base.contains_key(v.0)
            || extract::some_holds(xs, v),
    decreases xs.len(),
{
    if xs.len() > 0 {
        let front = xs.drop_last();
        lemma_members(base, front, is_output, v);
        if extract::some_holds(front, v) {
            let i = choose|i: int| 0 <= i < front.len() && extract::holds(#[trigger] front[i], v);
            assert(extract::holds(xs[i], v));
        }
        if extract::holds(xs.last(), v) {
            assert(extract::holds(xs[xs.len() - 1], v));
        }
        if extract::some_holds(xs, v) {
            let i = choose|i: int| 0 <= i < xs.len() && extract::holds(#[trigger] xs[i], v);
            if i < front.len() {
                assert(extract::holds(front[i], v));
            }
        }
    }
}

fn write_is_placed(
    e: &RawExpression,
    mapping: &HashMap<u64, ColumnAddress>,
    outputs: &Vec<ExtractedVariable>,
    intermediates: &Vec<ExtractedVariable>,
) -> (r: bool)
    ensures
        r == witness::write_has_place(
            *e,
            vars::member_slots(
                vars::member_slots(Map::empty(), outputs@, true),
                intermediates@,
                false,
            ),
            mapping@,
        ),
{
    match e {
        RawExpression::WriteVariable { into_variable, .. } => {
            let v = *into_variable;
            proof {
                lemma_members(Map::empty(), outputs@, true, v);
                lemma_members(
                    vars::member_slots(Map::empty(), outputs@, true),
                    intermediates@,
                    false,
                    v,
                );
            }
            mapping.contains_key(&v.0) || any_contains(outputs, v) || any_contains(
                intermediates,
                v,
            )
        },
        _ => true,
    }
}

/// Whether a circuit can be generated under a name and with a layout.
pub fn can_generate(name: &str, layout: LlzkStructLayout, synthesis: &CircuitSynthesis) -> (r: bool)
    ensures
        r == generable(name@, layout, *synthesis),
{
    let co = &synthesis.circuit_output;
    if layout == LlzkStructLayout::Product {
        return false;
    }
    if layout != LlzkStructLayout::ComputeOnly && !is_supported(co) {
        return false;
    }
    let legacy = uses_legacy_query2_write_input(name);
    let (inputs, outputs, intermediates) = match (
        extracted_inputs(co, legacy),
        extracted_outputs(co, legacy),
        extracted_intermediates(co, legacy),
    ) {
        (Ok(a), Ok(b), Ok(c)) => (a, b, c),
        _ => {
            return true;
        },
    };
    proof {
        let state = co.executor_machine_state->0;
        let queries = co.shuffle_ram_queries@;
        extract::sorted_forms_are_unique(
            inputs@,
            codegen::inputs_of(*co, legacy),
            extract::input_list(state, queries, legacy),
        );
        extract::sorted_forms_are_unique(
            outputs@,
            codegen::outputs_of(*co, legacy),
            extract::output_list(state, queries, legacy),
        );
    }
    let total: u128 = num_vars(&inputs) + num_vars(&outputs) + num_vars(&intermediates);
    if total != co.num_of_variables as u128 {
        return false;
    }
    if layout == LlzkStructLayout::ConstrainOnly {
        return true;
    }
    let ghost members = codegen::members_of(*co, legacy);
    for b in 0..synthesis.ssa.len()
        invariant
            layout != LlzkStructLayout::ConstrainOnly,
            members == vars::member_slots(
                vars::member_slots(Map::empty(), outputs@, true),
                intermediates@,
                false,
            ),
            members == codegen::members_of(synthesis.circuit_output, legacy),
            legacy == extract::legacy_circuit(name@),
            synthesis.circuit_output.executor_machine_state is Some,
            forall|c: int, i: int|
                0 <= c < b && 0 <= i < synthesis.ssa@[c]@.len() ==> witness::write_has_place(
                    #[trigger] synthesis.ssa@[c]@[i],
                    members,
                    synthesis.variable_mapping@,
                ),
    {
        let block = &synthesis.ssa[b];
        for i in 0..block.len()
            invariant
                layout != LlzkStructLayout::ConstrainOnly,
                0 <= b < synthesis.ssa@.len(),
                *block == synthesis.ssa@[b as int],
                members == vars::member_slots(
                    vars::member_slots(Map::empty(), outputs@, true),
                    intermediates@,
                    false,
                ),
                members == codegen::members_of(synthesis.circuit_output, legacy),
                legacy == extract::legacy_circuit(name@),
                synthesis.circuit_output.executor_machine_state is Some,
                forall|j: int|
                    0 <= j < i ==> witness::write_has_place(
                        #[trigger] synthesis.ssa@[b as int]@[j],
                        members,
                        synthesis.variable_mapping@,
                    ),
        {
            let placed = write_is_placed(
                &block[i],
                &synthesis.variable_mapping,
                &outputs,
                &intermediates,
            );
            if !placed {
                assert(!witness::write_has_place(
                    synthesis.ssa@[b as int]@[i as int],
                    members,
                    synthesis.variable_mapping@,
                ));
                return false;
            }
        }
    }
    true
}

/// Builds a circuit from its synthesis, and lists what remains to be done with it.
pub fn generate_circuit_command(
    name: &str,
    output: &str,
    format: OutputFormat,
    opt_level: OptLevel,
    layout: LlzkStructLayout,
    synthesis: CircuitSynthesis,
) -> (r: Result<GeneratedCircuit, LlzkError>)
    requires
        generable(name@, layout, synthesis),
    ensures
        exists|w: WitnessComputation|
            #![trigger is_witness_of(w, synthesis)]
            is_witness_of(w, synthesis) && is_generated(
                r,
                name@,
                format,
                opt_level,
                layout,
                synthesis.circuit_output,
                w,
            ),
        r matches Ok(g) ==> config::goes_to(g.destination, output@, format, name@),
{
    let ghost s = synthesis;
    let substitutions = merge_llzk_placeholder_aliases(&synthesis.circuit_output);
    let table_ids = synthesis.circuit_output.table_ids;
    let program = WitnessComputation::new(
        synthesis.variable_mapping,
        synthesis.lookup_tables,
        table_ids,
        synthesis.ssa,
        substitutions,
    );
    let ghost w = program;
    assert(is_witness_of(w, s));
    let mut env = ModuleEnv::new();
    let bundle = match CircuitBundle::new(name, layout, synthesis.circuit_output, Some(program)) {
        Ok(bundle) => bundle,
        Err(e) => {
            return Err(e);
        },
    };
    assert(s.circuit_output.executor_machine_state is Some && layout
        != LlzkStructLayout::ConstrainOnly ==> w.writes_have_places(
        codegen::members_of(s.circuit_output, extract::legacy_circuit(name@)),
    ));
    assert(env.structs@ =~= Seq::<StructDef>::empty());
    assert(module::decl_views(env.functions@) =~= Seq::empty());
    match bundle.emit_llzk(&mut env) {
        Ok(()) => {},
        Err(e) => {
            assert(is_generated(
                Err(e),
                name@,
                format,
                opt_level,
                layout,
                s.circuit_output,
                w,
            ));
            return Err(e);
        },
    }
    let r = GeneratedCircuit {
        module: env,
        passes: optimizer_pipeline(format, opt_level),
        destination: destination(output, format, name),
    };
    assert(is_generated(Ok(r), name@, format, opt_level, layout, s.circuit_output, w));
    Ok(r)
}

/// Generates the circuit of the add/sub/lui/auipc/mop family.
pub fn gen_add_sub_lui_auipc_mop(
    output: &str,
    format: OutputFormat,
    opt_level: OptLevel,
    layout: LlzkStructLayout,
    synthesis: CircuitSynthesis,
) -> (r: Result<GeneratedCircuit, LlzkError>)
    requires
        generable("add_sub_lui_auipc_mop"@, layout, synthesis),
    ensures
        exists|w: WitnessComputation|
            #![trigger is_witness_of(w, synthesis)]
            is_witness_of(w, synthesis) && is_generated(
                r,
                "add_sub_lui_auipc_mop"@,
                format,
                opt_level,
                layout,
                synthesis.circuit_output,
                w,
            ),
        r matches Ok(g) ==> config::goes_to(g.destination, output@, format, "add_sub_lui_auipc_mop"@),
{
    generate_circuit_command(
        "add_sub_lui_auipc_mop",
        output,
        format,
        opt_level,
        layout,
        synthesis,
    )
}

/// Generates the circuit of the jump/branch/slt family.
pub fn gen_jump_branch_slt(
    output: &str,
    format: OutputFormat,
    opt_level: OptLevel,
    layout: LlzkStructLayout,
    synthesis: CircuitSynthesis,
) -> (r: Result<GeneratedCircuit, LlzkError>)
    requires
        generable("jump_branch_slt"@, layout, synthesis),
    ensures
        exists|w: WitnessComputation|
            #![trigger is_witness_of(w, synthesis)]
            is_witness_of(w, synthesis) && is_generated(
                r,
                "jump_branch_slt"@,
                format,
                opt_level,
                layout,
                synthesis.circuit_output,
                w,
            ),
        r matches Ok(g) ==> config::goes_to(g.destination, output@, format, "jump_branch_slt"@),
{
    generate_circuit_command("jump_branch_slt", output, format, opt_level, layout, synthesis)
}

/// Generates the circuit of the subword load/store family.
pub fn gen_load_store_subword_only(
    output: &str,
    format: OutputFormat,
    opt_level: OptLevel,
    layout: LlzkStructLayout,
    synthesis: CircuitSynthesis,
) -> (r: Result<GeneratedCircuit, LlzkError>)
    requires
        generable("load_store_subword_only"@, layout, synthesis),
    ensures
        exists|w: WitnessComputation|
            #![trigger is_witness_of(w, synthesis)]
            is_witness_of(w, synthesis) && is_generated(
                r,
                "load_store_subword_only"@,
                format,
                opt_level,
                layout,
                synthesis.circuit_output,
                w,
            ),
        r matches Ok(g) ==> config::goes_to(g.destination, output@, format, "load_store_subword_only"@),
{
    generate_circuit_command(
        "load_store_subword_only",
        output,
        format,
        opt_level,
        layout,
        synthesis,
    )
}

/// A generated module holds one struct, which is named after the circuit; it declares just the
/// functions of the runtime that it calls, or none where it only constrains; and it is converted where
/// its format asks for that.
pub proof fn generated_modules_hold_their_circuit(
    g: GeneratedCircuit,
    name: Seq<char>,
    format: OutputFormat,
    opt_level: OptLevel,
    layout: LlzkStructLayout,
    co: CircuitOutput,
    w: WitnessComputation,
    function: Seq<char>,
)
    requires
        is_generated(Ok(g), name, format, opt_level, layout, co, w),
        hook_laws::is_runtime_name(function),
    ensures
        g.module.structs@.len() == 1,
        g.module.structs@[0].name@ == name,
        co.executor_machine_state is Some,
        layout == LlzkStructLayout::ConstrainOnly ==> g.module.functions@.len() == 0,
        layout != LlzkStructLayout::ConstrainOnly ==> (module::decl_views(
            g.module.functions@,
        ).contains(hook_laws::runtime_function(function)) <==> module::module_calls(
            g.module.structs@,
            function,
        )),
        format is Llzk <==> !g.passes@.contains(Pass::PclLowering),
        !(format is Llzk) ==> g.passes@.last() == Pass::PclLowering,
        format is Llzk && opt_level is O0 ==> g.passes@.len() == 0,
{
    hook_laws::called_functions_are_declared(g.module.structs@, function);
    config::conversions_come_last(format, opt_level, g.passes@);
    if layout == LlzkStructLayout::ConstrainOnly {
        assert(module::decl_views(g.module.functions@).len() == g.module.functions@.len());
    }
}

/// The program of a circuit is that of its synthesis, with its columns, its lookups and the numbers of
/// its tables, and the placeholders are carried by the variables that the circuit provides for them.
pub proof fn programs_are_those_of_the_synthesis(
    w: WitnessComputation,
    s: CircuitSynthesis,
    p: Placeholder,
    limb: usize,
    legacy: bool,
)
    requires
        is_witness_of(w, s),
    ensures
        ({
            let sc = codegen::compute_scope(w, s.circuit_output, legacy);
            &&& w.blocks() == s.ssa@
            &&& sc.mapping == s.variable_mapping@
            &&& sc.lookup_tables == s.lookup_tables@
            &&& sc.ids == s.circuit_output.table_ids
            &&& sc.args_map == vars::arg_slots(codegen::inputs_of(s.circuit_output, legacy))
            &&& sc.members == codegen::members_of(s.circuit_output, legacy)
            &&& sc.args == codegen::argument_types(s.circuit_output, legacy)
            &&& lowering::substituted(sc.substitutions, p, limb) == aliases::merged_alias(
                s.circuit_output,
                p,
                limb,
            )
        }),
{
    assert(lowering::substituted(w.placeholder_variables(), p, limb) == aliases::merged_alias(
        s.circuit_output,
        p,
        limb,
    ));
}

/// A circuit with a machine state is generated wherever it asks for nothing but its own variables and
/// its program is made of steps that can be lowered: no other error comes up.
pub proof fn well_formed_circuits_are_generated(
    r: Result<GeneratedCircuit, LlzkError>,
    name: Seq<char>,
    format: OutputFormat,
    opt_level: OptLevel,
    layout: LlzkStructLayout,
    co: CircuitOutput,
    w: WitnessComputation,
)
    requires
        is_generated(r, name, format, opt_level, layout, co, w),
        co.executor_machine_state is Some,
        success_laws::is_well_formed(co),
        codegen::inputs_of(co, extract::legacy_circuit(name)).len() <= usize::MAX,
        forall|v: u64| #[trigger]
            w.mapping().contains_key(v) ==> (w.mapping()[v] matches ColumnAddress::MemorySubtree(
                offset,
            ) ==> offset <= i64::MAX),
        forall|b: int|
            0 <= b < w.blocks().len() ==> success_laws::block_kinds(
                (lowering::ComputeScope {
                    block: (#[trigger] w.blocks()[b])@,
                    ..codegen::compute_scope(w, co, extract::legacy_circuit(name))
                }),
                w.blocks()[b]@.len(),
            ) is Some,
    ensures
        r is Ok,
{
    success_laws::circuits_are_emitted(name, layout, co, w);
}

/// Product structs are not generated; a circuit without a machine state can be tried, and fails; and a
/// circuit whose range checks are on variables and narrow, whose lookups are in known tables and whose
/// variables are all extracted can be generated without its program.
pub proof fn generable_circuits(name: Seq<char>, s: CircuitSynthesis)
    ensures
        !generable(name, LlzkStructLayout::Product, s),
        generable(name, LlzkStructLayout::ComputeConstrain, s) ==> generable(
            name,
            LlzkStructLayout::ConstrainOnly,
            s,
        ) && generable(name, LlzkStructLayout::ComputeOnly, s),
        generable(name, LlzkStructLayout::ConstrainOnly, s) && generable(
            name,
            LlzkStructLayout::ComputeOnly,
            s,
        ) ==> generable(name, LlzkStructLayout::ComputeConstrain, s),
        s.circuit_output.executor_machine_state is None ==> generable(
            name,
            LlzkStructLayout::ComputeOnly,
            s,
        ),
        s.circuit_output.range_check_expressions@.len() == 0 && s.circuit_output.lookups@.len() == 0
            && codegen::complete(s.circuit_output, extract::legacy_circuit(name)) ==> generable(
            name,
            LlzkStructLayout::ConstrainOnly,
            s,
        ),
{
}

} // verus!
