//! The opcode families as circuits and as programs.
use vstd::prelude::*;
use vstd::string::StringExecFns;

use crate::circuit::CircuitOutput;
use crate::circuit::OpcodeFamilyCircuitState;
use crate::circuit::Variable;
use crate::circuit::CHARACTERISTICS;
use crate::picus::ir::PicusProgram;
use crate::picus::translate;
use crate::picus::translate::circuit_output_to_picus_program;

verus! {

/// A synthesized opcode family: its circuit, the machine state around it, and the variables of the
/// decoded mask, one for each bit.
pub struct FamilySynthesis {
    pub circuit_output: CircuitOutput,
    pub state: OpcodeFamilyCircuitState,
    pub decoded_mask_bits: Vec<Variable>,
}

/// The numbers of variables.
pub open spec fn numbers(vs: Seq<Variable>) -> Seq<usize> {
    vs.map_values(|v: Variable| v.0 as usize)
}

fn variable_numbers(vs: &Vec<Variable>) -> (r: Vec<usize>)
    ensures
        r@ == numbers(vs@),
{
    let mut out: Vec<usize> = Vec::new();
    for i in 0..vs.len()
        invariant
            out@ == numbers(vs@.take(i as int)),
    {
        out.push(vs[i].0 as usize);
        assert(out@ =~= numbers(vs@.take(i + 1)));
    }
    assert(vs@.take(vs@.len() as int) =~= vs@);
    out
}

/// The circuit of the add/sub/lui/auipc/mop family.
pub fn build_add_sub_lui_auipc_mop_circuit_output(synthesis: FamilySynthesis) -> (r: CircuitOutput)
    ensures
        r == synthesis.circuit_output,
{
    synthesis.circuit_output
}

/// The circuit of the add/sub/lui/auipc/mop family, its machine state, and the numbers of its
/// decoded bits.
pub fn build_add_sub_lui_auipc_mop_circuit_output_with_decoded_bits(
    synthesis: FamilySynthesis,
) -> (r: (CircuitOutput, OpcodeFamilyCircuitState, Vec<usize>))
    ensures
        r.0 == synthesis.circuit_output,
        r.1 == synthesis.state,
        r.2@ == numbers(synthesis.decoded_mask_bits@),
{
    let bits = variable_numbers(&synthesis.decoded_mask_bits);
    (synthesis.circuit_output, synthesis.state, bits)
}

/// The circuit of the jump/branch/slt family, its machine state, and the numbers of its decoded
/// bits.
pub fn build_jump_branch_slt_mop_circuit_output_with_decoded_bits(synthesis: FamilySynthesis) -> (r:
    (CircuitOutput, OpcodeFamilyCircuitState, Vec<usize>))
    ensures
        r.0 == synthesis.circuit_output,
        r.1 == synthesis.state,
        r.2@ == numbers(synthesis.decoded_mask_bits@),
{
    let bits = variable_numbers(&synthesis.decoded_mask_bits);
    (synthesis.circuit_output, synthesis.state, bits)
}

/// The circuit of the subword load/store family, its machine state, and the numbers of its decoded
/// bits.
pub fn build_load_store_subword_only_circuit_output_with_decoded_bits(
    synthesis: FamilySynthesis,
) -> (r: (CircuitOutput, OpcodeFamilyCircuitState, Vec<usize>))
    ensures
        r.0 == synthesis.circuit_output,
        r.1 == synthesis.state,
        r.2@ == numbers(synthesis.decoded_mask_bits@),
{
    let bits = variable_numbers(&synthesis.decoded_mask_bits);
    (synthesis.circuit_output, synthesis.state, bits)
}

/// The program of the add/sub/lui/auipc/mop family: one module for each decoded bit, with that bit
/// set and the others clear, or for a single bit one module for each of its values.
pub fn build_add_sub_lui_auipc_mop_picus_program(synthesis: FamilySynthesis) -> (program:
    PicusProgram)
    requires
        synthesis.circuit_output.num_of_variables + translate::circuit_fresh(
            synthesis.circuit_output,
        ) <= usize::MAX,
        forall|i: int|
            0 <= i < synthesis.circuit_output.range_check_expressions@.len() ==> ((
            #[trigger] synthesis.circuit_output.range_check_expressions@[i]).width as u32) < 64,
    ensures
        program.prime == CHARACTERISTICS,
        program.modules@.len() == translate::specializations(
            numbers(synthesis.decoded_mask_bits@),
        ).len(),
        forall|i: int|
            0 <= i < program.modules@.len() ==> {
                &&& (#[trigger] program.modules@[i]).name@ == translate::specialized_name(
                    "add_sub_lui_auipc_mop"@,
                    i,
                )
                &&& translate::is_specialized_circuit(
                    program.modules@[i],
                    synthesis.circuit_output,
                    Some(synthesis.state),
                    translate::specializations(numbers(synthesis.decoded_mask_bits@))[i],
                )
            },
        translate::is_program_of(
            program,
            "add_sub_lui_auipc_mop"@,
            synthesis.circuit_output,
            Some(synthesis.state),
            Some(numbers(synthesis.decoded_mask_bits@)),
        ),
{
    let (circuit_output, state, bits) =
        build_add_sub_lui_auipc_mop_circuit_output_with_decoded_bits(synthesis);
    circuit_output_to_picus_program(
        String::from_str("add_sub_lui_auipc_mop"),
        &circuit_output,
        Some(&state),
        Some(bits.as_slice()),
    )
}

/// The decoded bits keep their order and their numbers.
pub proof fn decoded_bits_keep_their_numbers(vs: Seq<Variable>, i: int)
    requires
        0 <= i < vs.len(),
        vs[i].0 <= usize::MAX,
    ensures
        numbers(vs).len() == vs.len(),
        numbers(vs)[i] == vs[i].0,
{
}

} // verus!
