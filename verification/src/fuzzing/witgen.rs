//! Fuzzing of the witness generation.
use rand::Rng;
use rand::rngs::SmallRng;
use vstd::prelude::*;

use crate::circuit::Variable;
use crate::fuzzing::inputs::ExecutorFamilyDecoderData;

verus! {

/// The tables have fewer rows than this.
pub const MAX_TABLE_LEN: u32 = 100;

/// The circuits whose witness generation is fuzzed.
#[derive(Clone, Copy, Debug, PartialEq, Eq, Structural)]
pub enum Circuits {
    AddSubLuiAuipcMop,
}

/// The small random number generator of the `rand` crate. Nothing is known of its state.
#[verifier::external_type_specification]
#[verifier::external_body]
pub struct ExSmallRng(SmallRng);

/// Calls `rand::make_rng`, which seeds a generator from the system. What it will draw depends on
/// chance.
#[verifier::external_body]
fn make_rng() -> (r: SmallRng) {
    rand::make_rng()
}

/// Calls `rand::Rng::next_u32`. What is drawn depends on chance.
#[verifier::external_body]
fn next_u32(rng: &mut SmallRng) -> (r: u32) {
    rng.next_u32()
}

/// A circuit whose witness generation is fuzzed.
pub trait FuzzTarget {
    /// A random decoded instruction of the circuit.
    fn random_decoder_data(&self, rng: &mut SmallRng) -> (r: ExecutorFamilyDecoderData);
}

/// The inputs that a witness is generated from.
#[derive(Debug)]
pub struct WitnessInputs {
    pub preprocessed_decoder_table: Vec<ExecutorFamilyDecoderData>,
    /// Program counters are drawn below this.
    pub pc_mod: u32,
}

/// The number of rows for a draw.
pub fn table_len(draw: u32) -> (r: u32)
    ensures
        r == draw % MAX_TABLE_LEN,
{
    draw % MAX_TABLE_LEN
}

/// The inputs with a table: program counters are drawn among its rows.
pub fn with_table(preprocessed_decoder_table: Vec<ExecutorFamilyDecoderData>) -> (r: WitnessInputs)
    requires
        preprocessed_decoder_table@.len() <= u32::MAX,
    ensures
        r.preprocessed_decoder_table == preprocessed_decoder_table,
        r.pc_mod == preprocessed_decoder_table@.len(),
{
    let pc_mod = preprocessed_decoder_table.len() as u32;
    WitnessInputs { preprocessed_decoder_table, pc_mod }
}

/// A table of so many random rows.
pub fn fill_table<T: FuzzTarget>(target: &T, rng: &mut SmallRng, len: u32) -> (r: Vec<
    ExecutorFamilyDecoderData,
>)
    ensures
        r@.len() == len,
{
    let mut table: Vec<ExecutorFamilyDecoderData> = Vec::new();
    for i in 0..len
        invariant
            table@.len() == i,
    {
        table.push(target.random_decoder_data(rng));
    }
    table
}

/// The inputs for a drawn number, which decides how many rows there are.
pub fn drawn_inputs<T: FuzzTarget>(target: &T, rng: &mut SmallRng, draw: u32) -> (r: WitnessInputs)
    ensures
        r.preprocessed_decoder_table@.len() == draw % MAX_TABLE_LEN,
        r.pc_mod == draw % MAX_TABLE_LEN,
{
    with_table(fill_table(target, rng, table_len(draw)))
}

/// Random inputs for a circuit.
pub fn populate_inputs<T: FuzzTarget>(target: &T) -> (r: WitnessInputs)
    ensures
        r.pc_mod == r.preprocessed_decoder_table@.len(),
        r.pc_mod < MAX_TABLE_LEN,
{
    let mut rng = make_rng();
    let draw: u32 = next_u32(&mut rng);
    drawn_inputs(target, &mut rng, draw)
}

/// The inputs for a run on a circuit.
pub fn run<T: FuzzTarget>(circuit: Circuits, target: &T) -> (r: WitnessInputs)
    ensures
        r.pc_mod == r.preprocessed_decoder_table@.len(),
        r.pc_mod < MAX_TABLE_LEN,
{
    match circuit {
        Circuits::AddSubLuiAuipcMop => populate_inputs(target),
    }
}

/// The variables of a circuit.
pub fn variables(num_of_variables: usize) -> (r: Vec<Variable>)
    ensures
        r@ == Seq::new(num_of_variables as nat, |i: int| Variable(i as u64)),
{
    let mut out: Vec<Variable> = Vec::new();
    for i in 0..num_of_variables
        invariant
            out@ == Seq::new(i as nat, |i: int| Variable(i as u64)),
    {
        out.push(Variable(i as u64));
        assert(out@ =~= Seq::new((i + 1) as nat, |i: int| Variable(i as u64)));
    }
    out
}

} // verus!
