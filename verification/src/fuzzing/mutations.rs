//! Mutations of proof inputs.
use rand::rngs::StdRng;
use vstd::prelude::*;
use vstd::string::StringExecFns;

use crate::circuit::CHARACTERISTICS;
use crate::fuzzing::circuits::CircuitKind;
use crate::fuzzing::inputs::MemoryOpcodeTracingDataWithTimestamp;
use crate::fuzzing::inputs::NonMemoryOpcodeTracingDataWithTimestamp;
use crate::fuzzing::inputs::ProofInputs;
use crate::fuzzing::inputs::ProofInputsView;
use crate::fuzzing::inputs::StoredProofInputs;
use crate::fuzzing::inputs::StoredProofInputsView;
use crate::fuzzing::inputs::TraceRow;
use crate::fuzzing::rng::choose_distinct_indices;
use crate::fuzzing::rng::choose_index;
use crate::fuzzing::rng::choose_item;
use crate::fuzzing::rng::choose_position;
use crate::fuzzing::seeds::SeedCase;

verus! {

/// How often a mutation is tried again when it changes nothing.
pub const MAX_ATTEMPTS: usize = 1000;

/// The seed and circuit that a mutation was derived from.
#[derive(Debug)]
pub struct SeedCaseRef {
    /// Name of the seed program used as the mutation base.
    pub seed_program: String,
    /// Circuit family targeted by the mutated input.
    pub circuit: CircuitKind,
}

/// What was done to an input.
#[derive(Debug)]
pub struct MutationRecord {
    pub summary: String,
}

/// An input together with where it came from.
#[derive(Debug)]
pub struct MutatedInput {
    pub original: SeedCaseRef,
    pub mutated_input: StoredProofInputs,
    pub mutations: Vec<MutationRecord>,
}

impl MutatedInput {
    /// Whether this is an input derived from a seed by the named mutation.
    pub open spec fn derived(self, seed: SeedCase, descr: Seq<char>) -> bool {
        &&& self.original.seed_program@ == seed.seed_program@
        &&& self.original.circuit == seed.circuit
        &&& self.mutations@.len() == 1
        &&& self.mutations@[0].summary@ == descr
    }

    /// An input derived from a seed by the named mutation.
    pub fn new(seed: &SeedCase, mutated_input: StoredProofInputs, descr: &str) -> (r: MutatedInput)
        ensures
            r.derived(*seed, descr@),
            r.mutated_input == mutated_input,
    {
        let mut mutations: Vec<MutationRecord> = Vec::new();
        mutations.push(MutationRecord { summary: String::from_str(descr) });
        MutatedInput {
            original: SeedCaseRef {
                seed_program: seed.seed_program.clone(),
                circuit: seed.circuit,
            },
            mutated_input,
            mutations,
        }
    }

    /// Whether the input differs from the one of a seed.
    pub fn differs_from(&self, seed: &SeedCase) -> (r: bool)
        ensures
            r == (self.mutated_input@ != seed.base_input@),
    {
        !self.mutated_input.same(&seed.base_input)
    }
}

/// The inputs with one row of the trace overwritten by another.
pub open spec fn with_row_duplicated<T>(p: ProofInputsView<T>, src: int, dst: int) -> ProofInputsView<
    T,
> {
    ProofInputsView { buffer: p.buffer.update(dst, p.buffer[src]), ..p }
}

/// The inputs with a copy of one row of the trace inserted.
pub open spec fn with_row_inserted<T>(p: ProofInputsView<T>, src: int, dst: int) -> ProofInputsView<
    T,
> {
    ProofInputsView { buffer: p.buffer.insert(dst, p.buffer[src]), ..p }
}

/// The inputs with two rows of the decoder table exchanged.
pub open spec fn with_rows_swapped<T>(p: ProofInputsView<T>, a: int, b: int) -> ProofInputsView<T> {
    let table = p.decoder_table_data;
    ProofInputsView { decoder_table_data: table.update(a, table[b]).update(b, table[a]), ..p }
}

/// Whether two inputs are equal but for one cell of the decoder table, which holds the value.
pub open spec fn cell_replaced<T>(
    before: ProofInputsView<T>,
    after: ProofInputsView<T>,
    row: int,
    column: int,
    value: u32,
) -> bool {
    &&& after == ProofInputsView { decoder_table_data: after.decoder_table_data, ..before }
    &&& after.decoder_table_data == before.decoder_table_data.update(
        row,
        after.decoder_table_data[row],
    )
    &&& after.decoder_table_data[row]@ == before.decoder_table_data[row]@.update(column, value)
}

/// What a mutator does.
pub enum Mutation {
    Keep,
    DuplicateRow,
    InsertCloneRow,
    ReplaceTableCell,
    SwapTableRows,
}

/// The name of a mutation.
pub open spec fn mutation_name(m: Mutation) -> Seq<char> {
    match m {
        Mutation::Keep => "no-op mutator"@,
        Mutation::DuplicateRow => "buffer duplicate row mutator"@,
        Mutation::InsertCloneRow => "buffer insert clone row mutator"@,
        Mutation::ReplaceTableCell => "preprocessed table cell mutator"@,
        Mutation::SwapTableRows => "preprocessed table row swap mutator"@,
    }
}

/// What inputs can become under a mutation: they stay where there is too little to change.
pub open spec fn allows<T>(m: Mutation, before: ProofInputsView<T>, after: ProofInputsView<T>) -> bool {
    match m {
        Mutation::Keep => {
            after == before
        },
        Mutation::DuplicateRow => {
            if before.buffer.len() < 2 {
                after == before
            } else {
                exists|src: int, dst: int|
                    0 <= src < before.buffer.len() && 0 <= dst < before.buffer.len() && src != dst
                        && after == #[trigger] with_row_duplicated(before, src, dst)
            }
        },
        Mutation::InsertCloneRow => {
            if before.buffer.len() == 0 {
                after == before
            } else {
                exists|src: int, dst: int|
                    0 <= src < before.buffer.len() && 0 <= dst <= before.buffer.len() && after
                        == #[trigger] with_row_inserted(before, src, dst)
            }
        },
        Mutation::ReplaceTableCell => {
            if before.decoder_table_data.len() == 0 {
                after == before
            } else {
                exists|row: int, column: int, value: u32|
                    0 <= row < before.decoder_table_data.len() && 0 <= column < 10 && value
                        < CHARACTERISTICS && #[trigger] cell_replaced(before, after, row, column, value)
            }
        },
        Mutation::SwapTableRows => {
            if before.decoder_table_data.len() < 2 {
                after == before
            } else {
                exists|a: int, b: int|
                    0 <= a < before.decoder_table_data.len() && 0 <= b
                        < before.decoder_table_data.len() && a != b && after
                        == #[trigger] with_rows_swapped(before, a, b)
            }
        },
    }
}

/// What stored inputs become when their proof inputs do: the circuits that hold none stay.
pub open spec fn stored_allowed(
    m: Mutation,
    before: StoredProofInputsView,
    after: StoredProofInputsView,
) -> bool {
    match before {
        StoredProofInputsView::NonMemory(k, p) => exists|q|
            after == StoredProofInputsView::NonMemory(k, q) && #[trigger] allows(m, p, q),
        StoredProofInputsView::Memory(k, p, code) => exists|q|
            after == StoredProofInputsView::Memory(k, q, code) && #[trigger] allows(m, p, q),
        StoredProofInputsView::Other(_) => after == before,
    }
}

/// A way to change proof inputs.
pub trait Mutator: Sized {
    /// What the mutator does.
    spec fn mutation(&self) -> Mutation;

    /// The name of the mutation.
    fn name(&self) -> (r: &'static str)
        ensures
            r@ == mutation_name(self.mutation()),
    ;

    /// Changes the inputs of a circuit that touches registers only.
    fn mutate_non_mem_inputs(
        &self,
        input: &mut ProofInputs<NonMemoryOpcodeTracingDataWithTimestamp>,
        rng: &mut StdRng,
    )
        ensures
            allows(self.mutation(), old(input)@, final(input)@),
    ;

    /// Changes the inputs of a circuit that touches the memory.
    fn mutate_mem_inputs(
        &self,
        input: &mut ProofInputs<MemoryOpcodeTracingDataWithTimestamp>,
        rng: &mut StdRng,
    )
        ensures
            allows(self.mutation(), old(input)@, final(input)@),
    ;
}

/// Changes stored inputs.
pub fn mutate_input<M: Mutator>(m: &M, input: &mut StoredProofInputs, rng: &mut StdRng)
    ensures
        stored_allowed(m.mutation(), old(input)@, final(input)@),
{
    let ghost before = input@;
    match input {
        StoredProofInputs::AddSubLuiAuipcMop(proof_inputs) => {
            m.mutate_non_mem_inputs(proof_inputs, rng);
        },
        StoredProofInputs::JumpBranchSlt(proof_inputs) => {
            m.mutate_non_mem_inputs(proof_inputs, rng);
        },
        StoredProofInputs::XorAndOrShiftCsr(proof_inputs) => {
            m.mutate_non_mem_inputs(proof_inputs, rng);
        },
        StoredProofInputs::MulDiv(proof_inputs) => {
            m.mutate_non_mem_inputs(proof_inputs, rng);
        },
        StoredProofInputs::LoadStore(proof_inputs, _) => {
            m.mutate_mem_inputs(proof_inputs, rng);
        },
        StoredProofInputs::SubwordLoadStore(proof_inputs, _) => {
            m.mutate_mem_inputs(proof_inputs, rng);
        },
        StoredProofInputs::InitsAndTeardowns(_) => {},
        StoredProofInputs::BlakeDelegation(_) => {},
        StoredProofInputs::KeccakDelegation(_) => {},
    }
    proof {
        match (before, input@) {
            (
                StoredProofInputsView::NonMemory(_, p),
                StoredProofInputsView::NonMemory(_, q),
            ) => {
                assert(allows(m.mutation(), p, q));
            },
            (
                StoredProofInputsView::Memory(_, p, _),
                StoredProofInputsView::Memory(_, q, _),
            ) => {
                assert(allows(m.mutation(), p, q));
            },
            _ => {},
        }
    }
}

/// A changed copy of the inputs of a seed.
pub fn mutate<M: Mutator>(m: &M, seed_case: &SeedCase, rng: &mut StdRng) -> (r: MutatedInput)
    ensures
        r.derived(*seed_case, mutation_name(m.mutation())),
        stored_allowed(m.mutation(), seed_case.base_input@, r.mutated_input@),
{
    let mut mutated = seed_case.base_input.duplicate();
    mutate_input(m, &mut mutated, rng);
    MutatedInput::new(seed_case, mutated, m.name())
}

/// Overwrites one row of the trace by another.
pub fn duplicate_row<T: TraceRow>(input: &mut ProofInputs<T>, src: usize, dst: usize)
    requires
        src < old(input)@.buffer.len(),
        dst < old(input)@.buffer.len(),
    ensures
        final(input)@ == with_row_duplicated(old(input)@, src as int, dst as int),
{
    let row = input.buffer[src];
    input.buffer.set(dst, row);
}

/// Inserts a copy of one row of the trace.
pub fn insert_clone_row<T: TraceRow>(input: &mut ProofInputs<T>, src: usize, dst: usize)
    requires
        src < old(input)@.buffer.len(),
        dst <= old(input)@.buffer.len(),
    ensures
        final(input)@ == with_row_inserted(old(input)@, src as int, dst as int),
{
    let row = input.buffer[src];
    input.buffer.insert(dst, row);
}

/// Exchanges two rows of the decoder table.
pub fn swap_table_rows<T: TraceRow>(input: &mut ProofInputs<T>, a: usize, b: usize)
    requires
        a < old(input)@.decoder_table_data.len(),
        b < old(input)@.decoder_table_data.len(),
    ensures
        final(input)@ == with_rows_swapped(old(input)@, a as int, b as int),
{
    let first = input.decoder_table_data[a];
    let second = input.decoder_table_data[b];
    input.decoder_table_data.set(a, second);
    input.decoder_table_data.set(b, first);
}

/// Replaces one cell of the decoder table.
pub fn replace_table_cell<T: TraceRow>(
    input: &mut ProofInputs<T>,
    row: usize,
    column: usize,
    value: u32,
)
    requires
        row < old(input)@.decoder_table_data.len(),
        column < 10,
    ensures
        cell_replaced(old(input)@, final(input)@, row as int, column as int, value),
{
    let mut cells = input.decoder_table_data[row];
    cells[column] = value;
    input.decoder_table_data.set(row, cells);
}

/// Leaves the inputs as they are.
#[derive(Clone, Copy, Debug)]
pub struct NoOpMutator;

impl Mutator for NoOpMutator {
    open spec fn mutation(&self) -> Mutation {
        Mutation::Keep
    }

    fn name(&self) -> (r: &'static str) {
        "no-op mutator"
    }

    fn mutate_non_mem_inputs(
        &self,
        input: &mut ProofInputs<NonMemoryOpcodeTracingDataWithTimestamp>,
        rng: &mut StdRng,
    ) {
    }

    fn mutate_mem_inputs(
        &self,
        input: &mut ProofInputs<MemoryOpcodeTracingDataWithTimestamp>,
        rng: &mut StdRng,
    ) {
    }
}

/// Overwrites one row of the trace by another, if there are two.
#[derive(Clone, Copy, Debug)]
pub struct BufferDuplicateRowMutator;

fn duplicate_random_row<T: TraceRow>(input: &mut ProofInputs<T>, rng: &mut StdRng)
    ensures
        allows(Mutation::DuplicateRow, old(input)@, final(input)@),
{
    if let Some((src, dst)) = choose_distinct_indices(input.buffer.len(), rng) {
        duplicate_row(input, src, dst);
    }
}

impl Mutator for BufferDuplicateRowMutator {
    open spec fn mutation(&self) -> Mutation {
        Mutation::DuplicateRow
    }

    fn name(&self) -> (r: &'static str) {
        "buffer duplicate row mutator"
    }

    fn mutate_non_mem_inputs(
        &self,
        input: &mut ProofInputs<NonMemoryOpcodeTracingDataWithTimestamp>,
        rng: &mut StdRng,
    ) {
        duplicate_random_row(input, rng);
    }

    fn mutate_mem_inputs(
        &self,
        input: &mut ProofInputs<MemoryOpcodeTracingDataWithTimestamp>,
        rng: &mut StdRng,
    ) {
        duplicate_random_row(input, rng);
    }
}

/// Inserts a copy of one row of the trace, if there is one.
#[derive(Clone, Copy, Debug)]
pub struct BufferInsertCloneRowMutator;

fn insert_random_clone<T: TraceRow>(input: &mut ProofInputs<T>, rng: &mut StdRng)
    ensures
        allows(Mutation::InsertCloneRow, old(input)@, final(input)@),
{
    if let Some(src) = choose_index(input.buffer.len(), rng) {
        let dst = choose_position(input.buffer.len(), rng);
        insert_clone_row(input, src, dst);
    }
}

impl Mutator for BufferInsertCloneRowMutator {
    open spec fn mutation(&self) -> Mutation {
        Mutation::InsertCloneRow
    }

    fn name(&self) -> (r: &'static str) {
        "buffer insert clone row mutator"
    }

    fn mutate_non_mem_inputs(
        &self,
        input: &mut ProofInputs<NonMemoryOpcodeTracingDataWithTimestamp>,
        rng: &mut StdRng,
    ) {
        insert_random_clone(input, rng);
    }

    fn mutate_mem_inputs(
        &self,
        input: &mut ProofInputs<MemoryOpcodeTracingDataWithTimestamp>,
        rng: &mut StdRng,
    ) {
        insert_random_clone(input, rng);
    }
}

/// Replaces one cell of the decoder table by a residue, if there is a cell.
#[derive(Clone, Copy, Debug)]
pub struct PreprocessedTableCellMutator;

fn mutate_preprocessed_table_cell<T: TraceRow>(input: &mut ProofInputs<T>, rng: &mut StdRng)
    ensures
        allows(Mutation::ReplaceTableCell, old(input)@, final(input)@),
{
    if let Some(row) = choose_index(input.decoder_table_data.len(), rng) {
        let column = choose_position(9, rng);
        let value = choose_position(0x7ffffffe, rng) as u32;
        replace_table_cell(input, row, column, value);
    }
}

impl Mutator for PreprocessedTableCellMutator {
    open spec fn mutation(&self) -> Mutation {
        Mutation::ReplaceTableCell
    }

    fn name(&self) -> (r: &'static str) {
        "preprocessed table cell mutator"
    }

    fn mutate_non_mem_inputs(
        &self,
        input: &mut ProofInputs<NonMemoryOpcodeTracingDataWithTimestamp>,
        rng: &mut StdRng,
    ) {
        mutate_preprocessed_table_cell(input, rng);
    }

    fn mutate_mem_inputs(
        &self,
        input: &mut ProofInputs<MemoryOpcodeTracingDataWithTimestamp>,
        rng: &mut StdRng,
    ) {
        mutate_preprocessed_table_cell(input, rng);
    }
}

/// Exchanges two rows of the decoder table, if there are two.
#[derive(Clone, Copy, Debug)]
pub struct PreprocessedTableRowSwapMutator;

fn swap_random_rows<T: TraceRow>(input: &mut ProofInputs<T>, rng: &mut StdRng)
    ensures
        allows(Mutation::SwapTableRows, old(input)@, final(input)@),
{
    if let Some((a, b)) = choose_distinct_indices(input.decoder_table_data.len(), rng) {
        swap_table_rows(input, a, b);
    }
}

impl Mutator for PreprocessedTableRowSwapMutator {
    open spec fn mutation(&self) -> Mutation {
        Mutation::SwapTableRows
    }

    fn name(&self) -> (r: &'static str) {
        "preprocessed table row swap mutator"
    }

    fn mutate_non_mem_inputs(
        &self,
        input: &mut ProofInputs<NonMemoryOpcodeTracingDataWithTimestamp>,
        rng: &mut StdRng,
    ) {
        swap_random_rows(input, rng);
    }

    fn mutate_mem_inputs(
        &self,
        input: &mut ProofInputs<MemoryOpcodeTracingDataWithTimestamp>,
        rng: &mut StdRng,
    ) {
        swap_random_rows(input, rng);
    }
}

/// One of the mutators.
#[derive(Clone, Copy, Debug)]
pub enum AnyMutator {
    NoOp(NoOpMutator),
    BufferDuplicateRow(BufferDuplicateRowMutator),
    BufferInsertCloneRow(BufferInsertCloneRowMutator),
    PreprocessedTableCell(PreprocessedTableCellMutator),
    PreprocessedTableRowSwap(PreprocessedTableRowSwapMutator),
}

impl Mutator for AnyMutator {
    open spec fn mutation(&self) -> Mutation {
        match self {
            AnyMutator::NoOp(m) => m.mutation(),
            AnyMutator::BufferDuplicateRow(m) => m.mutation(),
            AnyMutator::BufferInsertCloneRow(m) => m.mutation(),
            AnyMutator::PreprocessedTableCell(m) => m.mutation(),
            AnyMutator::PreprocessedTableRowSwap(m) => m.mutation(),
        }
    }

    fn name(&self) -> (r: &'static str) {
        match self {
            AnyMutator::NoOp(m) => m.name(),
            AnyMutator::BufferDuplicateRow(m) => m.name(),
            AnyMutator::BufferInsertCloneRow(m) => m.name(),
            AnyMutator::PreprocessedTableCell(m) => m.name(),
            AnyMutator::PreprocessedTableRowSwap(m) => m.name(),
        }
    }

    fn mutate_non_mem_inputs(
        &self,
        input: &mut ProofInputs<NonMemoryOpcodeTracingDataWithTimestamp>,
        rng: &mut StdRng,
    ) {
        match self {
            AnyMutator::NoOp(m) => m.mutate_non_mem_inputs(input, rng),
            AnyMutator::BufferDuplicateRow(m) => m.mutate_non_mem_inputs(input, rng),
            AnyMutator::BufferInsertCloneRow(m) => m.mutate_non_mem_inputs(input, rng),
            AnyMutator::PreprocessedTableCell(m) => m.mutate_non_mem_inputs(input, rng),
            AnyMutator::PreprocessedTableRowSwap(m) => m.mutate_non_mem_inputs(input, rng),
        }
    }

    fn mutate_mem_inputs(
        &self,
        input: &mut ProofInputs<MemoryOpcodeTracingDataWithTimestamp>,
        rng: &mut StdRng,
    ) {
        match self {
            AnyMutator::NoOp(m) => m.mutate_mem_inputs(input, rng),
            AnyMutator::BufferDuplicateRow(m) => m.mutate_mem_inputs(input, rng),
            AnyMutator::BufferInsertCloneRow(m) => m.mutate_mem_inputs(input, rng),
            AnyMutator::PreprocessedTableCell(m) => m.mutate_mem_inputs(input, rng),
            AnyMutator::PreprocessedTableRowSwap(m) => m.mutate_mem_inputs(input, rng),
        }
    }
}

/// The mutators to choose from.
pub struct MutatorRegistry {
    pub mutators: Vec<AnyMutator>,
}

/// Whether an input was derived from a seed by one of the mutators.
pub open spec fn mutated_by(
    mutators: Seq<AnyMutator>,
    seed: SeedCase,
    mutated: MutatedInput,
) -> bool {
    exists|i: int|
        0 <= i < mutators.len() && mutated.derived(
            seed,
            mutation_name((#[trigger] mutators[i]).mutation()),
        )
            && stored_allowed(mutators[i].mutation(), seed.base_input@, mutated.mutated_input@)
}

impl MutatorRegistry {
    /// Whether there is a mutator to choose.
    pub open spec fn wf(self) -> bool {
        self.mutators@.len() > 0
    }

    /// Empty registry used for seed validation.
    ///
    /// It actually has one mutator, the [`NoOpMutator`].
    pub fn empty() -> (r: MutatorRegistry)
        ensures
            r.wf(),
            r.mutators@ == seq![AnyMutator::NoOp(NoOpMutator)],
    {
        let mut mutators: Vec<AnyMutator> = Vec::new();
        mutators.push(AnyMutator::NoOp(NoOpMutator));
        assert(mutators@ =~= seq![AnyMutator::NoOp(NoOpMutator)]);
        MutatorRegistry { mutators }
    }

    /// The registry used for fuzzing.
    pub fn new() -> (r: MutatorRegistry)
        ensures
            r.wf(),
            r.mutators@ == seq![AnyMutator::NoOp(NoOpMutator)],
    {
        MutatorRegistry::empty()
    }

    /// Chooses a mutator from the registry at random.
    pub fn choose_mutator(&self, rng: &mut StdRng) -> (r: &AnyMutator)
        requires
            self.wf(),
        ensures
            self.mutators@.contains(*r),
    {
        choose_item(self.mutators.as_slice(), rng).unwrap()
    }

    /// Mutates a seed with a mutator chosen at random.
    pub fn apply_mutations(&self, seed_case: &SeedCase, rng: &mut StdRng) -> (r: MutatedInput)
        requires
            self.wf(),
        ensures
            mutated_by(self.mutators@, *seed_case, r),
    {
        let m = self.choose_mutator(rng);
        let r = mutate(m, seed_case, rng);
        proof {
            let i = choose|i: int| 0 <= i < self.mutators@.len() && self.mutators@[i] == *m;
            assert(r.derived(*seed_case, mutation_name(self.mutators@[i].mutation())));
        }
        r
    }
}

/// Whether every mutator leaves the inputs as they are.
pub open spec fn all_idle(mutators: Seq<AnyMutator>) -> bool {
    forall|i: int| 0 <= i < mutators.len() ==> (#[trigger] mutators[i]) is NoOp
}

/// Whether rows are all equal.
pub open spec fn all_equal<R>(rows: Seq<R>) -> bool {
    forall|i: int, j: int|
        0 <= i < rows.len() && 0 <= j < rows.len() ==> #[trigger] rows[i] == #[trigger] rows[j]
}

/// Whether a mutation leaves inputs as they are whatever it draws: it does nothing, there is too
/// little to change, or all rows that it could pick are equal.
pub open spec fn never_changes<T>(m: Mutation, p: ProofInputsView<T>) -> bool {
    match m {
        Mutation::Keep => true,
        Mutation::DuplicateRow => p.buffer.len() < 2 || all_equal(p.buffer),
        Mutation::InsertCloneRow => p.buffer.len() == 0,
        Mutation::ReplaceTableCell => p.decoder_table_data.len() == 0,
        Mutation::SwapTableRows => p.decoder_table_data.len() < 2 || all_equal(
            p.decoder_table_data,
        ),
    }
}

/// Whether a mutation changes inputs whatever it draws: an inserted row adds to the trace, rows
/// that take each other's place differ, or no cell holds a residue that could be drawn for it.
pub open spec fn always_changes<T>(m: Mutation, p: ProofInputsView<T>) -> bool {
    match m {
        Mutation::Keep => false,
        Mutation::DuplicateRow => p.buffer.len() >= 2 && p.buffer.no_duplicates(),
        Mutation::InsertCloneRow => p.buffer.len() > 0,
        Mutation::ReplaceTableCell => p.decoder_table_data.len() > 0 && forall|
            row: int,
            column: int,
        |
            0 <= row < p.decoder_table_data.len() && 0 <= column < 10
                ==> #[trigger] p.decoder_table_data[row]@[column] >= CHARACTERISTICS,
        Mutation::SwapTableRows => p.decoder_table_data.len() >= 2
            && p.decoder_table_data.no_duplicates(),
    }
}

/// Whether a mutation leaves stored inputs as they are whatever it draws.
pub open spec fn stored_never_changes(m: Mutation, before: StoredProofInputsView) -> bool {
    match before {
        StoredProofInputsView::NonMemory(_, p) => never_changes(m, p),
        StoredProofInputsView::Memory(_, p, _) => never_changes(m, p),
        StoredProofInputsView::Other(_) => true,
    }
}

/// Whether a mutation changes stored inputs whatever it draws.
pub open spec fn stored_always_changes(m: Mutation, before: StoredProofInputsView) -> bool {
    match before {
        StoredProofInputsView::NonMemory(_, p) => always_changes(m, p),
        StoredProofInputsView::Memory(_, p, _) => always_changes(m, p),
        StoredProofInputsView::Other(_) => false,
    }
}

proof fn lemma_sure_change<T>(m: Mutation, before: ProofInputsView<T>, after: ProofInputsView<T>)
    requires
        allows(m, before, after),
    ensures
        never_changes(m, before) ==> after == before,
        always_changes(m, before) ==> after != before,
{
    let rows = before.buffer;
    let table = before.decoder_table_data;
    match m {
        Mutation::Keep => {},
        Mutation::DuplicateRow => {
            if rows.len() >= 2 {
                let (src, dst) = choose|src: int, dst: int|
                    0 <= src < rows.len() && 0 <= dst < rows.len() && src != dst && after
                        == #[trigger] with_row_duplicated(before, src, dst);
                assert(after.buffer[dst] == rows[src]);
                if all_equal(rows) {
                    assert(rows[src] == rows[dst]);
                    assert(after.buffer =~= rows);
                }
            }
        },
        Mutation::InsertCloneRow => {
            if rows.len() > 0 {
                assert(after.buffer.len() == rows.len() + 1);
            }
        },
        Mutation::ReplaceTableCell => {
            if table.len() > 0 {
                let (row, column, value) = choose|row: int, column: int, value: u32|
                    0 <= row < table.len() && 0 <= column < 10 && value < CHARACTERISTICS
                        && #[trigger] cell_replaced(before, after, row, column, value);
                assert(after.decoder_table_data[row]@[column] == value);
            }
        },
        Mutation::SwapTableRows => {
            if table.len() >= 2 {
                let (a, b) = choose|a: int, b: int|
                    0 <= a < table.len() && 0 <= b < table.len() && a != b && after
                        == #[trigger] with_rows_swapped(before, a, b);
                assert(after.decoder_table_data[a] == table[b]);
                if all_equal(table) {
                    assert(table[a] == table[b]);
                    assert(after.decoder_table_data =~= table);
                }
            }
        },
    }
}

/// A mutation that never changes the inputs leaves them as they are, and one that always changes
/// them does change them.
pub proof fn sure_mutations_keep_or_change_the_inputs(
    m: Mutation,
    before: StoredProofInputsView,
    after: StoredProofInputsView,
)
    requires
        stored_allowed(m, before, after),
    ensures
        stored_never_changes(m, before) ==> after == before,
        stored_always_changes(m, before) ==> after != before,
{
    match (before, after) {
        (StoredProofInputsView::NonMemory(_, p), StoredProofInputsView::NonMemory(_, q)) => {
            lemma_sure_change(m, p, q);
        },
        (StoredProofInputsView::Memory(_, p, _), StoredProofInputsView::Memory(_, q, _)) => {
            lemma_sure_change(m, p, q);
        },
        _ => {},
    }
}

/// Whether no mutator changes the inputs of a seed, whatever is drawn.
pub open spec fn none_change(mutators: Seq<AnyMutator>, seed: SeedCase) -> bool {
    forall|i: int|
        0 <= i < mutators.len() ==> stored_never_changes(
            (#[trigger] mutators[i]).mutation(),
            seed.base_input@,
        )
}

/// Whether every mutator changes the inputs of a seed, whatever is drawn.
pub open spec fn all_change(mutators: Seq<AnyMutator>, seed: SeedCase) -> bool {
    forall|i: int|
        0 <= i < mutators.len() ==> stored_always_changes(
            (#[trigger] mutators[i]).mutation(),
            seed.base_input@,
        )
}

proof fn lemma_sure_mutators(mutators: Seq<AnyMutator>, seed: SeedCase, mutated: MutatedInput)
    requires
        mutated_by(mutators, seed, mutated),
    ensures
        none_change(mutators, seed) ==> mutated.mutated_input@ == seed.base_input@,
        all_change(mutators, seed) ==> mutated.mutated_input@ != seed.base_input@,
{
    let i = choose|i: int|
        0 <= i < mutators.len() && mutated.derived(
            seed,
            mutation_name((#[trigger] mutators[i]).mutation()),
        ) && stored_allowed(mutators[i].mutation(), seed.base_input@, mutated.mutated_input@);
    sure_mutations_keep_or_change_the_inputs(
        mutators[i].mutation(),
        seed.base_input@,
        mutated.mutated_input@,
    );
}

/// What to do after an attempt at changing a seed.
#[derive(Clone, Copy, Debug, PartialEq, Eq, Structural)]
pub enum AttemptStep {
    /// The input differs from the seed: it is taken.
    Take,
    /// The input is equal to the seed, and there are attempts left.
    TryAgain,
    /// The input is equal to the seed, and there are no attempts left.
    GiveUp,
}

/// What to do after this many attempts, the last of which gave an input that differs from the seed
/// or is equal to it: the first input that differs is taken, and there are at most
/// [`MAX_ATTEMPTS`] attempts.
pub fn after_attempt(attempts: usize, differs: bool) -> (r: AttemptStep)
    ensures
        r is Take <==> differs,
        r is TryAgain <==> !differs && attempts < MAX_ATTEMPTS,
        r is GiveUp <==> !differs && attempts >= MAX_ATTEMPTS,
{
    if differs {
        AttemptStep::Take
    } else if attempts < MAX_ATTEMPTS {
        AttemptStep::TryAgain
    } else {
        AttemptStep::GiveUp
    }
}

/// Whether a run of attempts ends with this result: all but the last attempt gave the inputs of the
/// seed again, and the last one gave a different input, which is the result, or it was the last
/// attempt that there is, and there is no result.
pub open spec fn ends_with(
    attempts: Seq<MutatedInput>,
    seed: SeedCase,
    r: Option<MutatedInput>,
) -> bool {
    &&& 0 < attempts.len() <= MAX_ATTEMPTS
    &&& forall|i: int|
        0 <= i < attempts.len() - 1 ==> (#[trigger] attempts[i]).mutated_input@ == seed.base_input@
    &&& match r {
        Some(mutated) => attempts.last() == mutated && mutated.mutated_input@ != seed.base_input@,
        None => attempts.len() == MAX_ATTEMPTS && attempts.last().mutated_input@
            == seed.base_input@,
    }
}

/// Whether every attempt is a seed changed by one of the mutators.
pub open spec fn all_mutated_by(
    mutators: Seq<AnyMutator>,
    seed: SeedCase,
    attempts: Seq<MutatedInput>,
) -> bool {
    forall|i: int| 0 <= i < attempts.len() ==> mutated_by(mutators, seed, #[trigger] attempts[i])
}

/// Mutates a seed, trying again if the mutated input is equal to that of the seed, and gives up
/// after [`MAX_ATTEMPTS`] attempts. It succeeds where every mutator is sure to change the seed, and
/// gives up where none can; elsewhere chance decides.
pub fn mutate_until_different(
    seed_case: &SeedCase,
    m: &MutatorRegistry,
    rng: &mut StdRng,
) -> (r: Option<MutatedInput>)
    requires
        m.wf(),
    ensures
        exists|attempts: Seq<MutatedInput>| #[trigger]
            ends_with(attempts, *seed_case, r) && all_mutated_by(
                m.mutators@,
                *seed_case,
                attempts,
            ),
        r matches Some(mutated) ==> mutated.mutated_input@ != seed_case.base_input@ && mutated_by(
            m.mutators@,
            *seed_case,
            mutated,
        ),
        all_change(m.mutators@, *seed_case) ==> r is Some,
        none_change(m.mutators@, *seed_case) ==> r is None,
        all_idle(m.mutators@) ==> r is None,
{
    let mut attempts: usize = 0;
    let ghost mut made: Seq<MutatedInput> = Seq::empty();
    loop
        invariant
            m.wf(),
            attempts < MAX_ATTEMPTS,
            attempts == made.len(),
            all_mutated_by(m.mutators@, *seed_case, made),
            forall|i: int|
                0 <= i < made.len() ==> (#[trigger] made[i]).mutated_input@
                    == seed_case.base_input@,
            attempts > 0 ==> !all_change(m.mutators@, *seed_case),
        decreases MAX_ATTEMPTS - attempts,
    {
        let mutated = m.apply_mutations(seed_case, rng);
        attempts = attempts + 1;
        proof {
            made = made.push(mutated);
            lemma_sure_mutators(m.mutators@, *seed_case, mutated);
            if all_idle(m.mutators@) {
                idle_mutators_change_nothing(m.mutators@, *seed_case, mutated);
            }
        }
        match after_attempt(attempts, mutated.differs_from(seed_case)) {
            AttemptStep::Take => {
                let r = Some(mutated);
                assert(ends_with(made, *seed_case, r));
                return r;
            },
            AttemptStep::TryAgain => {},
            AttemptStep::GiveUp => {
                assert(ends_with(made, *seed_case, None));
                return None;
            },
        }
    }
}

/// Mutators that leave the inputs as they are derive the inputs of the seed.
pub proof fn idle_mutators_change_nothing(
    mutators: Seq<AnyMutator>,
    seed: SeedCase,
    mutated: MutatedInput,
)
    requires
        all_idle(mutators),
        mutated_by(mutators, seed, mutated),
    ensures
        mutated.mutated_input@ == seed.base_input@,
{
}

/// No mutator changes the circuit of stored inputs, their family, the compiled circuit or the
/// decoded instructions.
pub proof fn mutations_keep_the_circuit(
    m: Mutation,
    before: StoredProofInputsView,
    after: StoredProofInputsView,
)
    requires
        stored_allowed(m, before, after),
    ensures
        after.kind() == before.kind(),
        after.circuit() == before.circuit(),
        match (before, after) {
            (
                StoredProofInputsView::NonMemory(_, p),
                StoredProofInputsView::NonMemory(_, q),
            ) => q.circuit == p.circuit && q.witness_gen_data == p.witness_gen_data,
            (
                StoredProofInputsView::Memory(_, p, a),
                StoredProofInputsView::Memory(_, q, b),
            ) => q.circuit == p.circuit && q.witness_gen_data == p.witness_gen_data && a == b,
            _ => true,
        },
{
}

/// A mutation changes the trace or the decoder table, never both, and keeps the number of rows but
/// for the one row that an insertion adds.
pub proof fn mutations_keep_the_sizes<T>(
    m: Mutation,
    before: ProofInputsView<T>,
    after: ProofInputsView<T>,
)
    requires
        allows(m, before, after),
    ensures
        after.decoder_table_data.len() == before.decoder_table_data.len(),
        after.buffer.len() == if m is InsertCloneRow && before.buffer.len() > 0 {
            before.buffer.len() + 1
        } else {
            before.buffer.len()
        },
        after.buffer == before.buffer || after.decoder_table_data == before.decoder_table_data,
{
}

/// Exchanging the same rows twice leads back.
pub proof fn swaps_undo_themselves<T>(p: ProofInputsView<T>, a: int, b: int)
    requires
        0 <= a < p.decoder_table_data.len(),
        0 <= b < p.decoder_table_data.len(),
    ensures
        with_rows_swapped(with_rows_swapped(p, a, b), a, b) == p,
{
    assert(with_rows_swapped(with_rows_swapped(p, a, b), a, b).decoder_table_data
        =~= p.decoder_table_data);
}

/// Whether one row of a list replaces another one.
pub open spec fn row_replaced<R>(before: Seq<R>, after: Seq<R>, src: int, dst: int) -> bool {
    &&& 0 <= src < before.len() && 0 <= dst < before.len() && src != dst
    &&& after.len() == before.len()
    &&& after[dst] == before[src]
    &&& forall|i: int| 0 <= i < before.len() && i != dst ==> #[trigger] after[i] == before[i]
}

/// Whether a copy of one row of a list stands between the others, which keep their order.
pub open spec fn row_added<R>(before: Seq<R>, after: Seq<R>, src: int, dst: int) -> bool {
    &&& 0 <= src < before.len() && 0 <= dst <= before.len()
    &&& after.len() == before.len() + 1
    &&& after[dst] == before[src]
    &&& forall|i: int| 0 <= i < dst ==> #[trigger] after[i] == before[i]
    &&& forall|i: int| dst < i <= before.len() ==> #[trigger] after[i] == before[i - 1]
}

/// A mutation of the trace moves rows as its name says: a duplicated row replaces another one, and an
/// inserted one stands between the others, which keep their order.
pub proof fn trace_mutations_copy_a_row<T>(
    m: Mutation,
    before: ProofInputsView<T>,
    after: ProofInputsView<T>,
)
    requires
        allows(m, before, after),
        m is DuplicateRow || m is InsertCloneRow,
        before.buffer.len() >= 2,
    ensures
        after.family_idx == before.family_idx,
        after.decoder_table_data == before.decoder_table_data,
        m is DuplicateRow ==> exists|src: int, dst: int| #[trigger]
            row_replaced(before.buffer, after.buffer, src, dst),
        m is InsertCloneRow ==> exists|src: int, dst: int| #[trigger]
            row_added(before.buffer, after.buffer, src, dst),
{
    if m is DuplicateRow {
        let (src, dst) = choose|src: int, dst: int|
            0 <= src < before.buffer.len() && 0 <= dst < before.buffer.len() && src != dst && after
                == #[trigger] with_row_duplicated(before, src, dst);
        assert(row_replaced(before.buffer, after.buffer, src, dst));
    } else {
        let (src, dst) = choose|src: int, dst: int|
            0 <= src < before.buffer.len() && 0 <= dst <= before.buffer.len() && after
                == #[trigger] with_row_inserted(before, src, dst);
        assert(row_added(before.buffer, after.buffer, src, dst));
    }
}

/// Whether two rows of a list are exchanged.
pub open spec fn rows_exchanged<R>(before: Seq<R>, after: Seq<R>, a: int, b: int) -> bool {
    &&& 0 <= a < before.len() && 0 <= b < before.len() && a != b
    &&& after.len() == before.len()
    &&& after[a] == before[b]
    &&& after[b] == before[a]
    &&& forall|i: int|
        0 <= i < before.len() && i != a && i != b ==> #[trigger] after[i] == before[i]
}

/// Whether one cell of a table holds a field element, and all others are as they were.
pub open spec fn cell_written(
    before: Seq<[u32; 10]>,
    after: Seq<[u32; 10]>,
    row: int,
    column: int,
) -> bool {
    &&& 0 <= row < before.len() && 0 <= column < 10
    &&& after.len() == before.len()
    &&& after[row]@[column] < 0x7fff_ffff
    &&& forall|i: int, j: int|
        0 <= i < before.len() && 0 <= j < 10 && !(i == row && j == column)
            ==> #[trigger] after[i]@[j] == before[i]@[j]
}

/// A mutation of the decoder table exchanges two rows, or writes a field element to one cell, and
/// leaves everything else as it was.
pub proof fn table_mutations_change_what_they_name<T>(
    m: Mutation,
    before: ProofInputsView<T>,
    after: ProofInputsView<T>,
)
    requires
        allows(m, before, after),
        m is SwapTableRows || m is ReplaceTableCell,
        before.decoder_table_data.len() >= 2,
    ensures
        after.family_idx == before.family_idx,
        after.buffer == before.buffer,
        after.decoder_table_data.len() == before.decoder_table_data.len(),
        m is SwapTableRows ==> exists|a: int, b: int| #[trigger]
            rows_exchanged(before.decoder_table_data, after.decoder_table_data, a, b),
        m is ReplaceTableCell ==> exists|row: int, column: int| #[trigger]
            cell_written(before.decoder_table_data, after.decoder_table_data, row, column),
{
    if m is SwapTableRows {
        let (a, b) = choose|a: int, b: int|
            0 <= a < before.decoder_table_data.len() && 0 <= b < before.decoder_table_data.len()
                && a != b && after == #[trigger] with_rows_swapped(before, a, b);
        assert(rows_exchanged(before.decoder_table_data, after.decoder_table_data, a, b));
    } else {
        let (row, column, value) = choose|row: int, column: int, value: u32|
            0 <= row < before.decoder_table_data.len() && 0 <= column < 10 && value
                < CHARACTERISTICS && #[trigger] cell_replaced(before, after, row, column, value);
        assert(cell_written(before.decoder_table_data, after.decoder_table_data, row, column));
    }
}

/// Derived inputs say where they come from: the program and circuit of their seed, and one mutation.
pub proof fn derived_inputs_name_their_seed(
    mutators: Seq<AnyMutator>,
    seed: SeedCase,
    mutated: MutatedInput,
)
    requires
        mutated_by(mutators, seed, mutated),
    ensures
        mutated.original.seed_program@ == seed.seed_program@,
        mutated.original.circuit == seed.circuit,
        mutated.mutations@.len() == 1,
        mutated.mutated_input@.kind() == seed.base_input@.kind(),
{
}

} // verus!
