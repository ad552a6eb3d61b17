//! The inputs of a proof.
use vstd::prelude::*;

use crate::fuzzing::circuits::CircuitKind;

verus! {

/// One decoded instruction.
#[derive(Clone, Copy, Debug, PartialEq, Eq, Structural)]
pub struct ExecutorFamilyDecoderData {
    pub imm: u32,
    pub rs1_index: u8,
    pub rs2_index: u8,
    pub rd_index: u8,
    pub rd_is_zero: bool,
    pub funct3: u8,
    pub funct7: u8,
    pub opcode_family_bits: u32,
}

/// One traced instruction that touches registers only.
#[derive(Clone, Copy, Debug, PartialEq, Eq, Structural)]
pub struct NonMemoryOpcodeTracingDataWithTimestamp {
    pub initial_pc: u32,
    pub rs1_value: u32,
    pub rs2_value: u32,
    pub rd_old_value: u32,
    pub rd_value: u32,
    pub new_pc: u32,
    pub delegation_type: u16,
    pub rs1_read_timestamp: u64,
    pub rs2_read_timestamp: u64,
    pub rd_read_timestamp: u64,
    pub cycle_timestamp: u64,
}

/// One traced instruction that touches the memory.
#[derive(Clone, Copy, Debug, PartialEq, Eq, Structural)]
pub struct MemoryOpcodeTracingDataWithTimestamp {
    pub initial_pc: u32,
    pub rs1_value: u32,
    pub ram_address: u32,
    pub rs2_or_ram_read_value: u32,
    pub rd_or_ram_read_value: u32,
    pub rd_or_ram_write_value: u32,
    pub rs1_read_timestamp: u64,
    pub rs2_or_ram_read_timestamp: u64,
    pub rd_or_ram_read_timestamp: u64,
    pub cycle_timestamp: u64,
}

/// A row of a trace.
pub trait TraceRow: Copy {
    /// Whether two rows are equal.
    fn same(&self, other: &Self) -> (r: bool)
        ensures
            r == (*self == *other),
    ;
}

impl TraceRow for NonMemoryOpcodeTracingDataWithTimestamp {
    fn same(&self, other: &Self) -> (r: bool) {
        *self == *other
    }
}

impl TraceRow for MemoryOpcodeTracingDataWithTimestamp {
    fn same(&self, other: &Self) -> (r: bool) {
        *self == *other
    }
}

/// What a proof of one circuit is made from: the circuit family, the compiled circuit in its
/// serialized form, the rows of its decoder table as residues, the decoded instructions, and the
/// trace.
#[derive(Debug)]
pub struct ProofInputs<T> {
    pub family_idx: u8,
    pub circuit: Vec<u8>,
    pub decoder_table_data: Vec<[u32; 10]>,
    pub witness_gen_data: Vec<ExecutorFamilyDecoderData>,
    pub buffer: Vec<T>,
}

/// The value of [`ProofInputs`].
#[verifier::ext_equal]
pub struct ProofInputsView<T> {
    pub family_idx: u8,
    pub circuit: Seq<u8>,
    pub decoder_table_data: Seq<[u32; 10]>,
    pub witness_gen_data: Seq<ExecutorFamilyDecoderData>,
    pub buffer: Seq<T>,
}

impl<T> View for ProofInputs<T> {
    type V = ProofInputsView<T>;

    open spec fn view(&self) -> ProofInputsView<T> {
        ProofInputsView {
            family_idx: self.family_idx,
            circuit: self.circuit@,
            decoder_table_data: self.decoder_table_data@,
            witness_gen_data: self.witness_gen_data@,
            buffer: self.buffer@,
        }
    }
}

pub(crate) fn copy_items<T: Copy>(items: &Vec<T>) -> (r: Vec<T>)
    ensures
        r@ == items@,
{
    let mut out: Vec<T> = Vec::new();
    for i in 0..items.len()
        invariant
            out@ == items@.take(i as int),
    {
        out.push(items[i]);
        assert(out@ =~= items@.take(i + 1));
    }
    assert(out@ =~= items@);
    out
}

fn same_bytes(a: &Vec<u8>, b: &Vec<u8>) -> (r: bool)
    ensures
        r == (a@ == b@),
{
    if a.len() != b.len() {
        return false;
    }
    for i in 0..a.len()
        invariant
            a@.len() == b@.len(),
            forall|j: int| 0 <= j < i ==> a@[j] == b@[j],
    {
        if a[i] != b[i] {
            return false;
        }
    }
    assert(a@ =~= b@);
    true
}

fn same_table_row(a: &[u32; 10], b: &[u32; 10]) -> (r: bool)
    ensures
        r == (*a == *b),
{
    for i in 0..10
        invariant
            forall|j: int| 0 <= j < i ==> a@[j] == b@[j],
    {
        if a[i] != b[i] {
            return false;
        }
    }
    assert(*a =~= *b);
    true
}

fn same_table(a: &Vec<[u32; 10]>, b: &Vec<[u32; 10]>) -> (r: bool)
    ensures
        r == (a@ == b@),
{
    if a.len() != b.len() {
        return false;
    }
    for i in 0..a.len()
        invariant
            a@.len() == b@.len(),
            forall|j: int| 0 <= j < i ==> a@[j] == b@[j],
    {
        if !same_table_row(&a[i], &b[i]) {
            return false;
        }
    }
    assert(a@ =~= b@);
    true
}

fn same_decoder_data(
    a: &Vec<ExecutorFamilyDecoderData>,
    b: &Vec<ExecutorFamilyDecoderData>,
) -> (r: bool)
    ensures
        r == (a@ == b@),
{
    if a.len() != b.len() {
        return false;
    }
    for i in 0..a.len()
        invariant
            a@.len() == b@.len(),
            forall|j: int| 0 <= j < i ==> a@[j] == b@[j],
    {
        if a[i] != b[i] {
            return false;
        }
    }
    assert(a@ =~= b@);
    true
}

fn same_rows<T: TraceRow>(a: &Vec<T>, b: &Vec<T>) -> (r: bool)
    ensures
        r == (a@ == b@),
{
    if a.len() != b.len() {
        return false;
    }
    for i in 0..a.len()
        invariant
            a@.len() == b@.len(),
            forall|j: int| 0 <= j < i ==> a@[j] == b@[j],
    {
        if !a[i].same(&b[i]) {
            return false;
        }
    }
    assert(a@ =~= b@);
    true
}

impl<T: TraceRow> ProofInputs<T> {
    /// The circuit family that the inputs belong to.
    pub fn family_idx(&self) -> (r: u8)
        ensures
            r == self@.family_idx,
    {
        self.family_idx
    }

    /// The compiled circuit.
    pub fn compiled_circuit(&self) -> (r: &Vec<u8>)
        ensures
            r@ == self@.circuit,
    {
        &self.circuit
    }

    /// A copy with the same value.
    pub fn duplicate(&self) -> (r: Self)
        ensures
            r@ == self@,
    {
        ProofInputs {
            family_idx: self.family_idx,
            circuit: copy_items(&self.circuit),
            decoder_table_data: copy_items(&self.decoder_table_data),
            witness_gen_data: copy_items(&self.witness_gen_data),
            buffer: copy_items(&self.buffer),
        }
    }

    /// Whether two inputs have the same value.
    pub fn same(&self, other: &Self) -> (r: bool)
        ensures
            r == (self@ == other@),
    {
        self.family_idx == other.family_idx && same_bytes(&self.circuit, &other.circuit)
            && same_table(&self.decoder_table_data, &other.decoder_table_data)
            && same_decoder_data(&self.witness_gen_data, &other.witness_gen_data) && same_rows(
            &self.buffer,
            &other.buffer,
        )
    }
}

/// The inputs of a proof, by circuit. The memory families also hold the bytecode.
#[derive(Debug)]
pub enum StoredProofInputs {
    AddSubLuiAuipcMop(ProofInputs<NonMemoryOpcodeTracingDataWithTimestamp>),
    JumpBranchSlt(ProofInputs<NonMemoryOpcodeTracingDataWithTimestamp>),
    XorAndOrShiftCsr(ProofInputs<NonMemoryOpcodeTracingDataWithTimestamp>),
    MulDiv(ProofInputs<NonMemoryOpcodeTracingDataWithTimestamp>),
    LoadStore(ProofInputs<MemoryOpcodeTracingDataWithTimestamp>, Vec<u32>),
    SubwordLoadStore(ProofInputs<MemoryOpcodeTracingDataWithTimestamp>, Vec<u32>),
    InitsAndTeardowns(()),
    BlakeDelegation(()),
    KeccakDelegation(()),
}

/// The value of [`StoredProofInputs`].
pub enum StoredProofInputsView {
    NonMemory(CircuitKind, ProofInputsView<NonMemoryOpcodeTracingDataWithTimestamp>),
    Memory(CircuitKind, ProofInputsView<MemoryOpcodeTracingDataWithTimestamp>, Seq<u32>),
    Other(CircuitKind),
}

impl View for StoredProofInputs {
    type V = StoredProofInputsView;

    open spec fn view(&self) -> StoredProofInputsView {
        match self {
            StoredProofInputs::AddSubLuiAuipcMop(p) => StoredProofInputsView::NonMemory(
                CircuitKind::AddSubLuiAuipcMop,
                p@,
            ),
            StoredProofInputs::JumpBranchSlt(p) => StoredProofInputsView::NonMemory(
                CircuitKind::JumpBranchSlt,
                p@,
            ),
            StoredProofInputs::XorAndOrShiftCsr(p) => StoredProofInputsView::NonMemory(
                CircuitKind::XorAndOrShiftCsr,
                p@,
            ),
            StoredProofInputs::MulDiv(p) => StoredProofInputsView::NonMemory(
                CircuitKind::MulDiv,
                p@,
            ),
            StoredProofInputs::LoadStore(p, code) => StoredProofInputsView::Memory(
                CircuitKind::LoadStore,
                p@,
                code@,
            ),
            StoredProofInputs::SubwordLoadStore(p, code) => StoredProofInputsView::Memory(
                CircuitKind::SubwordLoadStore,
                p@,
                code@,
            ),
            StoredProofInputs::InitsAndTeardowns(_) => StoredProofInputsView::Other(
                CircuitKind::InitsAndTeardowns,
            ),
            StoredProofInputs::BlakeDelegation(_) => StoredProofInputsView::Other(
                CircuitKind::BlakeDelegation,
            ),
            StoredProofInputs::KeccakDelegation(_) => StoredProofInputsView::Other(
                CircuitKind::KeccakDelegation,
            ),
        }
    }
}

impl StoredProofInputsView {
    /// The circuit that the inputs are filed under.
    pub open spec fn kind(self) -> CircuitKind {
        match self {
            StoredProofInputsView::NonMemory(k, _) => k,
            StoredProofInputsView::Memory(k, _, _) => k,
            StoredProofInputsView::Other(k) => k,
        }
    }

    /// The circuit that the inputs name: for the first family the one of the stored family index,
    /// for the others the one that they are filed under.
    pub open spec fn circuit(self) -> Option<CircuitKind> {
        match self {
            StoredProofInputsView::NonMemory(CircuitKind::AddSubLuiAuipcMop, p) =>
                CircuitKind::of_family(p.family_idx),
            _ => Some(self.kind()),
        }
    }
}

fn same_words(a: &Vec<u32>, b: &Vec<u32>) -> (r: bool)
    ensures
        r == (a@ == b@),
{
    if a.len() != b.len() {
        return false;
    }
    for i in 0..a.len()
        invariant
            a@.len() == b@.len(),
            forall|j: int| 0 <= j < i ==> a@[j] == b@[j],
    {
        if a[i] != b[i] {
            return false;
        }
    }
    assert(a@ =~= b@);
    true
}

impl StoredProofInputs {
    /// The circuit of the inputs, where the stored family index has one.
    pub fn find_circuit(&self) -> (r: Option<CircuitKind>)
        ensures
            r == self@.circuit(),
    {
        match self {
            StoredProofInputs::AddSubLuiAuipcMop(inputs) => CircuitKind::from_family_idx(
                inputs.family_idx(),
            ),
            StoredProofInputs::JumpBranchSlt(_) => Some(CircuitKind::JumpBranchSlt),
            StoredProofInputs::XorAndOrShiftCsr(_) => Some(CircuitKind::XorAndOrShiftCsr),
            StoredProofInputs::MulDiv(_) => Some(CircuitKind::MulDiv),
            StoredProofInputs::LoadStore(_, _) => Some(CircuitKind::LoadStore),
            StoredProofInputs::SubwordLoadStore(_, _) => Some(CircuitKind::SubwordLoadStore),
            StoredProofInputs::InitsAndTeardowns(_) => Some(CircuitKind::InitsAndTeardowns),
            StoredProofInputs::BlakeDelegation(_) => Some(CircuitKind::BlakeDelegation),
            StoredProofInputs::KeccakDelegation(_) => Some(CircuitKind::KeccakDelegation),
        }
    }

    /// The circuit of the inputs, whose stored family index must be that of a circuit.
    pub fn circuit(&self) -> (r: CircuitKind)
        requires
            self@.circuit() is Some,
        ensures
            Some(r) == self@.circuit(),
    {
        self.find_circuit().unwrap()
    }

    /// A copy with the same value.
    pub fn duplicate(&self) -> (r: Self)
        ensures
            r@ == self@,
    {
        match self {
            StoredProofInputs::AddSubLuiAuipcMop(p) => StoredProofInputs::AddSubLuiAuipcMop(
                p.duplicate(),
            ),
            StoredProofInputs::JumpBranchSlt(p) => StoredProofInputs::JumpBranchSlt(p.duplicate()),
            StoredProofInputs::XorAndOrShiftCsr(p) => StoredProofInputs::XorAndOrShiftCsr(
                p.duplicate(),
            ),
            StoredProofInputs::MulDiv(p) => StoredProofInputs::MulDiv(p.duplicate()),
            StoredProofInputs::LoadStore(p, code) => StoredProofInputs::LoadStore(
                p.duplicate(),
                copy_items(code),
            ),
            StoredProofInputs::SubwordLoadStore(p, code) => StoredProofInputs::SubwordLoadStore(
                p.duplicate(),
                copy_items(code),
            ),
            StoredProofInputs::InitsAndTeardowns(_) => StoredProofInputs::InitsAndTeardowns(()),
            StoredProofInputs::BlakeDelegation(_) => StoredProofInputs::BlakeDelegation(()),
            StoredProofInputs::KeccakDelegation(_) => StoredProofInputs::KeccakDelegation(()),
        }
    }

    /// Whether two inputs have the same value.
    pub fn same(&self, other: &Self) -> (r: bool)
        ensures
            r == (self@ == other@),
    {
        match (self, other) {
            (
                StoredProofInputs::AddSubLuiAuipcMop(a),
                StoredProofInputs::AddSubLuiAuipcMop(b),
            ) => a.same(b),
            (StoredProofInputs::JumpBranchSlt(a), StoredProofInputs::JumpBranchSlt(b)) => a.same(b),
            (
                StoredProofInputs::XorAndOrShiftCsr(a),
                StoredProofInputs::XorAndOrShiftCsr(b),
            ) => a.same(b),
            (StoredProofInputs::MulDiv(a), StoredProofInputs::MulDiv(b)) => a.same(b),
            (StoredProofInputs::LoadStore(a, x), StoredProofInputs::LoadStore(b, y)) => a.same(b)
                && same_words(x, y),
            (
                StoredProofInputs::SubwordLoadStore(a, x),
                StoredProofInputs::SubwordLoadStore(b, y),
            ) => a.same(b) && same_words(x, y),
            (
                StoredProofInputs::InitsAndTeardowns(_),
                StoredProofInputs::InitsAndTeardowns(_),
            ) => true,
            (StoredProofInputs::BlakeDelegation(_), StoredProofInputs::BlakeDelegation(_)) => true,
            (
                StoredProofInputs::KeccakDelegation(_),
                StoredProofInputs::KeccakDelegation(_),
            ) => true,
            _ => false,
        }
    }
}

/// The circuit that inputs name is the one that they are filed under, but for inputs of the first
/// family: these name the circuit whose family is stored in them.
pub proof fn inputs_name_their_circuit(inputs: StoredProofInputs)
    ensures
        match inputs {
            StoredProofInputs::AddSubLuiAuipcMop(p) => {
                &&& inputs@.kind() == CircuitKind::AddSubLuiAuipcMop
                &&& inputs@.circuit() == CircuitKind::of_family(p@.family_idx)
            },
            StoredProofInputs::JumpBranchSlt(_) => inputs@.kind() == CircuitKind::JumpBranchSlt,
            StoredProofInputs::XorAndOrShiftCsr(_) => inputs@.kind()
                == CircuitKind::XorAndOrShiftCsr,
            StoredProofInputs::MulDiv(_) => inputs@.kind() == CircuitKind::MulDiv,
            StoredProofInputs::LoadStore(_, _) => inputs@.kind() == CircuitKind::LoadStore,
            StoredProofInputs::SubwordLoadStore(_, _) => inputs@.kind()
                == CircuitKind::SubwordLoadStore,
            StoredProofInputs::InitsAndTeardowns(_) => inputs@.kind()
                == CircuitKind::InitsAndTeardowns,
            StoredProofInputs::BlakeDelegation(_) => inputs@.kind()
                == CircuitKind::BlakeDelegation,
            StoredProofInputs::KeccakDelegation(_) => inputs@.kind()
                == CircuitKind::KeccakDelegation,
        },
        !(inputs is AddSubLuiAuipcMop) ==> inputs@.circuit() == Some(inputs@.kind()),
{
}

} // verus!
