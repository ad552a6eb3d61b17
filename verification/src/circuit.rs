//! The circuit description that the translators read.
//!
//! Everything here is plain data: which polynomial constraints, lookups, range checks and
//! memory queries a synthesized circuit holds, and which variables carry its machine state.
use vstd::prelude::*;

verus! {

/// The characteristic of the circuit field, `2^31 - 1`.
pub const CHARACTERISTICS: u64 = 0x7fff_ffff;

/// Number of address bits of the second ROM word: the ROM spans `2^(16 + 6)` bytes.
pub const ROM_SECOND_WORD_BITS: usize = 6;

/// Local timestamp of the query that loads the first source register.
pub const RS1_LOAD_LOCAL_TIMESTAMP: usize = 0;

/// Local timestamp of the query that loads the second source register.
pub const RS2_LOAD_LOCAL_TIMESTAMP: usize = 1;

/// An element of the circuit field, kept as any representative of its residue class.
#[derive(Clone, Copy, Debug, PartialEq, Eq, Structural)]
pub struct Mersenne31Field(pub u64);

impl Mersenne31Field {
    /// The canonical representative.
    pub open spec fn reduced(self) -> u64 {
        (self.0 % CHARACTERISTICS) as u64
    }

    /// The canonical representative, below the characteristic.
    pub fn as_u64_reduced(&self) -> (r: u64)
        ensures
            r == self.reduced(),
            r < CHARACTERISTICS,
    {
        self.0 % CHARACTERISTICS
    }

    /// Whether this is the zero of the field.
    pub fn is_zero(&self) -> (r: bool)
        ensures
            r == (self.reduced() == 0),
    {
        self.0 % CHARACTERISTICS == 0
    }
}

/// A logical circuit variable.
#[derive(Clone, Copy, Debug, PartialEq, Eq, Structural)]
pub struct Variable(pub u64);

/// A monomial with a coefficient. Only the first `degree` entries of `inner` count.
#[derive(Clone, Copy, Debug)]
pub enum Term {
    Constant(Mersenne31Field),
    Expression { coeff: Mersenne31Field, inner: [Variable; 4], degree: usize },
}

impl Term {
    /// The variables that the monomial multiplies.
    pub open spec fn factors(self) -> Seq<Variable> {
        match self {
            Term::Constant(_) => Seq::empty(),
            Term::Expression { coeff, inner, degree } => inner@.take(
                if degree < 4 {
                    degree as int
                } else {
                    4
                },
            ),
        }
    }

    /// The coefficient, as a canonical representative.
    pub open spec fn coefficient(self) -> u64 {
        match self {
            Term::Constant(c) => c.reduced(),
            Term::Expression { coeff, .. } => coeff.reduced(),
        }
    }
}

/// The polynomial constraint that the sum of the terms is zero.
#[derive(Clone, Debug)]
pub struct Constraint {
    pub terms: Vec<Term>,
}

/// One column of a lookup row.
#[derive(Debug)]
pub enum LookupInput {
    Variable(Variable),
    Expression {
        linear_terms: Vec<(Mersenne31Field, Variable)>,
        constant_coeff: Mersenne31Field,
    },
}

/// The lookup tables that have a dedicated translation. Every other table keeps its number.
#[derive(Clone, Copy, Debug, PartialEq, Eq, Structural)]
pub enum TableType {
    ConditionalJmpBranchSlt,
    JumpCleanupOffset,
    MemoryGetOffsetAndMaskWithTrap,
    RomAddressSpaceSeparator,
    MemoryLoadHalfwordOrByte,
    MemStoreClearOriginalRamValueLimb,
    MemStoreClearWrittenValueLimb,
    AlignedRomRead,
    Other(u32),
}

/// The numbers under which the circuit's table driver knows the tables.
#[derive(Clone, Copy, Debug, PartialEq, Eq, Structural)]
pub struct TableIds {
    pub conditional_jmp_branch_slt: u32,
    pub jump_cleanup_offset: u32,
    pub memory_get_offset_and_mask_with_trap: u32,
    pub rom_address_space_separator: u32,
    pub memory_load_halfword_or_byte: u32,
    pub mem_store_clear_original_ram_value_limb: u32,
    pub mem_store_clear_written_value_limb: u32,
    pub aligned_rom_read: u32,
}

impl TableIds {
    /// The number of a table.
    pub open spec fn id_of(self, table: TableType) -> u32 {
        match table {
            TableType::ConditionalJmpBranchSlt => self.conditional_jmp_branch_slt,
            TableType::JumpCleanupOffset => self.jump_cleanup_offset,
            TableType::MemoryGetOffsetAndMaskWithTrap => self.memory_get_offset_and_mask_with_trap,
            TableType::RomAddressSpaceSeparator => self.rom_address_space_separator,
            TableType::MemoryLoadHalfwordOrByte => self.memory_load_halfword_or_byte,
            TableType::MemStoreClearOriginalRamValueLimb => {
                self.mem_store_clear_original_ram_value_limb
            },
            TableType::MemStoreClearWrittenValueLimb => self.mem_store_clear_written_value_limb,
            TableType::AlignedRomRead => self.aligned_rom_read,
            TableType::Other(id) => id,
        }
    }

    /// The table with a number.
    pub open spec fn table_of(self, id: u32) -> TableType {
        if id == self.conditional_jmp_branch_slt {
            TableType::ConditionalJmpBranchSlt
        } else if id == self.jump_cleanup_offset {
            TableType::JumpCleanupOffset
        } else if id == self.memory_get_offset_and_mask_with_trap {
            TableType::MemoryGetOffsetAndMaskWithTrap
        } else if id == self.rom_address_space_separator {
            TableType::RomAddressSpaceSeparator
        } else if id == self.memory_load_halfword_or_byte {
            TableType::MemoryLoadHalfwordOrByte
        } else if id == self.mem_store_clear_original_ram_value_limb {
            TableType::MemStoreClearOriginalRamValueLimb
        } else if id == self.mem_store_clear_written_value_limb {
            TableType::MemStoreClearWrittenValueLimb
        } else if id == self.aligned_rom_read {
            TableType::AlignedRomRead
        } else {
            TableType::Other(id)
        }
    }

    /// The number of a table.
    pub fn to_table_id(&self, table: TableType) -> (r: u32)
        ensures
            r == self.id_of(table),
    {
        match table {
            TableType::ConditionalJmpBranchSlt => self.conditional_jmp_branch_slt,
            TableType::JumpCleanupOffset => self.jump_cleanup_offset,
            TableType::MemoryGetOffsetAndMaskWithTrap => self.memory_get_offset_and_mask_with_trap,
            TableType::RomAddressSpaceSeparator => self.rom_address_space_separator,
            TableType::MemoryLoadHalfwordOrByte => self.memory_load_halfword_or_byte,
            TableType::MemStoreClearOriginalRamValueLimb => {
                self.mem_store_clear_original_ram_value_limb
            },
            TableType::MemStoreClearWrittenValueLimb => self.mem_store_clear_written_value_limb,
            TableType::AlignedRomRead => self.aligned_rom_read,
            TableType::Other(id) => id,
        }
    }

    /// The table with a number; a number without a dedicated table stays a number.
    pub fn get_table_from_id(&self, id: u32) -> (r: TableType)
        ensures
            r == self.table_of(id),
    {
        if id == self.conditional_jmp_branch_slt {
            TableType::ConditionalJmpBranchSlt
        } else if id == self.jump_cleanup_offset {
            TableType::JumpCleanupOffset
        } else if id == self.memory_get_offset_and_mask_with_trap {
            TableType::MemoryGetOffsetAndMaskWithTrap
        } else if id == self.rom_address_space_separator {
            TableType::RomAddressSpaceSeparator
        } else if id == self.memory_load_halfword_or_byte {
            TableType::MemoryLoadHalfwordOrByte
        } else if id == self.mem_store_clear_original_ram_value_limb {
            TableType::MemStoreClearOriginalRamValueLimb
        } else if id == self.mem_store_clear_written_value_limb {
            TableType::MemStoreClearWrittenValueLimb
        } else if id == self.aligned_rom_read {
            TableType::AlignedRomRead
        } else {
            TableType::Other(id)
        }
    }

    /// Reading a number as a table and asking for the table's number gives the number back.
    pub proof fn table_of_keeps_the_number(self, id: u32)
        ensures
            self.id_of(self.table_of(id)) == id,
    {
    }

    /// Each dedicated table has the number that is kept under its name, and is the only table with
    /// it where the numbers differ; a number that no dedicated table has stays a number.
    pub proof fn tables_have_their_numbers(self, id: u32)
        ensures
            self.id_of(TableType::ConditionalJmpBranchSlt) == self.conditional_jmp_branch_slt,
            self.id_of(TableType::JumpCleanupOffset) == self.jump_cleanup_offset,
            self.id_of(TableType::MemoryGetOffsetAndMaskWithTrap)
                == self.memory_get_offset_and_mask_with_trap,
            self.id_of(TableType::RomAddressSpaceSeparator) == self.rom_address_space_separator,
            self.id_of(TableType::MemoryLoadHalfwordOrByte) == self.memory_load_halfword_or_byte,
            self.id_of(TableType::MemStoreClearOriginalRamValueLimb)
                == self.mem_store_clear_original_ram_value_limb,
            self.id_of(TableType::MemStoreClearWrittenValueLimb)
                == self.mem_store_clear_written_value_limb,
            self.id_of(TableType::AlignedRomRead) == self.aligned_rom_read,
            self.id_of(TableType::Other(id)) == id,
            self.table_of(id) is Other <==> (forall|table: TableType|
                !(table is Other) ==> #[trigger] self.id_of(table) != id),
            self.table_of(id) is Other ==> self.table_of(id) == TableType::Other(id),
    {
        if self.table_of(id) is Other {
            assert forall|table: TableType| !(table is Other) implies #[trigger] self.id_of(table)
                != id by {
            }
        } else {
            assert(self.id_of(self.table_of(id)) == id);
        }
    }

    /// Where no two tables share a number, the number of a dedicated table leads back to it.
    pub proof fn numbers_lead_back(self, table: TableType)
        requires
            !(table is Other),
            forall|a: TableType, b: TableType|
                !(a is Other) && !(b is Other) && #[trigger] self.id_of(a) == #[trigger] self.id_of(
                    b,
                ) ==> a == b,
        ensures
            self.table_of(self.id_of(table)) == table,
    {
        let other = self.table_of(self.id_of(table));
        self.table_of_keeps_the_number(self.id_of(table));
        self.tables_have_their_numbers(self.id_of(table));
        assert(self.id_of(other) == self.id_of(table));
    }
}

/// The table that a lookup query addresses.
#[derive(Clone, Copy, Debug, PartialEq, Eq, Structural)]
pub enum LookupQueryTableType {
    Variable(Variable),
    Constant(TableType),
}

/// One row that must occur in a table.
#[derive(Debug)]
pub struct LookupQuery {
    pub row: [LookupInput; 3],
    pub table: LookupQueryTableType,
}

/// A boolean circuit value.
#[derive(Clone, Copy, Debug, PartialEq, Eq, Structural)]
pub enum Boolean {
    Is(Variable),
    Not(Variable),
    Constant(bool),
}

impl Boolean {
    /// The variable behind the value, if it is not a constant.
    pub open spec fn variable(self) -> Option<Variable> {
        match self {
            Boolean::Is(v) => Some(v),
            Boolean::Not(v) => Some(v),
            Boolean::Constant(_) => None,
        }
    }

    /// The variable behind the value, if it is not a constant.
    pub fn get_variable(&self) -> (r: Option<Variable>)
        ensures
            r == self.variable(),
    {
        match self {
            Boolean::Is(v) => Some(*v),
            Boolean::Not(v) => Some(*v),
            Boolean::Constant(_) => None,
        }
    }
}

/// A circuit number: a variable or a constant.
#[derive(Clone, Copy, Debug, PartialEq, Eq, Structural)]
pub enum Num {
    Var(Variable),
    Constant(Mersenne31Field),
}

/// One guarded row of a disjunctive lookup.
#[derive(Debug)]
pub struct DisjunctiveLookupCase {
    pub flag: Boolean,
    pub row: [LookupInput; 3],
    pub table: Num,
}

/// Guarded rows of which at most one is active.
#[derive(Debug)]
pub struct DisjunctiveLookup {
    pub relation_index: usize,
    pub cases: Vec<DisjunctiveLookupCase>,
}

/// Metadata that only constraint extraction reads.
#[derive(Debug)]
pub struct PicusExtractionMetadata {
    pub disjunctive_lookups: Vec<DisjunctiveLookup>,
}

/// What a memory query addresses.
#[derive(Clone, Copy, Debug)]
pub enum ShuffleRamQueryType {
    RegisterOnly { register_index: Variable },
    RegisterOrRam { is_register: Boolean, address: [Variable; 2] },
}

/// One access of the shuffle RAM argument; both values are pairs of 16-bit limbs.
#[derive(Clone, Copy, Debug)]
pub struct ShuffleRamMemQuery {
    pub query_type: ShuffleRamQueryType,
    pub local_timestamp_in_cycle: usize,
    pub read_value: [Variable; 2],
    pub write_value: [Variable; 2],
}

impl ShuffleRamMemQuery {
    /// A query that writes back the variables that it read.
    pub open spec fn readonly(self) -> bool {
        self.read_value@ == self.write_value@
    }

    /// Whether the query writes back the variables that it read.
    pub fn is_readonly(&self) -> (r: bool)
        ensures
            r == self.readonly(),
    {
        let r = self.read_value[0] == self.write_value[0] && self.read_value[1]
            == self.write_value[1];
        assert(r == (self.read_value@ =~= self.write_value@));
        r
    }
}

/// A checked bit width of a lookup input.
#[derive(Debug)]
pub struct RangeCheckQuery {
    pub input: LookupInput,
    pub width: usize,
}

impl RangeCheckQuery {
    /// The check that a variable fits in `width` bits.
    pub fn new(variable: Variable, width: usize) -> (r: Self)
        ensures
            r == (RangeCheckQuery { input: LookupInput::Variable(variable), width }),
    {
        RangeCheckQuery { input: LookupInput::Variable(variable), width }
    }
}

/// Program counter and timestamp, as pairs of limbs.
#[derive(Clone, Copy, Debug)]
pub struct MachineCycleState {
    pub pc: [Variable; 2],
    pub timestamp: [Variable; 2],
}

/// What the preprocessed decoder hands to a circuit family.
#[derive(Clone, Copy, Debug)]
pub struct DecoderData {
    pub rs1_index: Variable,
    pub rs2_index: Variable,
    pub rd_index: Variable,
    pub rd_is_zero: Variable,
    pub imm: [Variable; 2],
    pub funct3: Variable,
    pub funct7: Option<Variable>,
    pub circuit_family_extra_mask: Variable,
}

/// The machine state that one opcode family circuit consumes and produces.
#[derive(Clone, Copy, Debug)]
pub struct OpcodeFamilyCircuitState {
    pub execute: Variable,
    pub cycle_start_state: MachineCycleState,
    pub cycle_end_state: MachineCycleState,
    pub decoder_data: DecoderData,
}

/// A named source of witness values.
#[derive(Clone, Copy, Debug, PartialEq, Eq, Structural)]
pub enum Placeholder {
    XregsInit,
    XregsFin,
    XregInit(usize),
    XregFin(usize),
    Instruction,
    MemSlot,
    PcInit,
    PcFin,
    StatusInit,
    StatusFin,
    IeInit,
    IeFin,
    IpInit,
    IpFin,
    TvecInit,
    TvecFin,
    ScratchInit,
    ScratchFin,
    EpcInit,
    EpcFin,
    CauseInit,
    CauseFin,
    TvalInit,
    TvalFin,
    ModeInit,
    ModeFin,
    MemorySaptInit,
    MemorySaptFin,
    ContinueExecutionInit,
    ContinueExecutionFin,
    ExternalOracle,
    Trapped,
    InvalidEncoding,
    FirstRegMem,
    SecondRegMem,
    WriteRegMemReadWitness,
    WriteRegMemWriteValue,
    MemoryLoadOp,
    WriteRdReadSetWitness,
    ShuffleRamLazyInitAddressThis,
    ShuffleRamLazyInitAddressNext,
    ShuffleRamAddress(usize),
    ShuffleRamReadTimestamp(usize),
    ShuffleRamReadValue(usize),
    ShuffleRamIsRegisterAccess(usize),
    ShuffleRamWriteValue(usize),
    ExecuteDelegation,
    DelegationType,
    DelegationABIOffset,
    DelegationWriteTimestamp,
    DelegationMemoryReadValue(usize),
    DelegationMemoryReadTimestamp(usize),
    DelegationMemoryWriteValue(usize),
    DelegationRegisterReadValue(usize),
    DelegationRegisterReadTimestamp(usize),
    DelegationRegisterWriteValue(usize),
    DelegationIndirectReadValue { register_index: usize, word_index: usize },
    DelegationIndirectReadTimestamp { register_index: usize, word_index: usize },
    DelegationIndirectWriteValue { register_index: usize, word_index: usize },
    DelegationNondeterminismAccess(usize),
    DelegationNondeterminismAccessNoSplits(usize),
    ExecuteOpcodeFamilyCycle,
    OpcodeFamilyCycleInitialTimestamp,
    OpcodeFamilyCycleFinalTimestamp,
    RS1Index,
    RS2Index,
    MemLoadAddress,
    RDIndex,
    RDIsZero,
    DecodedImm,
    DecodedFunct3,
    DecodedFunct7,
    DecodedExecutorFamilyMask,
    LoadStoreRamValue,
    MemStoreAddress,
    DelegationIndirectAccessVariableOffset { variable_index: usize },
}

/// One limb of a placeholder together with the variable that already carries it.
#[derive(Clone, Copy, Debug, PartialEq, Eq, Structural)]
pub struct Substitution {
    pub placeholder: Placeholder,
    pub subindex: usize,
    pub variable: Variable,
}

/// A finalized circuit.
#[derive(Debug)]
pub struct CircuitOutput {
    pub num_of_variables: usize,
    pub constraints: Vec<(Constraint, bool)>,
    pub lookups: Vec<LookupQuery>,
    pub boolean_vars: Vec<Variable>,
    pub range_check_expressions: Vec<RangeCheckQuery>,
    pub shuffle_ram_queries: Vec<ShuffleRamMemQuery>,
    pub executor_machine_state: Option<OpcodeFamilyCircuitState>,
    pub picus_extraction_metadata: PicusExtractionMetadata,
    pub substitutions: Vec<Substitution>,
    /// Rows of the `SpecialCSRProperties` table, where the circuit has one.
    pub special_csr_table: Option<Vec<[Mersenne31Field; 3]>>,
    pub table_ids: TableIds,
}

} // verus!
