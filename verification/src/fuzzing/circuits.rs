//! The circuits that proofs are made of.
use vstd::prelude::*;

verus! {

pub const ADD_SUB_LUI_AUIPC_MOP_CIRCUIT_FAMILY_IDX: u8 = 1;

pub const JUMP_BRANCH_SLT_CIRCUIT_FAMILY_IDX: u8 = 2;

pub const SHIFT_BINARY_CSR_CIRCUIT_FAMILY_IDX: u8 = 3;

pub const MUL_DIV_CIRCUIT_FAMILY_IDX: u8 = 4;

pub const LOAD_STORE_WORD_ONLY_CIRCUIT_FAMILY_IDX: u8 = 5;

pub const LOAD_STORE_SUBWORD_ONLY_CIRCUIT_FAMILY_IDX: u8 = 6;

pub const INITS_AND_TEARDOWNS_FORMAL_CIRCUIT_FAMILY_IDX: u8 = 7;

/// The bit that marks the Blake delegation within its family.
pub const BLAKE_DELEGATION_KIND_MASK: u8 = 0x20;

/// The bit that marks the Keccak delegation within its family.
pub const KECCAK_DELEGATION_KIND_MASK: u8 = 0x40;

/// The bits that mark delegations.
pub const DELEGATION_KIND_MASK: u8 = 0x60;

/// The circuits.
#[derive(Clone, Copy, Debug, PartialEq, Eq, Structural)]
pub enum CircuitKind {
    AddSubLuiAuipcMop,
    JumpBranchSlt,
    XorAndOrShiftCsr,
    MulDiv,
    LoadStore,
    SubwordLoadStore,
    InitsAndTeardowns,
    BlakeDelegation,
    KeccakDelegation,
}

impl CircuitKind {
    /// The family that a circuit belongs to: a delegation belongs to the family that calls it.
    pub open spec fn family(self) -> u8 {
        match self {
            CircuitKind::AddSubLuiAuipcMop => ADD_SUB_LUI_AUIPC_MOP_CIRCUIT_FAMILY_IDX,
            CircuitKind::JumpBranchSlt => JUMP_BRANCH_SLT_CIRCUIT_FAMILY_IDX,
            CircuitKind::XorAndOrShiftCsr => SHIFT_BINARY_CSR_CIRCUIT_FAMILY_IDX,
            CircuitKind::MulDiv => MUL_DIV_CIRCUIT_FAMILY_IDX,
            CircuitKind::LoadStore => LOAD_STORE_WORD_ONLY_CIRCUIT_FAMILY_IDX,
            CircuitKind::SubwordLoadStore => LOAD_STORE_SUBWORD_ONLY_CIRCUIT_FAMILY_IDX,
            CircuitKind::InitsAndTeardowns => INITS_AND_TEARDOWNS_FORMAL_CIRCUIT_FAMILY_IDX,
            CircuitKind::BlakeDelegation => SHIFT_BINARY_CSR_CIRCUIT_FAMILY_IDX,
            CircuitKind::KeccakDelegation => SHIFT_BINARY_CSR_CIRCUIT_FAMILY_IDX,
        }
    }

    /// The bit that marks a delegation; no bit for the other circuits.
    pub open spec fn mask(self) -> u8 {
        match self {
            CircuitKind::BlakeDelegation => BLAKE_DELEGATION_KIND_MASK,
            CircuitKind::KeccakDelegation => KECCAK_DELEGATION_KIND_MASK,
            _ => 0,
        }
    }

    /// The number that stands for a circuit: its family and its mark.
    pub open spec fn code(self) -> u8 {
        (self.family() + self.mask()) as u8
    }

    /// The circuit of a family that is no delegation.
    pub open spec fn of_family(family_idx: u8) -> Option<CircuitKind> {
        if family_idx == ADD_SUB_LUI_AUIPC_MOP_CIRCUIT_FAMILY_IDX {
            Some(CircuitKind::AddSubLuiAuipcMop)
        } else if family_idx == JUMP_BRANCH_SLT_CIRCUIT_FAMILY_IDX {
            Some(CircuitKind::JumpBranchSlt)
        } else if family_idx == SHIFT_BINARY_CSR_CIRCUIT_FAMILY_IDX {
            Some(CircuitKind::XorAndOrShiftCsr)
        } else if family_idx == MUL_DIV_CIRCUIT_FAMILY_IDX {
            Some(CircuitKind::MulDiv)
        } else if family_idx == LOAD_STORE_WORD_ONLY_CIRCUIT_FAMILY_IDX {
            Some(CircuitKind::LoadStore)
        } else if family_idx == LOAD_STORE_SUBWORD_ONLY_CIRCUIT_FAMILY_IDX {
            Some(CircuitKind::SubwordLoadStore)
        } else if family_idx == INITS_AND_TEARDOWNS_FORMAL_CIRCUIT_FAMILY_IDX {
            Some(CircuitKind::InitsAndTeardowns)
        } else {
            None
        }
    }

    /// The name of a circuit in file names.
    pub open spec fn slug_text(self) -> Seq<char> {
        match self {
            CircuitKind::AddSubLuiAuipcMop => "add_sub_lui_auipc_mop"@,
            CircuitKind::JumpBranchSlt => "jump_branch_slt"@,
            CircuitKind::XorAndOrShiftCsr => "xor_and_or_shift_csr"@,
            CircuitKind::MulDiv => "mul_div"@,
            CircuitKind::LoadStore => "load_store"@,
            CircuitKind::SubwordLoadStore => "subword_load_store"@,
            CircuitKind::InitsAndTeardowns => "inits_and_teardowns"@,
            CircuitKind::BlakeDelegation => "blake_delegation"@,
            CircuitKind::KeccakDelegation => "keccak_delegation"@,
        }
    }

    /// The circuits that are fuzzed.
    pub fn all() -> (r: Vec<CircuitKind>)
        ensures
            r@ == seq![CircuitKind::AddSubLuiAuipcMop],
    {
        let mut kinds: Vec<CircuitKind> = Vec::new();
        kinds.push(CircuitKind::AddSubLuiAuipcMop);
        assert(kinds@ =~= seq![CircuitKind::AddSubLuiAuipcMop]);
        kinds
    }

    /// The name of the circuit in file names.
    pub fn slug(&self) -> (r: &'static str)
        ensures
            r@ == self.slug_text(),
    {
        match self {
            CircuitKind::AddSubLuiAuipcMop => "add_sub_lui_auipc_mop",
            CircuitKind::JumpBranchSlt => "jump_branch_slt",
            CircuitKind::XorAndOrShiftCsr => "xor_and_or_shift_csr",
            CircuitKind::MulDiv => "mul_div",
            CircuitKind::LoadStore => "load_store",
            CircuitKind::SubwordLoadStore => "subword_load_store",
            CircuitKind::InitsAndTeardowns => "inits_and_teardowns",
            CircuitKind::BlakeDelegation => "blake_delegation",
            CircuitKind::KeccakDelegation => "keccak_delegation",
        }
    }

    /// The number that stands for the circuit.
    pub fn as_u8(self) -> (r: u8)
        ensures
            r == self.code(),
    {
        match self {
            CircuitKind::AddSubLuiAuipcMop => ADD_SUB_LUI_AUIPC_MOP_CIRCUIT_FAMILY_IDX,
            CircuitKind::JumpBranchSlt => JUMP_BRANCH_SLT_CIRCUIT_FAMILY_IDX,
            CircuitKind::XorAndOrShiftCsr => SHIFT_BINARY_CSR_CIRCUIT_FAMILY_IDX,
            CircuitKind::MulDiv => MUL_DIV_CIRCUIT_FAMILY_IDX,
            CircuitKind::LoadStore => LOAD_STORE_WORD_ONLY_CIRCUIT_FAMILY_IDX,
            CircuitKind::SubwordLoadStore => LOAD_STORE_SUBWORD_ONLY_CIRCUIT_FAMILY_IDX,
            CircuitKind::InitsAndTeardowns => INITS_AND_TEARDOWNS_FORMAL_CIRCUIT_FAMILY_IDX,
            CircuitKind::BlakeDelegation => {
                assert(3u8 | 0x20u8 == 0x23u8) by (bit_vector);
                SHIFT_BINARY_CSR_CIRCUIT_FAMILY_IDX | BLAKE_DELEGATION_KIND_MASK
            },
            CircuitKind::KeccakDelegation => {
                assert(3u8 | 0x40u8 == 0x43u8) by (bit_vector);
                SHIFT_BINARY_CSR_CIRCUIT_FAMILY_IDX | KECCAK_DELEGATION_KIND_MASK
            },
        }
    }

    /// The family of the circuit.
    pub fn family_idx(self) -> (r: u8)
        ensures
            r == self.family(),
    {
        match self {
            CircuitKind::BlakeDelegation | CircuitKind::KeccakDelegation => {
                assert(0x23u8 & !0x60u8 == 3u8) by (bit_vector);
                assert(0x43u8 & !0x60u8 == 3u8) by (bit_vector);
                self.as_u8() & !DELEGATION_KIND_MASK
            },
            _ => self.as_u8(),
        }
    }

    /// The circuit of a family that is no delegation, if the family has one.
    pub fn from_family_idx(family_idx: u8) -> (r: Option<CircuitKind>)
        ensures
            r == CircuitKind::of_family(family_idx),
    {
        match family_idx {
            ADD_SUB_LUI_AUIPC_MOP_CIRCUIT_FAMILY_IDX => Some(CircuitKind::AddSubLuiAuipcMop),
            JUMP_BRANCH_SLT_CIRCUIT_FAMILY_IDX => Some(CircuitKind::JumpBranchSlt),
            SHIFT_BINARY_CSR_CIRCUIT_FAMILY_IDX => Some(CircuitKind::XorAndOrShiftCsr),
            MUL_DIV_CIRCUIT_FAMILY_IDX => Some(CircuitKind::MulDiv),
            LOAD_STORE_WORD_ONLY_CIRCUIT_FAMILY_IDX => Some(CircuitKind::LoadStore),
            LOAD_STORE_SUBWORD_ONLY_CIRCUIT_FAMILY_IDX => Some(CircuitKind::SubwordLoadStore),
            INITS_AND_TEARDOWNS_FORMAL_CIRCUIT_FAMILY_IDX => Some(CircuitKind::InitsAndTeardowns),
            _ => None,
        }
    }
}

/// Two circuits are told apart by their numbers.
pub proof fn codes_differ(a: CircuitKind, b: CircuitKind)
    ensures
        a.code() == b.code() ==> a == b,
{
}

/// The family of a circuit is its number without the bits that mark delegations.
pub proof fn families_are_unmarked_codes(kind: CircuitKind)
    ensures
        kind.family() == kind.code() & !DELEGATION_KIND_MASK,
{
    assert(1u8 & !0x60u8 == 1u8 && 2u8 & !0x60u8 == 2u8 && 3u8 & !0x60u8 == 3u8 && 4u8 & !0x60u8
        == 4u8 && 5u8 & !0x60u8 == 5u8 && 6u8 & !0x60u8 == 6u8 && 7u8 & !0x60u8 == 7u8 && 0x23u8
        & !0x60u8 == 3u8 && 0x43u8 & !0x60u8 == 3u8) by (bit_vector);
}

/// The family of a circuit leads back to it, or for a delegation to the circuit that calls it.
pub proof fn families_lead_back(kind: CircuitKind)
    ensures
        CircuitKind::of_family(kind.family()) == Some(
            if kind.mask() == 0 {
                kind
            } else {
                CircuitKind::XorAndOrShiftCsr
            },
        ),
{
}

/// The circuits are numbered in the order of their families, and the delegations by the family that
/// calls them with a bit each.
pub proof fn circuits_are_numbered()
    ensures
        CircuitKind::AddSubLuiAuipcMop.code() == 1,
        CircuitKind::JumpBranchSlt.code() == 2,
        CircuitKind::XorAndOrShiftCsr.code() == 3,
        CircuitKind::MulDiv.code() == 4,
        CircuitKind::LoadStore.code() == 5,
        CircuitKind::SubwordLoadStore.code() == 6,
        CircuitKind::InitsAndTeardowns.code() == 7,
        CircuitKind::BlakeDelegation.code() == 3 + 0x20,
        CircuitKind::KeccakDelegation.code() == 3 + 0x40,
        forall|f: u8| #[trigger] CircuitKind::of_family(f) is Some <==> 1 <= f <= 7,
{
}

/// The names of circuits in file names differ.
pub proof fn slugs_differ(a: CircuitKind, b: CircuitKind)
    ensures
        a.slug_text() == b.slug_text() ==> a == b,
{
    reveal_strlit("add_sub_lui_auipc_mop");
    reveal_strlit("jump_branch_slt");
    reveal_strlit("xor_and_or_shift_csr");
    reveal_strlit("mul_div");
    reveal_strlit("load_store");
    reveal_strlit("subword_load_store");
    reveal_strlit("inits_and_teardowns");
    reveal_strlit("blake_delegation");
    reveal_strlit("keccak_delegation");
    if a.slug_text() == b.slug_text() {
        assert(a.slug_text().len() == b.slug_text().len());
        assert(a.slug_text()[0] == b.slug_text()[0]);
    }
}

} // verus!
