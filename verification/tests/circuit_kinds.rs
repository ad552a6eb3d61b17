use airbender_analysis::fuzzing::circuits::{
    CircuitKind, ADD_SUB_LUI_AUIPC_MOP_CIRCUIT_FAMILY_IDX, BLAKE_DELEGATION_KIND_MASK,
    INITS_AND_TEARDOWNS_FORMAL_CIRCUIT_FAMILY_IDX, JUMP_BRANCH_SLT_CIRCUIT_FAMILY_IDX,
    KECCAK_DELEGATION_KIND_MASK, LOAD_STORE_SUBWORD_ONLY_CIRCUIT_FAMILY_IDX,
    LOAD_STORE_WORD_ONLY_CIRCUIT_FAMILY_IDX, MUL_DIV_CIRCUIT_FAMILY_IDX,
    SHIFT_BINARY_CSR_CIRCUIT_FAMILY_IDX,
};

#[test]
fn circuit_kind_encodings_match_expected_values() {
    let cases = [
        (
            CircuitKind::AddSubLuiAuipcMop,
            ADD_SUB_LUI_AUIPC_MOP_CIRCUIT_FAMILY_IDX,
            ADD_SUB_LUI_AUIPC_MOP_CIRCUIT_FAMILY_IDX,
        ),
        (
            CircuitKind::JumpBranchSlt,
            JUMP_BRANCH_SLT_CIRCUIT_FAMILY_IDX,
            JUMP_BRANCH_SLT_CIRCUIT_FAMILY_IDX,
        ),
        (
            CircuitKind::XorAndOrShiftCsr,
            SHIFT_BINARY_CSR_CIRCUIT_FAMILY_IDX,
            SHIFT_BINARY_CSR_CIRCUIT_FAMILY_IDX,
        ),
        (CircuitKind::MulDiv, MUL_DIV_CIRCUIT_FAMILY_IDX, MUL_DIV_CIRCUIT_FAMILY_IDX),
        (
            CircuitKind::LoadStore,
            LOAD_STORE_WORD_ONLY_CIRCUIT_FAMILY_IDX,
            LOAD_STORE_WORD_ONLY_CIRCUIT_FAMILY_IDX,
        ),
        (
            CircuitKind::SubwordLoadStore,
            LOAD_STORE_SUBWORD_ONLY_CIRCUIT_FAMILY_IDX,
            LOAD_STORE_SUBWORD_ONLY_CIRCUIT_FAMILY_IDX,
        ),
        (
            CircuitKind::InitsAndTeardowns,
            INITS_AND_TEARDOWNS_FORMAL_CIRCUIT_FAMILY_IDX,
            INITS_AND_TEARDOWNS_FORMAL_CIRCUIT_FAMILY_IDX,
        ),
        (
            CircuitKind::BlakeDelegation,
            SHIFT_BINARY_CSR_CIRCUIT_FAMILY_IDX | BLAKE_DELEGATION_KIND_MASK,
            SHIFT_BINARY_CSR_CIRCUIT_FAMILY_IDX,
        ),
        (
            CircuitKind::KeccakDelegation,
            SHIFT_BINARY_CSR_CIRCUIT_FAMILY_IDX | KECCAK_DELEGATION_KIND_MASK,
            SHIFT_BINARY_CSR_CIRCUIT_FAMILY_IDX,
        ),
    ];

    for (kind, encoded, family_idx) in cases {
        assert_eq!(kind.as_u8(), encoded, "{kind:?} encoded value mismatch");
        assert_eq!(kind.family_idx(), family_idx, "{kind:?} family idx mismatch");
    }
}

#[test]
fn circuit_kind_from_family_idx_matches_expected_values() {
    let cases = [
        (ADD_SUB_LUI_AUIPC_MOP_CIRCUIT_FAMILY_IDX, Some(CircuitKind::AddSubLuiAuipcMop)),
        (JUMP_BRANCH_SLT_CIRCUIT_FAMILY_IDX, Some(CircuitKind::JumpBranchSlt)),
        (SHIFT_BINARY_CSR_CIRCUIT_FAMILY_IDX, Some(CircuitKind::XorAndOrShiftCsr)),
        (MUL_DIV_CIRCUIT_FAMILY_IDX, Some(CircuitKind::MulDiv)),
        (LOAD_STORE_WORD_ONLY_CIRCUIT_FAMILY_IDX, Some(CircuitKind::LoadStore)),
        (LOAD_STORE_SUBWORD_ONLY_CIRCUIT_FAMILY_IDX, Some(CircuitKind::SubwordLoadStore)),
        (INITS_AND_TEARDOWNS_FORMAL_CIRCUIT_FAMILY_IDX, Some(CircuitKind::InitsAndTeardowns)),
        (0, None),
        (128, None),
    ];

    for (family_idx, expected) in cases {
        assert_eq!(CircuitKind::from_family_idx(family_idx), expected);
    }
}

#[test]
fn only_the_first_family_is_fuzzed() {
    assert_eq!(CircuitKind::all(), vec![CircuitKind::AddSubLuiAuipcMop]);
    assert_eq!(CircuitKind::AddSubLuiAuipcMop.slug(), "add_sub_lui_auipc_mop");
    assert_eq!(CircuitKind::KeccakDelegation.slug(), "keccak_delegation");
}
