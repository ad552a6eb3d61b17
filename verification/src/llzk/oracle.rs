//! The form in which oracle hooks name the placeholders that they read.
use vstd::prelude::*;

use crate::circuit::Placeholder;

verus! {

/// A placeholder as three numbers: its kind and up to two parameters.
#[derive(Clone, Copy, Debug, PartialEq, Eq, Structural)]
pub struct EncodedOraclePlaceholder {
    pub kind: u64,
    pub arg0: u64,
    pub arg1: u64,
}

/// The encoding with the given parts.
pub open spec fn encoded(kind: u64, arg0: u64, arg1: u64) -> EncodedOraclePlaceholder {
    EncodedOraclePlaceholder { kind, arg0, arg1 }
}

fn encode(kind: u64, arg0: u64, arg1: u64) -> (r: EncodedOraclePlaceholder)
    ensures
        r == encoded(kind, arg0, arg1),
{
    EncodedOraclePlaceholder { kind, arg0, arg1 }
}

/// The encoding of a placeholder.
pub open spec fn encoding(placeholder: Placeholder) -> EncodedOraclePlaceholder {
    match placeholder {
        Placeholder::XregsInit => encoded(0, 0, 0),
        Placeholder::XregsFin => encoded(1, 0, 0),
        Placeholder::XregInit(i) => encoded(2, i as u64, 0),
        Placeholder::XregFin(i) => encoded(3, i as u64, 0),
        Placeholder::Instruction => encoded(4, 0, 0),
        Placeholder::MemSlot => encoded(5, 0, 0),
        Placeholder::PcInit => encoded(6, 0, 0),
        Placeholder::PcFin => encoded(7, 0, 0),
        Placeholder::StatusInit => encoded(8, 0, 0),
        Placeholder::StatusFin => encoded(9, 0, 0),
        Placeholder::IeInit => encoded(10, 0, 0),
        Placeholder::IeFin => encoded(11, 0, 0),
        Placeholder::IpInit => encoded(12, 0, 0),
        Placeholder::IpFin => encoded(13, 0, 0),
        Placeholder::TvecInit => encoded(14, 0, 0),
        Placeholder::TvecFin => encoded(15, 0, 0),
        Placeholder::ScratchInit => encoded(16, 0, 0),
        Placeholder::ScratchFin => encoded(17, 0, 0),
        Placeholder::EpcInit => encoded(18, 0, 0),
        Placeholder::EpcFin => encoded(19, 0, 0),
        Placeholder::CauseInit => encoded(20, 0, 0),
        Placeholder::CauseFin => encoded(21, 0, 0),
        Placeholder::TvalInit => encoded(22, 0, 0),
        Placeholder::TvalFin => encoded(23, 0, 0),
        Placeholder::ModeInit => encoded(24, 0, 0),
        Placeholder::ModeFin => encoded(25, 0, 0),
        Placeholder::MemorySaptInit => encoded(26, 0, 0),
        Placeholder::MemorySaptFin => encoded(27, 0, 0),
        Placeholder::ContinueExecutionInit => encoded(28, 0, 0),
        Placeholder::ContinueExecutionFin => encoded(29, 0, 0),
        Placeholder::ExternalOracle => encoded(30, 0, 0),
        Placeholder::Trapped => encoded(31, 0, 0),
        Placeholder::InvalidEncoding => encoded(32, 0, 0),
        Placeholder::FirstRegMem => encoded(33, 0, 0),
        Placeholder::SecondRegMem => encoded(34, 0, 0),
        Placeholder::WriteRegMemReadWitness => encoded(35, 0, 0),
        Placeholder::WriteRegMemWriteValue => encoded(36, 0, 0),
        Placeholder::MemoryLoadOp => encoded(37, 0, 0),
        Placeholder::WriteRdReadSetWitness => encoded(38, 0, 0),
        Placeholder::ShuffleRamLazyInitAddressThis => encoded(39, 0, 0),
        Placeholder::ShuffleRamLazyInitAddressNext => encoded(40, 0, 0),
        Placeholder::ShuffleRamAddress(i) => encoded(41, i as u64, 0),
        Placeholder::ShuffleRamReadTimestamp(i) => encoded(42, i as u64, 0),
        Placeholder::ShuffleRamReadValue(i) => encoded(43, i as u64, 0),
        Placeholder::ShuffleRamIsRegisterAccess(i) => encoded(44, i as u64, 0),
        Placeholder::ShuffleRamWriteValue(i) => encoded(45, i as u64, 0),
        Placeholder::ExecuteDelegation => encoded(46, 0, 0),
        Placeholder::DelegationType => encoded(47, 0, 0),
        Placeholder::DelegationABIOffset => encoded(48, 0, 0),
        Placeholder::DelegationWriteTimestamp => encoded(49, 0, 0),
        Placeholder::DelegationMemoryReadValue(i) => encoded(50, i as u64, 0),
        Placeholder::DelegationMemoryReadTimestamp(i) => encoded(51, i as u64, 0),
        Placeholder::DelegationMemoryWriteValue(i) => encoded(52, i as u64, 0),
        Placeholder::DelegationRegisterReadValue(i) => encoded(53, i as u64, 0),
        Placeholder::DelegationRegisterReadTimestamp(i) => encoded(54, i as u64, 0),
        Placeholder::DelegationRegisterWriteValue(i) => encoded(55, i as u64, 0),
        Placeholder::DelegationIndirectReadValue { register_index, word_index } => encoded(56, register_index as u64, word_index as u64),
        Placeholder::DelegationIndirectReadTimestamp { register_index, word_index } => encoded(57, register_index as u64, word_index as u64),
        Placeholder::DelegationIndirectWriteValue { register_index, word_index } => encoded(58, register_index as u64, word_index as u64),
        Placeholder::DelegationNondeterminismAccess(i) => encoded(59, i as u64, 0),
        Placeholder::DelegationNondeterminismAccessNoSplits(i) => encoded(60, i as u64, 0),
        Placeholder::ExecuteOpcodeFamilyCycle => encoded(61, 0, 0),
        Placeholder::OpcodeFamilyCycleInitialTimestamp => encoded(62, 0, 0),
        Placeholder::OpcodeFamilyCycleFinalTimestamp => encoded(63, 0, 0),
        Placeholder::RS1Index => encoded(64, 0, 0),
        Placeholder::RS2Index => encoded(65, 0, 0),
        Placeholder::MemLoadAddress => encoded(66, 0, 0),
        Placeholder::RDIndex => encoded(67, 0, 0),
        Placeholder::RDIsZero => encoded(68, 0, 0),
        Placeholder::DecodedImm => encoded(69, 0, 0),
        Placeholder::DecodedFunct3 => encoded(70, 0, 0),
        Placeholder::DecodedFunct7 => encoded(71, 0, 0),
        Placeholder::DecodedExecutorFamilyMask => encoded(72, 0, 0),
        Placeholder::LoadStoreRamValue => encoded(73, 0, 0),
        Placeholder::MemStoreAddress => encoded(74, 0, 0),
        Placeholder::DelegationIndirectAccessVariableOffset { variable_index } => encoded(75, variable_index as u64, 0),
    }
}

/// Encodes a placeholder.
pub fn encode_oracle_placeholder(placeholder: Placeholder) -> (r: EncodedOraclePlaceholder)
    ensures
        r == encoding(placeholder),
{
    match placeholder {
        Placeholder::XregsInit => encode(0, 0, 0),
        Placeholder::XregsFin => encode(1, 0, 0),
        Placeholder::XregInit(i) => encode(2, i as u64, 0),
        Placeholder::XregFin(i) => encode(3, i as u64, 0),
        Placeholder::Instruction => encode(4, 0, 0),
        Placeholder::MemSlot => encode(5, 0, 0),
        Placeholder::PcInit => encode(6, 0, 0),
        Placeholder::PcFin => encode(7, 0, 0),
        Placeholder::StatusInit => encode(8, 0, 0),
        Placeholder::StatusFin => encode(9, 0, 0),
        Placeholder::IeInit => encode(10, 0, 0),
        Placeholder::IeFin => encode(11, 0, 0),
        Placeholder::IpInit => encode(12, 0, 0),
        Placeholder::IpFin => encode(13, 0, 0),
        Placeholder::TvecInit => encode(14, 0, 0),
        Placeholder::TvecFin => encode(15, 0, 0),
        Placeholder::ScratchInit => encode(16, 0, 0),
        Placeholder::ScratchFin => encode(17, 0, 0),
        Placeholder::EpcInit => encode(18, 0, 0),
        Placeholder::EpcFin => encode(19, 0, 0),
        Placeholder::CauseInit => encode(20, 0, 0),
        Placeholder::CauseFin => encode(21, 0, 0),
        Placeholder::TvalInit => encode(22, 0, 0),
        Placeholder::TvalFin => encode(23, 0, 0),
        Placeholder::ModeInit => encode(24, 0, 0),
        Placeholder::ModeFin => encode(25, 0, 0),
        Placeholder::MemorySaptInit => encode(26, 0, 0),
        Placeholder::MemorySaptFin => encode(27, 0, 0),
        Placeholder::ContinueExecutionInit => encode(28, 0, 0),
        Placeholder::ContinueExecutionFin => encode(29, 0, 0),
        Placeholder::ExternalOracle => encode(30, 0, 0),
        Placeholder::Trapped => encode(31, 0, 0),
        Placeholder::InvalidEncoding => encode(32, 0, 0),
        Placeholder::FirstRegMem => encode(33, 0, 0),
        Placeholder::SecondRegMem => encode(34, 0, 0),
        Placeholder::WriteRegMemReadWitness => encode(35, 0, 0),
        Placeholder::WriteRegMemWriteValue => encode(36, 0, 0),
        Placeholder::MemoryLoadOp => encode(37, 0, 0),
        Placeholder::WriteRdReadSetWitness => encode(38, 0, 0),
        Placeholder::ShuffleRamLazyInitAddressThis => encode(39, 0, 0),
        Placeholder::ShuffleRamLazyInitAddressNext => encode(40, 0, 0),
        Placeholder::ShuffleRamAddress(i) => encode(41, i as u64, 0),
        Placeholder::ShuffleRamReadTimestamp(i) => encode(42, i as u64, 0),
        Placeholder::ShuffleRamReadValue(i) => encode(43, i as u64, 0),
        Placeholder::ShuffleRamIsRegisterAccess(i) => encode(44, i as u64, 0),
        Placeholder::ShuffleRamWriteValue(i) => encode(45, i as u64, 0),
        Placeholder::ExecuteDelegation => encode(46, 0, 0),
        Placeholder::DelegationType => encode(47, 0, 0),
        Placeholder::DelegationABIOffset => encode(48, 0, 0),
        Placeholder::DelegationWriteTimestamp => encode(49, 0, 0),
        Placeholder::DelegationMemoryReadValue(i) => encode(50, i as u64, 0),
        Placeholder::DelegationMemoryReadTimestamp(i) => encode(51, i as u64, 0),
        Placeholder::DelegationMemoryWriteValue(i) => encode(52, i as u64, 0),
        Placeholder::DelegationRegisterReadValue(i) => encode(53, i as u64, 0),
        Placeholder::DelegationRegisterReadTimestamp(i) => encode(54, i as u64, 0),
        Placeholder::DelegationRegisterWriteValue(i) => encode(55, i as u64, 0),
        Placeholder::DelegationIndirectReadValue { register_index, word_index } => encode(56, register_index as u64, word_index as u64),
        Placeholder::DelegationIndirectReadTimestamp { register_index, word_index } => encode(57, register_index as u64, word_index as u64),
        Placeholder::DelegationIndirectWriteValue { register_index, word_index } => encode(58, register_index as u64, word_index as u64),
        Placeholder::DelegationNondeterminismAccess(i) => encode(59, i as u64, 0),
        Placeholder::DelegationNondeterminismAccessNoSplits(i) => encode(60, i as u64, 0),
        Placeholder::ExecuteOpcodeFamilyCycle => encode(61, 0, 0),
        Placeholder::OpcodeFamilyCycleInitialTimestamp => encode(62, 0, 0),
        Placeholder::OpcodeFamilyCycleFinalTimestamp => encode(63, 0, 0),
        Placeholder::RS1Index => encode(64, 0, 0),
        Placeholder::RS2Index => encode(65, 0, 0),
        Placeholder::MemLoadAddress => encode(66, 0, 0),
        Placeholder::RDIndex => encode(67, 0, 0),
        Placeholder::RDIsZero => encode(68, 0, 0),
        Placeholder::DecodedImm => encode(69, 0, 0),
        Placeholder::DecodedFunct3 => encode(70, 0, 0),
        Placeholder::DecodedFunct7 => encode(71, 0, 0),
        Placeholder::DecodedExecutorFamilyMask => encode(72, 0, 0),
        Placeholder::LoadStoreRamValue => encode(73, 0, 0),
        Placeholder::MemStoreAddress => encode(74, 0, 0),
        Placeholder::DelegationIndirectAccessVariableOffset { variable_index } => encode(75, variable_index as u64, 0),
    }
}

/// Different placeholders have different encodings.
pub proof fn encodings_differ(a: Placeholder, b: Placeholder)
    ensures
        encoding(a) == encoding(b) ==> a == b,
{
}

/// The placeholder that three numbers name: the kinds are numbered in the order of this list.
pub open spec fn placeholder_of(e: EncodedOraclePlaceholder) -> Option<Placeholder> {
    if e.kind == 0 {
        Some(Placeholder::XregsInit)
    } else if e.kind == 1 {
        Some(Placeholder::XregsFin)
    } else if e.kind == 2 {
        Some(Placeholder::XregInit(e.arg0 as usize))
    } else if e.kind == 3 {
        Some(Placeholder::XregFin(e.arg0 as usize))
    } else if e.kind == 4 {
        Some(Placeholder::Instruction)
    } else if e.kind == 5 {
        Some(Placeholder::MemSlot)
    } else if e.kind == 6 {
        Some(Placeholder::PcInit)
    } else if e.kind == 7 {
        Some(Placeholder::PcFin)
    } else if e.kind == 8 {
        Some(Placeholder::StatusInit)
    } else if e.kind == 9 {
        Some(Placeholder::StatusFin)
    } else if e.kind == 10 {
        Some(Placeholder::IeInit)
    } else if e.kind == 11 {
        Some(Placeholder::IeFin)
    } else if e.kind == 12 {
        Some(Placeholder::IpInit)
    } else if e.kind == 13 {
        Some(Placeholder::IpFin)
    } else if e.kind == 14 {
        Some(Placeholder::TvecInit)
    } else if e.kind == 15 {
        Some(Placeholder::TvecFin)
    } else if e.kind == 16 {
        Some(Placeholder::ScratchInit)
    } else if e.kind == 17 {
        Some(Placeholder::ScratchFin)
    } else if e.kind == 18 {
        Some(Placeholder::EpcInit)
    } else if e.kind == 19 {
        Some(Placeholder::EpcFin)
    } else if e.kind == 20 {
        Some(Placeholder::CauseInit)
    } else if e.kind == 21 {
        Some(Placeholder::CauseFin)
    } else if e.kind == 22 {
        Some(Placeholder::TvalInit)
    } else if e.kind == 23 {
        Some(Placeholder::TvalFin)
    } else if e.kind == 24 {
        Some(Placeholder::ModeInit)
    } else if e.kind == 25 {
        Some(Placeholder::ModeFin)
    } else if e.kind == 26 {
        Some(Placeholder::MemorySaptInit)
    } else if e.kind == 27 {
        Some(Placeholder::MemorySaptFin)
    } else if e.kind == 28 {
        Some(Placeholder::ContinueExecutionInit)
    } else if e.kind == 29 {
        Some(Placeholder::ContinueExecutionFin)
    } else if e.kind == 30 {
        Some(Placeholder::ExternalOracle)
    } else if e.kind == 31 {
        Some(Placeholder::Trapped)
    } else if e.kind == 32 {
        Some(Placeholder::InvalidEncoding)
    } else if e.kind == 33 {
        Some(Placeholder::FirstRegMem)
    } else if e.kind == 34 {
        Some(Placeholder::SecondRegMem)
    } else if e.kind == 35 {
        Some(Placeholder::WriteRegMemReadWitness)
    } else if e.kind == 36 {
        Some(Placeholder::WriteRegMemWriteValue)
    } else if e.kind == 37 {
        Some(Placeholder::MemoryLoadOp)
    } else if e.kind == 38 {
        Some(Placeholder::WriteRdReadSetWitness)
    } else if e.kind == 39 {
        Some(Placeholder::ShuffleRamLazyInitAddressThis)
    } else if e.kind == 40 {
        Some(Placeholder::ShuffleRamLazyInitAddressNext)
    } else if e.kind == 41 {
        Some(Placeholder::ShuffleRamAddress(e.arg0 as usize))
    } else if e.kind == 42 {
        Some(Placeholder::ShuffleRamReadTimestamp(e.arg0 as usize))
    } else if e.kind == 43 {
        Some(Placeholder::ShuffleRamReadValue(e.arg0 as usize))
    } else if e.kind == 44 {
        Some(Placeholder::ShuffleRamIsRegisterAccess(e.arg0 as usize))
    } else if e.kind == 45 {
        Some(Placeholder::ShuffleRamWriteValue(e.arg0 as usize))
    } else if e.kind == 46 {
        Some(Placeholder::ExecuteDelegation)
    } else if e.kind == 47 {
        Some(Placeholder::DelegationType)
    } else if e.kind == 48 {
        Some(Placeholder::DelegationABIOffset)
    } else if e.kind == 49 {
        Some(Placeholder::DelegationWriteTimestamp)
    } else if e.kind == 50 {
        Some(Placeholder::DelegationMemoryReadValue(e.arg0 as usize))
    } else if e.kind == 51 {
        Some(Placeholder::DelegationMemoryReadTimestamp(e.arg0 as usize))
    } else if e.kind == 52 {
        Some(Placeholder::DelegationMemoryWriteValue(e.arg0 as usize))
    } else if e.kind == 53 {
        Some(Placeholder::DelegationRegisterReadValue(e.arg0 as usize))
    } else if e.kind == 54 {
        Some(Placeholder::DelegationRegisterReadTimestamp(e.arg0 as usize))
    } else if e.kind == 55 {
        Some(Placeholder::DelegationRegisterWriteValue(e.arg0 as usize))
    } else if e.kind == 56 {
        Some(Placeholder::DelegationIndirectReadValue { register_index: e.arg0 as usize, word_index: e.arg1 as usize })
    } else if e.kind == 57 {
        Some(Placeholder::DelegationIndirectReadTimestamp { register_index: e.arg0 as usize, word_index: e.arg1 as usize })
    } else if e.kind == 58 {
        Some(Placeholder::DelegationIndirectWriteValue { register_index: e.arg0 as usize, word_index: e.arg1 as usize })
    } else if e.kind == 59 {
        Some(Placeholder::DelegationNondeterminismAccess(e.arg0 as usize))
    } else if e.kind == 60 {
        Some(Placeholder::DelegationNondeterminismAccessNoSplits(e.arg0 as usize))
    } else if e.kind == 61 {
        Some(Placeholder::ExecuteOpcodeFamilyCycle)
    } else if e.kind == 62 {
        Some(Placeholder::OpcodeFamilyCycleInitialTimestamp)
    } else if e.kind == 63 {
        Some(Placeholder::OpcodeFamilyCycleFinalTimestamp)
    } else if e.kind == 64 {
        Some(Placeholder::RS1Index)
    } else if e.kind == 65 {
        Some(Placeholder::RS2Index)
    } else if e.kind == 66 {
        Some(Placeholder::MemLoadAddress)
    } else if e.kind == 67 {
        Some(Placeholder::RDIndex)
    } else if e.kind == 68 {
        Some(Placeholder::RDIsZero)
    } else if e.kind == 69 {
        Some(Placeholder::DecodedImm)
    } else if e.kind == 70 {
        Some(Placeholder::DecodedFunct3)
    } else if e.kind == 71 {
        Some(Placeholder::DecodedFunct7)
    } else if e.kind == 72 {
        Some(Placeholder::DecodedExecutorFamilyMask)
    } else if e.kind == 73 {
        Some(Placeholder::LoadStoreRamValue)
    } else if e.kind == 74 {
        Some(Placeholder::MemStoreAddress)
    } else if e.kind == 75 {
        Some(Placeholder::DelegationIndirectAccessVariableOffset { variable_index: e.arg0 as usize })
    } else {
        None
    }
}

/// The three numbers of a placeholder name it: what a hook is asked for can be told from them alone.
pub proof fn encodings_name_their_placeholder(placeholder: Placeholder)
    ensures
        placeholder_of(encoding(placeholder)) == Some(placeholder),
{
}

} // verus!
