//! Fuzzing of the prover and of the machine it proves.
pub mod circuits;
pub mod inputs;
pub mod mutations;
pub mod rng;
pub mod seeds;
pub mod programs;
pub mod crashes;
pub mod state;
pub mod rv32im;
pub mod unicorn;
pub mod vm;
pub mod proving;
pub mod vm_proof;
pub mod cache;
pub mod driver;
pub mod registry;
pub mod witgen;
