//! Lowering of circuits into the LLZK intermediate language.
pub mod aliases;
pub mod builder;
pub mod circuit_laws;
pub mod codegen;
pub mod compute;
pub mod config;
pub mod constraints;
pub mod extract;
pub mod generate;
pub mod hook_laws;
pub mod integer_laws;
pub mod integers;
pub mod ir;
pub mod laws;
pub mod lookups;
pub mod lowering;
pub mod module;
pub mod names;
pub mod oracle;
pub mod program_laws;
pub mod ssa;
pub mod step_laws;
pub mod struct_laws;
pub mod success_laws;
pub mod table_laws;
pub mod table_lookups;
pub mod vars;
pub mod witness;
pub mod witness_laws;
