//! Translation of circuits into the Picus constraint language.
pub mod circuit_laws;
pub mod families;
pub mod ir;
pub mod laws;
pub mod lookups;
pub mod module_laws;
pub mod translate;
