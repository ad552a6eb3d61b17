use vstd::prelude::*;

pub mod circuit;
pub mod fuzzing;
pub mod llzk;
pub mod picus;
pub mod primality;
pub mod tables;
pub mod text;

verus! {

} // verus!
