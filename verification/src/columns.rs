//! Column layouts of the chips surrounding the memory argument: structured
//! views over flat trace rows, with exact correspondence between the struct
//! fields and the row cells they come from.

pub mod modular;
pub mod poseidon2;
pub mod sum;
