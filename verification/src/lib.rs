//! Offline memory-consistency argument for a STARK-proved virtual machine.
//!
//! The crate models the arithmetized-memory subsystem: a multiset-equality
//! interaction bus, a shared range checker, the memory controller that issues
//! timestamped access records during execution, and the audit chip that closes
//! the argument by relating the final memory image to the initial image plus
//! all writes.

pub mod audit;
pub mod bus;
pub mod columns;
pub mod config;
pub mod field;
pub mod ir;
pub mod logup;
pub mod memory;
pub mod multdiv;
pub mod range_checker;
pub mod riscv;
pub mod transpiler;
pub mod utils;

use vstd::prelude::*;

verus! {

/// The prime modulus of the 31-bit field every trace value lives in.
pub const FIELD_MODULUS: u32 = 2013265921;

} // verus!
