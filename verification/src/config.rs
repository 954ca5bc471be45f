//! Compilation-target configurations for the recursive verifier.

use vstd::prelude::*;

verus! {

use crate::ir::Config;

/// A configuration for outer recursion: the native field of the wrapping
/// circuit differs from the base field the traces live in, so native values
/// are carried as 64-bit representatives and extension elements as
/// four-limb arrays of canonical base-field representatives.
#[derive(Clone, Copy, PartialEq, Eq, Structural, Debug, Default)]
pub struct OuterConfig;

impl Config for OuterConfig {
    type N = u64;
    type F = u32;
    type EF = [u32; 4];
}

} // verus!
