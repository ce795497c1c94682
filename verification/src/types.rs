//! Small index types that appear in compiled prototypes.

use vstd::prelude::*;

verus! {

/// Index of a register inside the stack frame of one function activation.
#[derive(Clone, Copy, Debug, PartialEq, Eq, Structural, Hash)]
pub struct RegisterIndex(pub u8);

/// Index into the upvalue list of a closure.
#[derive(Clone, Copy, Debug, PartialEq, Eq, Structural, Hash)]
pub struct UpValueIndex(pub u8);

} // verus!
