//! The values that registers and closed upvalues hold.

use crate::function::Closure;
use vstd::prelude::*;

verus! {

/// Handle of a table. Tables themselves belong to the table component; this
/// library only carries their handles around.
#[derive(Clone, Copy, Debug, PartialEq, Eq, Structural, Hash)]
pub struct Table(pub usize);

/// Handle of a string in the interned-string table.
#[derive(Clone, Copy, Debug, PartialEq, Eq, Structural, Hash)]
pub struct InternedString(pub usize);

/// A literal that the bytecode of a prototype refers to.
#[derive(Clone, Copy, Debug, PartialEq, Eq, Structural, Hash)]
pub enum Constant {
    Nil,
    Boolean(bool),
    Integer(i64),
    /// A floating-point literal, kept as its IEEE 754 bit pattern.
    Number(u64),
    String(InternedString),
}

/// One encoded instruction. Decoding it is the interpreter's business.
#[derive(Clone, Copy, Debug, PartialEq, Eq, Structural, Hash)]
pub struct OpCode(pub u32);

/// A value of the language.
#[derive(Clone, Copy, Debug, PartialEq, Eq, Structural, Hash)]
pub enum Value {
    Nil,
    Boolean(bool),
    Integer(i64),
    /// A floating-point number, kept as its IEEE 754 bit pattern.
    Number(u64),
    String(InternedString),
    Table(Table),
    Function(Closure),
}

} // verus!
