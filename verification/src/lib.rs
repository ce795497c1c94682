//! Closures and upvalues of a small Lua-like virtual machine.
//!
//! A [`heap::Heap`] owns every prototype, upvalue cell, closure and thread
//! stack. The rest of the machine refers to them through small copyable
//! handles, whose equality is the identity of the object they name.

pub mod function;
pub mod heap;
pub mod laws;
pub mod model;
pub mod thread;
pub mod types;
pub mod value;
