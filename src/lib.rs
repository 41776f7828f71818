//! A register-based bytecode virtual machine with a checked bridge to host routines.
//!
//! The crate is organised leaves first: the tagged value model, the heap wrappers
//! and their lifecycle states, structural type plans, the host-call marshaling layer,
//! the sliced value stack, the program model and the interpreter, then the packed
//! byte form of programs with its assembler.

pub mod value;
pub mod tyck;
pub mod error;
pub mod heap;
pub mod ffi;
pub mod stack;
pub mod program;
pub mod vm;
pub mod packed;
pub mod builder;
