//! A bytecode compiler and stack-based virtual machine for a small
//! dynamically-typed scripting language in the Lox family, verified with
//! Verus.
//!
//! A source text is scanned into tokens, Pratt-parsed in a single pass into
//! a linear instruction stream over a constant pool (a [`chunk::Chunk`]),
//! and executed by a stack machine ([`vm::VM`]) over a value stack and a
//! table of global bindings. The scanner's behaviour is specified exactly as
//! a function of the source bytes; the compiler carries proofs that its
//! bytecode splits into whole instructions with sound operands and patched
//! jump targets; the machine's execution is proved to follow a small-step
//! specification of the instruction set, and everything a program prints is
//! pinned to that specification.
//!
//! Numbers are IEEE-754 doubles carried as their bit patterns; the
//! arithmetic itself is delegated to a software floating-point library
//! behind the named, trusted operations in [`number`].

#![verifier::loop_isolation(false)]

use vstd::prelude::*;

pub mod chunk;
pub mod compiler;
pub mod diag;
pub mod number;
pub mod opcode;
pub mod scanner;
pub mod token;
pub mod value;
pub mod vm;

verus! {

/// Outcome classification for a whole interpreter run: a program either
/// fails to compile, fails at runtime, or succeeds.
#[derive(Debug, Clone, Copy, PartialEq, Eq, Structural)]
pub enum InterpretError {
    CompileError,
    RuntimeError,
}

/// Result of interpreting a source program.
pub type InterpretResult = Result<(), InterpretError>;

} // verus!
