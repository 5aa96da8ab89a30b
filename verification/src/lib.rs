//! A small virtual machine for a hand-built expression language, verified
//! from the syntax tree down to the run of the tape.
//!
//! A program is an [`Expr`].  [`ImCompiler`] flattens it into a tape of
//! 64-bit words in which every operation word is followed by its operands,
//! and a [`CallContext`] walks such a tape.  Numbers are carried as IEEE 754
//! binary64 bit patterns.  The machine compares them itself; the five
//! arithmetic results it asks of its host, so that a run is a sequence of
//! steps with an answer of the host wherever a request is open.
//!
//! - [`expr`], [`value`], [`error`]: programs, values and failures.
//! - [`opcode`], [`tape`], [`globals`]: the words of a tape, the cursor over
//!   it, and the table that gives names their slots.
//! - [`imsta`]: the compiler, with the layout of a tape as a function of the
//!   program.
//! - [`machine`], [`context`], [`discipline`]: the machine as a transition
//!   system, the running machine that follows it step by step, and the order
//!   that its stack keeps.
//! - [`dissassembler`], [`syntax`], [`roundtrip`]: reading a tape back, the
//!   written form of a program, and the proof that the one gives the other.
//! - [`semantics`], [`simulation`]: what a program means, and the proof that
//!   the run of its tape ends as it means.
//! - [`closure`]: the baseline compiler to a list of stack steps.
//! - [`laws`]: further facts about the compiler and the machine.
pub mod closure;
pub mod context;
pub mod discipline;
pub mod dissassembler;
pub mod error;
pub mod expr;
pub mod globals;
pub mod imsta;
pub mod laws;
pub mod machine;
pub mod opcode;
pub mod roundtrip;
pub mod semantics;
pub mod simulation;
pub mod syntax;
pub mod tape;
pub mod value;

pub use closure::ClosureCompiler;
pub use context::CallContext;
pub use dissassembler::Dissassembler;
pub use error::ExecError;
pub use expr::{Binding, Expr, Operator};
pub use imsta::ImCompiler;
pub use machine::Status;
pub use opcode::Operation;
pub use tape::Tape;
pub use value::Value;
