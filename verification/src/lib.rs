//! A verified interpreter for a minimal tape-based language.
//!
//! Source text is tokenized into located instructions, the bracket
//! instructions are resolved into a jump table ([`BfProgram`]), and a
//! [`VirtualMachine`] runs the validated program against byte streams.

pub mod cli;
pub mod instructions;
pub mod lexer;
pub mod machine;
pub mod program;
pub mod semantics;
pub mod streams;

pub use cli::Args;
pub use instructions::Instruction;
pub use instructions::LocalisedInstruction;
pub use machine::CellKind;
pub use machine::VMError;
pub use machine::VirtualMachine;
pub use program::AnalysisError;
pub use program::BfProgram;
pub use streams::ByteSink;
pub use streams::ByteSource;
pub use streams::VecSink;
pub use streams::VecSource;
pub use streams::WriterWithTrailingNewline;
