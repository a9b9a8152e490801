//! Karma: a stack-and-deque language whose lines are independent sequences of
//! instructions.
//!
//! A source text is parsed into sequences of sections of instructions
//! (`parse`), its constants are folded (`optimize`), and the sequences are
//! compiled into basic blocks that are dispatched through one jump table for
//! each sequence (`compiler`, `sequence_builder`, `instruction_builder`,
//! `builder`). A `machine` runs the blocks on the two growable containers of
//! the runtime, `stack` and `deque`; the interpreter of `execution` runs the
//! sequences themselves.
//!
//! What is proved of them: the containers keep their values in order through
//! every growth; what the parser produces can be compiled, and stays so when
//! it is folded (`validity`); folding keeps what a section and a program do
//! (`folding`); compiled programs are well formed (`well_formed`) and do what
//! the interpreter does (`steps`, `simulation`, `equivalence`).

pub mod buffer;
pub mod builder;
pub mod compiler;
pub mod deque;
pub mod equivalence;
pub mod error;
pub mod execution;
pub mod failure;
pub mod folding;
pub mod instruction_builder;
pub mod load;
pub mod machine;
pub mod operation;
pub mod optimize;
pub mod parse;
pub mod sequence_builder;
pub mod simulation;
pub mod stack;
pub mod steps;
pub mod syntax;
pub mod text;
pub mod validity;
pub mod well_formed;
