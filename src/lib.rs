//! A single-tape deterministic Turing machine: a compiler from a small
//! line-oriented rule language, and an execution engine whose every step is
//! specified over a mathematical model of the machine.

pub mod compiler;
pub mod machine;
pub mod text;
