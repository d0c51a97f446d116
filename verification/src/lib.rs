//! Interactive constraint editor and matcher for fixed-length word-guessing
//! puzzles: a `Filter` accumulates positional and occurrence constraints, a
//! keystroke-driven `InputMode` state machine mutates it, and a ranker narrows
//! a vocabulary down to the words the filter still admits.

pub mod chars;
pub mod filter;
pub mod input;
pub mod rank;
pub mod vocab;
