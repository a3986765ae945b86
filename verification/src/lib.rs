//! Grammar analysis (nullable sets, FIRST/FOLLOW sets, LL(1) analysis tables)
//! and the target-independent parts of the code generator of the MiniPython compiler.

pub mod text;
pub mod token;
pub mod grammar;
pub mod derivation;
pub mod generator;
pub mod analysis_table;
pub mod formatters;
pub mod internal;
pub mod dynamic_linker;
pub mod linking;
