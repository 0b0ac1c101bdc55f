//! A small virtual machine for an eight-instruction tape language.
//!
//! [`program`] turns source text into an instruction stream with a table of
//! matching brackets; [`machine`] runs that stream one instruction at a time.
pub mod machine;
pub mod program;
