//! A Core Wars simulator: a Redcode assembler, a circular memory core and
//! the engine that runs warriors in it until all but one are eliminated.
//!
//! - [`parser`] turns the source of a warrior into its resolved program.
//! - [`load_file`] holds the resolved program and writes it down again.
//! - [`mars`] is the memory array in which the warriors battle.

pub mod load_file;
pub mod mars;
pub mod parser;
