//! The phases of assembly, each in a module of its own.

pub mod assembly;
pub mod comment;
pub mod evaluation;
pub mod expansion;
pub mod instruction;
pub mod text;
