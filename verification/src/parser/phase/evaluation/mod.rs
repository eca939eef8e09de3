//! Giving expressions their values.

pub mod expression;
