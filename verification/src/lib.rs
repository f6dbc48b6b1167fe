//! Verified core of a family of procedural macros: a bit-field storage
//! layer, a `seq!` token repeater, a `#[sorted]` checker, and the planning
//! logic behind `#[derive(Builder)]`, `#[derive(CustomDebug)]`,
//! `#[bitfield]` and `#[derive(BitfieldSpecifier)]`.
pub mod bits;
pub mod specifier;
pub mod tokens;
pub mod seq;
pub mod syn_calls;
pub mod syntax;
pub mod sorted;
pub mod builder;
pub mod debug;
pub mod bitfield;
