//! A virtual machine for grids of programmable logic processors.
//!
//! Each processor runs a small assembly-like program against a shared clock
//! with a bounded number of instructions per tick. Numbers are IEEE-754
//! doubles, held as their 64-bit patterns. Classifying, ordering and
//! converting numbers, rounding them to whole numbers and to single
//! precision, and the operations on their bits are done and proved here on
//! the patterns, and so are the readings of the clock and the channels of
//! colors. The elementary functions of floating-point arithmetic are
//! asked of a [`unit::FloatUnit`] that the caller supplies, and the machine
//! is proved for whatever it answers. Time is counted in whole nanoseconds.

pub mod arith;
pub mod building;
pub mod catalog;
pub mod clock;
pub mod color;
pub mod decoder;
pub mod error;
pub mod evaluate;
pub mod grid;
pub mod instruction;
pub mod keyword;
pub mod laws;
pub mod layout;
pub mod lexer;
pub mod literal;
pub mod measure;
pub mod model;
pub mod names;
pub mod near;
pub mod number;
pub mod point;
pub mod processor;
pub mod program;
pub mod ratio;
pub mod running;
pub mod schematic;
pub mod statement;
pub mod text;
pub mod unit;
pub mod value;
pub mod variables;
pub mod vm;
pub mod world;

pub use crate::error::{VMLoadError, VMLoadResult};
pub use crate::vm::LogicVM;
