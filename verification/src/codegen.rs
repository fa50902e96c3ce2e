//! The code generator.
//!
//! [`model`] says, as a function of the program alone, which instructions a
//! program compiles to or which error it has. [`generator`] is the compiler
//! itself: one pass over the tree that resolves names, checks that control
//! statements are legal where they stand, and appends instructions. [`laws`]
//! holds what follows from the model for every program.

pub mod congruence;
pub mod consistency;
pub mod generator;
pub mod laws;
pub mod model;
