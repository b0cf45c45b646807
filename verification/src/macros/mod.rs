//! The `runtime!` macro: its grammar over token trees, its rules across keys,
//! and the module that it expands to.

pub mod token;
pub mod tree;
pub mod cursor;
pub mod block;
pub mod instrument;
pub mod parse;
pub mod codegen;
pub mod expand;
