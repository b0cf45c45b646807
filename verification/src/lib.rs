//! Omnia: the rules of a host for WebAssembly component guests.

pub mod chain;
pub mod cli;
pub mod dispatch;
pub mod extensions;
pub mod guest;
pub mod idmap;
pub mod link;
pub mod macros;
pub mod mount;
pub mod options;
pub mod plugin;
pub mod registry;
pub mod runtime;
pub mod seam;
pub mod store;
pub mod text;
pub mod value;
