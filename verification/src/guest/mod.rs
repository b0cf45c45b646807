//! What a guest is built from: errors, handler invocation, the command line,
//! and the host's capabilities.

pub mod api;
pub mod command;
pub mod error;
pub mod model;
pub mod orm;
pub mod plugins;
pub mod question;
