//! The link between guests: choosing a target, carrying a call to it, and
//! reading what comes back.

pub mod wire;
pub mod decode;
pub mod encode;
pub mod transport;
pub mod polyfill;
pub mod selector;
pub mod links;
pub mod serve;
