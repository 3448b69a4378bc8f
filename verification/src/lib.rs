//! Verified core of a peer-to-peer swarm inference node.
//!
//! The network, the model server and the terminal are driven from outside
//! this crate; what is decided on the values they produce lives here.

pub mod common;
pub mod text;
pub mod keyed;
pub mod parse;
pub mod mesh;
pub mod protocol;
pub mod session;
pub mod service;
pub mod node;
pub mod cmds;
pub mod slm;
