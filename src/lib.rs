//! Request/response correlation and dispatch for a front-end that talks to
//! a text-editing engine over a message stream.

pub mod json;
pub mod message;
pub mod rpc;
pub mod laws;
pub mod commands;
