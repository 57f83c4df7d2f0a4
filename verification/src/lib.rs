//! The inter-process bridge of a windowed shell: line-framed JSON messages
//! over standard streams, an inbound dispatcher, a synchronous resource
//! resolution handshake, and a command interpreter for shell state.
pub mod codec;
pub mod dispatch;
pub mod interp;
pub mod json;
pub mod resolve;
