//! A resumable curve25519 computation engine: field and point arithmetic split
//! into small steps, a bytecode for those steps, and a cranked interpreter
//! that advances one step per call over durable byte buffers.

pub mod encoding;
pub mod field;
pub mod edwards;
pub mod window;
pub mod ristretto;
pub mod scalar;
pub mod instruction;
pub mod compiler;
pub mod steps;
pub mod processor;
pub mod client;
