//! Wasm instrumentation passes that make a module enforce its own resource
//! bounds: a gas budget consumed as instructions execute, and a limit on the
//! height of the call stack.
//!
//! The passes work on [`module::Module`], an in-memory picture of a Wasm
//! module holding only plain values: section contents as vectors, names as
//! strings, instructions as [`module::Instr`]. Binary decoding and encoding
//! stay with the embedder, which hands a `Module` in and takes one back.

pub mod gas_metering;
pub mod module;
pub mod stack_limiter;
