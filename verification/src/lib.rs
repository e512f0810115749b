//! A transaction-instruction compiler with resource binding.
//!
//! The library turns high-level calls (invoke a function of a blueprint,
//! invoke a method on a component, with string-encoded arguments) into a
//! linear program of low-level instructions for a resource-oriented
//! execution engine.  Container-declaration instructions are hoisted ahead
//! of the instructions that fill and consume them, identifiers are handed
//! out by a local allocator whose numbering matches the engine's own
//! sequential assignment, and failures are accumulated so that a chain of
//! builder calls can be fully attempted, surfacing the first error only at
//! finalization.

pub mod address;
pub mod abi;
pub mod allocator;
pub mod builder;
pub mod codec;
pub mod resource_builder;
pub mod errors;
pub mod instruction;
pub mod resource;
pub mod value;
pub mod amount;
pub mod big_decimal;
pub mod decimal;
pub mod hash;
pub mod text;
