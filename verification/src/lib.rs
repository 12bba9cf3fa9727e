//! Evaluate a compiled expression against a stream of JSON records.
//!
//! The crate converts JSON documents to and from a tagged [`value::DataValue`]
//! representation, parses typed command-line literals, merges variable
//! bindings, and drives an order-preserving, fail-fast record evaluator
//! around an opaque expression engine.

pub mod engine;
pub mod strutil;
pub mod varset;
pub mod value;
pub mod truthy;
pub mod args2cel;
pub mod serialize;
pub mod json2cel;
pub mod input_handler;
