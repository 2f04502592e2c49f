//! A schema-driven codec for tag-length-value wire formats.
//!
//! A record type is described by a list of field descriptors; the engine
//! turns a record into its exact byte layout and back. Every function is
//! specified over mathematical models of the schema, the values and the
//! bytes, and proved against them.
//!
//! - [`config`], [`schema`], [`value`]: descriptors, schemas and values,
//!   with their models.
//! - [`rules`], [`assemble`]: what makes a schema legal, and the check.
//! - [`layout`], [`encode`], [`writer`]: the bytes of a value, and the
//!   encoder.
//! - [`parse`], [`decode`], [`reader`]: the value of some bytes, and the
//!   decoder.
//! - [`laws`], [`typing`]: what holds of encoder and decoder together.
//! - [`wire`]: the byte sink and the byte cursor of the `bytes` crate.
//! - [`prelude`], [`codec`], [`example`]: the codec traits, a checked record
//!   type, and a record type written out by hand.
//! - [`declare`], [`field`]: declarations of record types as a schema front
//!   end hands them over.

pub mod assemble;
pub mod codec;
pub mod config;
pub mod declare;
pub mod decode;
pub mod encode;
pub mod endian;
pub mod error;
pub mod example;
pub mod field;
pub mod laws;
pub mod layout;
pub mod parse;
pub mod prelude;
pub mod reader;
pub mod rules;
pub mod schema;
pub mod typing;
pub mod value;
pub mod wire;
pub mod writer;
