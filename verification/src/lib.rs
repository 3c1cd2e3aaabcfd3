//! Derives a bidirectional text codec for a closed set of named variants.
//!
//! An enumeration is described as an ordered list of variants together with
//! configuration directives attached at the enumeration level and per
//! variant.  From that description the library deterministically builds a
//! [`codec::Codec`]: a total encode table (variant to string), a decode table
//! (string to variant) honouring renames, aliases, rejections and casing
//! directives, and an optional default variant used when decoding fails.

pub mod casing;
pub mod codec;
pub mod decl;
pub mod defaults;
pub mod directive;
pub mod errors;
pub mod laws;
pub mod naming;
