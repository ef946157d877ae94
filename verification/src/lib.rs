//! A safe wrapper around the PCRE2 matching engine.
//!
//! A pattern is compiled once into a [`pattern::CompiledPattern`], which owns
//! the engine's compiled form, and is then run against many subjects. Each
//! run yields a [`pattern::MatchResult`]: either "no match", or the ordered
//! sequence of substrings captured by the pattern's participating groups,
//! with lookup by group name as well as by position.
//!
//! The engine hands back raw byte offsets into the subject; everything this
//! crate does with them — skipping non-participating pairs, bounds and
//! boundary checks, slicing, and name-to-position resolution — is verified.

pub mod buffer;
pub mod engine;
pub mod errors;
pub mod pattern;
