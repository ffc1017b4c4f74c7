//! A verified transpiler for a small line-oriented scripting dialect.
//!
//! The library turns the text of a script into the source text of an
//! equivalent host-language program.  The whole translation — statement
//! classification, block nesting, comment suppression and the token
//! substitutions — is specified over `Seq<char>` and proved.

pub mod laws;
pub mod rules;
pub mod text;
pub mod transpile;

pub use transpile::encode;
pub use transpile::TranspileError;
