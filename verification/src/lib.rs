//! Range expansion of token templates.
//!
//! An invocation `N in 0..3 { body }` names a variable, a half-open range of
//! integers and a template. Expanding it either repeats the whole body once
//! per value, or, where the body holds a marker `#( ... )*`, repeats only the
//! marked region and emits the rest once. Within what is repeated the
//! variable is replaced by the value, and `name # N` is fused into one
//! identifier.
//!
//! - [`token`]: the token tree.
//! - [`lexeme`]: the text of integers and the judgement of single words.
//! - [`invocation`]: the parser of invocations, and the whole pipeline.
//! - [`classify`]: the search for the marker.
//! - [`substitute`]: replacement and fusion.
//! - [`expand`]: repetition over the range.
//! - [`command`]: a command line and its builder.

pub mod classify;
pub mod command;
pub mod expand;
pub mod invocation;
pub mod lexeme;
pub mod substitute;
pub mod token;
