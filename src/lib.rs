//! Miniscript: a typed, analysable subset of Bitcoin Script.
//!
//! Scripts are read into a token sequence by [`lex`], parsed back to front
//! into a typed syntax tree ([`ParseTree`]), serialised again, and satisfied
//! from the available signatures, public keys and hash preimages.

pub mod ast;
pub mod error;
pub mod keys;
pub mod parse;
pub mod required_keys;
pub mod satisfy;
pub mod satisfy_facts;
pub mod script;
mod secp;
pub mod token;

pub use ast::{ParseTree, E, F, T, V, W};
pub use error::{Error, ScriptError};
pub use keys::{Hash160, PublicKey, Sha256dHash};
pub use satisfy::{satisfy_cost, satisfy_csv};
pub use token::{lex, Token};
