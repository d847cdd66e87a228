//! The lexical front end of a small interpreted language: it turns source
//! text into an ordered sequence of classified tokens and a list of
//! non-fatal diagnostics.
//!
//! `model` states what a scan produces as spec functions over the text;
//! `scanner` computes it and is proved to agree; `laws` proves properties of
//! the model that hold for every text.
pub mod error;
pub mod laws;
pub mod model;
pub mod scanner;
pub mod text;
pub mod token;

pub use error::{ExecutionError, ExecutionSuccess};
pub use scanner::Scanner;
pub use token::{keyword, Literal, Token, TokenType};
