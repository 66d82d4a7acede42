//! A lexical scanner for a small scripting language.
//!
//! The scanner walks a source text character by character and produces the
//! ordered sequence of tokens it contains, terminated by a single
//! end-of-input token, while collecting a diagnostic for every malformed
//! lexeme it meets.  Its behaviour is specified against a mathematical
//! model of the scan defined in [`model`].

pub mod diag;
pub mod laws;
pub mod model;
pub mod scanner;
pub mod token;

pub use diag::Diagnostics;
pub use scanner::Scanner;
pub use token::Token;
