//! Front end for the Sip language: a byte-oriented scanner that turns source
//! text into a span-annotated token stream, and a recursive-descent parser
//! that recognizes function declarations (name, parameter list, return-type
//! clause, body) and checks that a function's return value agrees with its
//! declared return type.
//!
//! Conventions used throughout: lines are 1-based; columns are 0-based byte
//! offsets within a line, forming half-open ranges `[start, end)`.
#![verifier::loop_isolation(false)]

pub mod token;
pub mod ast;
pub mod err;
pub mod parser;
