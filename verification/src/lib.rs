//! A lexical scanner: it turns a complete source string into the ordered
//! sequence of classified tokens that the text denotes, tracking the line
//! and the running count of consumed characters, or reports the first
//! lexical error it meets.
//!
//! The meaning of a scan is fixed by the specification function
//! [`model::spec_lex`]; the executable [`scanner::Scanner`] is proved to
//! return exactly that result.

pub mod laws;
pub mod model;
pub mod scanner;
pub mod token;
