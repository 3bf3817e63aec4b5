//! A declarative extraction engine: a small recursive "scheme" describes what
//! to pull out of a parsed HTML document (a single string, a uniform list, or
//! a nested object of named parts), each leaf carrying a CSS selector path
//! that locates the matching nodes.
//!
//! The core is the scheme interpreter: `Scheme::process` extracts a single
//! value rooted at one document node, and `Scheme::process_many` extracts a
//! position-aligned sequence of values. The document tree and the selector
//! engine come from the `scraper` crate; `semantics` gives the mathematical
//! model of the interpreter and `laws` proves its general properties.

pub mod errors;
pub mod interp;
pub mod query;
pub mod laws;
pub mod scheme;
pub mod semantics;
pub mod value;

pub use errors::Error;
pub use scheme::{KVPair, ListScheme, ObjectScheme, Scheme, StringScheme};
pub use value::Value;
