//! Rule-representation and rule-lifecycle core of a stylesheet engine.
//!
//! The crate provides the polymorphic CSS rule type ([`rules::CssRule`]),
//! the explicit-guard sharing model ([`shared_lock`]), single-rule parsing
//! with its grammar-ordering state machine ([`parse`]), the deep-clone-under-
//! a-new-lock protocol, canonical serialization back to CSS text, and the
//! memory-accounting protocol with its exemption table.

pub mod clone;
pub mod errors;
pub mod laws;
pub mod memory;
pub mod serialize;
pub mod shared_lock;
pub mod parse;
pub mod rules;
pub mod scan;
pub mod stylesheet;
pub mod url_data;
