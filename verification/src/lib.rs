//! In-memory model of a requirements-interchange document: typed values,
//! entities that refer to one another by identifier, and the aggregate that
//! keeps every cross-reference resolvable.

pub mod binary64;
pub mod cascade;
pub mod check;
pub mod document;
pub mod error;
pub mod greeting;
pub mod hierarchy;
pub mod ident;
pub mod laws;
pub mod model;
pub mod preserve;
pub mod preserved;
pub mod rules;
pub mod value;
