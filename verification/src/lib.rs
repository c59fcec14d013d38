//! Faceted catalog search core.
//!
//! The library turns a semi-structured filter request into a typed,
//! sanitized filter set, assembles a parameterized relational query from
//! it, projects joined rows into display records, evaluates the same
//! filter semantics over an in-memory catalog, and aggregates facet
//! counts for the filterable dimensions.

pub mod catalog;
pub mod facets;
pub mod filters;
pub mod predicate;
pub mod project;
pub mod query;
pub mod search;
pub mod sanitize;
pub mod strings;
