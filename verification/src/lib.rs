//! Extraction of structured records from semi-structured text: prices,
//! obfuscated labels, microdata scopes, paginated searches and the state of
//! a domain at a point in time.

pub mod common;
pub mod decimal;
pub mod dom;
pub mod modules;
pub mod price_laws;
pub mod schema_org;
pub mod schemas;
pub mod text;
