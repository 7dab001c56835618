//! Relationship-based access control: tuple syntax, the schema language,
//! its validation, and the permission check.
pub mod text;
pub mod tuple;
pub mod schema;
pub mod proto;
pub mod check;
pub mod store;
pub mod api;
pub mod auth;
