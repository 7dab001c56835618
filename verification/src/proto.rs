//! Messages exchanged with clients of the services.
pub mod acl;
pub mod auth;
pub mod storage;
