//! Storage of uploaded files as store-only archives named by short random
//! links, and the date-grouped index of what the storage directory holds.

pub mod links;
pub mod errors;
pub mod upload;
pub mod order;
pub mod grouping;
pub mod config;
pub mod authenticator;
pub mod basic_auth;
