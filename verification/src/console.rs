//! The local web console: its API types and error mapping, request guard,
//! static assets, collection of daemon observations, history, index jobs,
//! and repository registrations.

pub mod api;
pub mod assets;
pub mod collector;
pub mod freshness;
pub mod history;
pub mod jobs;
pub mod registry;
pub mod schema;
pub mod security;
