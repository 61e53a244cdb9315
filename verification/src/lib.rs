//! Core logic of a minimal newsletter-subscription service: layered
//! configuration resolution, the policy that derives database connection
//! descriptors, and the parsing and response mapping of the subscription
//! endpoint.

pub mod configuration;
pub mod routes;
pub mod startup;
