//! What is known of an endpoint.

pub mod info;
