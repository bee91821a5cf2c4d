//! Verified core of a remote build-cache service: content digests, action and
//! metadata schemas, namespace authorization, the in-memory metadata store and
//! the request decisions of the HTTP API.

pub mod auth;
pub mod collections;
pub mod hashing;
pub mod json;
pub mod metadata;
pub mod metrics;
pub mod model;
pub mod objects;
pub mod publish;
pub mod server;
pub mod text;
pub mod tree;
pub mod upload;
