//! Core of a zero-copy, broker-less inter-process communication middleware:
//! port identities and headers, named-concept configuration and liveness
//! monitoring, static service configuration, the dynamic port registry, the
//! sample slot pool and the publish-subscribe channels that carry slot indices.
pub mod c_api;
pub mod channel;
pub mod connection;
pub mod dynamic_config;
pub mod history;
pub mod monitoring;
pub mod named_concept;
pub mod port_identifiers;
pub mod request_response;
pub mod slot_pool;
pub mod static_config;
pub mod subscriber;
