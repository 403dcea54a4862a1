//! The logic of a DNS-over-HTTPS edge proxy with two cache tiers.
pub mod coalesce;
pub mod dns;
pub mod dns_laws;
pub mod edge;
pub mod edge_laws;
pub mod http;
pub mod http_laws;
pub mod metrics;
pub mod page_laws;
pub mod resolver;
pub mod resolver_laws;
pub mod stats;
pub mod text;
pub mod wire_laws;
