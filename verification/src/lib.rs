//! A verified core of a Dubbo-style RPC framework: service URLs, condition
//! and tag routing, load balancing, cluster fail-over, extension loading and
//! request bookkeeping.
pub mod text;
pub mod params;
pub mod url;
pub mod invocation;
pub mod matcher;
pub mod sample;
pub mod single_router;
pub mod keyed;
pub mod condition_router;
pub mod tag_router;
pub mod router_chain;
pub mod cluster;
pub mod loadbalance;
pub mod extension;
pub mod framework;
pub mod context;
pub mod least_active;
pub mod body;
pub mod tag;
pub mod cluster_invoker;
pub mod filter;
pub mod directory;
pub mod ready;
