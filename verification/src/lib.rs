//! Distributed shortest-path routing over a region-partitioned weighted graph.
//!
//! The crate holds the routing engine of a group server: the per-region
//! search, the value that hops between servers, the decisions of a worker
//! and of the dispatcher, and the naming scheme of the cluster directory.

pub mod bits;
pub mod bootstrap;
pub mod config;
pub mod directory;
pub mod domain;
pub mod federation;
pub mod graph;
pub mod graph_provider;
pub mod network;
pub mod node_connector;
pub mod queue;
pub mod routes;
pub mod search;
pub mod server;
pub mod text;
pub mod walk;
pub mod worker;
