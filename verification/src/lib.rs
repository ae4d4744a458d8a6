//! A client library for the REST API of Aleo network nodes: load balancing
//! over several nodes, request routes, block-range and epoch arithmetic,
//! ledger scan windows, the retry policy of requests, the resolution order
//! of program imports and the messages of failed broadcasts.
pub mod state;
pub mod strategy;
pub mod target_map;
pub mod random;
pub mod text;
pub mod load_balancer;
pub mod network;
pub mod route;
pub mod blocks;
pub mod retry;
pub mod http_client;
pub mod imports;
pub mod broadcast;

pub use load_balancer::{LoadBalancer, LoadBalancerError};
pub use http_client::HTTPClient;
pub use state::NodeState;
pub use strategy::Strategy;
