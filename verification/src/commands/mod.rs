pub mod config;
pub mod new;
pub mod plan;
pub mod probe;
pub mod search;
pub mod unitgraph;
