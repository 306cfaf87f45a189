pub mod filesystem;
pub mod graph;
pub mod number;
