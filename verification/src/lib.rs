//! Verified core of a property-graph database: in-memory graphs, fixed-size
//! record encodings, B-tree index node models, pager headers, and the
//! lexical state machines of the Cypher query language front end.
pub mod buf_config;
pub mod byte_utils;
pub mod cypher;
pub mod graph;
pub mod graph_engine;
pub mod matcher;
pub mod model;
pub mod query_model;
pub mod repository;
pub mod test_utils;
pub mod tx_handler;
