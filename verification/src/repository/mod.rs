pub mod graph_repository;
pub mod index;
pub mod pager;
pub mod records;
pub mod store;
