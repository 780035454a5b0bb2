pub mod b_tree;
pub mod model;
pub mod store;
