//! Source generation for RPC service wrappers and the package include tree.
pub mod text;
pub mod snake;
pub mod resolve;
pub mod delims;
pub mod wrapper;
pub mod split;
pub mod tree;
pub mod includes;
pub mod rerun;
pub mod calculator;
