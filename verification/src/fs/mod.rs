//! Relative paths, their ordering, and the path tree built from them.
pub mod order;
pub mod path;
pub mod path_finder;
pub mod tree;
