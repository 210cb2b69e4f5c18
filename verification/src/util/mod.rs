//! Trees kept in flat lists, their nodes addressed by index.

pub mod grow_tree;
pub mod tree;

pub use grow_tree::{GrowTree, TreeView};
pub use tree::{Tree, TreeInsert, VecTree};
