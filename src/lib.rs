//! Decision trees: walk a tree of decision points with an input until an answer is reached.

mod error;
pub mod learning;
pub mod tree;

pub use error::{Error, Result};
pub use tree::{deciders, nodes, Decider, Decision, Node, OwnedNode};
