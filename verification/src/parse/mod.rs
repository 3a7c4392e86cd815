//! Building an expression tree from a stream of tokens, and the tree itself.

pub mod scan;
pub mod tree;
pub mod node;
pub mod grammar;

pub use node::ParseNode;
pub use tree::ParseTree;
