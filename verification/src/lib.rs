//! A path-matching segment trie.
//!
//! Route patterns made of literal segments and named single-segment
//! captures are registered against opaque handler values; a concrete path
//! is then resolved to the handler of the most specific matching pattern,
//! together with the values captured for the named parameters along the
//! matched path.

pub mod model;
pub mod node;
pub mod params;
pub mod parse;
pub mod router;

pub use model::DynModel;
pub use model::NodeModel;
pub use node::DynamicTreeNode;
pub use node::StaticTreeNode;
pub use node::TreeNode;
pub use node::TreeNodeMut;
pub use params::Params;
pub use router::HandlerAndParams;
pub use router::RouterTree;
pub use router::TraversePathReturn;
