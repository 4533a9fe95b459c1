//! Detection of duplicate subtrees in a binary tree.
//!
//! A subtree is a node together with everything below it.  Two subtrees are
//! duplicates when they are structurally identical and carry the same values
//! in the same positions.  The library serializes every subtree into a
//! canonical string key — proved injective, so two subtrees share a key
//! exactly when they are equal — counts key occurrences in one post-order
//! pass, and reports one representative per duplicate group, at the moment
//! its second occurrence is seen.

pub mod tree;
pub mod serial;
pub mod inject;
pub mod index;
pub mod report;
pub mod dups;
pub mod laws;

pub use dups::find_duplicate_subtrees;
pub use dups::find_duplicate_subtrees_opt;
pub use dups::in_order_with_dups;
pub use index::DupIndex;
pub use serial::serialize_subtree;
pub use tree::TreeNode;
