//! Inventory of a directory tree.
//!
//! A caller hands over what it read of a directory tree as a [`TreeNode`]:
//! for every path its base name, the metadata that could be read of it and
//! the entries that listing it gave. [`generate_tree_info`] walks that tree
//! depth first, numbers the entries it visits from a counter that the caller
//! owns, and returns the [`DirectoryInfo`] of the directory it was given.

pub mod listing;
pub mod record;
pub mod walker;
pub mod laws;

pub use listing::{EntryMetadata, FileType, TreeNode, TreeNodeView};
pub use record::{DirectoryInfo, DirectoryInfoView, EntryKind, FileInfo, FileInfoView};
pub use walker::{count_ordinals, generate_tree_info, inventory, FIRST_ORDINAL};
