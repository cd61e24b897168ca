//! A verified builder of directory trees.
//!
//! Given the path of a directory, the library walks it one level at a
//! time and assembles an ordered, fully materialized tree of nodes, one
//! per file or subdirectory. Children are sorted by the bytes of their
//! names, unreadable entries are skipped without failing the walk, and
//! an entry that is a symbolic link is recorded but never expanded.

pub mod builder;
pub mod fsio;
pub mod order;
pub mod tree;

pub use builder::build_file_tree;
pub use builder::collect_children;
pub use builder::get_file_tree;
pub use builder::make_node;
pub use builder::validate_root;
pub use fsio::EntryInfo;
pub use tree::BuildError;
pub use tree::FileTree;
