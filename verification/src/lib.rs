//! A tree of kernel objects and the read-only file system that shows it.
//!
//! The tree (`SysTree`) is the model: branches, leaves and symlinks, each
//! with a name, an id and, for branches and leaves, a set of attributes.
//! The file system (`SysFs`) is the view: it derives inodes, directory
//! entries and inode numbers from the model and never changes it.

pub mod attr;
pub mod error;
pub mod event;
pub mod fs;
pub mod ino;
pub mod inode;
pub mod node;
pub mod text;
pub mod tree;
pub mod utils;
