//! The file system as a whole.

use crate::error::SysError;
use crate::inode::{dir_inode, InnerNodeView, SysFsInode, SysFsInodeView, Timestamp};
use crate::tree::SysTree;
use vstd::prelude::*;

verus! {

/// The magic number of the file system.
pub const MAGIC_NUMBER: u64 = 0x62656572;

/// The block size of the file system.
pub const BLOCK_SIZE: usize = 1024;

/// The greatest length of a name in the file system.
pub const NAME_MAX: usize = 255;

/// What the file system says of itself.
#[derive(Clone, Copy, Debug, PartialEq, Eq, Structural)]
pub struct SuperBlock {
    pub magic: u64,
    pub bsize: usize,
    pub namelen: usize,
}

impl SuperBlock {
    pub fn new(magic: u64, block_size: usize, name_max_len: usize) -> (r: Self)
        ensures
            r == (SuperBlock { magic, bsize: block_size, namelen: name_max_len }),
    {
        SuperBlock { magic, bsize: block_size, namelen: name_max_len }
    }
}

/// A file system that shows a tree to the user space.
#[derive(Debug)]
pub struct SysFs {
    sb: SuperBlock,
    root: SysFsInode,
}

impl SysFs {
    /// The superblock of the file system.
    pub closed spec fn superblock(&self) -> SuperBlock {
        self.sb
    }

    /// The inode of the root directory.
    pub closed spec fn root_view(&self) -> SysFsInodeView {
        self.root@
    }

    /// The file system that shows `tree`, made at the time `now`.
    pub fn new(tree: &SysTree, now: Timestamp) -> (r: Self)
        requires
            tree.wf(),
        ensures
            r.superblock() == (SuperBlock { magic: 0x62656572, bsize: 1024, namelen: 255 }),
            r.root_view() == dir_inode(
                InnerNodeView::Branch(tree.root_fields().id_value()),
                Seq::<u64>::empty(),
                now,
            ),
    {
        let sb = SuperBlock::new(MAGIC_NUMBER, BLOCK_SIZE, NAME_MAX);
        let root = SysFsInode::new_root(tree, now);
        SysFs { sb, root }
    }

    /// Nothing is kept back: there is nothing to write out.
    pub fn sync(&self) -> (r: Result<(), SysError>)
        ensures
            r == Ok::<(), SysError>(()),
    {
        Ok(())
    }

    pub fn root_inode(&self) -> (r: SysFsInode)
        ensures
            r@ == self.root_view(),
    {
        self.root.clone()
    }

    pub fn sb(&self) -> (r: SuperBlock)
        ensures
            r == self.superblock(),
    {
        self.sb
    }

    /// The flags of the file system: it has none.
    pub fn flags(&self) -> (r: u32)
        ensures
            r == 0,
    {
        0
    }
}

} // verus!
