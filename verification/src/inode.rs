//! The inodes of the file system: what each shows of a node of the tree.

use crate::attr::{
    attr_views, attrs_wf, has_name, ids_dense, position_of, SysAttr, SysAttrFlags, SysAttrSet,
    SysAttrView,
};
use crate::error::SysError;
use crate::ino::{
    from_dir_ino_and_attr_id, from_sysnode_id, ino_of_attr, ino_of_node,
    lemma_attr_ino_is_no_node_ino, lemma_attr_inos_distinct, lemma_node_ino_aligned,
    lemma_node_inos_distinct, PARENT_DENTRY_INO, THIS_DENTRY_INO,
};
use crate::node::{SysNodeId, SysNodeType};
use crate::text::str_eq;
use crate::tree::{branch_of, leaf_of, node_attr_read, symlink_of, SysTree};
use crate::utils::{
    child_index, has_child, ids_ascend, write_post, SysBranchNodeFields, SysTreeNode,
};
use vstd::prelude::*;

verus! {

/// The kind of file that an inode is.
#[derive(Clone, Copy, Debug, PartialEq, Eq, Structural)]
pub enum InodeType {
    File,
    Dir,
    SymLink,
}

/// A point in time, as the clock of the caller gives it.
#[derive(Clone, Copy, Debug, PartialEq, Eq, Structural)]
pub struct Timestamp {
    pub secs: u64,
    pub nanos: u32,
}

/// The permission bits of an inode.
#[derive(Clone, Copy, Debug, PartialEq, Eq, Structural)]
pub struct InodeMode {
    pub bits: u16,
}

/// The owner may read.
pub const S_IRUSR: u16 = 0o400;

/// The owner may write.
pub const S_IWUSR: u16 = 0o200;

/// The mode of a directory: everyone may read and list it.
pub const DIR_MODE: u16 = 0o555;

/// The mode of a symlink: everyone may read it.
pub const SYMLINK_MODE: u16 = 0o444;

impl InodeMode {
    /// The permission bits as a number.
    pub open spec fn value(&self) -> u16 {
        self.bits
    }

    /// The mode with the low twelve bits of `bits`.
    pub fn from_bits_truncate(bits: u16) -> (r: Self)
        ensures
            r.value() == bits % 0o10000,
    {
        InodeMode { bits: bits % 0o10000 }
    }

    pub fn bits(&self) -> (r: u16)
        ensures
            r == self.value(),
    {
        self.bits
    }
}

/// What an inode says of itself; all of it is fixed when the inode is made.
#[derive(Clone, Copy, Debug, PartialEq, Eq, Structural)]
pub struct Metadata {
    pub ino: u64,
    pub type_: InodeType,
    pub atime: Timestamp,
    pub mtime: Timestamp,
    pub ctime: Timestamp,
    pub uid: u32,
    pub gid: u32,
    pub size: usize,
}

/// The mode bits of the file of an attribute with the flags `flags`.
pub open spec fn mode_of_flags(flags: SysAttrFlags) -> u16 {
    ((if flags.can_read { 0o400int } else { 0int }) + (if flags.can_write { 0o200int } else { 0int
    })) as u16
}

/// What an inode shows, by the ids of the nodes.
pub enum InnerNodeView {
    Branch(u64),
    Leaf(u64),
    Attr(SysAttrView, u64),
    Symlink(u64),
}

/// What an inode shows: a branch, a leaf, an attribute of a branch or of a
/// leaf, or a symlink. The node is named by its id.
#[derive(Debug)]
pub enum InnerNode {
    Branch(SysNodeId),
    Leaf(SysNodeId),
    Attr(SysAttr, SysNodeId),
    Symlink(SysNodeId),
}

impl View for InnerNode {
    type V = InnerNodeView;

    open spec fn view(&self) -> InnerNodeView {
        match self {
            InnerNode::Branch(id) => InnerNodeView::Branch(id.value()),
            InnerNode::Leaf(id) => InnerNodeView::Leaf(id.value()),
            InnerNode::Attr(attr, id) => InnerNodeView::Attr(attr@, id.value()),
            InnerNode::Symlink(id) => InnerNodeView::Symlink(id.value()),
        }
    }
}

impl Clone for InnerNode {
    fn clone(&self) -> (r: Self)
        ensures
            r@ == self@,
    {
        match self {
            InnerNode::Branch(id) => InnerNode::Branch(*id),
            InnerNode::Leaf(id) => InnerNode::Leaf(*id),
            InnerNode::Attr(attr, id) => InnerNode::Attr(attr.clone(), *id),
            InnerNode::Symlink(id) => InnerNode::Symlink(*id),
        }
    }
}

/// The id of the node that `inner` shows or whose attribute it shows.
pub open spec fn inner_node_id(inner: InnerNodeView) -> u64 {
    match inner {
        InnerNodeView::Branch(id) => id,
        InnerNodeView::Leaf(id) => id,
        InnerNodeView::Attr(_, id) => id,
        InnerNodeView::Symlink(id) => id,
    }
}

/// The inode number of what `inner` shows.
pub open spec fn inner_ino(inner: InnerNodeView) -> int {
    match inner {
        InnerNodeView::Branch(id) => ino_of_node(id) as int,
        InnerNodeView::Leaf(id) => ino_of_node(id) as int,
        InnerNodeView::Attr(attr, id) => ino_of_attr(ino_of_node(id), attr.id),
        InnerNodeView::Symlink(id) => ino_of_node(id) as int,
    }
}

/// The kind of file that shows `inner`.
pub open spec fn inner_type(inner: InnerNodeView) -> InodeType {
    match inner {
        InnerNodeView::Branch(_) => InodeType::Dir,
        InnerNodeView::Leaf(_) => InodeType::Dir,
        InnerNodeView::Attr(_, _) => InodeType::File,
        InnerNodeView::Symlink(_) => InodeType::SymLink,
    }
}

/// The inode number of what `inner_node` shows.
pub fn from_inner_node(inner_node: &InnerNode) -> (r: u64)
    ensures
        r == inner_ino(inner_node@),
{
    match inner_node {
        InnerNode::Branch(id) => from_sysnode_id(id),
        InnerNode::Leaf(id) => from_sysnode_id(id),
        InnerNode::Symlink(id) => from_sysnode_id(id),
        InnerNode::Attr(attr, id) => {
            let dir_ino = from_sysnode_id(id);
            from_dir_ino_and_attr_id(dir_ino, attr.id())
        },
    }
}

/// The ids of a sequence of node ids, one number for each.
pub open spec fn id_values(ids: Seq<SysNodeId>) -> Seq<u64> {
    Seq::new(ids.len(), |i: int| ids[i].value())
}

/// What an inode is.
pub struct SysFsInodeView {
    /// What the inode shows.
    pub inner: InnerNodeView,
    pub metadata: Metadata,
    pub mode: InodeMode,
    /// The ids of the directories above the inode, from the root down to
    /// its parent. The root has none.
    pub ancestors: Seq<u64>,
}

/// An inode of the file system.
#[derive(Debug)]
pub struct SysFsInode {
    inner_node: InnerNode,
    metadata: Metadata,
    mode: InodeMode,
    ancestors: Vec<SysNodeId>,
}

impl View for SysFsInode {
    type V = SysFsInodeView;

    closed spec fn view(&self) -> SysFsInodeView {
        SysFsInodeView {
            inner: self.inner_node@,
            metadata: self.metadata,
            mode: self.mode,
            ancestors: id_values(self.ancestors@),
        }
    }
}

/// The invariant of an inode: its number and its kind are those of what
/// it shows.
pub open spec fn inode_wf(v: SysFsInodeView) -> bool {
    &&& v.metadata.ino == inner_ino(v.inner)
    &&& v.metadata.type_ == inner_type(v.inner)
}

/// The metadata of an inode made at the time `now`.
pub open spec fn metadata_at(ino: u64, type_: InodeType, now: Timestamp) -> Metadata {
    Metadata { ino, type_, atime: now, mtime: now, ctime: now, uid: 0, gid: 0, size: 0 }
}

fn clone_ids(ids: &Vec<SysNodeId>) -> (r: Vec<SysNodeId>)
    ensures
        r@ == ids@,
{
    let mut r: Vec<SysNodeId> = Vec::new();
    let mut i: usize = 0;
    while i < ids.len()
        invariant
            i <= ids.len(),
            r@ == ids@.take(i as int),
        decreases ids.len() - i,
    {
        r.push(ids[i]);
        assert(r@ =~= ids@.take(i + 1));
        i = i + 1;
    }
    assert(ids@.take(ids@.len() as int) =~= ids@);
    r
}

impl Clone for SysFsInode {
    fn clone(&self) -> (r: Self)
        ensures
            r@ == self@,
    {
        SysFsInode {
            inner_node: self.inner_node.clone(),
            metadata: self.metadata,
            mode: self.mode,
            ancestors: clone_ids(&self.ancestors),
        }
    }
}

impl SysFsInode {
    /// The invariant of the type.
    pub open spec fn wf(&self) -> bool {
        inode_wf(self@)
    }

    /// The mode of the file of an attribute with the flags `attr_flags`.
    pub fn flags_to_inode_mode(attr_flags: SysAttrFlags) -> (r: InodeMode)
        ensures
            r.value() == mode_of_flags(attr_flags),
    {
        let mut bits: u16 = 0;
        if attr_flags.can_read {
            bits = bits + S_IRUSR;
        }
        if attr_flags.can_write {
            bits = bits + S_IWUSR;
        }
        InodeMode::from_bits_truncate(bits)
    }

    /// The metadata of an inode that is made at the time `now`.
    pub fn new_metadata(ino: u64, type_: InodeType, now: Timestamp) -> (r: Metadata)
        ensures
            r == metadata_at(ino, type_, now),
    {
        Metadata { ino, type_, atime: now, mtime: now, ctime: now, uid: 0, gid: 0, size: 0 }
    }

    /// The inode itself.
    pub fn this(&self) -> (r: SysFsInode)
        ensures
            r@ == self@,
    {
        self.clone()
    }

    pub fn type_(&self) -> (r: InodeType)
        ensures
            r == self@.metadata.type_,
    {
        self.metadata.type_
    }

    pub fn metadata(&self) -> (r: Metadata)
        ensures
            r == self@.metadata,
    {
        self.metadata
    }

    pub fn ino(&self) -> (r: u64)
        ensures
            r == self@.metadata.ino,
    {
        self.metadata.ino
    }

    pub fn size(&self) -> (r: usize)
        ensures
            r == self@.metadata.size,
    {
        self.metadata.size
    }

    pub fn atime(&self) -> (r: Timestamp)
        ensures
            r == self@.metadata.atime,
    {
        self.metadata.atime
    }

    pub fn mtime(&self) -> (r: Timestamp)
        ensures
            r == self@.metadata.mtime,
    {
        self.metadata.mtime
    }

    pub fn ctime(&self) -> (r: Timestamp)
        ensures
            r == self@.metadata.ctime,
    {
        self.metadata.ctime
    }

    /// The times of an inode are fixed: nothing changes.
    pub fn set_atime(&mut self, _time: Timestamp)
        ensures
            *final(self) == *old(self),
    {
    }

    /// The times of an inode are fixed: nothing changes.
    pub fn set_mtime(&mut self, _time: Timestamp)
        ensures
            *final(self) == *old(self),
    {
    }

    /// The times of an inode are fixed: nothing changes.
    pub fn set_ctime(&mut self, _time: Timestamp)
        ensures
            *final(self) == *old(self),
    {
    }

    pub fn mode(&self) -> (r: Result<InodeMode, SysError>)
        ensures
            r == Ok::<InodeMode, SysError>(self@.mode),
    {
        Ok(self.mode)
    }

    /// Replaces the mode; nothing else changes.
    pub fn set_mode(&mut self, mode: InodeMode) -> (r: Result<(), SysError>)
        ensures
            r.is_ok(),
            final(self)@ == (SysFsInodeView { mode, ..old(self)@ }),
    {
        self.mode = mode;
        Ok(())
    }

    pub fn owner(&self) -> (r: Result<u32, SysError>)
        ensures
            r == Ok::<u32, SysError>(self@.metadata.uid),
    {
        Ok(self.metadata.uid)
    }

    /// The owner of an inode cannot be changed.
    pub fn set_owner(&mut self, _uid: u32) -> (r: Result<(), SysError>)
        ensures
            r == Err::<(), SysError>(SysError::NotPermitted),
            *final(self) == *old(self),
    {
        Err(SysError::NotPermitted)
    }

    pub fn group(&self) -> (r: Result<u32, SysError>)
        ensures
            r == Ok::<u32, SysError>(self@.metadata.gid),
    {
        Ok(self.metadata.gid)
    }

    /// The group of an inode cannot be changed.
    pub fn set_group(&mut self, _gid: u32) -> (r: Result<(), SysError>)
        ensures
            r == Err::<(), SysError>(SysError::NotPermitted),
            *final(self) == *old(self),
    {
        Err(SysError::NotPermitted)
    }

    /// The size of an inode cannot be changed.
    pub fn resize(&mut self, _new_size: usize) -> (r: Result<(), SysError>)
        ensures
            r == Err::<(), SysError>(SysError::NotSupported),
            *final(self) == *old(self),
    {
        Err(SysError::NotSupported)
    }

    /// The file system shows the tree: nothing can be created in it.
    pub fn create(&self, _name: &str, _type_: InodeType, _mode: InodeMode) -> (r: Result<
        SysFsInode,
        SysError,
    >)
        ensures
            r is Err,
            r->Err_0 == SysError::NotSupported,
    {
        Err(SysError::NotSupported)
    }

    /// The file system shows the tree: nothing can be created in it.
    pub fn mknod(&self, _name: &str, _mode: InodeMode) -> (r: Result<SysFsInode, SysError>)
        ensures
            r is Err,
            r->Err_0 == SysError::NotSupported,
    {
        Err(SysError::NotSupported)
    }

    pub fn link(&self, _old: &SysFsInode, _name: &str) -> (r: Result<(), SysError>)
        ensures
            r == Err::<(), SysError>(SysError::NotSupported),
    {
        Err(SysError::NotSupported)
    }

    pub fn unlink(&self, _name: &str) -> (r: Result<(), SysError>)
        ensures
            r == Err::<(), SysError>(SysError::NotSupported),
    {
        Err(SysError::NotSupported)
    }

    pub fn rename(&self, _old_name: &str, _target: &SysFsInode, _new_name: &str) -> (r: Result<
        (),
        SysError,
    >)
        ensures
            r == Err::<(), SysError>(SysError::NotSupported),
    {
        Err(SysError::NotSupported)
    }

    pub fn write_link(&self, _target: &str) -> (r: Result<(), SysError>)
        ensures
            r == Err::<(), SysError>(SysError::NotSupported),
    {
        Err(SysError::NotSupported)
    }

    pub fn ioctl(&self, _cmd: u32, _arg: usize) -> (r: Result<i32, SysError>)
        ensures
            r == Err::<i32, SysError>(SysError::NotSupported),
    {
        Err(SysError::NotSupported)
    }

    pub fn fallocate(&self, _offset: usize, _len: usize) -> (r: Result<(), SysError>)
        ensures
            r == Err::<(), SysError>(SysError::NotSupported),
    {
        Err(SysError::NotSupported)
    }

    /// Nothing is kept back: there is nothing to write out.
    pub fn sync_all(&self) -> (r: Result<(), SysError>)
        ensures
            r == Ok::<(), SysError>(()),
    {
        Ok(())
    }

    /// Nothing is kept back: there is nothing to write out.
    pub fn sync_data(&self) -> (r: Result<(), SysError>)
        ensures
            r == Ok::<(), SysError>(()),
    {
        Ok(())
    }

    /// An inode can always be read and written: of the events asked for
    /// in `mask`, those two are reported.
    pub fn poll(&self, mask: u32) -> (r: u32)
        ensures
            r == mask & (POLL_IN | POLL_OUT),
    {
        mask & (POLL_IN | POLL_OUT)
    }

    /// The entries of the file system may be cached by name.
    pub fn is_dentry_cacheable(&self) -> (r: bool)
        ensures
            r,
    {
        true
    }
}

/// The event that an inode can be read.
pub const POLL_IN: u32 = 0x0001;

/// The event that an inode can be written.
pub const POLL_OUT: u32 = 0x0004;

/// The inode of a directory that shows `inner`, made at the time `now`
/// below the directories `ancestors`.
pub open spec fn dir_inode(
    inner: InnerNodeView,
    ancestors: Seq<u64>,
    now: Timestamp,
) -> SysFsInodeView {
    SysFsInodeView {
        inner,
        metadata: metadata_at(inner_ino(inner) as u64, InodeType::Dir, now),
        mode: InodeMode { bits: 0o555 },
        ancestors,
    }
}

/// The inode of the file that shows the attribute `attr` of the node `node_id`.
pub open spec fn attr_inode(
    attr: SysAttrView,
    node_id: u64,
    ancestors: Seq<u64>,
    now: Timestamp,
) -> SysFsInodeView {
    SysFsInodeView {
        inner: InnerNodeView::Attr(attr, node_id),
        metadata: metadata_at(
            ino_of_attr(ino_of_node(node_id), attr.id) as u64,
            InodeType::File,
            now,
        ),
        mode: InodeMode { bits: mode_of_flags(attr.flags) },
        ancestors,
    }
}

/// The inode that shows the symlink `id`.
pub open spec fn symlink_inode(id: u64, ancestors: Seq<u64>, now: Timestamp) -> SysFsInodeView {
    SysFsInodeView {
        inner: InnerNodeView::Symlink(id),
        metadata: metadata_at(ino_of_node(id), InodeType::SymLink, now),
        mode: InodeMode { bits: 0o444 },
        ancestors,
    }
}

/// The inode that shows the node `c`: a directory for a branch or a leaf,
/// a symlink for a symlink.
pub open spec fn child_inode(
    c: SysTreeNode,
    ancestors: Seq<u64>,
    now: Timestamp,
) -> SysFsInodeView {
    match c.kind() {
        SysNodeType::Branch => dir_inode(InnerNodeView::Branch(c.id_value()), ancestors, now),
        SysNodeType::Leaf => dir_inode(InnerNodeView::Leaf(c.id_value()), ancestors, now),
        SysNodeType::Symlink => symlink_inode(c.id_value(), ancestors, now),
    }
}

/// The directories above what lies in the directory `this`.
pub open spec fn below(this: SysFsInodeView) -> Seq<u64> {
    this.ancestors.push(inner_node_id(this.inner))
}

/// The inode of the parent of the directory `this`, made at the time `now`;
/// the root is its own parent.
pub open spec fn parent_inode(this: SysFsInodeView, now: Timestamp) -> SysFsInodeView {
    if this.ancestors.len() == 0 {
        this
    } else {
        dir_inode(InnerNodeView::Branch(this.ancestors.last()), this.ancestors.drop_last(), now)
    }
}

/// What looking up `name` among the attributes `attrs` of the node
/// `node_id` gives, from the directory `this`.
pub open spec fn lookup_attr_result(
    this: SysFsInodeView,
    attrs: Seq<SysAttrView>,
    node_id: u64,
    name: Seq<char>,
    now: Timestamp,
) -> Result<SysFsInodeView, SysError> {
    if has_name(attrs, name) {
        Ok(attr_inode(attrs[position_of(attrs, name, 0)], node_id, below(this), now))
    } else {
        Err(SysError::NotFound)
    }
}

/// What looking up `name` in the branch `branch` gives, from the directory
/// `this`: a child of that name, else an attribute of that name.
pub open spec fn lookup_node_or_attr_result(
    this: SysFsInodeView,
    branch: SysBranchNodeFields,
    name: Seq<char>,
    now: Timestamp,
) -> Result<SysFsInodeView, SysError> {
    if has_child(branch.child_nodes(), name) {
        Ok(
            child_inode(
                branch.child_nodes()[child_index(branch.child_nodes(), name)],
                below(this),
                now,
            ),
        )
    } else {
        lookup_attr_result(this, branch.attrs(), branch.id_value(), name, now)
    }
}

/// What looking up `name` in the directory `this` gives, in the tree below `root`.
pub open spec fn lookup_result(
    this: SysFsInodeView,
    root: SysBranchNodeFields,
    name: Seq<char>,
    now: Timestamp,
) -> Result<SysFsInodeView, SysError> {
    if this.metadata.type_ != InodeType::Dir {
        Err(SysError::NotDir)
    } else if name == seq!['.'] {
        Ok(this)
    } else if name == seq!['.', '.'] {
        Ok(parent_inode(this, now))
    } else {
        match this.inner {
            InnerNodeView::Branch(id) => match branch_of(root, id) {
                Some(f) => lookup_node_or_attr_result(this, f, name, now),
                None => Err(SysError::NotFound),
            },
            InnerNodeView::Leaf(id) => match leaf_of(root, id) {
                Some(f) => lookup_attr_result(this, f.attrs(), id, name, now),
                None => Err(SysError::NotFound),
            },
            _ => Err(SysError::NotDir),
        }
    }
}

/// Whether `name` is `.`.
pub fn is_dot(name: &str) -> (r: bool)
    ensures
        r == (name@ == seq!['.']),
{
    proof {
        reveal_strlit(".");
        assert("."@ =~= seq!['.']);
    }
    str_eq(name, ".")
}

/// Whether `name` is `..`.
pub fn is_dot_dot(name: &str) -> (r: bool)
    ensures
        r == (name@ == seq!['.', '.']),
{
    proof {
        reveal_strlit("..");
        assert(".."@ =~= seq!['.', '.']);
    }
    str_eq(name, "..")
}

impl SysFsInode {
    /// The id of the node that the inode shows or whose attribute it shows.
    pub fn node_id(&self) -> (r: SysNodeId)
        ensures
            r.value() == inner_node_id(self@.inner),
    {
        match &self.inner_node {
            InnerNode::Branch(id) => *id,
            InnerNode::Leaf(id) => *id,
            InnerNode::Attr(_, id) => *id,
            InnerNode::Symlink(id) => *id,
        }
    }

    fn below(&self) -> (r: Vec<SysNodeId>)
        ensures
            id_values(r@) == below(self@),
    {
        let mut r = clone_ids(&self.ancestors);
        r.push(self.node_id());
        assert(id_values(r@) =~= below(self@));
        r
    }

    /// The inode of the directory that shows `inner_node`, which is a
    /// branch or a leaf.
    pub fn do_new_dir(inner_node: InnerNode, ancestors: Vec<SysNodeId>, now: Timestamp) -> (r:
        SysFsInode)
        requires
            inner_node@ is Branch || inner_node@ is Leaf,
        ensures
            r@ == dir_inode(inner_node@, id_values(ancestors@), now),
            r.wf(),
    {
        let ino = from_inner_node(&inner_node);
        let metadata = Self::new_metadata(ino, InodeType::Dir, now);
        let mode = InodeMode::from_bits_truncate(DIR_MODE);
        SysFsInode { inner_node, metadata, mode, ancestors }
    }

    /// The inode of the root of `tree`.
    pub fn new_root(tree: &SysTree, now: Timestamp) -> (r: SysFsInode)
        requires
            tree.wf(),
        ensures
            r@ == dir_inode(
                InnerNodeView::Branch(tree.root_fields().id_value()),
                Seq::<u64>::empty(),
                now,
            ),
            r.wf(),
    {
        let id = *tree.root().id();
        let ancestors: Vec<SysNodeId> = Vec::new();
        assert(id_values(ancestors@) =~= Seq::<u64>::empty());
        Self::do_new_dir(InnerNode::Branch(id), ancestors, now)
    }

    /// The inode of the directory that shows the branch `sysnode`, a child
    /// of what this inode shows.
    pub fn new_branch_dir(&self, sysnode: SysNodeId, now: Timestamp) -> (r: SysFsInode)
        ensures
            r@ == dir_inode(InnerNodeView::Branch(sysnode.value()), below(self@), now),
            r.wf(),
    {
        Self::do_new_dir(InnerNode::Branch(sysnode), self.below(), now)
    }

    /// The inode of the directory that shows the leaf `sysnode`, a child
    /// of what this inode shows.
    pub fn new_leaf_dir(&self, sysnode: SysNodeId, now: Timestamp) -> (r: SysFsInode)
        ensures
            r@ == dir_inode(InnerNodeView::Leaf(sysnode.value()), below(self@), now),
            r.wf(),
    {
        Self::do_new_dir(InnerNode::Leaf(sysnode), self.below(), now)
    }

    /// The inode of the file that shows the attribute `attr` of the node
    /// `sysnode`, which this inode shows.
    pub fn new_attr_file(&self, attr: &SysAttr, sysnode: SysNodeId, now: Timestamp) -> (r:
        SysFsInode)
        ensures
            r@ == attr_inode(attr@, sysnode.value(), below(self@), now),
            r.wf(),
    {
        let inner_node = InnerNode::Attr(attr.clone(), sysnode);
        let ino = from_inner_node(&inner_node);
        let metadata = Self::new_metadata(ino, InodeType::File, now);
        let mode = Self::flags_to_inode_mode(attr.flags());
        SysFsInode { inner_node, metadata, mode, ancestors: self.below() }
    }

    /// The inode that shows the symlink `sysnode`, a child of what this
    /// inode shows.
    pub fn new_symlink(&self, sysnode: SysNodeId, now: Timestamp) -> (r: SysFsInode)
        ensures
            r@ == symlink_inode(sysnode.value(), below(self@), now),
            r.wf(),
    {
        let inner_node = InnerNode::Symlink(sysnode);
        let ino = from_inner_node(&inner_node);
        let metadata = Self::new_metadata(ino, InodeType::SymLink, now);
        let mode = InodeMode::from_bits_truncate(SYMLINK_MODE);
        SysFsInode { inner_node, metadata, mode, ancestors: self.below() }
    }

    /// Looks up `name` among the attributes of the node `sysnode`.
    pub fn lookup_attr(
        &self,
        name: &str,
        attr_set: &SysAttrSet,
        sysnode: SysNodeId,
        now: Timestamp,
    ) -> (r: Result<SysFsInode, SysError>)
        ensures
            match r {
                Ok(inode) => lookup_attr_result(self@, attr_set@, sysnode.value(), name@, now)
                    == Ok::<SysFsInodeView, SysError>(inode@) && inode.wf(),
                Err(e) => lookup_attr_result(self@, attr_set@, sysnode.value(), name@, now)
                    == Err::<SysFsInodeView, SysError>(e),
            },
    {
        match attr_set.get(name) {
            Some(attr) => Ok(self.new_attr_file(attr, sysnode, now)),
            None => Err(SysError::NotFound),
        }
    }

    /// Looks up `name` in the branch `sysnode`: among its children, then
    /// among its attributes.
    pub fn lookup_node_or_attr(
        &self,
        name: &str,
        sysnode: &SysBranchNodeFields,
        now: Timestamp,
    ) -> (r: Result<SysFsInode, SysError>)
        requires
            sysnode.wf(),
        ensures
            match r {
                Ok(inode) => lookup_node_or_attr_result(self@, *sysnode, name@, now) == Ok::<
                    SysFsInodeView,
                    SysError,
                >(inode@) && inode.wf(),
                Err(e) => lookup_node_or_attr_result(self@, *sysnode, name@, now) == Err::<
                    SysFsInodeView,
                    SysError,
                >(e),
            },
    {
        if let Some(child) = sysnode.child(name) {
            let id = *child.id();
            let child_inode = match child.type_() {
                SysNodeType::Branch => self.new_branch_dir(id, now),
                SysNodeType::Leaf => self.new_leaf_dir(id, now),
                SysNodeType::Symlink => self.new_symlink(id, now),
            };
            return Ok(child_inode);
        }
        self.lookup_attr(name, sysnode.attr_set(), *sysnode.id(), now)
    }

    /// The inode of the parent directory; the root is its own parent.
    pub fn parent(&self, now: Timestamp) -> (r: SysFsInode)
        requires
            self.wf(),
        ensures
            r@ == parent_inode(self@, now),
            r.wf(),
    {
        let n = self.ancestors.len();
        if n == 0 {
            return self.clone();
        }
        let mut above = clone_ids(&self.ancestors);
        let id = above.pop().unwrap();
        assert(id_values(above@) =~= self@.ancestors.drop_last());
        Self::do_new_dir(InnerNode::Branch(id), above, now)
    }

    /// Looks up `name` in the directory that the inode is.
    pub fn lookup(&self, tree: &SysTree, name: &str, now: Timestamp) -> (r: Result<
        SysFsInode,
        SysError,
    >)
        requires
            self.wf(),
            tree.wf(),
        ensures
            match r {
                Ok(inode) => lookup_result(self@, tree.root_fields(), name@, now) == Ok::<
                    SysFsInodeView,
                    SysError,
                >(inode@) && inode.wf(),
                Err(e) => lookup_result(self@, tree.root_fields(), name@, now) == Err::<
                    SysFsInodeView,
                    SysError,
                >(e),
            },
    {
        if self.type_() != InodeType::Dir {
            return Err(SysError::NotDir);
        }
        if is_dot(name) {
            return Ok(self.this());
        } else if is_dot_dot(name) {
            return Ok(self.parent(now));
        }
        match &self.inner_node {
            InnerNode::Branch(id) => {
                match tree.branch(id.as_u64()) {
                    Some(branch) => self.lookup_node_or_attr(name, branch, now),
                    None => Err(SysError::NotFound),
                }
            },
            InnerNode::Leaf(id) => {
                match tree.leaf(id.as_u64()) {
                    Some(leaf) => self.lookup_attr(name, leaf.attr_set(), *id, now),
                    None => Err(SysError::NotFound),
                }
            },
            _ => Err(SysError::NotDir),
        }
    }
}

/// What reading from the inode `this` gives, in the tree below `root`.
pub open spec fn read_result(this: SysFsInodeView, root: SysBranchNodeFields) -> Result<
    Seq<u8>,
    SysError,
> {
    match this.inner {
        InnerNodeView::Attr(attr, id) => node_attr_read(root, id, attr.name),
        _ => Err(SysError::Invalid),
    }
}

/// What reading the link of the inode `this` gives, in the tree below `root`.
pub open spec fn read_link_result(this: SysFsInodeView, root: SysBranchNodeFields) -> Result<
    Seq<char>,
    SysError,
> {
    match this.inner {
        InnerNodeView::Symlink(id) => match symlink_of(root, id) {
            Some(f) => Ok(f.target_view()),
            None => Err(SysError::NotFound),
        },
        _ => Err(SysError::Invalid),
    }
}

impl SysFsInode {
    /// The bytes of the attribute that the inode shows. The offset is not
    /// looked at.
    pub fn read_at(&self, tree: &SysTree, _offset: usize) -> (r: Result<Vec<u8>, SysError>)
        requires
            tree.wf(),
        ensures
            match r {
                Ok(bytes) => read_result(self@, tree.root_fields()) == Ok::<Seq<u8>, SysError>(
                    bytes@,
                ),
                Err(e) => read_result(self@, tree.root_fields()) == Err::<Seq<u8>, SysError>(e),
            },
    {
        self.read_direct_at(tree, _offset)
    }

    /// The bytes of the attribute that the inode shows. The offset is not
    /// looked at.
    pub fn read_direct_at(&self, tree: &SysTree, _offset: usize) -> (r: Result<Vec<u8>, SysError>)
        requires
            tree.wf(),
        ensures
            match r {
                Ok(bytes) => read_result(self@, tree.root_fields()) == Ok::<Seq<u8>, SysError>(
                    bytes@,
                ),
                Err(e) => read_result(self@, tree.root_fields()) == Err::<Seq<u8>, SysError>(e),
            },
    {
        match &self.inner_node {
            InnerNode::Attr(attr, id) => tree.read_attr(id.as_u64(), attr.name()),
            _ => Err(SysError::Invalid),
        }
    }

    /// The path that the symlink which the inode shows points to.
    pub fn read_link(&self, tree: &SysTree) -> (r: Result<String, SysError>)
        requires
            tree.wf(),
        ensures
            match r {
                Ok(target) => read_link_result(self@, tree.root_fields()) == Ok::<
                    Seq<char>,
                    SysError,
                >(target@),
                Err(e) => read_link_result(self@, tree.root_fields()) == Err::<
                    Seq<char>,
                    SysError,
                >(e),
            },
    {
        match &self.inner_node {
            InnerNode::Symlink(id) => match tree.symlink(id.as_u64()) {
                Some(f) => Ok(f.target_path().to_owned()),
                None => Err(SysError::NotFound),
            },
            _ => Err(SysError::Invalid),
        }
    }
}

/// What an entry of a directory is.
pub struct DentryView {
    /// The inode number that is reported for the entry.
    pub ino: u64,
    /// The number by which the entries of a directory are ordered.
    pub order: u64,
    pub name: Seq<char>,
    pub type_: InodeType,
}

/// An entry of a directory.
#[derive(Debug)]
pub struct Dentry {
    /// The inode number that is reported for the entry.
    pub ino: u64,
    /// The number by which the entries of a directory are ordered.
    pub order: u64,
    pub name: String,
    pub type_: InodeType,
}

impl View for Dentry {
    type V = DentryView;

    open spec fn view(&self) -> DentryView {
        DentryView { ino: self.ino, order: self.order, name: self.name@, type_: self.type_ }
    }
}

/// The entries of a sequence of entries, one view for each.
pub open spec fn dentry_views(ds: Seq<Dentry>) -> Seq<DentryView> {
    Seq::new(ds.len(), |i: int| ds[i]@)
}

/// The entry of the attribute `a` of the directory `dir_ino`.
pub open spec fn attr_dentry(a: SysAttrView, dir_ino: u64) -> DentryView {
    DentryView {
        ino: ino_of_attr(dir_ino, a.id) as u64,
        order: ino_of_attr(dir_ino, a.id) as u64,
        name: a.name,
        type_: InodeType::File,
    }
}

/// The entries of the first `upto` attributes of `attrs`, without those
/// whose number is below `min_ino`.
pub open spec fn attr_dentries(
    attrs: Seq<SysAttrView>,
    dir_ino: u64,
    min_ino: u64,
    upto: int,
) -> Seq<DentryView>
    decreases upto,
{
    if upto <= 0 {
        Seq::empty()
    } else if attr_dentry(attrs[upto - 1], dir_ino).order >= min_ino {
        attr_dentries(attrs, dir_ino, min_ino, upto - 1).push(attr_dentry(attrs[upto - 1], dir_ino))
    } else {
        attr_dentries(attrs, dir_ino, min_ino, upto - 1)
    }
}

/// The entry of the child node `c`.
pub open spec fn child_dentry(c: SysTreeNode) -> DentryView {
    DentryView {
        ino: ino_of_node(c.id_value()),
        order: ino_of_node(c.id_value()),
        name: c.name_view(),
        type_: match c.kind() {
            SysNodeType::Symlink => InodeType::SymLink,
            _ => InodeType::Dir,
        },
    }
}

/// The entries of the first `upto` nodes of `cs`, without those whose
/// number is below `min_ino`.
pub open spec fn child_dentries(cs: Seq<SysTreeNode>, min_ino: u64, upto: int) -> Seq<DentryView>
    decreases upto,
{
    if upto <= 0 {
        Seq::empty()
    } else if child_dentry(cs[upto - 1]).order >= min_ino {
        child_dentries(cs, min_ino, upto - 1).push(child_dentry(cs[upto - 1]))
    } else {
        child_dentries(cs, min_ino, upto - 1)
    }
}

/// The entries `.` and `..` of a directory, as far as their ordering
/// numbers are not below `min_ino`. They report the number of the
/// directory and of its parent.
pub open spec fn special_dentries(this_ino: u64, parent_ino: u64, min_ino: u64) -> Seq<DentryView> {
    let this = DentryView {
        ino: this_ino,
        order: THIS_DENTRY_INO,
        name: seq!['.'],
        type_: InodeType::Dir,
    };
    let parent = DentryView {
        ino: parent_ino,
        order: PARENT_DENTRY_INO,
        name: seq!['.', '.'],
        type_: InodeType::Dir,
    };
    if min_ino <= THIS_DENTRY_INO {
        seq![this, parent]
    } else if min_ino <= PARENT_DENTRY_INO {
        seq![parent]
    } else {
        Seq::empty()
    }
}

/// The entries of a directory whose ordering number is at least `min_ino`:
/// the attributes by their ids, then the children by their ids, then `.`
/// and `..`.
pub open spec fn dir_dentries(
    attrs: Seq<SysAttrView>,
    cs: Seq<SysTreeNode>,
    this_ino: u64,
    parent_ino: u64,
    min_ino: u64,
) -> Seq<DentryView> {
    attr_dentries(attrs, this_ino, min_ino, attrs.len() as int) + child_dentries(
        cs,
        min_ino,
        cs.len() as int,
    ) + special_dentries(this_ino, parent_ino, min_ino)
}

/// The inode number of the parent of the directory `this`; the root is
/// its own parent.
pub open spec fn parent_ino(this: SysFsInodeView) -> u64 {
    if this.ancestors.len() == 0 {
        this.metadata.ino
    } else {
        ino_of_node(this.ancestors.last())
    }
}

/// The entries of the directory `this` whose ordering number is at least
/// `min_ino`, in the tree below `root`; `None` where the tree no longer
/// has the node.
pub open spec fn dentries_result(
    this: SysFsInodeView,
    root: SysBranchNodeFields,
    min_ino: u64,
) -> Option<Seq<DentryView>> {
    match this.inner {
        InnerNodeView::Branch(id) => match branch_of(root, id) {
            Some(f) => Some(
                dir_dentries(
                    f.attrs(),
                    f.child_nodes(),
                    this.metadata.ino,
                    parent_ino(this),
                    min_ino,
                ),
            ),
            None => None,
        },
        InnerNodeView::Leaf(id) => match leaf_of(root, id) {
            Some(f) => Some(
                dir_dentries(
                    f.attrs(),
                    Seq::empty(),
                    this.metadata.ino,
                    parent_ino(this),
                    min_ino,
                ),
            ),
            None => None,
        },
        _ => None,
    }
}

/// Whether every entry of `ds` has an ordering number from `min_ino` on
/// and below the greatest number.
pub open spec fn orders_within(ds: Seq<DentryView>, min_ino: u64) -> bool {
    forall|i: int| 0 <= i < ds.len() ==> min_ino <= (#[trigger] ds[i]).order < u64::MAX
}

/// The entries of a directory lie at or above the number that was asked for.
pub proof fn lemma_dentries_within(
    attrs: Seq<SysAttrView>,
    cs: Seq<SysTreeNode>,
    this_ino: u64,
    parent_ino: u64,
    min_ino: u64,
)
    requires
        this_ino + 255 < u64::MAX,
    ensures
        orders_within(dir_dentries(attrs, cs, this_ino, parent_ino, min_ino), min_ino),
{
    lemma_attr_dentries_within(attrs, this_ino, min_ino, attrs.len() as int);
    lemma_child_dentries_within(cs, min_ino, cs.len() as int);
}

proof fn lemma_attr_dentries_within(attrs: Seq<SysAttrView>, dir_ino: u64, min_ino: u64, upto: int)
    requires
        dir_ino + 255 < u64::MAX,
        upto <= attrs.len(),
    ensures
        orders_within(attr_dentries(attrs, dir_ino, min_ino, upto), min_ino),
    decreases upto,
{
    if upto > 0 {
        lemma_attr_dentries_within(attrs, dir_ino, min_ino, upto - 1);
    }
}

proof fn lemma_child_dentries_within(cs: Seq<SysTreeNode>, min_ino: u64, upto: int)
    requires
        upto <= cs.len(),
    ensures
        orders_within(child_dentries(cs, min_ino, upto), min_ino),
    decreases upto,
{
    if upto > 0 {
        lemma_child_dentries_within(cs, min_ino, upto - 1);
        lemma_node_ino_aligned(cs[upto - 1].id_value());
    }
}

fn push_attr_dentries(entries: &mut Vec<Dentry>, attr_set: &SysAttrSet, dir_ino: u64, min_ino: u64)
    requires
        dir_ino + 255 <= u64::MAX,
    ensures
        dentry_views(final(entries)@) == dentry_views(old(entries)@) + attr_dentries(
            attr_set@,
            dir_ino,
            min_ino,
            attr_set@.len() as int,
        ),
{
    let attrs = attr_set.iter();
    let ghost before = dentry_views(entries@);
    let mut i: usize = 0;
    assert(dentry_views(entries@) =~= before + attr_dentries(attr_set@, dir_ino, min_ino, 0));
    while i < attrs.len()
        invariant
            i <= attrs@.len(),
            attr_views(attrs@) == attr_set@,
            attrs@.len() == attr_set@.len(),
            dir_ino + 255 <= u64::MAX,
            dentry_views(entries@) == before + attr_dentries(
                attr_set@,
                dir_ino,
                min_ino,
                i as int,
            ),
        decreases attrs@.len() - i,
    {
        let attr = &attrs[i];
        assert(attr@ == attr_set@[i as int]);
        let ino = from_dir_ino_and_attr_id(dir_ino, attr.id());
        if ino >= min_ino {
            let ghost prev = dentry_views(entries@);
            entries.push(
                Dentry { ino, order: ino, name: attr.name().to_owned(), type_: InodeType::File },
            );
            assert(dentry_views(entries@) =~= prev.push(attr_dentry(attr@, dir_ino)));
            assert(prev.push(attr_dentry(attr@, dir_ino)) =~= before + attr_dentries(
                attr_set@,
                dir_ino,
                min_ino,
                i + 1,
            ));
        }
        i = i + 1;
    }
}

fn push_child_dentries(entries: &mut Vec<Dentry>, children: &[SysTreeNode], min_ino: u64)
    ensures
        dentry_views(final(entries)@) == dentry_views(old(entries)@) + child_dentries(
            children@,
            min_ino,
            children@.len() as int,
        ),
{
    let ghost before = dentry_views(entries@);
    let mut i: usize = 0;
    assert(dentry_views(entries@) =~= before + child_dentries(children@, min_ino, 0));
    while i < children.len()
        invariant
            i <= children@.len(),
            dentry_views(entries@) == before + child_dentries(children@, min_ino, i as int),
        decreases children@.len() - i,
    {
        let child = &children[i];
        let ino = from_sysnode_id(child.id());
        if ino >= min_ino {
            let type_ = match child.type_() {
                SysNodeType::Symlink => InodeType::SymLink,
                _ => InodeType::Dir,
            };
            let ghost prev = dentry_views(entries@);
            entries.push(Dentry { ino, order: ino, name: child.name().to_owned(), type_ });
            assert(dentry_views(entries@) =~= prev.push(child_dentry(*child)));
            assert(prev.push(child_dentry(*child)) =~= before + child_dentries(
                children@,
                min_ino,
                i + 1,
            ));
        }
        i = i + 1;
    }
}

fn push_special_dentries(entries: &mut Vec<Dentry>, this_ino: u64, parent_ino: u64, min_ino: u64)
    ensures
        dentry_views(final(entries)@) == dentry_views(old(entries)@) + special_dentries(
            this_ino,
            parent_ino,
            min_ino,
        ),
{
    let ghost before = dentry_views(entries@);
    proof {
        reveal_strlit(".");
        reveal_strlit("..");
        assert("."@ =~= seq!['.']);
        assert(".."@ =~= seq!['.', '.']);
    }
    if min_ino <= THIS_DENTRY_INO {
        entries.push(
            Dentry {
                ino: this_ino,
                order: THIS_DENTRY_INO,
                name: ".".to_owned(),
                type_: InodeType::Dir,
            },
        );
    }
    if min_ino <= PARENT_DENTRY_INO {
        entries.push(
            Dentry {
                ino: parent_ino,
                order: PARENT_DENTRY_INO,
                name: "..".to_owned(),
                type_: InodeType::Dir,
            },
        );
    }
    assert(dentry_views(entries@) =~= before + special_dentries(this_ino, parent_ino, min_ino));
}

impl SysFsInode {
    /// The inode number of the parent directory; the root is its own parent.
    pub fn parent_ino(&self) -> (r: u64)
        ensures
            r == parent_ino(self@),
    {
        let n = self.ancestors.len();
        if n == 0 {
            self.metadata.ino
        } else {
            from_sysnode_id(&self.ancestors[n - 1])
        }
    }

    /// The entries of the directory that the inode is, from the ordering
    /// number `min_ino` on: attributes, children, `.` and `..`. `None` where
    /// the tree no longer has the node.
    pub fn new_dentry_iter(&self, tree: &SysTree, min_ino: u64) -> (r: Option<Vec<Dentry>>)
        requires
            self.wf(),
            tree.wf(),
            self@.metadata.type_ == InodeType::Dir,
        ensures
            match r {
                Some(ds) => dentries_result(self@, tree.root_fields(), min_ino) == Some(
                    dentry_views(ds@),
                ),
                None => dentries_result(self@, tree.root_fields(), min_ino) is None,
            },
    {
        let this_ino = self.ino();
        let parent_ino = self.parent_ino();
        let mut entries: Vec<Dentry> = Vec::new();
        assert(dentry_views(entries@) =~= Seq::<DentryView>::empty());
        match &self.inner_node {
            InnerNode::Branch(id) => {
                proof {
                    lemma_node_ino_aligned(id.value());
                }
                match tree.branch(id.as_u64()) {
                    Some(f) => {
                        push_attr_dentries(&mut entries, f.attr_set(), this_ino, min_ino);
                        push_child_dentries(&mut entries, f.children(), min_ino);
                        push_special_dentries(&mut entries, this_ino, parent_ino, min_ino);
                        assert(dentry_views(entries@) =~= dir_dentries(
                            f.attrs(),
                            f.child_nodes(),
                            this_ino,
                            parent_ino,
                            min_ino,
                        ));
                        Some(entries)
                    },
                    None => None,
                }
            },
            InnerNode::Leaf(id) => {
                proof {
                    lemma_node_ino_aligned(id.value());
                }
                match tree.leaf(id.as_u64()) {
                    Some(f) => {
                        push_attr_dentries(&mut entries, f.attr_set(), this_ino, min_ino);
                        push_special_dentries(&mut entries, this_ino, parent_ino, min_ino);
                        assert(child_dentries(Seq::<SysTreeNode>::empty(), min_ino, 0)
                            =~= Seq::<DentryView>::empty());
                        assert(dentry_views(entries@) =~= dir_dentries(
                            f.attrs(),
                            Seq::<SysTreeNode>::empty(),
                            this_ino,
                            parent_ino,
                            min_ino,
                        ));
                        Some(entries)
                    },
                    None => None,
                }
            },
            _ => None,
        }
    }
}

/// Who is shown the entries of a directory, one at a time, and may stop
/// the listing by refusing an entry.
pub trait DirentVisitor {
    /// What the visitor goes by when it is shown an entry.
    type State;

    /// What the visitor goes by now.
    spec fn state(&self) -> Self::State;

    /// Whether a visitor in the state `s` takes the entry `entry`.
    spec fn takes(s: Self::State, entry: DentryView) -> bool;

    /// The state of a visitor that was in the state `s` and took `entry`.
    spec fn next(s: Self::State, entry: DentryView) -> Self::State;

    /// Shows the visitor an entry: its name, the inode number reported for
    /// it, its kind, and the offset at which a later listing would find it
    /// again. The visitor takes or refuses it as its state says; a refusal
    /// leaves the state as it was.
    fn visit(&mut self, name: &str, ino: u64, type_: InodeType, offset: u64) -> (r: Result<
        (),
        SysError,
    >)
        ensures
            (r is Ok) == Self::takes(
                old(self).state(),
                DentryView { ino, order: offset, name: name@, type_ },
            ),
            r is Ok ==> final(self).state() == Self::next(
                old(self).state(),
                DentryView { ino, order: offset, name: name@, type_ },
            ),
            r is Err ==> final(self).state() == old(self).state(),
    ;
}

/// What showing the entries of `ds` from the position `from` on does to a
/// visitor in the state `s`: the state in which it is left, and the
/// position of the entry that it refused, or the length of `ds` where it
/// took them all.
pub open spec fn listed<V: DirentVisitor>(s: V::State, ds: Seq<DentryView>, from: int) -> (
    V::State,
    int,
)
    decreases ds.len() - from,
{
    if from < 0 || from >= ds.len() || !V::takes(s, ds[from]) {
        (s, from)
    } else {
        listed::<V>(V::next(s, ds[from]), ds, from + 1)
    }
}

/// A visitor that keeps the entries it is shown, up to a limit.
#[derive(Debug)]
pub struct DentryCollector {
    entries: Vec<Dentry>,
    limit: usize,
}

impl DentryCollector {
    /// The entries that were taken, oldest first.
    pub closed spec fn visited(&self) -> Seq<DentryView> {
        dentry_views(self.entries@)
    }

    /// How many entries the collector takes at most.
    pub closed spec fn limit(&self) -> nat {
        self.limit as nat
    }

    /// A collector without entries that takes `limit` of them.
    pub fn new(limit: usize) -> (r: Self)
        ensures
            r.visited() == Seq::<DentryView>::empty(),
            r.limit() == limit,
    {
        let r = DentryCollector { entries: Vec::new(), limit };
        assert(r.visited() =~= Seq::<DentryView>::empty());
        r
    }

    /// The entries that were taken, oldest first.
    pub fn entries(&self) -> (r: &[Dentry])
        ensures
            dentry_views(r@) == self.visited(),
    {
        self.entries.as_slice()
    }
}

impl DirentVisitor for DentryCollector {
    /// The entries that were taken, and how many are taken at most.
    type State = (Seq<DentryView>, nat);

    open spec fn state(&self) -> (Seq<DentryView>, nat) {
        (self.visited(), self.limit())
    }

    open spec fn takes(s: (Seq<DentryView>, nat), entry: DentryView) -> bool {
        s.0.len() < s.1
    }

    open spec fn next(s: (Seq<DentryView>, nat), entry: DentryView) -> (Seq<DentryView>, nat) {
        (s.0.push(entry), s.1)
    }

    fn visit(&mut self, name: &str, ino: u64, type_: InodeType, offset: u64) -> (r: Result<
        (),
        SysError,
    >)
        ensures
            r is Err ==> r == Err::<(), SysError>(SysError::Invalid),
    {
        if self.entries.len() >= self.limit {
            return Err(SysError::Invalid);
        }
        let ghost before = self.visited();
        self.entries.push(Dentry { ino, order: offset, name: name.to_owned(), type_ });
        assert(self.visited() =~= before.push(
            DentryView { ino, order: offset, name: name@, type_ },
        ));
        Ok(())
    }
}

/// What a listing returns after the visitor took the first `accepted`
/// entries of `ds`, which were listed from `min_ino` on: nothing to list
/// gives 0; a refusal of the first entry is an error; else the offset of
/// the next listing lies just behind the last entry taken, and the
/// distance to it is returned.
pub open spec fn readdir_outcome(ds: Seq<DentryView>, accepted: int, min_ino: u64) -> Result<
    u64,
    SysError,
> {
    if ds.len() == 0 {
        Ok(0)
    } else if accepted <= 0 {
        Err(SysError::Invalid)
    } else {
        Ok((ds[accepted - 1].order + 1 - min_ino) as u64)
    }
}

/// What a listing returns after the visitor took the first `accepted`
/// entries of `dentries`, which were listed from `min_ino` on.
pub fn readdir_result(dentries: &[Dentry], accepted: usize, min_ino: u64) -> (r: Result<
    u64,
    SysError,
>)
    requires
        accepted <= dentries@.len(),
        orders_within(dentry_views(dentries@), min_ino),
    ensures
        r == readdir_outcome(dentry_views(dentries@), accepted as int, min_ino),
{
    if dentries.len() == 0 {
        return Ok(0);
    }
    if accepted == 0 {
        return Err(SysError::Invalid);
    }
    let last = dentries[accepted - 1].order;
    assert(dentry_views(dentries@)[accepted - 1].order == last);
    Ok(last + 1 - min_ino)
}

/// What listing the directory `this` from `offset` on does, for a visitor
/// that was in the state `before` and is in the state `after` now: the
/// visitor was shown the entries in order until it refused one, and the
/// result `r` is that of the entries it took. An inode that is no
/// directory, or whose node is gone, shows the visitor nothing.
pub open spec fn readdir_post<V: DirentVisitor>(
    this: SysFsInodeView,
    root: SysBranchNodeFields,
    offset: u64,
    before: V::State,
    after: V::State,
    r: Result<u64, SysError>,
) -> bool {
    if this.metadata.type_ != InodeType::Dir {
        r == Err::<u64, SysError>(SysError::NotDir) && after == before
    } else {
        match dentries_result(this, root, offset) {
            None => r == Err::<u64, SysError>(SysError::NotFound) && after == before,
            Some(ds) => {
                &&& after == listed::<V>(before, ds, 0).0
                &&& r == readdir_outcome(ds, listed::<V>(before, ds, 0).1, offset)
            },
        }
    }
}

impl SysFsInode {
    /// Lists the directory that the inode is. The offset is the least
    /// ordering number to list, not an index: the entries with a lower one
    /// were listed before. The visitor is shown the entries in order until
    /// it refuses one. The result is what to add to `offset` for the next
    /// call.
    pub fn readdir_at<V: DirentVisitor>(&self, tree: &SysTree, offset: u64, visitor: &mut V) -> (r:
        Result<u64, SysError>)
        requires
            self.wf(),
            tree.wf(),
            self@.metadata.ino + 255 < u64::MAX,
        ensures
            readdir_post::<V>(
                self@,
                tree.root_fields(),
                offset,
                old(visitor).state(),
                final(visitor).state(),
                r,
            ),
    {
        if self.type_() != InodeType::Dir {
            return Err(SysError::NotDir);
        }
        let min_ino = offset;
        let dentries = match self.new_dentry_iter(tree, min_ino) {
            Some(ds) => ds,
            None => { return Err(SysError::NotFound); },
        };
        let ghost ds = dentry_views(dentries@);
        let ghost before = visitor.state();
        proof {
            match self@.inner {
                InnerNodeView::Branch(id) => {
                    let f = branch_of(tree.root_fields(), id).unwrap();
                    lemma_dentries_within(
                        f.attrs(),
                        f.child_nodes(),
                        self@.metadata.ino,
                        parent_ino(self@),
                        min_ino,
                    );
                },
                InnerNodeView::Leaf(id) => {
                    let f = leaf_of(tree.root_fields(), id).unwrap();
                    lemma_dentries_within(
                        f.attrs(),
                        Seq::empty(),
                        self@.metadata.ino,
                        parent_ino(self@),
                        min_ino,
                    );
                },
                _ => {},
            }
        }
        let mut count: usize = 0;
        let mut refused = false;
        while count < dentries.len() && !refused
            invariant
                count <= dentries@.len(),
                ds == dentry_views(dentries@),
                listed::<V>(before, ds, 0) == listed::<V>(visitor.state(), ds, count as int),
                refused ==> count < ds.len() && !V::takes(visitor.state(), ds[count as int]),
            decreases dentries@.len() - count, (if refused { 0int } else { 1int }),
        {
            let dentry = &dentries[count];
            assert(dentry@ == ds[count as int]);
            let res = visitor.visit(dentry.name.as_str(), dentry.ino, dentry.type_, dentry.order);
            if res.is_err() {
                refused = true;
                continue ;
            }
            count = count + 1;
        }
        assert(listed::<V>(visitor.state(), ds, count as int) == (visitor.state(), count as int));
        readdir_result(dentries.as_slice(), count, min_ino)
    }
}

/// In a directory, `.` is the directory itself, and the parent of the
/// root is the root.
pub proof fn lemma_lookup_dot(this: SysFsInodeView, root: SysBranchNodeFields, now: Timestamp)
    requires
        this.metadata.type_ == InodeType::Dir,
    ensures
        lookup_result(this, root, seq!['.'], now) == Ok::<SysFsInodeView, SysError>(this),
        this.ancestors.len() == 0 ==> lookup_result(this, root, seq!['.', '.'], now) == Ok::<
            SysFsInodeView,
            SysError,
        >(this),
{
    assert(seq!['.', '.'].len() != seq!['.'].len());
}

/// A name that neither a child nor an attribute of a branch has is not
/// found in the directory of the branch: so a child that was taken out,
/// unless an attribute has its name.
pub proof fn lemma_lookup_of_missing_name(
    this: SysFsInodeView,
    root: SysBranchNodeFields,
    name: Seq<char>,
    now: Timestamp,
)
    requires
        this.inner is Branch,
        this.metadata.type_ == InodeType::Dir,
        name != seq!['.'],
        name != seq!['.', '.'],
        branch_of(root, this.inner->Branch_0) is Some,
        !has_child(branch_of(root, this.inner->Branch_0).unwrap().child_nodes(), name),
        !has_name(branch_of(root, this.inner->Branch_0).unwrap().attrs(), name),
    ensures
        lookup_result(this, root, name, now) == Err::<SysFsInodeView, SysError>(
            SysError::NotFound,
        ),
{
}

/// The mode that was set is the mode of the inode, and nothing else of
/// the inode has changed.
pub proof fn lemma_mode_after_set(before: SysFsInodeView, mode: InodeMode)
    ensures
        (SysFsInodeView { mode, ..before }).mode == mode,
        (SysFsInodeView { mode, ..before }).metadata == before.metadata,
        (SysFsInodeView { mode, ..before }).inner == before.inner,
        inode_wf(before) ==> inode_wf(SysFsInodeView { mode, ..before }),
{
}

/// The files of two attributes of a branch have different inode numbers.
pub proof fn lemma_attr_files_distinct(b: SysBranchNodeFields, i: int, j: int)
    requires
        b.wf(),
        0 <= i < b.attrs().len(),
        0 <= j < b.attrs().len(),
        i != j,
    ensures
        ino_of_attr(ino_of_node(b.id_value()), b.attrs()[i].id) != ino_of_attr(
            ino_of_node(b.id_value()),
            b.attrs()[j].id,
        ),
{
    assert(b.attrs()[i].id as int == i);
    assert(b.attrs()[j].id as int == j);
    lemma_attr_inos_distinct(b.id_value(), b.attrs()[i].id, b.attrs()[j].id);
}

/// The file of an attribute of a branch and the directory of a child of
/// the branch have different inode numbers, as long as the ids of the
/// branch and of the child lie below 2^56.
pub proof fn lemma_attr_file_is_no_child(b: SysBranchNodeFields, i: int, k: int)
    requires
        b.wf(),
        0 <= i < b.attrs().len(),
        0 <= k < b.child_nodes().len(),
        b.id_value() < 0x0100_0000_0000_0000,
        b.child_nodes()[k].id_value() < 0x0100_0000_0000_0000,
    ensures
        ino_of_attr(ino_of_node(b.id_value()), b.attrs()[i].id) != ino_of_node(
            b.child_nodes()[k].id_value(),
        ),
{
    assert(b.child_nodes()[k].id_value() != b.id_value());
    lemma_attr_ino_is_no_node_ino(
        b.id_value(),
        b.attrs()[i].id,
        b.child_nodes()[k].id_value(),
    );
}

/// Whether the ordering numbers of `ds` ascend strictly.
pub open spec fn orders_ascend(ds: Seq<DentryView>) -> bool {
    forall|i: int, j: int|
        0 <= i < j < ds.len() ==> (#[trigger] ds[i]).order < (#[trigger] ds[j]).order
}

/// The offset of the listing that follows one of the entries `ds`, listed
/// from `offset` on, of which the visitor took `taken`: the offset plus
/// what the listing returned.
pub open spec fn next_offset(ds: Seq<DentryView>, taken: int, offset: u64) -> u64 {
    (offset + readdir_outcome(ds, taken, offset)->Ok_0) as u64
}

/// A listing that goes on where an earlier one stopped shows no entry that
/// the earlier one showed: where the visitor took the first `taken` of the
/// entries `first`, listed from `offset` on in ascending order, every entry
/// `second` of a listing from `offset` plus the result on has a greater
/// ordering number, whatever the directory holds by then.
pub proof fn lemma_next_listing_is_new(
    first: Seq<DentryView>,
    taken: int,
    offset: u64,
    second: Seq<DentryView>,
)
    requires
        orders_ascend(first),
        orders_within(first, offset),
        0 < taken <= first.len(),
        orders_within(second, next_offset(first, taken, offset)),
    ensures
        readdir_outcome(first, taken, offset) is Ok,
        next_offset(first, taken, offset) == first[taken - 1].order + 1,
        forall|i: int, j: int|
            0 <= i < taken && 0 <= j < second.len() ==> (#[trigger] first[i]).order < (
            #[trigger] second[j]).order,
{
    let last = first[taken - 1].order;
    assert(offset <= last < u64::MAX);
    assert forall|i: int, j: int| 0 <= i < taken && 0 <= j < second.len() implies (
    #[trigger] first[i]).order < (#[trigger] second[j]).order by {
        if i < taken - 1 {
            assert(first[i].order < first[taken - 1].order);
        }
        assert(second[j].order >= last + 1);
    }
}

/// The entries of a directory lie at or above the number that was asked
/// for, whatever the tree holds.
pub proof fn lemma_dentries_result_within(
    this: SysFsInodeView,
    root: SysBranchNodeFields,
    min_ino: u64,
)
    requires
        this.metadata.ino + 255 < u64::MAX,
        dentries_result(this, root, min_ino) is Some,
    ensures
        orders_within(dentries_result(this, root, min_ino).unwrap(), min_ino),
{
    match this.inner {
        InnerNodeView::Branch(id) => {
            let f = branch_of(root, id).unwrap();
            lemma_dentries_within(
                f.attrs(),
                f.child_nodes(),
                this.metadata.ino,
                parent_ino(this),
                min_ino,
            );
        },
        InnerNodeView::Leaf(id) => {
            let f = leaf_of(root, id).unwrap();
            lemma_dentries_within(
                f.attrs(),
                Seq::empty(),
                this.metadata.ino,
                parent_ino(this),
                min_ino,
            );
        },
        _ => {},
    }
}

/// Listing a directory again from where a listing stopped shows no entry
/// that the first listing showed, even if the tree has changed from
/// `before` to `after` in between: where the first listing came in
/// ascending order and the visitor took `taken` of its entries, every entry
/// of the second has a greater ordering number than each of them.
pub proof fn lemma_readdir_again_is_new(
    this: SysFsInodeView,
    before: SysBranchNodeFields,
    after: SysBranchNodeFields,
    offset: u64,
    taken: int,
)
    requires
        this.metadata.ino + 255 < u64::MAX,
        dentries_result(this, before, offset) is Some,
        orders_ascend(dentries_result(this, before, offset).unwrap()),
        0 < taken <= dentries_result(this, before, offset).unwrap().len(),
        dentries_result(
            this,
            after,
            next_offset(dentries_result(this, before, offset).unwrap(), taken, offset),
        ) is Some,
    ensures
        ({
            let first = dentries_result(this, before, offset).unwrap();
            let second = dentries_result(
                this,
                after,
                next_offset(first, taken, offset),
            ).unwrap();
            forall|i: int, j: int|
                0 <= i < taken && 0 <= j < second.len() ==> (#[trigger] first[i]).order < (
                #[trigger] second[j]).order
        }),
{
    let first = dentries_result(this, before, offset).unwrap();
    let next = next_offset(first, taken, offset);
    let second = dentries_result(this, after, next).unwrap();
    lemma_dentries_result_within(this, before, offset);
    lemma_dentries_result_within(this, after, next);
    lemma_next_listing_is_new(first, taken, offset, second);
}

proof fn lemma_attr_dentries_ascend(attrs: Seq<SysAttrView>, dir_ino: u64, min_ino: u64, upto: int)
    requires
        ids_dense(attrs),
        dir_ino + 255 <= u64::MAX,
        0 <= upto <= attrs.len(),
    ensures
        orders_ascend(attr_dentries(attrs, dir_ino, min_ino, upto)),
        forall|i: int|
            0 <= i < attr_dentries(attrs, dir_ino, min_ino, upto).len() ==> (
            #[trigger] attr_dentries(attrs, dir_ino, min_ino, upto)[i]).order < dir_ino + upto,
        forall|i: int|
            0 <= i < attr_dentries(attrs, dir_ino, min_ino, upto).len() ==> (
            #[trigger] attr_dentries(attrs, dir_ino, min_ino, upto)[i]).order <= dir_ino + 255,
    decreases upto,
{
    if upto > 0 {
        lemma_attr_dentries_ascend(attrs, dir_ino, min_ino, upto - 1);
        assert(attrs[upto - 1].id as int == upto - 1);
    }
}

proof fn lemma_child_dentries_ascend(cs: Seq<SysTreeNode>, min_ino: u64, upto: int)
    requires
        ids_ascend(cs),
        forall|k: int| 0 <= k < cs.len() ==> (#[trigger] cs[k]).id_value() < 0x0100_0000_0000_0000,
        0 <= upto <= cs.len(),
    ensures
        orders_ascend(child_dentries(cs, min_ino, upto)),
        forall|i: int|
            0 <= i < child_dentries(cs, min_ino, upto).len() ==> ino_of_node(cs[0].id_value())
                <= (#[trigger] child_dentries(cs, min_ino, upto)[i]).order <= ino_of_node(
                cs[upto - 1].id_value(),
            ),
    decreases upto,
{
    if upto > 0 {
        lemma_child_dentries_ascend(cs, min_ino, upto - 1);
        if upto > 1 {
            lemma_node_inos_distinct(cs[upto - 2].id_value(), cs[upto - 1].id_value());
            assert(cs[0].id_value() <= cs[upto - 2].id_value()) by {
                if upto > 2 {
                    assert(cs[0].id_value() < cs[upto - 2].id_value());
                }
            }
            if cs[0].id_value() < cs[upto - 1].id_value() {
                lemma_node_inos_distinct(cs[0].id_value(), cs[upto - 1].id_value());
            }
        }
    }
}

proof fn lemma_concat_ascend(a: Seq<DentryView>, b: Seq<DentryView>, bound: int)
    requires
        orders_ascend(a),
        orders_ascend(b),
        forall|i: int| 0 <= i < a.len() ==> (#[trigger] a[i]).order < bound,
        forall|j: int| 0 <= j < b.len() ==> (#[trigger] b[j]).order >= bound,
    ensures
        orders_ascend(a + b),
{
    let c = a + b;
    assert forall|i: int, j: int| 0 <= i < j < c.len() implies (#[trigger] c[i]).order < (
    #[trigger] c[j]).order by {
        if j < a.len() {
            assert(a[i].order < a[j].order);
        } else if i >= a.len() {
            assert(b[i - a.len()].order < b[j - a.len()].order);
        } else {
            assert(a[i].order < bound);
            assert(b[j - a.len()].order >= bound);
        }
    }
}

/// The entries of a directory come in the order of their ordering numbers,
/// where the ids of the children are greater than the id of the directory's
/// node and below 2^56.
pub proof fn lemma_dentries_ascend(
    attrs: Seq<SysAttrView>,
    cs: Seq<SysTreeNode>,
    this_id: u64,
    parent_ino: u64,
    min_ino: u64,
)
    requires
        attrs_wf(attrs),
        ids_ascend(cs),
        this_id < 0x00ff_ffff_ffff_ffff,
        forall|k: int|
            0 <= k < cs.len() ==> this_id < (#[trigger] cs[k]).id_value() < 0x0100_0000_0000_0000,
    ensures
        orders_ascend(dir_dentries(attrs, cs, ino_of_node(this_id), parent_ino, min_ino)),
{
    let dir_ino = ino_of_node(this_id);
    lemma_node_inos_distinct(this_id, 0x00ff_ffff_ffff_ffff);
    assert(0x00ff_ffff_ffff_ffffu64 << 8u64 == 0xffff_ffff_ffff_ff00u64) by (bit_vector);
    let a = attr_dentries(attrs, dir_ino, min_ino, attrs.len() as int);
    let c = child_dentries(cs, min_ino, cs.len() as int);
    let s = special_dentries(dir_ino, parent_ino, min_ino);
    lemma_attr_dentries_ascend(attrs, dir_ino, min_ino, attrs.len() as int);
    lemma_child_dentries_ascend(cs, min_ino, cs.len() as int);
    if cs.len() > 0 {
        lemma_node_inos_distinct(this_id, cs[0].id_value());
        let top = cs[cs.len() - 1].id_value();
        if top < 0x00ff_ffff_ffff_ffff {
            lemma_node_inos_distinct(top, 0x00ff_ffff_ffff_ffff);
        }
    }
    lemma_concat_ascend(a, c, dir_ino + 256);
    assert(orders_ascend(s));
    lemma_concat_ascend(a + c, s, THIS_DENTRY_INO as int);
}

impl SysFsInode {
    /// Writes `data` to the attribute that the inode shows, and returns how
    /// many bytes were written. The offset is not looked at. An inode that
    /// shows no attribute cannot be written.
    pub fn write_at(&self, tree: &mut SysTree, _offset: usize, data: &[u8]) -> (r: Result<
        usize,
        SysError,
    >)
        requires
            old(tree).wf(),
        ensures
            final(tree).wf(),
            final(tree).observers() == old(tree).observers(),
            match self@.inner {
                InnerNodeView::Attr(attr, id) => write_post(
                    old(tree).root_node(),
                    final(tree).root_node(),
                    id,
                    attr.name,
                    data@,
                    r,
                ),
                _ => r == Err::<usize, SysError>(SysError::Invalid) && final(tree).root_fields()
                    == old(tree).root_fields(),
            },
    {
        self.write_direct_at(tree, _offset, data)
    }

    /// Writes `data` to the attribute that the inode shows, and returns how
    /// many bytes were written. The offset is not looked at. An inode that
    /// shows no attribute cannot be written.
    pub fn write_direct_at(&self, tree: &mut SysTree, _offset: usize, data: &[u8]) -> (r: Result<
        usize,
        SysError,
    >)
        requires
            old(tree).wf(),
        ensures
            final(tree).wf(),
            final(tree).observers() == old(tree).observers(),
            match self@.inner {
                InnerNodeView::Attr(attr, id) => write_post(
                    old(tree).root_node(),
                    final(tree).root_node(),
                    id,
                    attr.name,
                    data@,
                    r,
                ),
                _ => r == Err::<usize, SysError>(SysError::Invalid) && final(tree).root_fields()
                    == old(tree).root_fields(),
            },
    {
        match &self.inner_node {
            InnerNode::Attr(attr, id) => tree.write_attr(id.as_u64(), attr.name(), data),
            _ => Err(SysError::Invalid),
        }
    }
}

/// Two inodes are the same inode if they have the same number.
impl PartialEq for SysFsInode {
    fn eq(&self, other: &Self) -> (r: bool) {
        self.metadata.ino == other.metadata.ino
    }
}

impl vstd::std_specs::cmp::PartialEqSpecImpl for SysFsInode {
    open spec fn obeys_eq_spec() -> bool {
        true
    }

    open spec fn eq_spec(&self, other: &Self) -> bool {
        self@.metadata.ino == other@.metadata.ino
    }
}

impl Eq for SysFsInode {

}

} // verus!
