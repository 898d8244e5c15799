//! The identity and the kind of a node.

use crate::attr::{attrs_wf, has_name, position_of, SysAttrSet, SysAttrView};
use crate::error::SysError;
use crate::text::string_from_utf8;
use crate::utils::{child_index, has_child, lower_bound, SysTreeNode};
use vstd::prelude::*;
use vstd::string::StringSliceAdditionalSpecFns;
use vstd::utf8::{decode_utf8, valid_utf8};

verus! {

/// The three kinds of node.
#[derive(Clone, Copy, Debug, PartialEq, Eq, Structural)]
pub enum SysNodeType {
    /// A node that may have child nodes.
    Branch,
    /// A node that has attributes and no children.
    Leaf,
    /// A node that points to another node by a path.
    Symlink,
}

/// The greatest id that a node can have. The ids above it are kept for the
/// inode numbers of the `.` and `..` entries of a directory.
pub const MAX_NODE_ID: u64 = 0x7fff_ffff_ffff_ffff;

/// The id of a node: unique, and never changed.
#[derive(Clone, Copy, Debug, PartialEq, Eq, PartialOrd, Ord, Structural)]
pub struct SysNodeId(u64);

/// The source of node ids: it hands out the numbers from its start on, one
/// after the other, and none of them twice.
#[derive(Debug)]
pub struct SysNodeIdCounter {
    next: u64,
}

impl SysNodeIdCounter {
    /// The id that the next call of `SysNodeId::new` returns.
    pub closed spec fn next(&self) -> u64 {
        self.next
    }

    /// A counter that has handed out no id yet.
    pub fn new() -> (r: Self)
        ensures
            r.next() == 0,
    {
        SysNodeIdCounter { next: 0 }
    }

    /// A counter whose next id is `next`.
    pub fn starting_at(next: u64) -> (r: Self)
        ensures
            r.next() == next,
    {
        SysNodeIdCounter { next }
    }

    /// Whether every id has been handed out.
    pub fn is_exhausted(&self) -> (r: bool)
        ensures
            r == (self.next() > MAX_NODE_ID),
    {
        self.next > MAX_NODE_ID
    }
}

impl SysNodeId {
    /// The number of the id.
    pub closed spec fn value(&self) -> u64 {
        self.0
    }

    /// Takes the next id from `counter`.
    pub fn new(counter: &mut SysNodeIdCounter) -> (r: Self)
        requires
            old(counter).next() <= MAX_NODE_ID,
        ensures
            r.value() == old(counter).next(),
            final(counter).next() == old(counter).next() + 1,
    {
        let id = counter.next;
        counter.next = id + 1;
        SysNodeId(id)
    }

    /// Takes the next id from `counter`, or `None` where it has none left.
    pub fn try_new(counter: &mut SysNodeIdCounter) -> (r: Option<Self>)
        ensures
            r.is_some() == (old(counter).next() <= MAX_NODE_ID),
            r.is_some() ==> r.unwrap().value() == old(counter).next(),
            r.is_some() ==> final(counter).next() == old(counter).next() + 1,
            r.is_none() ==> *final(counter) == *old(counter),
    {
        if counter.is_exhausted() {
            None
        } else {
            Some(SysNodeId::new(counter))
        }
    }

    pub fn as_u64(&self) -> (r: u64)
        ensures
            r == self.value(),
    {
        self.0
    }
}

/// Two ids are the same id exactly if their numbers are equal.
pub proof fn lemma_id_by_value(a: SysNodeId, b: SysNodeId)
    ensures
        (a == b) == (a.value() == b.value()),
{
}

/// What every node of the tree offers.
pub trait SysObj {
    /// The number of the node's id.
    spec fn obj_id(&self) -> u64;

    /// The kind of the node.
    spec fn obj_type(&self) -> SysNodeType;

    /// The name of the node: empty for the root, and for no other node.
    spec fn obj_name(&self) -> Seq<char>;

    /// The id of the node, which is unique and never changes.
    fn id(&self) -> (r: &SysNodeId)
        ensures
            r.value() == self.obj_id(),
    ;

    /// The kind of the node.
    fn type_(&self) -> (r: SysNodeType)
        ensures
            r == self.obj_type(),
    ;

    /// The name of the node.
    fn name(&self) -> (r: &str)
        ensures
            r@ == self.obj_name(),
    ;

    /// Whether the node is the root of a tree: the root alone has no name.
    fn is_root(&self) -> (r: bool)
        ensures
            r == (self.obj_name().len() == 0),
    {
        self.name().is_empty()
    }
}

/// Whether a read of the attribute `name` must fail, and how: the
/// attribute is missing, or it cannot be read.
pub open spec fn read_refused(attrs: Seq<SysAttrView>, name: Seq<char>) -> Option<SysError> {
    if !has_name(attrs, name) {
        Some(SysError::NotFound)
    } else if !attrs[position_of(attrs, name, 0)].flags.can_read {
        Some(SysError::NotPermitted)
    } else {
        None
    }
}

/// Whether a write to the attribute `name` must fail, and how: the
/// attribute is missing, or it cannot be written.
pub open spec fn write_refused(attrs: Seq<SysAttrView>, name: Seq<char>) -> Option<SysError> {
    if !has_name(attrs, name) {
        Some(SysError::NotFound)
    } else if !attrs[position_of(attrs, name, 0)].flags.can_write {
        Some(SysError::NotPermitted)
    } else {
        None
    }
}

/// What a branch and a leaf offer: attributes that can be read and written.
/// The node decides what the bytes of an attribute are; a missing
/// attribute and a missing flag are refused by every node in the same way.
pub trait SysNode: SysObj {
    /// The invariant of the node.
    spec fn obj_wf(&self) -> bool;

    /// The attributes of the node.
    spec fn obj_attrs(&self) -> Seq<SysAttrView>;

    /// What a read of the attribute `name` gives, as the node is.
    spec fn obj_read(&self, name: Seq<char>) -> Result<Seq<u8>, SysError>;

    /// Whether a write of `data` to the attribute `name` of this node may
    /// leave the node as `after` and return `r`.
    spec fn obj_written(
        &self,
        after: &Self,
        name: Seq<char>,
        data: Seq<u8>,
        r: Result<usize, SysError>,
    ) -> bool;

    fn node_attrs(&self) -> (r: &SysAttrSet)
        requires
            self.obj_wf(),
        ensures
            r@ == self.obj_attrs(),
            attrs_wf(r@),
    ;

    /// The bytes of the attribute called `name`.
    fn read_attr(&self, name: &str) -> (r: Result<Vec<u8>, SysError>)
        requires
            self.obj_wf(),
        ensures
            match r {
                Ok(bytes) => self.obj_read(name@) == Ok::<Seq<u8>, SysError>(bytes@),
                Err(e) => self.obj_read(name@) == Err::<Seq<u8>, SysError>(e),
            },
            read_refused(self.obj_attrs(), name@) is Some ==> r == Err::<Vec<u8>, SysError>(
                read_refused(self.obj_attrs(), name@).unwrap(),
            ),
    ;

    /// Writes `data` to the attribute called `name`, and returns how many
    /// bytes were written.
    fn write_attr(&mut self, name: &str, data: &[u8]) -> (r: Result<usize, SysError>)
        requires
            old(self).obj_wf(),
        ensures
            final(self).obj_wf(),
            final(self).obj_id() == old(self).obj_id(),
            final(self).obj_name() == old(self).obj_name(),
            final(self).obj_type() == old(self).obj_type(),
            final(self).obj_attrs() == old(self).obj_attrs(),
            old(self).obj_written(final(self), name@, data@, r),
            write_refused(old(self).obj_attrs(), name@) is Some ==> r == Err::<usize, SysError>(
                write_refused(old(self).obj_attrs(), name@).unwrap(),
            ),
    ;

    /// The attribute called `name` as text. Bytes that are no UTF-8 are an
    /// invalid value.
    fn show_attr(&self, name: &str) -> (r: Result<String, SysError>)
        requires
            self.obj_wf(),
        ensures
            match r {
                Ok(text) => shown_read(self.obj_read(name@)) == Ok::<Seq<char>, SysError>(text@),
                Err(e) => shown_read(self.obj_read(name@)) == Err::<Seq<char>, SysError>(e),
            },
            read_refused(self.obj_attrs(), name@) is Some ==> r == Err::<String, SysError>(
                read_refused(self.obj_attrs(), name@).unwrap(),
            ),
    {
        match self.read_attr(name) {
            Ok(bytes) => shown(bytes),
            Err(e) => Err(e),
        }
    }

    /// Writes the text `new_val` to the attribute called `name`.
    fn store_attr(&mut self, name: &str, new_val: &str) -> (r: Result<(), SysError>)
        requires
            old(self).obj_wf(),
        ensures
            final(self).obj_wf(),
            final(self).obj_id() == old(self).obj_id(),
            final(self).obj_name() == old(self).obj_name(),
            final(self).obj_type() == old(self).obj_type(),
            final(self).obj_attrs() == old(self).obj_attrs(),
            exists|w: Result<usize, SysError>|
                old(self).obj_written(final(self), name@, new_val.spec_bytes(), w) && r
                    == stored(w),
            write_refused(old(self).obj_attrs(), name@) is Some ==> r == Err::<(), SysError>(
                write_refused(old(self).obj_attrs(), name@).unwrap(),
            ),
    {
        let w = self.write_attr(name, new_val.as_bytes());
        let r = match w {
            Ok(_) => Ok(()),
            Err(e) => Err(e),
        };
        assert(old(self).obj_written(self, name@, new_val.spec_bytes(), w) && r == stored(w));
        r
    }
}

/// What showing an attribute as text gives, where reading it gave `read`.
pub open spec fn shown_read(read: Result<Seq<u8>, SysError>) -> Result<Seq<char>, SysError> {
    match read {
        Ok(bytes) => shown_text(bytes),
        Err(e) => Err(e),
    }
}

/// What storing a text returns, where writing its bytes returned `written`.
pub open spec fn stored(written: Result<usize, SysError>) -> Result<(), SysError> {
    match written {
        Ok(_) => Ok(()),
        Err(e) => Err(e),
    }
}

/// The text of the bytes of an attribute: the characters that they encode,
/// or an invalid value where they are no UTF-8.
pub open spec fn shown_text(bytes: Seq<u8>) -> Result<Seq<char>, SysError> {
    if valid_utf8(bytes) {
        Ok(decode_utf8(bytes))
    } else {
        Err(SysError::Invalid)
    }
}

/// The text of the bytes of an attribute.
pub fn shown(bytes: Vec<u8>) -> (r: Result<String, SysError>)
    ensures
        match r {
            Ok(text) => shown_text(bytes@) == Ok::<Seq<char>, SysError>(text@),
            Err(e) => shown_text(bytes@) == Err::<Seq<char>, SysError>(e),
        },
{
    match string_from_utf8(bytes) {
        Some(text) => Ok(text),
        None => Err(SysError::Invalid),
    }
}

/// What a branch offers beside its attributes: its children.
pub trait SysBranchNode: SysNode {
    /// The children of the branch, in the order of their ids.
    spec fn obj_children(&self) -> Seq<SysTreeNode>;

    /// The child called `name`, if there is one.
    fn child(&self, name: &str) -> (r: Option<&SysTreeNode>)
        requires
            self.obj_wf(),
        ensures
            r.is_some() == has_child(self.obj_children(), name@),
            r.is_some() ==> *r.unwrap() == self.obj_children()[child_index(
                self.obj_children(),
                name@,
            )],
    ;

    /// The children whose id is at least `min_id`, in the order of their ids.
    fn children_from(&self, min_id: u64) -> (r: &[SysTreeNode])
        requires
            self.obj_wf(),
        ensures
            r@ == self.obj_children().skip(
                lower_bound(self.obj_children(), min_id),
            ),
    ;

    /// All the children, in the order of their ids.
    fn children(&self) -> (r: &[SysTreeNode])
        requires
            self.obj_wf(),
        ensures
            r@ == self.obj_children(),
    ;

    /// How many children the branch has.
    fn count_children(&self) -> (r: usize)
        requires
            self.obj_wf(),
        ensures
            r == self.obj_children().len(),
    {
        self.children().len()
    }
}

/// What a symlink offers.
pub trait SysSymlink: SysObj {
    /// The path that the symlink points to.
    spec fn obj_target(&self) -> Seq<char>;

    /// A path that stands for the node that the symlink points to.
    fn target_path(&self) -> (r: &str)
        ensures
            r@ == self.obj_target(),
    ;
}

} // verus!
