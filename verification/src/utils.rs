//! The node types of the tree: branches, leaves and symlinks.

use crate::attr::{attrs_wf, has_name, lemma_position_of, position_of, SysAttrSet, SysAttrView};
use crate::error::SysError;
use crate::node::{
    SysBranchNode, SysNode, SysNodeId, SysNodeIdCounter, SysNodeType, SysObj, SysSymlink,
    MAX_NODE_ID,
};
use vstd::prelude::*;
use crate::text::{child_path, lemma_slashed_front, lemma_slashed_one, slashed, str_eq};
use vstd::slice::{slice_subrange, slice_to_vec};

verus! {

/// What every node has: an id and a name.
#[derive(Debug)]
pub struct SysObjFields {
    id: SysNodeId,
    name: String,
}

impl SysObjFields {
    /// The number of the node's id.
    pub closed spec fn id_value(&self) -> u64 {
        self.id.value()
    }

    /// The node's name.
    pub closed spec fn name_view(&self) -> Seq<char> {
        self.name@
    }

    /// A node called `name`, with the next id of `counter`.
    pub fn new(name: String, counter: &mut SysNodeIdCounter) -> (r: Self)
        requires
            old(counter).next() <= MAX_NODE_ID,
        ensures
            r.id_value() == old(counter).next(),
            r.name_view() == name@,
            final(counter).next() == old(counter).next() + 1,
    {
        SysObjFields { id: SysNodeId::new(counter), name }
    }

    pub fn id(&self) -> (r: &SysNodeId)
        ensures
            r.value() == self.id_value(),
    {
        &self.id
    }

    pub fn name(&self) -> (r: &str)
        ensures
            r@ == self.name_view(),
    {
        self.name.as_str()
    }
}

/// The contents of a sequence of byte vectors.
pub open spec fn byte_views(values: Seq<Vec<u8>>) -> Seq<Seq<u8>> {
    Seq::new(values.len(), |i: int| values[i]@)
}

/// What reading the attribute `name` gives: its bytes, or the reason why
/// it cannot be read.
pub open spec fn attr_read(
    attrs: Seq<SysAttrView>,
    values: Seq<Seq<u8>>,
    name: Seq<char>,
) -> Result<Seq<u8>, SysError> {
    if !has_name(attrs, name) {
        Err(SysError::NotFound)
    } else if !attrs[position_of(attrs, name, 0)].flags.can_read {
        Err(SysError::NotPermitted)
    } else {
        Ok(values[position_of(attrs, name, 0)])
    }
}

/// Which attribute a write to `name` changes, or the reason why it cannot
/// be written.
pub open spec fn attr_write(attrs: Seq<SysAttrView>, name: Seq<char>) -> Result<int, SysError> {
    if !has_name(attrs, name) {
        Err(SysError::NotFound)
    } else if !attrs[position_of(attrs, name, 0)].flags.can_write {
        Err(SysError::NotPermitted)
    } else {
        Ok(position_of(attrs, name, 0))
    }
}

/// What a branch or a leaf has: a name, an id, attributes, and the bytes
/// that each attribute holds.
#[derive(Debug)]
pub struct SysNormalNodeFields {
    base: SysObjFields,
    attr_set: SysAttrSet,
    values: Vec<Vec<u8>>,
}

impl SysNormalNodeFields {
    pub closed spec fn id_value(&self) -> u64 {
        self.base.id_value()
    }

    pub closed spec fn name_view(&self) -> Seq<char> {
        self.base.name_view()
    }

    /// The node's attributes.
    pub closed spec fn attrs(&self) -> Seq<SysAttrView> {
        self.attr_set@
    }

    /// The bytes of each attribute, in the order of the attributes' ids.
    pub closed spec fn values(&self) -> Seq<Seq<u8>> {
        byte_views(self.values@)
    }

    /// The invariant of the type.
    pub open spec fn wf(&self) -> bool {
        &&& attrs_wf(self.attrs())
        &&& self.values().len() == self.attrs().len()
    }

    /// A node called `name` with the attributes of `attr_set`, all of them empty.
    pub fn new(name: String, attr_set: SysAttrSet, counter: &mut SysNodeIdCounter) -> (r: Self)
        requires
            attr_set.wf(),
            old(counter).next() <= MAX_NODE_ID,
        ensures
            r.wf(),
            r.id_value() == old(counter).next(),
            r.name_view() == name@,
            r.attrs() == attr_set@,
            forall|i: int| 0 <= i < r.values().len() ==> (#[trigger] r.values()[i]).len() == 0,
            final(counter).next() == old(counter).next() + 1,
    {
        let mut values: Vec<Vec<u8>> = Vec::new();
        let mut i: usize = 0;
        while i < attr_set.len()
            invariant
                i <= attr_set@.len(),
                values@.len() == i,
                forall|k: int| 0 <= k < i ==> (#[trigger] values@[k])@.len() == 0,
            decreases attr_set@.len() - i,
        {
            values.push(Vec::new());
            i = i + 1;
        }
        let base = SysObjFields::new(name, counter);
        SysNormalNodeFields { base, attr_set, values }
    }

    pub fn id(&self) -> (r: &SysNodeId)
        ensures
            r.value() == self.id_value(),
    {
        self.base.id()
    }

    pub fn name(&self) -> (r: &str)
        ensures
            r@ == self.name_view(),
    {
        self.base.name()
    }

    pub fn attr_set(&self) -> (r: &SysAttrSet)
        ensures
            r@ == self.attrs(),
    {
        &self.attr_set
    }

    /// The bytes of the attribute called `name`.
    pub fn read_attr(&self, name: &str) -> (r: Result<Vec<u8>, SysError>)
        requires
            self.wf(),
        ensures
            match r {
                Ok(bytes) => attr_read(self.attrs(), self.values(), name@) == Ok::<
                    Seq<u8>,
                    SysError,
                >(bytes@),
                Err(e) => attr_read(self.attrs(), self.values(), name@) == Err::<Seq<u8>, SysError>(
                    e,
                ),
            },
    {
        match self.attr_set.get(name) {
            None => Err(SysError::NotFound),
            Some(attr) => {
                if !attr.flags().can_read {
                    Err(SysError::NotPermitted)
                } else {
                    let i = attr.id() as usize;
                    proof {
                        let p = position_of(self.attrs(), name@, 0);
            lemma_position_of(self.attrs(), name@, 0);
                        assert(self.attrs()[p].id as int == p);
                        assert(self.values()[p] == self.values@[p]@);
                    }
                    Ok(slice_to_vec(self.values[i].as_slice()))
                }
            },
        }
    }

    /// Replaces the bytes of the attribute called `name` by `data`, and
    /// returns how many bytes were written.
    pub fn write_attr(&mut self, name: &str, data: &[u8]) -> (r: Result<usize, SysError>)
        requires
            old(self).wf(),
        ensures
            final(self).wf(),
            final(self).id_value() == old(self).id_value(),
            final(self).name_view() == old(self).name_view(),
            final(self).attrs() == old(self).attrs(),
            match attr_write(old(self).attrs(), name@) {
                Ok(i) => r == Ok::<usize, SysError>(data@.len() as usize) && final(self).values()
                    == old(self).values().update(i, data@),
                Err(e) => r == Err::<usize, SysError>(e) && *final(self) == *old(self),
            },
    {
        let found = match self.attr_set.get(name) {
            None => { return Err(SysError::NotFound); },
            Some(attr) => (attr.id(), attr.flags()),
        };
        if !found.1.can_write {
            return Err(SysError::NotPermitted);
        }
        let i = found.0 as usize;
        proof {
            let p = position_of(self.attrs(), name@, 0);
            lemma_position_of(self.attrs(), name@, 0);
            assert(self.attrs()[p].id as int == p);
        }
        let ghost before = self.values();
        self.values[i] = slice_to_vec(data);
        assert(self.values() =~= before.update(i as int, data@));
        Ok(data.len())
    }
}

/// A symlink: a node that holds the path of another node.
#[derive(Debug)]
pub struct SymlinkNode {
    base: SysObjFields,
    target_path: String,
}

impl SymlinkNode {
    pub closed spec fn id_value(&self) -> u64 {
        self.base.id_value()
    }

    pub closed spec fn name_view(&self) -> Seq<char> {
        self.base.name_view()
    }

    /// The path that the symlink points to.
    pub closed spec fn target_view(&self) -> Seq<char> {
        self.target_path@
    }

    /// A symlink called `name` that points to `target_path`.
    pub fn new(name: String, target_path: String, counter: &mut SysNodeIdCounter) -> (r: Self)
        requires
            old(counter).next() <= MAX_NODE_ID,
        ensures
            r.id_value() == old(counter).next(),
            r.name_view() == name@,
            r.target_view() == target_path@,
            final(counter).next() == old(counter).next() + 1,
    {
        SymlinkNode { base: SysObjFields::new(name, counter), target_path }
    }

    pub fn id(&self) -> (r: &SysNodeId)
        ensures
            r.value() == self.id_value(),
    {
        self.base.id()
    }

    pub fn name(&self) -> (r: &str)
        ensures
            r@ == self.name_view(),
    {
        self.base.name()
    }

    pub fn target_path(&self) -> (r: &str)
        ensures
            r@ == self.target_view(),
    {
        self.target_path.as_str()
    }
}

/// What a branch has: what a leaf has, and child nodes.
#[derive(Debug)]
pub struct SysBranchNodeFields {
    base: SysNormalNodeFields,
    children: Vec<SysTreeNode>,
}

/// A node of the tree, of one of the three kinds.
#[derive(Debug)]
pub enum SysTreeNode {
    Branch(SysBranchNodeFields),
    Leaf(SysNormalNodeFields),
    Symlink(SymlinkNode),
}

impl SysTreeNode {
    pub open spec fn id_value(&self) -> u64 {
        match self {
            SysTreeNode::Branch(f) => f.id_value(),
            SysTreeNode::Leaf(f) => f.id_value(),
            SysTreeNode::Symlink(f) => f.id_value(),
        }
    }

    pub open spec fn name_view(&self) -> Seq<char> {
        match self {
            SysTreeNode::Branch(f) => f.name_view(),
            SysTreeNode::Leaf(f) => f.name_view(),
            SysTreeNode::Symlink(f) => f.name_view(),
        }
    }

    /// The kind of the node.
    pub open spec fn kind(&self) -> SysNodeType {
        match self {
            SysTreeNode::Branch(_) => SysNodeType::Branch,
            SysTreeNode::Leaf(_) => SysNodeType::Leaf,
            SysTreeNode::Symlink(_) => SysNodeType::Symlink,
        }
    }

    /// The child nodes; only a branch has any.
    pub open spec fn child_nodes(&self) -> Seq<SysTreeNode> {
        match self {
            SysTreeNode::Branch(f) => f.child_nodes(),
            _ => Seq::empty(),
        }
    }

    /// The invariant of the type: it holds of the node and of every node below it.
    pub open spec fn wf(&self) -> bool {
        node_wf(*self)
    }

    pub fn id(&self) -> (r: &SysNodeId)
        ensures
            r.value() == self.id_value(),
    {
        match self {
            SysTreeNode::Branch(f) => f.id(),
            SysTreeNode::Leaf(f) => f.id(),
            SysTreeNode::Symlink(f) => f.id(),
        }
    }

    pub fn name(&self) -> (r: &str)
        ensures
            r@ == self.name_view(),
    {
        match self {
            SysTreeNode::Branch(f) => f.name(),
            SysTreeNode::Leaf(f) => f.name(),
            SysTreeNode::Symlink(f) => f.name(),
        }
    }

    pub fn type_(&self) -> (r: SysNodeType)
        ensures
            r == self.kind(),
    {
        match self {
            SysTreeNode::Branch(_) => SysNodeType::Branch,
            SysTreeNode::Leaf(_) => SysNodeType::Leaf,
            SysTreeNode::Symlink(_) => SysNodeType::Symlink,
        }
    }
}

/// Whether the ids of `cs` ascend strictly.
pub open spec fn ids_ascend(cs: Seq<SysTreeNode>) -> bool {
    forall|i: int, j: int|
        0 <= i < j < cs.len() ==> (#[trigger] cs[i]).id_value() < (#[trigger] cs[j]).id_value()
}

/// Whether no two nodes of `cs` share a name.
pub open spec fn child_names_distinct(cs: Seq<SysTreeNode>) -> bool {
    forall|i: int, j: int|
        0 <= i < cs.len() && 0 <= j < cs.len() && i != j ==> (#[trigger] cs[i]).name_view() != (
        #[trigger] cs[j]).name_view()
}

/// What holds of the children of the node with the id `own_id`: they are
/// kept in the order of their ids, no name and no id occurs twice, and none
/// has the id of the parent.
pub open spec fn siblings_wf(cs: Seq<SysTreeNode>, own_id: u64) -> bool {
    &&& ids_ascend(cs)
    &&& child_names_distinct(cs)
    &&& forall|i: int| 0 <= i < cs.len() ==> (#[trigger] cs[i]).id_value() != own_id
}

/// The invariant of a node and of every node below it.
pub closed spec fn node_wf(n: SysTreeNode) -> bool
    decreases n,
{
    match n {
        SysTreeNode::Branch(f) => {
            &&& f.base.wf()
            &&& siblings_wf(f.children@, f.id_value())
            &&& forall|i: int| 0 <= i < f.children@.len() ==> node_wf(#[trigger] f.children@[i])
        },
        SysTreeNode::Leaf(f) => f.wf(),
        SysTreeNode::Symlink(_) => true,
    }
}

impl SysBranchNodeFields {
    pub closed spec fn id_value(&self) -> u64 {
        self.base.id_value()
    }

    pub closed spec fn name_view(&self) -> Seq<char> {
        self.base.name_view()
    }

    pub closed spec fn attrs(&self) -> Seq<SysAttrView> {
        self.base.attrs()
    }

    pub closed spec fn values(&self) -> Seq<Seq<u8>> {
        self.base.values()
    }

    /// The child nodes, in the order of their ids.
    pub closed spec fn child_nodes(&self) -> Seq<SysTreeNode> {
        self.children@
    }

    /// The invariant of the type: it holds of the branch and of every node below it.
    pub open spec fn wf(&self) -> bool {
        &&& attrs_wf(self.attrs())
        &&& self.values().len() == self.attrs().len()
        &&& siblings_wf(self.child_nodes(), self.id_value())
        &&& forall|i: int|
            0 <= i < self.child_nodes().len() ==> (#[trigger] self.child_nodes()[i]).wf()
    }

    /// A branch called `name` with the attributes of `attr_set` and no child.
    pub fn new(name: String, attr_set: SysAttrSet, counter: &mut SysNodeIdCounter) -> (r: Self)
        requires
            attr_set.wf(),
            old(counter).next() <= MAX_NODE_ID,
        ensures
            r.wf(),
            r.id_value() == old(counter).next(),
            r.name_view() == name@,
            r.attrs() == attr_set@,
            r.child_nodes() == Seq::<SysTreeNode>::empty(),
            forall|i: int| 0 <= i < r.values().len() ==> (#[trigger] r.values()[i]).len() == 0,
            final(counter).next() == old(counter).next() + 1,
    {
        SysBranchNodeFields {
            base: SysNormalNodeFields::new(name, attr_set, counter),
            children: Vec::new(),
        }
    }

    pub fn id(&self) -> (r: &SysNodeId)
        ensures
            r.value() == self.id_value(),
    {
        self.base.id()
    }

    pub fn name(&self) -> (r: &str)
        ensures
            r@ == self.name_view(),
    {
        self.base.name()
    }

    pub fn attr_set(&self) -> (r: &SysAttrSet)
        ensures
            r@ == self.attrs(),
    {
        self.base.attr_set()
    }
}

/// A well-formed branch node is a well-formed branch, and the other way round.
pub proof fn lemma_branch_wf(f: SysBranchNodeFields)
    ensures
        SysTreeNode::Branch(f).wf() == f.wf(),
{
    reveal_with_fuel(node_wf, 2);
}

/// A well-formed leaf node is a well-formed leaf, and the other way round.
pub proof fn lemma_leaf_wf(f: SysNormalNodeFields)
    ensures
        SysTreeNode::Leaf(f).wf() == f.wf(),
{
    reveal_with_fuel(node_wf, 2);
}

/// Every symlink node is well-formed.
pub proof fn lemma_symlink_wf(s: SymlinkNode)
    ensures
        SysTreeNode::Symlink(s).wf(),
{
    reveal_with_fuel(node_wf, 2);
}

/// Whether some node of `cs` is called `name`.
pub open spec fn has_child(cs: Seq<SysTreeNode>, name: Seq<char>) -> bool {
    exists|i: int| 0 <= i < cs.len() && (#[trigger] cs[i]).name_view() == name
}

/// The position in `cs` of a node called `name`, where there is one.
pub open spec fn child_index(cs: Seq<SysTreeNode>, name: Seq<char>) -> int {
    choose|i: int| 0 <= i < cs.len() && (#[trigger] cs[i]).name_view() == name
}

/// Whether some node of `cs` has the id `id`.
pub open spec fn has_child_id(cs: Seq<SysTreeNode>, id: u64) -> bool {
    exists|i: int| 0 <= i < cs.len() && (#[trigger] cs[i]).id_value() == id
}

/// Whether `k` parts `cs` into the nodes with an id below `id` and the others.
pub open spec fn is_lower_bound(cs: Seq<SysTreeNode>, id: u64, k: int) -> bool {
    &&& 0 <= k <= cs.len()
    &&& forall|i: int| 0 <= i < k ==> (#[trigger] cs[i]).id_value() < id
    &&& forall|i: int| k <= i < cs.len() ==> (#[trigger] cs[i]).id_value() >= id
}

/// How many nodes of `cs`, which is kept in the order of the ids, have an
/// id below `id`: the position of the first node whose id is at least `id`.
pub open spec fn lower_bound(cs: Seq<SysTreeNode>, id: u64) -> int {
    choose|k: int| is_lower_bound(cs, id, k)
}

/// Nodes that are kept in the order of their ids are parted at every id.
pub proof fn lemma_lower_bound_exists(cs: Seq<SysTreeNode>, id: u64)
    requires
        ids_ascend(cs),
    ensures
        is_lower_bound(cs, id, lower_bound(cs, id)),
    decreases cs.len(),
{
    if cs.len() == 0 {
        assert(is_lower_bound(cs, id, 0));
    } else {
        let front = cs.drop_last();
        lemma_lower_bound_exists(front, id);
        let k = lower_bound(front, id);
        let last = cs.len() - 1;
        if cs[last].id_value() < id {
            assert forall|i: int| 0 <= i < cs.len() implies (#[trigger] cs[i]).id_value() < id by {
                if i < last {
                    assert(cs[i].id_value() < cs[last].id_value());
                }
            }
            assert(is_lower_bound(cs, id, cs.len() as int));
        } else {
            assert forall|i: int| 0 <= i < k implies (#[trigger] cs[i]).id_value() < id by {
                assert(front[i].id_value() < id);
            }
            assert forall|i: int| k <= i < cs.len() implies (#[trigger] cs[i]).id_value() >= id by {
                if i < last {
                    assert(front[i].id_value() >= id);
                }
            }
            assert(is_lower_bound(cs, id, k));
        }
    }
}

/// Only one position parts a sequence at `id`.
pub proof fn lemma_lower_bound_unique(cs: Seq<SysTreeNode>, id: u64, k: int)
    requires
        is_lower_bound(cs, id, k),
    ensures
        lower_bound(cs, id) == k,
{
    let m = lower_bound(cs, id);
    assert(is_lower_bound(cs, id, m));
    if m < k {
        assert(cs[m].id_value() < id);
    }
    if k < m {
        assert(cs[k].id_value() < id);
    }
}

/// Among nodes with distinct names only one position holds a given name.
pub proof fn lemma_child_index_unique(cs: Seq<SysTreeNode>, name: Seq<char>, i: int)
    requires
        child_names_distinct(cs),
        0 <= i < cs.len(),
        cs[i].name_view() == name,
    ensures
        has_child(cs, name),
        child_index(cs, name) == i,
{
    let m = child_index(cs, name);
    if m != i {
        assert(cs[m].name_view() != cs[i].name_view());
    }
}

/// Whether `child` cannot be added to the children `cs` of the node `own_id`:
/// its name or its id is taken.
pub open spec fn clashes(cs: Seq<SysTreeNode>, own_id: u64, child: SysTreeNode) -> bool {
    ||| has_child(cs, child.name_view())
    ||| has_child_id(cs, child.id_value())
    ||| child.id_value() == own_id
}

impl SysBranchNodeFields {
    /// Whether the branch has a child called `child_name`.
    pub fn contains(&self, child_name: &str) -> (r: bool)
        requires
            self.wf(),
        ensures
            r == has_child(self.child_nodes(), child_name@),
    {
        self.child(child_name).is_some()
    }

    /// The child called `name`, if there is one.
    pub fn child(&self, name: &str) -> (r: Option<&SysTreeNode>)
        requires
            self.wf(),
        ensures
            r.is_some() == has_child(self.child_nodes(), name@),
            r.is_some() ==> *r.unwrap() == self.child_nodes()[child_index(
                self.child_nodes(),
                name@,
            )],
            r.is_some() ==> r.unwrap().name_view() == name@ && r.unwrap().wf(),
    {
        let mut i: usize = 0;
        while i < self.children.len()
            invariant
                i <= self.children.len(),
                self.wf(),
                forall|k: int| 0 <= k < i ==> (#[trigger] self.children@[k]).name_view() != name@,
            decreases self.children.len() - i,
        {
            if str_eq(self.children[i].name(), name) {
                proof {
                    lemma_child_index_unique(self.children@, name@, i as int);
                    assert(self.child_nodes()[i as int].wf());
                }
                return Some(&self.children[i]);
            }
            i = i + 1;
        }
        None
    }

    /// The children, in the order of their ids.
    pub fn children(&self) -> (r: &[SysTreeNode])
        ensures
            r@ == self.child_nodes(),
    {
        self.children.as_slice()
    }

    /// The children whose id is at least `min_id`, in the order of their ids.
    pub fn children_from(&self, min_id: u64) -> (r: &[SysTreeNode])
        requires
            self.wf(),
        ensures
            r@ == self.child_nodes().skip(lower_bound(self.child_nodes(), min_id)),
            is_lower_bound(self.child_nodes(), min_id, lower_bound(self.child_nodes(), min_id)),
    {
        let mut k: usize = 0;
        while k < self.children.len() && self.children[k].id().as_u64() < min_id
            invariant
                k <= self.children.len(),
                forall|i: int| 0 <= i < k ==> (#[trigger] self.children@[i]).id_value() < min_id,
            decreases self.children.len() - k,
        {
            k = k + 1;
        }
        proof {
            assert forall|i: int| k <= i < self.children@.len() implies (
            #[trigger] self.children@[i]).id_value() >= min_id by {
                if i > k {
                    assert(self.children@[k as int].id_value() < self.children@[i].id_value());
                }
            }
            lemma_lower_bound_unique(self.children@, min_id, k as int);
        }
        let all = self.children.as_slice();
        let r = slice_subrange(all, k, all.len());
        assert(r@ =~= self.child_nodes().skip(k as int));
        r
    }

    /// How many children the branch has.
    pub fn count_children(&self) -> (r: usize)
        ensures
            r == self.child_nodes().len(),
    {
        self.children.len()
    }

    /// Adds `new_child`, unless its name or its id is taken.
    pub fn add_child(&mut self, new_child: SysTreeNode) -> (r: Result<(), SysError>)
        requires
            old(self).wf(),
            new_child.wf(),
        ensures
            final(self).wf(),
            child_added(
                SysTreeNode::Branch(*old(self)),
                SysTreeNode::Branch(*final(self)),
                new_child,
            ),
            r == add_child_outcome(SysTreeNode::Branch(*old(self)), new_child),
            r is Ok ==> is_lower_bound(
                old(self).child_nodes(),
                new_child.id_value(),
                lower_bound(old(self).child_nodes(), new_child.id_value()),
            ),
    {
        let id = new_child.id().as_u64();
        if id == self.base.id().as_u64() {
            return Err(SysError::AlreadyExists);
        }
        let mut pos: usize = 0;
        let mut i: usize = 0;
        while i < self.children.len()
            invariant
                i <= self.children.len(),
                pos <= i,
                *self == *old(self),
                self.wf(),
                id == new_child.id_value(),
                forall|k: int|
                    0 <= k < i ==> (#[trigger] self.children@[k]).name_view()
                        != new_child.name_view(),
                forall|k: int| 0 <= k < i ==> (#[trigger] self.children@[k]).id_value() != id,
                forall|k: int| 0 <= k < pos ==> (#[trigger] self.children@[k]).id_value() < id,
                forall|k: int| pos <= k < i ==> (#[trigger] self.children@[k]).id_value() > id,
            decreases self.children.len() - i,
        {
            let c = &self.children[i];
            let cid = c.id().as_u64();
            if cid == id || str_eq(c.name(), new_child.name()) {
                return Err(SysError::AlreadyExists);
            }
            if cid < id {
                proof {
                    assert forall|k: int| 0 <= k < i + 1 implies (
                    #[trigger] self.children@[k]).id_value() < id by {
                        if k < i {
                            let here = self.children@[i as int];
                            assert(self.children@[k].id_value() < here.id_value());
                        }
                    }
                }
                pos = i + 1;
            }
            i = i + 1;
        }
        let ghost before = self.children@;
        proof {
            lemma_lower_bound_unique(before, id, pos as int);
        }
        self.children.insert(pos, new_child);
        proof {
            let after = self.children@;
            assert(after == before.insert(pos as int, new_child));
            assert forall|a: int, b: int| 0 <= a < b < after.len() implies (
            #[trigger] after[a]).id_value() < (#[trigger] after[b]).id_value() by {
                if a < pos && b > pos {
                    assert(before[a].id_value() < before[b - 1].id_value());
                } else if a < pos && b < pos {
                    assert(before[a].id_value() < before[b].id_value());
                } else if a > pos {
                    assert(before[a - 1].id_value() < before[b - 1].id_value());
                } else if a == pos {
                    assert(before[b - 1].id_value() > id);
                } else {
                    assert(before[a].id_value() < id);
                }
            }
            assert forall|a: int, b: int|
                0 <= a < after.len() && 0 <= b < after.len() && a != b implies (
            #[trigger] after[a]).name_view() != (#[trigger] after[b]).name_view() by {
                let oa = if a < pos { a } else { a - 1 };
                let ob = if b < pos { b } else { b - 1 };
                if a == pos {
                    assert(before[ob].name_view() != new_child.name_view());
                } else if b == pos {
                    assert(before[oa].name_view() != new_child.name_view());
                } else {
                    assert(before[oa].name_view() != before[ob].name_view());
                }
            }
            assert forall|a: int| 0 <= a < after.len() implies (#[trigger] after[a]).id_value()
                != self.id_value() by {
                if a < pos {
                    assert(before[a].id_value() != self.id_value());
                } else if a > pos {
                    assert(before[a - 1].id_value() != self.id_value());
                }
            }
            assert forall|a: int| 0 <= a < after.len() implies (#[trigger] after[a]).wf() by {
                if a < pos {
                    assert(before[a].wf());
                } else if a > pos {
                    assert(before[a - 1].wf());
                }
            }
        }
        Ok(())
    }

    /// Takes out the child called `child_name`, if there is one.
    pub fn remove_child(&mut self, child_name: &str) -> (r: Option<SysTreeNode>)
        requires
            old(self).wf(),
        ensures
            final(self).wf(),
            child_removed(
                SysTreeNode::Branch(*old(self)),
                SysTreeNode::Branch(*final(self)),
                child_name@,
            ),
            r == remove_child_outcome(SysTreeNode::Branch(*old(self)), child_name@),
            r is Some ==> r.unwrap().wf() && r.unwrap().name_view() == child_name@,
            !has_child(final(self).child_nodes(), child_name@),
    {
        let mut i: usize = 0;
        while i < self.children.len()
            invariant
                i <= self.children.len(),
                *self == *old(self),
                self.wf(),
                forall|k: int|
                    0 <= k < i ==> (#[trigger] self.children@[k]).name_view() != child_name@,
            decreases self.children.len() - i,
        {
            if str_eq(self.children[i].name(), child_name) {
                let ghost before = self.children@;
                proof {
                    lemma_child_index_unique(before, child_name@, i as int);
                    assert(before[i as int].wf());
                }
                let removed = self.children.remove(i);
                proof {
                    let after = self.children@;
                    assert(after == before.remove(i as int));
                    assert forall|a: int, b: int| 0 <= a < b < after.len() implies (
                    #[trigger] after[a]).id_value() < (#[trigger] after[b]).id_value() by {
                        let oa = if a < i { a } else { a + 1 };
                        let ob = if b < i { b } else { b + 1 };
                        assert(before[oa].id_value() < before[ob].id_value());
                    }
                    assert forall|a: int, b: int|
                        0 <= a < after.len() && 0 <= b < after.len() && a != b implies (
                    #[trigger] after[a]).name_view() != (#[trigger] after[b]).name_view() by {
                        let oa = if a < i { a } else { a + 1 };
                        let ob = if b < i { b } else { b + 1 };
                        assert(before[oa].name_view() != before[ob].name_view());
                    }
                    assert forall|a: int| 0 <= a < after.len() implies (
                    #[trigger] after[a]).id_value() != self.id_value() && after[a].wf()
                        && after[a].name_view() != child_name@ by {
                        let oa = if a < i { a } else { a + 1 };
                        assert(before[oa].id_value() != self.id_value());
                        assert(before[oa].wf());
                        assert(before[oa].name_view() != before[i as int].name_view());
                    }
                }
                return Some(removed);
            }
            i = i + 1;
        }
        None
    }
}

impl SysBranchNodeFields {
    /// The bytes of the attribute called `name`.
    pub fn read_attr(&self, name: &str) -> (r: Result<Vec<u8>, SysError>)
        requires
            self.wf(),
        ensures
            match r {
                Ok(bytes) => attr_read(self.attrs(), self.values(), name@) == Ok::<
                    Seq<u8>,
                    SysError,
                >(bytes@),
                Err(e) => attr_read(self.attrs(), self.values(), name@) == Err::<Seq<u8>, SysError>(
                    e,
                ),
            },
    {
        self.base.read_attr(name)
    }

    /// Replaces the bytes of the attribute called `name` by `data`, and
    /// returns how many bytes were written.
    pub fn write_attr(&mut self, name: &str, data: &[u8]) -> (r: Result<usize, SysError>)
        requires
            old(self).wf(),
        ensures
            final(self).wf(),
            final(self).id_value() == old(self).id_value(),
            final(self).name_view() == old(self).name_view(),
            final(self).attrs() == old(self).attrs(),
            final(self).child_nodes() == old(self).child_nodes(),
            match attr_write(old(self).attrs(), name@) {
                Ok(i) => r == Ok::<usize, SysError>(data@.len() as usize) && final(self).values()
                    == old(self).values().update(i, data@),
                Err(e) => r == Err::<usize, SysError>(e) && *final(self) == *old(self),
            },
    {
        self.base.write_attr(name, data)
    }
}

/// The first node with the id `id`, looking at `n` and then below it.
pub open spec fn find_under(n: SysTreeNode, id: u64) -> Option<SysTreeNode>
    decreases n, 0nat,
{
    if n.id_value() == id {
        Some(n)
    } else {
        match n {
            SysTreeNode::Branch(f) => find_among(f.child_nodes(), id, 0),
            _ => None,
        }
    }
}

/// The first node with the id `id` in or below the nodes of `cs` from the
/// position `from` on.
pub open spec fn find_among(cs: Seq<SysTreeNode>, id: u64, from: int) -> Option<SysTreeNode>
    decreases cs, cs.len() - from,
{
    if from < 0 || from >= cs.len() {
        None
    } else {
        match find_under(cs[from], id) {
            Some(n) => Some(n),
            None => find_among(cs, id, from + 1),
        }
    }
}

/// The names on the way from `n` down to the first node with the id `id`,
/// both included.
pub open spec fn chain_under(n: SysTreeNode, id: u64) -> Option<Seq<Seq<char>>>
    decreases n, 0nat,
{
    if n.id_value() == id {
        Some(seq![n.name_view()])
    } else {
        match n {
            SysTreeNode::Branch(f) => match chain_among(f.child_nodes(), id, 0) {
                Some(c) => Some(seq![n.name_view()] + c),
                None => None,
            },
            _ => None,
        }
    }
}

/// The names on the way from one of the nodes of `cs`, from the position
/// `from` on, down to the first node with the id `id`.
pub open spec fn chain_among(cs: Seq<SysTreeNode>, id: u64, from: int) -> Option<Seq<Seq<char>>>
    decreases cs, cs.len() - from,
{
    if from < 0 || from >= cs.len() {
        None
    } else {
        match chain_under(cs[from], id) {
            Some(c) => Some(c),
            None => chain_among(cs, id, from + 1),
        }
    }
}

/// Every node below a well-formed node is well-formed.
pub proof fn lemma_children_wf(n: SysTreeNode)
    requires
        n.wf(),
    ensures
        forall|i: int| 0 <= i < n.child_nodes().len() ==> (#[trigger] n.child_nodes()[i]).wf(),
        n is Branch ==> n->Branch_0.wf(),
        n is Leaf ==> n->Leaf_0.wf(),
{
    reveal_with_fuel(node_wf, 2);
}

impl SysTreeNode {
    /// The first node with the id `id`, looking at this node and then below it.
    pub fn find(&self, id: u64) -> (r: Option<&SysTreeNode>)
        requires
            self.wf(),
        ensures
            match r {
                Some(n) => find_under(*self, id) == Some(*n) && n.wf() && n.id_value() == id,
                None => find_under(*self, id) is None,
            },
        decreases self,
    {
        if self.id().as_u64() == id {
            return Some(self);
        }
        match self {
            SysTreeNode::Branch(f) => {
                proof {
                    lemma_children_wf(*self);
                }
                let mut i: usize = 0;
                while i < f.children.len()
                    invariant
                        i <= f.children.len(),
                        *self == SysTreeNode::Branch(*f),
                        self.id_value() != id,
                        forall|k: int|
                            0 <= k < f.children@.len() ==> (#[trigger] f.children@[k]).wf(),
                        find_among(f.children@, id, 0) == find_among(f.children@, id, i as int),
                    decreases f.children.len() - i,
                {
                    let r = f.children[i].find(id);
                    if r.is_some() {
                        return r;
                    }
                    i = i + 1;
                }
                None
            },
            _ => None,
        }
    }

    /// The path of the first node with the id `id`, looking at this node and
    /// then below it, where `prefix` is the path of this node's parent.
    pub fn path_of(&self, id: u64, prefix: &str) -> (r: Option<String>)
        ensures
            match chain_under(*self, id) {
                Some(c) => r.is_some() && r.unwrap()@ == prefix@ + slashed(c),
                None => r.is_none(),
            },
        decreases self,
    {
        let mine = child_path(prefix, self.name());
        if self.id().as_u64() == id {
            proof {
                lemma_slashed_one(self.name_view());
            }
            return Some(mine);
        }
        match self {
            SysTreeNode::Branch(f) => {
                let mut i: usize = 0;
                while i < f.children.len()
                    invariant
                        i <= f.children.len(),
                        *self == SysTreeNode::Branch(*f),
                        self.id_value() != id,
                        mine@ == prefix@ + seq!['/'] + self.name_view(),
                        chain_among(f.children@, id, 0) == chain_among(f.children@, id, i as int),
                    decreases f.children.len() - i,
                {
                    let r = f.children[i].path_of(id, mine.as_str());
                    if r.is_some() {
                        proof {
                            let c = chain_under(f.children@[i as int], id).unwrap();
                            lemma_slashed_front(self.name_view(), c);
                            assert(prefix@ + seq!['/'] + self.name_view() + slashed(c) =~= prefix@
                                + (seq!['/'] + self.name_view() + slashed(c)));
                        }
                        return r;
                    }
                    i = i + 1;
                }
                None
            },
            _ => None,
        }
    }
}

/// A child that was added cannot be added again: its name and its id are taken.
pub proof fn lemma_added_child_clashes(
    cs: Seq<SysTreeNode>,
    own_id: u64,
    child: SysTreeNode,
    again: SysTreeNode,
)
    requires
        !clashes(cs, own_id, child),
        is_lower_bound(cs, child.id_value(), lower_bound(cs, child.id_value())),
        again.name_view() == child.name_view() || again.id_value() == child.id_value(),
    ensures
        clashes(cs.insert(lower_bound(cs, child.id_value()), child), own_id, again),
{
    let k = lower_bound(cs, child.id_value());
    let after = cs.insert(k, child);
    assert(after[k] == child);
    if again.name_view() == child.name_view() {
        assert(after[k].name_view() == again.name_view());
    } else {
        assert(after[k].id_value() == again.id_value());
    }
}

/// A child that was taken out is no longer found by its name.
pub proof fn lemma_removed_child_gone(cs: Seq<SysTreeNode>, name: Seq<char>)
    requires
        child_names_distinct(cs),
        has_child(cs, name),
    ensures
        !has_child(cs.remove(child_index(cs, name)), name),
{
    let k = child_index(cs, name);
    let after = cs.remove(k);
    assert forall|i: int| 0 <= i < after.len() implies (#[trigger] after[i]).name_view()
        != name by {
        let oi = if i < k { i } else { i + 1 };
        assert(cs[oi].name_view() != cs[k].name_view());
    }
}

/// A chain that is found among nodes holds a name at least.
pub proof fn lemma_chain_among_nonempty(cs: Seq<SysTreeNode>, id: u64, from: int)
    requires
        0 <= from,
        chain_among(cs, id, from) is Some,
    ensures
        chain_among(cs, id, from).unwrap().len() >= 1,
    decreases cs.len() - from,
{
    if from < cs.len() {
        if chain_under(cs[from], id) is None {
            lemma_chain_among_nonempty(cs, id, from + 1);
        }
    }
}

impl SysTreeNode {
    /// The attributes of the node; a symlink has none.
    pub open spec fn attrs(&self) -> Seq<SysAttrView> {
        match self {
            SysTreeNode::Branch(f) => f.attrs(),
            SysTreeNode::Leaf(f) => f.attrs(),
            SysTreeNode::Symlink(_) => Seq::empty(),
        }
    }

    /// The bytes of each attribute of the node.
    pub open spec fn values(&self) -> Seq<Seq<u8>> {
        match self {
            SysTreeNode::Branch(f) => f.values(),
            SysTreeNode::Leaf(f) => f.values(),
            SysTreeNode::Symlink(_) => Seq::empty(),
        }
    }
}

/// Whether `n` is the node `o` but for what is below them: the same kind,
/// id, name, attributes and bytes.
pub open spec fn same_node(o: SysTreeNode, n: SysTreeNode) -> bool {
    &&& n.kind() == o.kind()
    &&& n.id_value() == o.id_value()
    &&& n.name_view() == o.name_view()
    &&& n.attrs() == o.attrs()
    &&& n.values() == o.values()
    &&& (o is Symlink ==> n == o)
}

/// Whether `n` is `o` with the first node of the id `id`, looking at `o`
/// and then below it, replaced by `by`, and nothing else changed.
pub open spec fn rewritten(o: SysTreeNode, n: SysTreeNode, id: u64, by: SysTreeNode) -> bool
    decreases o, 0nat,
{
    if o.id_value() == id {
        n == by
    } else {
        match o {
            SysTreeNode::Branch(f) => same_node(o, n) && rewritten_among(
                f.child_nodes(),
                n.child_nodes(),
                id,
                by,
                0,
            ),
            _ => n == o,
        }
    }
}

/// Whether `ns` is `os` with the first node of the id `id`, in or below the
/// nodes from the position `from` on, replaced by `by`, and nothing else
/// changed from that position on.
pub open spec fn rewritten_among(
    os: Seq<SysTreeNode>,
    ns: Seq<SysTreeNode>,
    id: u64,
    by: SysTreeNode,
    from: int,
) -> bool
    decreases os, os.len() - from,
{
    &&& ns.len() == os.len()
    &&& if from < 0 || from >= os.len() {
        true
    } else if find_under(os[from], id) is Some {
        &&& rewritten(os[from], ns[from], id, by)
        &&& forall|k: int| from < k < os.len() ==> #[trigger] ns[k] == os[k]
    } else {
        &&& ns[from] == os[from]
        &&& rewritten_among(os, ns, id, by, from + 1)
    }
}

/// Whether `n` is the node `o` after `data` was written to its attribute
/// `name`: where the write is refused, nothing has changed.
pub open spec fn attr_written(
    o: SysTreeNode,
    n: SysTreeNode,
    name: Seq<char>,
    data: Seq<u8>,
) -> bool {
    &&& n.kind() == o.kind()
    &&& n.id_value() == o.id_value()
    &&& n.name_view() == o.name_view()
    &&& n.attrs() == o.attrs()
    &&& n.child_nodes() == o.child_nodes()
    &&& match attr_write(o.attrs(), name) {
        Ok(i) => n.values() == o.values().update(i, data),
        Err(_) => n == o,
    }
}

/// What a write of `len` bytes to the attribute `name` of the node `o` returns.
pub open spec fn attr_write_outcome(o: SysTreeNode, name: Seq<char>, len: nat) -> Result<
    usize,
    SysError,
> {
    match attr_write(o.attrs(), name) {
        Ok(_) => Ok(len as usize),
        Err(e) => Err(e),
    }
}

impl SysTreeNode {
    /// Writes `data` to the attribute `name` of this node.
    pub fn write_attr(&mut self, name: &str, data: &[u8]) -> (r: Result<usize, SysError>)
        requires
            old(self).wf(),
        ensures
            final(self).wf(),
            attr_written(*old(self), *final(self), name@, data@),
            r == attr_write_outcome(*old(self), name@, data@.len()),
    {
        proof {
            lemma_children_wf(*self);
        }
        match self {
            SysTreeNode::Branch(f) => {
                let r = f.write_attr(name, data);
                proof {
                    lemma_branch_wf(*f);
                }
                r
            },
            SysTreeNode::Leaf(f) => {
                let r = f.write_attr(name, data);
                proof {
                    lemma_leaf_wf(*f);
                }
                r
            },
            SysTreeNode::Symlink(_) => Err(SysError::NotFound),
        }
    }
}

/// Nodes in and below which no node has the id `id` are passed over.
pub proof fn lemma_find_among_skip(cs: Seq<SysTreeNode>, id: u64, from: int, to: int)
    requires
        0 <= from <= to <= cs.len(),
        forall|k: int| from <= k < to ==> find_under(#[trigger] cs[k], id) is None,
    ensures
        find_among(cs, id, from) == find_among(cs, id, to),
    decreases to - from,
{
    if from < to {
        assert(find_under(cs[from], id) is None);
        lemma_find_among_skip(cs, id, from + 1, to);
    }
}

/// A change in or below the node at the position `at`, the first that
/// holds the id `id`, is a change among the nodes.
pub proof fn lemma_rewritten_among_at(
    os: Seq<SysTreeNode>,
    ns: Seq<SysTreeNode>,
    id: u64,
    by: SysTreeNode,
    from: int,
    at: int,
)
    requires
        0 <= from <= at < os.len(),
        ns.len() == os.len(),
        forall|k: int| from <= k < at ==> find_under(#[trigger] os[k], id) is None,
        forall|k: int| 0 <= k < os.len() && k != at ==> #[trigger] ns[k] == os[k],
        find_under(os[at], id) is Some,
        rewritten(os[at], ns[at], id, by),
    ensures
        rewritten_among(os, ns, id, by, from),
    decreases at - from,
{
    if from < at {
        assert(find_under(os[from], id) is None);
        assert(ns[from] == os[from]);
        lemma_rewritten_among_at(os, ns, id, by, from + 1, at);
    }
}

/// A branch stays well-formed where one of its children is replaced by a
/// well-formed node of the same id and name.
pub proof fn lemma_replaced_child_wf(o: SysBranchNodeFields, n: SysBranchNodeFields, at: int)
    requires
        o.wf(),
        n.id_value() == o.id_value(),
        n.attrs() == o.attrs(),
        n.values() == o.values(),
        0 <= at < o.child_nodes().len(),
        n.child_nodes().len() == o.child_nodes().len(),
        forall|k: int|
            0 <= k < o.child_nodes().len() && k != at ==> #[trigger] n.child_nodes()[k]
                == o.child_nodes()[k],
        n.child_nodes()[at].wf(),
        n.child_nodes()[at].id_value() == o.child_nodes()[at].id_value(),
        n.child_nodes()[at].name_view() == o.child_nodes()[at].name_view(),
    ensures
        n.wf(),
{
    let os = o.child_nodes();
    let ns = n.child_nodes();
    assert forall|i: int| 0 <= i < ns.len() implies (#[trigger] ns[i]).id_value()
        == os[i].id_value() && ns[i].name_view() == os[i].name_view() && ns[i].wf() by {
        if i != at {
            assert(ns[i] == os[i]);
            assert(os[i].wf());
        }
    }
    assert forall|i: int, j: int| 0 <= i < j < ns.len() implies (#[trigger] ns[i]).id_value() < (
    #[trigger] ns[j]).id_value() by {
        assert(os[i].id_value() < os[j].id_value());
    }
    assert forall|i: int, j: int| 0 <= i < ns.len() && 0 <= j < ns.len() && i != j implies (
    #[trigger] ns[i]).name_view() != (#[trigger] ns[j]).name_view() by {
        assert(os[i].name_view() != os[j].name_view());
    }
    assert forall|i: int| 0 <= i < ns.len() implies (#[trigger] ns[i]).id_value()
        != n.id_value() by {
        assert(os[i].id_value() != o.id_value());
    }
}

impl SysTreeNode {
    /// Writes `data` to the attribute `name` of the first node with the id
    /// `id`, looking at this node and then below it.
    pub fn write_attr_under(&mut self, id: u64, name: &str, data: &[u8]) -> (r: Result<
        usize,
        SysError,
    >)
        requires
            old(self).wf(),
            find_under(*old(self), id) is Some,
        ensures
            final(self).wf(),
            final(self).kind() == old(self).kind(),
            final(self).id_value() == old(self).id_value(),
            final(self).name_view() == old(self).name_view(),
            r == attr_write_outcome(find_under(*old(self), id).unwrap(), name@, data@.len()),
            find_under(*final(self), id) is Some,
            attr_written(
                find_under(*old(self), id).unwrap(),
                find_under(*final(self), id).unwrap(),
                name@,
                data@,
            ),
            rewritten(*old(self), *final(self), id, find_under(*final(self), id).unwrap()),
        decreases *old(self),
    {
        if self.id().as_u64() == id {
            return self.write_attr(name, data);
        }
        proof {
            lemma_children_wf(*self);
        }
        match self {
            SysTreeNode::Branch(f) => {
                let ghost before = *f;
                let ghost os = f.children@;
                let mut i: usize = 0;
                while i < f.children.len() && f.children[i].find(id).is_none()
                    invariant
                        i <= f.children.len(),
                        *f == before,
                        os == f.children@,
                        forall|k: int| 0 <= k < os.len() ==> (#[trigger] os[k]).wf(),
                        forall|k: int| 0 <= k < i ==> find_under(#[trigger] os[k], id) is None,
                    decreases f.children.len() - i,
                {
                    i = i + 1;
                }
                proof {
                    lemma_find_among_skip(os, id, 0, i as int);
                }
                assert(i < os.len());
                let r = f.children[i].write_attr_under(id, name, data);
                proof {
                    let ns = f.children@;
                    let by = find_under(ns[i as int], id).unwrap();
                    lemma_find_among_skip(ns, id, 0, i as int);
                    lemma_rewritten_among_at(os, ns, id, by, 0, i as int);
                    lemma_branch_wf(before);
                    lemma_replaced_child_wf(before, *f, i as int);
                    lemma_branch_wf(*f);
                }
                r
            },
            _ => Err(SysError::NotFound),
        }
    }
}

/// What a write to the attribute `name` of the first node with the id
/// `id`, in or below `o`, does: `n` is the node afterwards and `r` the
/// result. Without such a node nothing changes.
pub open spec fn write_post(
    o: SysTreeNode,
    n: SysTreeNode,
    id: u64,
    name: Seq<char>,
    data: Seq<u8>,
    r: Result<usize, SysError>,
) -> bool {
    match find_under(o, id) {
        Some(t) => {
            &&& r == attr_write_outcome(t, name, data.len())
            &&& find_under(n, id) is Some
            &&& attr_written(t, find_under(n, id).unwrap(), name, data)
            &&& rewritten(o, n, id, find_under(n, id).unwrap())
        },
        None => r == Err::<usize, SysError>(SysError::NotFound) && n == o,
    }
}

impl SysBranchNodeFields {
    /// Writes `data` to the attribute `name` of the first node with the id
    /// `id`, looking at this branch and then below it.
    pub fn write_attr_at(&mut self, id: u64, name: &str, data: &[u8]) -> (r: Result<
        usize,
        SysError,
    >)
        requires
            old(self).wf(),
        ensures
            final(self).wf(),
            final(self).id_value() == old(self).id_value(),
            final(self).name_view() == old(self).name_view(),
            write_post(
                SysTreeNode::Branch(*old(self)),
                SysTreeNode::Branch(*final(self)),
                id,
                name@,
                data@,
                r,
            ),
    {
        if self.id().as_u64() == id {
            return self.write_attr(name, data);
        }
        let ghost before = *self;
        let ghost os = self.children@;
        let mut i: usize = 0;
        while i < self.children.len() && self.children[i].find(id).is_none()
            invariant
                i <= self.children.len(),
                *self == before,
                os == self.children@,
                forall|k: int| 0 <= k < os.len() ==> (#[trigger] os[k]).wf(),
                forall|k: int| 0 <= k < i ==> find_under(#[trigger] os[k], id) is None,
            decreases self.children.len() - i,
        {
            i = i + 1;
        }
        proof {
            lemma_find_among_skip(os, id, 0, i as int);
        }
        if i == self.children.len() {
            return Err(SysError::NotFound);
        }
        let r = self.children[i].write_attr_under(id, name, data);
        proof {
            let ns = self.children@;
            let by = find_under(ns[i as int], id).unwrap();
            lemma_find_among_skip(ns, id, 0, i as int);
            lemma_rewritten_among_at(os, ns, id, by, 0, i as int);
            lemma_replaced_child_wf(before, *self, i as int);
        }
        r
    }
}

impl SysObj for SysTreeNode {
    open spec fn obj_id(&self) -> u64 {
        self.id_value()
    }

    open spec fn obj_type(&self) -> SysNodeType {
        self.kind()
    }

    open spec fn obj_name(&self) -> Seq<char> {
        self.name_view()
    }

    fn id(&self) -> (r: &SysNodeId) {
        SysTreeNode::id(self)
    }

    fn type_(&self) -> (r: SysNodeType) {
        SysTreeNode::type_(self)
    }

    fn name(&self) -> (r: &str) {
        SysTreeNode::name(self)
    }
}

impl SysObj for SysNormalNodeFields {
    open spec fn obj_id(&self) -> u64 {
        self.id_value()
    }

    open spec fn obj_type(&self) -> SysNodeType {
        SysNodeType::Leaf
    }

    open spec fn obj_name(&self) -> Seq<char> {
        self.name_view()
    }

    fn id(&self) -> (r: &SysNodeId) {
        SysNormalNodeFields::id(self)
    }

    fn type_(&self) -> (r: SysNodeType) {
        SysNodeType::Leaf
    }

    fn name(&self) -> (r: &str) {
        SysNormalNodeFields::name(self)
    }
}

impl SysNode for SysNormalNodeFields {
    open spec fn obj_wf(&self) -> bool {
        self.wf()
    }

    open spec fn obj_attrs(&self) -> Seq<SysAttrView> {
        self.attrs()
    }

    open spec fn obj_read(&self, name: Seq<char>) -> Result<Seq<u8>, SysError> {
        attr_read(self.attrs(), self.values(), name)
    }

    open spec fn obj_written(
        &self,
        after: &Self,
        name: Seq<char>,
        data: Seq<u8>,
        r: Result<usize, SysError>,
    ) -> bool {
        match attr_write(self.attrs(), name) {
            Ok(i) => r == Ok::<usize, SysError>(data.len() as usize) && after.values()
                == self.values().update(i, data),
            Err(e) => r == Err::<usize, SysError>(e) && *after == *self,
        }
    }

    fn node_attrs(&self) -> (r: &SysAttrSet) {
        self.attr_set()
    }

    fn read_attr(&self, name: &str) -> (r: Result<Vec<u8>, SysError>) {
        SysNormalNodeFields::read_attr(self, name)
    }

    fn write_attr(&mut self, name: &str, data: &[u8]) -> (r: Result<usize, SysError>) {
        SysNormalNodeFields::write_attr(self, name, data)
    }
}

impl SysObj for SysBranchNodeFields {
    open spec fn obj_id(&self) -> u64 {
        self.id_value()
    }

    open spec fn obj_type(&self) -> SysNodeType {
        SysNodeType::Branch
    }

    open spec fn obj_name(&self) -> Seq<char> {
        self.name_view()
    }

    fn id(&self) -> (r: &SysNodeId) {
        SysBranchNodeFields::id(self)
    }

    fn type_(&self) -> (r: SysNodeType) {
        SysNodeType::Branch
    }

    fn name(&self) -> (r: &str) {
        SysBranchNodeFields::name(self)
    }
}

impl SysNode for SysBranchNodeFields {
    open spec fn obj_wf(&self) -> bool {
        self.wf()
    }

    open spec fn obj_attrs(&self) -> Seq<SysAttrView> {
        self.attrs()
    }

    open spec fn obj_read(&self, name: Seq<char>) -> Result<Seq<u8>, SysError> {
        attr_read(self.attrs(), self.values(), name)
    }

    open spec fn obj_written(
        &self,
        after: &Self,
        name: Seq<char>,
        data: Seq<u8>,
        r: Result<usize, SysError>,
    ) -> bool {
        &&& after.child_nodes() == self.child_nodes()
        &&& match attr_write(self.attrs(), name) {
            Ok(i) => r == Ok::<usize, SysError>(data.len() as usize) && after.values()
                == self.values().update(i, data),
            Err(e) => r == Err::<usize, SysError>(e) && *after == *self,
        }
    }

    fn node_attrs(&self) -> (r: &SysAttrSet) {
        self.attr_set()
    }

    fn read_attr(&self, name: &str) -> (r: Result<Vec<u8>, SysError>) {
        SysBranchNodeFields::read_attr(self, name)
    }

    fn write_attr(&mut self, name: &str, data: &[u8]) -> (r: Result<usize, SysError>) {
        SysBranchNodeFields::write_attr(self, name, data)
    }
}

impl SysBranchNode for SysBranchNodeFields {
    open spec fn obj_children(&self) -> Seq<SysTreeNode> {
        self.child_nodes()
    }

    fn child(&self, name: &str) -> (r: Option<&SysTreeNode>) {
        SysBranchNodeFields::child(self, name)
    }

    fn children_from(&self, min_id: u64) -> (r: &[SysTreeNode]) {
        SysBranchNodeFields::children_from(self, min_id)
    }

    fn children(&self) -> (r: &[SysTreeNode]) {
        SysBranchNodeFields::children(self)
    }
}

impl SysObj for SymlinkNode {
    open spec fn obj_id(&self) -> u64 {
        self.id_value()
    }

    open spec fn obj_type(&self) -> SysNodeType {
        SysNodeType::Symlink
    }

    open spec fn obj_name(&self) -> Seq<char> {
        self.name_view()
    }

    fn id(&self) -> (r: &SysNodeId) {
        SymlinkNode::id(self)
    }

    fn type_(&self) -> (r: SysNodeType) {
        SysNodeType::Symlink
    }

    fn name(&self) -> (r: &str) {
        SymlinkNode::name(self)
    }
}

impl SysSymlink for SymlinkNode {
    open spec fn obj_target(&self) -> Seq<char> {
        self.target_view()
    }

    fn target_path(&self) -> (r: &str) {
        SymlinkNode::target_path(self)
    }
}

/// Whether `n` is the node `o` after `child` was added to its children:
/// where the node is no branch or the child clashes, nothing has changed.
pub open spec fn child_added(o: SysTreeNode, n: SysTreeNode, child: SysTreeNode) -> bool {
    if o is Branch && !clashes(o.child_nodes(), o.id_value(), child) {
        &&& same_node(o, n)
        &&& n.child_nodes() == o.child_nodes().insert(
            lower_bound(o.child_nodes(), child.id_value()),
            child,
        )
    } else {
        n == o
    }
}

/// What adding `child` to the children of the node `o` returns.
pub open spec fn add_child_outcome(o: SysTreeNode, child: SysTreeNode) -> Result<(), SysError> {
    if !(o is Branch) {
        Err(SysError::NotDir)
    } else if clashes(o.child_nodes(), o.id_value(), child) {
        Err(SysError::AlreadyExists)
    } else {
        Ok(())
    }
}

/// Whether `n` is the node `o` after its child called `name` was taken
/// out: where there is no such child, nothing has changed.
pub open spec fn child_removed(o: SysTreeNode, n: SysTreeNode, name: Seq<char>) -> bool {
    if o is Branch && has_child(o.child_nodes(), name) {
        &&& same_node(o, n)
        &&& n.child_nodes() == o.child_nodes().remove(child_index(o.child_nodes(), name))
    } else {
        n == o
    }
}

/// What taking out the child called `name` of the node `o` returns.
pub open spec fn remove_child_outcome(o: SysTreeNode, name: Seq<char>) -> Option<SysTreeNode> {
    if o is Branch && has_child(o.child_nodes(), name) {
        Some(o.child_nodes()[child_index(o.child_nodes(), name)])
    } else {
        None
    }
}

/// What adding `child` below the first node with the id `id`, in or below
/// `o`, does: `n` is the node afterwards and `r` the result. Without such
/// a node nothing changes.
pub open spec fn add_child_post(
    o: SysTreeNode,
    n: SysTreeNode,
    id: u64,
    child: SysTreeNode,
    r: Result<(), SysError>,
) -> bool {
    match find_under(o, id) {
        Some(t) => {
            &&& r == add_child_outcome(t, child)
            &&& find_under(n, id) is Some
            &&& child_added(t, find_under(n, id).unwrap(), child)
            &&& rewritten(o, n, id, find_under(n, id).unwrap())
        },
        None => r == Err::<(), SysError>(SysError::NotFound) && n == o,
    }
}

/// What taking out the child called `name` of the first node with the id
/// `id`, in or below `o`, does: `n` is the node afterwards and `r` the
/// result. Without such a node nothing changes.
pub open spec fn remove_child_post(
    o: SysTreeNode,
    n: SysTreeNode,
    id: u64,
    name: Seq<char>,
    r: Option<SysTreeNode>,
) -> bool {
    match find_under(o, id) {
        Some(t) => {
            &&& r == remove_child_outcome(t, name)
            &&& find_under(n, id) is Some
            &&& child_removed(t, find_under(n, id).unwrap(), name)
            &&& rewritten(o, n, id, find_under(n, id).unwrap())
        },
        None => r is None && n == o,
    }
}

impl SysTreeNode {
    /// Adds `new_child` to the children of this node, which must be a
    /// branch that has neither its name nor its id.
    pub fn add_child(&mut self, new_child: SysTreeNode) -> (r: Result<(), SysError>)
        requires
            old(self).wf(),
            new_child.wf(),
        ensures
            final(self).wf(),
            final(self).kind() == old(self).kind(),
            final(self).id_value() == old(self).id_value(),
            final(self).name_view() == old(self).name_view(),
            child_added(*old(self), *final(self), new_child),
            r == add_child_outcome(*old(self), new_child),
    {
        proof {
            lemma_children_wf(*self);
        }
        match self {
            SysTreeNode::Branch(f) => {
                let r = f.add_child(new_child);
                proof {
                    lemma_branch_wf(*f);
                }
                r
            },
            _ => Err(SysError::NotDir),
        }
    }

    /// Takes out the child of this node called `child_name`, if it has one.
    pub fn remove_child(&mut self, child_name: &str) -> (r: Option<SysTreeNode>)
        requires
            old(self).wf(),
        ensures
            final(self).wf(),
            final(self).kind() == old(self).kind(),
            final(self).id_value() == old(self).id_value(),
            final(self).name_view() == old(self).name_view(),
            child_removed(*old(self), *final(self), child_name@),
            r == remove_child_outcome(*old(self), child_name@),
            r is Some ==> r.unwrap().wf(),
    {
        proof {
            lemma_children_wf(*self);
        }
        match self {
            SysTreeNode::Branch(f) => {
                let r = f.remove_child(child_name);
                proof {
                    lemma_branch_wf(*f);
                }
                r
            },
            _ => None,
        }
    }

    /// Adds `new_child` below the first node with the id `id`, looking at
    /// this node and then below it.
    pub fn add_child_under(&mut self, id: u64, new_child: SysTreeNode) -> (r: Result<(), SysError>)
        requires
            old(self).wf(),
            new_child.wf(),
            find_under(*old(self), id) is Some,
        ensures
            final(self).wf(),
            final(self).kind() == old(self).kind(),
            final(self).id_value() == old(self).id_value(),
            final(self).name_view() == old(self).name_view(),
            add_child_post(*old(self), *final(self), id, new_child, r),
        decreases *old(self),
    {
        if self.id().as_u64() == id {
            return self.add_child(new_child);
        }
        proof {
            lemma_children_wf(*self);
        }
        match self {
            SysTreeNode::Branch(f) => {
                let ghost before = *f;
                let ghost os = f.children@;
                let mut i: usize = 0;
                while i < f.children.len() && f.children[i].find(id).is_none()
                    invariant
                        i <= f.children.len(),
                        *f == before,
                        os == f.children@,
                        forall|k: int| 0 <= k < os.len() ==> (#[trigger] os[k]).wf(),
                        forall|k: int| 0 <= k < i ==> find_under(#[trigger] os[k], id) is None,
                    decreases f.children.len() - i,
                {
                    i = i + 1;
                }
                proof {
                    lemma_find_among_skip(os, id, 0, i as int);
                }
                assert(i < os.len());
                let r = f.children[i].add_child_under(id, new_child);
                proof {
                    let ns = f.children@;
                    let by = find_under(ns[i as int], id).unwrap();
                    lemma_find_among_skip(ns, id, 0, i as int);
                    lemma_rewritten_among_at(os, ns, id, by, 0, i as int);
                    lemma_branch_wf(before);
                    lemma_replaced_child_wf(before, *f, i as int);
                    lemma_branch_wf(*f);
                }
                r
            },
            _ => Err(SysError::NotFound),
        }
    }

    /// Takes out the child called `child_name` of the first node with the
    /// id `id`, looking at this node and then below it.
    pub fn remove_child_under(&mut self, id: u64, child_name: &str) -> (r: Option<SysTreeNode>)
        requires
            old(self).wf(),
            find_under(*old(self), id) is Some,
        ensures
            final(self).wf(),
            final(self).kind() == old(self).kind(),
            final(self).id_value() == old(self).id_value(),
            final(self).name_view() == old(self).name_view(),
            remove_child_post(*old(self), *final(self), id, child_name@, r),
            r is Some ==> r.unwrap().wf(),
        decreases *old(self),
    {
        if self.id().as_u64() == id {
            return self.remove_child(child_name);
        }
        proof {
            lemma_children_wf(*self);
        }
        match self {
            SysTreeNode::Branch(f) => {
                let ghost before = *f;
                let ghost os = f.children@;
                let mut i: usize = 0;
                while i < f.children.len() && f.children[i].find(id).is_none()
                    invariant
                        i <= f.children.len(),
                        *f == before,
                        os == f.children@,
                        forall|k: int| 0 <= k < os.len() ==> (#[trigger] os[k]).wf(),
                        forall|k: int| 0 <= k < i ==> find_under(#[trigger] os[k], id) is None,
                    decreases f.children.len() - i,
                {
                    i = i + 1;
                }
                proof {
                    lemma_find_among_skip(os, id, 0, i as int);
                }
                assert(i < os.len());
                let r = f.children[i].remove_child_under(id, child_name);
                proof {
                    let ns = f.children@;
                    let by = find_under(ns[i as int], id).unwrap();
                    lemma_find_among_skip(ns, id, 0, i as int);
                    lemma_rewritten_among_at(os, ns, id, by, 0, i as int);
                    lemma_branch_wf(before);
                    lemma_replaced_child_wf(before, *f, i as int);
                    lemma_branch_wf(*f);
                }
                r
            },
            _ => None,
        }
    }
}

impl SysBranchNodeFields {
    /// Adds `new_child` below the first node with the id `id`, looking at
    /// this branch and then below it.
    pub fn add_child_at(&mut self, id: u64, new_child: SysTreeNode) -> (r: Result<(), SysError>)
        requires
            old(self).wf(),
            new_child.wf(),
        ensures
            final(self).wf(),
            final(self).id_value() == old(self).id_value(),
            final(self).name_view() == old(self).name_view(),
            add_child_post(
                SysTreeNode::Branch(*old(self)),
                SysTreeNode::Branch(*final(self)),
                id,
                new_child,
                r,
            ),
    {
        if self.id().as_u64() == id {
            return self.add_child(new_child);
        }
        let ghost before = *self;
        let ghost os = self.children@;
        let mut i: usize = 0;
        while i < self.children.len() && self.children[i].find(id).is_none()
            invariant
                i <= self.children.len(),
                *self == before,
                os == self.children@,
                forall|k: int| 0 <= k < os.len() ==> (#[trigger] os[k]).wf(),
                forall|k: int| 0 <= k < i ==> find_under(#[trigger] os[k], id) is None,
            decreases self.children.len() - i,
        {
            i = i + 1;
        }
        proof {
            lemma_find_among_skip(os, id, 0, i as int);
        }
        if i == self.children.len() {
            return Err(SysError::NotFound);
        }
        let r = self.children[i].add_child_under(id, new_child);
        proof {
            let ns = self.children@;
            let by = find_under(ns[i as int], id).unwrap();
            lemma_find_among_skip(ns, id, 0, i as int);
            lemma_rewritten_among_at(os, ns, id, by, 0, i as int);
            lemma_replaced_child_wf(before, *self, i as int);
        }
        r
    }

    /// Takes out the child called `child_name` of the first node with the
    /// id `id`, looking at this branch and then below it.
    pub fn remove_child_at(&mut self, id: u64, child_name: &str) -> (r: Option<SysTreeNode>)
        requires
            old(self).wf(),
        ensures
            final(self).wf(),
            final(self).id_value() == old(self).id_value(),
            final(self).name_view() == old(self).name_view(),
            remove_child_post(
                SysTreeNode::Branch(*old(self)),
                SysTreeNode::Branch(*final(self)),
                id,
                child_name@,
                r,
            ),
            r is Some ==> r.unwrap().wf(),
    {
        if self.id().as_u64() == id {
            return self.remove_child(child_name);
        }
        let ghost before = *self;
        let ghost os = self.children@;
        let mut i: usize = 0;
        while i < self.children.len() && self.children[i].find(id).is_none()
            invariant
                i <= self.children.len(),
                *self == before,
                os == self.children@,
                forall|k: int| 0 <= k < os.len() ==> (#[trigger] os[k]).wf(),
                forall|k: int| 0 <= k < i ==> find_under(#[trigger] os[k], id) is None,
            decreases self.children.len() - i,
        {
            i = i + 1;
        }
        proof {
            lemma_find_among_skip(os, id, 0, i as int);
        }
        if i == self.children.len() {
            return None;
        }
        let r = self.children[i].remove_child_under(id, child_name);
        proof {
            let ns = self.children@;
            let by = find_under(ns[i as int], id).unwrap();
            lemma_find_among_skip(ns, id, 0, i as int);
            lemma_rewritten_among_at(os, ns, id, by, 0, i as int);
            lemma_replaced_child_wf(before, *self, i as int);
        }
        r
    }
}

/// A node that is found in or below a well-formed node is well-formed,
/// and has the id that was looked for.
pub proof fn lemma_found_wf(n: SysTreeNode, id: u64)
    requires
        n.wf(),
        find_under(n, id) is Some,
    ensures
        find_under(n, id).unwrap().wf(),
        find_under(n, id).unwrap().id_value() == id,
    decreases n, 0nat,
{
    if n.id_value() != id {
        match n {
            SysTreeNode::Branch(f) => {
                lemma_children_wf(n);
                lemma_found_among_wf(f.child_nodes(), id, 0);
            },
            _ => {},
        }
    }
}

/// A node that is found in or below well-formed nodes is well-formed, and
/// has the id that was looked for.
pub proof fn lemma_found_among_wf(cs: Seq<SysTreeNode>, id: u64, from: int)
    requires
        0 <= from,
        forall|k: int| 0 <= k < cs.len() ==> (#[trigger] cs[k]).wf(),
        find_among(cs, id, from) is Some,
    ensures
        find_among(cs, id, from).unwrap().wf(),
        find_among(cs, id, from).unwrap().id_value() == id,
    decreases cs, cs.len() - from,
{
    if from < cs.len() {
        if find_under(cs[from], id) is Some {
            lemma_found_wf(cs[from], id);
        } else {
            lemma_found_among_wf(cs, id, from + 1);
        }
    }
}

/// There is a way down to a node exactly if the node is found.
pub proof fn lemma_chain_iff_found(n: SysTreeNode, id: u64)
    ensures
        chain_under(n, id) is Some <==> find_under(n, id) is Some,
    decreases n, 0nat,
{
    if n.id_value() != id {
        match n {
            SysTreeNode::Branch(f) => {
                lemma_chain_among_iff_found(f.child_nodes(), id, 0);
            },
            _ => {},
        }
    }
}

/// There is a way down to a node among `cs` exactly if the node is found there.
pub proof fn lemma_chain_among_iff_found(cs: Seq<SysTreeNode>, id: u64, from: int)
    requires
        0 <= from,
    ensures
        chain_among(cs, id, from) is Some <==> find_among(cs, id, from) is Some,
    decreases cs, cs.len() - from,
{
    if from < cs.len() {
        lemma_chain_iff_found(cs[from], id);
        lemma_chain_among_iff_found(cs, id, from + 1);
    }
}

} // verus!
