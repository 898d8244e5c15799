//! The tree: its root, and the hub for its events.

use crate::attr::{has_name, lemma_position_of, SysAttrSet, SysAttrView};
use crate::error::SysError;
use crate::event::{
    delivered, emptied, event_views, is_registered, kv_views, observer_index, observers_distinct,
    registered, unregistered, ObserverView,
    SysEvent, SysEventAction, SysEventHub, SysEventKv, SysEventSelector, SysEventView,
};
use crate::node::{
    SysBranchNode, SysNode, SysNodeId, SysNodeIdCounter, SysNodeType, SysObj, MAX_NODE_ID,
};
use crate::text::{join_path, lemma_slashed_front, lemma_slashed_one, slashed};
use crate::utils::{
    add_child_outcome, add_child_post, attr_read, attr_write, chain_among, chain_under,
    child_added, child_index, child_removed, clashes, remove_child_outcome,
    find_among, find_under, has_child, is_lower_bound, lemma_branch_wf, lemma_chain_among_iff_found,
    lemma_chain_among_nonempty,
    lemma_children_wf, lemma_found_wf, lemma_leaf_wf, lower_bound, remove_child_post, write_post,
    SymlinkNode, SysBranchNodeFields, SysNormalNodeFields, SysTreeNode,
};
use vstd::prelude::*;

verus! {

/// The root of the tree: the one branch without a name.
#[derive(Debug)]
pub struct SysTreeRoot(SysBranchNodeFields);

impl SysTreeRoot {
    /// The branch that the root is.
    pub closed spec fn fields(&self) -> SysBranchNodeFields {
        self.0
    }

    /// The invariant of the type.
    pub open spec fn wf(&self) -> bool {
        &&& self.fields().wf()
        &&& self.fields().name_view().len() == 0
    }

    /// A root without children and without attributes, with the next id
    /// of `counter`.
    pub fn new(counter: &mut SysNodeIdCounter) -> (r: Self)
        requires
            old(counter).next() <= MAX_NODE_ID,
        ensures
            r.wf(),
            r.fields().id_value() == old(counter).next(),
            r.fields().child_nodes() == Seq::<SysTreeNode>::empty(),
            r.fields().attrs() == Seq::<SysAttrView>::empty(),
            final(counter).next() == old(counter).next() + 1,
    {
        Self::with_attrs(SysAttrSet::new_empty(), counter)
    }

    /// A root without children that has the attributes of `attr_set`, all
    /// of them empty.
    pub fn with_attrs(attr_set: SysAttrSet, counter: &mut SysNodeIdCounter) -> (r: Self)
        requires
            attr_set.wf(),
            old(counter).next() <= MAX_NODE_ID,
        ensures
            r.wf(),
            r.fields().id_value() == old(counter).next(),
            r.fields().child_nodes() == Seq::<SysTreeNode>::empty(),
            r.fields().attrs() == attr_set@,
            final(counter).next() == old(counter).next() + 1,
    {
        SysTreeRoot(SysBranchNodeFields::new(String::new(), attr_set, counter))
    }

    /// The root as a branch.
    pub fn branch(&self) -> (r: &SysBranchNodeFields)
        ensures
            *r == self.fields(),
    {
        &self.0
    }

    pub fn id(&self) -> (r: &SysNodeId)
        ensures
            r.value() == self.fields().id_value(),
    {
        self.0.id()
    }

    pub fn contains(&self, child_name: &str) -> (r: bool)
        requires
            self.wf(),
        ensures
            r == has_child(self.fields().child_nodes(), child_name@),
    {
        self.0.contains(child_name)
    }

    /// Adds `new_child`, unless its name or its id is taken.
    pub fn add_child(&mut self, new_child: SysTreeNode) -> (r: Result<(), SysError>)
        requires
            old(self).wf(),
            new_child.wf(),
        ensures
            final(self).wf(),
            child_added(
                SysTreeNode::Branch(old(self).fields()),
                SysTreeNode::Branch(final(self).fields()),
                new_child,
            ),
            r == add_child_outcome(SysTreeNode::Branch(old(self).fields()), new_child),
    {
        self.0.add_child(new_child)
    }

    /// Takes out the child called `child_name`, if there is one.
    pub fn remove_child(&mut self, child_name: &str) -> (r: Option<SysTreeNode>)
        requires
            old(self).wf(),
        ensures
            final(self).wf(),
            child_removed(
                SysTreeNode::Branch(old(self).fields()),
                SysTreeNode::Branch(final(self).fields()),
                child_name@,
            ),
            r == remove_child_outcome(SysTreeNode::Branch(old(self).fields()), child_name@),
            r is Some ==> r.unwrap().wf(),
            !has_child(final(self).fields().child_nodes(), child_name@),
    {
        self.0.remove_child(child_name)
    }
}

/// The names on the way from the root `root` down to the first node with
/// the id `id`, both included; `None` where the tree has no such node.
pub open spec fn tree_chain(root: SysBranchNodeFields, id: u64) -> Option<Seq<Seq<char>>> {
    if root.id_value() == id {
        Some(seq![root.name_view()])
    } else {
        match chain_among(root.child_nodes(), id, 0) {
            Some(c) => Some(seq![root.name_view()] + c),
            None => None,
        }
    }
}

/// The path of the first node with the id `id` in the tree below `root`:
/// the names on the way from the root to the node, with `/` between them.
pub open spec fn tree_path(root: SysBranchNodeFields, id: u64) -> Option<Seq<char>> {
    match tree_chain(root, id) {
        Some(c) => Some(join_path(c)),
        None => None,
    }
}

/// A tree of nodes that shows the state of the system.
pub struct SysTree {
    root: SysTreeRoot,
    event_hub: SysEventHub,
}

impl SysTree {
    /// The root of the tree, as a branch.
    pub closed spec fn root_fields(&self) -> SysBranchNodeFields {
        self.root.fields()
    }

    /// The observers of the tree's events.
    pub closed spec fn observers(&self) -> Seq<ObserverView> {
        self.event_hub@
    }

    /// The invariant of the type: the root is a well-formed branch without
    /// a name, and no observer is registered twice.
    pub open spec fn wf(&self) -> bool {
        &&& self.root_fields().wf()
        &&& self.root_fields().name_view().len() == 0
        &&& observers_distinct(self.observers())
    }

    /// A tree that holds a root and nothing else.
    pub fn new(counter: &mut SysNodeIdCounter) -> (r: Self)
        requires
            old(counter).next() <= MAX_NODE_ID,
        ensures
            r.wf(),
            r.root_fields().id_value() == old(counter).next(),
            r.root_fields().child_nodes() == Seq::<SysTreeNode>::empty(),
            r.root_fields().attrs() == Seq::<SysAttrView>::empty(),
            r.observers() == Seq::<ObserverView>::empty(),
            final(counter).next() == old(counter).next() + 1,
    {
        Self::with_root(SysTreeRoot::new(counter))
    }

    /// A tree below `root`, without observers.
    pub fn with_root(root: SysTreeRoot) -> (r: Self)
        requires
            root.wf(),
        ensures
            r.wf(),
            r.root_fields() == root.fields(),
            r.observers() == Seq::<ObserverView>::empty(),
    {
        SysTree { root, event_hub: SysEventHub::new() }
    }

    pub fn root(&self) -> (r: &SysTreeRoot)
        requires
            self.wf(),
        ensures
            r.fields() == self.root_fields(),
            r.wf(),
    {
        &self.root
    }

    /// The first node below the root that has the id `id`.
    pub fn node(&self, id: u64) -> (r: Option<&SysTreeNode>)
        requires
            self.wf(),
        ensures
            match r {
                Some(n) => find_among(self.root_fields().child_nodes(), id, 0) == Some(*n)
                    && n.wf() && n.id_value() == id,
                None => find_among(self.root_fields().child_nodes(), id, 0) is None,
            },
    {
        let cs = self.root.branch().children();
        let mut i: usize = 0;
        while i < cs.len()
            invariant
                i <= cs@.len(),
                cs@ == self.root_fields().child_nodes(),
                self.root_fields().wf(),
                find_among(cs@, id, 0) == find_among(cs@, id, i as int),
            decreases cs@.len() - i,
        {
            assert(cs@[i as int].wf());
            let r = cs[i].find(id);
            if r.is_some() {
                return r;
            }
            i = i + 1;
        }
        None
    }

    /// The path of the first node with the id `id`; `None` where the node
    /// is not part of the tree.
    pub fn path_of(&self, id: u64) -> (r: Option<String>)
        requires
            self.wf(),
        ensures
            match r {
                Some(p) => tree_path(self.root_fields(), id) == Some(p@),
                None => tree_path(self.root_fields(), id) is None,
            },
    {
        let root = self.root.branch();
        if root.id().as_u64() == id {
            proof {
                lemma_slashed_one(root.name_view());
            }
            return Some(root.name().to_owned());
        }
        let cs = root.children();
        let mut i: usize = 0;
        while i < cs.len()
            invariant
                i <= cs@.len(),
                cs@ == root.child_nodes(),
                *root == self.root_fields(),
                root.id_value() != id,
                chain_among(cs@, id, 0) == chain_among(cs@, id, i as int),
            decreases cs@.len() - i,
        {
            let r = cs[i].path_of(id, root.name());
            if r.is_some() {
                proof {
                    let c = chain_under(cs@[i as int], id).unwrap();
                    assert(chain_among(cs@, id, i as int) == Some(c));
                    lemma_slashed_front(root.name_view(), c);
                }
                return r;
            }
            i = i + 1;
        }
        None
    }

    /// Adds `new_child` below the root, unless its name or its id is taken.
    pub fn add_child(&mut self, new_child: SysTreeNode) -> (r: Result<(), SysError>)
        requires
            old(self).wf(),
            new_child.wf(),
        ensures
            final(self).wf(),
            final(self).observers() == old(self).observers(),
            child_added(old(self).root_node(), final(self).root_node(), new_child),
            r == add_child_outcome(old(self).root_node(), new_child),
    {
        self.root.add_child(new_child)
    }

    /// Takes out the child of the root called `child_name`, if there is one.
    pub fn remove_child(&mut self, child_name: &str) -> (r: Option<SysTreeNode>)
        requires
            old(self).wf(),
        ensures
            final(self).wf(),
            final(self).observers() == old(self).observers(),
            child_removed(old(self).root_node(), final(self).root_node(), child_name@),
            r == remove_child_outcome(old(self).root_node(), child_name@),
            r is Some ==> r.unwrap().wf(),
            !has_child(final(self).root_fields().child_nodes(), child_name@),
    {
        self.root.remove_child(child_name)
    }

    /// Registers `observer` for the events that `filter` lets through. An
    /// observer that is registered already stays as it is.
    pub fn register_observer(&mut self, observer: u64, filter: SysEventSelector)
        requires
            old(self).wf(),
        ensures
            final(self).wf(),
            final(self).root_fields() == old(self).root_fields(),
            final(self).observers() == registered(old(self).observers(), observer, filter),
    {
        self.event_hub.register_observer(observer, filter)
    }

    /// Takes `observer` off the hub and returns its identity; `None` where
    /// it was not registered.
    pub fn unregister_observer(&mut self, observer: u64) -> (r: Option<u64>)
        requires
            old(self).wf(),
        ensures
            final(self).wf(),
            final(self).root_fields() == old(self).root_fields(),
            !is_registered(final(self).observers(), observer),
            final(self).observers() == unregistered(old(self).observers(), observer),
            r == (if is_registered(old(self).observers(), observer) {
                Some(observer)
            } else {
                None
            }),
    {
        self.event_hub.unregister_observer(observer)
    }

    /// Publishes an event of the node with the id `node`. A node that is
    /// not part of the tree has no path, and its event is dropped.
    pub fn publish_event(
        &mut self,
        node: &SysNodeId,
        action: SysEventAction,
        details: Vec<SysEventKv>,
    )
        requires
            old(self).wf(),
        ensures
            final(self).wf(),
            final(self).root_fields() == old(self).root_fields(),
            match tree_path(old(self).root_fields(), node.value()) {
                Some(p) => final(self).observers() == delivered(
                    old(self).observers(),
                    SysEventView { action, path: p, details: kv_views(details@) },
                ),
                None => final(self).observers() == old(self).observers(),
            },
    {
        let path = self.path_of(node.as_u64());
        self.event_hub.publish_event(path, action, details)
    }

    /// The events that wait for `observer`, oldest first; the observer has
    /// none afterwards.
    pub fn take_events(&mut self, observer: u64) -> (r: Vec<SysEvent>)
        requires
            old(self).wf(),
        ensures
            final(self).wf(),
            final(self).root_fields() == old(self).root_fields(),
            final(self).observers() == emptied(old(self).observers(), observer),
            is_registered(old(self).observers(), observer) ==> event_views(r@)
                == old(self).observers()[observer_index(old(self).observers(), observer)].inbox,
            !is_registered(old(self).observers(), observer) ==> r@.len() == 0,
    {
        self.event_hub.take_events(observer)
    }
}

/// The branch with the id `id` in the tree below `root`: the root itself,
/// or the first node with that id if it is a branch.
pub open spec fn branch_of(root: SysBranchNodeFields, id: u64) -> Option<SysBranchNodeFields> {
    if root.id_value() == id {
        Some(root)
    } else {
        match find_among(root.child_nodes(), id, 0) {
            Some(SysTreeNode::Branch(f)) => Some(f),
            _ => None,
        }
    }
}

/// The leaf with the id `id` in the tree below `root`.
pub open spec fn leaf_of(root: SysBranchNodeFields, id: u64) -> Option<SysNormalNodeFields> {
    if root.id_value() == id {
        None
    } else {
        match find_among(root.child_nodes(), id, 0) {
            Some(SysTreeNode::Leaf(f)) => Some(f),
            _ => None,
        }
    }
}

/// The symlink with the id `id` in the tree below `root`.
pub open spec fn symlink_of(root: SysBranchNodeFields, id: u64) -> Option<SymlinkNode> {
    if root.id_value() == id {
        None
    } else {
        match find_among(root.child_nodes(), id, 0) {
            Some(SysTreeNode::Symlink(f)) => Some(f),
            _ => None,
        }
    }
}

impl SysTree {
    /// The branch with the id `id`: the root, or a branch below it.
    pub fn branch(&self, id: u64) -> (r: Option<&SysBranchNodeFields>)
        requires
            self.wf(),
        ensures
            match r {
                Some(f) => branch_of(self.root_fields(), id) == Some(*f) && f.wf() && f.id_value()
                    == id,
                None => branch_of(self.root_fields(), id) is None,
            },
    {
        if self.root.id().as_u64() == id {
            return Some(self.root.branch());
        }
        match self.node(id) {
            Some(SysTreeNode::Branch(f)) => {
                proof {
                    lemma_branch_wf(*f);
                }
                Some(f)
            },
            _ => None,
        }
    }

    /// The leaf with the id `id`.
    pub fn leaf(&self, id: u64) -> (r: Option<&SysNormalNodeFields>)
        requires
            self.wf(),
        ensures
            match r {
                Some(f) => leaf_of(self.root_fields(), id) == Some(*f) && f.wf() && f.id_value()
                    == id,
                None => leaf_of(self.root_fields(), id) is None,
            },
    {
        if self.root.id().as_u64() == id {
            return None;
        }
        match self.node(id) {
            Some(SysTreeNode::Leaf(f)) => {
                proof {
                    lemma_leaf_wf(*f);
                }
                Some(f)
            },
            _ => None,
        }
    }

    /// The symlink with the id `id`.
    pub fn symlink(&self, id: u64) -> (r: Option<&SymlinkNode>)
        requires
            self.wf(),
        ensures
            match r {
                Some(f) => symlink_of(self.root_fields(), id) == Some(*f) && f.id_value() == id,
                None => symlink_of(self.root_fields(), id) is None,
            },
    {
        if self.root.id().as_u64() == id {
            return None;
        }
        match self.node(id) {
            Some(SysTreeNode::Symlink(f)) => Some(f),
            _ => None,
        }
    }
}

/// What reading the attribute `name` of the node `id` gives, in the tree
/// below `root`.
pub open spec fn node_attr_read(root: SysBranchNodeFields, id: u64, name: Seq<char>) -> Result<
    Seq<u8>,
    SysError,
> {
    match branch_of(root, id) {
        Some(f) => attr_read(f.attrs(), f.values(), name),
        None => match leaf_of(root, id) {
            Some(f) => attr_read(f.attrs(), f.values(), name),
            None => Err(SysError::NotFound),
        },
    }
}

impl SysTree {
    /// The bytes of the attribute `name` of the node with the id `id`.
    pub fn read_attr(&self, id: u64, name: &str) -> (r: Result<Vec<u8>, SysError>)
        requires
            self.wf(),
        ensures
            match r {
                Ok(bytes) => node_attr_read(self.root_fields(), id, name@) == Ok::<
                    Seq<u8>,
                    SysError,
                >(bytes@),
                Err(e) => node_attr_read(self.root_fields(), id, name@) == Err::<
                    Seq<u8>,
                    SysError,
                >(e),
            },
    {
        match self.branch(id) {
            Some(f) => f.read_attr(name),
            None => match self.leaf(id) {
                Some(f) => f.read_attr(name),
                None => Err(SysError::NotFound),
            },
        }
    }
}

/// The path of the root is its name, which is empty; the path of every
/// other node of the tree begins with `/`.
pub proof fn lemma_path_leading_slash(root: SysBranchNodeFields, id: u64)
    requires
        root.name_view().len() == 0,
        tree_path(root, id) is Some,
    ensures
        id == root.id_value() ==> tree_path(root, id).unwrap().len() == 0,
        id != root.id_value() ==> tree_path(root, id).unwrap().len() > 0 && tree_path(
            root,
            id,
        ).unwrap()[0] == '/',
{
    if id == root.id_value() {
        lemma_slashed_one(root.name_view());
    } else {
        let c = chain_among(root.child_nodes(), id, 0).unwrap();
        lemma_chain_among_nonempty(root.child_nodes(), id, 0);
        lemma_slashed_front(root.name_view(), c);
        assert(slashed(c) == seq!['/'] + c[0] + slashed(c.drop_first()));
        assert(slashed(c)[0] == '/');
        assert(root.name_view() =~= Seq::<char>::empty());
        assert(root.name_view() + slashed(c) =~= slashed(c));
    }
}

impl SysTreeRoot {
    /// Writes `data` to the attribute `name` of the first node with the id
    /// `id`, looking at the root and then below it.
    pub fn write_attr_at(&mut self, id: u64, name: &str, data: &[u8]) -> (r: Result<
        usize,
        SysError,
    >)
        requires
            old(self).wf(),
        ensures
            final(self).wf(),
            write_post(
                SysTreeNode::Branch(old(self).fields()),
                SysTreeNode::Branch(final(self).fields()),
                id,
                name@,
                data@,
                r,
            ),
    {
        self.0.write_attr_at(id, name, data)
    }
}

impl SysTree {
    /// The root of the tree, as a node.
    pub open spec fn root_node(&self) -> SysTreeNode {
        SysTreeNode::Branch(self.root_fields())
    }

    /// Writes `data` to the attribute `name` of the node with the id `id`.
    /// The tree is changed in that node and nowhere else.
    pub fn write_attr(&mut self, id: u64, name: &str, data: &[u8]) -> (r: Result<usize, SysError>)
        requires
            old(self).wf(),
        ensures
            final(self).wf(),
            final(self).observers() == old(self).observers(),
            write_post(old(self).root_node(), final(self).root_node(), id, name@, data@, r),
    {
        self.root.write_attr_at(id, name, data)
    }
}

impl SysObj for SysTreeRoot {
    open spec fn obj_id(&self) -> u64 {
        self.fields().id_value()
    }

    open spec fn obj_type(&self) -> SysNodeType {
        SysNodeType::Branch
    }

    open spec fn obj_name(&self) -> Seq<char> {
        self.fields().name_view()
    }

    fn id(&self) -> (r: &SysNodeId) {
        SysTreeRoot::id(self)
    }

    fn type_(&self) -> (r: SysNodeType) {
        SysNodeType::Branch
    }

    fn name(&self) -> (r: &str) {
        self.0.name()
    }
}

impl SysNode for SysTreeRoot {
    open spec fn obj_wf(&self) -> bool {
        self.wf()
    }

    open spec fn obj_attrs(&self) -> Seq<SysAttrView> {
        self.fields().attrs()
    }

    open spec fn obj_read(&self, name: Seq<char>) -> Result<Seq<u8>, SysError> {
        self.fields().obj_read(name)
    }

    open spec fn obj_written(
        &self,
        after: &Self,
        name: Seq<char>,
        data: Seq<u8>,
        r: Result<usize, SysError>,
    ) -> bool {
        self.fields().obj_written(&after.fields(), name, data, r)
    }

    fn node_attrs(&self) -> (r: &SysAttrSet) {
        self.0.attr_set()
    }

    fn read_attr(&self, name: &str) -> (r: Result<Vec<u8>, SysError>) {
        self.0.read_attr(name)
    }

    fn write_attr(&mut self, name: &str, data: &[u8]) -> (r: Result<usize, SysError>) {
        self.0.write_attr(name, data)
    }
}

impl SysBranchNode for SysTreeRoot {
    open spec fn obj_children(&self) -> Seq<SysTreeNode> {
        self.fields().child_nodes()
    }

    fn child(&self, name: &str) -> (r: Option<&SysTreeNode>) {
        self.0.child(name)
    }

    fn children_from(&self, min_id: u64) -> (r: &[SysTreeNode]) {
        self.0.children_from(min_id)
    }

    fn children(&self) -> (r: &[SysTreeNode]) {
        self.0.children()
    }
}

impl SysTreeRoot {
    /// Adds `new_child` below the first node with the id `id`, looking at
    /// the root and then below it.
    pub fn add_child_at(&mut self, id: u64, new_child: SysTreeNode) -> (r: Result<(), SysError>)
        requires
            old(self).wf(),
            new_child.wf(),
        ensures
            final(self).wf(),
            add_child_post(
                SysTreeNode::Branch(old(self).fields()),
                SysTreeNode::Branch(final(self).fields()),
                id,
                new_child,
                r,
            ),
    {
        self.0.add_child_at(id, new_child)
    }

    /// Takes out the child called `child_name` of the first node with the
    /// id `id`, looking at the root and then below it.
    pub fn remove_child_at(&mut self, id: u64, child_name: &str) -> (r: Option<SysTreeNode>)
        requires
            old(self).wf(),
        ensures
            final(self).wf(),
            remove_child_post(
                SysTreeNode::Branch(old(self).fields()),
                SysTreeNode::Branch(final(self).fields()),
                id,
                child_name@,
                r,
            ),
            r is Some ==> r.unwrap().wf(),
    {
        self.0.remove_child_at(id, child_name)
    }
}

impl SysTree {
    /// Adds `new_child` to the children of the node with the id `parent`:
    /// not found without such a node, no directory where it is no branch,
    /// already there where the name or the id of the child is taken. The
    /// tree is changed in that node and nowhere else.
    pub fn add_child_to(&mut self, parent: u64, new_child: SysTreeNode) -> (r: Result<
        (),
        SysError,
    >)
        requires
            old(self).wf(),
            new_child.wf(),
        ensures
            final(self).wf(),
            final(self).observers() == old(self).observers(),
            add_child_post(old(self).root_node(), final(self).root_node(), parent, new_child, r),
    {
        self.root.add_child_at(parent, new_child)
    }

    /// Takes out the child called `child_name` of the node with the id
    /// `parent`, if there is one. The tree is changed in that node and
    /// nowhere else.
    pub fn remove_child_from(&mut self, parent: u64, child_name: &str) -> (r: Option<SysTreeNode>)
        requires
            old(self).wf(),
        ensures
            final(self).wf(),
            final(self).observers() == old(self).observers(),
            remove_child_post(
                old(self).root_node(),
                final(self).root_node(),
                parent,
                child_name@,
                r,
            ),
            r is Some ==> r.unwrap().wf(),
    {
        self.root.remove_child_at(parent, child_name)
    }
}

/// Reading an attribute of the node `id` reads it from the first node of
/// the tree that has that id; a symlink has no attributes.
pub proof fn lemma_read_finds_node(root: SysBranchNodeFields, id: u64, name: Seq<char>)
    ensures
        node_attr_read(root, id, name) == match find_under(SysTreeNode::Branch(root), id) {
            Some(t) => attr_read(t.attrs(), t.values(), name),
            None => Err(SysError::NotFound),
        },
{
    match find_under(SysTreeNode::Branch(root), id) {
        Some(SysTreeNode::Symlink(_)) => {
            assert(!has_name(Seq::<SysAttrView>::empty(), name));
        },
        _ => {},
    }
}

/// What was written to an attribute is what is read from it afterwards,
/// where the attribute can be read.
pub proof fn lemma_read_after_write(
    before: SysBranchNodeFields,
    after: SysBranchNodeFields,
    id: u64,
    name: Seq<char>,
    data: Seq<u8>,
    r: Result<usize, SysError>,
)
    requires
        SysTreeNode::Branch(before).wf(),
        find_under(SysTreeNode::Branch(before), id) is Some,
        write_post(SysTreeNode::Branch(before), SysTreeNode::Branch(after), id, name, data, r),
        r is Ok,
    ensures
        r == Ok::<usize, SysError>(data.len() as usize),
        node_attr_read(before, id, name) is Ok || node_attr_read(before, id, name) == Err::<
            Seq<u8>,
            SysError,
        >(SysError::NotPermitted),
        node_attr_read(before, id, name) is Ok ==> node_attr_read(after, id, name) == Ok::<
            Seq<u8>,
            SysError,
        >(data),
{
    lemma_read_finds_node(before, id, name);
    lemma_read_finds_node(after, id, name);
    let t = find_under(SysTreeNode::Branch(before), id).unwrap();
    lemma_found_wf(SysTreeNode::Branch(before), id);
    lemma_children_wf(t);
    lemma_position_of(t.attrs(), name, 0);
}

/// A node has a path exactly if it is part of the tree.
pub proof fn lemma_path_iff_attached(root: SysBranchNodeFields, id: u64)
    ensures
        tree_path(root, id) is Some <==> find_under(SysTreeNode::Branch(root), id) is Some,
{
    lemma_chain_among_iff_found(root.child_nodes(), id, 0);
}

} // verus!
