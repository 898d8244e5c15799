//! Attributes of a node and the immutable sets that hold them.

use std::sync::Arc;
use vstd::prelude::*;

verus! {

/// The flags of an attribute.
#[derive(Clone, Copy, Debug, PartialEq, Eq, Structural)]
pub struct SysAttrFlags {
    /// The attribute can be shown or read.
    pub can_read: bool,
    /// The attribute can be stored or written.
    pub can_write: bool,
    /// The attribute is binary rather than textual.
    pub is_binary: bool,
}

/// The bit that stands for `can_read` in the encoded flags.
pub const CAN_READ: u8 = 1;

/// The bit that stands for `can_write` in the encoded flags.
pub const CAN_WRITE: u8 = 2;

/// The bit that stands for `is_binary` in the encoded flags.
pub const IS_BINARY: u8 = 16;

/// The encoding of a set of flags as one byte.
pub open spec fn flags_bits(f: SysAttrFlags) -> int {
    (if f.can_read { 1int } else { 0int })
        + (if f.can_write { 2int } else { 0int })
        + (if f.is_binary { 16int } else { 0int })
}

/// The flags that a byte encodes; bits that stand for no flag are ignored.
pub open spec fn flags_of_bits(bits: int) -> SysAttrFlags {
    SysAttrFlags {
        can_read: bits % 2 == 1,
        can_write: (bits / 2) % 2 == 1,
        is_binary: (bits / 16) % 2 == 1,
    }
}

impl SysAttrFlags {
    /// No flag at all.
    pub fn empty() -> (r: Self)
        ensures
            r == (SysAttrFlags { can_read: false, can_write: false, is_binary: false }),
    {
        SysAttrFlags { can_read: false, can_write: false, is_binary: false }
    }

    /// The flags of a read-only textual attribute.
    pub fn read_only() -> (r: Self)
        ensures
            r == (SysAttrFlags { can_read: true, can_write: false, is_binary: false }),
    {
        SysAttrFlags { can_read: true, can_write: false, is_binary: false }
    }

    /// The flags of a textual attribute that can be read and written.
    pub fn read_write() -> (r: Self)
        ensures
            r == (SysAttrFlags { can_read: true, can_write: true, is_binary: false }),
    {
        SysAttrFlags { can_read: true, can_write: true, is_binary: false }
    }

    /// Decodes a byte, dropping the bits that stand for no flag.
    pub fn from_bits_truncate(bits: u8) -> (r: Self)
        ensures
            r == flags_of_bits(bits as int),
    {
        SysAttrFlags {
            can_read: bits % 2 == 1,
            can_write: (bits / 2) % 2 == 1,
            is_binary: (bits / 16) % 2 == 1,
        }
    }

    /// Encodes the flags as a byte.
    pub fn bits(&self) -> (r: u8)
        ensures
            r as int == flags_bits(*self),
            flags_of_bits(r as int) == *self,
    {
        let mut r: u8 = 0;
        if self.can_read {
            r = r + CAN_READ;
        }
        if self.can_write {
            r = r + CAN_WRITE;
        }
        if self.is_binary {
            r = r + IS_BINARY;
        }
        r
    }

    /// Whether every flag of `other` is also a flag of `self`.
    pub fn contains(&self, other: SysAttrFlags) -> (r: bool)
        ensures
            r == ((other.can_read ==> self.can_read) && (other.can_write ==> self.can_write) && (
            other.is_binary ==> self.is_binary)),
    {
        (!other.can_read || self.can_read) && (!other.can_write || self.can_write) && (
        !other.is_binary || self.is_binary)
    }

    /// The flags of `self` together with those of `other`.
    pub fn union(&self, other: SysAttrFlags) -> (r: Self)
        ensures
            r.can_read == (self.can_read || other.can_read),
            r.can_write == (self.can_write || other.can_write),
            r.is_binary == (self.is_binary || other.is_binary),
    {
        SysAttrFlags {
            can_read: self.can_read || other.can_read,
            can_write: self.can_write || other.can_write,
            is_binary: self.is_binary || other.is_binary,
        }
    }
}

impl Default for SysAttrFlags {
    fn default() -> (r: Self)
        ensures
            r == (SysAttrFlags { can_read: true, can_write: false, is_binary: false }),
    {
        SysAttrFlags { can_read: true, can_write: false, is_binary: false }
    }
}

/// What an attribute is: its id within the owning set, its name and its flags.
pub struct SysAttrView {
    pub id: u8,
    pub name: Seq<char>,
    pub flags: SysAttrFlags,
}

/// An attribute of a node.
#[derive(Debug)]
pub struct SysAttr {
    id: u8,
    name: String,
    flags: SysAttrFlags,
}

impl View for SysAttr {
    type V = SysAttrView;

    closed spec fn view(&self) -> SysAttrView {
        SysAttrView { id: self.id, name: self.name@, flags: self.flags }
    }
}

impl Clone for SysAttr {
    fn clone(&self) -> (r: Self)
        ensures
            r@ == self@,
    {
        SysAttr { id: self.id, name: self.name.clone(), flags: self.flags }
    }
}

impl SysAttr {
    pub fn new(id: u8, name: String, flags: SysAttrFlags) -> (r: Self)
        ensures
            r@ == (SysAttrView { id, name: name@, flags }),
    {
        SysAttr { id, name, flags }
    }

    pub fn id(&self) -> (r: u8)
        ensures
            r == self@.id,
    {
        self.id
    }

    pub fn name(&self) -> (r: &str)
        ensures
            r@ == self@.name,
    {
        self.name.as_str()
    }

    pub fn flags(&self) -> (r: SysAttrFlags)
        ensures
            r == self@.flags,
    {
        self.flags
    }
}

/// The most attributes that one set can hold.
pub const CAPACITY: usize = 256;

/// The attributes of a sequence of attribute values, one view for each.
pub open spec fn attr_views(attrs: Seq<SysAttr>) -> Seq<SysAttrView> {
    Seq::new(attrs.len(), |i: int| attrs[i]@)
}

/// Whether some attribute of `attrs` is called `name`.
pub open spec fn has_name(attrs: Seq<SysAttrView>, name: Seq<char>) -> bool {
    exists|i: int| 0 <= i < attrs.len() && #[trigger] attrs[i].name == name
}

/// Whether no two attributes of `attrs` share a name.
pub open spec fn names_distinct(attrs: Seq<SysAttrView>) -> bool {
    forall|i: int, j: int|
        0 <= i < attrs.len() && 0 <= j < attrs.len() && i != j ==> #[trigger] attrs[i].name
            != #[trigger] attrs[j].name
}

/// Whether each attribute of `attrs` has its position as its id.
pub open spec fn ids_dense(attrs: Seq<SysAttrView>) -> bool {
    forall|i: int| 0 <= i < attrs.len() ==> (#[trigger] attrs[i]).id as int == i
}

/// What every attribute set is: at most `CAPACITY` attributes, ids counted
/// from zero in the order of insertion, no name twice.
pub open spec fn attrs_wf(attrs: Seq<SysAttrView>) -> bool {
    &&& attrs.len() <= CAPACITY
    &&& ids_dense(attrs)
    &&& names_distinct(attrs)
}

/// The position of the first attribute of `attrs` that is called `name`,
/// counted from `from`; the length of `attrs` where there is none.
pub open spec fn position_of(attrs: Seq<SysAttrView>, name: Seq<char>, from: int) -> int
    decreases attrs.len() - from,
{
    if from < 0 || from >= attrs.len() {
        attrs.len() as int
    } else if attrs[from].name == name {
        from
    } else {
        position_of(attrs, name, from + 1)
    }
}

/// `position_of` finds a name exactly where the set has it.
pub proof fn lemma_position_of(attrs: Seq<SysAttrView>, name: Seq<char>, from: int)
    requires
        0 <= from <= attrs.len(),
    ensures
        from <= position_of(attrs, name, from) <= attrs.len(),
        position_of(attrs, name, from) < attrs.len() ==> attrs[position_of(
            attrs,
            name,
            from,
        )].name == name,
        forall|k: int|
            from <= k < position_of(attrs, name, from) ==> (#[trigger] attrs[k]).name != name,
    decreases attrs.len() - from,
{
    if from < attrs.len() && attrs[from].name != name {
        lemma_position_of(attrs, name, from + 1);
    }
}

/// An immutable set of attributes.
#[derive(Debug)]
pub struct SysAttrSet {
    attrs: Vec<SysAttr>,
}

impl View for SysAttrSet {
    type V = Seq<SysAttrView>;

    closed spec fn view(&self) -> Seq<SysAttrView> {
        attr_views(self.attrs@)
    }
}

impl SysAttrSet {
    /// The invariant of the type.
    pub open spec fn wf(&self) -> bool {
        attrs_wf(self@)
    }

    pub fn new_empty() -> (r: Self)
        ensures
            r@ == Seq::<SysAttrView>::empty(),
            r.wf(),
    {
        let r = SysAttrSet { attrs: Vec::new() };
        assert(r@ =~= Seq::<SysAttrView>::empty());
        r
    }

    /// The attribute called `attr_name`, if the set has one.
    pub fn get(&self, attr_name: &str) -> (r: Option<&SysAttr>)
        ensures
            r.is_some() == has_name(self@, attr_name@),
            match r {
                Some(a) => {
                    &&& position_of(self@, attr_name@, 0) < self@.len()
                    &&& a@ == self@[position_of(self@, attr_name@, 0)]
                    &&& a@.name == attr_name@
                },
                None => position_of(self@, attr_name@, 0) == self@.len(),
            },
    {
        let wanted = attr_name.to_owned();
        let mut i: usize = 0;
        while i < self.attrs.len()
            invariant
                i <= self.attrs.len(),
                wanted@ == attr_name@,
                forall|k: int| 0 <= k < i ==> (#[trigger] self@[k]).name != attr_name@,
            decreases self.attrs.len() - i,
        {
            if self.attrs[i].name == wanted {
                assert(self@[i as int].name == attr_name@);
                let ghost p = position_of(self@, attr_name@, 0);
                proof {
                    lemma_position_of(self@, attr_name@, 0);
                }
                assert(p <= i) by {
                    if i < p {
                        assert(self@[i as int].name != attr_name@);
                    }
                }
                assert(p == i) by {
                    if p < i {
                        assert(self@[p].name == attr_name@);
                    }
                }
                return Some(&self.attrs[i]);
            }
            i = i + 1;
        }
        assert(position_of(self@, attr_name@, 0) == self@.len()) by {
            let p = position_of(self@, attr_name@, 0);
            lemma_position_of(self@, attr_name@, 0);
            if p < self@.len() {
                assert(self@[p].name == attr_name@);
            }
        }
        None
    }

    pub fn contains(&self, attr_name: &str) -> (r: bool)
        ensures
            r == has_name(self@, attr_name@),
    {
        self.get(attr_name).is_some()
    }

    /// The attributes in the order of their ids.
    pub fn iter(&self) -> (r: &[SysAttr])
        ensures
            attr_views(r@) == self@,
            r@.len() == self@.len(),
    {
        self.attrs.as_slice()
    }

    pub fn is_empty(&self) -> (r: bool)
        ensures
            r == (self@.len() == 0),
    {
        self.len() == 0
    }

    pub fn len(&self) -> (r: usize)
        ensures
            r == self@.len(),
    {
        self.attrs.len()
    }
}

/// The attributes of a builder after `name` was added to `attrs` with `flags`:
/// a name that is there already is ignored, a new one gets the next id.
pub open spec fn added(attrs: Seq<SysAttrView>, name: Seq<char>, flags: SysAttrFlags) -> Seq<
    SysAttrView,
> {
    if has_name(attrs, name) {
        attrs
    } else {
        attrs.push(SysAttrView { id: attrs.len() as u8, name, flags })
    }
}

/// Adding keeps a well-formed sequence well-formed, as long as it has room.
pub proof fn lemma_added_wf(attrs: Seq<SysAttrView>, name: Seq<char>, flags: SysAttrFlags)
    requires
        attrs_wf(attrs),
        has_name(attrs, name) || attrs.len() < CAPACITY,
    ensures
        attrs_wf(added(attrs, name, flags)),
{
    if !has_name(attrs, name) {
        let next = added(attrs, name, flags);
        assert forall|i: int, j: int|
            0 <= i < next.len() && 0 <= j < next.len() && i != j implies #[trigger] next[i].name
            != #[trigger] next[j].name by {
            if i < attrs.len() && j < attrs.len() {
                assert(attrs[i].name != attrs[j].name);
            } else if i < attrs.len() {
                assert(attrs[i].name != name);
            } else {
                assert(attrs[j].name != name);
            }
        }
        assert forall|i: int| 0 <= i < next.len() implies (#[trigger] next[i]).id as int == i by {
            if i < attrs.len() {
                assert(attrs[i].id as int == i);
            }
        }
    }
}

/// Builds an attribute set, one attribute at a time.
#[derive(Debug)]
pub struct SysAttrSetBuidler {
    attrs: Vec<SysAttr>,
    inherited: usize,
}

impl View for SysAttrSetBuidler {
    type V = Seq<SysAttrView>;

    closed spec fn view(&self) -> Seq<SysAttrView> {
        attr_views(self.attrs@)
    }
}

impl SysAttrSetBuidler {
    /// How many of the attributes came from the parent set.
    pub closed spec fn inherited(&self) -> nat {
        self.inherited as nat
    }

    /// The invariant of the type.
    pub open spec fn wf(&self) -> bool {
        &&& attrs_wf(self@)
        &&& self.inherited() <= self@.len()
    }

    pub fn new() -> (r: Self)
        ensures
            r@ == Seq::<SysAttrView>::empty(),
            r.inherited() == 0,
            r.wf(),
    {
        let r = SysAttrSetBuidler { attrs: Vec::new(), inherited: 0 };
        assert(r@ =~= Seq::<SysAttrView>::empty());
        r
    }

    /// A builder that starts from the attributes of `parent`, which keep
    /// their ids.
    pub fn with_parent(parent: Arc<SysAttrSet>) -> (r: Self)
        requires
            parent.wf(),
        ensures
            r@ == parent@,
            r.inherited() == parent@.len(),
            r.wf(),
    {
        let mut attrs: Vec<SysAttr> = Vec::new();
        let mut i: usize = 0;
        while i < parent.attrs.len()
            invariant
                i <= parent.attrs.len(),
                attrs@.len() == i,
                forall|k: int| 0 <= k < i ==> (#[trigger] attrs@[k])@ == parent.attrs@[k]@,
            decreases parent.attrs.len() - i,
        {
            attrs.push(parent.attrs[i].clone());
            i = i + 1;
        }
        let r = SysAttrSetBuidler { attrs, inherited: i };
        assert(r@ =~= parent@);
        r
    }

    /// Adds an attribute called `name`, unless the builder has one already.
    pub fn add(&mut self, name: String, flags: SysAttrFlags) -> (r: &mut Self)
        requires
            old(self).wf(),
            has_name(old(self)@, name@) || old(self)@.len() < CAPACITY,
        ensures
            r@ == added(old(self)@, name@, flags),
            r.inherited() == old(self).inherited(),
            r.wf(),
            *final(self) == *final(r),
    {
        proof {
            lemma_added_wf(self@, name@, flags);
        }
        let mut i: usize = 0;
        while i < self.attrs.len()
            invariant
                i <= self.attrs.len(),
                *self == *old(self),
                self.wf(),
                forall|k: int| 0 <= k < i ==> (#[trigger] self@[k]).name != name@,
            decreases self.attrs.len() - i,
        {
            if self.attrs[i].name == name {
                assert(self@[i as int].name == name@);
                return self;
            }
            i = i + 1;
        }
        assert(!has_name(self@, name@));
        let id: u8 = i as u8;
        let ghost before = self@;
        self.attrs.push(SysAttr { id, name, flags });
        assert(self@ =~= added(before, name@, flags));
        self
    }

    pub fn build(self) -> (r: SysAttrSet)
        requires
            self.wf(),
        ensures
            r@ == self@,
            r.wf(),
    {
        SysAttrSet { attrs: self.attrs }
    }
}

/// Whatever was added to a builder is found in the set that it builds: the
/// name is there after the call, and a name that is there stays there.
pub proof fn lemma_added_names(
    attrs: Seq<SysAttrView>,
    name: Seq<char>,
    flags: SysAttrFlags,
    other: Seq<char>,
)
    ensures
        has_name(added(attrs, name, flags), name),
        has_name(attrs, other) ==> has_name(added(attrs, name, flags), other),
        has_name(added(attrs, name, flags), other) ==> has_name(attrs, other) || other == name,
{
    let next = added(attrs, name, flags);
    if !has_name(attrs, name) {
        assert(next[attrs.len() as int].name == name);
    }
    if has_name(attrs, other) {
        let i = choose|i: int| 0 <= i < attrs.len() && #[trigger] attrs[i].name == other;
        assert(next[i].name == other);
    }
    if has_name(next, other) {
        let i = choose|i: int| 0 <= i < next.len() && #[trigger] next[i].name == other;
        if i < attrs.len() {
            assert(attrs[i].name == other);
        }
    }
}

} // verus!
