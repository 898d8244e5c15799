//! Inode numbers, computed from the identity of a node and of an attribute.

use crate::node::SysNodeId;
use vstd::prelude::*;

verus! {

/// The low bits of an inode number that hold the id of an attribute.
pub const ATTR_INO_SHIFT: u64 = 8;

/// The ordering number of the `.` entry of a directory.
pub const THIS_DENTRY_INO: u64 = 0xffff_ffff_ffff_fffd;

/// The ordering number of the `..` entry of a directory.
pub const PARENT_DENTRY_INO: u64 = 0xffff_ffff_ffff_fffe;

/// The inode number of the node with the id `id`.
pub open spec fn ino_of_node(id: u64) -> u64 {
    id << 8u64
}

/// The inode number of the attribute `attr_id` of the directory `dir_ino`.
pub open spec fn ino_of_attr(dir_ino: u64, attr_id: u8) -> int {
    dir_ino + attr_id
}

pub fn from_sysnode_id(node_id: &SysNodeId) -> (r: u64)
    ensures
        r == ino_of_node(node_id.value()),
        r % 256 == 0,
        r <= 0xffff_ffff_ffff_ff00,
{
    let id = node_id.as_u64();
    assert((id << 8u64) % 256 == 0 && (id << 8u64) <= 0xffff_ffff_ffff_ff00) by (bit_vector);
    id << ATTR_INO_SHIFT
}

pub fn from_dir_ino_and_attr_id(dir_ino: u64, attr_id: u8) -> (r: u64)
    requires
        dir_ino + attr_id <= u64::MAX,
    ensures
        r == ino_of_attr(dir_ino, attr_id),
{
    dir_ino + (attr_id as u64)
}

/// The inode number of a node is a multiple of 256: its low bits are free
/// for the ids of the node's attributes.
pub proof fn lemma_node_ino_aligned(id: u64)
    ensures
        ino_of_node(id) % 256 == 0,
        ino_of_node(id) + 255 <= u64::MAX,
{
    assert((id << 8u64) % 256 == 0 && (id << 8u64) <= 0xffff_ffff_ffff_ff00) by (bit_vector);
}

/// Two attributes of one node have different inode numbers.
pub proof fn lemma_attr_inos_distinct(id: u64, a: u8, b: u8)
    requires
        a != b,
    ensures
        ino_of_attr(ino_of_node(id), a) != ino_of_attr(ino_of_node(id), b),
        ino_of_attr(ino_of_node(id), a) <= u64::MAX,
{
    lemma_node_ino_aligned(id);
}

/// Nodes whose ids differ and lie below 2^56 have different inode numbers,
/// and the smaller id has the smaller number.
pub proof fn lemma_node_inos_distinct(a: u64, b: u64)
    requires
        a < b,
        b < 0x0100_0000_0000_0000,
    ensures
        ino_of_node(a) < ino_of_node(b),
        ino_of_node(a) + 255 < ino_of_node(b),
{
    assert(a < b && b < 0x0100_0000_0000_0000 ==> (a << 8u64) < (b << 8u64) && (b << 8u64) - (a
        << 8u64) >= 256) by (bit_vector);
}

/// No attribute of a node shares its inode number with another node, as
/// long as both ids lie below 2^56.
pub proof fn lemma_attr_ino_is_no_node_ino(dir: u64, attr_id: u8, child: u64)
    requires
        dir != child,
        dir < 0x0100_0000_0000_0000,
        child < 0x0100_0000_0000_0000,
    ensures
        ino_of_attr(ino_of_node(dir), attr_id) != ino_of_node(child),
{
    if dir < child {
        lemma_node_inos_distinct(dir, child);
    } else {
        lemma_node_inos_distinct(child, dir);
    }
}

} // verus!
