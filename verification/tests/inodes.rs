use systree::attr::{SysAttr, SysAttrFlags, SysAttrSet, SysAttrSetBuidler};
use systree::error::SysError;
use systree::fs::{SuperBlock, SysFs, BLOCK_SIZE, MAGIC_NUMBER, NAME_MAX};
use systree::ino::{
    from_dir_ino_and_attr_id, from_sysnode_id, PARENT_DENTRY_INO, THIS_DENTRY_INO,
};
use systree::inode::{
    from_inner_node, is_dot, is_dot_dot, readdir_result, Dentry, DentryCollector, InnerNode,
    InodeMode, InodeType, SysFsInode, Timestamp, POLL_IN, POLL_OUT,
};
use systree::node::{SysNodeId, SysNodeIdCounter};
use systree::tree::{SysTree, SysTreeRoot};
use systree::utils::{SymlinkNode, SysBranchNodeFields, SysNormalNodeFields, SysTreeNode};

fn now() -> Timestamp {
    Timestamp { secs: 12, nanos: 34 }
}

fn later() -> Timestamp {
    Timestamp { secs: 56, nanos: 78 }
}

fn attrs(list: &[(&str, SysAttrFlags)]) -> SysAttrSet {
    let mut builder = SysAttrSetBuidler::new();
    for (name, flags) in list {
        builder.add(name.to_string(), *flags);
    }
    builder.build()
}

fn id(n: u64) -> SysNodeId {
    SysNodeId::new(&mut SysNodeIdCounter::starting_at(n))
}

/// root(0){x rw, y r} / { net(1){mtu rw, addr r, reset w}, bus(2) / { dev(3){state rw} }, link(4) }
fn sample() -> SysTree {
    let mut counter = SysNodeIdCounter::new();
    let root = SysTreeRoot::with_attrs(
        attrs(&[("x", SysAttrFlags::read_write()), ("y", SysAttrFlags::read_only())]),
        &mut counter,
    );
    let mut tree = SysTree::with_root(root);
    let net = SysNormalNodeFields::new(
        "net".to_string(),
        attrs(&[
            ("mtu", SysAttrFlags::read_write()),
            ("addr", SysAttrFlags::read_only()),
            ("reset", SysAttrFlags { can_read: false, can_write: true, is_binary: false }),
        ]),
        &mut counter,
    );
    let mut bus =
        SysBranchNodeFields::new("bus".to_string(), SysAttrSet::new_empty(), &mut counter);
    let dev = SysNormalNodeFields::new(
        "dev".to_string(),
        attrs(&[("state", SysAttrFlags::read_write())]),
        &mut counter,
    );
    let link = SymlinkNode::new("link".to_string(), "/bus/dev".to_string(), &mut counter);
    bus.add_child(SysTreeNode::Leaf(dev)).unwrap();
    tree.add_child(SysTreeNode::Leaf(net)).unwrap();
    tree.add_child(SysTreeNode::Branch(bus)).unwrap();
    tree.add_child(SysTreeNode::Symlink(link)).unwrap();
    tree
}

fn listed(collector: &DentryCollector) -> Vec<(String, u64, InodeType, u64)> {
    collector.entries().iter().map(|d| (d.name.clone(), d.ino, d.type_, d.order)).collect()
}

fn entry(name: &str, ino: u64, type_: InodeType, order: u64) -> (String, u64, InodeType, u64) {
    (name.to_string(), ino, type_, order)
}

#[test]
fn inode_numbers_of_nodes_are_multiples_of_256() {
    for n in [0u64, 1, 2, 255, 256, 1 << 40, (1 << 55) + 3, (1 << 56) - 1, u64::MAX / 2] {
        assert_eq!(from_sysnode_id(&id(n)) % 256, 0);
    }
    assert_eq!(from_sysnode_id(&id(0)), 0);
    assert_eq!(from_sysnode_id(&id(1)), 256);
    assert_eq!(from_sysnode_id(&id(2)), 512);
    assert_eq!(from_sysnode_id(&id((1 << 56) - 1)), 0xffff_ffff_ffff_ff00);
    assert_eq!(from_sysnode_id(&id((1 << 56) + 1)), 256);
}

#[test]
fn inode_numbers_of_attributes_follow_the_directory() {
    assert_eq!(from_dir_ino_and_attr_id(512, 0), 512);
    assert_eq!(from_dir_ino_and_attr_id(512, 1), 513);
    assert_eq!(from_dir_ino_and_attr_id(512, 255), 767);
    assert_eq!(from_dir_ino_and_attr_id(0xffff_ffff_ffff_ff00, 255), u64::MAX);
    let dir = from_sysnode_id(&id(9));
    let mut seen = Vec::new();
    for attr in 0..=255u8 {
        let ino = from_dir_ino_and_attr_id(dir, attr);
        assert!(!seen.contains(&ino));
        assert_ne!(ino, from_sysnode_id(&id(8)));
        assert_ne!(ino, from_sysnode_id(&id(10)));
        seen.push(ino);
    }
    assert_eq!(THIS_DENTRY_INO, u64::MAX - 2);
    assert_eq!(PARENT_DENTRY_INO, u64::MAX - 1);
}

#[test]
fn inode_number_of_what_an_inode_shows() {
    assert_eq!(from_inner_node(&InnerNode::Branch(id(3))), 768);
    assert_eq!(from_inner_node(&InnerNode::Leaf(id(3))), 768);
    assert_eq!(from_inner_node(&InnerNode::Symlink(id(3))), 768);
    let attr = SysAttr::new(5, "a".to_string(), SysAttrFlags::read_only());
    assert_eq!(from_inner_node(&InnerNode::Attr(attr, id(3))), 773);
}

#[test]
fn modes_follow_the_flags() {
    let mode = |r, w| {
        let flags = SysAttrFlags { can_read: r, can_write: w, is_binary: false };
        SysFsInode::flags_to_inode_mode(flags).bits()
    };
    assert_eq!(mode(false, false), 0);
    assert_eq!(mode(true, false), 0o400);
    assert_eq!(mode(false, true), 0o200);
    assert_eq!(mode(true, true), 0o600);
    assert_eq!(
        SysFsInode::flags_to_inode_mode(SysAttrFlags {
            can_read: true,
            can_write: false,
            is_binary: true
        })
        .bits(),
        0o400
    );
    assert_eq!(InodeMode::from_bits_truncate(0o644).bits(), 0o644);
    assert_eq!(InodeMode::from_bits_truncate(0o177777).bits(), 0o7777);
}

#[test]
fn metadata_is_fixed_at_creation() {
    let m = SysFsInode::new_metadata(768, InodeType::File, now());
    assert_eq!(m.ino, 768);
    assert_eq!(m.type_, InodeType::File);
    assert_eq!(m.atime, now());
    assert_eq!(m.mtime, now());
    assert_eq!(m.ctime, now());
    assert_eq!(m.uid, 0);
    assert_eq!(m.gid, 0);
    assert_eq!(m.size, 0);

    let tree = sample();
    let mut root = SysFsInode::new_root(&tree, now());
    root.set_atime(later());
    root.set_mtime(later());
    root.set_ctime(later());
    assert_eq!(root.atime(), now());
    assert_eq!(root.mtime(), now());
    assert_eq!(root.ctime(), now());
    assert_eq!(root.metadata(), SysFsInode::new_metadata(0, InodeType::Dir, now()));
    assert_eq!(root.size(), 0);
    assert_eq!(root.owner(), Ok(0));
    assert_eq!(root.group(), Ok(0));
    assert_eq!(root.set_owner(1000), Err(SysError::NotPermitted));
    assert_eq!(root.set_group(1000), Err(SysError::NotPermitted));
    assert_eq!(root.owner(), Ok(0));
    assert_eq!(root.group(), Ok(0));
}

#[test]
fn the_mode_that_was_set_is_the_mode() {
    let tree = sample();
    let mut root = SysFsInode::new_root(&tree, now());
    assert_eq!(root.mode().unwrap().bits(), 0o555);
    let m = InodeMode::from_bits_truncate(0o700);
    assert_eq!(root.set_mode(m), Ok(()));
    assert_eq!(root.mode(), Ok(m));
    assert_eq!(root.ino(), 0);
    assert_eq!(root.type_(), InodeType::Dir);
    assert_eq!(root.atime(), now());
    assert_eq!(root.this().mode(), Ok(m));
}

#[test]
fn dot_is_the_directory_and_dot_dot_its_parent() {
    assert!(is_dot("."));
    assert!(!is_dot(".."));
    assert!(!is_dot(""));
    assert!(is_dot_dot(".."));
    assert!(!is_dot_dot("."));
    assert!(!is_dot_dot("..."));

    let tree = sample();
    let root = SysFsInode::new_root(&tree, now());
    let this = root.lookup(&tree, ".", later()).unwrap();
    assert_eq!(this.ino(), root.ino());
    assert_eq!(this.metadata(), root.metadata());
    assert_eq!(this.type_(), InodeType::Dir);
    let up = root.lookup(&tree, "..", later()).unwrap();
    assert_eq!(up.ino(), root.ino());
    assert_eq!(up.metadata(), root.metadata());

    let bus = root.lookup(&tree, "bus", now()).unwrap();
    let dev = bus.lookup(&tree, "dev", now()).unwrap();
    assert_eq!(dev.lookup(&tree, ".", now()).unwrap().ino(), dev.ino());
    let back = dev.lookup(&tree, "..", now()).unwrap();
    assert_eq!(back.ino(), bus.ino());
    assert_eq!(back.type_(), InodeType::Dir);
    assert_eq!(back.node_id(), bus.node_id());
    let top = back.lookup(&tree, "..", now()).unwrap();
    assert_eq!(top.ino(), root.ino());
    assert_eq!(top.lookup(&tree, "..", now()).unwrap().ino(), root.ino());
    assert_eq!(top.lookup(&tree, "bus", now()).unwrap().ino(), bus.ino());
}

#[test]
fn lookup_projects_children_and_attributes() {
    let tree = sample();
    let root = SysFsInode::new_root(&tree, now());
    assert_eq!(root.ino(), 0);
    assert_eq!(root.parent_ino(), 0);

    let net = root.lookup(&tree, "net", later()).unwrap();
    assert_eq!((net.ino(), net.type_()), (256, InodeType::Dir));
    assert_eq!(net.mode().unwrap().bits(), 0o555);
    assert_eq!(net.atime(), later());
    assert_eq!(net.parent_ino(), 0);

    let bus = root.lookup(&tree, "bus", now()).unwrap();
    assert_eq!((bus.ino(), bus.type_()), (512, InodeType::Dir));

    let link = root.lookup(&tree, "link", now()).unwrap();
    assert_eq!((link.ino(), link.type_()), (1024, InodeType::SymLink));
    assert_eq!(link.mode().unwrap().bits(), 0o444);
    assert_eq!(link.read_link(&tree), Ok("/bus/dev".to_string()));

    let x = root.lookup(&tree, "x", now()).unwrap();
    assert_eq!((x.ino(), x.type_()), (0, InodeType::File));
    assert_eq!(x.mode().unwrap().bits(), 0o600);
    let y = root.lookup(&tree, "y", now()).unwrap();
    assert_eq!((y.ino(), y.type_()), (1, InodeType::File));
    assert_eq!(y.mode().unwrap().bits(), 0o400);

    let reset = net.lookup(&tree, "reset", now()).unwrap();
    assert_eq!((reset.ino(), reset.type_()), (258, InodeType::File));
    assert_eq!(reset.mode().unwrap().bits(), 0o200);
    assert_eq!(reset.parent_ino(), 256);

    let dev = bus.lookup(&tree, "dev", now()).unwrap();
    assert_eq!((dev.ino(), dev.parent_ino()), (768, 512));
    let state = dev.lookup(&tree, "state", now()).unwrap();
    assert_eq!((state.ino(), state.parent_ino()), (768, 768));
}

#[test]
fn lookup_fails_where_nothing_is() {
    let tree = sample();
    let root = SysFsInode::new_root(&tree, now());
    assert_eq!(root.lookup(&tree, "none", now()).err(), Some(SysError::NotFound));
    assert_eq!(root.lookup(&tree, "", now()).err(), Some(SysError::NotFound));
    assert_eq!(root.lookup(&tree, "dev", now()).err(), Some(SysError::NotFound));
    let net = root.lookup(&tree, "net", now()).unwrap();
    assert_eq!(net.lookup(&tree, "state", now()).err(), Some(SysError::NotFound));
    let x = root.lookup(&tree, "x", now()).unwrap();
    assert_eq!(x.lookup(&tree, ".", now()).err(), Some(SysError::NotDir));
    assert_eq!(x.lookup(&tree, "x", now()).err(), Some(SysError::NotDir));
    let link = root.lookup(&tree, "link", now()).unwrap();
    assert_eq!(link.lookup(&tree, "..", now()).err(), Some(SysError::NotDir));
}

#[test]
fn a_child_prevails_over_an_attribute_of_its_name() {
    let mut counter = SysNodeIdCounter::new();
    let root = SysTreeRoot::with_attrs(attrs(&[("same", SysAttrFlags::read_only())]), &mut counter);
    let mut tree = SysTree::with_root(root);
    let child = SysNormalNodeFields::new("same".to_string(), SysAttrSet::new_empty(), &mut counter);
    tree.add_child(SysTreeNode::Leaf(child)).unwrap();
    let dir = SysFsInode::new_root(&tree, now());
    assert_eq!(dir.lookup(&tree, "same", now()).unwrap().type_(), InodeType::Dir);
    assert!(tree.remove_child("same").is_some());
    assert_eq!(dir.lookup(&tree, "same", now()).unwrap().type_(), InodeType::File);
}

#[test]
fn a_removed_child_is_not_found() {
    let mut tree = sample();
    let root = SysFsInode::new_root(&tree, now());
    let bus = root.lookup(&tree, "bus", now()).unwrap();
    let dev = bus.lookup(&tree, "dev", now()).unwrap();
    assert!(tree.remove_child_from(2, "dev").is_some());
    assert_eq!(bus.lookup(&tree, "dev", now()).err(), Some(SysError::NotFound));
    assert_eq!(dev.lookup(&tree, "state", now()).err(), Some(SysError::NotFound));
    let mut visitor = DentryCollector::new(10);
    assert_eq!(dev.readdir_at(&tree, 0, &mut visitor), Err(SysError::NotFound));
    assert!(tree.remove_child("bus").is_some());
    assert_eq!(root.lookup(&tree, "bus", now()).err(), Some(SysError::NotFound));
    assert_eq!(bus.lookup(&tree, "dev", now()).err(), Some(SysError::NotFound));
}

#[test]
fn files_are_read_and_written_through_the_tree() {
    let mut tree = sample();
    let root = SysFsInode::new_root(&tree, now());
    let net = root.lookup(&tree, "net", now()).unwrap();
    let mtu = net.lookup(&tree, "mtu", now()).unwrap();
    let addr = net.lookup(&tree, "addr", now()).unwrap();
    let reset = net.lookup(&tree, "reset", now()).unwrap();

    assert_eq!(mtu.read_at(&tree, 0), Ok(vec![]));
    assert_eq!(mtu.write_at(&mut tree, 0, b"1500"), Ok(4));
    assert_eq!(mtu.read_at(&tree, 0), Ok(b"1500".to_vec()));
    assert_eq!(mtu.read_at(&tree, 2), Ok(b"1500".to_vec()));
    assert_eq!(mtu.read_direct_at(&tree, 0), Ok(b"1500".to_vec()));
    assert_eq!(mtu.write_direct_at(&mut tree, 7, b"9000"), Ok(4));
    assert_eq!(tree.read_attr(1, "mtu"), Ok(b"9000".to_vec()));

    assert_eq!(addr.write_at(&mut tree, 0, b"x"), Err(SysError::NotPermitted));
    assert_eq!(addr.read_at(&tree, 0), Ok(vec![]));
    assert_eq!(reset.write_at(&mut tree, 0, b"1"), Ok(1));
    assert_eq!(reset.read_at(&tree, 0), Err(SysError::NotPermitted));

    assert_eq!(net.read_at(&tree, 0), Err(SysError::Invalid));
    assert_eq!(net.write_at(&mut tree, 0, b"x"), Err(SysError::Invalid));
    assert_eq!(root.read_at(&tree, 0), Err(SysError::Invalid));
    let link = root.lookup(&tree, "link", now()).unwrap();
    assert_eq!(link.read_at(&tree, 0), Err(SysError::Invalid));
    assert_eq!(link.write_at(&mut tree, 0, b"x"), Err(SysError::Invalid));

    let x = root.lookup(&tree, "x", now()).unwrap();
    assert_eq!(x.write_at(&mut tree, 0, b"root"), Ok(4));
    assert_eq!(x.read_at(&tree, 0), Ok(b"root".to_vec()));

    assert!(tree.remove_child("net").is_some());
    assert_eq!(mtu.read_at(&tree, 0), Err(SysError::NotFound));
    assert_eq!(mtu.write_at(&mut tree, 0, b"1"), Err(SysError::NotFound));
}

#[test]
fn links_are_read_from_symlinks_only() {
    let mut tree = sample();
    let root = SysFsInode::new_root(&tree, now());
    let link = root.lookup(&tree, "link", now()).unwrap();
    assert_eq!(link.read_link(&tree), Ok("/bus/dev".to_string()));
    assert_eq!(root.read_link(&tree), Err(SysError::Invalid));
    let x = root.lookup(&tree, "x", now()).unwrap();
    assert_eq!(x.read_link(&tree), Err(SysError::Invalid));
    assert_eq!(link.write_link("/net"), Err(SysError::NotSupported));
    assert!(tree.remove_child("link").is_some());
    assert_eq!(link.read_link(&tree), Err(SysError::NotFound));
}

#[test]
fn what_the_file_system_does_not_offer() {
    let tree = sample();
    let mut root = SysFsInode::new_root(&tree, now());
    let other = root.this();
    let mode = InodeMode::from_bits_truncate(0o644);
    assert_eq!(root.create("foo", InodeType::File, mode).err(), Some(SysError::NotSupported));
    assert_eq!(root.create("foo", InodeType::Dir, mode).err(), Some(SysError::NotSupported));
    assert_eq!(root.mknod("foo", mode).err(), Some(SysError::NotSupported));
    assert_eq!(root.link(&other, "foo"), Err(SysError::NotSupported));
    assert_eq!(root.unlink("net"), Err(SysError::NotSupported));
    assert_eq!(root.rename("net", &other, "net2"), Err(SysError::NotSupported));
    assert_eq!(root.write_link("/x"), Err(SysError::NotSupported));
    assert_eq!(root.ioctl(1, 2), Err(SysError::NotSupported));
    assert_eq!(root.fallocate(0, 10), Err(SysError::NotSupported));
    assert_eq!(root.resize(10), Err(SysError::NotSupported));
    assert_eq!(root.size(), 0);
    assert_eq!(root.sync_all(), Ok(()));
    assert_eq!(root.sync_data(), Ok(()));
    assert!(root.is_dentry_cacheable());
    assert_eq!(root.lookup(&tree, "net", now()).unwrap().ino(), 256);
}

#[test]
fn poll_reports_reading_and_writing() {
    let tree = sample();
    let root = SysFsInode::new_root(&tree, now());
    assert_eq!((POLL_IN, POLL_OUT), (1, 4));
    assert_eq!(root.poll(0), 0);
    assert_eq!(root.poll(POLL_IN), POLL_IN);
    assert_eq!(root.poll(POLL_OUT), POLL_OUT);
    assert_eq!(root.poll(u32::MAX), POLL_IN | POLL_OUT);
    assert_eq!(root.poll(0x0008 | POLL_IN), POLL_IN);
    assert_eq!(root.poll(0x0002), 0);
}

#[test]
fn a_listing_shows_attributes_children_and_the_two_dots() {
    let tree = sample();
    let root = SysFsInode::new_root(&tree, now());
    let mut visitor = DentryCollector::new(100);
    assert_eq!(root.readdir_at(&tree, 0, &mut visitor), Ok(u64::MAX));
    assert_eq!(
        listed(&visitor),
        vec![
            entry("x", 0, InodeType::File, 0),
            entry("y", 1, InodeType::File, 1),
            entry("net", 256, InodeType::Dir, 256),
            entry("bus", 512, InodeType::Dir, 512),
            entry("link", 1024, InodeType::SymLink, 1024),
            entry(".", 0, InodeType::Dir, u64::MAX - 2),
            entry("..", 0, InodeType::Dir, u64::MAX - 1),
        ]
    );

    let bus = root.lookup(&tree, "bus", now()).unwrap();
    let dev = bus.lookup(&tree, "dev", now()).unwrap();
    let mut visitor = DentryCollector::new(100);
    assert_eq!(dev.readdir_at(&tree, 0, &mut visitor), Ok(u64::MAX));
    assert_eq!(
        listed(&visitor),
        vec![
            entry("state", 768, InodeType::File, 768),
            entry(".", 768, InodeType::Dir, u64::MAX - 2),
            entry("..", 512, InodeType::Dir, u64::MAX - 1),
        ]
    );
    let entries = dev.new_dentry_iter(&tree, 769).unwrap();
    let names: Vec<&str> = entries.iter().map(|d| d.name.as_str()).collect();
    assert_eq!(names, vec![".", ".."]);
}

#[test]
fn a_listing_goes_on_where_the_last_one_stopped() {
    let tree = sample();
    let root = SysFsInode::new_root(&tree, now());
    let mut seen: Vec<String> = Vec::new();
    let mut offset = 0u64;
    let mut calls = 0;
    loop {
        let mut visitor = DentryCollector::new(2);
        let ret = root.readdir_at(&tree, offset, &mut visitor).unwrap();
        if ret == 0 {
            assert!(visitor.entries().is_empty());
            break;
        }
        for d in visitor.entries() {
            assert!(d.order >= offset);
            assert!(!seen.contains(&d.name));
            seen.push(d.name.clone());
        }
        assert_eq!(offset + ret, visitor.entries().last().unwrap().order + 1);
        offset += ret;
        calls += 1;
    }
    assert_eq!(calls, 4);
    assert_eq!(offset, u64::MAX);
    assert_eq!(seen, vec!["x", "y", "net", "bus", "link", ".", ".."]);
}

#[test]
fn a_listing_is_not_repeated_when_the_directory_changes() {
    let mut tree = sample();
    let root = SysFsInode::new_root(&tree, now());
    let mut first = DentryCollector::new(3);
    let ret = root.readdir_at(&tree, 0, &mut first).unwrap();
    assert_eq!(ret, 257);
    let first_names: Vec<String> = first.entries().iter().map(|d| d.name.clone()).collect();
    assert_eq!(first_names, vec!["x", "y", "net"]);

    assert!(tree.remove_child("bus").is_some());
    let mut counter = SysNodeIdCounter::starting_at(5);
    let late = SysNormalNodeFields::new("late".to_string(), SysAttrSet::new_empty(), &mut counter);
    tree.add_child(SysTreeNode::Leaf(late)).unwrap();

    let mut second = DentryCollector::new(100);
    assert_eq!(root.readdir_at(&tree, ret, &mut second), Ok(u64::MAX - ret));
    let second_names: Vec<String> = second.entries().iter().map(|d| d.name.clone()).collect();
    assert_eq!(second_names, vec!["link", "late", ".", ".."]);
    for name in &second_names {
        assert!(!first_names.contains(name));
    }
}

#[test]
fn a_listing_from_the_end_shows_nothing() {
    let tree = sample();
    let root = SysFsInode::new_root(&tree, now());
    let mut visitor = DentryCollector::new(100);
    assert_eq!(root.readdir_at(&tree, u64::MAX, &mut visitor), Ok(0));
    assert!(visitor.entries().is_empty());
    assert_eq!(root.readdir_at(&tree, u64::MAX - 1, &mut visitor), Ok(1));
    assert_eq!(listed(&visitor), vec![entry("..", 0, InodeType::Dir, u64::MAX - 1)]);
    let mut visitor = DentryCollector::new(100);
    assert_eq!(root.readdir_at(&tree, u64::MAX - 2, &mut visitor), Ok(2));
    assert_eq!(visitor.entries().len(), 2);
}

#[test]
fn a_visitor_that_takes_nothing_makes_the_listing_invalid() {
    let tree = sample();
    let root = SysFsInode::new_root(&tree, now());
    let mut visitor = DentryCollector::new(0);
    assert_eq!(root.readdir_at(&tree, 0, &mut visitor), Err(SysError::Invalid));
    assert!(visitor.entries().is_empty());
    let mut visitor = DentryCollector::new(1);
    assert_eq!(root.readdir_at(&tree, 0, &mut visitor), Ok(1));
    assert_eq!(root.readdir_at(&tree, 1, &mut visitor), Err(SysError::Invalid));
    assert_eq!(visitor.entries().len(), 1);
}

#[test]
fn only_directories_are_listed() {
    let tree = sample();
    let root = SysFsInode::new_root(&tree, now());
    let x = root.lookup(&tree, "x", now()).unwrap();
    let link = root.lookup(&tree, "link", now()).unwrap();
    let mut visitor = DentryCollector::new(100);
    assert_eq!(x.readdir_at(&tree, 0, &mut visitor), Err(SysError::NotDir));
    assert_eq!(link.readdir_at(&tree, 0, &mut visitor), Err(SysError::NotDir));
    assert!(visitor.entries().is_empty());
}

#[test]
fn the_result_of_a_listing_is_the_way_to_the_next() {
    let d = |order: u64| Dentry {
        ino: order,
        order,
        name: "n".to_string(),
        type_: InodeType::File,
    };
    let entries = vec![d(10), d(20), d(u64::MAX - 1)];
    assert_eq!(readdir_result(&[], 0, 5), Ok(0));
    assert_eq!(readdir_result(&entries, 0, 5), Err(SysError::Invalid));
    assert_eq!(readdir_result(&entries, 1, 5), Ok(6));
    assert_eq!(readdir_result(&entries, 2, 5), Ok(16));
    assert_eq!(readdir_result(&entries, 3, 5), Ok(u64::MAX - 5));
    assert_eq!(readdir_result(&entries, 1, 10), Ok(1));
}

#[test]
fn the_file_system_has_the_known_superblock() {
    let tree = sample();
    let fs = SysFs::new(&tree, now());
    assert_eq!((MAGIC_NUMBER, BLOCK_SIZE, NAME_MAX), (0x62656572, 1024, 255));
    assert_eq!(fs.sb(), SuperBlock { magic: 0x62656572, bsize: 1024, namelen: 255 });
    assert_eq!(fs.sb(), SuperBlock::new(0x62656572, 1024, 255));
    assert_eq!(fs.flags(), 0);
    assert_eq!(fs.sync(), Ok(()));
    let root = fs.root_inode();
    assert_eq!(root.ino(), 0);
    assert_eq!(root.type_(), InodeType::Dir);
    assert_eq!(root.mode().unwrap().bits(), 0o555);
    assert_eq!(root.ctime(), now());
    assert_eq!(root.lookup(&tree, "net", now()).unwrap().ino(), 256);
}

#[test]
fn inodes_are_equal_by_number() {
    let tree = sample();
    let root = SysFsInode::new_root(&tree, now());
    let again = SysFsInode::new_root(&tree, later());
    assert!(root == again);
    let net = root.lookup(&tree, "net", now()).unwrap();
    assert!(root != net);
    let bus = root.lookup(&tree, "bus", now()).unwrap();
    let dev = bus.lookup(&tree, "dev", now()).unwrap();
    let state = dev.lookup(&tree, "state", now()).unwrap();
    assert!(dev == state);
    assert_ne!(dev.type_(), state.type_());
}

#[test]
fn a_child_older_than_its_directory_is_listed_behind_the_attributes() {
    let mut counter = SysNodeIdCounter::new();
    let old = SysNormalNodeFields::new("old".to_string(), SysAttrSet::new_empty(), &mut counter);
    let root =
        SysTreeRoot::with_attrs(attrs(&[("x", SysAttrFlags::read_only())]), &mut counter);
    let mut tree = SysTree::with_root(root);
    tree.add_child(SysTreeNode::Leaf(old)).unwrap();
    let dir = SysFsInode::new_root(&tree, now());
    assert_eq!(dir.ino(), 256);

    let mut first = DentryCollector::new(2);
    assert_eq!(dir.readdir_at(&tree, 0, &mut first), Ok(1));
    assert_eq!(
        listed(&first),
        vec![entry("x", 256, InodeType::File, 256), entry("old", 0, InodeType::Dir, 0)]
    );
    let mut second = DentryCollector::new(2);
    assert_eq!(dir.readdir_at(&tree, 1, &mut second), Ok(u64::MAX - 2));
    assert_eq!(
        listed(&second),
        vec![
            entry("x", 256, InodeType::File, 256),
            entry(".", 256, InodeType::Dir, u64::MAX - 2),
        ]
    );
}
