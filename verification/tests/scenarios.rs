use systree::attr::{SysAttrFlags, SysAttrSet, SysAttrSetBuidler};
use systree::error::SysError;
use systree::event::{SysEventAction, SysEventKv, SysEventSelector};
use systree::inode::{DentryCollector, InodeMode, InodeType, SysFsInode, Timestamp};
use systree::node::{SysNodeId, SysNodeIdCounter};
use systree::tree::{SysTree, SysTreeRoot};
use systree::utils::{SymlinkNode, SysBranchNodeFields, SysNormalNodeFields, SysTreeNode};

fn now() -> Timestamp {
    Timestamp { secs: 1_700_000_000, nanos: 42 }
}

fn attrs(list: &[(&str, SysAttrFlags)]) -> SysAttrSet {
    let mut builder = SysAttrSetBuidler::new();
    for (name, flags) in list {
        builder.add(name.to_string(), *flags);
    }
    builder.build()
}

fn names(collector: &DentryCollector) -> Vec<(String, u64, InodeType)> {
    collector.entries().iter().map(|d| (d.name.clone(), d.ino, d.type_)).collect()
}

#[test]
fn readdir_of_root_with_two_attributes() {
    let mut counter = SysNodeIdCounter::new();
    let set = attrs(&[("x", SysAttrFlags::read_write()), ("y", SysAttrFlags::read_only())]);
    let tree = SysTree::with_root(SysTreeRoot::with_attrs(set, &mut counter));
    let root = SysFsInode::new_root(&tree, now());
    let root_ino = root.ino();
    let mut visitor = DentryCollector::new(100);
    let ret = root.readdir_at(&tree, 0, &mut visitor).unwrap();
    assert_eq!(
        names(&visitor),
        vec![
            ("x".to_string(), root_ino, InodeType::File),
            ("y".to_string(), root_ino + 1, InodeType::File),
            (".".to_string(), root_ino, InodeType::Dir),
            ("..".to_string(), root_ino, InodeType::Dir),
        ]
    );
    assert_eq!(0 + ret, u64::MAX);
}

#[test]
fn lookup_of_leaf_and_of_its_attribute() {
    let mut counter = SysNodeIdCounter::new();
    let mut tree = SysTree::new(&mut counter);
    let mut b = SysBranchNodeFields::new("b".to_string(), SysAttrSet::new_empty(), &mut counter);
    assert_eq!(b.id().as_u64(), 1);
    let l = SysNormalNodeFields::new(
        "net".to_string(),
        attrs(&[("mtu", SysAttrFlags::read_write())]),
        &mut counter,
    );
    assert_eq!(l.id().as_u64(), 2);
    assert_eq!(b.add_child(SysTreeNode::Leaf(l)), Ok(()));
    assert_eq!(tree.add_child(SysTreeNode::Branch(b)), Ok(()));

    let root = SysFsInode::new_root(&tree, now());
    let b_inode = root.lookup(&tree, "b", now()).unwrap();
    assert_eq!(b_inode.ino(), 1 << 8);
    let net = b_inode.lookup(&tree, "net", now()).unwrap();
    assert_eq!(net.ino(), 512);
    assert_eq!(net.type_(), InodeType::Dir);
    assert_eq!(net.mode().unwrap().bits(), 0o555);
    let mtu = net.lookup(&tree, "mtu", now()).unwrap();
    assert_eq!(mtu.ino(), 512);
    assert_eq!(mtu.type_(), InodeType::File);
    assert_eq!(mtu.mode().unwrap().bits(), 0o600);
    assert_ne!(mtu.type_(), net.type_());
    assert_eq!(mtu.parent_ino(), net.ino());
    assert_eq!(net.parent_ino(), b_inode.ino());
    assert_eq!(tree.path_of(2), Some("/b/net".to_string()));
}

#[test]
fn publish_reaches_the_observers_that_select_the_action() {
    let mut counter = SysNodeIdCounter::new();
    let mut tree = SysTree::new(&mut counter);
    let mut sys =
        SysBranchNodeFields::new("sys".to_string(), SysAttrSet::new_empty(), &mut counter);
    let mut devices =
        SysBranchNodeFields::new("devices".to_string(), SysAttrSet::new_empty(), &mut counter);
    let a = SysNormalNodeFields::new("a".to_string(), SysAttrSet::new_empty(), &mut counter);
    let a_id: SysNodeId = *a.id();
    devices.add_child(SysTreeNode::Leaf(a)).unwrap();
    sys.add_child(SysTreeNode::Branch(devices)).unwrap();
    tree.add_child(SysTreeNode::Branch(sys)).unwrap();
    assert_eq!(tree.path_of(a_id.as_u64()), Some("/sys/devices/a".to_string()));

    tree.register_observer(7, SysEventSelector::Action(SysEventAction::Add));
    tree.register_observer(8, SysEventSelector::Action(SysEventAction::Remove));
    tree.register_observer(9, SysEventSelector::All);
    tree.publish_event(
        &a_id,
        SysEventAction::Add,
        vec![SysEventKv { key: "KEY".to_string(), value: "V".to_string() }],
    );
    let got = tree.take_events(7);
    assert_eq!(got.len(), 1);
    assert_eq!(got[0].action(), SysEventAction::Add);
    assert_eq!(got[0].path(), "/sys/devices/a");
    assert_eq!(got[0].details().len(), 1);
    assert_eq!(got[0].details()[0].key, "KEY");
    assert_eq!(got[0].details()[0].value, "V");
    assert_eq!(tree.take_events(8).len(), 0);
    assert_eq!(tree.take_events(9).len(), 1);
    assert_eq!(tree.take_events(7).len(), 0);
}

#[test]
fn readdir_from_between_attributes_and_children() {
    let mut counter = SysNodeIdCounter::new();
    let set = attrs(&[("x", SysAttrFlags::read_write()), ("y", SysAttrFlags::read_only())]);
    let mut tree = SysTree::with_root(SysTreeRoot::with_attrs(set, &mut counter));
    let c1 = SysNormalNodeFields::new("one".to_string(), SysAttrSet::new_empty(), &mut counter);
    let c2 = SymlinkNode::new("two".to_string(), "/one".to_string(), &mut counter);
    tree.add_child(SysTreeNode::Leaf(c1)).unwrap();
    tree.add_child(SysTreeNode::Symlink(c2)).unwrap();
    let root = SysFsInode::new_root(&tree, now());
    let mut visitor = DentryCollector::new(100);
    let ret = root.readdir_at(&tree, 2, &mut visitor).unwrap();
    assert_eq!(
        names(&visitor),
        vec![
            ("one".to_string(), 256, InodeType::Dir),
            ("two".to_string(), 512, InodeType::SymLink),
            (".".to_string(), 0, InodeType::Dir),
            ("..".to_string(), 0, InodeType::Dir),
        ]
    );
    assert_eq!(2 + ret, u64::MAX);
}

#[test]
fn write_to_a_read_only_attribute_is_not_permitted() {
    let mut counter = SysNodeIdCounter::new();
    let mut leaf = SysNormalNodeFields::new(
        "dev".to_string(),
        attrs(&[("ro", SysAttrFlags::read_only()), ("rw", SysAttrFlags::read_write())]),
        &mut counter,
    );
    assert_eq!(leaf.write_attr("ro", b"1"), Err(SysError::NotPermitted));
    assert_eq!(leaf.read_attr("ro"), Ok(vec![]));
    assert_eq!(leaf.write_attr("rw", b"1500"), Ok(4));
    assert_eq!(leaf.read_attr("rw"), Ok(b"1500".to_vec()));
    assert_eq!(leaf.read_attr("none"), Err(SysError::NotFound));
    assert_eq!(leaf.write_attr("none", b"1"), Err(SysError::NotFound));
}

#[test]
fn create_is_not_supported() {
    let mut counter = SysNodeIdCounter::new();
    let tree = SysTree::new(&mut counter);
    let root = SysFsInode::new_root(&tree, now());
    let r = root.create("foo", InodeType::File, InodeMode::from_bits_truncate(0o644));
    assert_eq!(r.err(), Some(SysError::NotSupported));
}
