use std::sync::Arc;
use systree::attr::{
    SysAttr, SysAttrFlags, SysAttrSet, SysAttrSetBuidler, CAN_READ, CAN_WRITE, CAPACITY, IS_BINARY,
};

#[test]
fn flags_encode_as_bits() {
    assert_eq!(SysAttrFlags::empty().bits(), 0);
    assert_eq!(SysAttrFlags::read_only().bits(), 1);
    assert_eq!(SysAttrFlags::read_write().bits(), 3);
    let binary = SysAttrFlags { can_read: true, can_write: false, is_binary: true };
    assert_eq!(binary.bits(), 17);
    assert_eq!(CAN_READ, 1 << 0);
    assert_eq!(CAN_WRITE, 1 << 1);
    assert_eq!(IS_BINARY, 1 << 4);
}

#[test]
fn flags_decode_and_drop_unknown_bits() {
    assert_eq!(SysAttrFlags::from_bits_truncate(0), SysAttrFlags::empty());
    assert_eq!(SysAttrFlags::from_bits_truncate(3), SysAttrFlags::read_write());
    assert_eq!(
        SysAttrFlags::from_bits_truncate(0xff),
        SysAttrFlags { can_read: true, can_write: true, is_binary: true }
    );
    assert_eq!(SysAttrFlags::from_bits_truncate(0b1100), SysAttrFlags::empty());
    for bits in 0..=255u8 {
        let flags = SysAttrFlags::from_bits_truncate(bits);
        assert_eq!(flags.bits(), bits & 0b10011);
        assert_eq!(SysAttrFlags::from_bits_truncate(flags.bits()), flags);
    }
}

#[test]
fn flags_default_is_read_only() {
    assert_eq!(SysAttrFlags::default(), SysAttrFlags::read_only());
    assert!(SysAttrFlags::default().can_read);
    assert!(!SysAttrFlags::default().can_write);
    assert!(!SysAttrFlags::default().is_binary);
}

#[test]
fn flags_contains_and_union() {
    let rw = SysAttrFlags::read_write();
    let r = SysAttrFlags::read_only();
    assert!(rw.contains(r));
    assert!(!r.contains(rw));
    assert!(r.contains(SysAttrFlags::empty()));
    assert!(SysAttrFlags::empty().contains(SysAttrFlags::empty()));
    let w = SysAttrFlags { can_read: false, can_write: true, is_binary: false };
    assert_eq!(r.union(w), rw);
    assert_eq!(r.union(r), r);
}

#[test]
fn attr_keeps_what_it_was_made_of() {
    let a = SysAttr::new(7, "mtu".to_string(), SysAttrFlags::read_write());
    assert_eq!(a.id(), 7);
    assert_eq!(a.name(), "mtu");
    assert_eq!(a.flags(), SysAttrFlags::read_write());
    let b = a.clone();
    assert_eq!(b.id(), 7);
    assert_eq!(b.name(), "mtu");
    assert_eq!(b.flags(), SysAttrFlags::read_write());
}

#[test]
fn empty_set_has_nothing() {
    let set = SysAttrSet::new_empty();
    assert!(set.is_empty());
    assert_eq!(set.len(), 0);
    assert_eq!(set.iter().len(), 0);
    assert!(set.get("x").is_none());
    assert!(!set.contains("x"));
    let built = SysAttrSetBuidler::new().build();
    assert!(built.is_empty());
}

#[test]
fn builder_gives_ids_in_order_of_insertion() {
    let mut b = SysAttrSetBuidler::new();
    b.add("a".to_string(), SysAttrFlags::read_only())
        .add("b".to_string(), SysAttrFlags::read_write())
        .add("c".to_string(), SysAttrFlags::empty());
    let set = b.build();
    assert_eq!(set.len(), 3);
    assert!(!set.is_empty());
    assert_eq!(set.iter().iter().count(), set.len());
    let ids: Vec<u8> = set.iter().iter().map(|a| a.id()).collect();
    assert_eq!(ids, vec![0, 1, 2]);
    let names: Vec<&str> = set.iter().iter().map(|a| a.name()).collect();
    assert_eq!(names, vec!["a", "b", "c"]);
    for name in ["a", "b", "c"] {
        assert!(set.get(name).is_some());
        assert!(set.contains(name));
        assert_eq!(set.get(name).unwrap().name(), name);
    }
    assert_eq!(set.get("b").unwrap().id(), 1);
    assert_eq!(set.get("b").unwrap().flags(), SysAttrFlags::read_write());
    assert!(set.get("d").is_none());
    assert!(!set.contains(""));
}

#[test]
fn builder_ignores_a_name_that_is_there() {
    let mut b = SysAttrSetBuidler::new();
    b.add("a".to_string(), SysAttrFlags::read_only());
    b.add("a".to_string(), SysAttrFlags::read_write());
    b.add("b".to_string(), SysAttrFlags::read_only());
    let set = b.build();
    assert_eq!(set.len(), 2);
    assert_eq!(set.get("a").unwrap().flags(), SysAttrFlags::read_only());
    assert_eq!(set.get("a").unwrap().id(), 0);
    assert_eq!(set.get("b").unwrap().id(), 1);
}

#[test]
fn builder_with_parent_keeps_the_parents_attributes() {
    let mut p = SysAttrSetBuidler::new();
    p.add("uevent".to_string(), SysAttrFlags::read_write());
    p.add("power".to_string(), SysAttrFlags::read_only());
    let parent = Arc::new(p.build());
    let mut b = SysAttrSetBuidler::with_parent(parent.clone());
    b.add("power".to_string(), SysAttrFlags::read_write());
    b.add("mtu".to_string(), SysAttrFlags::read_write());
    let set = b.build();
    assert_eq!(parent.len(), 2);
    assert_eq!(set.len(), 3);
    assert_eq!(set.get("uevent").unwrap().id(), 0);
    assert_eq!(set.get("power").unwrap().id(), 1);
    assert_eq!(set.get("power").unwrap().flags(), SysAttrFlags::read_only());
    assert_eq!(set.get("mtu").unwrap().id(), 2);
}

#[test]
fn a_set_holds_up_to_its_capacity() {
    assert_eq!(CAPACITY, 256);
    let mut b = SysAttrSetBuidler::new();
    for i in 0..CAPACITY {
        b.add(format!("attr{i}"), SysAttrFlags::read_only());
    }
    b.add("attr0".to_string(), SysAttrFlags::read_only());
    let set = b.build();
    assert_eq!(set.len(), 256);
    assert_eq!(set.get("attr255").unwrap().id(), 255);
    assert_eq!(set.get("attr0").unwrap().id(), 0);
}
