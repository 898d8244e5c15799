use systree::attr::{SysAttrFlags, SysAttrSet, SysAttrSetBuidler};
use systree::error::SysError;
use systree::event::{
    SysEvent, SysEventAction, SysEventHub, SysEventKv, SysEventSelector,
};
use systree::node::{SysNodeId, SysNodeIdCounter};
use systree::text::{child_path, str_eq};
use systree::tree::SysTree;
use systree::utils::{SymlinkNode, SysBranchNodeFields, SysNormalNodeFields, SysTreeNode};

fn attrs(list: &[(&str, SysAttrFlags)]) -> SysAttrSet {
    let mut builder = SysAttrSetBuidler::new();
    for (name, flags) in list {
        builder.add(name.to_string(), *flags);
    }
    builder.build()
}

fn leaf(name: &str, counter: &mut SysNodeIdCounter) -> SysTreeNode {
    SysTreeNode::Leaf(SysNormalNodeFields::new(
        name.to_string(),
        attrs(&[("value", SysAttrFlags::read_write()), ("fixed", SysAttrFlags::read_only())]),
        counter,
    ))
}

fn branch(name: &str, counter: &mut SysNodeIdCounter) -> SysTreeNode {
    SysTreeNode::Branch(SysBranchNodeFields::new(
        name.to_string(),
        attrs(&[("uevent", SysAttrFlags::read_write())]),
        counter,
    ))
}

/// root(0) / sys(1) / { devices(2) / { a(3), b(4) }, link(5) }, plus loose(6) outside.
fn sample() -> (SysTree, SysTreeNode, SysNodeIdCounter) {
    let mut counter = SysNodeIdCounter::new();
    let mut tree = SysTree::new(&mut counter);
    let sys = branch("sys", &mut counter);
    let devices = branch("devices", &mut counter);
    let a = leaf("a", &mut counter);
    let b = leaf("b", &mut counter);
    let link = SysTreeNode::Symlink(SymlinkNode::new(
        "link".to_string(),
        "/sys/devices/a".to_string(),
        &mut counter,
    ));
    let loose = leaf("loose", &mut counter);
    assert_eq!(tree.add_child(sys), Ok(()));
    assert_eq!(tree.add_child_to(1, devices), Ok(()));
    assert_eq!(tree.add_child_to(2, b), Ok(()));
    assert_eq!(tree.add_child_to(2, a), Ok(()));
    assert_eq!(tree.add_child_to(1, link), Ok(()));
    (tree, loose, counter)
}

#[test]
fn strings_are_compared_and_joined() {
    assert!(str_eq("", ""));
    assert!(str_eq("abc", "abc"));
    assert!(!str_eq("abc", "abd"));
    assert!(!str_eq("abc", "ab"));
    assert_eq!(child_path("", "sys"), "/sys");
    assert_eq!(child_path("/sys", "devices"), "/sys/devices");
    assert_eq!(child_path("/sys", ""), "/sys/");
}

#[test]
fn a_new_tree_holds_its_root_only() {
    let mut counter = SysNodeIdCounter::new();
    let tree = SysTree::new(&mut counter);
    assert_eq!(tree.root().id().as_u64(), 0);
    assert_eq!(tree.root().branch().name(), "");
    assert_eq!(tree.root().branch().count_children(), 0);
    assert!(tree.root().branch().attr_set().is_empty());
    assert_eq!(tree.path_of(0), Some(String::new()));
    assert_eq!(tree.path_of(1), None);
    assert!(tree.node(0).is_none());
    assert!(tree.branch(0).is_some());
}

#[test]
fn paths_join_the_names_from_the_root() {
    let (tree, loose, _) = sample();
    assert_eq!(tree.path_of(0), Some("".to_string()));
    assert_eq!(tree.path_of(1), Some("/sys".to_string()));
    assert_eq!(tree.path_of(2), Some("/sys/devices".to_string()));
    assert_eq!(tree.path_of(3), Some("/sys/devices/a".to_string()));
    assert_eq!(tree.path_of(4), Some("/sys/devices/b".to_string()));
    assert_eq!(tree.path_of(5), Some("/sys/link".to_string()));
    assert_eq!(tree.path_of(loose.id().as_u64()), None);
    assert_eq!(tree.path_of(99), None);
    assert_eq!(loose.path_of(6, "/x"), Some("/x/loose".to_string()));
    assert_eq!(loose.path_of(7, "/x"), None);
}

#[test]
fn nodes_are_found_by_id() {
    let (tree, loose, _) = sample();
    assert_eq!(tree.node(3).unwrap().name(), "a");
    assert_eq!(tree.node(5).unwrap().name(), "link");
    assert!(tree.node(6).is_none());
    assert_eq!(tree.branch(0).unwrap().name(), "");
    assert_eq!(tree.branch(2).unwrap().name(), "devices");
    assert!(tree.branch(3).is_none());
    assert_eq!(tree.leaf(3).unwrap().name(), "a");
    assert!(tree.leaf(2).is_none());
    assert!(tree.leaf(0).is_none());
    assert_eq!(tree.symlink(5).unwrap().target_path(), "/sys/devices/a");
    assert!(tree.symlink(3).is_none());
    assert!(tree.symlink(0).is_none());
    assert_eq!(loose.find(6).unwrap().name(), "loose");
    assert!(loose.find(0).is_none());
    let ids: Vec<u64> =
        tree.branch(2).unwrap().children().iter().map(|c| c.id().as_u64()).collect();
    assert_eq!(ids, vec![3, 4]);
}

#[test]
fn children_are_added_below_any_branch() {
    let (mut tree, loose, mut counter) = sample();
    assert_eq!(tree.add_child_to(2, loose), Ok(()));
    assert_eq!(tree.path_of(6), Some("/sys/devices/loose".to_string()));
    assert_eq!(tree.add_child_to(2, leaf("a", &mut counter)), Err(SysError::AlreadyExists));
    assert_eq!(tree.add_child_to(3, leaf("x", &mut counter)), Err(SysError::NotDir));
    assert_eq!(tree.add_child_to(5, leaf("x", &mut counter)), Err(SysError::NotDir));
    assert_eq!(tree.add_child_to(77, leaf("x", &mut counter)), Err(SysError::NotFound));
    assert_eq!(tree.add_child_to(0, leaf("top", &mut counter)), Ok(()));
    assert_eq!(tree.add_child(leaf("top", &mut counter)), Err(SysError::AlreadyExists));
    assert_eq!(tree.root().branch().count_children(), 2);
    assert_eq!(tree.branch(2).unwrap().count_children(), 3);
}

#[test]
fn children_are_taken_out_of_any_branch() {
    let (mut tree, _, _) = sample();
    assert!(tree.remove_child_from(2, "zzz").is_none());
    assert!(tree.remove_child_from(3, "a").is_none());
    assert!(tree.remove_child_from(77, "a").is_none());
    let a = tree.remove_child_from(2, "a").unwrap();
    assert_eq!(a.id().as_u64(), 3);
    assert_eq!(tree.path_of(3), None);
    assert!(tree.node(3).is_none());
    assert_eq!(tree.path_of(4), Some("/sys/devices/b".to_string()));
    let sys = tree.remove_child("sys").unwrap();
    assert_eq!(sys.id().as_u64(), 1);
    assert_eq!(sys.find(4).unwrap().name(), "b");
    assert_eq!(tree.path_of(4), None);
    assert_eq!(tree.path_of(1), None);
    assert!(tree.remove_child("sys").is_none());
    assert_eq!(tree.add_child(a), Ok(()));
    assert_eq!(tree.path_of(3), Some("/a".to_string()));
}

#[test]
fn attributes_are_written_anywhere_in_the_tree() {
    let (mut tree, _, _) = sample();
    assert_eq!(tree.read_attr(3, "value"), Ok(vec![]));
    assert_eq!(tree.write_attr(3, "value", b"on"), Ok(2));
    assert_eq!(tree.read_attr(3, "value"), Ok(b"on".to_vec()));
    assert_eq!(tree.read_attr(4, "value"), Ok(vec![]));
    assert_eq!(tree.write_attr(3, "fixed", b"on"), Err(SysError::NotPermitted));
    assert_eq!(tree.read_attr(3, "fixed"), Ok(vec![]));
    assert_eq!(tree.write_attr(3, "none", b"on"), Err(SysError::NotFound));
    assert_eq!(tree.write_attr(2, "uevent", b"add"), Ok(3));
    assert_eq!(tree.read_attr(2, "uevent"), Ok(b"add".to_vec()));
    assert_eq!(tree.read_attr(1, "uevent"), Ok(vec![]));
    assert_eq!(tree.write_attr(5, "value", b"x"), Err(SysError::NotFound));
    assert_eq!(tree.read_attr(5, "value"), Err(SysError::NotFound));
    assert_eq!(tree.write_attr(77, "value", b"x"), Err(SysError::NotFound));
    assert_eq!(tree.read_attr(77, "value"), Err(SysError::NotFound));
    assert_eq!(tree.write_attr(0, "value", b"x"), Err(SysError::NotFound));
    assert_eq!(tree.path_of(3), Some("/sys/devices/a".to_string()));
}

#[test]
fn selectors_admit_by_action() {
    let add = SysEvent::new(SysEventAction::Add, "/a".to_string(), vec![]);
    let remove = SysEvent::new(SysEventAction::Remove, "/a".to_string(), vec![]);
    let change = SysEvent::new(SysEventAction::Change, "/a".to_string(), vec![]);
    for event in [&add, &remove, &change] {
        assert!(SysEventSelector::All.filter(event));
    }
    assert!(SysEventSelector::Action(SysEventAction::Add).filter(&add));
    assert!(!SysEventSelector::Action(SysEventAction::Add).filter(&remove));
    assert!(!SysEventSelector::Action(SysEventAction::Add).filter(&change));
    assert!(SysEventSelector::Action(SysEventAction::Change).filter(&change));
    assert!(!SysEventSelector::Action(SysEventAction::Remove).filter(&add));
}

#[test]
fn events_keep_what_they_were_made_of() {
    let details = vec![
        SysEventKv { key: "SUBSYSTEM".to_string(), value: "net".to_string() },
        SysEventKv { key: "SEQNUM".to_string(), value: "7".to_string() },
    ];
    let event = SysEvent::new(SysEventAction::Change, "/sys/net".to_string(), details);
    assert_eq!(event.action(), SysEventAction::Change);
    assert_eq!(event.path(), "/sys/net");
    assert_eq!(event.details().len(), 2);
    assert_eq!(event.details()[1].key, "SEQNUM");
    assert_eq!(event.details()[1].value, "7");
    let copy = event.clone();
    assert_eq!(copy.action(), SysEventAction::Change);
    assert_eq!(copy.path(), "/sys/net");
    assert_eq!(copy.details()[0].key, "SUBSYSTEM");
    assert_eq!(copy.details()[0].value, "net");
}

#[test]
fn hub_delivers_in_the_order_of_publishing() {
    let mut hub = SysEventHub::new();
    hub.register_observer(1, SysEventSelector::All);
    hub.register_observer(2, SysEventSelector::Action(SysEventAction::Remove));
    hub.publish_event(Some("/a".to_string()), SysEventAction::Add, vec![]);
    hub.publish_event(Some("/b".to_string()), SysEventAction::Remove, vec![]);
    hub.publish_event(None, SysEventAction::Remove, vec![]);
    hub.publish_event(Some("/c".to_string()), SysEventAction::Change, vec![]);
    let all: Vec<(SysEventAction, String)> =
        hub.take_events(1).iter().map(|e| (e.action(), e.path().to_string())).collect();
    assert_eq!(
        all,
        vec![
            (SysEventAction::Add, "/a".to_string()),
            (SysEventAction::Remove, "/b".to_string()),
            (SysEventAction::Change, "/c".to_string()),
        ]
    );
    let removed: Vec<String> = hub.take_events(2).iter().map(|e| e.path().to_string()).collect();
    assert_eq!(removed, vec!["/b".to_string()]);
    assert!(hub.take_events(1).is_empty());
    assert!(hub.take_events(3).is_empty());
}

#[test]
fn registering_twice_changes_nothing() {
    let mut hub = SysEventHub::new();
    hub.register_observer(1, SysEventSelector::Action(SysEventAction::Add));
    hub.register_observer(1, SysEventSelector::All);
    hub.publish_event(Some("/a".to_string()), SysEventAction::Remove, vec![]);
    hub.publish_event(Some("/a".to_string()), SysEventAction::Add, vec![]);
    assert_eq!(hub.take_events(1).len(), 1);
}

#[test]
fn unregistering_returns_the_observer_once() {
    let mut hub = SysEventHub::new();
    assert_eq!(hub.unregister_observer(1), None);
    hub.register_observer(1, SysEventSelector::All);
    hub.register_observer(2, SysEventSelector::All);
    assert_eq!(hub.unregister_observer(1), Some(1));
    assert_eq!(hub.unregister_observer(1), None);
    hub.publish_event(Some("/a".to_string()), SysEventAction::Add, vec![]);
    assert!(hub.take_events(1).is_empty());
    assert_eq!(hub.take_events(2).len(), 1);
}

#[test]
fn a_node_outside_the_tree_publishes_nothing() {
    let (mut tree, loose, _) = sample();
    let loose_id: SysNodeId = *loose.id();
    tree.register_observer(1, SysEventSelector::All);
    tree.publish_event(&loose_id, SysEventAction::Add, vec![]);
    assert!(tree.take_events(1).is_empty());
    assert_eq!(tree.add_child_to(2, loose), Ok(()));
    tree.publish_event(&loose_id, SysEventAction::Add, vec![]);
    let got = tree.take_events(1);
    assert_eq!(got.len(), 1);
    assert_eq!(got[0].path(), "/sys/devices/loose");
    assert_eq!(tree.unregister_observer(1), Some(1));
    assert_eq!(tree.unregister_observer(1), None);
    tree.publish_event(&loose_id, SysEventAction::Remove, vec![]);
    assert!(tree.take_events(1).is_empty());
}
