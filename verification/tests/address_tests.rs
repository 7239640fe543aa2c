use ipc_actors::address::SubnetID;
use ipc_actors::cross::{is_bottomup, IPCMsgType, StorableMsg};

fn sid(route: &[u64]) -> SubnetID {
    SubnetID { route: route.to_vec() }
}

#[test]
fn child_of_parent_and_back() {
    let root = sid(&[1]);
    let child = SubnetID::new_from_parent(&root, 2);
    assert_eq!(child.route, vec![1, 2]);
    let parent = child.parent().unwrap();
    assert_eq!(parent.route, vec![1]);
    assert!(root.parent().is_none());
    assert_eq!(child.subnet_actor(), Some(2));
    assert_eq!(sid(&[]).subnet_actor(), None);
}

#[test]
fn common_parent_is_longest_shared_prefix() {
    let a = sid(&[1, 2, 7]);
    let b = sid(&[1, 2, 9, 4]);
    assert_eq!(a.common_parent(&b).route, vec![1, 2]);
    assert_eq!(b.common_parent(&a).route, vec![1, 2]);
    let c = sid(&[1, 2, 7, 8]);
    assert_eq!(a.common_parent(&c).route, vec![1, 2, 7]);
    let d = sid(&[5]);
    assert_eq!(a.common_parent(&d).route, Vec::<u64>::new());
}

#[test]
fn down_is_next_hop() {
    let dest = sid(&[1, 2, 3, 4]);
    let here = sid(&[1, 2]);
    assert_eq!(dest.down(&here).unwrap().route, vec![1, 2, 3]);
    assert!(here.down(&dest).is_none());
    assert!(here.down(&here).is_none());
}

#[test]
fn bottomup_is_upward_only() {
    // an ancestor sending to a descendant is not bottom-up
    assert!(!is_bottomup(&sid(&[1]), &sid(&[1, 2])));
    // a child sending to its parent is
    assert!(is_bottomup(&sid(&[1, 2]), &sid(&[1])));
    // a sibling-to-sibling message must first travel upward
    assert!(is_bottomup(&sid(&[1, 2]), &sid(&[1, 3])));
    // a subnet talking to itself is not bottom-up
    assert!(!is_bottomup(&sid(&[1, 2]), &sid(&[1, 2])));
}

fn msg(from: &[u64], fraw: u64, to: &[u64], traw: u64) -> StorableMsg {
    StorableMsg {
        from: ipc_actors::address::IPCAddress { subnet: sid(from), raw: fraw },
        to: ipc_actors::address::IPCAddress { subnet: sid(to), raw: traw },
        method: 0,
        params: Vec::new(),
        value: 0,
        nonce: 0,
    }
}

#[test]
fn apply_type_classifies_by_network() {
    // fund-shaped message at its destination: top-down
    let m = msg(&[1], 7, &[1, 2], 7);
    assert_eq!(m.apply_type(&sid(&[1, 2])).unwrap(), IPCMsgType::TopDown);
    // the same message on a mid-path hop: still top-down
    let deep = msg(&[1], 7, &[1, 2, 3], 7);
    assert_eq!(deep.apply_type(&sid(&[1, 2])).unwrap(), IPCMsgType::TopDown);
    // release-shaped message anywhere: bottom-up
    let r = msg(&[1, 2], 7, &[1], 7);
    assert_eq!(r.apply_type(&sid(&[1])).unwrap(), IPCMsgType::BottomUp);
    // sibling-to-sibling: bottom-up wherever it is applied
    let s = msg(&[1, 2], 7, &[1, 3], 7);
    assert_eq!(s.apply_type(&sid(&[1])).unwrap(), IPCMsgType::BottomUp);
    assert_eq!(s.apply_type(&sid(&[1, 3])).unwrap(), IPCMsgType::BottomUp);
    // a top-down message applied on an unrelated network is malformed
    let w = msg(&[1], 7, &[1, 2], 7);
    assert!(w.apply_type(&sid(&[9])).is_err());
}

#[test]
fn checkpoint_cids_are_content_addressed() {
    let ch1 = ipc_actors::checkpoint::Checkpoint::new(&sid(&[1, 2]), 10);
    let ch2 = ipc_actors::checkpoint::Checkpoint::new(&sid(&[1, 2]), 20);
    let c1 = ch1.cid();
    let c1_again = ch1.cid();
    let c2 = ch2.cid();
    assert_eq!(c1, c1_again);
    assert_ne!(c1, c2);
    assert_eq!(c1.len(), 64);
}
