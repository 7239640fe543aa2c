use ipc_actors::address::{IPCAddress, SubnetID};
use ipc_actors::checkpoint::{Checkpoint, CrossMsgMeta};
use ipc_actors::cross::{CrossMsg, StorableMsg};
use ipc_actors::errors::ActorError;
use ipc_actors::gateway::{Actor, ApplyOutcome, ConstructorParams, CrossMsgParams, State, Status};
use ipc_actors::{CROSS_MSG_FEE, MIN_COLLATERAL_AMOUNT};

fn sid(route: &[u64]) -> SubnetID {
    SubnetID { route: route.to_vec() }
}

fn gateway(route: &[u64]) -> State {
    State::new(ConstructorParams { network_name: sid(route), checkpoint_period: 10 })
}

fn plain_msg(from: &[u64], fraw: u64, to: &[u64], traw: u64, value: u64) -> CrossMsg {
    CrossMsg {
        msg: StorableMsg {
            from: IPCAddress { subnet: sid(from), raw: fraw },
            to: IPCAddress { subnet: sid(to), raw: traw },
            method: 0,
            params: Vec::new(),
            value,
            nonce: 0,
        },
        wrapped: false,
    }
}

#[test]
fn register_threshold_and_duplicate() {
    let mut gw = gateway(&[1]);
    let shid = Actor::register(&mut gw, 2, MIN_COLLATERAL_AMOUNT).unwrap();
    assert_eq!(shid.route, vec![1, 2]);
    assert_eq!(gw.subnets.len(), 1);
    assert_eq!(gw.subnets[0].stake, MIN_COLLATERAL_AMOUNT);
    assert!(matches!(gw.subnets[0].status, Status::Active));
    // a second registration by the same actor is rejected
    assert!(matches!(
        Actor::register(&mut gw, 2, MIN_COLLATERAL_AMOUNT),
        Err(ActorError::IllegalArgument)
    ));
    // an under-collateralized subnet registers inactive
    let shid3 = Actor::register(&mut gw, 3, MIN_COLLATERAL_AMOUNT / 2).unwrap();
    assert_eq!(shid3.route, vec![1, 3]);
    assert!(matches!(gw.subnets[1].status, Status::Inactive));
    assert_eq!(gw.total_subnets, 2);
}

#[test]
fn stake_moves_status_across_threshold() {
    let mut gw = gateway(&[1]);
    Actor::register(&mut gw, 2, MIN_COLLATERAL_AMOUNT / 2).unwrap();
    assert!(matches!(gw.subnets[0].status, Status::Inactive));
    Actor::add_stake(&mut gw, 2, MIN_COLLATERAL_AMOUNT / 2).unwrap();
    assert!(matches!(gw.subnets[0].status, Status::Active));
    assert_eq!(gw.subnets[0].stake, MIN_COLLATERAL_AMOUNT);
    // zero stake is rejected
    assert!(matches!(Actor::add_stake(&mut gw, 2, 0), Err(ActorError::IllegalArgument)));
    // releasing drops below the threshold again
    Actor::release_stake(&mut gw, 2, 1, u64::MAX).unwrap();
    assert!(matches!(gw.subnets[0].status, Status::Inactive));
    // more than the collateral cannot be released
    assert!(matches!(
        Actor::release_stake(&mut gw, 2, MIN_COLLATERAL_AMOUNT, u64::MAX),
        Err(ActorError::IllegalState)
    ));
}

#[test]
fn fund_with_value_equal_to_fee_is_insufficient() {
    let mut gw = gateway(&[1]);
    Actor::register(&mut gw, 2, MIN_COLLATERAL_AMOUNT).unwrap();
    assert!(matches!(
        Actor::fund(&mut gw, 77, &sid(&[1, 2]), CROSS_MSG_FEE),
        Err(ActorError::InsufficientFunds)
    ));
    assert!(matches!(Actor::fund(&mut gw, 77, &sid(&[1, 2]), 0), Err(ActorError::IllegalArgument)));
}

#[test]
fn release_with_value_equal_to_fee_is_insufficient() {
    let mut child = gateway(&[1, 2]);
    assert!(matches!(
        Actor::release(&mut child, 77, CROSS_MSG_FEE, 3),
        Err(ActorError::InsufficientFunds)
    ));
}

#[test]
fn topdown_happy_path() {
    // parent gateway funds the child /root/sub with 1000 nano
    let mut gw = gateway(&[1]);
    Actor::register(&mut gw, 2, MIN_COLLATERAL_AMOUNT).unwrap();
    let fee = Actor::fund(&mut gw, 77, &sid(&[1, 2]), 1000).unwrap();
    assert_eq!(fee, CROSS_MSG_FEE);
    let sub = &gw.subnets[0];
    assert_eq!(sub.topdown_msgs.len(), 1);
    let m = &sub.topdown_msgs[0].msg;
    assert_eq!(m.value, 900);
    assert_eq!(m.nonce, 0);
    assert_eq!(m.to.raw, 77);
    assert_eq!(m.to.subnet.route, vec![1, 2]);
    assert_eq!(sub.circ_supply, 900);
    assert_eq!(sub.nonce, 1);

    // the child gateway applies the message at the matching nonce
    let mut child = gateway(&[1, 2]);
    let out = Actor::apply_msg(&mut child, gw.subnets[0].topdown_msgs[0].dup()).unwrap();
    match out {
        ApplyOutcome::Deliver { to, value, mint, .. } => {
            assert_eq!(to, 77);
            assert_eq!(value, 900);
            assert_eq!(mint, 900);
        },
        _ => panic!("expected a local delivery"),
    }
    assert_eq!(child.applied_topdown_nonce, 1);

    // a repeat of the same nonce is a gap in the discipline
    assert!(matches!(
        Actor::apply_msg(&mut child, gw.subnets[0].topdown_msgs[0].dup()),
        Err(ActorError::IllegalState)
    ));
}

#[test]
fn release_then_apply_on_parent() {
    // the child gateway schedules a release of 1000 nano
    let mut child = gateway(&[1, 2]);
    let burn = Actor::release(&mut child, 77, 1000, 3).unwrap();
    assert_eq!(burn, 900);
    assert_eq!(child.nonce, 1);
    assert_eq!(child.check_msg_registry.len(), 1);
    let bundled = &child.check_msg_registry[0].msgs;
    assert_eq!(bundled.len(), 1);
    let m = &bundled[0].msg;
    assert_eq!(m.value, 900);
    assert_eq!(m.nonce, 0);
    assert_eq!(m.from.subnet.route, vec![1, 2]);
    assert_eq!(m.to.subnet.route, vec![1]);
    // the window checkpoint's summary accumulates value and fee
    let window = child.get_window_checkpoint(3);
    let meta = window.cross_msgs.as_ref().unwrap();
    assert_eq!(meta.value, 900);
    assert_eq!(meta.fee, CROSS_MSG_FEE);

    // the parent applies the bottom-up message: 900 nano reach the account
    let mut parent = gateway(&[1]);
    let out = Actor::apply_msg(&mut parent, bundled[0].dup()).unwrap();
    match out {
        ApplyOutcome::Deliver { to, value, mint, .. } => {
            assert_eq!(to, 77);
            assert_eq!(value, 900);
            assert_eq!(mint, 0);
        },
        _ => panic!("expected a local delivery"),
    }
    assert_eq!(parent.applied_bottomup_nonce, 1);
}

#[test]
fn kill_guarded_by_circulating_supply() {
    let mut gw = gateway(&[1]);
    Actor::register(&mut gw, 2, MIN_COLLATERAL_AMOUNT).unwrap();
    Actor::fund(&mut gw, 77, &sid(&[1, 2]), 1000).unwrap();
    assert_eq!(gw.subnets[0].circ_supply, 900);
    // a subnet that still holds user funds cannot be killed
    assert!(matches!(Actor::kill(&mut gw, 2, u64::MAX), Err(ActorError::IllegalState)));
    // draining: the child commits a checkpoint whose bundle releases 900
    let commit = Checkpoint {
        source: sid(&[1, 2]),
        epoch: 10,
        prev_check: Vec::new(),
        cross_msgs: Some(CrossMsgMeta { msgs_cid: Vec::new(), nonce: 0, value: 900, fee: 0 }),
        children: Vec::new(),
    };
    let fee = Actor::commit_child_check(&mut gw, 2, commit, 10).unwrap();
    assert_eq!(fee, 0);
    assert_eq!(gw.subnets[0].circ_supply, 0);
    // now the kill succeeds and the collateral comes back
    let returned = Actor::kill(&mut gw, 2, u64::MAX).unwrap();
    assert_eq!(returned, MIN_COLLATERAL_AMOUNT);
    assert_eq!(gw.subnets.len(), 0);
    assert_eq!(gw.total_subnets, 0);
}

#[test]
fn checkpoint_with_wrong_prev_check_is_rejected() {
    let mut gw = gateway(&[1]);
    Actor::register(&mut gw, 2, MIN_COLLATERAL_AMOUNT).unwrap();
    let ch1 = Checkpoint {
        source: sid(&[1, 2]),
        epoch: 10,
        prev_check: Vec::new(),
        cross_msgs: None,
        children: Vec::new(),
    };
    let c1 = ch1.cid();
    Actor::commit_child_check(&mut gw, 2, ch1, 10).unwrap();
    // a successor that does not name the previous checkpoint is rejected
    let bad = Checkpoint {
        source: sid(&[1, 2]),
        epoch: 20,
        prev_check: vec![9, 9, 9],
        cross_msgs: None,
        children: Vec::new(),
    };
    assert!(matches!(Actor::commit_child_check(&mut gw, 2, bad, 20), Err(ActorError::IllegalArgument)));
    // one that does, and moves forward in time, is accepted
    let good = Checkpoint {
        source: sid(&[1, 2]),
        epoch: 20,
        prev_check: c1.clone(),
        cross_msgs: None,
        children: Vec::new(),
    };
    Actor::commit_child_check(&mut gw, 2, good, 20).unwrap();
    // going back in time is rejected
    let past = Checkpoint {
        source: sid(&[1, 2]),
        epoch: 15,
        prev_check: c1,
        cross_msgs: None,
        children: Vec::new(),
    };
    assert!(matches!(Actor::commit_child_check(&mut gw, 2, past, 25), Err(ActorError::IllegalArgument)));
}

#[test]
fn duplicate_source_in_one_window_is_rejected() {
    let mut gw = gateway(&[1]);
    Actor::register(&mut gw, 2, MIN_COLLATERAL_AMOUNT).unwrap();
    let ch1 = Checkpoint {
        source: sid(&[1, 2]),
        epoch: 10,
        prev_check: Vec::new(),
        cross_msgs: None,
        children: Vec::new(),
    };
    let c1 = ch1.cid();
    Actor::commit_child_check(&mut gw, 2, ch1, 13).unwrap();
    // same window (epochs 13 and 17 share the window of period 10)
    let ch2 = Checkpoint {
        source: sid(&[1, 2]),
        epoch: 20,
        prev_check: c1,
        cross_msgs: None,
        children: Vec::new(),
    };
    assert!(matches!(Actor::commit_child_check(&mut gw, 2, ch2, 17), Err(ActorError::IllegalArgument)));
}

#[test]
fn sibling_message_turns_around_at_common_parent() {
    // a message from /root/2 to /root/3 is parked at /root, propagated,
    // and delivered at /root/3
    let mut root = gateway(&[1]);
    Actor::register(&mut root, 2, MIN_COLLATERAL_AMOUNT).unwrap();
    Actor::register(&mut root, 3, MIN_COLLATERAL_AMOUNT).unwrap();
    let m = plain_msg(&[1, 2], 50, &[1, 3], 60, 500);
    let out = Actor::apply_msg(&mut root, m).unwrap();
    let cid = match out {
        ApplyOutcome::Park { postbox_cid, mint } => {
            assert_eq!(mint, 0);
            postbox_cid
        },
        _ => panic!("expected the message to be parked"),
    };
    assert_eq!(root.postbox.len(), 1);
    // the sender's account owns the parked entry
    let p = Actor::propagate(&mut root, 50, &cid, 200, 4).unwrap();
    assert_eq!(p.top_down_fee, CROSS_MSG_FEE);
    assert!(!p.do_burn);
    assert_eq!(p.remainder, 100);
    // the turn: it is now queued top-down toward /root/3
    let sub3 = &root.subnets[1];
    assert_eq!(sub3.topdown_msgs.len(), 1);
    assert_eq!(sub3.topdown_msgs[0].msg.value, 500);
    assert_eq!(sub3.circ_supply, 500);
    // the postbox entry is gone, and the key cannot be propagated again
    assert_eq!(root.postbox.len(), 0);
    assert!(matches!(
        Actor::propagate(&mut root, 50, &cid, 200, 4),
        Err(ActorError::IllegalState)
    ));
    // delivery at the destination gateway
    let mut dest = gateway(&[1, 3]);
    let out = Actor::apply_msg(&mut dest, root.subnets[1].topdown_msgs[0].dup()).unwrap();
    match out {
        ApplyOutcome::Deliver { to, value, .. } => {
            assert_eq!(to, 60);
            assert_eq!(value, 500);
        },
        _ => panic!("expected a local delivery"),
    }
    assert_eq!(dest.applied_bottomup_nonce, 1);
}

#[test]
fn postbox_whitelist_admits_new_propagator() {
    let mut root = gateway(&[1]);
    Actor::register(&mut root, 2, MIN_COLLATERAL_AMOUNT).unwrap();
    Actor::register(&mut root, 3, MIN_COLLATERAL_AMOUNT).unwrap();
    // parked with owners = {alice}
    let alice = 50;
    let bob = 99;
    let m = plain_msg(&[1, 2], alice, &[1, 3], 60, 500);
    let cid = match Actor::apply_msg(&mut root, m).unwrap() {
        ApplyOutcome::Park { postbox_cid, .. } => postbox_cid,
        _ => panic!("expected the message to be parked"),
    };
    // bob is not an owner
    assert!(matches!(
        Actor::propagate(&mut root, bob, &cid, 200, 4),
        Err(ActorError::IllegalState)
    ));
    // bob cannot whitelist himself
    assert!(matches!(
        Actor::whitelist_propagator(&mut root, bob, &cid, vec![bob]),
        Err(ActorError::IllegalState)
    ));
    // alice whitelists bob; bob propagates and gets the remainder back
    Actor::whitelist_propagator(&mut root, alice, &cid, vec![bob]).unwrap();
    let p = Actor::propagate(&mut root, bob, &cid, 150, 4).unwrap();
    assert_eq!(p.remainder, 50);
    assert_eq!(root.postbox.len(), 0);
    // an unknown key cannot be whitelisted either
    assert!(matches!(
        Actor::whitelist_propagator(&mut root, alice, &cid, vec![7]),
        Err(ActorError::IllegalState)
    ));
}

#[test]
fn send_cross_rewrites_and_routes() {
    let mut root = gateway(&[1]);
    Actor::register(&mut root, 3, MIN_COLLATERAL_AMOUNT).unwrap();
    let caller = 200;
    let params = CrossMsgParams {
        cross_msg: plain_msg(&[9], 1, &[9], 60, 300),
        destination: sid(&[1, 3]),
    };
    // the attached value must match the message's value
    let params_bad = CrossMsgParams {
        cross_msg: plain_msg(&[9], 1, &[9], 60, 300),
        destination: sid(&[1, 3]),
    };
    assert!(matches!(
        Actor::send_cross(&mut root, caller, params_bad, 299, 4),
        Err(ActorError::IllegalArgument)
    ));
    let (m, do_burn, fee) = Actor::send_cross(&mut root, caller, params, 300, 4).unwrap();
    assert!(!do_burn);
    assert_eq!(fee, CROSS_MSG_FEE);
    assert_eq!(m.msg.from.subnet.route, vec![1]);
    assert_eq!(m.msg.from.raw, caller);
    assert_eq!(m.msg.to.subnet.route, vec![1, 3]);
    assert_eq!(m.msg.to.raw, 60);
    assert_eq!(m.msg.value, 200);
    assert_eq!(root.subnets[0].topdown_msgs.len(), 1);
    // the current network is never a cross destination
    let params_self = CrossMsgParams {
        cross_msg: plain_msg(&[9], 1, &[9], 60, 300),
        destination: sid(&[1]),
    };
    assert!(matches!(
        Actor::send_cross(&mut root, caller, params_self, 300, 4),
        Err(ActorError::IllegalArgument)
    ));
}

#[test]
fn send_cross_upward_burns_value() {
    // an actor on /root/2 sends to /root/9 (not registered below /root/2):
    // the message must travel upward, so its value is burned locally
    let mut gw = gateway(&[1, 2]);
    let params = CrossMsgParams {
        cross_msg: plain_msg(&[9], 1, &[9], 60, 300),
        destination: sid(&[1, 9]),
    };
    let (m, do_burn, fee) = Actor::send_cross(&mut gw, 200, params, 300, 4).unwrap();
    assert!(do_burn);
    assert_eq!(fee, 0);
    assert_eq!(m.msg.value, 200);
    assert_eq!(m.msg.nonce, 0);
    let window = gw.get_window_checkpoint(4);
    assert_eq!(window.cross_msgs.as_ref().unwrap().value, 200);
}
