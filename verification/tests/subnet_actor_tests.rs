use ipc_actors::address::SubnetID;
use ipc_actors::checkpoint::Checkpoint;
use ipc_actors::errors::ActorError;
use ipc_actors::gateway::Method;
use ipc_actors::subnet_actor::{
    Actor, ConstructParams, JoinParams, PayloadParams, State, Status,
};
use ipc_actors::MIN_COLLATERAL_AMOUNT;

fn sid(route: &[u64]) -> SubnetID {
    SubnetID { route: route.to_vec() }
}

const GATEWAY: u64 = 64;

fn subnet() -> State {
    State::new(ConstructParams {
        parent: sid(&[1]),
        name: "testnet".to_string(),
        consensus: 0,
        min_validator_stake: 1,
        check_period: 10,
        genesis: Vec::new(),
        ipc_gateway_addr: GATEWAY,
    })
}

fn jp(addr: &str) -> JoinParams {
    JoinParams { validator_net_addr: addr.to_string() }
}

#[test]
fn join_reaches_register_threshold_on_second_join() {
    let mut st = subnet();
    // first join with half the collateral: no send to the gateway yet
    let p1 = Actor::join(&mut st, 10, jp("n1"), MIN_COLLATERAL_AMOUNT / 2).unwrap();
    assert!(p1.is_none());
    assert!(matches!(st.status, Status::Instantiated));
    assert_eq!(st.total_stake, MIN_COLLATERAL_AMOUNT / 2);
    // second join crosses the threshold: Register carries the whole stake
    let p2 = Actor::join(&mut st, 11, jp("n2"), MIN_COLLATERAL_AMOUNT / 2).unwrap().unwrap();
    assert_eq!(p2.to, GATEWAY);
    assert_eq!(p2.method, Method::Register);
    assert!(p2.params.is_none());
    assert_eq!(p2.value, MIN_COLLATERAL_AMOUNT);
    assert!(matches!(st.status, Status::Active));
    assert_eq!(st.validator_set.len(), 2);
    // later joins only add stake
    let p3 = Actor::join(&mut st, 12, jp("n3"), 7).unwrap().unwrap();
    assert_eq!(p3.method, Method::AddStake);
    assert_eq!(p3.value, 7);
    // a zero join is rejected
    assert!(matches!(Actor::join(&mut st, 13, jp("n4"), 0), Err(ActorError::IllegalArgument)));
}

#[test]
fn leave_returns_stake_and_removes_validator() {
    let mut st = subnet();
    Actor::join(&mut st, 10, jp("n1"), MIN_COLLATERAL_AMOUNT).unwrap();
    Actor::join(&mut st, 11, jp("n2"), 5).unwrap();
    assert_eq!(st.validator_set.len(), 2);
    let p = Actor::leave(&mut st, 11).unwrap().unwrap();
    assert_eq!(p.method, Method::ReleaseStake);
    match p.params {
        Some(PayloadParams::Fund(f)) => assert_eq!(f.value, 5),
        _ => panic!("expected release parameters"),
    }
    assert_eq!(st.validator_set.len(), 1);
    assert_eq!(st.total_stake, MIN_COLLATERAL_AMOUNT);
    assert_eq!(st.get_stake(11), 0);
    // leaving twice is rejected: the stake is already zero
    assert!(matches!(Actor::leave(&mut st, 11), Err(ActorError::IllegalState)));
}

#[test]
fn kill_only_after_everyone_left() {
    let mut st = subnet();
    Actor::join(&mut st, 10, jp("n1"), 5).unwrap();
    // a non-zero balance blocks the kill
    assert!(matches!(Actor::kill(&mut st, 1), Err(ActorError::IllegalState)));
    // remaining validators block the kill
    assert!(matches!(Actor::kill(&mut st, 0), Err(ActorError::IllegalState)));
    Actor::leave(&mut st, 10).unwrap();
    let p = Actor::kill(&mut st, 0).unwrap();
    assert_eq!(p.method, Method::Kill);
    assert!(matches!(st.status, Status::Terminating));
    // killing twice is rejected
    assert!(matches!(Actor::kill(&mut st, 0), Err(ActorError::IllegalState)));
}

const SELF_ADDR: u64 = 5;

fn checkpoint(epoch: u64) -> Checkpoint {
    Checkpoint {
        source: sid(&[1, SELF_ADDR]),
        epoch,
        prev_check: Vec::new(),
        cross_msgs: None,
        children: Vec::new(),
    }
}

#[test]
fn quorum_is_two_thirds_of_stake() {
    let mut st = subnet();
    Actor::join(&mut st, 1, jp("v1"), 40).unwrap();
    Actor::join(&mut st, 2, jp("v2"), 40).unwrap();
    Actor::join(&mut st, 3, jp("v3"), 20).unwrap();
    let ch = checkpoint(10);
    // votes of v1 and v3 carry 60 of 100: stored, no commit
    let r1 = Actor::submit_checkpoint(&mut st, 1, SELF_ADDR, ch).unwrap();
    assert!(r1.is_none());
    let r3 = Actor::submit_checkpoint(&mut st, 3, SELF_ADDR, checkpoint(10)).unwrap();
    assert!(r3.is_none());
    assert_eq!(st.window_checks.len(), 1);
    assert_eq!(st.window_checks[0].validators, vec![1, 3]);
    // the same validator cannot vote twice
    assert!(matches!(
        Actor::submit_checkpoint(&mut st, 1, SELF_ADDR, checkpoint(10)),
        Err(ActorError::IllegalState)
    ));
    // v2 brings the weight to 100 of 100: flush and commit
    let r2 = Actor::submit_checkpoint(&mut st, 2, SELF_ADDR, checkpoint(10)).unwrap().unwrap();
    assert_eq!(r2.method, Method::CommitChildCheckpoint);
    match r2.params {
        Some(PayloadParams::Checkpoint(c)) => assert_eq!(c.epoch, 10),
        _ => panic!("expected the checkpoint in the payload"),
    }
    // the votes are purged and the checkpoint is committed locally
    assert_eq!(st.window_checks.len(), 0);
    assert_eq!(st.checkpoints.len(), 1);
    assert_eq!(st.checkpoints[0].epoch, 10);
    // a late vote for the committed checkpoint no longer fits the window
    assert!(matches!(
        Actor::submit_checkpoint(&mut st, 3, SELF_ADDR, checkpoint(10)),
        Err(ActorError::IllegalState)
    ));
}

#[test]
fn submit_checkpoint_verifies_source_epoch_and_linkage() {
    let mut st = subnet();
    Actor::join(&mut st, 1, jp("v1"), 100).unwrap();
    // a non-validator cannot vote
    assert!(matches!(
        Actor::submit_checkpoint(&mut st, 9, SELF_ADDR, checkpoint(10)),
        Err(ActorError::IllegalState)
    ));
    // wrong source subnet
    let mut bad_src = checkpoint(10);
    bad_src.source = sid(&[1, 7]);
    assert!(matches!(
        Actor::submit_checkpoint(&mut st, 1, SELF_ADDR, bad_src),
        Err(ActorError::IllegalState)
    ));
    // wrong epoch: the first expected window is the checkpoint period
    assert!(matches!(
        Actor::submit_checkpoint(&mut st, 1, SELF_ADDR, checkpoint(11)),
        Err(ActorError::IllegalState)
    ));
    // one validator with all the stake commits alone
    let first = Actor::submit_checkpoint(&mut st, 1, SELF_ADDR, checkpoint(10)).unwrap();
    assert!(first.is_some());
    let prev_cid = st.prev_checkpoint.as_ref().unwrap().cid();
    // the successor must name the committed checkpoint
    let mut unlinked = checkpoint(20);
    unlinked.prev_check = vec![1, 2, 3];
    assert!(matches!(
        Actor::submit_checkpoint(&mut st, 1, SELF_ADDR, unlinked),
        Err(ActorError::IllegalState)
    ));
    let mut linked = checkpoint(20);
    linked.prev_check = prev_cid;
    assert!(Actor::submit_checkpoint(&mut st, 1, SELF_ADDR, linked).unwrap().is_some());
    assert_eq!(st.checkpoints.len(), 2);
}

#[test]
fn reward_distributes_evenly() {
    let mut st = subnet();
    Actor::join(&mut st, 1, jp("v1"), 40).unwrap();
    Actor::join(&mut st, 2, jp("v2"), 40).unwrap();
    Actor::join(&mut st, 3, jp("v3"), 20).unwrap();
    let shares = Actor::reward(&st, 100).unwrap();
    assert_eq!(shares.len(), 3);
    for (i, s) in shares.iter().enumerate() {
        assert_eq!(s.addr, st.validator_set[i].addr);
        assert_eq!(s.amount, 33);
    }
    assert!(matches!(Actor::reward(&st, 0), Err(ActorError::IllegalArgument)));
    let empty = subnet();
    assert!(matches!(Actor::reward(&empty, 5), Err(ActorError::IllegalState)));
}

#[test]
fn join_register_payload_flows_to_gateway() {
    // the subnet actor gathers collateral, and its Register payload,
    // delivered by the host, creates an active registry entry
    let mut st = subnet();
    assert!(Actor::join(&mut st, 10, jp("n1"), MIN_COLLATERAL_AMOUNT / 2).unwrap().is_none());
    let p = Actor::join(&mut st, 11, jp("n2"), MIN_COLLATERAL_AMOUNT / 2).unwrap().unwrap();
    let mut gw = ipc_actors::gateway::State::new(ipc_actors::gateway::ConstructorParams {
        network_name: sid(&[1]),
        checkpoint_period: 10,
    });
    let shid = ipc_actors::gateway::Actor::register(&mut gw, SELF_ADDR, p.value).unwrap();
    assert_eq!(shid.route, vec![1, SELF_ADDR]);
    assert_eq!(gw.subnets[0].stake, MIN_COLLATERAL_AMOUNT);
    assert!(matches!(gw.subnets[0].status, ipc_actors::gateway::Status::Active));
}
