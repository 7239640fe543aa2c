//! The gateway actor: subnet registry, checkpoint ledger, cross-message
//! engine and postbox.

use crate::address::{
    common_parent_route, is_strict_prefix, route_contains, IPCAddress, SubnetID,
};
use crate::checkpoint::{
    checkpoint_cid, has_child_source, window_epoch, window_of, Checkpoint, CheckpointV,
    ChildCheckV, CrossMsgMeta, CrossMsgMetaV,
};
use crate::cross::{
    apply_type_route, enc_cross_msg, enc_cross_msg_list, is_fund_msg, is_release_msg,
    lemma_fund_msg_applies_topdown, lemma_release_msg_applies_bottomup, push_cross_msg,
    push_cross_msg_list, CrossMsg, CrossMsgV, IPCMsgType, StorableMsg, StorableMsgV, METHOD_SEND,
};
use crate::address::IPCAddressV;
use crate::errors::ActorError;
use crate::encode::{bytes_dup, bytes_eq, enc_route, push_u64s};
use crate::hashing::{blake2b_digest, digest_of};
use crate::{CROSS_MSG_FEE, MIN_COLLATERAL_AMOUNT};
use vstd::prelude::*;

verus! {

/// Lifecycle status of a registered subnet.
#[derive(Clone, Copy, Debug, PartialEq, Eq, Structural)]
pub enum Status {
    Active,
    Inactive,
    Killed,
}

/// A registry entry: one immediate child subnet, with its collateral, its
/// top-down message queue, and the supply circulating inside it.
pub struct Subnet {
    pub id: SubnetID,
    pub stake: u64,
    pub topdown_msgs: Vec<CrossMsg>,
    pub nonce: u64,
    pub circ_supply: u64,
    pub status: Status,
    pub prev_checkpoint: Option<Checkpoint>,
}

/// Spec-level value of a registry entry.
#[verifier::ext_equal]
pub ghost struct SubnetV {
    pub id: Seq<u64>,
    pub stake: u64,
    pub topdown_msgs: Seq<CrossMsgV>,
    pub nonce: u64,
    pub circ_supply: u64,
    pub status: Status,
    pub prev_checkpoint: Option<CheckpointV>,
}

impl View for Subnet {
    type V = SubnetV;

    open spec fn view(&self) -> SubnetV {
        SubnetV {
            id: self.id.route@,
            stake: self.stake,
            topdown_msgs: self.topdown_msgs@.map_values(|c: CrossMsg| c@),
            nonce: self.nonce,
            circ_supply: self.circ_supply,
            status: self.status,
            prev_checkpoint: match self.prev_checkpoint {
                Some(c) => Some(c@),
                None => None,
            },
        }
    }
}

/// A cross-message parked in the postbox together with the addresses that
/// may propagate it.
pub struct PostBoxItem {
    pub cross_msg: CrossMsg,
    pub owners: Option<Vec<u64>>,
}

/// Spec-level value of a postbox item.
#[verifier::ext_equal]
pub ghost struct PostBoxItemV {
    pub cross_msg: CrossMsgV,
    pub owners: Option<Seq<u64>>,
}

impl View for PostBoxItem {
    type V = PostBoxItemV;

    open spec fn view(&self) -> PostBoxItemV {
        PostBoxItemV {
            cross_msg: self.cross_msg@,
            owners: match self.owners {
                Some(ref o) => Some(o@),
                None => None,
            },
        }
    }
}

/// A postbox entry, keyed by the content identifier of its item.
pub struct PostboxEntry {
    pub cid: Vec<u8>,
    pub item: PostBoxItem,
}

/// Spec-level value of a postbox entry.
#[verifier::ext_equal]
pub ghost struct PostboxEntryV {
    pub cid: Seq<u8>,
    pub item: PostBoxItemV,
}

impl View for PostboxEntry {
    type V = PostboxEntryV;

    open spec fn view(&self) -> PostboxEntryV {
        PostboxEntryV { cid: self.cid@, item: self.item@ }
    }
}

/// A ledger entry: the window checkpoint under construction for one epoch.
pub struct CheckpointEntry {
    pub epoch: u64,
    pub checkpoint: Checkpoint,
}

/// Spec-level value of a ledger entry.
#[verifier::ext_equal]
pub ghost struct CheckpointEntryV {
    pub epoch: u64,
    pub checkpoint: CheckpointV,
}

impl View for CheckpointEntry {
    type V = CheckpointEntryV;

    open spec fn view(&self) -> CheckpointEntryV {
        CheckpointEntryV { epoch: self.epoch, checkpoint: self.checkpoint@ }
    }
}

/// The bottom-up messages bundled into one window, keyed by window epoch.
pub struct MsgsRegistryEntry {
    pub epoch: u64,
    pub msgs: Vec<CrossMsg>,
}

/// Spec-level value of a bundle entry.
#[verifier::ext_equal]
pub ghost struct MsgsRegistryEntryV {
    pub epoch: u64,
    pub msgs: Seq<CrossMsgV>,
}

impl View for MsgsRegistryEntry {
    type V = MsgsRegistryEntryV;

    open spec fn view(&self) -> MsgsRegistryEntryV {
        MsgsRegistryEntryV { epoch: self.epoch, msgs: self.msgs@.map_values(|c: CrossMsg| c@) }
    }
}

/// The gateway's persistent state.
pub struct State {
    pub network_name: SubnetID,
    pub min_stake: u64,
    pub check_period: u64,
    pub total_subnets: u64,
    pub subnets: Vec<Subnet>,
    pub checkpoints: Vec<CheckpointEntry>,
    pub check_msg_registry: Vec<MsgsRegistryEntry>,
    pub postbox: Vec<PostboxEntry>,
    pub bottomup_msg_meta: Vec<CrossMsgMeta>,
    pub nonce: u64,
    pub bottomup_nonce: u64,
    pub applied_bottomup_nonce: u64,
    pub applied_topdown_nonce: u64,
}

/// Spec-level value of the gateway state.
#[verifier::ext_equal]
pub ghost struct StateV {
    pub network_name: Seq<u64>,
    pub min_stake: u64,
    pub check_period: u64,
    pub total_subnets: u64,
    pub subnets: Seq<SubnetV>,
    pub checkpoints: Seq<CheckpointEntryV>,
    pub check_msg_registry: Seq<MsgsRegistryEntryV>,
    pub postbox: Seq<PostboxEntryV>,
    pub bottomup_msg_meta: Seq<CrossMsgMetaV>,
    pub nonce: u64,
    pub bottomup_nonce: u64,
    pub applied_bottomup_nonce: u64,
    pub applied_topdown_nonce: u64,
}

impl View for State {
    type V = StateV;

    open spec fn view(&self) -> StateV {
        StateV {
            network_name: self.network_name.route@,
            min_stake: self.min_stake,
            check_period: self.check_period,
            total_subnets: self.total_subnets,
            subnets: self.subnets@.map_values(|s: Subnet| s@),
            checkpoints: self.checkpoints@.map_values(|c: CheckpointEntry| c@),
            check_msg_registry: self.check_msg_registry@.map_values(|c: MsgsRegistryEntry| c@),
            postbox: self.postbox@.map_values(|p: PostboxEntry| p@),
            bottomup_msg_meta: self.bottomup_msg_meta@.map_values(|m: CrossMsgMeta| m@),
            nonce: self.nonce,
            bottomup_nonce: self.bottomup_nonce,
            applied_bottomup_nonce: self.applied_bottomup_nonce,
            applied_topdown_nonce: self.applied_topdown_nonce,
        }
    }
}

/// The identifier of the registry entry for the child of `network` whose
/// governing actor is `actor`.
pub open spec fn child_of(network: Seq<u64>, actor: u64) -> Seq<u64> {
    network + seq![actor]
}

/// Some registered subnet carries identifier `id`.
pub open spec fn has_subnet(subs: Seq<SubnetV>, id: Seq<u64>) -> bool {
    exists|i: int| 0 <= i < subs.len() && subs[i].id == id
}

/// The index of the registered subnet with identifier `id`.
pub open spec fn subnet_idx(subs: Seq<SubnetV>, id: Seq<u64>) -> int {
    choose|i: int| 0 <= i < subs.len() && subs[i].id == id
}

/// The registered subnet with identifier `id`.
pub open spec fn subnet_of(subs: Seq<SubnetV>, id: Seq<u64>) -> SubnetV {
    subs[subnet_idx(subs, id)]
}

/// No two registry entries share an identifier.
pub open spec fn unique_subnet_ids(subs: Seq<SubnetV>) -> bool {
    forall|i: int, j: int| 0 <= i < j < subs.len() ==> subs[i].id != subs[j].id
}

/// With unique identifiers, the index of a subnet is pinned by any witness.
pub proof fn lemma_subnet_idx(subs: Seq<SubnetV>, id: Seq<u64>, i: int)
    requires
        unique_subnet_ids(subs),
        0 <= i < subs.len(),
        subs[i].id == id,
    ensures
        subnet_idx(subs, id) == i,
        has_subnet(subs, id),
{
    assert(has_subnet(subs, id));
    let j = subnet_idx(subs, id);
    if j != i {
        if j < i {
            assert(subs[j].id != subs[i].id);
        } else {
            assert(subs[i].id != subs[j].id);
        }
    }
}

/// A registry entry is well formed relative to its gateway: its identifier
/// is one step below the gateway's network, its status reflects whether its
/// collateral reaches the minimum, and it is not killed in place (a killed
/// subnet leaves the registry).
pub open spec fn subnet_wf(sub: SubnetV, min_stake: u64, network: Seq<u64>) -> bool {
    &&& sub.id.len() == network.len() + 1
    &&& sub.id.subrange(0, network.len() as int) == network
    &&& (sub.status == Status::Active <==> sub.stake >= min_stake)
}

/// No two ledger entries describe the same epoch.
pub open spec fn unique_epochs(cks: Seq<CheckpointEntryV>) -> bool {
    forall|i: int, j: int| 0 <= i < j < cks.len() ==> cks[i].epoch != cks[j].epoch
}

/// No two bundle entries describe the same epoch.
pub open spec fn unique_registry_epochs(reg: Seq<MsgsRegistryEntryV>) -> bool {
    forall|i: int, j: int| 0 <= i < j < reg.len() ==> reg[i].epoch != reg[j].epoch
}

/// No two postbox entries share a key.
pub open spec fn unique_postbox_cids(pb: Seq<PostboxEntryV>) -> bool {
    forall|i: int, j: int| 0 <= i < j < pb.len() ==> pb[i].cid != pb[j].cid
}

/// Well-formedness of the gateway state: a positive checkpoint period, an
/// accurate subnet count, uniquely keyed containers, and well-formed
/// registry entries. For every registered subnet the stake is non-negative
/// by type, and the subnet is active exactly when its stake reaches the
/// minimum collateral.
pub open spec fn state_wf(s: StateV) -> bool {
    &&& s.check_period > 0
    &&& s.network_name.len() > 0
    &&& s.total_subnets == s.subnets.len()
    &&& unique_subnet_ids(s.subnets)
    &&& forall|i: int| 0 <= i < s.subnets.len() ==> subnet_wf(
        #[trigger] s.subnets[i],
        s.min_stake,
        s.network_name,
    )
    &&& unique_epochs(s.checkpoints)
    &&& unique_registry_epochs(s.check_msg_registry)
    &&& unique_postbox_cids(s.postbox)
}

/// Construction parameters of a gateway.
pub struct ConstructorParams {
    pub network_name: SubnetID,
    pub checkpoint_period: u64,
}

/// The registry entry created by `Register`.
pub open spec fn new_subnet_v(id: Seq<u64>, stake: u64, min_stake: u64) -> SubnetV {
    SubnetV {
        id,
        stake,
        topdown_msgs: Seq::<CrossMsgV>::empty(),
        nonce: 0,
        circ_supply: 0,
        status: if stake >= min_stake {
            Status::Active
        } else {
            Status::Inactive
        },
        prev_checkpoint: None,
    }
}

/// A registry entry with its collateral replaced and its status recomputed
/// against the minimum.
pub open spec fn with_stake(sub: SubnetV, stake: u64, min_stake: u64) -> SubnetV {
    SubnetV {
        stake,
        status: if stake >= min_stake {
            Status::Active
        } else {
            Status::Inactive
        },
        ..sub
    }
}

/// The state with the subnet at index `i` replaced.
pub open spec fn with_subnet(s: StateV, i: int, sub: SubnetV) -> StateV {
    StateV { subnets: s.subnets.update(i, sub), ..s }
}

/// The gateway actor: the method surface over the gateway state. The host
/// runtime resolves caller identities, moves attached value, and performs
/// the outbound sends that these methods return or imply; the methods
/// themselves are pure state transitions.
pub struct Actor;

impl State {
    /// The initial gateway state.
    pub fn new(params: ConstructorParams) -> (r: State)
        requires
            params.checkpoint_period > 0,
            params.network_name.route@.len() > 0,
        ensures
            r@ == (StateV {
                network_name: params.network_name.route@,
                min_stake: MIN_COLLATERAL_AMOUNT,
                check_period: params.checkpoint_period,
                total_subnets: 0,
                subnets: Seq::<SubnetV>::empty(),
                checkpoints: Seq::<CheckpointEntryV>::empty(),
                check_msg_registry: Seq::<MsgsRegistryEntryV>::empty(),
                postbox: Seq::<PostboxEntryV>::empty(),
                bottomup_msg_meta: Seq::<CrossMsgMetaV>::empty(),
                nonce: 0,
                bottomup_nonce: 0,
                applied_bottomup_nonce: 0,
                applied_topdown_nonce: 0,
            }),
            state_wf(r@),
    {
        let r = State {
            network_name: params.network_name,
            min_stake: MIN_COLLATERAL_AMOUNT,
            check_period: params.checkpoint_period,
            total_subnets: 0,
            subnets: Vec::new(),
            checkpoints: Vec::new(),
            check_msg_registry: Vec::new(),
            postbox: Vec::new(),
            bottomup_msg_meta: Vec::new(),
            nonce: 0,
            bottomup_nonce: 0,
            applied_bottomup_nonce: 0,
            applied_topdown_nonce: 0,
        };
        proof {
            assert(r@ =~= StateV {
                network_name: r.network_name.route@,
                min_stake: MIN_COLLATERAL_AMOUNT,
                check_period: r.check_period,
                total_subnets: 0,
                subnets: Seq::<SubnetV>::empty(),
                checkpoints: Seq::<CheckpointEntryV>::empty(),
                check_msg_registry: Seq::<MsgsRegistryEntryV>::empty(),
                postbox: Seq::<PostboxEntryV>::empty(),
                bottomup_msg_meta: Seq::<CrossMsgMetaV>::empty(),
                nonce: 0,
                bottomup_nonce: 0,
                applied_bottomup_nonce: 0,
                applied_topdown_nonce: 0,
            });
        }
        r
    }

    /// The index of the registry entry with identifier `id`.
    fn find_subnet(&self, id: &SubnetID) -> (r: Option<usize>)
        ensures
            match r {
                Some(i) => i < self@.subnets.len() && self@.subnets[i as int].id == id.route@,
                None => !has_subnet(self@.subnets, id.route@),
            },
    {
        let n = self.subnets.len();
        let mut i: usize = 0;
        while i < n
            invariant
                n == self.subnets@.len(),
                0 <= i <= n,
                forall|j: int| 0 <= j < i ==> self@.subnets[j].id != id.route@,
            decreases n - i,
        {
            if self.subnets[i].id.equals(id) {
                proof {
                    assert(self@.subnets[i as int].id == id.route@);
                }
                return Some(i);
            }
            i += 1;
        }
        None
    }
}

impl Actor {
    /// Register the subnet whose governing actor is `caller`, with the
    /// attached `value` as its initial collateral. A subnet that is already
    /// registered is rejected.
    pub fn register(st: &mut State, caller: u64, value: u64) -> (r: Result<SubnetID, ActorError>)
        requires
            state_wf(old(st)@),
            old(st)@.total_subnets < u64::MAX,
        ensures
            state_wf(final(st)@),
            has_subnet(old(st)@.subnets, child_of(old(st)@.network_name, caller)) ==> r == Err::<
                SubnetID,
                ActorError,
            >(ActorError::IllegalArgument) && final(st)@ == old(st)@,
            !has_subnet(old(st)@.subnets, child_of(old(st)@.network_name, caller)) ==> (r matches
            Ok(id) && id.route@ == child_of(old(st)@.network_name, caller) && final(st)@ == (StateV {
                subnets: old(st)@.subnets.push(
                    new_subnet_v(
                        child_of(old(st)@.network_name, caller),
                        value,
                        old(st)@.min_stake,
                    ),
                ),
                total_subnets: (old(st)@.total_subnets + 1) as u64,
                ..old(st)@
            }) && total_circ(final(st)@.subnets) == total_circ(old(st)@.subnets)),
    {
        let shid = SubnetID::new_from_parent(&st.network_name, caller);
        proof {
            assert(shid.route@ == child_of(st@.network_name, caller));
        }
        match st.find_subnet(&shid) {
            Some(_) => Err(ActorError::IllegalArgument),
            None => {
                let status = if value >= st.min_stake {
                    Status::Active
                } else {
                    Status::Inactive
                };
                let sub = Subnet {
                    id: shid.dup(),
                    stake: value,
                    topdown_msgs: Vec::new(),
                    nonce: 0,
                    circ_supply: 0,
                    status,
                    prev_checkpoint: None,
                };
                proof {
                    assert(sub@ =~= new_subnet_v(shid.route@, value, st@.min_stake));
                }
                st.subnets.push(sub);
                st.total_subnets = st.total_subnets + 1;
                proof {
                    assert(st@.subnets =~= old(st)@.subnets.push(
                        new_subnet_v(child_of(old(st)@.network_name, caller), value, old(st)@.min_stake),
                    ));
                    assert(st@ =~= StateV {
                        subnets: old(st)@.subnets.push(
                            new_subnet_v(
                                child_of(old(st)@.network_name, caller),
                                value,
                                old(st)@.min_stake,
                            ),
                        ),
                        total_subnets: (old(st)@.total_subnets + 1) as u64,
                        ..old(st)@
                    });
                    assert forall|i: int| 0 <= i < st@.subnets.len() implies subnet_wf(
                        #[trigger] st@.subnets[i],
                        st@.min_stake,
                        st@.network_name,
                    ) by {
                        if i < st@.subnets.len() - 1 {
                            assert(subnet_wf(old(st)@.subnets[i], st@.min_stake, st@.network_name));
                        } else {
                            assert(st@.subnets[i].id.subrange(0, st@.network_name.len() as int)
                                =~= st@.network_name);
                        }
                    }
                    assert(unique_subnet_ids(st@.subnets));
                    lemma_total_circ_push(
                        old(st)@.subnets,
                        new_subnet_v(child_of(old(st)@.network_name, caller), value, old(st)@.min_stake),
                    );
                }
                Ok(shid)
            },
        }
    }

    /// Add the attached `value` to the collateral of the subnet whose
    /// governing actor is `caller`. A zero value and an unknown subnet are
    /// rejected.
    pub fn add_stake(st: &mut State, caller: u64, value: u64) -> (r: Result<(), ActorError>)
        requires
            state_wf(old(st)@),
            forall|i: int| 0 <= i < old(st)@.subnets.len() ==> #[trigger] old(
                st,
            )@.subnets[i].stake + value <= u64::MAX,
        ensures
            state_wf(final(st)@),
            value == 0 ==> r == Err::<(), ActorError>(ActorError::IllegalArgument) && final(st)@
                == old(st)@,
            value > 0 && !has_subnet(old(st)@.subnets, child_of(old(st)@.network_name, caller))
                ==> r == Err::<(), ActorError>(ActorError::IllegalArgument) && final(st)@ == old(
                st,
            )@,
            value > 0 && has_subnet(old(st)@.subnets, child_of(old(st)@.network_name, caller))
                ==> r == Ok::<(), ActorError>(()) && final(st)@ == with_subnet(
                old(st)@,
                subnet_idx(old(st)@.subnets, child_of(old(st)@.network_name, caller)),
                with_stake(
                    subnet_of(old(st)@.subnets, child_of(old(st)@.network_name, caller)),
                    (subnet_of(old(st)@.subnets, child_of(old(st)@.network_name, caller)).stake
                        + value) as u64,
                    old(st)@.min_stake,
                ),
            ),
    {
        if value == 0 {
            return Err(ActorError::IllegalArgument);
        }
        let shid = SubnetID::new_from_parent(&st.network_name, caller);
        let idx = match st.find_subnet(&shid) {
            Some(i) => i,
            None => {
                return Err(ActorError::IllegalArgument);
            },
        };
        proof {
            lemma_subnet_idx(st@.subnets, shid.route@, idx as int);
        }
        let mut sub = st.subnets.remove(idx);
        let new_stake = sub.stake + value;
        sub.stake = new_stake;
        sub.status = if new_stake >= st.min_stake {
            Status::Active
        } else {
            Status::Inactive
        };
        st.subnets.insert(idx, sub);
        proof {
            let id = child_of(old(st)@.network_name, caller);
            let old_sub = subnet_of(old(st)@.subnets, id);
            assert(st@.subnets =~= old(st)@.subnets.update(
                idx as int,
                with_stake(old_sub, (old_sub.stake + value) as u64, old(st)@.min_stake),
            ));
            assert(st@ =~= with_subnet(
                old(st)@,
                idx as int,
                with_stake(old_sub, (old_sub.stake + value) as u64, old(st)@.min_stake),
            ));
        }
        Ok(())
    }

    /// Return `value` of the collateral of the subnet whose governing actor
    /// is `caller`; the host pays `value` out to the caller after the state
    /// change. Rejected when the value is zero, the subnet is unknown, the
    /// collateral is smaller than `value`, or the gateway's balance is.
    pub fn release_stake(st: &mut State, caller: u64, value: u64, balance: u64) -> (r: Result<
        (),
        ActorError,
    >)
        requires
            state_wf(old(st)@),
        ensures
            state_wf(final(st)@),
            r is Err ==> final(st)@ == old(st)@,
            value == 0 ==> r == Err::<(), ActorError>(ActorError::IllegalArgument),
            value > 0 && !has_subnet(old(st)@.subnets, child_of(old(st)@.network_name, caller))
                ==> r == Err::<(), ActorError>(ActorError::IllegalArgument),
            value > 0 && has_subnet(old(st)@.subnets, child_of(old(st)@.network_name, caller))
                ==> {
                let sub = subnet_of(old(st)@.subnets, child_of(old(st)@.network_name, caller));
                if sub.stake < value {
                    r == Err::<(), ActorError>(ActorError::IllegalState)
                } else if balance < value {
                    r == Err::<(), ActorError>(ActorError::IllegalState)
                } else {
                    r == Ok::<(), ActorError>(()) && final(st)@ == with_subnet(
                        old(st)@,
                        subnet_idx(old(st)@.subnets, child_of(old(st)@.network_name, caller)),
                        with_stake(sub, (sub.stake - value) as u64, old(st)@.min_stake),
                    )
                }
            },
    {
        if value == 0 {
            return Err(ActorError::IllegalArgument);
        }
        let shid = SubnetID::new_from_parent(&st.network_name, caller);
        let idx = match st.find_subnet(&shid) {
            Some(i) => i,
            None => {
                return Err(ActorError::IllegalArgument);
            },
        };
        proof {
            lemma_subnet_idx(st@.subnets, shid.route@, idx as int);
        }
        if st.subnets[idx].stake < value {
            return Err(ActorError::IllegalState);
        }
        if balance < value {
            return Err(ActorError::IllegalState);
        }
        let mut sub = st.subnets.remove(idx);
        let new_stake = sub.stake - value;
        sub.stake = new_stake;
        sub.status = if new_stake >= st.min_stake {
            Status::Active
        } else {
            Status::Inactive
        };
        st.subnets.insert(idx, sub);
        proof {
            let id = child_of(old(st)@.network_name, caller);
            let old_sub = subnet_of(old(st)@.subnets, id);
            assert(st@.subnets =~= old(st)@.subnets.update(
                idx as int,
                with_stake(old_sub, (old_sub.stake - value) as u64, old(st)@.min_stake),
            ));
            assert(st@ =~= with_subnet(
                old(st)@,
                idx as int,
                with_stake(old_sub, (old_sub.stake - value) as u64, old(st)@.min_stake),
            ));
        }
        Ok(())
    }

    /// Unregister the subnet whose governing actor is `caller` and return
    /// all of its remaining collateral, which the host pays out after the
    /// state change. A subnet that still holds circulating supply cannot be
    /// killed, and the gateway must hold the collateral it returns.
    pub fn kill(st: &mut State, caller: u64, balance: u64) -> (r: Result<u64, ActorError>)
        requires
            state_wf(old(st)@),
        ensures
            state_wf(final(st)@),
            r is Err ==> final(st)@ == old(st)@,
            !has_subnet(old(st)@.subnets, child_of(old(st)@.network_name, caller)) ==> r == Err::<
                u64,
                ActorError,
            >(ActorError::IllegalArgument),
            has_subnet(old(st)@.subnets, child_of(old(st)@.network_name, caller)) ==> {
                let sub = subnet_of(old(st)@.subnets, child_of(old(st)@.network_name, caller));
                if balance < sub.stake {
                    r == Err::<u64, ActorError>(ActorError::IllegalState)
                } else if sub.circ_supply > 0 {
                    r == Err::<u64, ActorError>(ActorError::IllegalState)
                } else {
                    r == Ok::<u64, ActorError>(sub.stake) && final(st)@ == (StateV {
                        subnets: old(st)@.subnets.remove(
                            subnet_idx(
                                old(st)@.subnets,
                                child_of(old(st)@.network_name, caller),
                            ),
                        ),
                        total_subnets: (old(st)@.total_subnets - 1) as u64,
                        ..old(st)@
                    }) && total_circ(final(st)@.subnets) == total_circ(old(st)@.subnets)
                }
            },
    {
        let shid = SubnetID::new_from_parent(&st.network_name, caller);
        let idx = match st.find_subnet(&shid) {
            Some(i) => i,
            None => {
                return Err(ActorError::IllegalArgument);
            },
        };
        proof {
            lemma_subnet_idx(st@.subnets, shid.route@, idx as int);
        }
        if balance < st.subnets[idx].stake {
            return Err(ActorError::IllegalState);
        }
        if st.subnets[idx].circ_supply > 0 {
            return Err(ActorError::IllegalState);
        }
        let sub = st.subnets.remove(idx);
        st.total_subnets = st.total_subnets - 1;
        proof {
            assert(st@.subnets =~= old(st)@.subnets.remove(idx as int));
            assert(st@ =~= StateV {
                subnets: old(st)@.subnets.remove(idx as int),
                total_subnets: (old(st)@.total_subnets - 1) as u64,
                ..old(st)@
            });
            lemma_total_circ_remove(old(st)@.subnets, idx as int);
        }
        Ok(sub.stake)
    }
}


/// A message with its nonce replaced.
pub open spec fn msg_with_nonce(c: CrossMsgV, nonce: u64) -> CrossMsgV {
    CrossMsgV { msg: StorableMsgV { nonce, ..c.msg }, ..c }
}

/// Every registry entry has room for `value` more circulating supply and
/// one more top-down nonce.
pub open spec fn subs_headroom(subs: Seq<SubnetV>, value: u64) -> bool {
    forall|i: int| 0 <= i < subs.len() ==> (#[trigger] subs[i]).circ_supply + value <= u64::MAX
        && subs[i].nonce < u64::MAX
}

/// The state after a top-down message `c` is committed to the queue of the
/// subnet at index `i`: the message receives the subnet's next top-down
/// nonce, is appended to its queue, and its value joins the subnet's
/// circulating supply.
pub open spec fn topdown_committed(s: StateV, i: int, c: CrossMsgV) -> StateV {
    let sub = s.subnets[i];
    StateV {
        subnets: s.subnets.update(
            i,
            SubnetV {
                nonce: (sub.nonce + 1) as u64,
                circ_supply: (sub.circ_supply + c.msg.value) as u64,
                topdown_msgs: sub.topdown_msgs.push(msg_with_nonce(c, sub.nonce)),
                ..sub
            },
        ),
        ..s
    }
}

/// The identifier of the immediate child of `n` on the way down to `dest`.
pub open spec fn td_child(n: Seq<u64>, dest: Seq<u64>) -> Seq<u64> {
    dest.subrange(0, n.len() as int + 1)
}

/// Sum of the circulating supply tracked for all registered subnets.
pub open spec fn total_circ(subs: Seq<SubnetV>) -> int
    decreases subs.len(),
{
    if subs.len() == 0 {
        0
    } else {
        total_circ(subs.drop_last()) + subs.last().circ_supply
    }
}

/// Replacing one entry changes the total circulating supply by the
/// difference of that entry's supply.
pub proof fn lemma_total_circ_update(subs: Seq<SubnetV>, i: int, sub: SubnetV)
    requires
        0 <= i < subs.len(),
    ensures
        total_circ(subs.update(i, sub)) == total_circ(subs) - subs[i].circ_supply
            + sub.circ_supply,
    decreases subs.len(),
{
    let u = subs.update(i, sub);
    if i == subs.len() - 1 {
        assert(u.drop_last() =~= subs.drop_last());
        assert(u.last() == sub);
    } else {
        assert(u.drop_last() =~= subs.drop_last().update(i, sub));
        lemma_total_circ_update(subs.drop_last(), i, sub);
        assert(u.last() == subs.last());
    }
}

/// Appending an entry adds its supply to the total.
pub proof fn lemma_total_circ_push(subs: Seq<SubnetV>, sub: SubnetV)
    ensures
        total_circ(subs.push(sub)) == total_circ(subs) + sub.circ_supply,
{
    assert(subs.push(sub).drop_last() =~= subs);
}

/// Removing an entry subtracts its supply from the total.
pub proof fn lemma_total_circ_remove(subs: Seq<SubnetV>, i: int)
    requires
        0 <= i < subs.len(),
    ensures
        total_circ(subs.remove(i)) == total_circ(subs) - subs[i].circ_supply,
    decreases subs.len(),
{
    if i == subs.len() - 1 {
        assert(subs.remove(i) =~= subs.drop_last());
    } else {
        assert(subs.remove(i).drop_last() =~= subs.drop_last().remove(i));
        lemma_total_circ_remove(subs.drop_last(), i);
        assert(subs.remove(i).last() == subs.last());
    }
}

/// A ledger entry for epoch `e` exists.
pub open spec fn has_ck(cks: Seq<CheckpointEntryV>, e: u64) -> bool {
    exists|i: int| 0 <= i < cks.len() && cks[i].epoch == e
}

/// The index of the ledger entry for epoch `e`.
pub open spec fn ck_idx(cks: Seq<CheckpointEntryV>, e: u64) -> int {
    choose|i: int| 0 <= i < cks.len() && cks[i].epoch == e
}

/// With unique epochs, the index of a ledger entry is pinned by any witness.
pub proof fn lemma_ck_idx(cks: Seq<CheckpointEntryV>, e: u64, i: int)
    requires
        unique_epochs(cks),
        0 <= i < cks.len(),
        cks[i].epoch == e,
    ensures
        ck_idx(cks, e) == i,
        has_ck(cks, e),
{
    assert(has_ck(cks, e));
    let j = ck_idx(cks, e);
    if j != i {
        if j < i {
            assert(cks[j].epoch != cks[i].epoch);
        } else {
            assert(cks[i].epoch != cks[j].epoch);
        }
    }
}

/// The empty checkpoint that a window starts from.
pub open spec fn empty_window(source: Seq<u64>, epoch: u64) -> CheckpointV {
    CheckpointV {
        source,
        epoch,
        prev_check: Seq::<u8>::empty(),
        cross_msgs: None,
        children: Seq::<ChildCheckV>::empty(),
    }
}

/// The window checkpoint under construction for window epoch `w`: the
/// ledger entry when one exists, the empty checkpoint of this network
/// otherwise.
pub open spec fn window_checkpoint(s: StateV, w: u64) -> CheckpointV {
    if has_ck(s.checkpoints, w) {
        s.checkpoints[ck_idx(s.checkpoints, w)].checkpoint
    } else {
        empty_window(s.network_name, w)
    }
}

/// The empty cross-message summary.
pub open spec fn empty_meta() -> CrossMsgMetaV {
    CrossMsgMetaV { msgs_cid: Seq::<u8>::empty(), nonce: 0, value: 0, fee: 0 }
}

/// The cross-message summary of the window checkpoint for `w`.
pub open spec fn window_meta(s: StateV, w: u64) -> CrossMsgMetaV {
    match window_checkpoint(s, w).cross_msgs {
        Some(m) => m,
        None => empty_meta(),
    }
}

/// A bundle entry for epoch `e` exists.
pub open spec fn has_reg(reg: Seq<MsgsRegistryEntryV>, e: u64) -> bool {
    exists|i: int| 0 <= i < reg.len() && reg[i].epoch == e
}

/// The index of the bundle entry for epoch `e`.
pub open spec fn reg_idx(reg: Seq<MsgsRegistryEntryV>, e: u64) -> int {
    choose|i: int| 0 <= i < reg.len() && reg[i].epoch == e
}

/// With unique epochs, the index of a bundle entry is pinned by any witness.
pub proof fn lemma_reg_idx(reg: Seq<MsgsRegistryEntryV>, e: u64, i: int)
    requires
        unique_registry_epochs(reg),
        0 <= i < reg.len(),
        reg[i].epoch == e,
    ensures
        reg_idx(reg, e) == i,
        has_reg(reg, e),
{
    assert(has_reg(reg, e));
    let j = reg_idx(reg, e);
    if j != i {
        if j < i {
            assert(reg[j].epoch != reg[i].epoch);
        } else {
            assert(reg[i].epoch != reg[j].epoch);
        }
    }
}

/// The bottom-up messages bundled into the window for epoch `w`.
pub open spec fn window_msgs(s: StateV, w: u64) -> Seq<CrossMsgV> {
    if has_reg(s.check_msg_registry, w) {
        s.check_msg_registry[reg_idx(s.check_msg_registry, w)].msgs
    } else {
        Seq::<CrossMsgV>::empty()
    }
}

/// Deduct the cross-message fee from an attached value; a value that does
/// not exceed the fee is insufficient.
pub fn collect_cross_fee(value: u64, fee: u64) -> (r: Result<u64, ActorError>)
    ensures
        value <= fee ==> r == Err::<u64, ActorError>(ActorError::InsufficientFunds),
        value > fee ==> r == Ok::<u64, ActorError>((value - fee) as u64),
{
    if value <= fee {
        Err(ActorError::InsufficientFunds)
    } else {
        Ok(value - fee)
    }
}

impl State {
    /// The index of the ledger entry for epoch `e`.
    fn find_checkpoint(&self, e: u64) -> (r: Option<usize>)
        ensures
            match r {
                Some(i) => i < self@.checkpoints.len() && self@.checkpoints[i as int].epoch == e,
                None => !has_ck(self@.checkpoints, e),
            },
    {
        let n = self.checkpoints.len();
        let mut i: usize = 0;
        while i < n
            invariant
                n == self.checkpoints@.len(),
                0 <= i <= n,
                forall|j: int| 0 <= j < i ==> self@.checkpoints[j].epoch != e,
            decreases n - i,
        {
            if self.checkpoints[i].epoch == e {
                return Some(i);
            }
            i += 1;
        }
        None
    }

    /// The index of the bundle entry for epoch `e`.
    fn find_registry(&self, e: u64) -> (r: Option<usize>)
        ensures
            match r {
                Some(i) => i < self@.check_msg_registry.len()
                    && self@.check_msg_registry[i as int].epoch == e,
                None => !has_reg(self@.check_msg_registry, e),
            },
    {
        let n = self.check_msg_registry.len();
        let mut i: usize = 0;
        while i < n
            invariant
                n == self.check_msg_registry@.len(),
                0 <= i <= n,
                forall|j: int| 0 <= j < i ==> self@.check_msg_registry[j].epoch != e,
            decreases n - i,
        {
            if self.check_msg_registry[i].epoch == e {
                return Some(i);
            }
            i += 1;
        }
        None
    }

    /// A copy of the window checkpoint being populated for the window that
    /// `epoch` falls into.
    pub fn get_window_checkpoint(&self, epoch: u64) -> (r: Checkpoint)
        requires
            state_wf(self@),
        ensures
            r@ == window_checkpoint(self@, window_of(epoch, self@.check_period)),
    {
        let w = window_epoch(epoch, self.check_period);
        match self.find_checkpoint(w) {
            Some(i) => {
                proof {
                    lemma_ck_idx(self@.checkpoints, w, i as int);
                }
                self.checkpoints[i].checkpoint.dup()
            },
            None => {
                let r = Checkpoint::new(&self.network_name, w);
                proof {
                    assert(r@ =~= empty_window(self@.network_name, w));
                }
                r
            },
        }
    }

    /// Commit a top-down message: assign the next top-down nonce of the
    /// immediate child toward the destination, append the message to that
    /// child's queue, and add the message's value to the supply circulating
    /// in the child. The committed message is returned; a destination that
    /// is not below this network, or whose next hop is not registered, is
    /// an illegal state.
    pub fn commit_topdown_msg(&mut self, cross_msg: CrossMsg) -> (r: Result<CrossMsg, ActorError>)
        requires
            state_wf(old(self)@),
            subs_headroom(old(self)@.subnets, cross_msg@.msg.value),
        ensures
            state_wf(final(self)@),
            r is Err ==> final(self)@ == old(self)@ && r == Err::<CrossMsg, ActorError>(
                ActorError::IllegalState,
            ),
            !is_strict_prefix(old(self)@.network_name, cross_msg@.msg.to.subnet) ==> r is Err,
            is_strict_prefix(old(self)@.network_name, cross_msg@.msg.to.subnet) && !has_subnet(
                old(self)@.subnets,
                td_child(old(self)@.network_name, cross_msg@.msg.to.subnet),
            ) ==> r is Err,
            is_strict_prefix(old(self)@.network_name, cross_msg@.msg.to.subnet) && has_subnet(
                old(self)@.subnets,
                td_child(old(self)@.network_name, cross_msg@.msg.to.subnet),
            ) ==> {
                let i = subnet_idx(
                    old(self)@.subnets,
                    td_child(old(self)@.network_name, cross_msg@.msg.to.subnet),
                );
                r matches Ok(m) && m@ == msg_with_nonce(cross_msg@, old(self)@.subnets[i].nonce)
                    && final(self)@ == topdown_committed(old(self)@, i, cross_msg@)
            },
    {
        let down = match cross_msg.msg.to.subnet.down(&self.network_name) {
            Some(d) => d,
            None => {
                return Err(ActorError::IllegalState);
            },
        };
        let idx = match self.find_subnet(&down) {
            Some(i) => i,
            None => {
                proof {
                    assert(down.route@ == td_child(self@.network_name, cross_msg@.msg.to.subnet));
                }
                return Err(ActorError::IllegalState);
            },
        };
        proof {
            lemma_subnet_idx(self@.subnets, down.route@, idx as int);
        }
        let mut sub = self.subnets.remove(idx);
        let mut m2 = cross_msg;
        m2.msg.nonce = sub.nonce;
        sub.topdown_msgs.push(m2.dup());
        sub.nonce = sub.nonce + 1;
        sub.circ_supply = sub.circ_supply + m2.msg.value;
        self.subnets.insert(idx, sub);
        proof {
            let oldsub = old(self)@.subnets[idx as int];
            assert(self@.subnets[idx as int].topdown_msgs =~= oldsub.topdown_msgs.push(
                msg_with_nonce(cross_msg@, oldsub.nonce),
            ));
            assert(self@.subnets[idx as int] =~= SubnetV {
                nonce: (oldsub.nonce + 1) as u64,
                circ_supply: (oldsub.circ_supply + cross_msg@.msg.value) as u64,
                topdown_msgs: oldsub.topdown_msgs.push(msg_with_nonce(cross_msg@, oldsub.nonce)),
                ..oldsub
            });
            assert(self@.subnets =~= old(self)@.subnets.update(
                idx as int,
                self@.subnets[idx as int],
            ));
            assert(self@ =~= topdown_committed(old(self)@, idx as int, cross_msg@));
            assert(m2@ == msg_with_nonce(cross_msg@, oldsub.nonce));
        }
        Ok(m2)
    }
}


/// The shape of the message that `Fund` commits for `dest` on behalf of
/// `signer`, before its nonce is assigned.
pub open spec fn fund_msg_v(dest: Seq<u64>, signer: u64, value: u64) -> StorableMsgV {
    StorableMsgV {
        from: IPCAddressV { subnet: dest.subrange(0, dest.len() - 1), raw: signer },
        to: IPCAddressV { subnet: dest, raw: signer },
        method: METHOD_SEND,
        params: Seq::<u8>::empty(),
        value,
        nonce: 0,
    }
}

/// The shape of the message that `Release` schedules from `network` on
/// behalf of `signer`.
pub open spec fn release_msg_v(network: Seq<u64>, signer: u64, value: u64, nonce: u64) -> StorableMsgV {
    StorableMsgV {
        from: IPCAddressV { subnet: network, raw: signer },
        to: IPCAddressV { subnet: network.subrange(0, network.len() - 1), raw: signer },
        method: METHOD_SEND,
        params: Seq::<u8>::empty(),
        value,
        nonce,
    }
}

impl State {
    /// Schedule a bottom-up message into the current window's bundle: the
    /// message receives the gateway's next bottom-up nonce and joins the
    /// window's message list, and the window checkpoint's summary
    /// accumulates the message's value and the fee and points at the new
    /// list's content identifier.
    #[verifier::rlimit(80)]
    pub fn commit_bottomup_msg(&mut self, cross_msg: CrossMsg, fee: u64, epoch: u64)
        requires
            state_wf(old(self)@),
            old(self)@.nonce < u64::MAX,
            window_meta(old(self)@, window_of(epoch, old(self)@.check_period)).value
                + cross_msg@.msg.value <= u64::MAX,
            window_meta(old(self)@, window_of(epoch, old(self)@.check_period)).fee + fee
                <= u64::MAX,
        ensures
            state_wf(final(self)@),
            final(self)@.nonce == old(self)@.nonce + 1,
            ({
                let w = window_of(epoch, old(self)@.check_period);
                let m2 = msg_with_nonce(cross_msg@, old(self)@.nonce);
                let msgs2 = window_msgs(old(self)@, w).push(m2);
                let meta2 = CrossMsgMetaV {
                    msgs_cid: digest_of(enc_cross_msg_list(msgs2)),
                    nonce: old(self)@.nonce,
                    value: (window_meta(old(self)@, w).value + cross_msg@.msg.value) as u64,
                    fee: (window_meta(old(self)@, w).fee + fee) as u64,
                };
                &&& window_msgs(final(self)@, w) == msgs2
                &&& window_meta(final(self)@, w) == meta2
                &&& window_checkpoint(final(self)@, w) == (CheckpointV {
                    cross_msgs: Some(meta2),
                    ..window_checkpoint(old(self)@, w)
                })
                &&& forall|e: u64| e != w ==> window_checkpoint(final(self)@, e)
                    == window_checkpoint(old(self)@, e) && window_msgs(final(self)@, e)
                    == window_msgs(old(self)@, e)
            }),
            final(self)@ == (StateV {
                checkpoints: final(self)@.checkpoints,
                check_msg_registry: final(self)@.check_msg_registry,
                nonce: (old(self)@.nonce + 1) as u64,
                ..old(self)@
            }),
    {
        let w = window_epoch(epoch, self.check_period);
        let mut ch: Checkpoint;
        let ck_at: usize;
        let ghost oldv = self@;
        match self.find_checkpoint(w) {
            Some(i) => {
                proof {
                    lemma_ck_idx(self@.checkpoints, w, i as int);
                }
                let entry = self.checkpoints.remove(i);
                ch = entry.checkpoint;
                ck_at = i;
            },
            None => {
                ch = Checkpoint::new(&self.network_name, w);
                ck_at = self.checkpoints.len();
            },
        }
        proof {
            assert(ch@ == window_checkpoint(oldv, w));
        }
        let mut msgs: Vec<CrossMsg>;
        let rg_at: usize;
        match self.find_registry(w) {
            Some(i) => {
                proof {
                    lemma_reg_idx(self@.check_msg_registry, w, i as int);
                }
                let entry = self.check_msg_registry.remove(i);
                msgs = entry.msgs;
                rg_at = i;
            },
            None => {
                msgs = Vec::new();
                rg_at = self.check_msg_registry.len();
            },
        }
        proof {
            assert(msgs@.map_values(|c: CrossMsg| c@) =~= window_msgs(oldv, w));
        }
        let mut meta: CrossMsgMeta = match &ch.cross_msgs {
            Some(m) => m.dup(),
            None => CrossMsgMeta::new(),
        };
        proof {
            assert(meta@ == window_meta(oldv, w));
        }
        let value = cross_msg.msg.value;
        let mut m2 = cross_msg;
        m2.msg.nonce = self.nonce;
        let ghost m2v = m2@;
        msgs.push(m2);
        let ghost msgs2 = msgs@.map_values(|c: CrossMsg| c@);
        proof {
            assert(msgs2 =~= window_msgs(oldv, w).push(m2v));
        }
        let mut bytes: Vec<u8> = Vec::new();
        push_cross_msg_list(&mut bytes, &msgs);
        let new_cid = blake2b_digest(&bytes);
        meta.msgs_cid = new_cid;
        meta.value = meta.value + value;
        meta.fee = meta.fee + fee;
        meta.nonce = self.nonce;
        ch.cross_msgs = Some(meta);
        let ghost chv = ch@;
        self.checkpoints.insert(ck_at, CheckpointEntry { epoch: w, checkpoint: ch });
        self.check_msg_registry.insert(rg_at, MsgsRegistryEntry { epoch: w, msgs });
        self.nonce = self.nonce + 1;
        proof {
            let fin = self@;
            let old0 = old(self)@;
            let m2spec = msg_with_nonce(cross_msg@, old0.nonce);
            assert(m2v =~= m2spec);
            let meta2 = CrossMsgMetaV {
                msgs_cid: digest_of(enc_cross_msg_list(msgs2)),
                nonce: old0.nonce,
                value: (window_meta(old0, w).value + cross_msg@.msg.value) as u64,
                fee: (window_meta(old0, w).fee + fee) as u64,
            };
            assert(chv =~= CheckpointV { cross_msgs: Some(meta2), ..window_checkpoint(old0, w) });
            assert(fin.checkpoints[ck_at as int].epoch == w);
            assert(fin.checkpoints[ck_at as int].checkpoint == chv);
            assert(fin.check_msg_registry[rg_at as int].epoch == w);
            assert(fin.check_msg_registry[rg_at as int].msgs =~= msgs2);
            // uniqueness of the keyed containers is preserved
            assert forall|i: int, j: int| 0 <= i < j < fin.checkpoints.len() implies fin.checkpoints[i].epoch != fin.checkpoints[j].epoch by {
                if has_ck(old0.checkpoints, w) {
                    assert(fin.checkpoints =~= old0.checkpoints.update(ck_at as int, fin.checkpoints[ck_at as int]));
                } else {
                    assert(fin.checkpoints =~= old0.checkpoints.push(fin.checkpoints[ck_at as int]));
                    if j == fin.checkpoints.len() - 1 {
                        assert(old0.checkpoints[i].epoch != w);
                    }
                }
            }
            assert forall|i: int, j: int| 0 <= i < j < fin.check_msg_registry.len() implies fin.check_msg_registry[i].epoch != fin.check_msg_registry[j].epoch by {
                if has_reg(old0.check_msg_registry, w) {
                    assert(fin.check_msg_registry =~= old0.check_msg_registry.update(rg_at as int, fin.check_msg_registry[rg_at as int]));
                } else {
                    assert(fin.check_msg_registry =~= old0.check_msg_registry.push(fin.check_msg_registry[rg_at as int]));
                    if j == fin.check_msg_registry.len() - 1 {
                        assert(old0.check_msg_registry[i].epoch != w);
                    }
                }
            }
            lemma_ck_idx(fin.checkpoints, w, ck_at as int);
            lemma_reg_idx(fin.check_msg_registry, w, rg_at as int);
            assert(window_checkpoint(fin, w) == chv);
            assert(window_meta(fin, w) == meta2);
            assert(window_msgs(fin, w) =~= msgs2);
            assert forall|e: u64| e != w implies window_checkpoint(fin, e) == window_checkpoint(
                old0,
                e,
            ) && window_msgs(fin, e) == window_msgs(old0, e) by {
                if has_ck(old0.checkpoints, e) {
                    let j = ck_idx(old0.checkpoints, e);
                    if has_ck(old0.checkpoints, w) {
                        lemma_ck_idx(old0.checkpoints, w, ck_at as int);
                        assert(j != ck_at as int);
                    }
                    assert(fin.checkpoints[j].epoch == e);
                    lemma_ck_idx(fin.checkpoints, e, j);
                    assert(window_checkpoint(fin, e) == window_checkpoint(old0, e));
                } else {
                    if has_ck(fin.checkpoints, e) {
                        let j = ck_idx(fin.checkpoints, e);
                        assert(fin.checkpoints[j].epoch == e);
                        if j == ck_at as int {
                            assert(false);
                        } else {
                            assert(old0.checkpoints[j].epoch == e);
                            assert(false);
                        }
                    }
                    assert(window_checkpoint(fin, e) == window_checkpoint(old0, e));
                }
                if has_reg(old0.check_msg_registry, e) {
                    let j = reg_idx(old0.check_msg_registry, e);
                    if has_reg(old0.check_msg_registry, w) {
                        lemma_reg_idx(old0.check_msg_registry, w, rg_at as int);
                        assert(j != rg_at as int);
                    }
                    assert(fin.check_msg_registry[j].epoch == e);
                    lemma_reg_idx(fin.check_msg_registry, e, j);
                    assert(window_msgs(fin, e) == window_msgs(old0, e));
                } else {
                    if has_reg(fin.check_msg_registry, e) {
                        let j = reg_idx(fin.check_msg_registry, e);
                        assert(fin.check_msg_registry[j].epoch == e);
                        if j == rg_at as int {
                            assert(false);
                        } else {
                            assert(old0.check_msg_registry[j].epoch == e);
                            assert(false);
                        }
                    }
                    assert(window_msgs(fin, e) == window_msgs(old0, e));
                }
            }
            assert(fin =~= StateV {
                checkpoints: fin.checkpoints,
                check_msg_registry: fin.check_msg_registry,
                nonce: (old0.nonce + 1) as u64,
                ..old0
            });
        }
    }
}

impl Actor {
    /// Inject funds from an account of this network into the child subnet
    /// toward `destination`: deduct the cross-message fee, construct the
    /// fund message on behalf of the resolved signer, and commit it
    /// top-down. The returned fee is distributed by the host to the
    /// destination subnet's validators.
    pub fn fund(st: &mut State, signer: u64, destination: &SubnetID, value: u64) -> (r: Result<
        u64,
        ActorError,
    >)
        requires
            state_wf(old(st)@),
            subs_headroom(old(st)@.subnets, value),
        ensures
            state_wf(final(st)@),
            r is Err ==> final(st)@ == old(st)@,
            value == 0 ==> r == Err::<u64, ActorError>(ActorError::IllegalArgument),
            0 < value <= CROSS_MSG_FEE ==> r == Err::<u64, ActorError>(
                ActorError::InsufficientFunds,
            ),
            value > CROSS_MSG_FEE ==> {
                let n = old(st)@.network_name;
                let d = destination.route@;
                let cm = CrossMsgV {
                    msg: fund_msg_v(d, signer, (value - CROSS_MSG_FEE) as u64),
                    wrapped: false,
                };
                if d.len() <= 1 {
                    r == Err::<u64, ActorError>(ActorError::IllegalState)
                } else if !is_strict_prefix(n, d) || !has_subnet(old(st)@.subnets, td_child(n, d)) {
                    r == Err::<u64, ActorError>(ActorError::IllegalState)
                } else {
                    &&& r == Ok::<u64, ActorError>(CROSS_MSG_FEE)
                    &&& final(st)@ == topdown_committed(
                        old(st)@,
                        subnet_idx(old(st)@.subnets, td_child(n, d)),
                        cm,
                    )
                    &&& total_circ(final(st)@.subnets) == total_circ(old(st)@.subnets) + value
                        - CROSS_MSG_FEE
                }
            },
    {
        if value == 0 {
            return Err(ActorError::IllegalArgument);
        }
        let remaining = match collect_cross_fee(value, CROSS_MSG_FEE) {
            Ok(v) => v,
            Err(e) => {
                return Err(e);
            },
        };
        let msg = match StorableMsg::new_fund_msg(destination, signer, remaining) {
            Ok(m) => m,
            Err(e) => {
                return Err(e);
            },
        };
        let cm = CrossMsg { msg, wrapped: false };
        proof {
            assert(cm@.msg =~= fund_msg_v(destination.route@, signer, remaining));
            assert forall|i: int| 0 <= i < st@.subnets.len() implies (#[trigger] st@.subnets[i]).circ_supply
                + remaining <= u64::MAX && st@.subnets[i].nonce < u64::MAX by {
                assert(st@.subnets[i].circ_supply + value <= u64::MAX);
            }
        }
        let ghost cmv = cm@;
        match st.commit_topdown_msg(cm) {
            Ok(_) => {
                proof {
                    let n = old(st)@.network_name;
                    let d = destination.route@;
                    let i = subnet_idx(old(st)@.subnets, td_child(n, d));
                    lemma_total_circ_update(
                        old(st)@.subnets,
                        i,
                        topdown_committed(old(st)@, i, cmv).subnets[i],
                    );
                }
                Ok(CROSS_MSG_FEE)
            },
            Err(e) => Err(e),
        }
    }

    /// Release funds from this network to the caller's account on the
    /// parent: deduct the cross-message fee and schedule the release
    /// message into the current window's bottom-up bundle. The returned
    /// amount, `value` less the fee, is burned by the host after the state
    /// change.
    pub fn release(st: &mut State, signer: u64, value: u64, epoch: u64) -> (r: Result<
        u64,
        ActorError,
    >)
        requires
            state_wf(old(st)@),
            old(st)@.nonce < u64::MAX,
            window_meta(old(st)@, window_of(epoch, old(st)@.check_period)).value + value
                <= u64::MAX,
            window_meta(old(st)@, window_of(epoch, old(st)@.check_period)).fee + CROSS_MSG_FEE
                <= u64::MAX,
        ensures
            state_wf(final(st)@),
            r is Err ==> final(st)@ == old(st)@,
            value == 0 ==> r == Err::<u64, ActorError>(ActorError::IllegalArgument),
            0 < value <= CROSS_MSG_FEE ==> r == Err::<u64, ActorError>(
                ActorError::InsufficientFunds,
            ),
            value > CROSS_MSG_FEE && old(st)@.network_name.len() <= 1 ==> r == Err::<
                u64,
                ActorError,
            >(ActorError::IllegalState),
            value > CROSS_MSG_FEE && old(st)@.network_name.len() > 1 ==> {
                let w = window_of(epoch, old(st)@.check_period);
                let m = release_msg_v(
                    old(st)@.network_name,
                    signer,
                    (value - CROSS_MSG_FEE) as u64,
                    old(st)@.nonce,
                );
                let msgs2 = window_msgs(old(st)@, w).push(CrossMsgV { msg: m, wrapped: false });
                &&& r == Ok::<u64, ActorError>((value - CROSS_MSG_FEE) as u64)
                &&& final(st)@.nonce == old(st)@.nonce + 1
                &&& window_msgs(final(st)@, w) == msgs2
                &&& window_meta(final(st)@, w) == (CrossMsgMetaV {
                    msgs_cid: digest_of(enc_cross_msg_list(msgs2)),
                    nonce: old(st)@.nonce,
                    value: (window_meta(old(st)@, w).value + (value - CROSS_MSG_FEE)) as u64,
                    fee: (window_meta(old(st)@, w).fee + CROSS_MSG_FEE) as u64,
                })
                &&& (forall|e: u64| e != w ==> window_checkpoint(final(st)@, e)
                    == window_checkpoint(old(st)@, e) && window_msgs(final(st)@, e) == window_msgs(
                    old(st)@,
                    e,
                ))
                &&& final(st)@ == (StateV {
                    checkpoints: final(st)@.checkpoints,
                    check_msg_registry: final(st)@.check_msg_registry,
                    nonce: (old(st)@.nonce + 1) as u64,
                    ..old(st)@
                })
            },
    {
        if value == 0 {
            return Err(ActorError::IllegalArgument);
        }
        let remaining = match collect_cross_fee(value, CROSS_MSG_FEE) {
            Ok(v) => v,
            Err(e) => {
                return Err(e);
            },
        };
        let msg = match StorableMsg::new_release_msg(&st.network_name, signer, remaining, st.nonce) {
            Ok(m) => m,
            Err(e) => {
                return Err(e);
            },
        };
        let cm = CrossMsg { msg, wrapped: false };
        proof {
            assert(cm@.msg =~= release_msg_v(st@.network_name, signer, remaining, st@.nonce));
        }
        let ghost cmv = cm@;
        st.commit_bottomup_msg(cm, CROSS_MSG_FEE, epoch);
        proof {
            let w = window_of(epoch, old(st)@.check_period);
            let m = release_msg_v(
                old(st)@.network_name,
                signer,
                (value - CROSS_MSG_FEE) as u64,
                old(st)@.nonce,
            );
            assert(msg_with_nonce(cmv, old(st)@.nonce) =~= CrossMsgV { msg: m, wrapped: false });
        }
        Ok(remaining)
    }
}


/// Canonical encoding of a postbox item's owner set, tagged.
pub open spec fn enc_owners(o: Option<Seq<u64>>) -> Seq<u8> {
    match o {
        None => seq![0u8],
        Some(owners) => seq![1u8] + enc_route(owners),
    }
}

/// Canonical encoding of a postbox item.
pub open spec fn enc_postbox_item(i: PostBoxItemV) -> Seq<u8> {
    enc_cross_msg(i.cross_msg) + enc_owners(i.owners)
}

/// The content identifier under which a postbox item is keyed.
pub open spec fn postbox_item_cid(i: PostBoxItemV) -> Seq<u8> {
    digest_of(enc_postbox_item(i))
}

/// A postbox entry with key `cid` exists.
pub open spec fn postbox_has(pb: Seq<PostboxEntryV>, cid: Seq<u8>) -> bool {
    exists|i: int| 0 <= i < pb.len() && pb[i].cid == cid
}

/// The index of the postbox entry with key `cid`.
pub open spec fn pb_idx(pb: Seq<PostboxEntryV>, cid: Seq<u8>) -> int {
    choose|i: int| 0 <= i < pb.len() && pb[i].cid == cid
}

/// The postbox item stored under key `cid`.
pub open spec fn postbox_item_of(pb: Seq<PostboxEntryV>, cid: Seq<u8>) -> PostBoxItemV {
    pb[pb_idx(pb, cid)].item
}

/// With unique keys, the index of a postbox entry is pinned by any witness.
pub proof fn lemma_pb_idx(pb: Seq<PostboxEntryV>, cid: Seq<u8>, i: int)
    requires
        unique_postbox_cids(pb),
        0 <= i < pb.len(),
        pb[i].cid == cid,
    ensures
        pb_idx(pb, cid) == i,
        postbox_has(pb, cid),
{
    assert(postbox_has(pb, cid));
    let j = pb_idx(pb, cid);
    if j != i {
        if j < i {
            assert(pb[j].cid != pb[i].cid);
        } else {
            assert(pb[i].cid != pb[j].cid);
        }
    }
}

/// A postbox key, once its entry is removed, names no entry: a second
/// propagation of the same key must take the rejection path.
pub proof fn lemma_removed_postbox_key_names_nothing(pb: Seq<PostboxEntryV>, cid: Seq<u8>)
    requires
        unique_postbox_cids(pb),
        postbox_has(pb, cid),
    ensures
        !postbox_has(pb.remove(pb_idx(pb, cid)), cid),
{
    let i = pb_idx(pb, cid);
    let pb2 = pb.remove(i);
    if postbox_has(pb2, cid) {
        let j = pb_idx(pb2, cid);
        if j < i {
            assert(pb[j].cid == cid);
            lemma_pb_idx(pb, cid, j);
        } else {
            assert(pb[j + 1].cid == cid);
            lemma_pb_idx(pb, cid, j + 1);
        }
    }
}

pub fn push_owners(out: &mut Vec<u8>, o: &Option<Vec<u64>>)
    ensures
        final(out)@ == old(out)@ + enc_owners(match *o {
            Some(ref owners) => Some(owners@),
            None => None,
        }),
{
    match o {
        None => {
            out.push(0u8);
            proof {
                assert(out@ =~= old(out)@ + seq![0u8]);
            }
        },
        Some(owners) => {
            out.push(1u8);
            proof {
                assert(owners@.len() == owners.len());
                assert(out@ =~= old(out)@ + seq![1u8]);
            }
            push_u64s(out, owners);
            proof {
                assert(out@ =~= old(out)@ + (seq![1u8] + enc_route(owners@)));
            }
        },
    }
}

impl PostBoxItem {
    /// The content identifier under which this item is keyed.
    pub fn cid(&self) -> (r: Vec<u8>)
        ensures
            r@ == postbox_item_cid(self@),
            r@.len() == 64,
    {
        let mut bytes: Vec<u8> = Vec::new();
        push_cross_msg(&mut bytes, &self.cross_msg);
        push_owners(&mut bytes, &self.owners);
        proof {
            assert(bytes@ =~= enc_postbox_item(self@));
        }
        blake2b_digest(&bytes)
    }
}

impl State {
    /// The index of the postbox entry with key `cid`.
    fn find_postbox(&self, cid: &Vec<u8>) -> (r: Option<usize>)
        ensures
            match r {
                Some(i) => i < self@.postbox.len() && self@.postbox[i as int].cid == cid@,
                None => !postbox_has(self@.postbox, cid@),
            },
    {
        let n = self.postbox.len();
        let mut i: usize = 0;
        while i < n
            invariant
                n == self.postbox@.len(),
                0 <= i <= n,
                forall|j: int| 0 <= j < i ==> self@.postbox[j].cid != cid@,
            decreases n - i,
        {
            if bytes_eq(&self.postbox[i].cid, cid) {
                return Some(i);
            }
            i += 1;
        }
        None
    }

    /// Park `item` in the postbox under the content identifier of its
    /// canonical encoding, and return that key. Re-inserting an item that
    /// is already parked leaves a single entry under its key.
    pub fn insert_postbox(&mut self, item: PostBoxItem) -> (r: Vec<u8>)
        requires
            state_wf(old(self)@),
        ensures
            state_wf(final(self)@),
            r@ == postbox_item_cid(item@),
            postbox_has(final(self)@.postbox, r@),
            postbox_item_of(final(self)@.postbox, r@) == item@,
            forall|c: Seq<u8>| c != r@ ==> postbox_has(final(self)@.postbox, c) == postbox_has(
                old(self)@.postbox,
                c,
            ) && (postbox_has(old(self)@.postbox, c) ==> postbox_item_of(
                final(self)@.postbox,
                c,
            ) == postbox_item_of(old(self)@.postbox, c)),
            final(self)@ == (StateV { postbox: final(self)@.postbox, ..old(self)@ }),
    {
        let cid = item.cid();
        let at: usize;
        match self.find_postbox(&cid) {
            Some(i) => {
                proof {
                    lemma_pb_idx(self@.postbox, cid@, i as int);
                }
                self.postbox.remove(i);
                at = i;
            },
            None => {
                at = self.postbox.len();
            },
        }
        let entry = PostboxEntry { cid: bytes_dup(&cid), item };
        self.postbox.insert(at, entry);
        proof {
            let fin = self@;
            let old0 = old(self)@;
            assert(fin.postbox[at as int].cid == cid@);
            assert(fin.postbox[at as int].item == entry.item@);
            assert forall|i: int, j: int| 0 <= i < j < fin.postbox.len() implies fin.postbox[i].cid
                != fin.postbox[j].cid by {
                if postbox_has(old0.postbox, cid@) {
                    assert(fin.postbox =~= old0.postbox.update(at as int, fin.postbox[at as int]));
                } else {
                    assert(fin.postbox =~= old0.postbox.push(fin.postbox[at as int]));
                    if j == fin.postbox.len() - 1 {
                        assert(old0.postbox[i].cid != cid@);
                    }
                }
            }
            lemma_pb_idx(fin.postbox, cid@, at as int);
            assert forall|c: Seq<u8>| c != cid@ implies postbox_has(fin.postbox, c) == postbox_has(
                old0.postbox,
                c,
            ) && (postbox_has(old0.postbox, c) ==> postbox_item_of(fin.postbox, c)
                == postbox_item_of(old0.postbox, c)) by {
                if postbox_has(old0.postbox, c) {
                    let j = pb_idx(old0.postbox, c);
                    if postbox_has(old0.postbox, cid@) {
                        lemma_pb_idx(old0.postbox, cid@, at as int);
                        assert(j != at as int);
                    }
                    assert(fin.postbox[j].cid == c);
                    lemma_pb_idx(fin.postbox, c, j);
                } else {
                    if postbox_has(fin.postbox, c) {
                        let j = pb_idx(fin.postbox, c);
                        assert(fin.postbox[j].cid == c);
                        if j == at as int {
                            assert(false);
                        } else {
                            assert(old0.postbox[j].cid == c);
                            assert(false);
                        }
                    }
                }
            }
            assert(fin =~= StateV { postbox: fin.postbox, ..old0 });
        }
        cid
    }
}

/// What the system actor must do after one cross-message is applied: pay
/// out to a local recipient, or authorize propagators of a parked message.
/// In both cases `mint` is the amount that traversing top-down value adds
/// to this gateway's balance through the host's funding hook.
pub enum ApplyOutcome {
    /// Dispatch `value` (and the carried call) to the local address `to`.
    Deliver { to: u64, method: u64, params: Vec<u8>, value: u64, mint: u64 },
    /// The message was parked in the postbox under `postbox_cid`.
    Park { postbox_cid: Vec<u8>, mint: u64 },
}

impl Actor {
    /// Apply one cross-message delivered by the system actor: classify it,
    /// enforce the applied-nonce discipline, and either deliver it locally
    /// or park it in the postbox for an owner-authorized hop. Applied
    /// top-down and bottom-up nonces each advance by exactly one per
    /// message applied here, and a nonce gap or repeat is an illegal state.
    pub fn apply_msg(st: &mut State, cross_msg: CrossMsg) -> (r: Result<ApplyOutcome, ActorError>)
        requires
            state_wf(old(st)@),
            old(st)@.applied_bottomup_nonce < u64::MAX,
            old(st)@.applied_topdown_nonce < u64::MAX,
        ensures
            state_wf(final(st)@),
            r is Err ==> final(st)@ == old(st)@,
            ({
                let n = old(st)@.network_name;
                let m = cross_msg@.msg;
                let item = PostBoxItemV { cross_msg: cross_msg@, owners: Some(seq![m.from.raw]) };
                match apply_type_route(n, m.from.subnet, m.to.subnet) {
                    None => r == Err::<ApplyOutcome, ActorError>(ActorError::IllegalArgument),
                    Some(IPCMsgType::BottomUp) => {
                        if m.to.subnet == n {
                            if m.nonce != old(st)@.applied_bottomup_nonce {
                                r == Err::<ApplyOutcome, ActorError>(ActorError::IllegalState)
                            } else {
                                &&& r matches Ok(o) && o matches ApplyOutcome::Deliver {
                                    to,
                                    method,
                                    params,
                                    value,
                                    mint,
                                } && to == m.to.raw && method == m.method && params@ == m.params
                                    && value == m.value && mint == 0
                                &&& final(st)@ == (StateV {
                                    applied_bottomup_nonce: (old(st)@.applied_bottomup_nonce
                                        + 1) as u64,
                                    ..old(st)@
                                })
                            }
                        } else {
                            &&& r matches Ok(o) && o matches ApplyOutcome::Park {
                                postbox_cid,
                                mint,
                            } && postbox_cid@ == postbox_item_cid(item) && mint == 0
                            &&& postbox_has(final(st)@.postbox, postbox_item_cid(item))
                            &&& postbox_item_of(final(st)@.postbox, postbox_item_cid(item))
                                == item
                            &&& (forall|c: Seq<u8>| c != postbox_item_cid(item) ==> postbox_has(
                                final(st)@.postbox,
                                c,
                            ) == postbox_has(old(st)@.postbox, c))
                            &&& final(st)@ == (StateV {
                                postbox: final(st)@.postbox,
                                ..old(st)@
                            })
                        }
                    },
                    Some(IPCMsgType::TopDown) => {
                        if m.to.subnet == n {
                            if m.nonce != old(st)@.applied_topdown_nonce {
                                r == Err::<ApplyOutcome, ActorError>(ActorError::IllegalState)
                            } else {
                                &&& r matches Ok(o) && o matches ApplyOutcome::Deliver {
                                    to,
                                    method,
                                    params,
                                    value,
                                    mint,
                                } && to == m.to.raw && method == m.method && params@ == m.params
                                    && value == m.value && mint == m.value
                                &&& final(st)@ == (StateV {
                                    applied_topdown_nonce: (old(st)@.applied_topdown_nonce
                                        + 1) as u64,
                                    ..old(st)@
                                })
                            }
                        } else {
                            &&& r matches Ok(o) && o matches ApplyOutcome::Park {
                                postbox_cid,
                                mint,
                            } && postbox_cid@ == postbox_item_cid(item) && mint == m.value
                            &&& postbox_has(final(st)@.postbox, postbox_item_cid(item))
                            &&& postbox_item_of(final(st)@.postbox, postbox_item_cid(item))
                                == item
                            &&& (forall|c: Seq<u8>| c != postbox_item_cid(item) ==> postbox_has(
                                final(st)@.postbox,
                                c,
                            ) == postbox_has(old(st)@.postbox, c))
                            &&& final(st)@ == (StateV {
                                postbox: final(st)@.postbox,
                                ..old(st)@
                            })
                        }
                    },
                }
            }),
    {
        let t = match cross_msg.msg.apply_type(&st.network_name) {
            Ok(t) => t,
            Err(e) => {
                return Err(e);
            },
        };
        let local = cross_msg.msg.to.subnet.equals(&st.network_name);
        let mint: u64;
        match t {
            IPCMsgType::BottomUp => {
                mint = 0;
                if local {
                    if cross_msg.msg.nonce != st.applied_bottomup_nonce {
                        return Err(ActorError::IllegalState);
                    }
                    st.applied_bottomup_nonce = st.applied_bottomup_nonce + 1;
                    let m = cross_msg.msg;
                    proof {
                        assert(st@ =~= StateV {
                            applied_bottomup_nonce: (old(st)@.applied_bottomup_nonce + 1) as u64,
                            ..old(st)@
                        });
                    }
                    return Ok(ApplyOutcome::Deliver {
                        to: m.to.raw,
                        method: m.method,
                        params: m.params,
                        value: m.value,
                        mint,
                    });
                }
            },
            IPCMsgType::TopDown => {
                mint = cross_msg.msg.value;
                if local {
                    if cross_msg.msg.nonce != st.applied_topdown_nonce {
                        return Err(ActorError::IllegalState);
                    }
                    st.applied_topdown_nonce = st.applied_topdown_nonce + 1;
                    let m = cross_msg.msg;
                    proof {
                        assert(st@ =~= StateV {
                            applied_topdown_nonce: (old(st)@.applied_topdown_nonce + 1) as u64,
                            ..old(st)@
                        });
                    }
                    return Ok(ApplyOutcome::Deliver {
                        to: m.to.raw,
                        method: m.method,
                        params: m.params,
                        value: m.value,
                        mint,
                    });
                }
            },
        }
        let owner = cross_msg.msg.from.raw;
        let mut owners: Vec<u64> = Vec::new();
        owners.push(owner);
        let item = PostBoxItem { cross_msg, owners: Some(owners) };
        proof {
            assert(item@.owners == Some(seq![owner]));
            assert(item@ =~= PostBoxItemV {
                cross_msg: item.cross_msg@,
                owners: Some(seq![owner]),
            });
        }
        let cid = st.insert_postbox(item);
        Ok(ApplyOutcome::Park { postbox_cid: cid, mint })
    }
}


/// The routing decision of `commit_cross_message`: the message goes down
/// from here when it classifies top-down at this network, or when it is a
/// bottom-up message whose turning point (the common parent of origin and
/// destination) is this network.
pub open spec fn commit_goes_down(s: StateV, c: CrossMsgV) -> bool {
    match apply_type_route(s.network_name, c.msg.from.subnet, c.msg.to.subnet) {
        Some(IPCMsgType::TopDown) => true,
        Some(IPCMsgType::BottomUp) => common_parent_route(c.msg.from.subnet, c.msg.to.subnet)
            == s.network_name,
        None => false,
    }
}

/// The rejection that a top-down enqueue meets: the destination must lie
/// strictly below this network and the next hop must be registered.
pub open spec fn topdown_route_err(s: StateV, sto: Seq<u64>) -> Option<ActorError> {
    if !is_strict_prefix(s.network_name, sto) || !has_subnet(
        s.subnets,
        td_child(s.network_name, sto),
    ) {
        Some(ActorError::IllegalState)
    } else {
        None
    }
}

/// The error with which `commit_cross_message` rejects message `c`, if any:
/// a message already at its destination is an illegal state, one that does
/// not belong on this network is a malformed argument, and a downward
/// enqueue needs a registered next hop.
pub open spec fn commit_cross_err(s: StateV, c: CrossMsgV) -> Option<ActorError> {
    let n = s.network_name;
    let sto = c.msg.to.subnet;
    if sto == n {
        Some(ActorError::IllegalState)
    } else {
        match apply_type_route(n, c.msg.from.subnet, sto) {
            None => Some(ActorError::IllegalArgument),
            Some(IPCMsgType::TopDown) => topdown_route_err(s, sto),
            Some(IPCMsgType::BottomUp) => {
                if common_parent_route(c.msg.from.subnet, sto) == n {
                    topdown_route_err(s, sto)
                } else {
                    None
                }
            },
        }
    }
}

/// The state after a bottom-up scheduling of `c` with `fee` at `epoch`, as
/// `commit_bottomup_msg` leaves it.
pub open spec fn bottomup_committed_rel(
    s: StateV,
    c: CrossMsgV,
    fee: u64,
    epoch: u64,
    fin: StateV,
) -> bool {
    let w = window_of(epoch, s.check_period);
    let m2 = msg_with_nonce(c, s.nonce);
    let msgs2 = window_msgs(s, w).push(m2);
    let meta2 = CrossMsgMetaV {
        msgs_cid: digest_of(enc_cross_msg_list(msgs2)),
        nonce: s.nonce,
        value: (window_meta(s, w).value + c.msg.value) as u64,
        fee: (window_meta(s, w).fee + fee) as u64,
    };
    &&& fin.nonce == s.nonce + 1
    &&& window_msgs(fin, w) == msgs2
    &&& window_meta(fin, w) == meta2
    &&& window_checkpoint(fin, w) == (CheckpointV {
        cross_msgs: Some(meta2),
        ..window_checkpoint(s, w)
    })
    &&& (forall|e: u64| e != w ==> window_checkpoint(fin, e) == window_checkpoint(s, e)
        && window_msgs(fin, e) == window_msgs(s, e))
    &&& fin == (StateV {
        checkpoints: fin.checkpoints,
        check_msg_registry: fin.check_msg_registry,
        nonce: (s.nonce + 1) as u64,
        ..s
    })
}

/// A successful `commit_cross_message` of `c` with `fee` at `epoch`: going
/// down, the message is enqueued top-down and the fee becomes a top-down
/// propagation fee; otherwise it is scheduled bottom-up and its value, when
/// positive, must be burned by the caller.
pub open spec fn commit_cross_ok(
    s: StateV,
    c: CrossMsgV,
    fee: u64,
    epoch: u64,
    fin: StateV,
    m: CrossMsgV,
    do_burn: bool,
    tdf: u64,
) -> bool {
    if commit_goes_down(s, c) {
        let i = subnet_idx(s.subnets, td_child(s.network_name, c.msg.to.subnet));
        &&& fin == topdown_committed(s, i, c)
        &&& m == msg_with_nonce(c, s.subnets[i].nonce)
        &&& do_burn == false
        &&& tdf == fee
    } else {
        &&& bottomup_committed_rel(s, c, fee, epoch, fin)
        &&& m == msg_with_nonce(c, s.nonce)
        &&& do_burn == (c.msg.value > 0)
        &&& tdf == 0
    }
}

/// The owner set after whitelisting: each address of `to_add` that is not
/// yet an owner is appended, in order.
pub open spec fn add_owners(owners: Seq<u64>, to_add: Seq<u64>) -> Seq<u64>
    decreases to_add.len(),
{
    if to_add.len() == 0 {
        owners
    } else {
        let o2 = if owners.contains(to_add[0]) {
            owners
        } else {
            owners.push(to_add[0])
        };
        add_owners(o2, to_add.skip(1))
    }
}

/// What `Propagate` hands back to the host for its side effects: the
/// committed message, whether its value must be burned, the top-down fee to
/// distribute, and the remainder of the attached value to return to the
/// caller.
pub struct Propagated {
    pub cross_msg: CrossMsg,
    pub do_burn: bool,
    pub top_down_fee: u64,
    pub remainder: u64,
}

/// Parameters of `SendCross`: the raw message and the destination subnet.
pub struct CrossMsgParams {
    pub cross_msg: CrossMsg,
    pub destination: SubnetID,
}

impl Actor {
    /// Route one cross-message from this network: a message already at its
    /// destination is rejected; one that goes down from here is enqueued
    /// top-down (the fee becomes a top-down propagation fee); one that must
    /// still travel upward is scheduled into the current window's bottom-up
    /// bundle, and its value, when positive, is burned by the caller after
    /// the state change.
    pub fn commit_cross_message(st: &mut State, cross_msg: CrossMsg, fee: u64, curr_epoch: u64) -> (r:
        Result<(CrossMsg, bool, u64), ActorError>)
        requires
            state_wf(old(st)@),
            subs_headroom(old(st)@.subnets, cross_msg@.msg.value),
            old(st)@.nonce < u64::MAX,
            window_meta(old(st)@, window_of(curr_epoch, old(st)@.check_period)).value
                + cross_msg@.msg.value <= u64::MAX,
            window_meta(old(st)@, window_of(curr_epoch, old(st)@.check_period)).fee + fee
                <= u64::MAX,
        ensures
            state_wf(final(st)@),
            r is Err ==> final(st)@ == old(st)@,
            match commit_cross_err(old(st)@, cross_msg@) {
                Some(e) => r == Err::<(CrossMsg, bool, u64), ActorError>(e),
                None => (r matches Ok((m, b, f)) && commit_cross_ok(
                    old(st)@,
                    cross_msg@,
                    fee,
                    curr_epoch,
                    final(st)@,
                    m@,
                    b,
                    f,
                )),
            },
    {
        if cross_msg.msg.to.subnet.equals(&st.network_name) {
            return Err(ActorError::IllegalState);
        }
        let t = match cross_msg.msg.apply_type(&st.network_name) {
            Ok(t) => t,
            Err(e) => {
                return Err(e);
            },
        };
        match t {
            IPCMsgType::TopDown => {
                match st.commit_topdown_msg(cross_msg) {
                    Ok(m) => Ok((m, false, fee)),
                    Err(e) => Err(e),
                }
            },
            IPCMsgType::BottomUp => {
                let cp = cross_msg.msg.from.subnet.common_parent(&cross_msg.msg.to.subnet);
                if cp.equals(&st.network_name) {
                    match st.commit_topdown_msg(cross_msg) {
                        Ok(m) => Ok((m, false, fee)),
                        Err(e) => Err(e),
                    }
                } else {
                    let do_burn = cross_msg.msg.value > 0;
                    let mut m2 = cross_msg.dup();
                    m2.msg.nonce = st.nonce;
                    let ghost cmv = cross_msg@;
                    st.commit_bottomup_msg(cross_msg, fee, curr_epoch);
                    proof {
                        assert(m2@ =~= msg_with_nonce(cmv, old(st)@.nonce));
                    }
                    Ok((m2, do_burn, 0))
                }
            },
        }
    }

    /// Send an arbitrary cross-message toward `destination` on behalf of
    /// the calling actor: the message's addresses are rewritten to come
    /// from the caller on this network and to go to the original recipient
    /// inside `destination`, the attached value must equal the message's
    /// value, and the cross-message fee is deducted before routing.
    pub fn send_cross(
        st: &mut State,
        caller: u64,
        params: CrossMsgParams,
        value_received: u64,
        curr_epoch: u64,
    ) -> (r: Result<(CrossMsg, bool, u64), ActorError>)
        requires
            state_wf(old(st)@),
            subs_headroom(old(st)@.subnets, params.cross_msg@.msg.value),
            old(st)@.nonce < u64::MAX,
            window_meta(old(st)@, window_of(curr_epoch, old(st)@.check_period)).value
                + params.cross_msg@.msg.value <= u64::MAX,
            window_meta(old(st)@, window_of(curr_epoch, old(st)@.check_period)).fee
                + CROSS_MSG_FEE <= u64::MAX,
        ensures
            state_wf(final(st)@),
            r is Err ==> final(st)@ == old(st)@,
            params.destination.route@.len() == 0 ==> r == Err::<(CrossMsg, bool, u64), ActorError>(
                ActorError::IllegalArgument,
            ),
            params.destination.route@.len() > 0 && params.destination.route@ == old(
                st,
            )@.network_name ==> r == Err::<(CrossMsg, bool, u64), ActorError>(
                ActorError::IllegalArgument,
            ),
            ({
                let d = params.destination.route@;
                let m0 = params.cross_msg@.msg;
                let c2 = CrossMsgV {
                    msg: StorableMsgV {
                        from: IPCAddressV { subnet: old(st)@.network_name, raw: caller },
                        to: IPCAddressV { subnet: d, raw: m0.to.raw },
                        method: m0.method,
                        params: m0.params,
                        value: (m0.value - CROSS_MSG_FEE) as u64,
                        nonce: m0.nonce,
                    },
                    wrapped: params.cross_msg@.wrapped,
                };
                d.len() > 0 && d != old(st)@.network_name ==> {
                    if value_received != m0.value {
                        r == Err::<(CrossMsg, bool, u64), ActorError>(ActorError::IllegalArgument)
                    } else if m0.value <= CROSS_MSG_FEE {
                        r == Err::<(CrossMsg, bool, u64), ActorError>(
                            ActorError::InsufficientFunds,
                        )
                    } else {
                        match commit_cross_err(old(st)@, c2) {
                            Some(e) => r == Err::<(CrossMsg, bool, u64), ActorError>(e),
                            None => (r matches Ok((m, b, f)) && commit_cross_ok(
                                old(st)@,
                                c2,
                                CROSS_MSG_FEE,
                                curr_epoch,
                                final(st)@,
                                m@,
                                b,
                                f,
                            )),
                        }
                    }
                }
            }),
    {
        if params.destination.route.len() == 0 {
            return Err(ActorError::IllegalArgument);
        }
        if params.destination.equals(&st.network_name) {
            return Err(ActorError::IllegalArgument);
        }
        let CrossMsgParams { mut cross_msg, destination } = params;
        let to_raw = cross_msg.msg.to.raw;
        cross_msg.msg.to = IPCAddress::new(&destination, to_raw);
        cross_msg.msg.from = IPCAddress::new(&st.network_name, caller);
        if value_received != cross_msg.msg.value {
            return Err(ActorError::IllegalArgument);
        }
        let remaining = match collect_cross_fee(cross_msg.msg.value, CROSS_MSG_FEE) {
            Ok(v) => v,
            Err(e) => {
                return Err(e);
            },
        };
        cross_msg.msg.value = remaining;
        proof {
            assert(subs_headroom(st@.subnets, cross_msg@.msg.value)) by {
                assert forall|i: int| 0 <= i < st@.subnets.len() implies (
                #[trigger] st@.subnets[i]).circ_supply + cross_msg@.msg.value <= u64::MAX
                    && st@.subnets[i].nonce < u64::MAX by {
                    assert(st@.subnets[i].circ_supply + params.cross_msg@.msg.value <= u64::MAX);
                }
            }
        }
        Actor::commit_cross_message(st, cross_msg, CROSS_MSG_FEE, curr_epoch)
    }

    /// Extend the owner set of a parked message. Only an existing owner may
    /// whitelist propagators, an entry without owners accepts none, and a
    /// missing key is an illegal state.
    pub fn whitelist_propagator(
        st: &mut State,
        caller: u64,
        postbox_cid: &Vec<u8>,
        to_add: Vec<u64>,
    ) -> (r: Result<(), ActorError>)
        requires
            state_wf(old(st)@),
        ensures
            state_wf(final(st)@),
            r is Err ==> final(st)@ == old(st)@,
            !postbox_has(old(st)@.postbox, postbox_cid@) ==> r == Err::<(), ActorError>(
                ActorError::IllegalState,
            ),
            postbox_has(old(st)@.postbox, postbox_cid@) ==> {
                let item = postbox_item_of(old(st)@.postbox, postbox_cid@);
                match item.owners {
                    None => r == Err::<(), ActorError>(ActorError::IllegalState),
                    Some(owners) => {
                        if !owners.contains(caller) {
                            r == Err::<(), ActorError>(ActorError::IllegalState)
                        } else {
                            &&& r == Ok::<(), ActorError>(())
                            &&& final(st)@.postbox == old(st)@.postbox.update(
                                pb_idx(old(st)@.postbox, postbox_cid@),
                                PostboxEntryV {
                                    cid: postbox_cid@,
                                    item: PostBoxItemV {
                                        cross_msg: item.cross_msg,
                                        owners: Some(add_owners(owners, to_add@)),
                                    },
                                },
                            )
                            &&& final(st)@ == (StateV {
                                postbox: final(st)@.postbox,
                                ..old(st)@
                            })
                        }
                    },
                }
            },
    {
        let idx = match st.find_postbox(postbox_cid) {
            Some(i) => i,
            None => {
                return Err(ActorError::IllegalState);
            },
        };
        proof {
            lemma_pb_idx(st@.postbox, postbox_cid@, idx as int);
        }
        match &st.postbox[idx].item.owners {
            None => {
                return Err(ActorError::IllegalState);
            },
            Some(o) => {
                if !route_contains(o, caller) {
                    return Err(ActorError::IllegalState);
                }
            },
        }
        let mut entry = st.postbox.remove(idx);
        match entry.item.owners {
            Some(mut owners) => {
                let ghost orig = owners@;
                proof {
                    assert(to_add@.skip(0) =~= to_add@);
                }
                let n = to_add.len();
                let mut i: usize = 0;
                while i < n
                    invariant
                        n == to_add@.len(),
                        0 <= i <= n,
                        add_owners(orig, to_add@) == add_owners(owners@, to_add@.skip(i as int)),
                    decreases n - i,
                {
                    proof {
                        assert(to_add@.skip(i as int)[0] == to_add@[i as int]);
                        assert(to_add@.skip(i as int).skip(1) =~= to_add@.skip(i + 1 as int));
                    }
                    if !route_contains(&owners, to_add[i]) {
                        owners.push(to_add[i]);
                    }
                    i += 1;
                }
                proof {
                    assert(to_add@.skip(n as int) =~= Seq::<u64>::empty());
                    assert(add_owners(owners@, to_add@.skip(n as int)) == owners@);
                }
                entry.item.owners = Some(owners);
            },
            None => {
                proof {
                    assert(false);
                }
                return Err(ActorError::IllegalState);
            },
        }
        st.postbox.insert(idx, entry);
        proof {
            let old0 = old(st)@;
            let item = postbox_item_of(old0.postbox, postbox_cid@);
            assert(st@.postbox =~= old0.postbox.update(
                idx as int,
                PostboxEntryV {
                    cid: postbox_cid@,
                    item: PostBoxItemV {
                        cross_msg: item.cross_msg,
                        owners: Some(
                            add_owners(
                                match item.owners {
                                    Some(o) => o,
                                    None => Seq::<u64>::empty(),
                                },
                                to_add@,
                            ),
                        ),
                    },
                },
            ));
            assert forall|i: int, j: int| 0 <= i < j < st@.postbox.len() implies st@.postbox[i].cid
                != st@.postbox[j].cid by {
                assert(old0.postbox[i].cid != old0.postbox[j].cid);
            }
            assert(st@ =~= StateV { postbox: st@.postbox, ..old0 });
        }
        Ok(())
    }

    /// Propagate a parked message: the caller, when an owner set exists,
    /// must be in it; the attached value pays the cross-message fee and its
    /// remainder is returned to the caller; the message is routed onward by
    /// `commit_cross_message`; and the postbox entry is removed, exactly
    /// once — re-invoking with the same key afterwards is an illegal state.
    pub fn propagate(
        st: &mut State,
        caller: u64,
        postbox_cid: &Vec<u8>,
        value: u64,
        curr_epoch: u64,
    ) -> (r: Result<Propagated, ActorError>)
        requires
            state_wf(old(st)@),
            old(st)@.nonce < u64::MAX,
            postbox_has(old(st)@.postbox, postbox_cid@) ==> {
                let c = postbox_item_of(old(st)@.postbox, postbox_cid@).cross_msg;
                &&& subs_headroom(old(st)@.subnets, c.msg.value)
                &&& window_meta(old(st)@, window_of(curr_epoch, old(st)@.check_period)).value
                    + c.msg.value <= u64::MAX
                &&& window_meta(old(st)@, window_of(curr_epoch, old(st)@.check_period)).fee
                    + CROSS_MSG_FEE <= u64::MAX
            },
        ensures
            state_wf(final(st)@),
            r is Err ==> final(st)@ == old(st)@,
            !postbox_has(old(st)@.postbox, postbox_cid@) ==> r == Err::<Propagated, ActorError>(
                ActorError::IllegalState,
            ),
            postbox_has(old(st)@.postbox, postbox_cid@) ==> {
                let item = postbox_item_of(old(st)@.postbox, postbox_cid@);
                let authorized = match item.owners {
                    Some(o) => o.contains(caller),
                    None => true,
                };
                if !authorized {
                    r == Err::<Propagated, ActorError>(ActorError::IllegalState)
                } else if value <= CROSS_MSG_FEE {
                    r == Err::<Propagated, ActorError>(ActorError::InsufficientFunds)
                } else {
                    match commit_cross_err(old(st)@, item.cross_msg) {
                        Some(e) => r == Err::<Propagated, ActorError>(e),
                        None => {
                            &&& (r matches Ok(p) && commit_cross_ok(
                                old(st)@,
                                item.cross_msg,
                                CROSS_MSG_FEE,
                                curr_epoch,
                                StateV { postbox: old(st)@.postbox, ..final(st)@ },
                                p.cross_msg@,
                                p.do_burn,
                                p.top_down_fee,
                            ) && p.remainder == value - CROSS_MSG_FEE)
                            &&& final(st)@.postbox == old(st)@.postbox.remove(
                                pb_idx(old(st)@.postbox, postbox_cid@),
                            )
                            &&& !postbox_has(final(st)@.postbox, postbox_cid@)
                        },
                    }
                }
            },
    {
        let idx = match st.find_postbox(postbox_cid) {
            Some(i) => i,
            None => {
                return Err(ActorError::IllegalState);
            },
        };
        proof {
            lemma_pb_idx(st@.postbox, postbox_cid@, idx as int);
        }
        match &st.postbox[idx].item.owners {
            Some(o) => {
                if !route_contains(o, caller) {
                    return Err(ActorError::IllegalState);
                }
            },
            None => {},
        }
        let remainder = match collect_cross_fee(value, CROSS_MSG_FEE) {
            Ok(v) => v,
            Err(e) => {
                return Err(e);
            },
        };
        let msg = st.postbox[idx].item.cross_msg.dup();
        let ghost before = st@;
        match Actor::commit_cross_message(st, msg, CROSS_MSG_FEE, curr_epoch) {
            Ok((m, b, f)) => {
                proof {
                    assert(st@.postbox == old(st)@.postbox);
                }
                st.postbox.remove(idx);
                proof {
                    assert(st@.postbox =~= old(st)@.postbox.remove(idx as int));
                    lemma_removed_postbox_key_names_nothing(old(st)@.postbox, postbox_cid@);
                    assert forall|i: int, j: int| 0 <= i < j < st@.postbox.len() implies st@.postbox[i].cid != st@.postbox[j].cid by {
                        let pb = old(st)@.postbox;
                        if i < idx as int {
                            if j < idx as int {
                                assert(pb[i].cid != pb[j].cid);
                            } else {
                                assert(pb[i].cid != pb[j + 1].cid);
                            }
                        } else {
                            assert(pb[i + 1].cid != pb[j + 1].cid);
                        }
                    }
                    assert(StateV { postbox: old(st)@.postbox, ..st@ } =~= StateV {
                        postbox: old(st)@.postbox,
                        ..StateV { postbox: st@.postbox, ..st@ }
                    });
                }
                Ok(Propagated { cross_msg: m, do_burn: b, top_down_fee: f, remainder })
            },
            Err(e) => Err(e),
        }
    }
}


/// The aggregated value of the bundle attached to a checkpoint, zero when
/// none is attached.
pub open spec fn bundle_value(cv: CheckpointV) -> u64 {
    match cv.cross_msgs {
        Some(m) => m.value,
        None => 0,
    }
}

/// The aggregated fee of the bundle attached to a checkpoint, zero when
/// none is attached.
pub open spec fn bundle_fee(cv: CheckpointV) -> u64 {
    match cv.cross_msgs {
        Some(m) => m.fee,
        None => 0,
    }
}

/// A checkpoint carries messages to store: its bundle's content identifier
/// is set.
pub open spec fn bundle_stored(cv: CheckpointV) -> bool {
    match cv.cross_msgs {
        Some(m) => m.msgs_cid.len() > 0,
        None => false,
    }
}

/// The registry entry after a child checkpoint commit: the bundle's value
/// leaves the circulating supply, and the committed checkpoint becomes the
/// subnet's previous checkpoint.
pub open spec fn sub_after_commit(sub: SubnetV, cv: CheckpointV) -> SubnetV {
    SubnetV {
        circ_supply: (sub.circ_supply - bundle_value(cv)) as u64,
        prev_checkpoint: Some(cv),
        ..sub
    }
}

impl Actor {
    /// Commit a checkpoint of a child subnet, called by that child's
    /// governing actor. The checkpoint must come from the caller's subnet,
    /// the subnet must be registered and active, the checkpoint must extend
    /// the previous committed one (younger epoch, matching content
    /// identifier), and one window accepts at most one checkpoint per
    /// source. A bundle of bottom-up messages is stored for execution under
    /// the next bottom-up batch nonce, and its value leaves the child's
    /// circulating supply. The returned fee is distributed to the child's
    /// validators by the host after the state change.
    #[verifier::rlimit(80)]
    pub fn commit_child_check(st: &mut State, caller: u64, commit: Checkpoint, curr_epoch: u64) -> (r:
        Result<u64, ActorError>)
        requires
            state_wf(old(st)@),
            old(st)@.bottomup_nonce < u64::MAX,
        ensures
            state_wf(final(st)@),
            r is Err ==> final(st)@ == old(st)@,
            ({
                let n = old(st)@.network_name;
                let child = child_of(n, caller);
                let cv = commit@;
                let w = window_of(curr_epoch, old(st)@.check_period);
                if cv.source.len() == 0 || cv.source[cv.source.len() - 1] != caller {
                    r == Err::<u64, ActorError>(ActorError::IllegalArgument)
                } else if !has_subnet(old(st)@.subnets, child) {
                    r == Err::<u64, ActorError>(ActorError::IllegalArgument)
                } else {
                    let i = subnet_idx(old(st)@.subnets, child);
                    let sub = old(st)@.subnets[i];
                    if sub.status != Status::Active {
                        r == Err::<u64, ActorError>(ActorError::IllegalState)
                    } else if (sub.prev_checkpoint matches Some(p) && cv.epoch <= p.epoch) {
                        r == Err::<u64, ActorError>(ActorError::IllegalArgument)
                    } else if (sub.prev_checkpoint matches Some(p) && cv.prev_check
                        != checkpoint_cid(p)) {
                        r == Err::<u64, ActorError>(ActorError::IllegalArgument)
                    } else if sub.circ_supply < bundle_value(cv) {
                        r == Err::<u64, ActorError>(ActorError::IllegalState)
                    } else if has_child_source(window_checkpoint(old(st)@, w).children, cv.source) {
                        r == Err::<u64, ActorError>(ActorError::IllegalArgument)
                    } else {
                        &&& r == Ok::<u64, ActorError>(bundle_fee(cv))
                        &&& final(st)@.subnets == old(st)@.subnets.update(
                            i,
                            sub_after_commit(sub, cv),
                        )
                        &&& window_checkpoint(final(st)@, w) == (CheckpointV {
                            children: window_checkpoint(old(st)@, w).children.push(
                                ChildCheckV { source: cv.source, checks: seq![checkpoint_cid(cv)] },
                            ),
                            ..window_checkpoint(old(st)@, w)
                        })
                        &&& (forall|e: u64| e != w ==> window_checkpoint(final(st)@, e)
                            == window_checkpoint(old(st)@, e))
                        &&& (forall|e: u64| window_msgs(final(st)@, e) == window_msgs(old(st)@, e))
                        &&& (bundle_stored(cv) ==> final(st)@.bottomup_msg_meta == old(
                            st,
                        )@.bottomup_msg_meta.push(
                            match cv.cross_msgs {
                                Some(m) => CrossMsgMetaV { nonce: old(st)@.bottomup_nonce, ..m },
                                None => empty_meta(),
                            },
                        ) && final(st)@.bottomup_nonce == old(st)@.bottomup_nonce + 1)
                        &&& (!bundle_stored(cv) ==> final(st)@.bottomup_msg_meta == old(
                            st,
                        )@.bottomup_msg_meta && final(st)@.bottomup_nonce == old(
                            st,
                        )@.bottomup_nonce)
                        &&& total_circ(final(st)@.subnets) == total_circ(old(st)@.subnets)
                            - bundle_value(cv)
                        &&& final(st)@ == (StateV {
                            subnets: final(st)@.subnets,
                            checkpoints: final(st)@.checkpoints,
                            bottomup_msg_meta: final(st)@.bottomup_msg_meta,
                            bottomup_nonce: final(st)@.bottomup_nonce,
                            ..old(st)@
                        })
                    }
                }
            }),
    {
        match commit.source.subnet_actor() {
            Some(a) => {
                if a != caller {
                    return Err(ActorError::IllegalArgument);
                }
            },
            None => {
                return Err(ActorError::IllegalArgument);
            },
        }
        let shid = SubnetID::new_from_parent(&st.network_name, caller);
        let idx = match st.find_subnet(&shid) {
            Some(i) => i,
            None => {
                return Err(ActorError::IllegalArgument);
            },
        };
        proof {
            lemma_subnet_idx(st@.subnets, shid.route@, idx as int);
        }
        match st.subnets[idx].status {
            Status::Active => {},
            _ => {
                return Err(ActorError::IllegalState);
            },
        }
        match &st.subnets[idx].prev_checkpoint {
            Some(p) => {
                if commit.epoch <= p.epoch {
                    return Err(ActorError::IllegalArgument);
                }
                let pc = p.cid();
                if !bytes_eq(&commit.prev_check, &pc) {
                    return Err(ActorError::IllegalArgument);
                }
            },
            None => {},
        }
        let bundle_val: u64;
        let fee: u64;
        let store_bundle: bool;
        match &commit.cross_msgs {
            Some(m) => {
                bundle_val = m.value;
                fee = m.fee;
                store_bundle = m.msgs_cid.len() > 0;
            },
            None => {
                bundle_val = 0;
                fee = 0;
                store_bundle = false;
            },
        }
        if st.subnets[idx].circ_supply < bundle_val {
            return Err(ActorError::IllegalState);
        }
        let w = window_epoch(curr_epoch, st.check_period);
        let mut ch: Checkpoint;
        let ck_at: usize;
        let ck_found: bool;
        match st.find_checkpoint(w) {
            Some(i) => {
                proof {
                    lemma_ck_idx(st@.checkpoints, w, i as int);
                }
                let entry = st.checkpoints.remove(i);
                ch = entry.checkpoint;
                ck_at = i;
                ck_found = true;
            },
            None => {
                ch = Checkpoint::new(&st.network_name, w);
                ck_at = st.checkpoints.len();
                ck_found = false;
            },
        }
        proof {
            assert(ch@ == window_checkpoint(old(st)@, w));
        }
        let commit_cid = commit.cid();
        match ch.add_child_check(&commit.source, commit_cid) {
            Ok(()) => {},
            Err(e) => {
                if ck_found {
                    st.checkpoints.insert(ck_at, CheckpointEntry { epoch: w, checkpoint: ch });
                    proof {
                        assert(st@.checkpoints =~= old(st)@.checkpoints);
                        assert(st@ =~= old(st)@);
                    }
                } else {
                    proof {
                        assert(st@ =~= old(st)@);
                    }
                }
                return Err(e);
            },
        }
        if store_bundle {
            match &commit.cross_msgs {
                Some(m) => {
                    let mut meta2 = m.dup();
                    meta2.nonce = st.bottomup_nonce;
                    st.bottomup_msg_meta.push(meta2);
                    st.bottomup_nonce = st.bottomup_nonce + 1;
                },
                None => {},
            }
        }
        let mut sub = st.subnets.remove(idx);
        sub.circ_supply = sub.circ_supply - bundle_val;
        sub.prev_checkpoint = Some(commit);
        st.subnets.insert(idx, sub);
        let ghost chv = ch@;
        st.checkpoints.insert(ck_at, CheckpointEntry { epoch: w, checkpoint: ch });
        proof {
            let fin = st@;
            let old0 = old(st)@;
            let cv = commit@;
            let i = idx as int;
            let oldsub = old0.subnets[i];
            assert(fin.subnets[i].prev_checkpoint == Some(cv));
            assert(fin.subnets[i] =~= sub_after_commit(oldsub, cv));
            assert(fin.subnets =~= old0.subnets.update(i, sub_after_commit(oldsub, cv)));
            lemma_total_circ_update(old0.subnets, i, sub_after_commit(oldsub, cv));
            assert(chv =~= CheckpointV {
                children: window_checkpoint(old0, w).children.push(
                    ChildCheckV { source: cv.source, checks: seq![checkpoint_cid(cv)] },
                ),
                ..window_checkpoint(old0, w)
            });
            assert(fin.checkpoints[ck_at as int].epoch == w);
            assert(fin.checkpoints[ck_at as int].checkpoint == chv);
            assert forall|a: int, b: int| 0 <= a < b < fin.checkpoints.len() implies fin.checkpoints[a].epoch != fin.checkpoints[b].epoch by {
                if ck_found {
                    assert(fin.checkpoints =~= old0.checkpoints.update(
                        ck_at as int,
                        fin.checkpoints[ck_at as int],
                    ));
                } else {
                    assert(fin.checkpoints =~= old0.checkpoints.push(
                        fin.checkpoints[ck_at as int],
                    ));
                    if b == fin.checkpoints.len() - 1 {
                        assert(old0.checkpoints[a].epoch != w);
                    }
                }
            }
            lemma_ck_idx(fin.checkpoints, w, ck_at as int);
            assert(window_checkpoint(fin, w) == chv);
            assert forall|e: u64| e != w implies window_checkpoint(fin, e) == window_checkpoint(
                old0,
                e,
            ) by {
                if has_ck(old0.checkpoints, e) {
                    let j = ck_idx(old0.checkpoints, e);
                    if ck_found {
                        lemma_ck_idx(old0.checkpoints, w, ck_at as int);
                        assert(j != ck_at as int);
                    }
                    assert(fin.checkpoints[j].epoch == e);
                    lemma_ck_idx(fin.checkpoints, e, j);
                } else {
                    if has_ck(fin.checkpoints, e) {
                        let j = ck_idx(fin.checkpoints, e);
                        assert(fin.checkpoints[j].epoch == e);
                        if j == ck_at as int {
                            assert(false);
                        } else {
                            assert(old0.checkpoints[j].epoch == e);
                            assert(false);
                        }
                    }
                }
            }
            assert forall|e: u64| window_msgs(fin, e) == window_msgs(old0, e) by {
                assert(fin.check_msg_registry == old0.check_msg_registry);
            }
            assert(fin =~= StateV {
                subnets: fin.subnets,
                checkpoints: fin.checkpoints,
                bottomup_msg_meta: fin.bottomup_msg_meta,
                bottomup_nonce: fin.bottomup_nonce,
                ..old0
            });
            if bundle_stored(cv) {
                assert(fin.bottomup_msg_meta =~= old0.bottomup_msg_meta.push(
                    match cv.cross_msgs {
                        Some(m) => CrossMsgMetaV { nonce: old0.bottomup_nonce, ..m },
                        None => empty_meta(),
                    },
                ));
            }
        }
        Ok(fee)
    }
}


/// Parameters of `ReleaseStake`: the amount of collateral to recover.
pub struct FundParams {
    pub value: u64,
}

/// The gateway's method surface, as named by its callers.
#[derive(Clone, Copy, Debug, PartialEq, Eq, Structural)]
pub enum Method {
    Constructor,
    Register,
    AddStake,
    ReleaseStake,
    Kill,
    CommitChildCheckpoint,
    Fund,
    Release,
    SendCross,
    ApplyMessage,
    Propagate,
    WhiteListPropagator,
}


/// Committing a message top-down adds exactly the message's value to the
/// total circulating supply tracked for the children: supply grows only by
/// what is injected from above.
pub proof fn lemma_topdown_commit_supply_delta(s: StateV, i: int, c: CrossMsgV)
    requires
        0 <= i < s.subnets.len(),
        s.subnets[i].circ_supply + c.msg.value <= u64::MAX,
    ensures
        total_circ(topdown_committed(s, i, c).subnets) == total_circ(s.subnets) + c.msg.value,
{
    lemma_total_circ_update(s.subnets, i, topdown_committed(s, i, c).subnets[i]);
}

/// Committing a child checkpoint removes exactly the bundle's value from
/// the total circulating supply: supply shrinks only by what an applied
/// bottom-up bundle releases.
pub proof fn lemma_child_commit_supply_delta(s: StateV, i: int, cv: CheckpointV)
    requires
        0 <= i < s.subnets.len(),
        s.subnets[i].circ_supply >= bundle_value(cv),
    ensures
        total_circ(s.subnets.update(i, sub_after_commit(s.subnets[i], cv))) == total_circ(
            s.subnets,
        ) - bundle_value(cv),
{
    lemma_total_circ_update(s.subnets, i, sub_after_commit(s.subnets[i], cv));
}


/// Fund round trip: the message that a successful `Fund` for `dest` leaves
/// at the tail of the child's top-down queue classifies top-down at the
/// destination gateway, carries the next top-down nonce of that child, and,
/// applied there at that nonce, dispatches exactly `value` less the
/// cross-message fee to the funding account.
pub proof fn lemma_fund_round_trip(s: StateV, dest: Seq<u64>, signer: u64, value: u64)
    requires
        value > CROSS_MSG_FEE,
        dest.len() > 1,
        has_subnet(s.subnets, td_child(s.network_name, dest)),
    ensures
        ({
            let i = subnet_idx(s.subnets, td_child(s.network_name, dest));
            let cm = CrossMsgV {
                msg: fund_msg_v(dest, signer, (value - CROSS_MSG_FEE) as u64),
                wrapped: false,
            };
            let fin = topdown_committed(s, i, cm);
            let m = fin.subnets[i].topdown_msgs.last().msg;
            &&& fin.subnets[i].topdown_msgs.len() == s.subnets[i].topdown_msgs.len() + 1
            &&& apply_type_route(dest, m.from.subnet, m.to.subnet) == Some(IPCMsgType::TopDown)
            &&& m.to.subnet == dest
            &&& m.to.raw == signer
            &&& m.value == value - CROSS_MSG_FEE
            &&& m.nonce == s.subnets[i].nonce
        }),
{
    let i = subnet_idx(s.subnets, td_child(s.network_name, dest));
    assert(0 <= i < s.subnets.len());
    let v2 = (value - CROSS_MSG_FEE) as u64;
    assert(is_fund_msg(fund_msg_v(dest, signer, v2), dest, signer, v2));
    lemma_fund_msg_applies_topdown(fund_msg_v(dest, signer, v2), dest, signer, v2);
}

/// Release round trip: the message that a successful `Release` schedules
/// into the window's bottom-up bundle classifies bottom-up at the parent
/// gateway, is addressed to the parent network itself, carries this
/// gateway's bottom-up nonce, and, applied there at the matching nonce,
/// dispatches exactly `value` less the cross-message fee to the releasing
/// account.
pub proof fn lemma_release_round_trip(s: StateV, signer: u64, value: u64)
    requires
        value > CROSS_MSG_FEE,
        s.network_name.len() > 1,
    ensures
        ({
            let parent = s.network_name.subrange(0, s.network_name.len() - 1);
            let m = release_msg_v(s.network_name, signer, (value - CROSS_MSG_FEE) as u64, s.nonce);
            &&& apply_type_route(parent, m.from.subnet, m.to.subnet) == Some(IPCMsgType::BottomUp)
            &&& m.to.subnet == parent
            &&& m.to.raw == signer
            &&& m.value == value - CROSS_MSG_FEE
            &&& m.nonce == s.nonce
        }),
{
    let v2 = (value - CROSS_MSG_FEE) as u64;
    let m = release_msg_v(s.network_name, signer, v2, s.nonce);
    assert(is_release_msg(m, s.network_name, signer, v2, s.nonce));
    lemma_release_msg_applies_bottomup(m, s.network_name, signer, v2, s.nonce);
}

} // verus!
