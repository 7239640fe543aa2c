//! The subnet actor: validator book (stake table and validator set) and the
//! checkpoint vote tally, governing one subnet on its parent network.

use crate::address::{route_contains, SubnetID};
use crate::checkpoint::{checkpoint_cid, Checkpoint};
use crate::encode::{bytes_dup, bytes_eq};
use crate::errors::ActorError;
use crate::gateway::{CheckpointEntry, CheckpointEntryV, FundParams};
use crate::MIN_COLLATERAL_AMOUNT;
use vstd::prelude::*;

verus! {

/// Lifecycle status of the subnet governed by this actor.
#[derive(Clone, Copy, Debug, PartialEq, Eq, Structural)]
pub enum Status {
    Instantiated,
    Active,
    Inactive,
    Terminating,
    Killed,
}

/// One validator's collateral.
#[derive(Clone, Copy, Debug, PartialEq, Eq, Structural)]
pub struct StakeEntry {
    pub addr: u64,
    pub amount: u64,
}

/// A member of the validator set, with the network address it serves on.
pub struct Validator {
    pub addr: u64,
    pub net_addr: String,
}

/// Spec-level value of a validator.
#[verifier::ext_equal]
pub ghost struct ValidatorV {
    pub addr: u64,
    pub net_addr: Seq<char>,
}

impl View for Validator {
    type V = ValidatorV;

    open spec fn view(&self) -> ValidatorV {
        ValidatorV { addr: self.addr, net_addr: self.net_addr@ }
    }
}

/// The votes gathered for one checkpoint, keyed by its content identifier.
pub struct VotesEntry {
    pub cid: Vec<u8>,
    pub validators: Vec<u64>,
}

/// Spec-level value of a vote entry.
#[verifier::ext_equal]
pub ghost struct VotesEntryV {
    pub cid: Seq<u8>,
    pub validators: Seq<u64>,
}

impl View for VotesEntry {
    type V = VotesEntryV;

    open spec fn view(&self) -> VotesEntryV {
        VotesEntryV { cid: self.cid@, validators: self.validators@ }
    }
}

/// The subnet actor's method surface, as a host's dispatch names it.
#[derive(Clone, Copy, Debug, PartialEq, Eq, Structural)]
pub enum Method {
    Constructor,
    Join,
    Leave,
    Kill,
    SubmitCheckpoint,
    Reward,
}

/// Construction parameters of a subnet actor.
pub struct ConstructParams {
    pub parent: SubnetID,
    pub name: String,
    pub consensus: u64,
    pub min_validator_stake: u64,
    pub check_period: u64,
    pub genesis: Vec<u8>,
    pub ipc_gateway_addr: u64,
}

/// What the subnet actor asks the host to send to the gateway after one of
/// its methods commits.
pub struct CrossActorPayload {
    pub to: u64,
    pub method: crate::gateway::Method,
    pub params: Option<PayloadParams>,
    pub value: u64,
}

/// The parameters carried by a payload to the gateway.
pub enum PayloadParams {
    Fund(FundParams),
    Checkpoint(Checkpoint),
}

/// A validator's share of a reward distribution.
#[derive(Clone, Copy, Debug, PartialEq, Eq, Structural)]
pub struct RewardShare {
    pub addr: u64,
    pub amount: u64,
}

/// The subnet actor's persistent state.
pub struct State {
    pub name: String,
    pub parent_id: SubnetID,
    pub ipc_gateway_addr: u64,
    pub consensus: u64,
    pub min_validator_stake: u64,
    pub total_stake: u64,
    pub stake: Vec<StakeEntry>,
    pub validator_set: Vec<Validator>,
    pub genesis: Vec<u8>,
    pub status: Status,
    pub check_period: u64,
    pub checkpoints: Vec<CheckpointEntry>,
    pub window_checks: Vec<VotesEntry>,
    pub prev_checkpoint: Option<Checkpoint>,
}

/// Spec-level value of the subnet actor state.
#[verifier::ext_equal]
pub ghost struct StateV {
    pub name: Seq<char>,
    pub parent_id: Seq<u64>,
    pub ipc_gateway_addr: u64,
    pub consensus: u64,
    pub min_validator_stake: u64,
    pub total_stake: u64,
    pub stake: Seq<StakeEntry>,
    pub validator_set: Seq<ValidatorV>,
    pub genesis: Seq<u8>,
    pub status: Status,
    pub check_period: u64,
    pub checkpoints: Seq<CheckpointEntryV>,
    pub window_checks: Seq<VotesEntryV>,
    pub prev_checkpoint: Option<crate::checkpoint::CheckpointV>,
}

impl View for State {
    type V = StateV;

    open spec fn view(&self) -> StateV {
        StateV {
            name: self.name@,
            parent_id: self.parent_id.route@,
            ipc_gateway_addr: self.ipc_gateway_addr,
            consensus: self.consensus,
            min_validator_stake: self.min_validator_stake,
            total_stake: self.total_stake,
            stake: self.stake@,
            validator_set: self.validator_set@.map_values(|v: Validator| v@),
            genesis: self.genesis@,
            status: self.status,
            check_period: self.check_period,
            checkpoints: self.checkpoints@.map_values(|c: CheckpointEntry| c@),
            window_checks: self.window_checks@.map_values(|v: VotesEntry| v@),
            prev_checkpoint: match self.prev_checkpoint {
                Some(c) => Some(c@),
                None => None,
            },
        }
    }
}

/// A stake table entry for `addr` exists.
pub open spec fn has_stake(s: Seq<StakeEntry>, addr: u64) -> bool {
    exists|i: int| 0 <= i < s.len() && s[i].addr == addr
}

/// The index of the stake entry of `addr`.
pub open spec fn stake_idx(s: Seq<StakeEntry>, addr: u64) -> int {
    choose|i: int| 0 <= i < s.len() && s[i].addr == addr
}

/// The collateral recorded for `addr`, zero when none is.
pub open spec fn stake_of(s: Seq<StakeEntry>, addr: u64) -> u64 {
    if has_stake(s, addr) {
        s[stake_idx(s, addr)].amount
    } else {
        0
    }
}

/// The stake table after `addr` adds `v`.
pub open spec fn stake_added(s: Seq<StakeEntry>, addr: u64, v: u64) -> Seq<StakeEntry> {
    if has_stake(s, addr) {
        s.update(
            stake_idx(s, addr),
            StakeEntry { addr, amount: (s[stake_idx(s, addr)].amount + v) as u64 },
        )
    } else {
        s.push(StakeEntry { addr, amount: v })
    }
}

/// No two stake entries describe the same address.
pub open spec fn unique_stake_addrs(s: Seq<StakeEntry>) -> bool {
    forall|i: int, j: int| 0 <= i < j < s.len() ==> s[i].addr != s[j].addr
}

/// With unique addresses, the index of a stake entry is pinned by any
/// witness.
pub proof fn lemma_stake_idx(s: Seq<StakeEntry>, addr: u64, i: int)
    requires
        unique_stake_addrs(s),
        0 <= i < s.len(),
        s[i].addr == addr,
    ensures
        stake_idx(s, addr) == i,
        has_stake(s, addr),
{
    assert(has_stake(s, addr));
    let j = stake_idx(s, addr);
    if j != i {
        if j < i {
            assert(s[j].addr != s[i].addr);
        } else {
            assert(s[i].addr != s[j].addr);
        }
    }
}

/// Sum of all recorded collateral.
pub open spec fn stake_sum(s: Seq<StakeEntry>) -> int
    decreases s.len(),
{
    if s.len() == 0 {
        0
    } else {
        stake_sum(s.drop_last()) + s.last().amount
    }
}

/// Replacing one entry changes the sum by the difference of that entry.
pub proof fn lemma_stake_sum_update(s: Seq<StakeEntry>, i: int, e: StakeEntry)
    requires
        0 <= i < s.len(),
    ensures
        stake_sum(s.update(i, e)) == stake_sum(s) - s[i].amount + e.amount,
    decreases s.len(),
{
    let u = s.update(i, e);
    if i == s.len() - 1 {
        assert(u.drop_last() =~= s.drop_last());
        assert(u.last() == e);
    } else {
        assert(u.drop_last() =~= s.drop_last().update(i, e));
        lemma_stake_sum_update(s.drop_last(), i, e);
        assert(u.last() == s.last());
    }
}

/// Appending an entry adds its amount to the sum.
pub proof fn lemma_stake_sum_push(s: Seq<StakeEntry>, e: StakeEntry)
    ensures
        stake_sum(s.push(e)) == stake_sum(s) + e.amount,
{
    assert(s.push(e).drop_last() =~= s);
}

/// The sum is no smaller than any single entry (all amounts are
/// non-negative).
pub proof fn lemma_stake_entry_le_sum(s: Seq<StakeEntry>, i: int)
    requires
        0 <= i < s.len(),
    ensures
        s[i].amount <= stake_sum(s),
        stake_sum(s) >= 0,
    decreases s.len(),
{
    lemma_stake_sum_nonneg(s.drop_last());
    if i == s.len() - 1 {
    } else {
        lemma_stake_entry_le_sum(s.drop_last(), i);
    }
}

/// The sum of non-negative amounts is non-negative.
pub proof fn lemma_stake_sum_nonneg(s: Seq<StakeEntry>)
    ensures
        stake_sum(s) >= 0,
    decreases s.len(),
{
    if s.len() > 0 {
        lemma_stake_sum_nonneg(s.drop_last());
    }
}

/// A validator with address `addr` is in the set.
pub open spec fn has_validator(vs: Seq<ValidatorV>, addr: u64) -> bool {
    exists|i: int| 0 <= i < vs.len() && vs[i].addr == addr
}

/// The index of the validator with address `addr`.
pub open spec fn val_idx(vs: Seq<ValidatorV>, addr: u64) -> int {
    choose|i: int| 0 <= i < vs.len() && vs[i].addr == addr
}

/// The validator set after `addr` joins with network address `net`: an
/// existing member's network address is updated, a new member is appended.
pub open spec fn validators_added(vs: Seq<ValidatorV>, addr: u64, net: Seq<char>) -> Seq<
    ValidatorV,
> {
    if has_validator(vs, addr) {
        vs.update(val_idx(vs, addr), ValidatorV { addr, net_addr: net })
    } else {
        vs.push(ValidatorV { addr, net_addr: net })
    }
}

/// No two validators share an address.
pub open spec fn unique_validator_addrs(vs: Seq<ValidatorV>) -> bool {
    forall|i: int, j: int| 0 <= i < j < vs.len() ==> vs[i].addr != vs[j].addr
}

/// With unique addresses, the index of a validator is pinned by any
/// witness.
pub proof fn lemma_val_idx(vs: Seq<ValidatorV>, addr: u64, i: int)
    requires
        unique_validator_addrs(vs),
        0 <= i < vs.len(),
        vs[i].addr == addr,
    ensures
        val_idx(vs, addr) == i,
        has_validator(vs, addr),
{
    assert(has_validator(vs, addr));
    let j = val_idx(vs, addr);
    if j != i {
        if j < i {
            assert(vs[j].addr != vs[i].addr);
        } else {
            assert(vs[i].addr != vs[j].addr);
        }
    }
}

/// A vote entry for checkpoint key `cid` exists.
pub open spec fn has_votes(wc: Seq<VotesEntryV>, cid: Seq<u8>) -> bool {
    exists|i: int| 0 <= i < wc.len() && wc[i].cid == cid
}

/// The index of the vote entry for `cid`.
pub open spec fn votes_idx(wc: Seq<VotesEntryV>, cid: Seq<u8>) -> int {
    choose|i: int| 0 <= i < wc.len() && wc[i].cid == cid
}

/// The validators that have voted for checkpoint key `cid`; empty when no
/// entry exists.
pub open spec fn votes_of(wc: Seq<VotesEntryV>, cid: Seq<u8>) -> Seq<u64> {
    if has_votes(wc, cid) {
        wc[votes_idx(wc, cid)].validators
    } else {
        Seq::<u64>::empty()
    }
}

/// No two vote entries share a key.
pub open spec fn unique_vote_cids(wc: Seq<VotesEntryV>) -> bool {
    forall|i: int, j: int| 0 <= i < j < wc.len() ==> wc[i].cid != wc[j].cid
}

/// With unique keys, the index of a vote entry is pinned by any witness.
pub proof fn lemma_votes_idx(wc: Seq<VotesEntryV>, cid: Seq<u8>, i: int)
    requires
        unique_vote_cids(wc),
        0 <= i < wc.len(),
        wc[i].cid == cid,
    ensures
        votes_idx(wc, cid) == i,
        has_votes(wc, cid),
{
    assert(has_votes(wc, cid));
    let j = votes_idx(wc, cid);
    if j != i {
        if j < i {
            assert(wc[j].cid != wc[i].cid);
        } else {
            assert(wc[i].cid != wc[j].cid);
        }
    }
}

/// The combined stake of `voters`.
pub open spec fn voter_stake_sum(s: Seq<StakeEntry>, voters: Seq<u64>) -> int
    decreases voters.len(),
{
    if voters.len() == 0 {
        0
    } else {
        voter_stake_sum(s, voters.drop_last()) + stake_of(s, voters.last())
    }
}

/// Quorum: the voters together hold at least two thirds of the total
/// stake, by weight.
pub open spec fn is_majority(s: StateV, voters: Seq<u64>) -> bool {
    3 * voter_stake_sum(s.stake, voters) >= 2 * s.total_stake
}

/// The status recomputed against the collateral threshold: an instantiated
/// or inactive subnet activates at the threshold, an active one deactivates
/// below it, and a terminating or killed subnet stays as it is.
pub open spec fn next_status(status: Status, total: u64) -> Status {
    match status {
        Status::Instantiated => if total >= MIN_COLLATERAL_AMOUNT {
            Status::Active
        } else {
            Status::Instantiated
        },
        Status::Active => if total < MIN_COLLATERAL_AMOUNT {
            Status::Inactive
        } else {
            Status::Active
        },
        Status::Inactive => if total >= MIN_COLLATERAL_AMOUNT {
            Status::Active
        } else {
            Status::Inactive
        },
        Status::Terminating => Status::Terminating,
        Status::Killed => Status::Killed,
    }
}

/// The epoch of the next checkpoint this actor expects to commit.
pub open spec fn expected_epoch(s: StateV) -> int {
    match s.prev_checkpoint {
        Some(p) => p.epoch + s.check_period,
        None => s.check_period as int,
    }
}

/// Every recorded voter is listed at most once: a validator appears at most
/// once in any checkpoint's vote set.
pub open spec fn unique_voters(voters: Seq<u64>) -> bool {
    forall|i: int, j: int| 0 <= i < j < voters.len() ==> voters[i] != voters[j]
}

/// Well-formedness of the subnet actor state: a positive checkpoint
/// period, uniquely keyed tables, a total that equals the stake table's
/// sum, at most one vote per validator in every vote set, and committed
/// checkpoints no younger than the last committed one.
pub open spec fn state_wf(s: StateV) -> bool {
    &&& s.check_period > 0
    &&& unique_stake_addrs(s.stake)
    &&& unique_validator_addrs(s.validator_set)
    &&& unique_vote_cids(s.window_checks)
    &&& s.total_stake == stake_sum(s.stake)
    &&& (forall|i: int| 0 <= i < s.window_checks.len() ==> unique_voters(
        #[trigger] s.window_checks[i].validators,
    ))
    &&& (forall|i: int, j: int| 0 <= i < j < s.checkpoints.len() ==> s.checkpoints[i].epoch
        != s.checkpoints[j].epoch)
    &&& (s.prev_checkpoint is None ==> s.checkpoints.len() == 0)
    &&& (s.prev_checkpoint matches Some(p) ==> forall|i: int|
        0 <= i < s.checkpoints.len() ==> #[trigger] s.checkpoints[i].epoch <= p.epoch)
}

/// The subnet actor: the method surface over the subnet state. The host
/// runtime resolves caller identities, moves attached value, and performs
/// the sends that these methods return; the methods themselves are pure
/// state transitions.
pub struct Actor;

impl State {
    /// The initial subnet actor state.
    pub fn new(params: ConstructParams) -> (r: State)
        requires
            params.check_period > 0,
        ensures
            r@ == (StateV {
                name: params.name@,
                parent_id: params.parent.route@,
                ipc_gateway_addr: params.ipc_gateway_addr,
                consensus: params.consensus,
                min_validator_stake: params.min_validator_stake,
                total_stake: 0,
                stake: Seq::<StakeEntry>::empty(),
                validator_set: Seq::<ValidatorV>::empty(),
                genesis: params.genesis@,
                status: Status::Instantiated,
                check_period: params.check_period,
                checkpoints: Seq::<CheckpointEntryV>::empty(),
                window_checks: Seq::<VotesEntryV>::empty(),
                prev_checkpoint: None,
            }),
            state_wf(r@),
    {
        let r = State {
            name: params.name,
            parent_id: params.parent,
            ipc_gateway_addr: params.ipc_gateway_addr,
            consensus: params.consensus,
            min_validator_stake: params.min_validator_stake,
            total_stake: 0,
            stake: Vec::new(),
            validator_set: Vec::new(),
            genesis: params.genesis,
            status: Status::Instantiated,
            check_period: params.check_period,
            checkpoints: Vec::new(),
            window_checks: Vec::new(),
            prev_checkpoint: None,
        };
        proof {
            assert(r@ =~= StateV {
                name: r.name@,
                parent_id: r.parent_id.route@,
                ipc_gateway_addr: r.ipc_gateway_addr,
                consensus: r.consensus,
                min_validator_stake: r.min_validator_stake,
                total_stake: 0,
                stake: Seq::<StakeEntry>::empty(),
                validator_set: Seq::<ValidatorV>::empty(),
                genesis: r.genesis@,
                status: Status::Instantiated,
                check_period: r.check_period,
                checkpoints: Seq::<CheckpointEntryV>::empty(),
                window_checks: Seq::<VotesEntryV>::empty(),
                prev_checkpoint: None,
            });
        }
        r
    }

    /// The index of the stake entry of `addr`.
    fn find_stake(&self, addr: u64) -> (r: Option<usize>)
        ensures
            match r {
                Some(i) => i < self@.stake.len() && self@.stake[i as int].addr == addr,
                None => !has_stake(self@.stake, addr),
            },
    {
        let n = self.stake.len();
        let mut i: usize = 0;
        while i < n
            invariant
                n == self.stake@.len(),
                0 <= i <= n,
                forall|j: int| 0 <= j < i ==> self@.stake[j].addr != addr,
            decreases n - i,
        {
            if self.stake[i].addr == addr {
                return Some(i);
            }
            i += 1;
        }
        None
    }

    /// The index of the validator with address `addr`.
    fn find_validator(&self, addr: u64) -> (r: Option<usize>)
        ensures
            match r {
                Some(i) => i < self@.validator_set.len() && self@.validator_set[i as int].addr
                    == addr,
                None => !has_validator(self@.validator_set, addr),
            },
    {
        let n = self.validator_set.len();
        let mut i: usize = 0;
        while i < n
            invariant
                n == self.validator_set@.len(),
                0 <= i <= n,
                forall|j: int| 0 <= j < i ==> self@.validator_set[j].addr != addr,
            decreases n - i,
        {
            if self.validator_set[i].addr == addr {
                return Some(i);
            }
            i += 1;
        }
        None
    }

    /// The index of the vote entry for `cid`.
    fn find_votes(&self, cid: &Vec<u8>) -> (r: Option<usize>)
        ensures
            match r {
                Some(i) => i < self@.window_checks.len() && self@.window_checks[i as int].cid
                    == cid@,
                None => !has_votes(self@.window_checks, cid@),
            },
    {
        let n = self.window_checks.len();
        let mut i: usize = 0;
        while i < n
            invariant
                n == self.window_checks@.len(),
                0 <= i <= n,
                forall|j: int| 0 <= j < i ==> self@.window_checks[j].cid != cid@,
            decreases n - i,
        {
            if bytes_eq(&self.window_checks[i].cid, cid) {
                return Some(i);
            }
            i += 1;
        }
        None
    }

    /// The collateral recorded for `addr`, zero when none is.
    pub fn get_stake(&self, addr: u64) -> (r: u64)
        requires
            unique_stake_addrs(self@.stake),
        ensures
            r == stake_of(self@.stake, addr),
    {
        match self.find_stake(addr) {
            Some(i) => {
                proof {
                    lemma_stake_idx(self@.stake, addr, i as int);
                }
                self.stake[i].amount
            },
            None => 0,
        }
    }

    /// Whether `addr` is in the validator set.
    pub fn is_validator(&self, addr: u64) -> (r: bool)
        ensures
            r == has_validator(self@.validator_set, addr),
    {
        match self.find_validator(addr) {
            Some(_) => true,
            None => false,
        }
    }

    /// The combined stake held by `voters`.
    fn voters_stake(&self, voters: &Vec<u64>) -> (r: u128)
        requires
            unique_stake_addrs(self@.stake),
        ensures
            r == voter_stake_sum(self@.stake, voters@),
    {
        let n = voters.len();
        let mut sum: u128 = 0;
        let mut i: usize = 0;
        while i < n
            invariant
                unique_stake_addrs(self@.stake),
                n == voters@.len(),
                0 <= i <= n,
                sum == voter_stake_sum(self@.stake, voters@.take(i as int)),
                sum <= i * (u64::MAX as u128),
            decreases n - i,
        {
            let s = self.get_stake(voters[i]);
            proof {
                assert(voters@.take(i + 1 as int).drop_last() =~= voters@.take(i as int));
                assert(voters@.take(i + 1 as int).last() == voters@[i as int]);
                assert((i + 1) * (u64::MAX as u128) == i * (u64::MAX as u128) + (
                u64::MAX as u128)) by (nonlinear_arith);
            }
            sum = sum + (s as u128);
            i += 1;
        }
        proof {
            assert(voters@.take(n as int) =~= voters@);
        }
        sum
    }

    /// Quorum test: do `voters` together hold at least two thirds of the
    /// total stake?
    pub fn has_majority_vote(&self, voters: &Vec<u64>) -> (r: bool)
        requires
            unique_stake_addrs(self@.stake),
        ensures
            r == is_majority(self@, voters@),
    {
        let sum = self.voters_stake(voters);
        let total2: u128 = 2 * (self.total_stake as u128);
        let threshold = (total2 + 2) / 3;
        let r = sum >= threshold;
        proof {
            let s = sum as int;
            let t2 = total2 as int;
            vstd::arithmetic::div_mod::lemma_fundamental_div_mod(t2 + 2, 3);
            assert(r == (3 * s >= t2));
        }
        r
    }

    /// Recompute the status against the collateral threshold.
    fn mutate_state(&mut self)
        ensures
            final(self)@ == (StateV {
                status: next_status(old(self)@.status, old(self)@.total_stake),
                ..old(self)@
            }),
    {
        match self.status {
            Status::Instantiated => {
                if self.total_stake >= MIN_COLLATERAL_AMOUNT {
                    self.status = Status::Active;
                }
            },
            Status::Active => {
                if self.total_stake < MIN_COLLATERAL_AMOUNT {
                    self.status = Status::Inactive;
                }
            },
            Status::Inactive => {
                if self.total_stake >= MIN_COLLATERAL_AMOUNT {
                    self.status = Status::Active;
                }
            },
            _ => {},
        }
        proof {
            assert(self@ =~= StateV {
                status: next_status(old(self)@.status, old(self)@.total_stake),
                ..old(self)@
            });
        }
    }
}

impl Actor {
    /// A peer joins the subnet: the attached `amount` is added to the
    /// caller's collateral and the caller enters (or updates its entry in)
    /// the validator set. While the subnet is instantiated, reaching the
    /// minimum collateral produces a `Register` payload carrying the whole
    /// accumulated stake; once past that point every join produces an
    /// `AddStake` payload carrying the attached amount. The status is then
    /// recomputed.
    pub fn join(st: &mut State, caller: u64, params: crate::subnet_actor::JoinParams, amount: u64) -> (r:
        Result<Option<CrossActorPayload>, ActorError>)
        requires
            state_wf(old(st)@),
            old(st)@.total_stake + amount <= u64::MAX,
        ensures
            state_wf(final(st)@),
            r is Err ==> final(st)@ == old(st)@,
            amount == 0 ==> r == Err::<Option<CrossActorPayload>, ActorError>(
                ActorError::IllegalArgument,
            ),
            amount > 0 ==> ({
                let total2 = (old(st)@.total_stake + amount) as u64;
                &&& final(st)@ == (StateV {
                    stake: stake_added(old(st)@.stake, caller, amount),
                    validator_set: validators_added(
                        old(st)@.validator_set,
                        caller,
                        params.validator_net_addr@,
                    ),
                    total_stake: total2,
                    status: next_status(old(st)@.status, total2),
                    ..old(st)@
                })
                &&& (r matches Ok(p) && (if old(st)@.status == Status::Instantiated {
                    if total2 >= MIN_COLLATERAL_AMOUNT {
                        p matches Some(pl) && pl.to == old(st)@.ipc_gateway_addr && pl.method
                            == crate::gateway::Method::Register && pl.params is None && pl.value == total2
                    } else {
                        p is None
                    }
                } else {
                    p matches Some(pl) && pl.to == old(st)@.ipc_gateway_addr && pl.method
                        == crate::gateway::Method::AddStake && pl.params is None && pl.value == amount
                }))
            }),
    {
        if amount == 0 {
            return Err(ActorError::IllegalArgument);
        }
        let was_instantiated = match st.status {
            Status::Instantiated => true,
            _ => false,
        };
        match st.find_stake(caller) {
            Some(i) => {
                proof {
                    lemma_stake_idx(st@.stake, caller, i as int);
                    lemma_stake_entry_le_sum(st@.stake, i as int);
                }
                let mut e = st.stake.remove(i);
                e.amount = e.amount + amount;
                st.stake.insert(i, e);
                proof {
                    assert(st@.stake =~= stake_added(old(st)@.stake, caller, amount));
                    lemma_stake_sum_update(
                        old(st)@.stake,
                        i as int,
                        st@.stake[i as int],
                    );
                }
            },
            None => {
                st.stake.push(StakeEntry { addr: caller, amount });
                proof {
                    assert(st@.stake =~= stake_added(old(st)@.stake, caller, amount));
                    lemma_stake_sum_push(old(st)@.stake, StakeEntry { addr: caller, amount });
                }
            },
        }
        match st.find_validator(caller) {
            Some(i) => {
                proof {
                    lemma_val_idx(st@.validator_set, caller, i as int);
                }
                let mut v = st.validator_set.remove(i);
                v.net_addr = params.validator_net_addr;
                st.validator_set.insert(i, v);
                proof {
                    assert(st@.validator_set =~= validators_added(
                        old(st)@.validator_set,
                        caller,
                        v.net_addr@,
                    ));
                }
            },
            None => {
                st.validator_set.push(
                    Validator { addr: caller, net_addr: params.validator_net_addr },
                );
                proof {
                    assert(st@.validator_set =~= validators_added(
                        old(st)@.validator_set,
                        caller,
                        st@.validator_set.last().net_addr,
                    ));
                }
            },
        }
        st.total_stake = st.total_stake + amount;
        let msg: Option<CrossActorPayload>;
        if was_instantiated {
            if st.total_stake >= MIN_COLLATERAL_AMOUNT {
                msg = Some(CrossActorPayload {
                    to: st.ipc_gateway_addr,
                    method: crate::gateway::Method::Register,
                    params: None,
                    value: st.total_stake,
                });
            } else {
                msg = None;
            }
        } else {
            msg = Some(CrossActorPayload {
                to: st.ipc_gateway_addr,
                method: crate::gateway::Method::AddStake,
                params: None,
                value: amount,
            });
        }
        st.mutate_state();
        proof {
            let total2 = (old(st)@.total_stake + amount) as u64;
            assert(st@ =~= StateV {
                stake: stake_added(old(st)@.stake, caller, amount),
                validator_set: validators_added(
                    old(st)@.validator_set,
                    caller,
                    params.validator_net_addr@,
                ),
                total_stake: total2,
                status: next_status(old(st)@.status, total2),
                ..old(st)@
            });
            assert forall|i: int, j: int| 0 <= i < j < st@.stake.len() implies st@.stake[i].addr
                != st@.stake[j].addr by {
                if j < old(st)@.stake.len() {
                    assert(old(st)@.stake[i].addr != old(st)@.stake[j].addr);
                } else {
                    assert(!has_stake(old(st)@.stake, caller));
                }
            }
            assert forall|i: int, j: int| 0 <= i < j < st@.validator_set.len() implies st@.validator_set[i].addr != st@.validator_set[j].addr by {
                if j < old(st)@.validator_set.len() {
                    assert(old(st)@.validator_set[i].addr != old(st)@.validator_set[j].addr);
                } else {
                    assert(!has_validator(old(st)@.validator_set, caller));
                }
            }
        }
        Ok(msg)
    }
}

/// Parameters of `Join`: the network address the validator will serve on.
pub struct JoinParams {
    pub validator_net_addr: String,
}


/// The vote table with the entry for `cid` removed, when one exists.
pub open spec fn votes_removed(wc: Seq<VotesEntryV>, cid: Seq<u8>) -> Seq<VotesEntryV> {
    if has_votes(wc, cid) {
        wc.remove(votes_idx(wc, cid))
    } else {
        wc
    }
}

/// The vote table with the entry for `cid` set to `voters`.
pub open spec fn votes_set(wc: Seq<VotesEntryV>, cid: Seq<u8>, voters: Seq<u64>) -> Seq<
    VotesEntryV,
> {
    if has_votes(wc, cid) {
        wc.update(votes_idx(wc, cid), VotesEntryV { cid, validators: voters })
    } else {
        wc.push(VotesEntryV { cid, validators: voters })
    }
}

/// A vote, once recorded, is in the vote set, so a second identical vote
/// from the same validator meets the already-voted rejection and leaves the
/// state unchanged.
pub proof fn lemma_recorded_vote_blocks_revote(voters: Seq<u64>, v: u64)
    ensures
        voters.push(v).contains(v),
{
    assert(voters.push(v)[voters.len() as int] == v);
}

impl Actor {
    /// A peer leaves the subnet: its recorded collateral is zeroed, it is
    /// removed from the validator set, and — unless the subnet is already
    /// terminating — a `ReleaseStake` payload asks the gateway to return
    /// the collateral. A caller without stake is rejected.
    pub fn leave(st: &mut State, caller: u64) -> (r: Result<Option<CrossActorPayload>, ActorError>)
        requires
            state_wf(old(st)@),
        ensures
            state_wf(final(st)@),
            r is Err ==> final(st)@ == old(st)@,
            stake_of(old(st)@.stake, caller) == 0 ==> r == Err::<
                Option<CrossActorPayload>,
                ActorError,
            >(ActorError::IllegalState),
            stake_of(old(st)@.stake, caller) > 0 ==> ({
                let stk = stake_of(old(st)@.stake, caller);
                let total2 = (old(st)@.total_stake - stk) as u64;
                &&& final(st)@ == (StateV {
                    stake: old(st)@.stake.update(
                        stake_idx(old(st)@.stake, caller),
                        StakeEntry { addr: caller, amount: 0 },
                    ),
                    validator_set: if has_validator(old(st)@.validator_set, caller) {
                        old(st)@.validator_set.remove(val_idx(old(st)@.validator_set, caller))
                    } else {
                        old(st)@.validator_set
                    },
                    total_stake: total2,
                    status: next_status(old(st)@.status, total2),
                    ..old(st)@
                })
                &&& (r matches Ok(p) && (if old(st)@.status != Status::Terminating {
                    p matches Some(pl) && pl.to == old(st)@.ipc_gateway_addr && pl.method
                        == crate::gateway::Method::ReleaseStake && (pl.params matches Some(PayloadParams::Fund(f))
                        && f.value == stk) && pl.value == 0
                } else {
                    p is None
                }))
            }),
    {
        let idx = match st.find_stake(caller) {
            Some(i) => i,
            None => {
                return Err(ActorError::IllegalState);
            },
        };
        proof {
            lemma_stake_idx(st@.stake, caller, idx as int);
            lemma_stake_entry_le_sum(st@.stake, idx as int);
        }
        let stk = st.stake[idx].amount;
        if stk == 0 {
            return Err(ActorError::IllegalState);
        }
        let not_terminating = match st.status {
            Status::Terminating => false,
            _ => true,
        };
        let msg: Option<CrossActorPayload> = if not_terminating {
            Some(CrossActorPayload {
                to: st.ipc_gateway_addr,
                method: crate::gateway::Method::ReleaseStake,
                params: Some(PayloadParams::Fund(FundParams { value: stk })),
                value: 0,
            })
        } else {
            None
        };
        let mut e = st.stake.remove(idx);
        e.amount = 0;
        st.stake.insert(idx, e);
        proof {
            assert(st@.stake =~= old(st)@.stake.update(
                idx as int,
                StakeEntry { addr: caller, amount: 0 },
            ));
            lemma_stake_sum_update(old(st)@.stake, idx as int, StakeEntry { addr: caller, amount: 0 });
        }
        st.total_stake = st.total_stake - stk;
        match st.find_validator(caller) {
            Some(j) => {
                proof {
                    lemma_val_idx(st@.validator_set, caller, j as int);
                }
                st.validator_set.remove(j);
                proof {
                    assert(st@.validator_set =~= old(st)@.validator_set.remove(j as int));
                    assert forall|a: int, b: int| 0 <= a < b < st@.validator_set.len() implies st@.validator_set[a].addr != st@.validator_set[b].addr by {
                        let vs = old(st)@.validator_set;
                        if a < j as int {
                            if b < j as int {
                                assert(vs[a].addr != vs[b].addr);
                            } else {
                                assert(vs[a].addr != vs[b + 1].addr);
                            }
                        } else {
                            assert(vs[a + 1].addr != vs[b + 1].addr);
                        }
                    }
                }
            },
            None => {},
        }
        st.mutate_state();
        proof {
            let stk0 = stake_of(old(st)@.stake, caller);
            let total2 = (old(st)@.total_stake - stk0) as u64;
            assert(st@ =~= StateV {
                stake: old(st)@.stake.update(
                    stake_idx(old(st)@.stake, caller),
                    StakeEntry { addr: caller, amount: 0 },
                ),
                validator_set: if has_validator(old(st)@.validator_set, caller) {
                    old(st)@.validator_set.remove(val_idx(old(st)@.validator_set, caller))
                } else {
                    old(st)@.validator_set
                },
                total_stake: total2,
                status: next_status(old(st)@.status, total2),
                ..old(st)@
            });
        }
        Ok(msg)
    }

    /// Begin terminating the subnet: only once every validator has left,
    /// all collateral is gone and the actor's balance is zero. The returned
    /// payload carries the kill signal to the gateway.
    pub fn kill(st: &mut State, balance: u64) -> (r: Result<CrossActorPayload, ActorError>)
        requires
            state_wf(old(st)@),
        ensures
            state_wf(final(st)@),
            r is Err ==> final(st)@ == old(st)@,
            balance != 0 ==> r == Err::<CrossActorPayload, ActorError>(ActorError::IllegalState),
            balance == 0 && (old(st)@.status == Status::Terminating || old(st)@.status
                == Status::Killed) ==> r == Err::<CrossActorPayload, ActorError>(
                ActorError::IllegalState,
            ),
            balance == 0 && !(old(st)@.status == Status::Terminating || old(st)@.status
                == Status::Killed) && (old(st)@.validator_set.len() > 0 || old(st)@.total_stake
                != 0) ==> r == Err::<CrossActorPayload, ActorError>(ActorError::IllegalState),
            balance == 0 && !(old(st)@.status == Status::Terminating || old(st)@.status
                == Status::Killed) && old(st)@.validator_set.len() == 0 && old(st)@.total_stake
                == 0 ==> (r matches Ok(pl) && pl.to == old(st)@.ipc_gateway_addr && pl.method
                == crate::gateway::Method::Kill && pl.params is None && pl.value == 0 && final(st)@ == (StateV {
                status: Status::Terminating,
                ..old(st)@
            })),
    {
        if balance != 0 {
            return Err(ActorError::IllegalState);
        }
        match st.status {
            Status::Terminating => {
                return Err(ActorError::IllegalState);
            },
            Status::Killed => {
                return Err(ActorError::IllegalState);
            },
            _ => {},
        }
        if st.validator_set.len() > 0 || st.total_stake != 0 {
            return Err(ActorError::IllegalState);
        }
        st.status = Status::Terminating;
        st.mutate_state();
        proof {
            assert(st@ =~= StateV { status: Status::Terminating, ..old(st)@ });
        }
        Ok(CrossActorPayload {
            to: st.ipc_gateway_addr,
            method: crate::gateway::Method::Kill,
            params: None,
            value: 0,
        })
    }

    /// Accept one validator's vote for a child checkpoint. The caller must
    /// be a validator; the checkpoint must come from this subnet, carry the
    /// next expected epoch, and extend the last committed checkpoint. A
    /// duplicate vote by the same validator is rejected. When the gathered
    /// votes reach two thirds of the total stake by weight, the checkpoint
    /// is committed locally, the vote set is purged, and the returned
    /// payload carries the checkpoint to the gateway; otherwise the vote is
    /// stored.
    #[verifier::rlimit(80)]
    pub fn submit_checkpoint(st: &mut State, caller: u64, self_addr: u64, ch: Checkpoint) -> (r:
        Result<Option<CrossActorPayload>, ActorError>)
        requires
            state_wf(old(st)@),
            expected_epoch(old(st)@) <= u64::MAX,
        ensures
            state_wf(final(st)@),
            r is Err ==> final(st)@ == old(st)@,
            ({
                let cv = ch@;
                let cid = checkpoint_cid(cv);
                let voters = votes_of(old(st)@.window_checks, cid);
                if !has_validator(old(st)@.validator_set, caller) {
                    r == Err::<Option<CrossActorPayload>, ActorError>(ActorError::IllegalState)
                } else if cv.source != old(st)@.parent_id + seq![self_addr] {
                    r == Err::<Option<CrossActorPayload>, ActorError>(ActorError::IllegalState)
                } else if cv.epoch != expected_epoch(old(st)@) {
                    r == Err::<Option<CrossActorPayload>, ActorError>(ActorError::IllegalState)
                } else if (old(st)@.prev_checkpoint matches Some(p) && cv.prev_check
                    != checkpoint_cid(p)) {
                    r == Err::<Option<CrossActorPayload>, ActorError>(ActorError::IllegalState)
                } else if voters.contains(caller) {
                    r == Err::<Option<CrossActorPayload>, ActorError>(ActorError::IllegalState)
                } else {
                    let voters2 = voters.push(caller);
                    if is_majority(old(st)@, voters2) {
                        &&& (r matches Ok(p) && p matches Some(pl) && pl.to == old(
                            st,
                        )@.ipc_gateway_addr && pl.method == crate::gateway::Method::CommitChildCheckpoint && (
                        pl.params matches Some(PayloadParams::Checkpoint(c)) && c@ == cv)
                            && pl.value == 0)
                        &&& final(st)@ == (StateV {
                            checkpoints: old(st)@.checkpoints.push(
                                CheckpointEntryV { epoch: cv.epoch, checkpoint: cv },
                            ),
                            prev_checkpoint: Some(cv),
                            window_checks: votes_removed(old(st)@.window_checks, cid),
                            ..old(st)@
                        })
                        &&& !has_votes(final(st)@.window_checks, cid)
                    } else {
                        &&& r == Ok::<Option<CrossActorPayload>, ActorError>(None)
                        &&& final(st)@ == (StateV {
                            window_checks: votes_set(old(st)@.window_checks, cid, voters2),
                            ..old(st)@
                        })
                        &&& votes_of(final(st)@.window_checks, cid) == voters2
                    }
                }
            }),
    {
        if !st.is_validator(caller) {
            return Err(ActorError::IllegalState);
        }
        let expected_src = SubnetID::new_from_parent(&st.parent_id, self_addr);
        if !ch.source.equals(&expected_src) {
            return Err(ActorError::IllegalState);
        }
        let exp: u64 = match &st.prev_checkpoint {
            Some(p) => p.epoch + st.check_period,
            None => st.check_period,
        };
        if ch.epoch != exp {
            return Err(ActorError::IllegalState);
        }
        match &st.prev_checkpoint {
            Some(p) => {
                let pc = p.cid();
                if !bytes_eq(&ch.prev_check, &pc) {
                    return Err(ActorError::IllegalState);
                }
            },
            None => {},
        }
        let cid = ch.cid();
        match st.find_votes(&cid) {
            Some(i) => {
                proof {
                    lemma_votes_idx(st@.window_checks, cid@, i as int);
                }
                if route_contains(&st.window_checks[i].validators, caller) {
                    return Err(ActorError::IllegalState);
                }
            },
            None => {},
        }
        let mut voters: Vec<u64>;
        let v_at: usize;
        let v_found: bool;
        match st.find_votes(&cid) {
            Some(i) => {
                proof {
                    lemma_votes_idx(st@.window_checks, cid@, i as int);
                }
                let e = st.window_checks.remove(i);
                voters = e.validators;
                v_at = i;
                v_found = true;
            },
            None => {
                voters = Vec::new();
                v_at = st.window_checks.len();
                v_found = false;
            },
        }
        proof {
            assert(voters@ =~= votes_of(old(st)@.window_checks, cid@));
        }
        voters.push(caller);
        if st.has_majority_vote(&voters) {
            let chd = ch.dup();
            let chp = ch.dup();
            st.checkpoints.push(CheckpointEntry { epoch: ch.epoch, checkpoint: chd });
            st.prev_checkpoint = Some(chp);
            let pl = CrossActorPayload {
                to: st.ipc_gateway_addr,
                method: crate::gateway::Method::CommitChildCheckpoint,
                params: Some(PayloadParams::Checkpoint(ch)),
                value: 0,
            };
            proof {
                let old0 = old(st)@;
                let cv = pl.params->Some_0->Checkpoint_0@;
                assert(st@.window_checks =~= votes_removed(old0.window_checks, cid@));
                assert(st@ =~= StateV {
                    checkpoints: old0.checkpoints.push(
                        CheckpointEntryV { epoch: cv.epoch, checkpoint: cv },
                    ),
                    prev_checkpoint: Some(cv),
                    window_checks: votes_removed(old0.window_checks, cid@),
                    ..old0
                });
                if v_found {
                    assert forall|a: int, b: int| 0 <= a < b < st@.window_checks.len() implies st@.window_checks[a].cid != st@.window_checks[b].cid by {
                        let wc = old0.window_checks;
                        if a < v_at as int {
                            if b < v_at as int {
                                assert(wc[a].cid != wc[b].cid);
                            } else {
                                assert(wc[a].cid != wc[b + 1].cid);
                            }
                        } else {
                            assert(wc[a + 1].cid != wc[b + 1].cid);
                        }
                    }
                    if has_votes(st@.window_checks, cid@) {
                        let j = votes_idx(st@.window_checks, cid@);
                        if j < v_at as int {
                            lemma_votes_idx(old0.window_checks, cid@, j);
                        } else {
                            lemma_votes_idx(old0.window_checks, cid@, j + 1);
                        }
                    }
                }
                assert(!has_votes(st@.window_checks, cid@));
                assert forall|a: int, b: int| 0 <= a < b < st@.checkpoints.len() implies st@.checkpoints[a].epoch != st@.checkpoints[b].epoch by {
                    if b == st@.checkpoints.len() - 1 {
                        match old0.prev_checkpoint {
                            Some(p) => {
                                assert(old0.checkpoints[a].epoch <= p.epoch);
                            },
                            None => {},
                        }
                    }
                }
            }
            Ok(Some(pl))
        } else {
            st.window_checks.insert(v_at, VotesEntry { cid, validators: voters });
            proof {
                let old0 = old(st)@;
                let cidv = st@.window_checks[v_at as int].cid;
                let voters2 = votes_of(old0.window_checks, cidv).push(caller);
                assert(st@.window_checks =~= votes_set(old0.window_checks, cidv, voters2));
                assert(st@ =~= StateV {
                    window_checks: votes_set(old0.window_checks, cidv, voters2),
                    ..old0
                });
                assert forall|a: int, b: int| 0 <= a < b < st@.window_checks.len() implies st@.window_checks[a].cid != st@.window_checks[b].cid by {
                    if v_found {
                        assert(st@.window_checks =~= old0.window_checks.update(
                            v_at as int,
                            st@.window_checks[v_at as int],
                        ));
                    } else {
                        assert(st@.window_checks =~= old0.window_checks.push(
                            st@.window_checks[v_at as int],
                        ));
                        if b == st@.window_checks.len() - 1 {
                            assert(old0.window_checks[a].cid != cidv);
                        }
                    }
                }
                lemma_votes_idx(st@.window_checks, cidv, v_at as int);
                assert(votes_of(st@.window_checks, cidv) == voters2);
                assert forall|i: int| 0 <= i < st@.window_checks.len() implies unique_voters(
                    #[trigger] st@.window_checks[i].validators,
                ) by {
                    if i == v_at as int {
                        assert(unique_voters(votes_of(old0.window_checks, cidv)));
                        assert forall|a: int, b: int| 0 <= a < b < voters2.len() implies voters2[a] != voters2[b] by {
                            if b == voters2.len() - 1 {
                                assert(!votes_of(old0.window_checks, cidv).contains(caller));
                                assert(voters2[a] == votes_of(old0.window_checks, cidv)[a]);
                            }
                        }
                    } else {
                        if v_found {
                            assert(unique_voters(old0.window_checks[i].validators));
                        } else {
                            if i < old0.window_checks.len() {
                                assert(unique_voters(old0.window_checks[i].validators));
                            }
                        }
                    }
                }
            }
            Ok(None)
        }
    }

    /// Distribute a reward evenly over the validator set: each validator
    /// receives the floor of `amount` divided by the number of validators;
    /// any remainder stays with the actor. Only the gateway triggers this,
    /// and an empty validator set or a zero amount is rejected.
    pub fn reward(st: &State, amount: u64) -> (r: Result<Vec<RewardShare>, ActorError>)
        ensures
            amount == 0 ==> r == Err::<Vec<RewardShare>, ActorError>(ActorError::IllegalArgument),
            amount > 0 && st@.validator_set.len() == 0 ==> r == Err::<
                Vec<RewardShare>,
                ActorError,
            >(ActorError::IllegalState),
            amount > 0 && st@.validator_set.len() > 0 ==> (r matches Ok(shares) && shares@.len()
                == st@.validator_set.len() && (forall|i: int|
                0 <= i < shares@.len() ==> (#[trigger] shares@[i]).addr
                    == st@.validator_set[i].addr && shares@[i].amount == amount as int
                    / st@.validator_set.len() as int)),
    {
        if amount == 0 {
            return Err(ActorError::IllegalArgument);
        }
        let n = st.validator_set.len();
        if n == 0 {
            return Err(ActorError::IllegalState);
        }
        let per = amount / (n as u64);
        let mut shares: Vec<RewardShare> = Vec::new();
        let mut i: usize = 0;
        while i < n
            invariant
                n == st@.validator_set.len(),
                0 <= i <= n,
                shares@.len() == i,
                per == amount as int / n as int,
                forall|j: int| 0 <= j < i ==> (#[trigger] shares@[j]).addr
                    == st@.validator_set[j].addr && shares@[j].amount == per,
            decreases n - i,
        {
            shares.push(RewardShare { addr: st.validator_set[i].addr, amount: per });
            i += 1;
        }
        Ok(shares)
    }
}

} // verus!
