//! Cross-subnet messages: their shape, their classification relative to a
//! network, and their canonical encoding.

use crate::address::{
    is_prefix, route_starts_with, IPCAddress, IPCAddressV, SubnetID,
};
use crate::encode::{
    bytes_dup, enc_bytes, enc_route, enc_u64, push_bytes, push_u64, push_u64s,
};
use crate::errors::ActorError;
use vstd::prelude::*;

verus! {

/// Method number of a plain value transfer.
pub const METHOD_SEND: u64 = 0;

/// Direction of a cross-message relative to the network applying it.
#[derive(Clone, Copy, Debug, PartialEq, Eq, Structural)]
pub enum IPCMsgType {
    /// Travelling from an ancestor toward a descendant.
    TopDown,
    /// Travelling toward an ancestor (or toward a sibling, before the
    /// turning point).
    BottomUp,
}

/// A cross-subnet message as it is stored and routed.
#[verifier::ext_equal]
pub struct StorableMsg {
    pub from: IPCAddress,
    pub to: IPCAddress,
    pub method: u64,
    pub params: Vec<u8>,
    pub value: u64,
    pub nonce: u64,
}

/// A routed message together with the flag reserved for wrapped payloads.
#[verifier::ext_equal]
pub struct CrossMsg {
    pub msg: StorableMsg,
    pub wrapped: bool,
}

/// Spec-level value of a `StorableMsg`.
#[verifier::ext_equal]
pub ghost struct StorableMsgV {
    pub from: IPCAddressV,
    pub to: IPCAddressV,
    pub method: u64,
    pub params: Seq<u8>,
    pub value: u64,
    pub nonce: u64,
}

/// Spec-level value of a `CrossMsg`.
#[verifier::ext_equal]
pub ghost struct CrossMsgV {
    pub msg: StorableMsgV,
    pub wrapped: bool,
}

impl View for StorableMsg {
    type V = StorableMsgV;

    open spec fn view(&self) -> StorableMsgV {
        StorableMsgV {
            from: self.from@,
            to: self.to@,
            method: self.method,
            params: self.params@,
            value: self.value,
            nonce: self.nonce,
        }
    }
}

impl View for CrossMsg {
    type V = CrossMsgV;

    open spec fn view(&self) -> CrossMsgV {
        CrossMsgV { msg: self.msg@, wrapped: self.wrapped }
    }
}

/// The spec-level values of a list of messages, in order.
pub open spec fn cross_msg_views(s: Seq<CrossMsg>) -> Seq<CrossMsgV> {
    s.map_values(|c: CrossMsg| c@)
}

/// A message must first travel upward when its origin subnet is not an
/// ancestor of (or equal to) its destination subnet.
pub open spec fn bottomup_route(sfrom: Seq<u64>, sto: Seq<u64>) -> bool {
    !is_prefix(sfrom, sto)
}

/// Classification of a message at network `n`: bottom-up when it still has
/// to travel upward from its origin; top-down when `n` lies on the downward
/// path from the origin to the destination; no classification otherwise
/// (the message does not belong on `n`).
pub open spec fn apply_type_route(n: Seq<u64>, sfrom: Seq<u64>, sto: Seq<u64>) -> Option<
    IPCMsgType,
> {
    if bottomup_route(sfrom, sto) {
        Some(IPCMsgType::BottomUp)
    } else if is_prefix(sfrom, n) && is_prefix(n, sto) {
        Some(IPCMsgType::TopDown)
    } else {
        None
    }
}

/// True when a message first travels upward: its origin subnet is not an
/// ancestor of (or equal to) its destination subnet.
pub fn is_bottomup(from: &SubnetID, to: &SubnetID) -> (r: bool)
    ensures
        r == bottomup_route(from.route@, to.route@),
{
    !route_starts_with(&from.route, &to.route)
}

/// The shape of the message that `Fund` constructs: a plain transfer of
/// `value` from the destination's parent to the funding account inside the
/// destination subnet.
pub open spec fn is_fund_msg(m: StorableMsgV, dest: Seq<u64>, signer: u64, value: u64) -> bool {
    &&& m.from.subnet == dest.subrange(0, dest.len() - 1)
    &&& m.from.raw == signer
    &&& m.to.subnet == dest
    &&& m.to.raw == signer
    &&& m.method == METHOD_SEND
    &&& m.params == Seq::<u8>::empty()
    &&& m.value == value
}

/// The shape of the message that `Release` constructs: a plain transfer of
/// `value` from `network` to the releasing account on its parent.
pub open spec fn is_release_msg(
    m: StorableMsgV,
    network: Seq<u64>,
    signer: u64,
    value: u64,
    nonce: u64,
) -> bool {
    &&& m.from.subnet == network
    &&& m.from.raw == signer
    &&& m.to.subnet == network.subrange(0, network.len() - 1)
    &&& m.to.raw == signer
    &&& m.method == METHOD_SEND
    &&& m.params == Seq::<u8>::empty()
    &&& m.value == value
    &&& m.nonce == nonce
}

impl StorableMsg {
    /// The message that injects `value` into `sub_id` on behalf of
    /// `sig_addr`; its nonce is assigned when it is committed.
    pub fn new_fund_msg(sub_id: &SubnetID, sig_addr: u64, value: u64) -> (r: Result<
        StorableMsg,
        ActorError,
    >)
        ensures
            sub_id.route@.len() <= 1 ==> r == Err::<StorableMsg, ActorError>(
                ActorError::IllegalState,
            ),
            sub_id.route@.len() > 1 ==> (r matches Ok(m) && is_fund_msg(
                m@,
                sub_id.route@,
                sig_addr,
                value,
            ) && m.nonce == 0),
    {
        let parent = match sub_id.parent() {
            Some(p) => p,
            None => {
                return Err(ActorError::IllegalState);
            },
        };
        Ok(StorableMsg {
            from: IPCAddress::new(&parent, sig_addr),
            to: IPCAddress::new(sub_id, sig_addr),
            method: METHOD_SEND,
            params: Vec::new(),
            value,
            nonce: 0,
        })
    }

    /// The message that releases `value` from `network` to `sig_addr` on
    /// the parent network, carrying the next bottom-up nonce.
    pub fn new_release_msg(network: &SubnetID, sig_addr: u64, value: u64, nonce: u64) -> (r:
        Result<StorableMsg, ActorError>)
        ensures
            network.route@.len() <= 1 ==> r == Err::<StorableMsg, ActorError>(
                ActorError::IllegalState,
            ),
            network.route@.len() > 1 ==> (r matches Ok(m) && is_release_msg(
                m@,
                network.route@,
                sig_addr,
                value,
                nonce,
            )),
    {
        let parent = match network.parent() {
            Some(p) => p,
            None => {
                return Err(ActorError::IllegalState);
            },
        };
        Ok(StorableMsg {
            from: IPCAddress::new(network, sig_addr),
            to: IPCAddress::new(&parent, sig_addr),
            method: METHOD_SEND,
            params: Vec::new(),
            value,
            nonce,
        })
    }

    /// Classification of this message at network `current`; a message that
    /// does not belong on `current` is a malformed argument.
    pub fn apply_type(&self, current: &SubnetID) -> (r: Result<IPCMsgType, ActorError>)
        ensures
            r == match apply_type_route(
                current.route@,
                self.from.subnet.route@,
                self.to.subnet.route@,
            ) {
                Some(t) => Ok::<IPCMsgType, ActorError>(t),
                None => Err::<IPCMsgType, ActorError>(ActorError::IllegalArgument),
            },
    {
        if is_bottomup(&self.from.subnet, &self.to.subnet) {
            return Ok(IPCMsgType::BottomUp);
        }
        if route_starts_with(&self.from.subnet.route, &current.route) && route_starts_with(
            &current.route,
            &self.to.subnet.route,
        ) {
            return Ok(IPCMsgType::TopDown);
        }
        Err(ActorError::IllegalArgument)
    }

    /// Exact copy.
    pub fn dup(&self) -> (r: StorableMsg)
        ensures
            r@ == self@,
    {
        let r = StorableMsg {
            from: self.from.dup(),
            to: self.to.dup(),
            method: self.method,
            params: bytes_dup(&self.params),
            value: self.value,
            nonce: self.nonce,
        };
        proof {
            assert(r@ =~= self@);
        }
        r
    }
}

impl CrossMsg {
    /// Exact copy.
    pub fn dup(&self) -> (r: CrossMsg)
        ensures
            r@ == self@,
    {
        let r = CrossMsg { msg: self.msg.dup(), wrapped: self.wrapped };
        proof {
            assert(r@ =~= self@);
        }
        r
    }
}

/// Canonical encoding of a subnet-qualified address.
pub open spec fn enc_ipc_addr(a: IPCAddressV) -> Seq<u8> {
    enc_route(a.subnet) + enc_u64(a.raw)
}

/// Canonical encoding of a stored message.
pub open spec fn enc_storable_msg(m: StorableMsgV) -> Seq<u8> {
    enc_ipc_addr(m.from) + enc_ipc_addr(m.to) + enc_u64(m.method) + enc_bytes(m.params)
        + enc_u64(m.value) + enc_u64(m.nonce)
}

/// Canonical encoding of a routed message.
pub open spec fn enc_cross_msg(c: CrossMsgV) -> Seq<u8> {
    enc_storable_msg(c.msg) + seq![
        if c.wrapped {
            1u8
        } else {
            0u8
        },
    ]
}

/// Canonical encoding of a list of routed messages, in order.
pub open spec fn enc_cross_msgs(s: Seq<CrossMsgV>) -> Seq<u8>
    decreases s.len(),
{
    if s.len() == 0 {
        Seq::<u8>::empty()
    } else {
        enc_cross_msgs(s.drop_last()) + enc_cross_msg(s.last())
    }
}

/// Canonical encoding of a length-prefixed list of routed messages.
pub open spec fn enc_cross_msg_list(s: Seq<CrossMsgV>) -> Seq<u8> {
    enc_u64(s.len() as u64) + enc_cross_msgs(s)
}

pub fn push_ipc_addr(out: &mut Vec<u8>, a: &IPCAddress)
    ensures
        final(out)@ == old(out)@ + enc_ipc_addr(a@),
{
    proof {
        assert(a.subnet.route@.len() == a.subnet.route.len());
    }
    push_u64s(out, &a.subnet.route);
    push_u64(out, a.raw);
    proof {
        assert(out@ =~= old(out)@ + enc_ipc_addr(a@));
    }
}

pub fn push_storable_msg(out: &mut Vec<u8>, m: &StorableMsg)
    ensures
        final(out)@ == old(out)@ + enc_storable_msg(m@),
{
    push_ipc_addr(out, &m.from);
    push_ipc_addr(out, &m.to);
    push_u64(out, m.method);
    proof {
        assert(m.params@.len() == m.params.len());
    }
    push_bytes(out, &m.params);
    push_u64(out, m.value);
    push_u64(out, m.nonce);
    proof {
        assert(out@ =~= old(out)@ + enc_storable_msg(m@));
    }
}

pub fn push_cross_msg(out: &mut Vec<u8>, c: &CrossMsg)
    ensures
        final(out)@ == old(out)@ + enc_cross_msg(c@),
{
    push_storable_msg(out, &c.msg);
    if c.wrapped {
        out.push(1u8);
    } else {
        out.push(0u8);
    }
    proof {
        assert(out@ =~= old(out)@ + enc_cross_msg(c@));
    }
}

pub fn push_cross_msg_list(out: &mut Vec<u8>, s: &Vec<CrossMsg>)
    ensures
        final(out)@ == old(out)@ + enc_cross_msg_list(cross_msg_views(s@)),
{
    push_u64(out, s.len() as u64);
    let ghost base = out@;
    let n = s.len();
    let mut i: usize = 0;
    while i < n
        invariant
            n == s@.len(),
            0 <= i <= n,
            out@ == base + enc_cross_msgs(cross_msg_views(s@).take(i as int)),
        decreases n - i,
    {
        push_cross_msg(out, &s[i]);
        proof {
            let vs = cross_msg_views(s@);
            assert(vs.take(i + 1 as int).drop_last() =~= vs.take(i as int));
            assert(vs.take(i + 1 as int).last() == vs[i as int]);
            assert(vs[i as int] == s@[i as int]@);
        }
        i += 1;
    }
    proof {
        let vs = cross_msg_views(s@);
        assert(vs.take(n as int) =~= vs);
        assert(out@ =~= old(out)@ + enc_cross_msg_list(vs));
    }
}

/// A fund-shaped message always classifies top-down at its destination, and
/// its value and recipient are exactly what `Fund` promised: applying it on
/// the destination gateway dispatches `value` to the funding account.
pub proof fn lemma_fund_msg_applies_topdown(m: StorableMsgV, dest: Seq<u64>, signer: u64, value: u64)
    requires
        is_fund_msg(m, dest, signer, value),
        dest.len() > 1,
    ensures
        apply_type_route(dest, m.from.subnet, m.to.subnet) == Some(
            IPCMsgType::TopDown,
        ),
        m.to.raw == signer,
        m.value == value,
{
    let parent = dest.subrange(0, dest.len() - 1);
    assert(parent =~= dest.subrange(0, parent.len() as int));
    assert(dest.subrange(0, dest.len() as int) =~= dest);
    assert(is_prefix(parent, dest));
    assert(is_prefix(dest, dest));
    assert(!bottomup_route(m.from.subnet, m.to.subnet));
}

/// A release-shaped message always classifies bottom-up, and it is
/// addressed to the parent network itself: applying it on the parent
/// gateway dispatches `value` to the releasing account there.
pub proof fn lemma_release_msg_applies_bottomup(
    m: StorableMsgV,
    network: Seq<u64>,
    signer: u64,
    value: u64,
    nonce: u64,
)
    requires
        is_release_msg(m, network, signer, value, nonce),
        network.len() > 1,
    ensures
        apply_type_route(
            network.subrange(0, network.len() - 1),
            m.from.subnet,
            m.to.subnet,
        ) == Some(IPCMsgType::BottomUp),
        m.to.subnet == network.subrange(0, network.len() - 1),
        m.to.raw == signer,
        m.value == value,
{
    let parent = network.subrange(0, network.len() - 1);
    assert(network.subrange(0, parent.len() as int) =~= parent);
    if is_prefix(network, parent) {
        assert(network.len() <= parent.len());
        assert(false);
    }
    assert(bottomup_route(m.from.subnet, m.to.subnet));
}

} // verus!
