//! Checkpoints: per-epoch commitments of a subnet's cross-messages and of
//! its children's committed checkpoints, addressed by the digest of their
//! canonical encoding.

use crate::address::SubnetID;
use crate::encode::{bytes_dup, enc_bytes, enc_route, enc_u64, push_bytes, push_u64, push_u64s};
use crate::errors::ActorError;
use crate::hashing::{blake2b_digest, digest_of};
use vstd::prelude::*;

verus! {

/// Summary of the cross-messages bundled into a checkpoint window: the
/// content identifier of the message list, the nonce of the last message
/// scheduled, and the aggregated value and fee. An empty `msgs_cid` means
/// that no messages have been bundled.
pub struct CrossMsgMeta {
    pub msgs_cid: Vec<u8>,
    pub nonce: u64,
    pub value: u64,
    pub fee: u64,
}

/// Spec-level value of a `CrossMsgMeta`.
#[verifier::ext_equal]
pub ghost struct CrossMsgMetaV {
    pub msgs_cid: Seq<u8>,
    pub nonce: u64,
    pub value: u64,
    pub fee: u64,
}

/// The checkpoints of one child subnet committed inside one window.
pub struct ChildCheck {
    pub source: SubnetID,
    pub checks: Vec<Vec<u8>>,
}

/// Spec-level value of a `ChildCheck`.
#[verifier::ext_equal]
pub ghost struct ChildCheckV {
    pub source: Seq<u64>,
    pub checks: Seq<Seq<u8>>,
}

/// A checkpoint of `source` for `epoch`: the content identifier of the
/// previous committed checkpoint, the bundled cross-messages, and the child
/// checkpoints committed during the window.
pub struct Checkpoint {
    pub source: SubnetID,
    pub epoch: u64,
    pub prev_check: Vec<u8>,
    pub cross_msgs: Option<CrossMsgMeta>,
    pub children: Vec<ChildCheck>,
}

/// Spec-level value of a `Checkpoint`.
#[verifier::ext_equal]
pub ghost struct CheckpointV {
    pub source: Seq<u64>,
    pub epoch: u64,
    pub prev_check: Seq<u8>,
    pub cross_msgs: Option<CrossMsgMetaV>,
    pub children: Seq<ChildCheckV>,
}

impl View for CrossMsgMeta {
    type V = CrossMsgMetaV;

    open spec fn view(&self) -> CrossMsgMetaV {
        CrossMsgMetaV {
            msgs_cid: self.msgs_cid@,
            nonce: self.nonce,
            value: self.value,
            fee: self.fee,
        }
    }
}

impl View for ChildCheck {
    type V = ChildCheckV;

    open spec fn view(&self) -> ChildCheckV {
        ChildCheckV { source: self.source.route@, checks: self.checks.deep_view() }
    }
}

impl View for Checkpoint {
    type V = CheckpointV;

    open spec fn view(&self) -> CheckpointV {
        CheckpointV {
            source: self.source.route@,
            epoch: self.epoch,
            prev_check: self.prev_check@,
            cross_msgs: match self.cross_msgs {
                Some(m) => Some(m@),
                None => None,
            },
            children: self.children@.map_values(|c: ChildCheck| c@),
        }
    }
}

/// The first epoch of the checkpoint window that `epoch` falls into.
pub open spec fn window_of(epoch: u64, period: u64) -> u64
    recommends
        period > 0,
{
    (epoch - (epoch % period)) as u64
}

/// The first epoch of the checkpoint window that `epoch` falls into.
pub fn window_epoch(epoch: u64, period: u64) -> (r: u64)
    requires
        period > 0,
    ensures
        r == window_of(epoch, period),
{
    proof {
        assert(epoch % period <= epoch) by (nonlinear_arith)
            requires
                period > 0,
        ;
    }
    epoch - (epoch % period)
}

/// Canonical encoding of a cross-message summary.
pub open spec fn enc_meta(m: CrossMsgMetaV) -> Seq<u8> {
    enc_bytes(m.msgs_cid) + enc_u64(m.nonce) + enc_u64(m.value) + enc_u64(m.fee)
}

/// Canonical encoding of an optional cross-message summary, tagged.
pub open spec fn enc_opt_meta(m: Option<CrossMsgMetaV>) -> Seq<u8> {
    match m {
        None => seq![0u8],
        Some(meta) => seq![1u8] + enc_meta(meta),
    }
}

/// Canonical encoding of a list of content identifiers, in order.
pub open spec fn enc_cids(s: Seq<Seq<u8>>) -> Seq<u8>
    decreases s.len(),
{
    if s.len() == 0 {
        Seq::<u8>::empty()
    } else {
        enc_cids(s.drop_last()) + enc_bytes(s.last())
    }
}

/// Canonical encoding of one child's committed checkpoints.
pub open spec fn enc_child(c: ChildCheckV) -> Seq<u8> {
    enc_route(c.source) + enc_u64(c.checks.len() as u64) + enc_cids(c.checks)
}

/// Canonical encoding of a list of child entries, in order.
pub open spec fn enc_children(s: Seq<ChildCheckV>) -> Seq<u8>
    decreases s.len(),
{
    if s.len() == 0 {
        Seq::<u8>::empty()
    } else {
        enc_children(s.drop_last()) + enc_child(s.last())
    }
}

/// Canonical encoding of a checkpoint.
pub open spec fn enc_checkpoint(c: CheckpointV) -> Seq<u8> {
    enc_route(c.source) + enc_u64(c.epoch) + enc_bytes(c.prev_check) + enc_opt_meta(c.cross_msgs)
        + enc_u64(c.children.len() as u64) + enc_children(c.children)
}

/// The content identifier of a checkpoint: the digest of its canonical
/// encoding.
pub open spec fn checkpoint_cid(c: CheckpointV) -> Seq<u8> {
    digest_of(enc_checkpoint(c))
}

/// A window already holds a child entry for source `src`.
pub open spec fn has_child_source(s: Seq<ChildCheckV>, src: Seq<u64>) -> bool {
    exists|i: int| 0 <= i < s.len() && s[i].source == src
}

pub fn push_meta(out: &mut Vec<u8>, m: &CrossMsgMeta)
    ensures
        final(out)@ == old(out)@ + enc_meta(m@),
{
    proof {
        assert(m.msgs_cid@.len() == m.msgs_cid.len());
    }
    push_bytes(out, &m.msgs_cid);
    push_u64(out, m.nonce);
    push_u64(out, m.value);
    push_u64(out, m.fee);
    proof {
        assert(out@ =~= old(out)@ + enc_meta(m@));
    }
}

pub fn push_opt_meta(out: &mut Vec<u8>, m: &Option<CrossMsgMeta>)
    ensures
        final(out)@ == old(out)@ + enc_opt_meta(match *m {
            Some(meta) => Some(meta@),
            None => None,
        }),
{
    match m {
        None => {
            out.push(0u8);
            proof {
                assert(out@ =~= old(out)@ + seq![0u8]);
            }
        },
        Some(meta) => {
            out.push(1u8);
            proof {
                assert(out@ =~= old(out)@ + seq![1u8]);
            }
            push_meta(out, meta);
            proof {
                assert(out@ =~= old(out)@ + (seq![1u8] + enc_meta(meta@)));
            }
        },
    }
}

pub fn push_child(out: &mut Vec<u8>, c: &ChildCheck)
    ensures
        final(out)@ == old(out)@ + enc_child(c@),
{
    proof {
        assert(c.source.route@.len() == c.source.route.len());
    }
    push_u64s(out, &c.source.route);
    push_u64(out, c.checks.len() as u64);
    let ghost base = out@;
    let n = c.checks.len();
    let mut i: usize = 0;
    while i < n
        invariant
            n == c.checks@.len(),
            0 <= i <= n,
            out@ == base + enc_cids(c.checks.deep_view().take(i as int)),
        decreases n - i,
    {
        proof {
            assert(c.checks@[i as int]@.len() == c.checks@[i as int].len());
        }
        push_bytes(out, &c.checks[i]);
        proof {
            let vs = c.checks.deep_view();
            assert(vs.take(i + 1 as int).drop_last() =~= vs.take(i as int));
            assert(vs.take(i + 1 as int).last() == vs[i as int]);
            assert(vs[i as int] == c.checks@[i as int]@);
        }
        i += 1;
    }
    proof {
        let vs = c.checks.deep_view();
        assert(vs.take(n as int) =~= vs);
        assert(out@ =~= old(out)@ + enc_child(c@));
    }
}

pub fn push_checkpoint(out: &mut Vec<u8>, c: &Checkpoint)
    ensures
        final(out)@ == old(out)@ + enc_checkpoint(c@),
{
    proof {
        assert(c.source.route@.len() == c.source.route.len());
        assert(c.prev_check@.len() == c.prev_check.len());
    }
    push_u64s(out, &c.source.route);
    push_u64(out, c.epoch);
    push_bytes(out, &c.prev_check);
    push_opt_meta(out, &c.cross_msgs);
    push_u64(out, c.children.len() as u64);
    let ghost base = out@;
    let ghost cvs = c.children@.map_values(|ch: ChildCheck| ch@);
    let n = c.children.len();
    let mut i: usize = 0;
    while i < n
        invariant
            n == c.children@.len(),
            cvs == c.children@.map_values(|ch: ChildCheck| ch@),
            0 <= i <= n,
            out@ == base + enc_children(cvs.take(i as int)),
        decreases n - i,
    {
        push_child(out, &c.children[i]);
        proof {
            assert(cvs.take(i + 1 as int).drop_last() =~= cvs.take(i as int));
            assert(cvs.take(i + 1 as int).last() == cvs[i as int]);
            assert(cvs[i as int] == c.children@[i as int]@);
        }
        i += 1;
    }
    proof {
        assert(cvs.take(n as int) =~= cvs);
        assert(out@ =~= old(out)@ + enc_checkpoint(c@));
    }
}

impl CrossMsgMeta {
    /// A summary with no bundled messages.
    pub fn new() -> (r: CrossMsgMeta)
        ensures
            r@ == (CrossMsgMetaV { msgs_cid: Seq::<u8>::empty(), nonce: 0, value: 0, fee: 0 }),
    {
        let r = CrossMsgMeta { msgs_cid: Vec::new(), nonce: 0, value: 0, fee: 0 };
        proof {
            assert(r@ =~= CrossMsgMetaV { msgs_cid: Seq::<u8>::empty(), nonce: 0, value: 0, fee: 0 });
        }
        r
    }

    /// Exact copy.
    pub fn dup(&self) -> (r: CrossMsgMeta)
        ensures
            r@ == self@,
    {
        let r = CrossMsgMeta {
            msgs_cid: bytes_dup(&self.msgs_cid),
            nonce: self.nonce,
            value: self.value,
            fee: self.fee,
        };
        proof {
            assert(r@ =~= self@);
        }
        r
    }
}

impl ChildCheck {
    /// Exact copy.
    pub fn dup(&self) -> (r: ChildCheck)
        ensures
            r@ == self@,
    {
        let n = self.checks.len();
        let mut checks: Vec<Vec<u8>> = Vec::new();
        let mut i: usize = 0;
        while i < n
            invariant
                n == self.checks@.len(),
                0 <= i <= n,
                checks@.len() == i,
                forall|j: int| 0 <= j < i ==> checks@[j]@ == self.checks@[j]@,
            decreases n - i,
        {
            checks.push(bytes_dup(&self.checks[i]));
            i += 1;
        }
        let r = ChildCheck { source: self.source.dup(), checks };
        proof {
            assert(r@.checks =~~= self@.checks);
            assert(r@ =~~= self@);
        }
        r
    }
}

impl Checkpoint {
    /// The empty checkpoint of `source` for `epoch`.
    pub fn new(source: &SubnetID, epoch: u64) -> (r: Checkpoint)
        ensures
            r@ == (CheckpointV {
                source: source.route@,
                epoch,
                prev_check: Seq::<u8>::empty(),
                cross_msgs: None,
                children: Seq::<ChildCheckV>::empty(),
            }),
    {
        let r = Checkpoint {
            source: source.dup(),
            epoch,
            prev_check: Vec::new(),
            cross_msgs: None,
            children: Vec::new(),
        };
        proof {
            assert(r@ =~= CheckpointV {
                source: source.route@,
                epoch,
                prev_check: Seq::<u8>::empty(),
                cross_msgs: None,
                children: Seq::<ChildCheckV>::empty(),
            });
        }
        r
    }

    /// Exact copy.
    pub fn dup(&self) -> (r: Checkpoint)
        ensures
            r@ == self@,
    {
        let cross_msgs = match &self.cross_msgs {
            Some(m) => Some(m.dup()),
            None => None,
        };
        let n = self.children.len();
        let mut children: Vec<ChildCheck> = Vec::new();
        let mut i: usize = 0;
        while i < n
            invariant
                n == self.children@.len(),
                0 <= i <= n,
                children@.len() == i,
                forall|j: int| 0 <= j < i ==> children@[j]@ == self.children@[j]@,
            decreases n - i,
        {
            children.push(self.children[i].dup());
            i += 1;
        }
        let r = Checkpoint {
            source: self.source.dup(),
            epoch: self.epoch,
            prev_check: bytes_dup(&self.prev_check),
            cross_msgs,
            children,
        };
        proof {
            assert(r@.children =~~= self@.children);
            assert(r@ =~~= self@);
        }
        r
    }

    /// The content identifier of this checkpoint.
    pub fn cid(&self) -> (r: Vec<u8>)
        ensures
            r@ == checkpoint_cid(self@),
            r@.len() == 64,
    {
        let mut bytes: Vec<u8> = Vec::new();
        push_checkpoint(&mut bytes, self);
        proof {
            assert(bytes@ =~= enc_checkpoint(self@));
        }
        blake2b_digest(&bytes)
    }

    /// Record the committed checkpoint `cid` of child `source` in this
    /// window; a second checkpoint of the same source inside one window is
    /// rejected.
    pub fn add_child_check(&mut self, source: &SubnetID, cid: Vec<u8>) -> (r: Result<
        (),
        ActorError,
    >)
        ensures
            has_child_source(old(self)@.children, source.route@) ==> r == Err::<(), ActorError>(
                ActorError::IllegalArgument,
            ) && final(self)@ == old(self)@,
            !has_child_source(old(self)@.children, source.route@) ==> r == Ok::<(), ActorError>(())
                && final(self)@ == (CheckpointV {
                children: old(self)@.children.push(
                    ChildCheckV { source: source.route@, checks: seq![cid@] },
                ),
                ..old(self)@
            }),
    {
        let ghost cvs = self.children@.map_values(|ch: ChildCheck| ch@);
        let n = self.children.len();
        let mut i: usize = 0;
        while i < n
            invariant
                n == self.children@.len(),
                cvs == self.children@.map_values(|ch: ChildCheck| ch@),
                0 <= i <= n,
                forall|j: int| 0 <= j < i ==> cvs[j].source != source.route@,
            decreases n - i,
        {
            if self.children[i].source.equals(source) {
                proof {
                    assert(cvs[i as int].source == source.route@);
                }
                return Err(ActorError::IllegalArgument);
            }
            i += 1;
        }
        let mut checks: Vec<Vec<u8>> = Vec::new();
        checks.push(cid);
        let child = ChildCheck { source: source.dup(), checks };
        proof {
            assert(!has_child_source(old(self)@.children, source.route@));
            assert(child@.checks =~~= seq![cid@]);
        }
        self.children.push(child);
        proof {
            assert(self@.children =~= old(self)@.children.push(
                ChildCheckV { source: source.route@, checks: seq![cid@] },
            ));
            assert(self@ =~= CheckpointV {
                children: old(self)@.children.push(
                    ChildCheckV { source: source.route@, checks: seq![cid@] },
                ),
                ..old(self)@
            });
        }
        Ok(())
    }
}

} // verus!
