//! Subnet identifiers (paths in the hierarchy) and subnet-qualified
//! addresses.

use vstd::prelude::*;

verus! {

/// A subnet is identified by the ordered path of actor addresses that leads
/// to it from the root network. The last element is the address, on the
/// parent network, of the actor that governs the subnet.
///
/// An empty route denotes no subnet at all; it is used as the "unset"
/// destination.
#[verifier::ext_equal]
pub struct SubnetID {
    pub route: Vec<u64>,
}

/// An address qualified by the subnet it lives in. Equality is structural.
#[verifier::ext_equal]
pub struct IPCAddress {
    pub subnet: SubnetID,
    pub raw: u64,
}

/// Spec-level value of an `IPCAddress`.
#[verifier::ext_equal]
pub ghost struct IPCAddressV {
    pub subnet: Seq<u64>,
    pub raw: u64,
}

impl View for SubnetID {
    type V = Seq<u64>;

    open spec fn view(&self) -> Seq<u64> {
        self.route@
    }
}

impl View for IPCAddress {
    type V = IPCAddressV;

    open spec fn view(&self) -> IPCAddressV {
        IPCAddressV { subnet: self.subnet.route@, raw: self.raw }
    }
}

/// `a` is a (not necessarily strict) prefix of `b`: `b` is `a` itself or a
/// descendant of `a`.
pub open spec fn is_prefix(a: Seq<u64>, b: Seq<u64>) -> bool {
    a.len() <= b.len() && a == b.subrange(0, a.len() as int)
}

/// `a` is a strict prefix of `b`: `b` is a strict descendant of `a`.
pub open spec fn is_strict_prefix(a: Seq<u64>, b: Seq<u64>) -> bool {
    is_prefix(a, b) && a.len() < b.len()
}

/// Length of the longest common prefix of two routes.
pub open spec fn common_prefix_len(a: Seq<u64>, b: Seq<u64>) -> nat
    decreases a.len(),
{
    if a.len() == 0 || b.len() == 0 || a[0] != b[0] {
        0
    } else {
        1 + common_prefix_len(
            a.subrange(1, a.len() as int),
            b.subrange(1, b.len() as int),
        )
    }
}

/// Route of the deepest subnet that is an ancestor of (or equal to) both
/// `a` and `b`.
pub open spec fn common_parent_route(a: Seq<u64>, b: Seq<u64>) -> Seq<u64> {
    a.subrange(0, common_prefix_len(a, b) as int)
}

/// The longest common prefix is pinned by any position `k` up to which the
/// routes agree and at which they first disagree (or end).
pub proof fn lemma_common_prefix_len_at(a: Seq<u64>, b: Seq<u64>, k: nat)
    requires
        k <= a.len(),
        k <= b.len(),
        forall|j: int| 0 <= j < k ==> a[j] == b[j],
        k == a.len() || k == b.len() || a[k as int] != b[k as int],
    ensures
        common_prefix_len(a, b) == k,
    decreases k,
{
    if k == 0 {
        if a.len() > 0 && b.len() > 0 {
            assert(a[0] != b[0]);
        }
    } else {
        assert(a[0] == b[0]);
        let ta = a.subrange(1, a.len() as int);
        let tb = b.subrange(1, b.len() as int);
        assert forall|j: int| 0 <= j < k - 1 implies ta[j] == tb[j] by {
            assert(a[j + 1] == b[j + 1]);
        }
        if k < a.len() && k < b.len() {
            assert(ta[k - 1] != tb[k - 1]);
        }
        lemma_common_prefix_len_at(ta, tb, (k - 1) as nat);
    }
}

/// Exact comparison of two routes.
pub fn route_eq(a: &Vec<u64>, b: &Vec<u64>) -> (r: bool)
    ensures
        r == (a@ == b@),
{
    if a.len() != b.len() {
        return false;
    }
    let n = a.len();
    let mut i: usize = 0;
    while i < n
        invariant
            n == a@.len() == b@.len(),
            0 <= i <= n,
            forall|j: int| 0 <= j < i ==> a@[j] == b@[j],
        decreases n - i,
    {
        if a[i] != b[i] {
            return false;
        }
        i += 1;
    }
    proof {
        assert(a@ =~= b@);
    }
    true
}

/// Exact copy of a route.
pub fn route_dup(a: &Vec<u64>) -> (r: Vec<u64>)
    ensures
        r@ == a@,
{
    let n = a.len();
    let mut out: Vec<u64> = Vec::new();
    let mut i: usize = 0;
    while i < n
        invariant
            n == a@.len(),
            0 <= i <= n,
            out@ == a@.subrange(0, i as int),
        decreases n - i,
    {
        out.push(a[i]);
        proof {
            assert(out@ =~= a@.subrange(0, i + 1 as int));
        }
        i += 1;
    }
    proof {
        assert(out@ =~= a@);
    }
    out
}

/// True when `x` occurs in `v`.
pub fn route_contains(v: &Vec<u64>, x: u64) -> (r: bool)
    ensures
        r == v@.contains(x),
{
    let n = v.len();
    let mut i: usize = 0;
    while i < n
        invariant
            n == v@.len(),
            0 <= i <= n,
            forall|j: int| 0 <= j < i ==> v@[j] != x,
        decreases n - i,
    {
        if v[i] == x {
            return true;
        }
        i += 1;
    }
    proof {
        assert(!v@.contains(x));
    }
    false
}

/// True when route `a` is a prefix of route `b`.
pub fn route_starts_with(a: &Vec<u64>, b: &Vec<u64>) -> (r: bool)
    ensures
        r == is_prefix(a@, b@),
{
    if a.len() > b.len() {
        proof {
            assert(!is_prefix(a@, b@));
        }
        return false;
    }
    let n = a.len();
    let mut i: usize = 0;
    while i < n
        invariant
            n == a@.len(),
            n <= b@.len(),
            0 <= i <= n,
            forall|j: int| 0 <= j < i ==> a@[j] == b@[j],
        decreases n - i,
    {
        if a[i] != b[i] {
            proof {
                assert(a@[i as int] != b@.subrange(0, n as int)[i as int]);
            }
            return false;
        }
        i += 1;
    }
    proof {
        assert(a@ =~= b@.subrange(0, n as int));
    }
    true
}

impl SubnetID {
    /// The empty, "unset" subnet identifier.
    pub fn unset() -> (r: SubnetID)
        ensures
            r.route@ == Seq::<u64>::empty(),
    {
        SubnetID { route: Vec::new() }
    }

    /// Exact copy.
    pub fn dup(&self) -> (r: SubnetID)
        ensures
            r.route@ == self.route@,
    {
        SubnetID { route: route_dup(&self.route) }
    }

    /// Structural equality of two subnet identifiers.
    pub fn equals(&self, other: &SubnetID) -> (r: bool)
        ensures
            r == (self.route@ == other.route@),
    {
        route_eq(&self.route, &other.route)
    }

    /// The identifier of the child of `parent` whose governing actor is
    /// `actor`.
    pub fn new_from_parent(parent: &SubnetID, actor: u64) -> (r: SubnetID)
        ensures
            r.route@ == parent.route@ + seq![actor],
    {
        let mut route = route_dup(&parent.route);
        route.push(actor);
        proof {
            assert(route@ =~= parent.route@ + seq![actor]);
        }
        SubnetID { route }
    }

    /// The parent subnet; the root (and the unset identifier) has none.
    pub fn parent(&self) -> (r: Option<SubnetID>)
        ensures
            self.route@.len() <= 1 ==> r is None,
            self.route@.len() > 1 ==> (r matches Some(p) && p.route@ == self.route@.subrange(
                0,
                self.route@.len() - 1,
            )),
    {
        if self.route.len() <= 1 {
            return None;
        }
        let n = self.route.len() - 1;
        let mut out: Vec<u64> = Vec::new();
        let mut i: usize = 0;
        while i < n
            invariant
                n < self.route@.len(),
                0 <= i <= n,
                out@ == self.route@.subrange(0, i as int),
            decreases n - i,
        {
            out.push(self.route[i]);
            proof {
                assert(out@ =~= self.route@.subrange(0, i + 1 as int));
            }
            i += 1;
        }
        Some(SubnetID { route: out })
    }

    /// The address, on the parent network, of the actor that governs this
    /// subnet: the last element of the route.
    pub fn subnet_actor(&self) -> (r: Option<u64>)
        ensures
            self.route@.len() == 0 ==> r is None,
            self.route@.len() > 0 ==> r == Some(self.route@[self.route@.len() - 1]),
    {
        if self.route.len() == 0 {
            None
        } else {
            Some(self.route[self.route.len() - 1])
        }
    }

    /// The deepest subnet that is an ancestor of (or equal to) both `self`
    /// and `other`.
    pub fn common_parent(&self, other: &SubnetID) -> (r: SubnetID)
        ensures
            r.route@ == common_parent_route(self.route@, other.route@),
    {
        let a = &self.route;
        let b = &other.route;
        let max = if a.len() <= b.len() {
            a.len()
        } else {
            b.len()
        };
        let mut k: usize = 0;
        let mut out: Vec<u64> = Vec::new();
        while k < max
            invariant
                a@ == self.route@,
                b@ == other.route@,
                max <= a@.len(),
                max <= b@.len(),
                max == a@.len() || max == b@.len(),
                0 <= k <= max,
                forall|j: int| 0 <= j < k ==> a@[j] == b@[j],
                out@ == a@.subrange(0, k as int),
        decreases max - k,
        {
            if a[k] != b[k] {
                proof {
                    lemma_common_prefix_len_at(a@, b@, k as nat);
                    assert(out@ =~= common_parent_route(self.route@, other.route@));
                }
                return SubnetID { route: out };
            }
            out.push(a[k]);
            proof {
                assert(out@ =~= a@.subrange(0, k + 1 as int));
            }
            k += 1;
        }
        proof {
            lemma_common_prefix_len_at(a@, b@, max as nat);
        }
        SubnetID { route: out }
    }

    /// The immediate child of `from` on the path from `from` down to
    /// `self`; `None` when `self` is not a strict descendant of `from`.
    pub fn down(&self, from: &SubnetID) -> (r: Option<SubnetID>)
        ensures
            !is_strict_prefix(from.route@, self.route@) ==> r is None,
            is_strict_prefix(from.route@, self.route@) ==> (r matches Some(d) && d.route@
                == self.route@.subrange(0, from.route@.len() as int + 1)),
    {
        if !route_starts_with(&from.route, &self.route) {
            return None;
        }
        if from.route.len() >= self.route.len() {
            return None;
        }
        let n = from.route.len() + 1;
        let mut out: Vec<u64> = Vec::new();
        let mut i: usize = 0;
        while i < n
            invariant
                n <= self.route@.len(),
                0 <= i <= n,
                out@ == self.route@.subrange(0, i as int),
            decreases n - i,
        {
            out.push(self.route[i]);
            proof {
                assert(out@ =~= self.route@.subrange(0, i + 1 as int));
            }
            i += 1;
        }
        Some(SubnetID { route: out })
    }
}

impl IPCAddress {
    /// An address `raw` qualified by the subnet `subnet`.
    pub fn new(subnet: &SubnetID, raw: u64) -> (r: IPCAddress)
        ensures
            r.subnet.route@ == subnet.route@,
            r.raw == raw,
    {
        IPCAddress { subnet: subnet.dup(), raw }
    }

    /// Exact copy.
    pub fn dup(&self) -> (r: IPCAddress)
        ensures
            r.subnet.route@ == self.subnet.route@,
            r.raw == self.raw,
    {
        IPCAddress { subnet: self.subnet.dup(), raw: self.raw }
    }
}

} // verus!
