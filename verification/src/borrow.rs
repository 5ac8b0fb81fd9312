//! Canonical borrow-region declarations and closed loan-effect metadata.

use vstd::prelude::*;

use crate::ids::{
    VirBlockId, VirBorrowRegionConstraintId, VirBorrowRegionId, VirFunctionId, VirLoanId, VirOriginId,
    VirValueId,
};
use crate::memory::{VirMemoryAccess, same_ref};

verus! {

/// Frame-local names for interface loans; instruction-defined loans occupy
/// the lower half of the identifier space.
pub fn interface_loan_id(parameter: u32) -> (id: VirLoanId)
    ensures
        id.0 == u32::MAX - parameter,
{
    VirLoanId(u32::MAX - parameter)
}

fn contains_region(s: &Vec<VirBorrowRegionId>, x: VirBorrowRegionId) -> (r: bool)
    ensures
        r == s@.contains(x),
{
    let mut i: usize = 0;
    while i < s.len()
        invariant
            0 <= i <= s.len(),
            forall|a: int| 0 <= a < i ==> s@[a] != x,
        decreases s.len() - i,
    {
        if s[i].0 == x.0 {
            assert(s@[i as int] == x);
            return true;
        }
        i = i + 1;
    }
    false
}

/// Source/ABI role that introduced one VIR borrow region.
#[derive(Clone, Copy, Debug, PartialEq, Eq, PartialOrd, Ord, Hash, Structural)]
pub enum VirBorrowRegionOrigin {
    Lexical,
    Parameter { index: u32 },
    Result { index: u32 },
    Inferred,
}

/// Program points at which a reference in one borrow region may be used.
#[derive(Clone, Debug, PartialEq, Eq, PartialOrd, Ord, Hash)]
pub enum VirBorrowRegionScope {
    /// Signature-visible region spanning the complete function.
    Function,
    /// Canonical sorted set of CFG blocks retained after lexical lowering.
    Blocks(Vec<VirBlockId>),
}

/// One canonical borrow region owned by exactly one VIR function.
#[derive(Clone, Debug, PartialEq, Eq, Hash)]
pub struct VirBorrowRegion {
    pub id: VirBorrowRegionId,
    pub owner: VirFunctionId,
    pub origin: VirBorrowRegionOrigin,
    pub scope: VirBorrowRegionScope,
    pub source_origin: VirOriginId,
}

/// Canonical `subregion <= superregion` inclusion constraint.
#[derive(Clone, Copy, Debug, PartialEq, Eq, Hash, Structural)]
pub struct VirBorrowRegionConstraint {
    pub id: VirBorrowRegionConstraintId,
    pub owner: VirFunctionId,
    pub subregion: VirBorrowRegionId,
    pub superregion: VirBorrowRegionId,
    pub source_origin: VirOriginId,
}

/// Borrow-region universe shared by validation and verification.
#[derive(Clone, Debug, Default, PartialEq, Eq)]
pub struct VirBorrowEnvironment {
    regions: Vec<VirBorrowRegion>,
    constraints: Vec<VirBorrowRegionConstraint>,
}

impl VirBorrowEnvironment {
    pub closed spec fn spec_regions(&self) -> Seq<VirBorrowRegion> {
        self.regions@
    }

    pub closed spec fn spec_constraints(&self) -> Seq<VirBorrowRegionConstraint> {
        self.constraints@
    }

    /// The region with identifier `id`, stored at its own index.
    pub open spec fn spec_region(&self, id: VirBorrowRegionId) -> Option<VirBorrowRegion> {
        if id.0 < self.spec_regions().len() && self.spec_regions()[id.0 as int].id == id {
            Some(self.spec_regions()[id.0 as int])
        } else {
            None
        }
    }

    pub open spec fn spec_constraint(&self, id: VirBorrowRegionConstraintId) -> Option<VirBorrowRegionConstraint> {
        if id.0 < self.spec_constraints().len() && self.spec_constraints()[id.0 as int].id == id {
            Some(self.spec_constraints()[id.0 as int])
        } else {
            None
        }
    }

    /// `owner` declares the inclusion `sub <= sup`.
    pub open spec fn has_edge(&self, owner: VirFunctionId, sub: VirBorrowRegionId, sup: VirBorrowRegionId) -> bool {
        exists|k: int| 0 <= k < self.spec_constraints().len() && (#[trigger] self.spec_constraints()[k]).owner == owner
            && self.spec_constraints()[k].subregion == sub && self.spec_constraints()[k].superregion == sup
    }

    /// A chain of declared inclusions of `owner` leads from `sub` to `sup`.
    pub open spec fn reaches(&self, owner: VirFunctionId, sub: VirBorrowRegionId, sup: VirBorrowRegionId) -> bool {
        exists|path: Seq<VirBorrowRegionId>| #[trigger] self.is_chain(owner, path) && path.len() > 0 && path[0] == sub
            && path.last() == sup
    }

    pub open spec fn is_chain(&self, owner: VirFunctionId, path: Seq<VirBorrowRegionId>) -> bool {
        forall|i: int| 0 <= i < path.len() - 1 ==> self.has_edge(owner, #[trigger] path[i], path[i + 1])
    }

    /// Bounded reachability for an authority-selected parent's actual region.
    /// None means a missing region or exhausted edge-scan budget, never an
    /// implicit inclusion assumption. Edges in other functions are irrelevant.
    pub fn includes(&self, sub: VirBorrowRegionId, sup: VirBorrowRegionId, limit: usize) -> (r: Option<bool>)
        ensures
            self.spec_region(sub) is None || self.spec_region(sup) is None ==> r is None,
            (self.spec_region(sub) matches Some(a) && self.spec_region(sup) matches Some(b) && a.owner != b.owner) ==> r == Some(false),
            (self.spec_region(sub) matches Some(a) && self.spec_region(sup) matches Some(b) && a.owner == b.owner && sub == sup) ==> r == Some(true),
            r == Some(true) ==> (self.spec_region(sub) matches Some(a) && self.reaches(a.owner, sub, sup)),
            r == Some(false) ==> (self.spec_region(sub) matches Some(a) && self.spec_region(sup) matches Some(b) && (a.owner
                != b.owner || !self.reaches(a.owner, sub, sup))),
            r is None ==> self.spec_region(sub) is None || self.spec_region(sup) is None || limit < self.owner_edge_count(
                self.spec_region(sub)->0.owner,
                self.spec_constraints().len() as int,
            ) * (self.owner_edge_count(self.spec_region(sub)->0.owner, self.spec_constraints().len() as int) + 1),
    {
        let owner = match self.region(sub) {
            Some(region) => region.owner,
            None => return None,
        };
        match self.region(sup) {
            Some(region) => if region.owner != owner {
                return Some(false);
            },
            None => return None,
        }
        if sub == sup {
            proof {
                let path = seq![sub];
                assert(self.is_chain(owner, path));
            }
            return Some(true);
        }
        let mut seen: Vec<VirBorrowRegionId> = Vec::new();
        let mut pending: Vec<VirBorrowRegionId> = vec![sub];
        let mut visits: usize = 0;
        let ghost n_edges = self.spec_constraints().len() as int;
        let ghost e = self.owner_edge_count(owner, n_edges);
        let ghost reachable = self.edge_targets(owner, n_edges).insert(sub);
        proof {
            let path = seq![sub];
            assert(self.is_chain(owner, path));
            self.lemma_edge_targets(owner, n_edges);
            vstd::set::axiom_set_insert_len(self.edge_targets(owner, n_edges), sub);
            assert(seen@ =~= Seq::<VirBorrowRegionId>::empty());
            assert(pending@ == seq![sub]);
        }
        while pending.len() > 0
            invariant
                n_edges == self.spec_constraints().len(),
                e == self.owner_edge_count(owner, n_edges),
                reachable == self.edge_targets(owner, n_edges).insert(sub),
                reachable.finite() && reachable.len() <= e + 1,
                forall|j: int| 0 <= j < n_edges && self.spec_constraints()[j].owner == owner ==> reachable.contains(
                    #[trigger] self.spec_constraints()[j].superregion,
                ),
                e >= 0,
                seen@.no_duplicates(),
                forall|x: VirBorrowRegionId| seen@.contains(x) ==> reachable.contains(x),
                forall|x: VirBorrowRegionId| pending@.contains(x) ==> reachable.contains(x),
                visits == e * seen@.len(),
                visits <= limit,
                self.spec_region(sub) matches Some(a) && a.owner == owner,
                self.spec_region(sup) matches Some(b) && b.owner == owner,
                sub != sup,
                forall|i: int| 0 <= i < pending@.len() ==> self.reaches(owner, sub, #[trigger] pending@[i]),
                self.closed_over(owner, seen@, pending@, None, 0),
                seen@.contains(sub) || pending@.contains(sub),
                !seen@.contains(sup) && !pending@.contains(sup),
            decreases 2 * (limit + 1 - visits) + pending@.len(),
        {
            let ghost pending0 = pending@;
            let current = match pending.pop() {
                Some(c) => c,
                None => return Some(false),
            };
            proof {
                assert(pending0 == pending@.push(current));
                assert forall|y: VirBorrowRegionId| pending0.contains(y) implies pending@.contains(y) || y == current by {
                    let i = choose|i: int| 0 <= i < pending0.len() && pending0[i] == y;
                    if i < pending@.len() {
                        assert(pending@[i] == y);
                    }
                }
                assert forall|y: VirBorrowRegionId| pending@.contains(y) implies pending0.contains(y) by {
                    let i = choose|i: int| 0 <= i < pending@.len() && pending@[i] == y;
                    assert(pending0[i] == y);
                }
            }
            proof {
                assert(self.reaches(owner, sub, current)) by {
                    assert(pending@.push(current)[pending@.len() as int] == current);
                }
            }
            if contains_region(&seen, current) {
                continue;
            }
            let ghost seen0 = seen@;
            seen.push(current);
            proof {
                assert(seen@ == seen0.push(current));
                assert(pending0.contains(current)) by {
                    assert(pending0[pending0.len() - 1] == current);
                }
                assert(seen@.no_duplicates()) by {
                    assert forall|a: int, b: int| 0 <= a < b < seen@.len() implies seen@[a] != seen@[b] by {
                        if b == seen0.len() {
                            assert(seen0[a] == seen@[a]);
                        } else {
                            assert(seen0[a] == seen@[a] && seen0[b] == seen@[b]);
                        }
                    }
                }
                assert(e * seen@.len() == e * seen0.len() + e) by (nonlinear_arith)
                    requires
                        seen@.len() == seen0.len() + 1,
                ;
                assert forall|y: VirBorrowRegionId| seen@.contains(y) <==> seen0.contains(y) || y == current by {
                    if seen0.contains(y) {
                        let i = choose|i: int| 0 <= i < seen0.len() && seen0[i] == y;
                        assert(seen@[i] == y);
                    }
                    if y == current {
                        assert(seen@[seen0.len() as int] == y);
                    }
                    if seen@.contains(y) && !seen0.contains(y) {
                        let i = choose|i: int| 0 <= i < seen@.len() && seen@[i] == y;
                        if i < seen0.len() {
                            assert(seen0[i] == y);
                        }
                    }
                }
            }
            proof {
                assert forall|x: VirBorrowRegionId, j: int|
                    #![trigger seen@.contains(x), self.spec_constraints()[j]]
                    seen@.contains(x) && 0 <= j < self.spec_constraints().len() && self.spec_constraints()[j].owner == owner
                        && self.spec_constraints()[j].subregion == x && !(Some(current) == Some(x) && j >= 0) implies seen@.contains(
                        self.spec_constraints()[j].superregion,
                    ) || pending@.contains(self.spec_constraints()[j].superregion) by {
                    assert(seen0.contains(x));
                    let y = self.spec_constraints()[j].superregion;
                    assert(seen0.contains(y) || pending0.contains(y));
                }
            }
            let ghost v0 = visits as int;
            let ghost p0 = pending@.len() as int;
            let mut k: usize = 0;
            while k < self.constraints.len()
                invariant
                    0 <= k <= self.constraints@.len(),
                    self.closed_over(owner, seen@, pending@, Some(current), k as int),
                    seen@.contains(current),
                    seen@.contains(sub) || pending@.contains(sub),
                    !seen@.contains(sup) && !pending@.contains(sup),
                    visits <= limit,
                    self.reaches(owner, sub, current),
                    self.spec_region(sub) matches Some(a) && a.owner == owner,
                    self.spec_region(sup) matches Some(b) && b.owner == owner,
                    sub != sup,
                    forall|i: int| 0 <= i < pending@.len() ==> self.reaches(owner, sub, #[trigger] pending@[i]),
                    2 * (limit + 1 - visits) + pending@.len() <= 2 * (limit + 1 - v0) + p0,
                    n_edges == self.spec_constraints().len(),
                    e == self.owner_edge_count(owner, n_edges),
                    reachable == self.edge_targets(owner, n_edges).insert(sub),
                    reachable.finite() && reachable.len() <= e + 1,
                    forall|j: int| 0 <= j < n_edges && self.spec_constraints()[j].owner == owner ==> reachable.contains(
                        #[trigger] self.spec_constraints()[j].superregion,
                    ),
                    seen@.no_duplicates(),
                    forall|x: VirBorrowRegionId| seen@.contains(x) ==> reachable.contains(x),
                    forall|x: VirBorrowRegionId| pending@.contains(x) ==> reachable.contains(x),
                    v0 == e * (seen@.len() - 1),
                    seen@.len() >= 1,
                    visits == v0 + self.owner_edge_count(owner, k as int),
                decreases self.constraints.len() - k,
            {
                let edge = self.constraints[k];
                if edge.owner == owner {
                    proof {
                        assert(self.owner_edge_count(owner, k + 1) == self.owner_edge_count(owner, k as int) + 1);
                        self.lemma_edge_count_bounded(owner, k + 1, n_edges);
                        self.lemma_seen_bounded(seen@, reachable, e);
                        assert(v0 + self.owner_edge_count(owner, k + 1) <= e * (e + 1)) by (nonlinear_arith)
                            requires
                                v0 == e * (seen@.len() - 1),
                                self.owner_edge_count(owner, k + 1) <= e,
                                1 <= seen@.len() <= e + 1,
                                e >= 0,
                        ;
                    }
                    visits = match visits.checked_add(1) {
                        Some(v) => v,
                        None => return None,
                    };
                    if visits > limit {
                        return None;
                    }
                    if edge.subregion == current {
                        proof {
                            assert(self.has_edge(owner, current, edge.superregion)) by {
                                assert(self.spec_constraints()[k as int] == edge);
                            }
                            let p = choose|path: Seq<VirBorrowRegionId>| #[trigger] self.is_chain(owner, path) && path.len() > 0
                                && path[0] == sub && path.last() == current;
                            let q = p.push(edge.superregion);
                            assert forall|i: int| 0 <= i < q.len() - 1 implies self.has_edge(owner, #[trigger] q[i], q[i + 1]) by {
                                if i < p.len() - 1 {
                                    assert(q[i] == p[i] && q[i + 1] == p[i + 1]);
                                }
                            }
                            assert(self.is_chain(owner, q));
                        }
                        if edge.superregion == sup {
                            return Some(true);
                        }
                        let ghost before = pending@;
                        pending.push(edge.superregion);
                        proof {
                            assert(self.spec_constraints()[k as int] == edge);
                            assert(reachable.contains(edge.superregion));
                            assert(pending@[before.len() as int] == edge.superregion);
                            assert forall|y: VirBorrowRegionId| before.contains(y) implies pending@.contains(y) by {
                                let i = choose|i: int| 0 <= i < before.len() && before[i] == y;
                                assert(pending@[i] == y);
                            }
                            assert forall|y: VirBorrowRegionId| pending@.contains(y) implies before.contains(y) || y
                                == edge.superregion by {
                                let i = choose|i: int| 0 <= i < pending@.len() && pending@[i] == y;
                                if i < before.len() {
                                    assert(before[i] == y);
                                }
                            }
                        }
                    }
                }
                proof {
                    assert(self.spec_constraints()[k as int] == edge);
                }
                k = k + 1;
            }
            proof {
                assert(e * seen@.len() == e * (seen@.len() - 1) + e) by (nonlinear_arith)
                    requires
                        seen@.len() >= 1,
                ;
            }
        }
        proof {
            assert(self.closed_over(owner, seen@, pending@, None, 0));
            if self.reaches(owner, sub, sup) {
                let path = choose|path: Seq<VirBorrowRegionId>| #[trigger] self.is_chain(owner, path) && path.len() > 0
                    && path[0] == sub && path.last() == sup;
                self.lemma_chain_stays_in(owner, seen@, path, path.len() - 1);
            }
        }
        Some(false)
    }

    /// The number of constraints of `owner` among the first `n`.
    pub open spec fn owner_edge_count(&self, owner: VirFunctionId, n: int) -> int
        decreases n,
    {
        if n <= 0 {
            0
        } else {
            self.owner_edge_count(owner, n - 1) + if self.spec_constraints()[n - 1].owner == owner { 1int } else { 0 }
        }
    }

    /// The superregions of the constraints of `owner` among the first `n`.
    pub open spec fn edge_targets(&self, owner: VirFunctionId, n: int) -> Set<VirBorrowRegionId>
        decreases n,
    {
        if n <= 0 {
            Set::empty()
        } else if self.spec_constraints()[n - 1].owner == owner {
            self.edge_targets(owner, n - 1).insert(self.spec_constraints()[n - 1].superregion)
        } else {
            self.edge_targets(owner, n - 1)
        }
    }

    proof fn lemma_edge_targets(&self, owner: VirFunctionId, n: int)
        requires
            0 <= n,
        ensures
            self.edge_targets(owner, n).finite(),
            self.edge_targets(owner, n).len() <= self.owner_edge_count(owner, n),
            self.owner_edge_count(owner, n) >= 0,
            forall|j: int| 0 <= j < n && self.spec_constraints()[j].owner == owner ==> self.edge_targets(owner, n).contains(
                #[trigger] self.spec_constraints()[j].superregion,
            ),
        decreases n,
    {
        if n > 0 {
            self.lemma_edge_targets(owner, n - 1);
            if self.spec_constraints()[n - 1].owner == owner {
                vstd::set::axiom_set_insert_len(self.edge_targets(owner, n - 1), self.spec_constraints()[n - 1].superregion);
            }
        }
    }

    proof fn lemma_edge_count_bounded(&self, owner: VirFunctionId, k: int, n: int)
        requires
            0 <= k <= n,
        ensures
            self.owner_edge_count(owner, k) <= self.owner_edge_count(owner, n),
        decreases n - k,
    {
        if k < n {
            self.lemma_edge_count_bounded(owner, k, n - 1);
        }
    }

    proof fn lemma_seen_bounded(&self, seen: Seq<VirBorrowRegionId>, reachable: Set<VirBorrowRegionId>, e: int)
        requires
            seen.no_duplicates(),
            reachable.finite(),
            reachable.len() <= e + 1,
            forall|x: VirBorrowRegionId| seen.contains(x) ==> reachable.contains(x),
        ensures
            seen.len() <= e + 1,
    {
        seen.unique_seq_to_set();
        vstd::set_lib::lemma_len_subset(seen.to_set(), reachable);
    }

    /// Every same-owner edge from a region of `seen` leads into `seen` or
    /// `pending`, except the edges from `current` at or after constraint
    /// `k` while `current` is being scanned.
    spec fn closed_over(
        &self,
        owner: VirFunctionId,
        seen: Seq<VirBorrowRegionId>,
        pending: Seq<VirBorrowRegionId>,
        current: Option<VirBorrowRegionId>,
        k: int,
    ) -> bool {
        forall|x: VirBorrowRegionId, j: int|
            #![trigger seen.contains(x), self.spec_constraints()[j]]
            seen.contains(x) && 0 <= j < self.spec_constraints().len() && self.spec_constraints()[j].owner == owner
                && self.spec_constraints()[j].subregion == x && !(current == Some(x) && j >= k) ==> seen.contains(
                self.spec_constraints()[j].superregion,
            ) || pending.contains(self.spec_constraints()[j].superregion)
    }

    /// A chain from a region of a closed `seen` stays in `seen`.
    proof fn lemma_chain_stays_in(&self, owner: VirFunctionId, seen: Seq<VirBorrowRegionId>, path: Seq<VirBorrowRegionId>, n: int)
        requires
            self.closed_over(owner, seen, Seq::empty(), None, 0),
            self.is_chain(owner, path),
            0 <= n < path.len(),
            seen.contains(path[0]),
        ensures
            seen.contains(path[n]),
        decreases n,
    {
        if n > 0 {
            self.lemma_chain_stays_in(owner, seen, path, n - 1);
            assert(self.has_edge(owner, path[n - 1], path[n]));
            let j = choose|j: int| 0 <= j < self.spec_constraints().len() && (#[trigger] self.spec_constraints()[j]).owner == owner
                && self.spec_constraints()[j].subregion == path[n - 1] && self.spec_constraints()[j].superregion == path[n];
            assert(!Seq::<VirBorrowRegionId>::empty().contains(path[n]));
        }
    }

    pub fn empty() -> (r: Self)
        ensures
            r.spec_regions().len() == 0 && r.spec_constraints().len() == 0,
    {
        VirBorrowEnvironment { regions: Vec::new(), constraints: Vec::new() }
    }

    /// Constructs raw tables; unit validation remains responsible for
    /// density, ownership, origin and scope invariants.
    pub fn from_tables(regions: Vec<VirBorrowRegion>, constraints: Vec<VirBorrowRegionConstraint>) -> (r: Self)
        ensures
            r.spec_regions() == regions@ && r.spec_constraints() == constraints@,
    {
        VirBorrowEnvironment { regions, constraints }
    }

    pub fn regions(&self) -> (r: &[VirBorrowRegion])
        ensures
            r@ == self.spec_regions(),
    {
        self.regions.as_slice()
    }

    pub fn constraints(&self) -> (r: &[VirBorrowRegionConstraint])
        ensures
            r@ == self.spec_constraints(),
    {
        self.constraints.as_slice()
    }

    pub fn region(&self, id: VirBorrowRegionId) -> (r: Option<&VirBorrowRegion>)
        ensures
            same_ref(r, self.spec_region(id)),
    {
        let index = id.0 as usize;
        if index < self.regions.len() && self.regions[index].id == id {
            Some(&self.regions[index])
        } else {
            None
        }
    }

    pub fn constraint(&self, id: VirBorrowRegionConstraintId) -> (r: Option<&VirBorrowRegionConstraint>)
        ensures
            same_ref(r, self.spec_constraint(id)),
    {
        let index = id.0 as usize;
        if index < self.constraints.len() && self.constraints[index].id == id {
            Some(&self.constraints[index])
        } else {
            None
        }
    }
}

/// Access kind granted by one canonical loan.
#[derive(Clone, Copy, Debug, PartialEq, Eq, PartialOrd, Ord, Hash, Structural)]
pub enum VirLoanKind {
    Shared,
    Mutable,
}

/// Canonical allocation-relative half-open range protected by a loan.
#[derive(Clone, Copy, Debug, PartialEq, Eq, PartialOrd, Ord, Hash, Structural)]
pub struct VirLoanRange {
    pub start_bytes: u64,
    pub end_bytes: u64,
}

impl VirLoanRange {
    /// Length of the range; `None` when the end lies before the start.
    pub fn len_bytes(self) -> (r: Option<u64>)
        ensures
            r == (if self.start_bytes <= self.end_bytes { Some((self.end_bytes - self.start_bytes) as u64) } else { None }),
    {
        self.end_bytes.checked_sub(self.start_bytes)
    }

    /// `other` lies inside this range.
    pub fn contains(self, other: Self) -> (r: bool)
        ensures
            r == (self.start_bytes <= other.start_bytes && other.end_bytes <= self.end_bytes),
    {
        self.start_bytes <= other.start_bytes && other.end_bytes <= self.end_bytes
    }
}

/// Immutable metadata repeated by every effect for independent validation.
///
/// `reference` is the canonical logical `Reference<T>` memory access. The
/// source/result SSA slots are its physical pointer/permission pair.
#[derive(Clone, Copy, Debug, PartialEq, Eq, Hash, Structural)]
pub struct VirLoanEffect {
    pub loan: VirLoanId,
    pub kind: VirLoanKind,
    pub region: VirBorrowRegionId,
    pub parent: Option<VirLoanId>,
    pub source_pointer: VirValueId,
    pub source_permission: VirValueId,
    pub reference: VirMemoryAccess,
    pub range: VirLoanRange,
    pub origin: VirOriginId,
}

/// Authority-directed loan effect for interface references, dynamic children,
/// or references moved out of aggregate payloads (alias/end).
#[derive(Clone, Copy, Debug, PartialEq, Eq, Hash, Structural)]
pub struct VirLoanAuthorityEffect {
    pub source_pointer: VirValueId,
    pub source_permission: VirValueId,
    pub reference: VirMemoryAccess,
    pub origin: VirOriginId,
}

} // verus!
