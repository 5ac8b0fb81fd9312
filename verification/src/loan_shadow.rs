//! Path-local runtime oracle for validated VIR loan effects.
//!
//! The shadow is intentionally absent from the runtime values. It follows one
//! concrete execution path, assigns an opaque token to every runtime alias and
//! survives SSA renaming without making loan identity an observable value.

use std::collections::BTreeSet;

use vstd::prelude::*;

use crate::borrow::{VirBorrowEnvironment, VirLoanAuthorityEffect, VirLoanEffect, VirLoanKind, VirLoanRange};
use crate::ids::{ByteSpan, VirBorrowRegionId, VirLoanId, VirValueId};
use crate::memory::{VirMemoryAccess, VirMemorySchema, VirMemoryTypeKind, VirMutability};
use crate::runtime::{
    BlockFrame, RuntimeLoanAuthority, VirExecutionError, VirExecutionErrorKind, VirRuntimePermission, VirRuntimePointer,
    VirRuntimeValue, error, frame_pointer, pointer_value, spec_runtime_matches_type,
};
use crate::types::{VirType, VirValue};

verus! {

broadcast use {vstd::laws_cmp::group_laws_cmp, vstd::std_specs::btree::group_btree_axioms};

/// Kind of access a runtime operation performs through a loan.
#[derive(Clone, Copy, Debug, PartialEq, Eq, Structural)]
pub enum RuntimeLoanAccess {
    Read,
    Write,
    Move,
    Free,
}

/// An access checked against the live loans.
#[derive(Clone, Copy)]
pub struct RuntimeLoanAccessRequest {
    pub permission: VirValueId,
    pub pointer: VirRuntimePointer,
    pub start_bytes: u64,
    pub end_bytes: u64,
    pub kind: RuntimeLoanAccess,
}

/// Per-call limits on live loans, aliases and reborrow depth.
#[derive(Clone, Copy, Debug, PartialEq, Eq, Structural)]
pub struct RuntimeLoanLimits {
    pub active_loans: usize,
    pub aliases_per_loan: usize,
    pub reborrow_depth: usize,
}

/// Whether a loan grants access, is suspended by a child, or has ended.
#[derive(Clone, Copy, Debug, PartialEq, Eq, Structural)]
pub enum RuntimeLoanActivity {
    Active,
    Suspended,
    Ended,
}

/// One runtime loan: what it covers and which alias tokens hold it.
#[derive(Clone, Debug)]
pub struct RuntimeLoan {
    pub allocation: u64,
    pub range: VirLoanRange,
    pub envelope: VirLoanRange,
    pub kind: VirLoanKind,
    pub region: VirBorrowRegionId,
    pub parent: Option<VirLoanId>,
    pub pointee: VirMemoryAccess,
    pub activity: RuntimeLoanActivity,
    pub authorities: BTreeSet<u64>,
}

impl RuntimeLoan {
    /// The loan was created by `effect` from `pointer`.
    pub open spec fn spec_metadata_matches(&self, effect: VirLoanEffect, pointer: VirRuntimePointer) -> bool {
        &&& self.allocation == pointer.allocation
        &&& self.pointee == pointer.access
        &&& self.envelope == effect.range
        &&& self.kind == effect.kind
        &&& self.region == effect.region
        &&& self.parent == effect.parent
    }

    pub fn metadata_matches(&self, effect: VirLoanEffect, pointer: VirRuntimePointer) -> (r: bool)
        ensures
            r == self.spec_metadata_matches(effect, pointer),
    {
        self.allocation == pointer.allocation && self.pointee == pointer.access && self.envelope == effect.range
            && self.kind == effect.kind && self.region == effect.region && self.parent == effect.parent
    }
}

/// A loan together with its identifier.
pub struct RuntimeLoanEntry {
    pub id: VirLoanId,
    pub loan: RuntimeLoan,
}

/// `[start, end)` overlaps `other`.
pub open spec fn spec_ranges_overlap(start: u64, end: u64, other: VirLoanRange) -> bool {
    start < other.end_bytes && other.start_bytes < end
}

pub fn ranges_overlap(start: u64, end: u64, other: VirLoanRange) -> (r: bool)
    ensures
        r == spec_ranges_overlap(start, end, other),
{
    start < other.end_bytes && other.start_bytes < end
}

/// A live loan that a new `kind` loan over `actual` in `allocation` would
/// conflict with: both are live, overlap, and at least one is mutable.
pub open spec fn creation_conflicts(loan: RuntimeLoan, allocation: u64, actual: VirLoanRange, kind: VirLoanKind) -> bool {
    &&& loan.activity != RuntimeLoanActivity::Ended
    &&& loan.allocation == allocation
    &&& spec_ranges_overlap(actual.start_bytes, actual.end_bytes, loan.range)
    &&& !(loan.kind == VirLoanKind::Shared && kind == VirLoanKind::Shared)
}

/// Byte `b` lies in the half-open range `[start, end)`.
pub open spec fn byte_in(start: int, end: int, b: int) -> bool {
    start <= b < end
}

/// Two nonempty half-open byte ranges overlap exactly when they share a
/// byte; ranges that only touch never overlap, and a shared byte always
/// makes them overlap.
pub proof fn lemma_overlap_is_a_shared_byte(start: u64, end: u64, other: VirLoanRange)
    ensures
        (exists|b: int| #[trigger] byte_in(start as int, end as int, b) && byte_in(other.start_bytes as int, other.end_bytes as int, b))
            ==> spec_ranges_overlap(start, end, other),
        start < end && other.start_bytes < other.end_bytes ==> (spec_ranges_overlap(start, end, other) <==> exists|b: int|
            #[trigger] byte_in(start as int, end as int, b) && byte_in(other.start_bytes as int, other.end_bytes as int, b)),
        end == other.start_bytes || other.end_bytes == start ==> !spec_ranges_overlap(start, end, other),
{
    if start < end && other.start_bytes < other.end_bytes && start < other.end_bytes && other.start_bytes < end {
        let b: int = if start >= other.start_bytes { start as int } else { other.start_bytes as int };
        assert(byte_in(start as int, end as int, b) && byte_in(other.start_bytes as int, other.end_bytes as int, b));
    }
}

/// A live loan blocks an access by a permission that holds no loan only
/// when it lies in the same allocation and the two are not both reads of a
/// shared loan; between nonempty ranges, exactly when they also share a
/// byte. An access that only touches the loan's bytes is never blocked.
pub proof fn lemma_blocking_needs_a_shared_byte(l: RuntimeLoan, request: RuntimeLoanAccessRequest)
    ensures
        request.start_bytes < request.end_bytes && l.range.start_bytes < l.range.end_bytes ==> (blocks_access(l, request) <==> {
            &&& l.activity != RuntimeLoanActivity::Ended
            &&& l.allocation == request.pointer.allocation
            &&& !(request.kind == RuntimeLoanAccess::Read && l.kind == VirLoanKind::Shared)
            &&& exists|b: int| #[trigger] byte_in(request.start_bytes as int, request.end_bytes as int, b) && byte_in(
                l.range.start_bytes as int,
                l.range.end_bytes as int,
                b,
            )
        }),
        request.end_bytes == l.range.start_bytes || l.range.end_bytes == request.start_bytes ==> !blocks_access(l, request),
{
    lemma_overlap_is_a_shared_byte(request.start_bytes, request.end_bytes, l.range);
}

/// A new loan conflicts with a live one only when both lie in the same
/// allocation and not both are shared; between nonempty ranges, exactly when
/// they also share a byte. A loan that only touches another never conflicts.
pub proof fn lemma_creation_conflict_needs_a_shared_byte(loan: RuntimeLoan, allocation: u64, actual: VirLoanRange, kind: VirLoanKind)
    ensures
        actual.start_bytes < actual.end_bytes && loan.range.start_bytes < loan.range.end_bytes ==> (creation_conflicts(
            loan,
            allocation,
            actual,
            kind,
        ) <==> {
            &&& loan.activity != RuntimeLoanActivity::Ended
            &&& loan.allocation == allocation
            &&& !(loan.kind == VirLoanKind::Shared && kind == VirLoanKind::Shared)
            &&& exists|b: int| #[trigger] byte_in(actual.start_bytes as int, actual.end_bytes as int, b) && byte_in(
                loan.range.start_bytes as int,
                loan.range.end_bytes as int,
                b,
            )
        }),
        actual.end_bytes == loan.range.start_bytes || loan.range.end_bytes == actual.start_bytes ==> !creation_conflicts(
            loan,
            allocation,
            actual,
            kind,
        ),
{
    lemma_overlap_is_a_shared_byte(actual.start_bytes, actual.end_bytes, loan.range);
}

/// Number of live loans among `entries`.
pub open spec fn count_live(entries: Seq<RuntimeLoanEntry>) -> nat
    decreases entries.len(),
{
    if entries.len() == 0 {
        0
    } else {
        count_live(entries.drop_last()) + if entries.last().loan.activity != RuntimeLoanActivity::Ended { 1nat } else { 0nat }
    }
}

pub fn authority_error(loan: VirLoanId, permission: VirValueId, source_span: ByteSpan) -> (e: VirExecutionError)
    ensures
        e.spec_kind() == (VirExecutionErrorKind::LoanAuthorityMismatch { loan, permission }),
{
    error(VirExecutionErrorKind::LoanAuthorityMismatch { loan, permission }, source_span)
}

/// What reading permission `id` from `frame` gives.
pub open spec fn frame_permission(frame: BlockFrame, id: VirValueId) -> Result<VirRuntimePermission, VirExecutionErrorKind> {
    if frame.consumed_permissions@.contains(id.0) {
        Err(VirExecutionErrorKind::PermissionAlreadyConsumed(id))
    } else if frame.values@.contains_key(id.0) {
        match frame.values@[id.0] {
            VirRuntimeValue::Permission(p) => Ok(p),
            _ => Err(VirExecutionErrorKind::InvalidRuntimeState),
        }
    } else {
        Err(VirExecutionErrorKind::InvalidRuntimeState)
    }
}

fn read_permission(frame: &BlockFrame, id: VirValueId, source_span: ByteSpan) -> (r: Result<VirRuntimePermission, VirExecutionError>)
    ensures
        match r {
            Ok(p) => frame_permission(*frame, id) == Ok::<VirRuntimePermission, VirExecutionErrorKind>(p),
            Err(e) => frame_permission(*frame, id) == Err::<VirRuntimePermission, VirExecutionErrorKind>(e.spec_kind()),
        },
{
    frame.permission(id, source_span)
}

/// The permission handed out with a new loan alias over `actual`.
pub open spec fn loan_permission(pointer: VirRuntimePointer, actual: VirLoanRange) -> VirRuntimePermission {
    VirRuntimePermission {
        allocation: pointer.allocation,
        start_bytes: actual.start_bytes,
        end_bytes: actual.end_bytes,
        can_free_when_complete: false,
    }
}

/// The reference and permission results can be defined in `frame`.
pub open spec fn results_definable(frame: BlockFrame, pointer: VirRuntimePointer, reference_result: VirValue, permission_result: VirValue) -> bool {
    &&& spec_runtime_matches_type(VirRuntimeValue::Pointer(pointer), reference_result.ty)
    &&& permission_result.ty == VirType::Permission
    &&& !frame.values@.contains_key(reference_result.id.0)
    &&& !frame.values@.contains_key(permission_result.id.0)
    &&& reference_result.id.0 != permission_result.id.0
}

/// `after` is `before` with the two results defined and the permission bound
/// to `authority`.
pub open spec fn results_defined(
    before: BlockFrame,
    after: BlockFrame,
    pointer: VirRuntimePointer,
    permission: VirRuntimePermission,
    reference_result: VirValue,
    permission_result: VirValue,
    authority: RuntimeLoanAuthority,
) -> bool {
    &&& after.values@ == before.values@.insert(reference_result.id.0, VirRuntimeValue::Pointer(pointer)).insert(
        permission_result.id.0,
        VirRuntimeValue::Permission(permission),
    )
    &&& after.loan_authorities@ == before.loan_authorities@.insert(permission_result.id.0, authority)
    &&& after.consumed_permissions@ == before.consumed_permissions@
}

/// Defines the reference and permission results of a loan alias.
fn define_results(
    frame: &mut BlockFrame,
    pointer: VirRuntimePointer,
    permission: VirRuntimePermission,
    reference_result: VirValue,
    permission_result: VirValue,
    authority: RuntimeLoanAuthority,
    source_span: ByteSpan,
) -> (r: Result<(), VirExecutionError>)
    ensures
        r is Ok <==> results_definable(*old(frame), pointer, reference_result, permission_result),
        r is Ok ==> results_defined(*old(frame), *final(frame), pointer, permission, reference_result, permission_result, authority),
        r matches Err(e) ==> e.spec_kind() == VirExecutionErrorKind::InvalidRuntimeState,
        final(frame).consumed_permissions@ == old(frame).consumed_permissions@,
{
    frame.insert(reference_result, VirRuntimeValue::Pointer(pointer), source_span)?;
    frame.insert(permission_result, VirRuntimeValue::Permission(permission), source_span)?;
    frame.set_loan_authority(permission_result.id, authority);
    Ok(())
}

/// Concrete loan state for one function invocation, kept sorted by loan
/// identifier.
pub struct RuntimeLoanShadow {
    entries: Vec<RuntimeLoanEntry>,
    next_authority: u64,
    next_dynamic_loan: u32,
}

/// Loan identifiers strictly increase along the entries.
pub open spec fn ids_sorted(e: Seq<RuntimeLoanEntry>) -> bool {
    forall|i: int, j: int| 0 <= i < j < e.len() ==> (#[trigger] e[i]).id.0 < (#[trigger] e[j]).id.0
}

/// Entry `i` of `e` holds loan `id`.
pub open spec fn entry_holds(e: Seq<RuntimeLoanEntry>, id: VirLoanId, i: int) -> bool {
    0 <= i < e.len() && e[i].id == id
}

/// The loan that `e` records under `id`.
pub open spec fn entries_loan(e: Seq<RuntimeLoanEntry>, id: VirLoanId) -> Option<RuntimeLoan> {
    if exists|i: int| #[trigger] entry_holds(e, id, i) {
        Some(e[choose|i: int| #[trigger] entry_holds(e, id, i)].loan)
    } else {
        None
    }
}

/// In sorted entries, the loan recorded under an identifier is the one at
/// the index that holds it.
pub proof fn lemma_entries_loan_at(e: Seq<RuntimeLoanEntry>, id: VirLoanId, i: int)
    requires
        ids_sorted(e),
        entry_holds(e, id, i),
    ensures
        entries_loan(e, id) == Some(e[i].loan),
{
    let j = choose|j: int| #[trigger] entry_holds(e, id, j);
    assert(entry_holds(e, id, j));
    if j < i {
        assert(e[j].id.0 < e[i].id.0);
    } else if i < j {
        assert(e[i].id.0 < e[j].id.0);
    }
}

/// Overwriting the entry that holds an identifier changes only that
/// identifier's loan.
pub proof fn lemma_entries_replace(e: Seq<RuntimeLoanEntry>, i: int, entry: RuntimeLoanEntry)
    requires
        ids_sorted(e),
        0 <= i < e.len(),
        e[i].id == entry.id,
    ensures
        ids_sorted(e.update(i, entry)),
        entries_loan(e.update(i, entry), entry.id) == Some(entry.loan),
        forall|x: VirLoanId| x != entry.id ==> #[trigger] entries_loan(e.update(i, entry), x) == entries_loan(e, x),
{
    let n = e.update(i, entry);
    assert(ids_sorted(n)) by {
        assert forall|a: int, b: int| 0 <= a < b < n.len() implies (#[trigger] n[a]).id.0 < (#[trigger] n[b]).id.0 by {
            assert(e[a].id.0 < e[b].id.0);
        }
    }
    assert(entry_holds(n, entry.id, i));
    lemma_entries_loan_at(n, entry.id, i);
    assert forall|x: VirLoanId| x != entry.id implies #[trigger] entries_loan(n, x) == entries_loan(e, x) by {
        if exists|j: int| #[trigger] entry_holds(e, x, j) {
            let j = choose|j: int| #[trigger] entry_holds(e, x, j);
            assert(entry_holds(n, x, j));
            lemma_entries_loan_at(e, x, j);
            lemma_entries_loan_at(n, x, j);
        } else {
            assert forall|j: int| !#[trigger] entry_holds(n, x, j) by {
                if entry_holds(n, x, j) {
                    assert(entry_holds(e, x, j));
                }
            }
        }
    }
}

/// Inserting an entry at its sorted place adds its identifier and keeps the
/// others.
pub proof fn lemma_entries_insert(e: Seq<RuntimeLoanEntry>, i: int, entry: RuntimeLoanEntry)
    requires
        ids_sorted(e),
        0 <= i <= e.len(),
        forall|j: int| 0 <= j < i ==> (#[trigger] e[j]).id.0 < entry.id.0,
        i < e.len() ==> entry.id.0 < e[i].id.0,
    ensures
        ids_sorted(e.insert(i, entry)),
        entries_loan(e.insert(i, entry), entry.id) == Some(entry.loan),
        forall|x: VirLoanId| x != entry.id ==> #[trigger] entries_loan(e.insert(i, entry), x) == entries_loan(e, x),
{
    let n = e.insert(i, entry);
    assert(forall|j: int| i <= j < e.len() ==> entry.id.0 < (#[trigger] e[j]).id.0) by {
        assert forall|j: int| i <= j < e.len() implies entry.id.0 < (#[trigger] e[j]).id.0 by {
            if j > i {
                assert(e[i].id.0 < e[j].id.0);
            }
        }
    }
    assert(ids_sorted(n)) by {
        assert forall|a: int, b: int| 0 <= a < b < n.len() implies (#[trigger] n[a]).id.0 < (#[trigger] n[b]).id.0 by {
            if b < i {
                assert(e[a].id.0 < e[b].id.0);
            } else if b == i {
                assert(n[a] == e[a]);
            } else if a < i {
                assert(n[b] == e[b - 1]);
                assert(e[a].id.0 < entry.id.0);
            } else if a == i {
                assert(n[b] == e[b - 1]);
            } else {
                assert(e[a - 1].id.0 < e[b - 1].id.0);
            }
        }
    }
    assert(entry_holds(n, entry.id, i));
    lemma_entries_loan_at(n, entry.id, i);
    assert forall|x: VirLoanId| x != entry.id implies #[trigger] entries_loan(n, x) == entries_loan(e, x) by {
        if exists|j: int| #[trigger] entry_holds(e, x, j) {
            let j = choose|j: int| #[trigger] entry_holds(e, x, j);
            let k = if j < i { j } else { j + 1 };
            assert(entry_holds(n, x, k));
            lemma_entries_loan_at(e, x, j);
            lemma_entries_loan_at(n, x, k);
        } else {
            assert forall|k: int| !#[trigger] entry_holds(n, x, k) by {
                if entry_holds(n, x, k) {
                    if k < i {
                        assert(entry_holds(e, x, k));
                    } else if k > i {
                        assert(entry_holds(e, x, k - 1));
                    }
                }
            }
        }
    }
}

/// Distinct identifiers that all have recorded loans are no more than the
/// entries.
pub proof fn lemma_recorded_ids_bounded(e: Seq<RuntimeLoanEntry>, ids: Seq<VirLoanId>)
    requires
        ids.no_duplicates(),
        forall|k: int| 0 <= k < ids.len() ==> (#[trigger] entries_loan(e, ids[k])) is Some,
    ensures
        ids.len() <= e.len(),
{
    broadcast use vstd::seq_lib::group_seq_properties;
    let keys = e.map_values(|x: RuntimeLoanEntry| x.id);
    ids.unique_seq_to_set();
    keys.lemma_cardinality_of_set();
    assert(ids.to_set().subset_of(keys.to_set())) by {
        assert forall|x: VirLoanId| ids.to_set().contains(x) implies keys.to_set().contains(x) by {
            assert(ids.contains(x));
            let k = choose|k: int| 0 <= k < ids.len() && ids[k] == x;
            assert(entries_loan(e, ids[k]) is Some);
            let j = choose|j: int| #[trigger] entry_holds(e, x, j);
            assert(keys[j] == x);
            assert(keys.contains(x));
        }
    }
    vstd::set_lib::lemma_len_subset(ids.to_set(), keys.to_set());
}

/// `l` is `base` with the given activity and alias tokens.
pub open spec fn loan_with(l: RuntimeLoan, base: RuntimeLoan, activity: RuntimeLoanActivity, authorities: Set<u64>) -> bool {
    &&& l.allocation == base.allocation
    &&& l.range == base.range
    &&& l.envelope == base.envelope
    &&& l.kind == base.kind
    &&& l.region == base.region
    &&& l.parent == base.parent
    &&& l.pointee == base.pointee
    &&& l.activity == activity
    &&& l.authorities@ == authorities
}

/// A loan holds finitely many alias tokens, has ended exactly when no alias
/// holds it, and every token that holds it was handed out before `next`.
pub open spec fn loan_wf(l: RuntimeLoan, next: u64) -> bool {
    &&& l.authorities@.finite()
    &&& (l.activity == RuntimeLoanActivity::Ended <==> l.authorities@.is_empty())
    &&& forall|t: u64| l.authorities@.contains(t) ==> t < next
}

impl RuntimeLoanShadow {
    pub closed spec fn spec_entries(&self) -> Seq<RuntimeLoanEntry> {
        self.entries@
    }

    pub closed spec fn spec_next_authority(&self) -> u64 {
        self.next_authority
    }

    pub closed spec fn spec_next_dynamic_loan(&self) -> u32 {
        self.next_dynamic_loan
    }

    /// Entry `i` holds loan `id`.
    pub open spec fn holds(&self, id: VirLoanId, i: int) -> bool {
        entry_holds(self.spec_entries(), id, i)
    }

    pub open spec fn has_loan(&self, id: VirLoanId) -> bool {
        exists|i: int| #[trigger] entry_holds(self.spec_entries(), id, i)
    }

    /// The loan recorded under `id`.
    pub open spec fn spec_loan(&self, id: VirLoanId) -> Option<RuntimeLoan> {
        entries_loan(self.spec_entries(), id)
    }

    /// Alias token `t` holds loan `id`.
    pub open spec fn token_holds(&self, id: VirLoanId, t: u64) -> bool {
        self.spec_loan(id) matches Some(l) && l.authorities@.contains(t)
    }

    /// What every shadow operation keeps:
    /// - loans are sorted by identifier, each identifier at most once;
    /// - a loan has ended exactly when no alias holds it any more;
    /// - every alias token was handed out before the next fresh one;
    /// - no alias token holds two loans.
    pub open spec fn shadow_inv(&self) -> bool {
        &&& ids_sorted(self.spec_entries())
        &&& forall|id: VirLoanId| #[trigger] self.spec_loan(id) is Some ==> loan_wf(self.spec_loan(id)->0, self.spec_next_authority())
        &&& forall|a: VirLoanId, b: VirLoanId, t: u64| #[trigger] self.token_holds(a, t) && #[trigger] self.token_holds(b, t) ==> a == b
    }

    /// Both shadows record the same loans and counters.
    pub open spec fn same_state(&self, other: &Self) -> bool {
        &&& self.spec_entries() == other.spec_entries()
        &&& self.spec_next_authority() == other.spec_next_authority()
        &&& self.spec_next_dynamic_loan() == other.spec_next_dynamic_loan()
    }

    /// The selected range is well-formed and inside the effect's envelope.
    pub open spec fn selection_ok(effect: VirLoanEffect, actual: VirLoanRange) -> bool {
        actual.start_bytes <= actual.end_bytes && effect.range.start_bytes <= actual.start_bytes
            && actual.end_bytes <= effect.range.end_bytes
    }

    /// Some live loan outside `ignored` conflicts with a new `kind` loan over
    /// `actual` in `allocation`.
    pub open spec fn conflicting(&self, allocation: u64, actual: VirLoanRange, kind: VirLoanKind, ignored: Seq<VirLoanId>) -> bool {
        exists|i: int| 0 <= i < self.spec_entries().len() && !ignored.contains((#[trigger] self.spec_entries()[i]).id)
            && creation_conflicts(self.spec_entries()[i].loan, allocation, actual, kind)
    }

    /// Why `begin` refuses, in the order the checks are made, or `None`.
    pub open spec fn begin_refusal(&self, frame: BlockFrame, effect: VirLoanEffect, actual: VirLoanRange, limits: RuntimeLoanLimits)
        -> Option<VirExecutionErrorKind> {
        if self.spec_loan(effect.loan) matches Some(l) && l.activity != RuntimeLoanActivity::Ended {
            Some(VirExecutionErrorKind::LoanAlreadyDefined { loan: effect.loan })
        } else if count_live(self.spec_entries()) >= limits.active_loans {
            Some(VirExecutionErrorKind::ActiveLoanLimitExceeded { limit: limits.active_loans })
        } else if limits.aliases_per_loan == 0 {
            Some(VirExecutionErrorKind::LoanAliasLimitExceeded { loan: effect.loan, limit: limits.aliases_per_loan })
        } else if effect.parent is Some || frame.loan_authority_spec(effect.source_permission) is Some {
            Some(VirExecutionErrorKind::LoanAuthorityMismatch { loan: effect.loan, permission: effect.source_permission })
        } else {
            match frame_pointer(&frame, effect.source_pointer) {
                None => Some(VirExecutionErrorKind::InvalidRuntimeState),
                Some(pointer) => match frame_permission(frame, effect.source_permission) {
                    Err(k) => Some(k),
                    Ok(permission) => if !Self::selection_ok(effect, actual) || !Self::source_range_ok(pointer, permission, actual) {
                        Some(VirExecutionErrorKind::LoanRangeViolation { loan: effect.loan })
                    } else if self.conflicting(pointer.allocation, actual, effect.kind, Seq::empty()) {
                        Some(VirExecutionErrorKind::LoanConflict { loan: effect.loan })
                    } else if self.spec_next_authority() == u64::MAX {
                        Some(VirExecutionErrorKind::ActiveLoanLimitExceeded { limit: usize::MAX })
                    } else {
                        None
                    },
                },
            }
        }
    }

    /// Why `alias_shared` refuses, in the order the checks are made, or `None`.
    pub open spec fn alias_shared_refusal(&self, frame: BlockFrame, effect: VirLoanEffect, limits: RuntimeLoanLimits)
        -> Option<VirExecutionErrorKind> {
        match frame_pointer(&frame, effect.source_pointer) {
            None => Some(VirExecutionErrorKind::InvalidRuntimeState),
            Some(pointer) => match frame_permission(frame, effect.source_permission) {
                Err(k) => Some(k),
                Ok(permission) => match self.spec_loan(effect.loan) {
                    None => Some(VirExecutionErrorKind::MissingLoan { loan: effect.loan }),
                    Some(l) => if !Self::source_range_ok(pointer, permission, l.range) {
                        Some(VirExecutionErrorKind::LoanRangeViolation { loan: effect.loan })
                    } else if !(frame.loan_authority_spec(effect.source_permission) matches Some(a) && a.loan == effect.loan) {
                        Some(VirExecutionErrorKind::LoanAuthorityMismatch { loan: effect.loan, permission: effect.source_permission })
                    } else if l.activity != RuntimeLoanActivity::Active {
                        Some(VirExecutionErrorKind::LoanInactive { loan: effect.loan })
                    } else if l.kind != VirLoanKind::Shared || !l.spec_metadata_matches(effect, pointer) {
                        Some(VirExecutionErrorKind::LoanMetadataMismatch { loan: effect.loan })
                    } else if !l.authorities@.contains(frame.loan_authority_spec(effect.source_permission)->0.token) {
                        Some(VirExecutionErrorKind::LoanAuthorityMismatch { loan: effect.loan, permission: effect.source_permission })
                    } else if l.authorities@.len() >= limits.aliases_per_loan {
                        Some(VirExecutionErrorKind::LoanAliasLimitExceeded { loan: effect.loan, limit: limits.aliases_per_loan })
                    } else if self.spec_next_authority() == u64::MAX {
                        Some(VirExecutionErrorKind::ActiveLoanLimitExceeded { limit: usize::MAX })
                    } else {
                        None
                    },
                },
            },
        }
    }

    /// Why `alias_stored` refuses, in the order the checks are made, or `None`.
    pub open spec fn alias_stored_refusal(&self, source: RuntimeLoanAuthority, pointer: VirRuntimePointer, limits: RuntimeLoanLimits)
        -> Option<VirExecutionErrorKind> {
        match self.spec_loan(source.loan) {
            None => Some(VirExecutionErrorKind::MissingLoan { loan: source.loan }),
            Some(l) => if l.activity != RuntimeLoanActivity::Active || l.kind != VirLoanKind::Shared
                || l.allocation != pointer.allocation || l.pointee != pointer.access || !l.authorities@.contains(source.token) {
                Some(VirExecutionErrorKind::LoanAuthorityMismatch { loan: source.loan, permission: VirValueId(u32::MAX) })
            } else if l.authorities@.len() >= limits.aliases_per_loan {
                Some(VirExecutionErrorKind::LoanAliasLimitExceeded { loan: source.loan, limit: limits.aliases_per_loan })
            } else if self.spec_next_authority() == u64::MAX {
                Some(VirExecutionErrorKind::ActiveLoanLimitExceeded { limit: usize::MAX })
            } else {
                None
            },
        }
    }

    /// Why `alias_authority` refuses, in the order the checks are made, or `None`.
    pub open spec fn alias_authority_refusal(&self, frame: BlockFrame, effect: VirLoanAuthorityEffect, limits: RuntimeLoanLimits)
        -> Option<VirExecutionErrorKind> {
        match frame.loan_authority_spec(effect.source_permission) {
            None => Some(VirExecutionErrorKind::InvalidRuntimeState),
            Some(source) => match frame_pointer(&frame, effect.source_pointer) {
                None => Some(VirExecutionErrorKind::InvalidRuntimeState),
                Some(pointer) => match frame_permission(frame, effect.source_permission) {
                    Err(k) => Some(k),
                    Ok(permission) => match self.spec_loan(source.loan) {
                        None => Some(VirExecutionErrorKind::MissingLoan { loan: source.loan }),
                        Some(l) => if l.activity != RuntimeLoanActivity::Active || l.kind != VirLoanKind::Shared
                            || l.allocation != pointer.allocation || l.pointee != pointer.access
                            || permission.start_bytes != l.range.start_bytes || permission.end_bytes != l.range.end_bytes
                            || !l.authorities@.contains(source.token) {
                            Some(VirExecutionErrorKind::LoanAuthorityMismatch { loan: source.loan, permission: effect.source_permission })
                        } else if l.authorities@.len() >= limits.aliases_per_loan {
                            Some(VirExecutionErrorKind::LoanAliasLimitExceeded { loan: source.loan, limit: limits.aliases_per_loan })
                        } else if self.spec_next_authority() == u64::MAX {
                            Some(VirExecutionErrorKind::ActiveLoanLimitExceeded { limit: usize::MAX })
                        } else {
                            None
                        },
                    },
                },
            },
        }
    }

    /// The shadow is `old` with fresh token `token` added to loan `id`.
    pub open spec fn alias_added(&self, old: &Self, id: VirLoanId, token: u64) -> bool {
        &&& old.spec_loan(id) is Some
        &&& self.spec_loan(id) matches Some(l) && loan_with(l, old.spec_loan(id)->0, old.spec_loan(id)->0.activity,
            old.spec_loan(id)->0.authorities@.insert(token))
        &&& forall|x: VirLoanId| x != id ==> #[trigger] self.spec_loan(x) == old.spec_loan(x)
        &&& token == old.spec_next_authority()
        &&& self.spec_next_authority() == token + 1
        &&& self.spec_next_dynamic_loan() == old.spec_next_dynamic_loan()
    }

    /// `chain` is `loan`, its parent, its grandparent, ... up to a root,
    /// every one of them recorded.
    pub open spec fn is_chain(&self, loan: VirLoanId, chain: Seq<VirLoanId>) -> bool {
        &&& chain.len() >= 1
        &&& forall|k: int| 0 <= k < chain.len() ==> self.ancestor(loan, k as nat) == Some(#[trigger] chain[k])
            && self.spec_loan(chain[k]) is Some
        &&& self.ancestor(loan, chain.len()) is None
    }

    /// Why `reborrow` refuses before it walks the parent's ancestors, in the
    /// order the checks are made, or `None`.
    pub open spec fn reborrow_refusal(&self, frame: BlockFrame, effect: VirLoanEffect, actual: VirLoanRange, limits: RuntimeLoanLimits)
        -> Option<VirExecutionErrorKind> {
        if self.spec_loan(effect.loan) matches Some(l) && l.activity != RuntimeLoanActivity::Ended {
            Some(VirExecutionErrorKind::LoanAlreadyDefined { loan: effect.loan })
        } else if count_live(self.spec_entries()) >= limits.active_loans {
            Some(VirExecutionErrorKind::ActiveLoanLimitExceeded { limit: limits.active_loans })
        } else if limits.aliases_per_loan == 0 {
            Some(VirExecutionErrorKind::LoanAliasLimitExceeded { loan: effect.loan, limit: limits.aliases_per_loan })
        } else {
            match effect.parent {
                None => Some(VirExecutionErrorKind::LoanMetadataMismatch { loan: effect.loan }),
                Some(parent_id) => match frame.loan_authority_spec(effect.source_permission) {
                    None => Some(VirExecutionErrorKind::LoanAuthorityMismatch { loan: parent_id, permission: effect.source_permission }),
                    Some(source) => if source.loan != parent_id {
                        Some(VirExecutionErrorKind::LoanParentMismatch { loan: effect.loan, parent: parent_id })
                    } else {
                        match frame_pointer(&frame, effect.source_pointer) {
                            None => Some(VirExecutionErrorKind::InvalidRuntimeState),
                            Some(pointer) => match frame_permission(frame, effect.source_permission) {
                                Err(k) => Some(k),
                                Ok(permission) => if !Self::selection_ok(effect, actual) || !Self::source_range_ok(pointer, permission, actual) {
                                    Some(VirExecutionErrorKind::LoanRangeViolation { loan: effect.loan })
                                } else {
                                    match self.spec_loan(parent_id) {
                                        None => Some(VirExecutionErrorKind::MissingLoan { loan: parent_id }),
                                        Some(parent) => if parent.activity == RuntimeLoanActivity::Ended {
                                            Some(VirExecutionErrorKind::LoanInactive { loan: parent_id })
                                        } else if !parent.authorities@.contains(source.token) || parent.allocation != pointer.allocation
                                            || !(parent.range.start_bytes <= actual.start_bytes && actual.end_bytes <= parent.range.end_bytes)
                                            || (parent.kind == VirLoanKind::Shared && effect.kind != VirLoanKind::Shared) {
                                            Some(VirExecutionErrorKind::LoanParentMismatch { loan: effect.loan, parent: parent_id })
                                        } else {
                                            None
                                        },
                                    }
                                },
                            },
                        }
                    },
                },
            }
        }
    }

    /// Why `reborrow` refuses once the parent's ancestors `chain` are known,
    /// in the order the checks are made, or `None`.
    pub open spec fn reborrow_chain_refusal(&self, frame: BlockFrame, effect: VirLoanEffect, actual: VirLoanRange,
        limits: RuntimeLoanLimits, chain: Seq<VirLoanId>) -> Option<VirExecutionErrorKind> {
        let pointer = frame_pointer(&frame, effect.source_pointer)->0;
        if chain.len() > limits.reborrow_depth {
            Some(VirExecutionErrorKind::LoanReborrowDepthLimitExceeded { loan: effect.loan, limit: limits.reborrow_depth })
        } else if self.conflicting(pointer.allocation, actual, effect.kind, chain) {
            Some(VirExecutionErrorKind::LoanConflict { loan: effect.loan })
        } else if self.spec_next_authority() == u64::MAX {
            Some(VirExecutionErrorKind::ActiveLoanLimitExceeded { limit: usize::MAX })
        } else {
            None
        }
    }

    /// A walk from `loan` towards the root meets a missing loan or a loan
    /// twice, and `kind` reports the first such fault.
    pub open spec fn chain_fault(&self, loan: VirLoanId, kind: VirExecutionErrorKind) -> bool {
        ||| exists|k: nat| (#[trigger] self.ancestor(loan, k)) is Some && self.spec_loan(self.ancestor(loan, k)->0) is None
            && kind == (VirExecutionErrorKind::MissingLoan { loan: self.ancestor(loan, k)->0 })
        ||| exists|j: nat, k: nat| j < k && (#[trigger] self.ancestor(loan, j)) is Some
            && #[trigger] self.ancestor(loan, k) == self.ancestor(loan, j)
            && kind == (VirExecutionErrorKind::LoanParentMismatch { loan, parent: self.ancestor(loan, k)->0 })
    }

    /// The suspended parent that wakes up when `loan` ends, if any.
    pub open spec fn reactivated_parent(&self, loan: VirLoanId) -> Option<VirLoanId> {
        match self.spec_loan(loan) {
            Some(l) => match l.parent {
                Some(p) => if !self.live_child_except(p, Some(loan)) && (self.spec_loan(p) matches Some(pl)
                    && pl.activity == RuntimeLoanActivity::Suspended) {
                    Some(p)
                } else {
                    None
                },
                None => None,
            },
            None => None,
        }
    }

    /// The shadow is `old` after alias token `token` of `loan` is released:
    /// the loan ends with its last token, and then a suspended parent with no
    /// other live child becomes active again.
    pub open spec fn released(&self, old: &Self, loan: VirLoanId, token: u64) -> bool {
        let l = old.spec_loan(loan)->0;
        let rest = l.authorities@.remove(token);
        &&& old.spec_loan(loan) is Some
        &&& self.spec_next_authority() == old.spec_next_authority()
        &&& self.spec_next_dynamic_loan() == old.spec_next_dynamic_loan()
        &&& if !rest.is_empty() {
            &&& self.spec_loan(loan) matches Some(n) && loan_with(n, l, l.activity, rest)
            &&& forall|x: VirLoanId| x != loan ==> #[trigger] self.spec_loan(x) == old.spec_loan(x)
        } else {
            &&& self.spec_loan(loan) matches Some(n) && loan_with(n, l, RuntimeLoanActivity::Ended, rest)
            &&& match old.reactivated_parent(loan) {
                Some(p) => {
                    &&& self.spec_loan(p) matches Some(n) && loan_with(n, old.spec_loan(p)->0, RuntimeLoanActivity::Active,
                        old.spec_loan(p)->0.authorities@)
                    &&& forall|x: VirLoanId| x != loan && x != p ==> #[trigger] self.spec_loan(x) == old.spec_loan(x)
                },
                None => forall|x: VirLoanId| x != loan ==> #[trigger] self.spec_loan(x) == old.spec_loan(x),
            }
        }
    }

    /// Why `end` refuses, in the order the checks are made, or `None`.
    pub open spec fn end_refusal(&self, frame: BlockFrame, effect: VirLoanEffect) -> Option<VirExecutionErrorKind> {
        match self.spec_loan(effect.loan) {
            None => Some(VirExecutionErrorKind::MissingLoan { loan: effect.loan }),
            Some(l) => if l.activity != RuntimeLoanActivity::Active {
                Some(VirExecutionErrorKind::LoanInactive { loan: effect.loan })
            } else {
                match frame_pointer(&frame, effect.source_pointer) {
                    None => Some(VirExecutionErrorKind::InvalidRuntimeState),
                    Some(pointer) => match frame_permission(frame, effect.source_permission) {
                        Err(k) => Some(k),
                        Ok(permission) => if !Self::source_range_ok(pointer, permission, l.range) {
                            Some(VirExecutionErrorKind::LoanRangeViolation { loan: effect.loan })
                        } else if !(frame.loan_authority_spec(effect.source_permission) matches Some(a) && a.loan == effect.loan) {
                            Some(VirExecutionErrorKind::LoanAuthorityMismatch { loan: effect.loan, permission: effect.source_permission })
                        } else if !l.spec_metadata_matches(effect, pointer) {
                            Some(VirExecutionErrorKind::LoanMetadataMismatch { loan: effect.loan })
                        } else if self.live_child_except(effect.loan, None) {
                            Some(VirExecutionErrorKind::LoanHasActiveChild { loan: effect.loan })
                        } else if !l.authorities@.contains(frame.loan_authority_spec(effect.source_permission)->0.token) {
                            Some(VirExecutionErrorKind::LoanAuthorityMismatch { loan: effect.loan, permission: effect.source_permission })
                        } else {
                            None
                        },
                    },
                }
            },
        }
    }

    /// Why `end_stored` refuses, or `None`.
    pub open spec fn end_stored_refusal(&self, authority: RuntimeLoanAuthority, pointer: VirRuntimePointer) -> Option<VirExecutionErrorKind> {
        match self.spec_loan(authority.loan) {
            None => Some(VirExecutionErrorKind::MissingLoan { loan: authority.loan }),
            Some(l) => if l.activity != RuntimeLoanActivity::Active || l.allocation != pointer.allocation
                || l.pointee != pointer.access || !l.authorities@.contains(authority.token)
                || (l.authorities@.len() == 1 && self.live_child_except(authority.loan, None)) {
                Some(VirExecutionErrorKind::LoanAuthorityMismatch { loan: authority.loan, permission: VirValueId(u32::MAX) })
            } else {
                None
            },
        }
    }

    /// Why `end_authority` refuses, in the order the checks are made, or `None`.
    pub open spec fn end_authority_refusal(&self, frame: BlockFrame, effect: VirLoanAuthorityEffect) -> Option<VirExecutionErrorKind> {
        match frame.loan_authority_spec(effect.source_permission) {
            None => Some(VirExecutionErrorKind::InvalidRuntimeState),
            Some(a) => match frame_pointer(&frame, effect.source_pointer) {
                None => Some(VirExecutionErrorKind::InvalidRuntimeState),
                Some(pointer) => match frame_permission(frame, effect.source_permission) {
                    Err(k) => Some(k),
                    Ok(permission) => match self.spec_loan(a.loan) {
                        None => Some(VirExecutionErrorKind::MissingLoan { loan: a.loan }),
                        Some(l) => if permission.start_bytes != l.range.start_bytes || permission.end_bytes != l.range.end_bytes
                            || l.pointee != pointer.access {
                            Some(VirExecutionErrorKind::LoanAuthorityMismatch { loan: a.loan, permission: effect.source_permission })
                        } else {
                            self.end_stored_refusal(a, pointer)
                        },
                    },
                },
            },
        }
    }

    /// An empty shadow; dynamic loans are numbered from the upper half.
    pub fn new() -> (r: Self)
        ensures
            r.spec_entries().len() == 0,
            r.spec_next_authority() == 0,
            r.spec_next_dynamic_loan() == 0x8000_0000,
            r.shadow_inv(),
    {
        RuntimeLoanShadow { entries: Vec::new(), next_authority: 0, next_dynamic_loan: 0x8000_0000 }
    }

    /// Records `loan` under `id`, replacing an earlier record and keeping the
    /// entries sorted.
    fn store_loan(&mut self, id: VirLoanId, loan: RuntimeLoan)
        requires
            ids_sorted(old(self).spec_entries()),
        ensures
            ids_sorted(final(self).spec_entries()),
            final(self).spec_loan(id) == Some(loan),
            forall|x: VirLoanId| x != id ==> #[trigger] final(self).spec_loan(x) == old(self).spec_loan(x),
            final(self).spec_next_authority() == old(self).spec_next_authority(),
            final(self).spec_next_dynamic_loan() == old(self).spec_next_dynamic_loan(),
    {
        let ghost old_e = self.entries@;
        let mut i: usize = 0;
        while i < self.entries.len() && self.entries[i].id.0 < id.0
            invariant
                0 <= i <= self.entries@.len(),
                self.entries@ == old_e,
                forall|j: int| 0 <= j < i ==> (#[trigger] old_e[j]).id.0 < id.0,
            decreases self.entries.len() - i,
        {
            i = i + 1;
        }
        let entry = RuntimeLoanEntry { id, loan };
        if i < self.entries.len() && self.entries[i].id.0 == id.0 {
            proof {
                lemma_entries_replace(old_e, i as int, entry);
            }
            self.entries.set(i, entry);
        } else {
            proof {
                lemma_entries_insert(old_e, i as int, entry);
            }
            self.entries.insert(i, entry);
        }
    }

    /// Entry `i` now holds its loan with `activity` and the given tokens;
    /// no other identifier's loan changed.
    pub open spec fn changed_at(&self, old: &Self, i: int, activity: RuntimeLoanActivity, authorities: Set<u64>) -> bool {
        let id = old.spec_entries()[i].id;
        &&& ids_sorted(self.spec_entries())
        &&& self.spec_entries().len() == old.spec_entries().len()
        &&& self.holds(id, i)
        &&& self.spec_loan(id) matches Some(l) && loan_with(l, old.spec_entries()[i].loan, activity, authorities)
        &&& forall|x: VirLoanId| x != id ==> #[trigger] self.spec_loan(x) == old.spec_loan(x)
        &&& self.spec_next_authority() == old.spec_next_authority()
        &&& self.spec_next_dynamic_loan() == old.spec_next_dynamic_loan()
    }

    /// Replaces entry `i` by `entry`, which keeps its identifier.
    fn put_entry(&mut self, i: usize, entry: RuntimeLoanEntry, Ghost(old_e): Ghost<Seq<RuntimeLoanEntry>>)
        requires
            ids_sorted(old_e),
            i < old_e.len(),
            old(self).spec_entries() == old_e.remove(i as int),
            old_e[i as int].id == entry.id,
        ensures
            final(self).spec_entries() == old_e.update(i as int, entry),
            ids_sorted(final(self).spec_entries()),
            final(self).spec_loan(entry.id) == Some(entry.loan),
            forall|x: VirLoanId| x != entry.id ==> #[trigger] final(self).spec_loan(x) == entries_loan(old_e, x),
            final(self).spec_next_authority() == old(self).spec_next_authority(),
            final(self).spec_next_dynamic_loan() == old(self).spec_next_dynamic_loan(),
    {
        self.entries.insert(i, entry);
        assert(self.entries@ =~= old_e.update(i as int, entry));
        proof {
            lemma_entries_replace(old_e, i as int, entry);
        }
    }

    /// Adds alias token `t` to the loan at entry `i`.
    fn add_authority_at(&mut self, i: usize, t: u64)
        requires
            ids_sorted(old(self).spec_entries()),
            i < old(self).spec_entries().len(),
        ensures
            final(self).changed_at(&*old(self), i as int, old(self).spec_entries()[i as int].loan.activity,
                old(self).spec_entries()[i as int].loan.authorities@.insert(t)),
    {
        let ghost old_e = self.entries@;
        let mut entry = self.entries.remove(i);
        entry.loan.authorities.insert(t);
        self.put_entry(i, entry, Ghost(old_e));
    }

    /// Removes alias token `t` from the loan at entry `i`; says whether no
    /// token holds it any more.
    fn remove_authority_at(&mut self, i: usize, t: u64) -> (empty: bool)
        requires
            ids_sorted(old(self).spec_entries()),
            i < old(self).spec_entries().len(),
        ensures
            final(self).changed_at(&*old(self), i as int, old(self).spec_entries()[i as int].loan.activity,
                old(self).spec_entries()[i as int].loan.authorities@.remove(t)),
            empty == old(self).spec_entries()[i as int].loan.authorities@.remove(t).is_empty(),
    {
        let ghost old_e = self.entries@;
        let mut entry = self.entries.remove(i);
        entry.loan.authorities.remove(&t);
        let empty = entry.loan.authorities.is_empty();
        self.put_entry(i, entry, Ghost(old_e));
        empty
    }

    /// Sets the activity of the loan at entry `i`.
    fn set_activity_at(&mut self, i: usize, activity: RuntimeLoanActivity)
        requires
            ids_sorted(old(self).spec_entries()),
            i < old(self).spec_entries().len(),
        ensures
            final(self).changed_at(&*old(self), i as int, activity, old(self).spec_entries()[i as int].loan.authorities@),
    {
        let ghost old_e = self.entries@;
        let mut entry = self.entries.remove(i);
        entry.loan.activity = activity;
        self.put_entry(i, entry, Ghost(old_e));
    }

    /// The `n`-th ancestor of `id` along recorded parents (`id` itself at 0).
    pub open spec fn ancestor(&self, id: VirLoanId, n: nat) -> Option<VirLoanId>
        decreases n,
    {
        if n == 0 {
            Some(id)
        } else {
            match self.ancestor(id, (n - 1) as nat) {
                Some(x) => match self.spec_loan(x) {
                    Some(l) => l.parent,
                    None => None,
                },
                None => None,
            }
        }
    }

    /// The chain `loan`, its parent, its grandparent, ... up to a root. A
    /// missing loan on the way, or a loan met twice, is a fault.
    fn ancestor_chain(&self, loan: VirLoanId, source_span: ByteSpan) -> (r: Result<Vec<VirLoanId>, VirExecutionError>)
        requires
            self.shadow_inv(),
        ensures
            match r {
                Ok(chain) => self.is_chain(loan, chain@) && chain@.no_duplicates(),
                Err(e) => self.chain_fault(loan, e.spec_kind()),
            },
    {
        let mut chain: Vec<VirLoanId> = Vec::new();
        chain.push(loan);
        let first = self.loan(loan, source_span);
        if first.is_err() {
            proof {
                assert(self.ancestor(loan, 0) == Some(loan));
            }
        }
        let mut current = first?.parent;
        proof {
            assert(self.ancestor(loan, 0) == Some(loan));
            assert(chain@[0] == loan);
            lemma_recorded_ids_bounded(self.spec_entries(), chain@);
        }
        while current.is_some()
            invariant
                self.shadow_inv(),
                1 <= chain@.len() <= self.spec_entries().len(),
                chain@.no_duplicates(),
                forall|k: int| 0 <= k < chain@.len() ==> self.ancestor(loan, k as nat) == Some(#[trigger] chain@[k])
                    && self.spec_loan(chain@[k]) is Some,
                self.ancestor(loan, chain@.len()) == current,
            decreases self.spec_entries().len() - chain@.len(),
        {
            let id = current.unwrap();
            if contains_loan_id(&chain, id) {
                proof {
                    let j = choose|j: int| 0 <= j < chain@.len() && chain@[j] == id;
                    assert(self.ancestor(loan, j as nat) == Some(id));
                    assert(self.ancestor(loan, chain@.len()) == Some(id));
                }
                return Err(error(VirExecutionErrorKind::LoanParentMismatch { loan, parent: id }, source_span));
            }
            let next = self.loan(id, source_span);
            if next.is_err() {
                proof {
                    assert(self.ancestor(loan, chain@.len()) == Some(id));
                }
            }
            let parent = next?.parent;
            proof {
                assert(self.ancestor(loan, (chain@.len() + 1) as nat) == parent);
            }
            chain.push(id);
            proof {
                lemma_recorded_ids_bounded(self.spec_entries(), chain@);
            }
            current = parent;
        }
        Ok(chain)
    }

    fn find(&self, id: VirLoanId) -> (r: Option<usize>)
        ensures
            match r {
                Some(i) => entry_holds(self.spec_entries(), id, i as int),
                None => !self.has_loan(id),
            },
    {
        let mut i: usize = 0;
        while i < self.entries.len()
            invariant
                0 <= i <= self.entries@.len(),
                forall|j: int| 0 <= j < i ==> (#[trigger] self.entries@[j]).id != id,
            decreases self.entries.len() - i,
        {
            if self.entries[i].id == id {
                return Some(i);
            }
            i = i + 1;
        }
        None
    }

    /// The loan `id`, or a missing-loan fault.
    pub fn loan(&self, id: VirLoanId, source_span: ByteSpan) -> (r: Result<&RuntimeLoan, VirExecutionError>)
        requires
            self.shadow_inv(),
        ensures
            match r {
                Ok(l) => self.spec_loan(id) == Some(*l),
                Err(e) => self.spec_loan(id) is None && e.spec_kind() == (VirExecutionErrorKind::MissingLoan { loan: id }),
            },
    {
        match self.find(id) {
            Some(i) => {
                proof {
                    lemma_entries_loan_at(self.spec_entries(), id, i as int);
                }
                let l = &self.entries[i].loan;
                assert(self.spec_loan(id) == Some(*l));
                Ok(l)
            },
            None => Err(error(VirExecutionErrorKind::MissingLoan { loan: id }, source_span)),
        }
    }

    /// Some loan has not ended.
    pub fn has_live_loans(&self) -> (r: bool)
        ensures
            r == exists|i: int| 0 <= i < self.spec_entries().len()
                && (#[trigger] self.spec_entries()[i]).loan.activity != RuntimeLoanActivity::Ended,
    {
        let mut i: usize = 0;
        while i < self.entries.len()
            invariant
                0 <= i <= self.entries@.len(),
                forall|j: int| 0 <= j < i ==> (#[trigger] self.entries@[j]).loan.activity == RuntimeLoanActivity::Ended,
            decreases self.entries.len() - i,
        {
            if self.entries[i].loan.activity != RuntimeLoanActivity::Ended {
                return true;
            }
            i = i + 1;
        }
        false
    }

    fn active_count(&self) -> (r: usize)
        ensures
            r == count_live(self.spec_entries()),
    {
        let mut count: usize = 0;
        let mut i: usize = 0;
        while i < self.entries.len()
            invariant
                0 <= i <= self.entries@.len(),
                count == count_live(self.entries@.take(i as int)),
                count <= i,
            decreases self.entries.len() - i,
        {
            proof {
                assert(self.entries@.take(i + 1).drop_last() == self.entries@.take(i as int));
            }
            if self.entries[i].loan.activity != RuntimeLoanActivity::Ended {
                count = count + 1;
            }
            i = i + 1;
        }
        assert(self.entries@.take(self.entries@.len() as int) == self.entries@);
        count
    }

    /// A live loan other than `except` names `parent` as its parent.
    pub open spec fn live_child_except(&self, parent: VirLoanId, except: Option<VirLoanId>) -> bool {
        exists|x: VirLoanId| Some(x) != except && is_live_child(#[trigger] self.spec_loan(x), parent)
    }

    /// A live loan names `parent` as its parent.
    pub fn has_active_child(&self, parent: VirLoanId) -> (r: bool)
        requires
            self.shadow_inv(),
        ensures
            r == self.live_child_except(parent, None),
    {
        let mut i: usize = 0;
        while i < self.entries.len()
            invariant
                self.shadow_inv(),
                0 <= i <= self.entries@.len(),
                forall|j: int| 0 <= j < i ==> !((#[trigger] self.entries@[j]).loan.parent == Some(parent)
                    && self.entries@[j].loan.activity != RuntimeLoanActivity::Ended),
            decreases self.entries.len() - i,
        {
            let loan = &self.entries[i].loan;
            if loan.parent == Some(parent) && loan.activity != RuntimeLoanActivity::Ended {
                proof {
                    let x = self.entries@[i as int].id;
                    lemma_entries_loan_at(self.spec_entries(), x, i as int);
                    assert(Some(x) != None::<VirLoanId>);
                    assert(is_live_child(self.spec_loan(x), parent));
                }
                return true;
            }
            i = i + 1;
        }
        proof {
            assert forall|x: VirLoanId| !is_live_child(#[trigger] self.spec_loan(x), parent) by {
                if self.spec_loan(x) is Some {
                    let j = choose|j: int| #[trigger] entry_holds(self.spec_entries(), x, j);
                    lemma_entries_loan_at(self.spec_entries(), x, j);
                }
            }
        }
        false
    }

    /// A fresh alias token for `loan`; exhaustion of tokens fails closed.
    fn fresh_authority(&mut self, loan: VirLoanId, source_span: ByteSpan) -> (r: Result<RuntimeLoanAuthority, VirExecutionError>)
        ensures
            final(self).spec_entries() == old(self).spec_entries(),
            final(self).spec_next_dynamic_loan() == old(self).spec_next_dynamic_loan(),
            match r {
                Ok(a) => a.loan == loan && a.token == old(self).spec_next_authority()
                    && final(self).spec_next_authority() == old(self).spec_next_authority() + 1,
                Err(e) => old(self).spec_next_authority() == u64::MAX && final(self).spec_next_authority() == u64::MAX
                    && e.spec_kind() == (VirExecutionErrorKind::ActiveLoanLimitExceeded { limit: usize::MAX }),
            },
    {
        let token = self.next_authority;
        match self.next_authority.checked_add(1) {
            Some(n) => {
                self.next_authority = n;
                Ok(RuntimeLoanAuthority { loan, token })
            },
            None => Err(error(VirExecutionErrorKind::ActiveLoanLimitExceeded { limit: usize::MAX }, source_span)),
        }
    }

    /// The frame's authority for `permission`, which must belong to `loan`.
    fn require_authority(&self, frame: &BlockFrame, loan: VirLoanId, permission: VirValueId, source_span: ByteSpan)
        -> (r: Result<RuntimeLoanAuthority, VirExecutionError>)
        ensures
            r is Ok <==> (frame.loan_authority_spec(permission) matches Some(a) && a.loan == loan),
            match r {
                Ok(a) => a.loan == loan && frame.loan_authority_spec(permission) == Some(a),
                Err(e) => e.spec_kind() == (VirExecutionErrorKind::LoanAuthorityMismatch { loan, permission }),
            },
    {
        match frame.loan_authority(permission) {
            Some(a) => if a.loan == loan {
                Ok(a)
            } else {
                Err(authority_error(loan, permission, source_span))
            },
            None => Err(authority_error(loan, permission, source_span)),
        }
    }

    /// The pointer lies in the loan range (or is its empty endpoint) and the
    /// permission covers the whole range.
    pub open spec fn source_range_ok(pointer: VirRuntimePointer, permission: VirRuntimePermission, range: VirLoanRange) -> bool {
        &&& range.start_bytes <= range.end_bytes
        &&& (if range.start_bytes == range.end_bytes {
            pointer.offset_bytes == range.start_bytes
        } else {
            range.start_bytes <= pointer.offset_bytes && pointer.offset_bytes < range.end_bytes
        })
        &&& pointer.allocation == permission.allocation
        &&& permission.start_bytes <= range.start_bytes
        &&& range.end_bytes <= permission.end_bytes
    }

    fn check_source_range(
        &self,
        loan: VirLoanId,
        pointer: VirRuntimePointer,
        permission: VirRuntimePermission,
        range: VirLoanRange,
        source_span: ByteSpan,
    ) -> (r: Result<(), VirExecutionError>)
        ensures
            r is Ok <==> Self::source_range_ok(pointer, permission, range),
            r matches Err(e) ==> e.spec_kind() == (VirExecutionErrorKind::LoanRangeViolation { loan }),
    {
        let pointer_in_range = if range.start_bytes == range.end_bytes {
            pointer.offset_bytes == range.start_bytes
        } else {
            range.start_bytes <= pointer.offset_bytes && pointer.offset_bytes < range.end_bytes
        };
        let valid = range.start_bytes <= range.end_bytes && pointer_in_range && pointer.allocation == permission.allocation
            && permission.start_bytes <= range.start_bytes && range.end_bytes <= permission.end_bytes;
        if !valid {
            return Err(error(VirExecutionErrorKind::LoanRangeViolation { loan }, source_span));
        }
        Ok(())
    }

    /// The selected range is well-formed and inside the effect's envelope.
    fn check_selection(&self, effect: VirLoanEffect, actual: VirLoanRange, span: ByteSpan) -> (r: Result<(), VirExecutionError>)
        ensures
            r is Ok <==> (actual.start_bytes <= actual.end_bytes && effect.range.start_bytes <= actual.start_bytes
                && actual.end_bytes <= effect.range.end_bytes),
            r matches Err(e) ==> e.spec_kind() == (VirExecutionErrorKind::LoanRangeViolation { loan: effect.loan }),
    {
        if actual.start_bytes > actual.end_bytes || !effect.range.contains(actual) {
            return Err(error(VirExecutionErrorKind::LoanRangeViolation { loan: effect.loan }, span));
        }
        Ok(())
    }

    /// No live loan outside `ignored` conflicts with a new `effect.kind` loan
    /// over `actual` in `allocation`.
    fn check_creation_conflict(
        &self,
        effect: VirLoanEffect,
        actual: VirLoanRange,
        allocation: u64,
        ignored: &Vec<VirLoanId>,
        source_span: ByteSpan,
    ) -> (r: Result<(), VirExecutionError>)
        ensures
            r is Ok <==> forall|i: int| 0 <= i < self.spec_entries().len() && !ignored@.contains((#[trigger] self.spec_entries()[i]).id)
                ==> !creation_conflicts(self.spec_entries()[i].loan, allocation, actual, effect.kind),
            r matches Err(e) ==> e.spec_kind() == (VirExecutionErrorKind::LoanConflict { loan: effect.loan }),
    {
        let mut i: usize = 0;
        while i < self.entries.len()
            invariant
                0 <= i <= self.entries@.len(),
                forall|j: int| 0 <= j < i && !ignored@.contains((#[trigger] self.entries@[j]).id)
                    ==> !creation_conflicts(self.entries@[j].loan, allocation, actual, effect.kind),
            decreases self.entries.len() - i,
        {
            let entry = &self.entries[i];
            let loan = &entry.loan;
            if !contains_loan_id(ignored, entry.id) && loan.activity != RuntimeLoanActivity::Ended && loan.allocation == allocation
                && ranges_overlap(actual.start_bytes, actual.end_bytes, loan.range)
                && !(loan.kind == VirLoanKind::Shared && effect.kind == VirLoanKind::Shared) {
                return Err(error(VirExecutionErrorKind::LoanConflict { loan: effect.loan }, source_span));
            }
            i = i + 1;
        }
        Ok(())
    }

    /// Opens root loan `effect.loan` over `actual` and defines its
    /// reference and permission results, bound to a fresh alias token.
    pub fn begin(
        &mut self,
        frame: &mut BlockFrame,
        effect: VirLoanEffect,
        actual: VirLoanRange,
        reference_result: VirValue,
        permission_result: VirValue,
        limits: RuntimeLoanLimits,
        source_span: ByteSpan,
    ) -> (r: Result<(), VirExecutionError>)
        requires
            old(self).shadow_inv(),
        ensures
            final(self).shadow_inv(),
            match old(self).begin_refusal(*old(frame), effect, actual, limits) {
                Some(k) => r matches Err(e) && e.spec_kind() == k && final(self).same_state(&*old(self))
                    && same_frame(*final(frame), *old(frame)),
                None => {
                    let pointer = frame_pointer(&*old(frame), effect.source_pointer)->0;
                    let token = old(self).spec_next_authority();
                    &&& final(self).spec_loan(effect.loan) matches Some(l) && fresh_loan(l, effect, pointer, actual, None, token)
                    &&& forall|x: VirLoanId| x != effect.loan ==> #[trigger] final(self).spec_loan(x) == old(self).spec_loan(x)
                    &&& final(self).spec_next_authority() == token + 1
                    &&& final(self).spec_next_dynamic_loan() == old(self).spec_next_dynamic_loan()
                    &&& (r is Ok <==> results_definable(*old(frame), pointer, reference_result, permission_result))
                    &&& r is Ok ==> results_defined(*old(frame), *final(frame), pointer, loan_permission(pointer, actual),
                        reference_result, permission_result, RuntimeLoanAuthority { loan: effect.loan, token })
                    &&& r matches Err(e) ==> e.spec_kind() == VirExecutionErrorKind::InvalidRuntimeState
                },
            },
    {
        let ghost s0 = *self;
        match self.find(effect.loan) {
            Some(i) => {
                proof {
                    lemma_entries_loan_at(self.spec_entries(), effect.loan, i as int);
                }
                if self.entries[i].loan.activity != RuntimeLoanActivity::Ended {
                    return Err(error(VirExecutionErrorKind::LoanAlreadyDefined { loan: effect.loan }, source_span));
                }
            },
            None => {},
        }
        if self.active_count() >= limits.active_loans {
            return Err(error(VirExecutionErrorKind::ActiveLoanLimitExceeded { limit: limits.active_loans }, source_span));
        }
        if limits.aliases_per_loan == 0 {
            return Err(error(
                VirExecutionErrorKind::LoanAliasLimitExceeded { loan: effect.loan, limit: limits.aliases_per_loan },
                source_span,
            ));
        }
        if effect.parent.is_some() || frame.loan_authority(effect.source_permission).is_some() {
            return Err(authority_error(effect.loan, effect.source_permission, source_span));
        }
        let pointer = pointer_value(frame, effect.source_pointer, source_span)?;
        let permission = read_permission(frame, effect.source_permission, source_span)?;
        self.check_selection(effect, actual, source_span)?;
        self.check_source_range(effect.loan, pointer, permission, actual, source_span)?;
        let none: Vec<VirLoanId> = Vec::new();
        let conflict = self.check_creation_conflict(effect, actual, pointer.allocation, &none, source_span);
        proof {
            assert(none@ =~= Seq::<VirLoanId>::empty());
        }
        conflict?;
        let fresh = self.fresh_authority(effect.loan, source_span);
        proof {
            lemma_inv_update(s0, *self, effect.loan);
        }
        let authority = fresh?;
        let mut authorities: BTreeSet<u64> = BTreeSet::new();
        authorities.insert(authority.token);
        let loan = RuntimeLoan {
            allocation: pointer.allocation,
            range: actual,
            envelope: effect.range,
            kind: effect.kind,
            region: effect.region,
            parent: None,
            pointee: pointer.access,
            activity: RuntimeLoanActivity::Active,
            authorities,
        };
        self.store_loan(effect.loan, loan);
        proof {
            assert(authorities@ =~= Set::<u64>::empty().insert(authority.token));
            lemma_inv_update(s0, *self, effect.loan);
        }
        let result_permission = VirRuntimePermission {
            allocation: pointer.allocation,
            start_bytes: actual.start_bytes,
            end_bytes: actual.end_bytes,
            can_free_when_complete: false,
        };
        define_results(frame, pointer, result_permission, reference_result, permission_result, authority, source_span)
    }

    /// The index of loan `id`, or a missing-loan fault.
    fn loan_index(&self, id: VirLoanId, source_span: ByteSpan) -> (r: Result<usize, VirExecutionError>)
        requires
            self.shadow_inv(),
        ensures
            match r {
                Ok(i) => self.holds(id, i as int) && self.spec_loan(id) == Some(self.spec_entries()[i as int].loan),
                Err(e) => self.spec_loan(id) is None && e.spec_kind() == (VirExecutionErrorKind::MissingLoan { loan: id }),
            },
    {
        match self.find(id) {
            Some(i) => {
                proof {
                    lemma_entries_loan_at(self.spec_entries(), id, i as int);
                }
                Ok(i)
            },
            None => Err(error(VirExecutionErrorKind::MissingLoan { loan: id }, source_span)),
        }
    }

    /// Hands a fresh alias token to the loan at entry `i`, which is active
    /// or suspended.
    fn add_fresh_alias(&mut self, i: usize, id: VirLoanId, source_span: ByteSpan) -> (r: Result<RuntimeLoanAuthority, VirExecutionError>)
        requires
            old(self).shadow_inv(),
            old(self).holds(id, i as int),
            old(self).spec_entries()[i as int].loan.activity != RuntimeLoanActivity::Ended,
        ensures
            final(self).shadow_inv(),
            match r {
                Ok(a) => a.loan == id && final(self).alias_added(&*old(self), id, a.token),
                Err(e) => old(self).spec_next_authority() == u64::MAX && final(self).same_state(&*old(self))
                    && e.spec_kind() == (VirExecutionErrorKind::ActiveLoanLimitExceeded { limit: usize::MAX }),
            },
    {
        let ghost s0 = *self;
        proof {
            lemma_entries_loan_at(self.spec_entries(), id, i as int);
        }
        let fresh = self.fresh_authority(id, source_span);
        proof {
            lemma_inv_update(s0, *self, id);
        }
        let authority = fresh?;
        self.add_authority_at(i, authority.token);
        proof {
            let l0 = s0.spec_loan(id)->0;
            assert(loan_wf(l0, s0.spec_next_authority()));
            let l1 = self.spec_loan(id)->0;
            assert(l1.authorities@.contains(authority.token));
            assert(loan_wf(l1, self.spec_next_authority()));
            lemma_inv_update(s0, *self, id);
        }
        Ok(authority)
    }

    /// Adds a shared alias of loan `effect.loan` and defines its reference
    /// and permission results.
    pub fn alias_shared(
        &mut self,
        frame: &mut BlockFrame,
        effect: VirLoanEffect,
        reference_result: VirValue,
        permission_result: VirValue,
        limits: RuntimeLoanLimits,
        source_span: ByteSpan,
    ) -> (r: Result<(), VirExecutionError>)
        requires
            old(self).shadow_inv(),
        ensures
            final(self).shadow_inv(),
            match old(self).alias_shared_refusal(*old(frame), effect, limits) {
                Some(k) => r matches Err(e) && e.spec_kind() == k && final(self).same_state(&*old(self))
                    && same_frame(*final(frame), *old(frame)),
                None => {
                    let pointer = frame_pointer(&*old(frame), effect.source_pointer)->0;
                    let token = old(self).spec_next_authority();
                    &&& final(self).alias_added(&*old(self), effect.loan, token)
                    &&& (r is Ok <==> results_definable(*old(frame), pointer, reference_result, permission_result))
                    &&& r is Ok ==> results_defined(*old(frame), *final(frame), pointer,
                        loan_permission(pointer, old(self).spec_loan(effect.loan)->0.range), reference_result, permission_result,
                        RuntimeLoanAuthority { loan: effect.loan, token })
                    &&& r matches Err(e) ==> e.spec_kind() == VirExecutionErrorKind::InvalidRuntimeState
                },
            },
    {
        let pointer = pointer_value(frame, effect.source_pointer, source_span)?;
        let permission = read_permission(frame, effect.source_permission, source_span)?;
        let i = self.loan_index(effect.loan, source_span)?;
        let actual = self.entries[i].loan.range;
        self.check_source_range(effect.loan, pointer, permission, actual, source_span)?;
        let source_authority = self.require_authority(frame, effect.loan, effect.source_permission, source_span)?;
        let loan = &self.entries[i].loan;
        if loan.activity != RuntimeLoanActivity::Active {
            return Err(error(VirExecutionErrorKind::LoanInactive { loan: effect.loan }, source_span));
        }
        if loan.kind != VirLoanKind::Shared || !loan.metadata_matches(effect, pointer) {
            return Err(error(VirExecutionErrorKind::LoanMetadataMismatch { loan: effect.loan }, source_span));
        }
        if !loan.authorities.contains(&source_authority.token) {
            return Err(authority_error(effect.loan, effect.source_permission, source_span));
        }
        if loan.authorities.len() >= limits.aliases_per_loan {
            return Err(error(
                VirExecutionErrorKind::LoanAliasLimitExceeded { loan: effect.loan, limit: limits.aliases_per_loan },
                source_span,
            ));
        }
        let authority = self.add_fresh_alias(i, effect.loan, source_span)?;
        let result_permission = VirRuntimePermission {
            allocation: pointer.allocation,
            start_bytes: actual.start_bytes,
            end_bytes: actual.end_bytes,
            can_free_when_complete: false,
        };
        define_results(frame, pointer, result_permission, reference_result, permission_result, authority, source_span)
    }

    /// Creates the hidden alias stored by a whole-object copy of a shared
    /// reference-bearing aggregate.
    pub fn alias_stored(
        &mut self,
        source: RuntimeLoanAuthority,
        pointer: VirRuntimePointer,
        reference: VirMemoryAccess,
        limits: RuntimeLoanLimits,
        source_span: ByteSpan,
    ) -> (r: Result<RuntimeLoanAuthority, VirExecutionError>)
        requires
            old(self).shadow_inv(),
        ensures
            final(self).shadow_inv(),
            match old(self).alias_stored_refusal(source, pointer, limits) {
                Some(k) => r matches Err(e) && e.spec_kind() == k && final(self).same_state(&*old(self)),
                None => r matches Ok(a) && a.loan == source.loan && a.token == old(self).spec_next_authority()
                    && final(self).alias_added(&*old(self), source.loan, a.token),
            },
    {
        let i = self.loan_index(source.loan, source_span)?;
        let loan = &self.entries[i].loan;
        if loan.activity != RuntimeLoanActivity::Active || loan.kind != VirLoanKind::Shared || loan.allocation != pointer.allocation
            || loan.pointee != pointer.access || !loan.authorities.contains(&source.token) {
            return Err(error(
                VirExecutionErrorKind::LoanAuthorityMismatch { loan: source.loan, permission: VirValueId::new(u32::MAX) },
                source_span,
            ));
        }
        if loan.authorities.len() >= limits.aliases_per_loan {
            return Err(error(
                VirExecutionErrorKind::LoanAliasLimitExceeded { loan: source.loan, limit: limits.aliases_per_loan },
                source_span,
            ));
        }
        self.add_fresh_alias(i, source.loan, source_span)
    }

    /// Adds an alias of the loan that `effect.source_permission` holds and
    /// defines the results as copies of the source pointer and permission.
    pub fn alias_authority(
        &mut self,
        frame: &mut BlockFrame,
        effect: VirLoanAuthorityEffect,
        reference_result: VirValue,
        permission_result: VirValue,
        limits: RuntimeLoanLimits,
        source_span: ByteSpan,
    ) -> (r: Result<(), VirExecutionError>)
        requires
            old(self).shadow_inv(),
        ensures
            final(self).shadow_inv(),
            match old(self).alias_authority_refusal(*old(frame), effect, limits) {
                Some(k) => r matches Err(e) && e.spec_kind() == k && final(self).same_state(&*old(self))
                    && same_frame(*final(frame), *old(frame)),
                None => {
                    let pointer = frame_pointer(&*old(frame), effect.source_pointer)->0;
                    let permission = frame_permission(*old(frame), effect.source_permission)->Ok_0;
                    let loan = old(frame).loan_authority_spec(effect.source_permission)->0.loan;
                    let token = old(self).spec_next_authority();
                    &&& final(self).alias_added(&*old(self), loan, token)
                    &&& (r is Ok <==> results_definable(*old(frame), pointer, reference_result, permission_result))
                    &&& r is Ok ==> results_defined(*old(frame), *final(frame), pointer, permission, reference_result,
                        permission_result, RuntimeLoanAuthority { loan, token })
                    &&& r matches Err(e) ==> e.spec_kind() == VirExecutionErrorKind::InvalidRuntimeState
                },
            },
    {
        let source = match frame.loan_authority(effect.source_permission) {
            Some(a) => a,
            None => {
                return Err(error(VirExecutionErrorKind::InvalidRuntimeState, source_span));
            },
        };
        let pointer = pointer_value(frame, effect.source_pointer, source_span)?;
        let permission = read_permission(frame, effect.source_permission, source_span)?;
        let i = self.loan_index(source.loan, source_span)?;
        let loan = &self.entries[i].loan;
        if loan.activity != RuntimeLoanActivity::Active || loan.kind != VirLoanKind::Shared || loan.allocation != pointer.allocation
            || loan.pointee != pointer.access || permission.start_bytes != loan.range.start_bytes
            || permission.end_bytes != loan.range.end_bytes || !loan.authorities.contains(&source.token) {
            return Err(authority_error(source.loan, effect.source_permission, source_span));
        }
        if loan.authorities.len() >= limits.aliases_per_loan {
            return Err(error(
                VirExecutionErrorKind::LoanAliasLimitExceeded { loan: source.loan, limit: limits.aliases_per_loan },
                source_span,
            ));
        }
        let alias = self.add_fresh_alias(i, source.loan, source_span)?;
        define_results(frame, pointer, permission, reference_result, permission_result, alias, source_span)
    }

    /// Opens child loan `effect.loan` of `effect.parent` over `actual`. A
    /// mutable child suspends its parent until it ends.
    pub fn reborrow(
        &mut self,
        frame: &mut BlockFrame,
        effect: VirLoanEffect,
        actual: VirLoanRange,
        reference_result: VirValue,
        permission_result: VirValue,
        limits: RuntimeLoanLimits,
        source_span: ByteSpan,
    ) -> (r: Result<(), VirExecutionError>)
        requires
            old(self).shadow_inv(),
        ensures
            final(self).shadow_inv(),
            match old(self).reborrow_refusal(*old(frame), effect, actual, limits) {
                Some(k) => r matches Err(e) && e.spec_kind() == k && final(self).same_state(&*old(self))
                    && same_frame(*final(frame), *old(frame)),
                None => {
                    let parent_id = effect.parent->0;
                    if !exists|c: Seq<VirLoanId>| old(self).is_chain(parent_id, c) {
                        r matches Err(e) && old(self).chain_fault(parent_id, e.spec_kind()) && final(self).same_state(&*old(self))
                            && same_frame(*final(frame), *old(frame))
                    } else {
                        let chain = choose|c: Seq<VirLoanId>| old(self).is_chain(parent_id, c);
                        match old(self).reborrow_chain_refusal(*old(frame), effect, actual, limits, chain) {
                            Some(k) => r matches Err(e) && e.spec_kind() == k && final(self).same_state(&*old(self))
                                && same_frame(*final(frame), *old(frame)),
                            None => {
                                let pointer = frame_pointer(&*old(frame), effect.source_pointer)->0;
                                let token = old(self).spec_next_authority();
                                let parent = old(self).spec_loan(parent_id)->0;
                                let shared_child = parent.kind == VirLoanKind::Shared && effect.kind == VirLoanKind::Shared;
                                &&& final(self).spec_loan(effect.loan) matches Some(l)
                                    && fresh_loan(l, effect, pointer, actual, Some(parent_id), token)
                                &&& final(self).spec_loan(parent_id) matches Some(p) && loan_with(p, parent,
                                    if shared_child { parent.activity } else { RuntimeLoanActivity::Suspended }, parent.authorities@)
                                &&& forall|x: VirLoanId| x != effect.loan && x != parent_id
                                    ==> #[trigger] final(self).spec_loan(x) == old(self).spec_loan(x)
                                &&& final(self).spec_next_authority() == token + 1
                                &&& final(self).spec_next_dynamic_loan() == old(self).spec_next_dynamic_loan()
                                &&& (r is Ok <==> results_definable(*old(frame), pointer, reference_result, permission_result))
                                &&& r is Ok ==> results_defined(*old(frame), *final(frame), pointer, loan_permission(pointer, actual),
                                    reference_result, permission_result, RuntimeLoanAuthority { loan: effect.loan, token })
                                &&& r matches Err(e) ==> e.spec_kind() == VirExecutionErrorKind::InvalidRuntimeState
                            },
                        }
                    }
                },
            },
    {
        let ghost s0 = *self;
        match self.find(effect.loan) {
            Some(i) => {
                proof {
                    lemma_entries_loan_at(self.spec_entries(), effect.loan, i as int);
                }
                if self.entries[i].loan.activity != RuntimeLoanActivity::Ended {
                    return Err(error(VirExecutionErrorKind::LoanAlreadyDefined { loan: effect.loan }, source_span));
                }
            },
            None => {},
        }
        if self.active_count() >= limits.active_loans {
            return Err(error(VirExecutionErrorKind::ActiveLoanLimitExceeded { limit: limits.active_loans }, source_span));
        }
        if limits.aliases_per_loan == 0 {
            return Err(error(
                VirExecutionErrorKind::LoanAliasLimitExceeded { loan: effect.loan, limit: limits.aliases_per_loan },
                source_span,
            ));
        }
        let parent_id = match effect.parent {
            Some(p) => p,
            None => {
                return Err(error(VirExecutionErrorKind::LoanMetadataMismatch { loan: effect.loan }, source_span));
            },
        };
        let source_authority = match frame.loan_authority(effect.source_permission) {
            Some(a) => a,
            None => {
                return Err(authority_error(parent_id, effect.source_permission, source_span));
            },
        };
        if source_authority.loan != parent_id {
            return Err(error(VirExecutionErrorKind::LoanParentMismatch { loan: effect.loan, parent: parent_id }, source_span));
        }
        let pointer = pointer_value(frame, effect.source_pointer, source_span)?;
        let permission = read_permission(frame, effect.source_permission, source_span)?;
        self.check_selection(effect, actual, source_span)?;
        self.check_source_range(effect.loan, pointer, permission, actual, source_span)?;
        let pi = self.loan_index(parent_id, source_span)?;
        let parent = &self.entries[pi].loan;
        let shared_child = parent.kind == VirLoanKind::Shared && effect.kind == VirLoanKind::Shared;
        if parent.activity == RuntimeLoanActivity::Ended {
            return Err(error(VirExecutionErrorKind::LoanInactive { loan: parent_id }, source_span));
        }
        if !parent.authorities.contains(&source_authority.token) || parent.allocation != pointer.allocation
            || !parent.range.contains(actual) || (parent.kind == VirLoanKind::Shared && effect.kind != VirLoanKind::Shared) {
            return Err(error(VirExecutionErrorKind::LoanParentMismatch { loan: effect.loan, parent: parent_id }, source_span));
        }
        let walked = self.ancestor_chain(parent_id, source_span);
        proof {
            match &walked {
                Ok(c) => {
                    assert forall|c2: Seq<VirLoanId>| self.is_chain(parent_id, c2) implies c2 == c@ by {
                        lemma_chain_unique(*self, parent_id, c@, c2);
                    }
                },
                Err(e) => {
                    if exists|c: Seq<VirLoanId>| self.is_chain(parent_id, c) {
                        let c = choose|c: Seq<VirLoanId>| self.is_chain(parent_id, c);
                        lemma_chain_excludes_fault(*self, parent_id, c, e.spec_kind());
                    }
                },
            }
        }
        let ancestors = walked?;
        if ancestors.len() > limits.reborrow_depth {
            return Err(error(
                VirExecutionErrorKind::LoanReborrowDepthLimitExceeded { loan: effect.loan, limit: limits.reborrow_depth },
                source_span,
            ));
        }
        self.check_creation_conflict(effect, actual, pointer.allocation, &ancestors, source_span)?;
        if self.next_authority == u64::MAX {
            return Err(error(VirExecutionErrorKind::ActiveLoanLimitExceeded { limit: usize::MAX }, source_span));
        }
        proof {
            lemma_entries_loan_at(self.spec_entries(), parent_id, pi as int);
        }
        if !shared_child {
            self.set_activity_at(pi, RuntimeLoanActivity::Suspended);
            proof {
                assert(loan_wf(s0.spec_loan(parent_id)->0, s0.spec_next_authority()));
                lemma_inv_update(s0, *self, parent_id);
            }
        }
        let ghost s1 = *self;
        proof {
            assert(forall|x: VirLoanId| x != parent_id ==> #[trigger] s1.spec_loan(x) == s0.spec_loan(x));
        }
        let authority = self.fresh_authority(effect.loan, source_span)?;
        let mut authorities: BTreeSet<u64> = BTreeSet::new();
        authorities.insert(authority.token);
        let loan = RuntimeLoan {
            allocation: pointer.allocation,
            range: actual,
            envelope: effect.range,
            kind: effect.kind,
            region: effect.region,
            parent: Some(parent_id),
            pointee: pointer.access,
            activity: RuntimeLoanActivity::Active,
            authorities,
        };
        proof {
            assert(effect.loan != parent_id);
        }
        self.store_loan(effect.loan, loan);
        proof {
            assert(authorities@ =~= Set::<u64>::empty().insert(authority.token));
            lemma_inv_update(s1, *self, effect.loan);
            let parent0 = s0.spec_loan(parent_id)->0;
            assert(self.spec_loan(parent_id) matches Some(p) && loan_with(p, parent0,
                if shared_child { parent0.activity } else { RuntimeLoanActivity::Suspended }, parent0.authorities@));
            assert forall|x: VirLoanId| x != effect.loan && x != parent_id implies #[trigger] self.spec_loan(x) == s0.spec_loan(x) by {
                assert(s1.spec_loan(x) == s0.spec_loan(x));
            }
            assert(self.spec_loan(effect.loan) matches Some(l) && fresh_loan(l, effect, pointer, actual, Some(parent_id), authority.token));
        }
        let result_permission = VirRuntimePermission {
            allocation: pointer.allocation,
            start_bytes: actual.start_bytes,
            end_bytes: actual.end_bytes,
            can_free_when_complete: false,
        };
        define_results(frame, pointer, result_permission, reference_result, permission_result, authority, source_span)
    }

    /// Releases alias token `token` of the active loan at entry `i`.
    fn release(&mut self, i: usize, loan: VirLoanId, token: u64)
        requires
            old(self).shadow_inv(),
            old(self).holds(loan, i as int),
            old(self).spec_entries()[i as int].loan.activity == RuntimeLoanActivity::Active,
        ensures
            final(self).shadow_inv(),
            final(self).released(&*old(self), loan, token),
    {
        let ghost s0 = *self;
        proof {
            lemma_entries_loan_at(self.spec_entries(), loan, i as int);
            assert(loan_wf(s0.spec_loan(loan)->0, s0.spec_next_authority()));
        }
        let empty = self.remove_authority_at(i, token);
        if !empty {
            proof {
                lemma_inv_update(s0, *self, loan);
            }
            return;
        }
        let ghost s1 = *self;
        self.set_activity_at(i, RuntimeLoanActivity::Ended);
        proof {
            assert forall|x: VirLoanId| x != loan implies #[trigger] self.spec_loan(x) == s0.spec_loan(x) by {
                assert(s1.spec_loan(x) == s0.spec_loan(x));
            }
            lemma_inv_update(s0, *self, loan);
            assert forall|x: VirLoanId| x != loan implies #[trigger] self.spec_loan(x) == s0.spec_loan(x) by {
                assert(s1.spec_loan(x) == s0.spec_loan(x));
            }
            assert forall|p: VirLoanId| self.live_child_except(p, None) == s0.live_child_except(p, Some(loan)) by {
                if self.live_child_except(p, None) {
                    let x = choose|x: VirLoanId| Some(x) != None::<VirLoanId> && is_live_child(#[trigger] self.spec_loan(x), p);
                    assert(x != loan);
                    assert(s0.spec_loan(x) == self.spec_loan(x));
                }
                if s0.live_child_except(p, Some(loan)) {
                    let x = choose|x: VirLoanId| Some(x) != Some(loan) && is_live_child(#[trigger] s0.spec_loan(x), p);
                    assert(s0.spec_loan(x) == self.spec_loan(x));
                }
            }
        }
        let parent = self.entries[i].loan.parent;
        match parent {
            Some(p) => {
                if !self.has_active_child(p) {
                    match self.find(p) {
                        Some(pi) => {
                            proof {
                                lemma_entries_loan_at(self.spec_entries(), p, pi as int);
                            }
                            if self.entries[pi].loan.activity == RuntimeLoanActivity::Suspended {
                                let ghost s2 = *self;
                                proof {
                                    assert(p != loan);
                                    assert(loan_wf(s2.spec_loan(p)->0, s2.spec_next_authority()));
                                }
                                self.set_activity_at(pi, RuntimeLoanActivity::Active);
                                proof {
                                    lemma_inv_update(s2, *self, p);
                                    assert forall|x: VirLoanId| x != loan && x != p implies #[trigger] self.spec_loan(x) == s0.spec_loan(x) by {
                                        assert(s2.spec_loan(x) == s0.spec_loan(x));
                                    }
                                }
                            }
                        },
                        None => {},
                    }
                }
            },
            None => {},
        }
    }

    /// Ends the alias of loan `effect.loan` held by `effect.source_permission`,
    /// consuming that permission.
    pub fn end(&mut self, frame: &mut BlockFrame, effect: VirLoanEffect, source_span: ByteSpan) -> (r: Result<(), VirExecutionError>)
        requires
            old(self).shadow_inv(),
        ensures
            final(self).shadow_inv(),
            match old(self).end_refusal(*old(frame), effect) {
                Some(k) => r matches Err(e) && e.spec_kind() == k && final(self).same_state(&*old(self))
                    && same_frame(*final(frame), *old(frame)),
                None => {
                    &&& r is Ok
                    &&& final(self).released(&*old(self), effect.loan, old(frame).loan_authority_spec(effect.source_permission)->0.token)
                    &&& final(frame).values@ == old(frame).values@
                    &&& final(frame).loan_authorities@ == old(frame).loan_authorities@
                    &&& final(frame).consumed_permissions@ == old(frame).consumed_permissions@.insert(effect.source_permission.0)
                },
            },
    {
        let i = self.loan_index(effect.loan, source_span)?;
        if self.entries[i].loan.activity != RuntimeLoanActivity::Active {
            return Err(error(VirExecutionErrorKind::LoanInactive { loan: effect.loan }, source_span));
        }
        let pointer = pointer_value(frame, effect.source_pointer, source_span)?;
        let permission = read_permission(frame, effect.source_permission, source_span)?;
        let range = self.entries[i].loan.range;
        self.check_source_range(effect.loan, pointer, permission, range, source_span)?;
        let authority = self.require_authority(frame, effect.loan, effect.source_permission, source_span)?;
        if !self.entries[i].loan.metadata_matches(effect, pointer) {
            return Err(error(VirExecutionErrorKind::LoanMetadataMismatch { loan: effect.loan }, source_span));
        }
        if self.has_active_child(effect.loan) {
            return Err(error(VirExecutionErrorKind::LoanHasActiveChild { loan: effect.loan }, source_span));
        }
        if !self.entries[i].loan.authorities.contains(&authority.token) {
            return Err(authority_error(effect.loan, effect.source_permission, source_span));
        }
        frame.consume_permission(effect.source_permission, source_span)?;
        self.release(i, effect.loan, authority.token);
        Ok(())
    }

    /// Ends a reference alias owned by an aggregate payload.
    pub fn end_stored(
        &mut self,
        authority: RuntimeLoanAuthority,
        pointer: VirRuntimePointer,
        reference: VirMemoryAccess,
        source_span: ByteSpan,
    ) -> (r: Result<(), VirExecutionError>)
        requires
            old(self).shadow_inv(),
        ensures
            final(self).shadow_inv(),
            match old(self).end_stored_refusal(authority, pointer) {
                Some(k) => r matches Err(e) && e.spec_kind() == k && final(self).same_state(&*old(self)),
                None => r is Ok && final(self).released(&*old(self), authority.loan, authority.token),
            },
    {
        let i = self.loan_index(authority.loan, source_span)?;
        let loan = &self.entries[i].loan;
        if loan.activity != RuntimeLoanActivity::Active || loan.allocation != pointer.allocation || loan.pointee != pointer.access
            || !loan.authorities.contains(&authority.token)
            || (loan.authorities.len() == 1 && self.has_active_child(authority.loan)) {
            return Err(error(
                VirExecutionErrorKind::LoanAuthorityMismatch { loan: authority.loan, permission: VirValueId::new(u32::MAX) },
                source_span,
            ));
        }
        self.release(i, authority.loan, authority.token);
        Ok(())
    }

    /// Ends the alias that `effect.source_permission` holds, consuming that
    /// permission.
    pub fn end_authority(&mut self, frame: &mut BlockFrame, effect: VirLoanAuthorityEffect, source_span: ByteSpan)
        -> (r: Result<(), VirExecutionError>)
        requires
            old(self).shadow_inv(),
        ensures
            final(self).shadow_inv(),
            match old(self).end_authority_refusal(*old(frame), effect) {
                Some(k) => r matches Err(e) && e.spec_kind() == k && final(self).same_state(&*old(self))
                    && same_frame(*final(frame), *old(frame)),
                None => {
                    let a = old(frame).loan_authority_spec(effect.source_permission)->0;
                    &&& r is Ok
                    &&& final(self).released(&*old(self), a.loan, a.token)
                    &&& final(frame).values@ == old(frame).values@
                    &&& final(frame).loan_authorities@ == old(frame).loan_authorities@
                    &&& final(frame).consumed_permissions@ == old(frame).consumed_permissions@.insert(effect.source_permission.0)
                },
            },
    {
        let authority = match frame.loan_authority(effect.source_permission) {
            Some(a) => a,
            None => {
                return Err(error(VirExecutionErrorKind::InvalidRuntimeState, source_span));
            },
        };
        let pointer = pointer_value(frame, effect.source_pointer, source_span)?;
        let permission = read_permission(frame, effect.source_permission, source_span)?;
        let loan = self.loan(authority.loan, source_span)?;
        if permission.start_bytes != loan.range.start_bytes || permission.end_bytes != loan.range.end_bytes
            || loan.pointee != pointer.access {
            return Err(authority_error(authority.loan, effect.source_permission, source_span));
        }
        self.end_stored(authority, pointer, effect.reference, source_span)?;
        frame.consume_permission(effect.source_permission, source_span)?;
        Ok(())
    }

    /// `r` is the verdict on `request` under the loans: through a loan alias
    /// the access must fit that loan; otherwise the first live loan that
    /// forbids it is reported.
    pub open spec fn access_checked(&self, frame: BlockFrame, request: RuntimeLoanAccessRequest, r: Result<(), VirExecutionError>) -> bool {
        match frame.loan_authority_spec(request.permission) {
            Some(a) => match self.spec_loan(a.loan) {
                None => r matches Err(e) && e.spec_kind() == (VirExecutionErrorKind::MissingLoan { loan: a.loan }),
                Some(l) => if access_compatible(l, a.token, request) {
                    r is Ok
                } else {
                    r matches Err(e) && e.spec_kind() == (VirExecutionErrorKind::LoanAccessConflict {
                        loan: a.loan,
                        permission: request.permission,
                    })
                },
            },
            None => {
                &&& r is Ok <==> forall|i: int| 0 <= i < self.spec_entries().len() ==> !blocks_access(#[trigger] self.spec_entries()[i].loan, request)
                &&& r matches Err(e) ==> exists|i: int|
                    0 <= i < self.spec_entries().len() && blocks_access(#[trigger] self.spec_entries()[i].loan, request) && e.spec_kind() == (
                    VirExecutionErrorKind::LoanAccessConflict { loan: self.spec_entries()[i].id, permission: request.permission })
                        && forall|j: int| 0 <= j < i ==> !blocks_access(#[trigger] self.spec_entries()[j].loan, request)
            },
        }
    }

    /// Checks an access against the loans: through a loan alias it must fit
    /// that loan; otherwise no live loan may forbid it.
    pub fn check_access(&self, frame: &BlockFrame, request: RuntimeLoanAccessRequest, source_span: ByteSpan)
        -> (r: Result<(), VirExecutionError>)
        requires
            self.shadow_inv(),
        ensures
            self.access_checked(*frame, request, r),
    {
        match frame.loan_authority(request.permission) {
            Some(authority) => {
                let loan = self.loan(authority.loan, source_span)?;
                let kind_fits = match loan.kind {
                    VirLoanKind::Shared => request.kind == RuntimeLoanAccess::Read,
                    VirLoanKind::Mutable => request.kind != RuntimeLoanAccess::Free,
                };
                let compatible = loan.activity == RuntimeLoanActivity::Active && loan.authorities.contains(&authority.token)
                    && loan.allocation == request.pointer.allocation && loan.range.start_bytes <= request.start_bytes
                    && request.end_bytes <= loan.range.end_bytes && kind_fits;
                if compatible {
                    return Ok(());
                }
                Err(error(VirExecutionErrorKind::LoanAccessConflict { loan: authority.loan, permission: request.permission }, source_span))
            },
            None => {
                let mut i: usize = 0;
                while i < self.entries.len()
                    invariant
                        0 <= i <= self.entries@.len(),
                        frame.loan_authority_spec(request.permission) is None,
                        forall|j: int| 0 <= j < i ==> !blocks_access(#[trigger] self.spec_entries()[j].loan, request),
                    decreases self.entries.len() - i,
                {
                    let loan = &self.entries[i].loan;
                    if loan.activity != RuntimeLoanActivity::Ended && loan.allocation == request.pointer.allocation
                        && ranges_overlap(request.start_bytes, request.end_bytes, loan.range)
                        && !(request.kind == RuntimeLoanAccess::Read && loan.kind == VirLoanKind::Shared) {
                        assert(blocks_access(self.spec_entries()[i as int].loan, request));
                        return Err(error(
                            VirExecutionErrorKind::LoanAccessConflict { loan: self.entries[i].id, permission: request.permission },
                            source_span,
                        ));
                    }
                    i = i + 1;
                }
                Ok(())
            },
        }
    }

    /// The root of `loan`'s ancestor chain; a loan met twice is an invalid
    /// runtime state.
    pub fn root_loan(&self, loan: VirLoanId, source_span: ByteSpan) -> (r: Result<VirLoanId, VirExecutionError>)
        requires
            self.shadow_inv(),
        ensures
            match r {
                Ok(root) => exists|c: Seq<VirLoanId>| #[trigger] self.is_chain(loan, c) && root == c.last(),
                Err(e) => !exists|c: Seq<VirLoanId>| #[trigger] self.is_chain(loan, c),
            },
            r matches Err(e) ==> (e.spec_kind() == VirExecutionErrorKind::InvalidRuntimeState
                || exists|k: nat| (#[trigger] self.ancestor(loan, k)) is Some && self.spec_loan(self.ancestor(loan, k)->0) is None
                    && e.spec_kind() == (VirExecutionErrorKind::MissingLoan { loan: self.ancestor(loan, k)->0 })),
    {
        let walked = self.ancestor_chain(loan, source_span);
        match walked {
            Ok(chain) => {
                let n = chain.len();
                Ok(chain[n - 1])
            },
            Err(e) => {
                proof {
                    if exists|c: Seq<VirLoanId>| self.is_chain(loan, c) {
                        let c = choose|c: Seq<VirLoanId>| self.is_chain(loan, c);
                        lemma_chain_excludes_fault(*self, loan, c, e.spec_kind());
                    }
                }
                if let VirExecutionErrorKind::MissingLoan { .. } = e.kind() {
                    Err(e)
                } else {
                    Err(error(VirExecutionErrorKind::InvalidRuntimeState, source_span))
                }
            },
        }
    }

    /// The child-loan effect of a reborrow through the alias that
    /// `effect.source_permission` holds, in `region`, over `actual`.
    pub fn resolve_reborrow(
        &self,
        frame: &BlockFrame,
        loan: VirLoanId,
        region: VirBorrowRegionId,
        effect: VirLoanAuthorityEffect,
        actual: VirLoanRange,
        borrows: &VirBorrowEnvironment,
        memory: &VirMemorySchema,
        span: ByteSpan,
    ) -> (r: Result<VirLoanEffect, VirExecutionError>)
        requires
            self.shadow_inv(),
        ensures
            match frame.loan_authority_spec(effect.source_permission) {
                None => r matches Err(e) && e.spec_kind() == (VirExecutionErrorKind::LoanAuthorityMismatch {
                    loan,
                    permission: effect.source_permission,
                }),
                Some(a) => match self.spec_loan(a.loan) {
                    None => r matches Err(e) && e.spec_kind() == (VirExecutionErrorKind::MissingLoan { loan: a.loan }),
                    Some(p) => {
                        &&& r matches Ok(result) ==> {
                            &&& borrows.spec_region(region) matches Some(g) && borrows.reaches(g.owner, region, p.region)
                            &&& result == (VirLoanEffect {
                                loan,
                                kind: reborrow_kind(memory.spec_kind(effect.reference.ty)),
                                region,
                                parent: Some(a.loan),
                                source_pointer: effect.source_pointer,
                                source_permission: effect.source_permission,
                                reference: effect.reference,
                                range: actual,
                                origin: effect.origin,
                            })
                        }
                        &&& r matches Err(e) ==> e.spec_kind() == (VirExecutionErrorKind::LoanParentMismatch { loan, parent: a.loan })
                        &&& (borrows.spec_region(region) matches Some(x) && borrows.spec_region(p.region) matches Some(y)
                            && x.owner == y.owner && region == p.region) ==> r is Ok
                        &&& (borrows.spec_region(region) is None || borrows.spec_region(p.region) is None
                            || borrows.spec_region(region)->0.owner != borrows.spec_region(p.region)->0.owner) ==> r is Err
                    },
                },
            },
    {
        let authority = match frame.loan_authority(effect.source_permission) {
            Some(a) => a,
            None => {
                return Err(authority_error(loan, effect.source_permission, span));
            },
        };
        let parent = self.loan(authority.loan, span)?;
        if borrows.includes(region, parent.region, 4096) != Some(true) {
            return Err(error(VirExecutionErrorKind::LoanParentMismatch { loan, parent: authority.loan }, span));
        }
        let kind = match memory.kind(effect.reference.ty) {
            Some(VirMemoryTypeKind::Slice { mutability: VirMutability::Mutable, .. }) => VirLoanKind::Mutable,
            Some(VirMemoryTypeKind::Pointer { mutability: VirMutability::Mutable, .. }) => VirLoanKind::Mutable,
            _ => VirLoanKind::Shared,
        };
        Ok(VirLoanEffect {
            loan,
            kind,
            region,
            parent: Some(authority.loan),
            source_pointer: effect.source_pointer,
            source_permission: effect.source_permission,
            reference: effect.reference,
            range: actual,
            origin: effect.origin,
        })
    }

    /// Rejects a permission transform (split, join, free) of a loaned permission.
    pub fn reject_permission_transform(&self, frame: &BlockFrame, permission: VirValueId, source_span: ByteSpan)
        -> (r: Result<(), VirExecutionError>)
        ensures
            match frame.loan_authority_spec(permission) {
                Some(a) => r matches Err(e) && e.spec_kind() == (VirExecutionErrorKind::LoanAccessConflict { loan: a.loan, permission }),
                None => r is Ok,
            },
    {
        match frame.loan_authority(permission) {
            Some(a) => Err(error(VirExecutionErrorKind::LoanAccessConflict { loan: a.loan, permission }, source_span)),
            None => Ok(()),
        }
    }

    /// Every loan has ended; otherwise the first live one is reported.
    pub fn finish(&self, source_span: ByteSpan) -> (r: Result<(), VirExecutionError>)
        ensures
            r is Ok <==> forall|i: int| 0 <= i < self.spec_entries().len() ==> (#[trigger] self.spec_entries()[i]).loan.activity
                == RuntimeLoanActivity::Ended,
            r matches Err(e) ==> exists|i: int| 0 <= i < self.spec_entries().len()
                && (#[trigger] self.spec_entries()[i]).loan.activity != RuntimeLoanActivity::Ended
                && e.spec_kind() == (VirExecutionErrorKind::LoanNotEnded { loan: self.spec_entries()[i].id })
                && forall|j: int| 0 <= j < i ==> (#[trigger] self.spec_entries()[j]).loan.activity == RuntimeLoanActivity::Ended,
    {
        let mut i: usize = 0;
        while i < self.entries.len()
            invariant
                0 <= i <= self.entries@.len(),
                forall|j: int| 0 <= j < i ==> (#[trigger] self.entries@[j]).loan.activity == RuntimeLoanActivity::Ended,
            decreases self.entries.len() - i,
        {
            if self.entries[i].loan.activity != RuntimeLoanActivity::Ended {
                return Err(error(VirExecutionErrorKind::LoanNotEnded { loan: self.entries[i].id }, source_span));
            }
            i = i + 1;
        }
        Ok(())
    }
}

/// Past a root the ancestor walk stays empty.
pub proof fn lemma_ancestor_none_stays(s: RuntimeLoanShadow, loan: VirLoanId, n: nat, m: nat)
    requires
        s.ancestor(loan, n) is None,
        n <= m,
    ensures
        s.ancestor(loan, m) is None,
    decreases m - n,
{
    if n < m {
        lemma_ancestor_none_stays(s, loan, n, (m - 1) as nat);
    }
}

/// A loan has at most one ancestor chain.
pub proof fn lemma_chain_unique(s: RuntimeLoanShadow, loan: VirLoanId, c1: Seq<VirLoanId>, c2: Seq<VirLoanId>)
    requires
        s.is_chain(loan, c1),
        s.is_chain(loan, c2),
    ensures
        c1 == c2,
{
    if c1.len() < c2.len() {
        lemma_ancestor_none_stays(s, loan, c1.len(), c1.len());
        assert(s.ancestor(loan, c1.len()) == Some(c2[c1.len() as int]));
    } else if c2.len() < c1.len() {
        assert(s.ancestor(loan, c2.len()) == Some(c1[c2.len() as int]));
    }
    assert forall|k: int| 0 <= k < c1.len() implies c1[k] == c2[k] by {
        assert(s.ancestor(loan, k as nat) == Some(c1[k]));
        assert(s.ancestor(loan, k as nat) == Some(c2[k]));
    }
    assert(c1 =~= c2);
}

/// Two equal steps of the ancestor walk stay equal.
pub proof fn lemma_ancestor_shift(s: RuntimeLoanShadow, loan: VirLoanId, j: nat, k: nat, m: nat)
    requires
        s.ancestor(loan, j) == s.ancestor(loan, k),
    ensures
        s.ancestor(loan, j + m) == s.ancestor(loan, k + m),
    decreases m,
{
    if m > 0 {
        lemma_ancestor_shift(s, loan, j, k, (m - 1) as nat);
        assert(s.ancestor(loan, j + m) == s.ancestor(loan, k + m)) by {
            assert(j + m - 1 == j + (m - 1) as nat);
            assert(k + m - 1 == k + (m - 1) as nat);
        }
    }
}

/// A loan with an ancestor chain walks to its root without a fault.
pub proof fn lemma_chain_excludes_fault(s: RuntimeLoanShadow, loan: VirLoanId, chain: Seq<VirLoanId>, kind: VirExecutionErrorKind)
    requires
        s.is_chain(loan, chain),
    ensures
        !s.chain_fault(loan, kind),
{
    assert forall|k: nat| (#[trigger] s.ancestor(loan, k)) is Some implies s.spec_loan(s.ancestor(loan, k)->0) is Some && k < chain.len() by {
        if k >= chain.len() {
            lemma_ancestor_none_stays(s, loan, chain.len(), k);
        }
        assert(s.ancestor(loan, k) == Some(chain[k as int]));
    }
    assert forall|j: nat, k: nat| j < k && (#[trigger] s.ancestor(loan, j)) is Some implies #[trigger] s.ancestor(loan, k)
        != s.ancestor(loan, j) by {
        if s.ancestor(loan, k) == s.ancestor(loan, j) {
            assert(k < chain.len());
            let m = (chain.len() - k) as nat;
            lemma_ancestor_shift(s, loan, j, k, m);
            assert(k + m == chain.len());
            assert(s.ancestor(loan, (j + m) as nat) == Some(chain[(j + m) as int]));
        }
    }
}

/// `l` is a live loan whose parent is `parent`.
pub open spec fn is_live_child(l: Option<RuntimeLoan>, parent: VirLoanId) -> bool {
    l matches Some(x) && x.parent == Some(parent) && x.activity != RuntimeLoanActivity::Ended
}

/// An alias of `l` held by `token` may perform `request`.
pub open spec fn access_compatible(l: RuntimeLoan, token: u64, request: RuntimeLoanAccessRequest) -> bool {
    &&& l.activity == RuntimeLoanActivity::Active
    &&& l.authorities@.contains(token)
    &&& l.allocation == request.pointer.allocation
    &&& l.range.start_bytes <= request.start_bytes
    &&& request.end_bytes <= l.range.end_bytes
    &&& match l.kind {
        VirLoanKind::Shared => request.kind == RuntimeLoanAccess::Read,
        VirLoanKind::Mutable => request.kind != RuntimeLoanAccess::Free,
    }
}

/// Live loan `l` forbids `request` by a permission that holds no loan.
pub open spec fn blocks_access(l: RuntimeLoan, request: RuntimeLoanAccessRequest) -> bool {
    &&& l.activity != RuntimeLoanActivity::Ended
    &&& l.allocation == request.pointer.allocation
    &&& spec_ranges_overlap(request.start_bytes, request.end_bytes, l.range)
    &&& !(request.kind == RuntimeLoanAccess::Read && l.kind == VirLoanKind::Shared)
}

/// The kind of a reborrow through a reference of type `kind`.
pub open spec fn reborrow_kind(kind: Option<VirMemoryTypeKind>) -> VirLoanKind {
    match kind {
        Some(VirMemoryTypeKind::Slice { mutability: VirMutability::Mutable, .. }) => VirLoanKind::Mutable,
        Some(VirMemoryTypeKind::Pointer { mutability: VirMutability::Mutable, .. }) => VirLoanKind::Mutable,
        _ => VirLoanKind::Shared,
    }
}

/// A loan record is `new_loan` for a fresh root or child loan.
pub open spec fn fresh_loan(l: RuntimeLoan, effect: VirLoanEffect, pointer: VirRuntimePointer, actual: VirLoanRange, parent: Option<VirLoanId>, token: u64) -> bool {
    &&& l.allocation == pointer.allocation
    &&& l.range == actual
    &&& l.envelope == effect.range
    &&& l.kind == effect.kind
    &&& l.region == effect.region
    &&& l.parent == parent
    &&& l.pointee == pointer.access
    &&& l.activity == RuntimeLoanActivity::Active
    &&& l.authorities@ == Set::<u64>::empty().insert(token)
}

/// The frames hold the same values, consumed permissions and authorities.
pub open spec fn same_frame(a: BlockFrame, b: BlockFrame) -> bool {
    &&& a.values@ == b.values@
    &&& a.consumed_permissions@ == b.consumed_permissions@
    &&& a.loan_authorities@ == b.loan_authorities@
}

/// Changing one identifier's loan keeps the invariant when the new record is
/// well formed and its tokens hold no other loan.
pub proof fn lemma_inv_update(a: RuntimeLoanShadow, b: RuntimeLoanShadow, id: VirLoanId)
    requires
        a.shadow_inv(),
        ids_sorted(b.spec_entries()),
        b.spec_next_authority() >= a.spec_next_authority(),
        forall|x: VirLoanId| x != id ==> #[trigger] b.spec_loan(x) == a.spec_loan(x),
        b.spec_loan(id) matches Some(l) ==> loan_wf(l, b.spec_next_authority()),
        forall|t: u64| #[trigger] b.token_holds(id, t) ==> t >= a.spec_next_authority() || a.token_holds(id, t),
    ensures
        b.shadow_inv(),
{
    assert forall|x: VirLoanId, t: u64| x != id && b.token_holds(id, t) implies !a.token_holds(x, t) by {
        if a.token_holds(x, t) {
            assert(loan_wf(a.spec_loan(x)->0, a.spec_next_authority()));
            if a.token_holds(id, t) {
                assert(a.token_holds(x, t) && a.token_holds(id, t));
            }
        }
    }
    assert forall|x: VirLoanId| #[trigger] b.spec_loan(x) is Some implies loan_wf(b.spec_loan(x)->0, b.spec_next_authority()) by {
        if x != id {
            assert(a.spec_loan(x) is Some);
        }
    }
    assert forall|x: VirLoanId, y: VirLoanId, t: u64| #[trigger] b.token_holds(x, t) && #[trigger] b.token_holds(y, t) implies x == y by {
        if x != id && y != id {
            assert(a.token_holds(x, t) && a.token_holds(y, t));
        } else if x == id && y != id {
            assert(a.token_holds(y, t));
        } else if x != id && y == id {
            assert(a.token_holds(x, t));
        }
    }
}

fn contains_loan_id(ids: &Vec<VirLoanId>, id: VirLoanId) -> (r: bool)
    ensures
        r == ids@.contains(id),
{
    let mut i: usize = 0;
    while i < ids.len()
        invariant
            0 <= i <= ids@.len(),
            forall|j: int| 0 <= j < i ==> ids@[j] != id,
        decreases ids.len() - i,
    {
        if ids[i] == id {
            assert(ids@[i as int] == id);
            return true;
        }
        i = i + 1;
    }
    false
}

/// The changed record of `id` is well formed, and each of its tokens either
/// held it before or held no loan at all: the invariant is kept.
pub proof fn lemma_inv_update_unheld(a: RuntimeLoanShadow, b: RuntimeLoanShadow, id: VirLoanId)
    requires
        a.shadow_inv(),
        ids_sorted(b.spec_entries()),
        b.spec_next_authority() >= a.spec_next_authority(),
        forall|x: VirLoanId| x != id ==> #[trigger] b.spec_loan(x) == a.spec_loan(x),
        b.spec_loan(id) matches Some(l) ==> loan_wf(l, b.spec_next_authority()),
        forall|t: u64| #[trigger] b.token_holds(id, t) ==> a.token_holds(id, t) || forall|x: VirLoanId| !a.token_holds(x, t),
    ensures
        b.shadow_inv(),
{
    assert forall|x: VirLoanId| #[trigger] b.spec_loan(x) is Some implies loan_wf(b.spec_loan(x)->0, b.spec_next_authority()) by {
        if x != id {
            assert(a.spec_loan(x) is Some);
            assert(loan_wf(a.spec_loan(x)->0, a.spec_next_authority()));
        }
    }
    assert forall|x: VirLoanId, y: VirLoanId, t: u64| #[trigger] b.token_holds(x, t) && #[trigger] b.token_holds(y, t) implies x == y by {
        if x != id && y != id {
            assert(a.token_holds(x, t) && a.token_holds(y, t));
        } else if x == id && y != id {
            assert(a.token_holds(y, t));
            if a.token_holds(id, t) {
                assert(a.token_holds(id, t) && a.token_holds(y, t));
            }
        } else if x != id && y == id {
            assert(a.token_holds(x, t));
            if a.token_holds(id, t) {
                assert(a.token_holds(id, t) && a.token_holds(x, t));
            }
        }
    }
}

/// A loan record is the child that a conditional return opens under
/// `parent`: over the returned permission's bytes when the result is
/// projected to `projected`, else over the parent's range.
pub open spec fn conditional_child(
    l: RuntimeLoan,
    p: RuntimeLoan,
    parent: VirLoanId,
    projected: Option<VirMemoryAccess>,
    returned: VirRuntimePermission,
    token: u64,
) -> bool {
    let range = match projected {
        Some(_) => VirLoanRange { start_bytes: returned.start_bytes, end_bytes: returned.end_bytes },
        None => p.range,
    };
    &&& l.allocation == p.allocation
    &&& l.range == range
    &&& l.envelope == range
    &&& l.kind == p.kind
    &&& l.region == p.region
    &&& l.parent == Some(parent)
    &&& l.pointee == (match projected {
        Some(a) => a,
        None => p.pointee,
    })
    &&& l.activity == RuntimeLoanActivity::Active
    &&& l.authorities@ == Set::<u64>::empty().insert(token)
}

impl RuntimeLoanShadow {
    /// `id` is the first identifier from the dynamic counter on that no loan
    /// holds.
    pub open spec fn first_free_dynamic(&self, id: u32) -> bool {
        &&& self.spec_next_dynamic_loan() <= id
        &&& !self.has_loan(VirLoanId(id))
        &&& forall|k: u32| self.spec_next_dynamic_loan() <= k < id ==> #[trigger] self.has_loan(VirLoanId(k))
    }

    /// Every dynamic identifier below the largest one is taken.
    pub open spec fn dynamic_ids_exhausted(&self) -> bool {
        forall|k: u32| self.spec_next_dynamic_loan() <= k < u32::MAX ==> #[trigger] self.has_loan(VirLoanId(k))
    }

    /// A conditional return of `authority` shares the parent's loan: the
    /// parent is shared and the result is not projected.
    pub open spec fn conditional_shares(p: RuntimeLoan, projected: Option<VirMemoryAccess>) -> bool {
        p.kind == VirLoanKind::Shared && projected is None
    }

    /// Why `activate_conditional_return` refuses, in the order the checks are
    /// made, or `None`.
    pub open spec fn activate_refusal(
        &self,
        authority: RuntimeLoanAuthority,
        projected: Option<VirMemoryAccess>,
        limits: RuntimeLoanLimits,
    ) -> Option<VirExecutionErrorKind> {
        match self.spec_loan(authority.loan) {
            None => Some(VirExecutionErrorKind::MissingLoan { loan: authority.loan }),
            Some(p) => if Self::conditional_shares(p, projected) {
                if p.authorities@.len() >= limits.aliases_per_loan {
                    Some(VirExecutionErrorKind::LoanAliasLimitExceeded { loan: authority.loan, limit: limits.aliases_per_loan })
                } else if self.spec_next_authority() == u64::MAX {
                    Some(VirExecutionErrorKind::ActiveLoanLimitExceeded { limit: usize::MAX })
                } else {
                    None
                }
            } else if count_live(self.spec_entries()) >= limits.active_loans || self.dynamic_ids_exhausted() {
                Some(VirExecutionErrorKind::ActiveLoanLimitExceeded { limit: limits.active_loans })
            } else if self.spec_next_authority() == u64::MAX {
                Some(VirExecutionErrorKind::ActiveLoanLimitExceeded { limit: usize::MAX })
            } else {
                None
            },
        }
    }

    /// Where a refused conditional return leaves the dynamic loan counter:
    /// at the top once the identifiers ran out, past the free identifier it
    /// found when the alias tokens ran out, else where it was.
    pub open spec fn refused_dynamic_counter(
        &self,
        old: &Self,
        authority: RuntimeLoanAuthority,
        projected: Option<VirMemoryAccess>,
        limits: RuntimeLoanLimits,
    ) -> bool {
        match old.spec_loan(authority.loan) {
            Some(p) => if !Self::conditional_shares(p, projected) && count_live(old.spec_entries()) < limits.active_loans {
                if old.dynamic_ids_exhausted() {
                    self.spec_next_dynamic_loan() == u32::MAX
                } else {
                    exists|id: u32| #[trigger] old.first_free_dynamic(id) && self.spec_next_dynamic_loan() == id + 1
                }
            } else {
                self.spec_next_dynamic_loan() == old.spec_next_dynamic_loan()
            },
            None => self.spec_next_dynamic_loan() == old.spec_next_dynamic_loan(),
        }
    }

    /// Opens the loan a conditionally returned borrow carries back to the
    /// caller: a fresh alias of a shared parent, or a fresh child loan under
    /// a dynamic identifier that suspends a mutable parent.
    pub fn activate_conditional_return(
        &mut self,
        authority: RuntimeLoanAuthority,
        projected_pointee: Option<VirMemoryAccess>,
        returned_permission: VirRuntimePermission,
        limits: RuntimeLoanLimits,
        span: ByteSpan,
    ) -> (r: Result<RuntimeLoanAuthority, VirExecutionError>)
        requires
            old(self).shadow_inv(),
        ensures
            (old(self).spec_loan(authority.loan) matches Some(p) && p.activity != RuntimeLoanActivity::Ended)
                ==> final(self).shadow_inv(),
            match old(self).activate_refusal(authority, projected_pointee, limits) {
                Some(k) => {
                    &&& r matches Err(e) && e.spec_kind() == k
                    &&& final(self).spec_entries() == old(self).spec_entries()
                    &&& final(self).spec_next_authority() == old(self).spec_next_authority()
                    &&& final(self).refused_dynamic_counter(&*old(self), authority, projected_pointee, limits)
                },
                None => {
                    let p = old(self).spec_loan(authority.loan)->0;
                    let token = old(self).spec_next_authority();
                    if Self::conditional_shares(p, projected_pointee) {
                        r == Ok::<RuntimeLoanAuthority, VirExecutionError>(RuntimeLoanAuthority { loan: authority.loan, token })
                            && final(self).alias_added(&*old(self), authority.loan, token)
                    } else {
                        &&& match r {
                            Ok(a) => {
                                &&& a.token == token
                                &&& old(self).first_free_dynamic(a.loan.0)
                                &&& final(self).spec_next_dynamic_loan() == a.loan.0 + 1
                                &&& final(self).spec_loan(a.loan) is Some
                                &&& conditional_child(final(self).spec_loan(a.loan)->0, p, authority.loan, projected_pointee,
                                    returned_permission, token)
                                &&& forall|x: VirLoanId| x != a.loan && x != authority.loan
                                    ==> #[trigger] final(self).spec_loan(x) == old(self).spec_loan(x)
                            },
                            Err(_) => false,
                        }
                        &&& final(self).spec_next_authority() == token + 1
                        &&& final(self).spec_loan(authority.loan) matches Some(q) && loan_with(q, p,
                            if p.kind == VirLoanKind::Mutable { RuntimeLoanActivity::Suspended } else { p.activity },
                            p.authorities@)
                    }
                },
            },
    {
        let ghost s0 = *self;
        let i = self.loan_index(authority.loan, span)?;
        let parent_kind = self.entries[i].loan.kind;
        if parent_kind == VirLoanKind::Shared && projected_pointee.is_none() {
            if self.entries[i].loan.authorities.len() >= limits.aliases_per_loan {
                return Err(error(
                    VirExecutionErrorKind::LoanAliasLimitExceeded { loan: authority.loan, limit: limits.aliases_per_loan },
                    span,
                ));
            }
            let fresh = self.fresh_authority(authority.loan, span);
            proof {
                lemma_inv_update(s0, *self, authority.loan);
            }
            let fresh = fresh?;
            let ghost s1 = *self;
            self.add_authority_at(i, fresh.token);
            proof {
                let p = s0.spec_loan(authority.loan)->0;
                if p.activity != RuntimeLoanActivity::Ended {
                    lemma_inv_update(s0, s1, authority.loan);
                    assert(loan_wf(p, s0.spec_next_authority()));
                    lemma_inv_update(s0, *self, authority.loan);
                }
            }
            return Ok(fresh);
        }
        if self.active_count() >= limits.active_loans {
            return Err(error(VirExecutionErrorKind::ActiveLoanLimitExceeded { limit: limits.active_loans }, span));
        }
        let mut next = self.next_dynamic_loan;
        while self.find(VirLoanId::new(next)).is_some()
            invariant
                self.spec_entries() == s0.spec_entries(),
                self.spec_next_authority() == s0.spec_next_authority(),
                self.spec_next_dynamic_loan() == next,
                s0 == *old(self),
                s0.shadow_inv(),
                s0.spec_loan(authority.loan) is Some,
                !Self::conditional_shares(s0.spec_loan(authority.loan)->0, projected_pointee),
                count_live(s0.spec_entries()) < limits.active_loans,
                s0.spec_next_dynamic_loan() <= next,
                forall|k: u32| s0.spec_next_dynamic_loan() <= k < next ==> #[trigger] s0.has_loan(VirLoanId(k)),
            decreases u32::MAX - next,
        {
            proof {
                assert(s0.has_loan(VirLoanId(next)));
            }
            match next.checked_add(1) {
                Some(n) => {
                    next = n;
                    self.next_dynamic_loan = n;
                },
                None => {
                    proof {
                        assert(s0.dynamic_ids_exhausted());
                        assert(loan_wf(s0.spec_loan(authority.loan)->0, s0.spec_next_authority()));
                        lemma_inv_update(s0, *self, authority.loan);
                    }
                    return Err(error(VirExecutionErrorKind::ActiveLoanLimitExceeded { limit: limits.active_loans }, span));
                },
            }
        }
        proof {
            assert(!s0.has_loan(VirLoanId(next)));
            assert(s0.first_free_dynamic(next));
        }
        if next == u32::MAX {
            proof {
                assert(s0.dynamic_ids_exhausted());
                lemma_inv_update(s0, *self, authority.loan);
            }
            return Err(error(VirExecutionErrorKind::ActiveLoanLimitExceeded { limit: limits.active_loans }, span));
        }
        proof {
            assert(!s0.dynamic_ids_exhausted()) by {
                assert(!s0.has_loan(VirLoanId(next)));
            }
        }
        self.next_dynamic_loan = next + 1;
        let id = VirLoanId::new(next);
        let fresh = self.fresh_authority(id, span);
        let ghost s1 = *self;
        proof {
            lemma_inv_update(s0, s1, authority.loan);
        }
        let fresh = fresh?;
        if parent_kind == VirLoanKind::Mutable {
            self.set_activity_at(i, RuntimeLoanActivity::Suspended);
        }
        let ghost s2 = *self;
        proof {
            let p = s0.spec_loan(authority.loan)->0;
            if p.activity != RuntimeLoanActivity::Ended && parent_kind == VirLoanKind::Mutable {
                assert(loan_wf(p, s0.spec_next_authority()));
                lemma_inv_update(s1, s2, authority.loan);
            }
        }
        let range = match projected_pointee {
            Some(_) => VirLoanRange { start_bytes: returned_permission.start_bytes, end_bytes: returned_permission.end_bytes },
            None => self.entries[i].loan.range,
        };
        let pointee = match projected_pointee {
            Some(a) => a,
            None => self.entries[i].loan.pointee,
        };
        let mut authorities: BTreeSet<u64> = BTreeSet::new();
        authorities.insert(fresh.token);
        let loan = RuntimeLoan {
            allocation: self.entries[i].loan.allocation,
            range,
            envelope: range,
            kind: parent_kind,
            region: self.entries[i].loan.region,
            parent: Some(authority.loan),
            pointee,
            activity: RuntimeLoanActivity::Active,
            authorities,
        };
        self.store_loan(id, loan);
        proof {
            assert(authorities@ =~= Set::<u64>::empty().insert(fresh.token));
            let p = s0.spec_loan(authority.loan)->0;
            assert(s2.spec_loan(id) is None) by {
                if s2.spec_loan(id) is Some {
                    assert(s0.spec_loan(id) is Some);
                    let j = choose|j: int| #[trigger] entry_holds(s0.spec_entries(), id, j);
                    assert(s0.has_loan(id));
                }
            }
            if p.activity != RuntimeLoanActivity::Ended {
                assert forall|x: VirLoanId| !s2.token_holds(x, fresh.token) by {
                    if s2.token_holds(x, fresh.token) {
                        assert(s0.spec_loan(x) is Some);
                        assert(loan_wf(s0.spec_loan(x)->0, s0.spec_next_authority()));
                        assert(s0.spec_loan(x)->0.authorities@.contains(fresh.token));
                    }
                }
                lemma_inv_update_unheld(s2, *self, id);
            }
        }
        Ok(fresh)
    }
}

impl BlockFrame {
    /// The loan authority the frame holds for an unconsumed `id`.
    pub open spec fn loan_authority_spec(&self, id: VirValueId) -> Option<RuntimeLoanAuthority> {
        if !self.consumed_permissions@.contains(id.0) && self.loan_authorities@.contains_key(id.0) {
            Some(self.loan_authorities@[id.0])
        } else {
            None
        }
    }
}

} // verus!
