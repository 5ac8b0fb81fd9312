//! Runtime memory model of the VIR interpreter: allocations with
//! non-recycling identities, logical pointers with arithmetic domains,
//! permission tokens and the checks every access goes through.

use std::collections::{BTreeMap, BTreeSet};

use vstd::prelude::*;

use crate::borrow::VirLoanRange;
use crate::ids::{ByteSpan, DropCapability, SizeCapability, VirBlockId, VirFunctionId, VirLoanId, VirValueId, VirVariantId};
use crate::memory::{VirEndianness, VirMemoryAccess, VirMemorySchema, VirMemoryTypeKind, VirPointerKind};
use crate::object_shape::{VirObjectLeaf, VirObjectPath, VirObjectPathSegment, VirObjectShape, VirObjectVariantShape, same_segments, shape_matches, shape_promised};
use crate::provenance::{VirPointerDomain, VirPointerPaths, same_nominal};
use crate::scalar_memory::{bytes_at, first_offset};
use crate::types::{VirType, VirValue};

verus! {

broadcast use {vstd::laws_cmp::group_laws_cmp, vstd::std_specs::btree::group_btree_axioms};

/// Maximum enum-bearing object roots tracked in one runtime allocation.
pub const VIR_INTERPRETER_MAX_OBJECT_ROOTS: usize = 4096;

/// Maximum typed owning payloads tracked in one runtime allocation.
pub const VIR_INTERPRETER_MAX_RESOURCE_PAYLOADS: usize = 1024;

/// Maximum simultaneously live loan records in one interpreted function call.
pub const VIR_INTERPRETER_MAX_ACTIVE_LOANS: usize = 256;

/// Maximum live authority aliases retained by one interpreted loan.
pub const VIR_INTERPRETER_MAX_ALIASES_PER_LOAN: usize = 256;

/// Maximum parent chain accepted by the runtime reborrow shadow.
pub const VIR_INTERPRETER_MAX_REBORROW_DEPTH: usize = 64;

/// Resource limits for deterministic VIR execution.
#[derive(Clone, Copy, Debug, PartialEq, Eq, Structural)]
pub struct VirInterpreterConfig {
    pub max_steps: u64,
    pub max_call_depth: u32,
    pub max_allocation_bytes: u64,
    pub max_object_effect_bytes: u64,
    pub max_active_loans: usize,
    pub max_aliases_per_loan: usize,
    pub max_reborrow_depth: usize,
}

impl Default for VirInterpreterConfig {
    fn default() -> (r: Self)
        ensures
            r.max_steps == 1_000_000 && r.max_call_depth == 128 && r.max_allocation_bytes == 4096
                && r.max_object_effect_bytes == 4096 && r.max_active_loans == VIR_INTERPRETER_MAX_ACTIVE_LOANS
                && r.max_aliases_per_loan == VIR_INTERPRETER_MAX_ALIASES_PER_LOAN
                && r.max_reborrow_depth == VIR_INTERPRETER_MAX_REBORROW_DEPTH,
    {
        VirInterpreterConfig {
            max_steps: 1_000_000,
            max_call_depth: 128,
            max_allocation_bytes: 4096,
            max_object_effect_bytes: 4096,
            max_active_loans: VIR_INTERPRETER_MAX_ACTIVE_LOANS,
            max_aliases_per_loan: VIR_INTERPRETER_MAX_ALIASES_PER_LOAN,
            max_reborrow_depth: VIR_INTERPRETER_MAX_REBORROW_DEPTH,
        }
    }
}

/// One observable interpreter step. It contains runtime IDs only and cannot
/// name a specification entity.
#[derive(Clone, Copy, Debug, PartialEq, Eq, Hash, Structural)]
pub struct VirTraceEvent {
    pub function: VirFunctionId,
    pub block: VirBlockId,
    pub point: VirTracePoint,
}

/// Runtime position represented by an interpreter trace event.
#[derive(Clone, Copy, Debug, PartialEq, Eq, Hash, Structural)]
pub enum VirTracePoint {
    Instruction(u64),
    Terminator,
}

/// Logical runtime pointer; allocation identities are never reconstructed from integers.
#[derive(Clone, Copy, Debug, PartialEq, Eq, Hash)]
pub struct VirRuntimePointer {
    pub paths: VirPointerPaths,
    pub allocation: u64,
    pub offset_bytes: u64,
    /// Canonical object type at this address; never reconstructed from bytes.
    pub access: VirMemoryAccess,
    /// Concrete slice selection calculated from actual runtime endpoints.
    /// This is observation metadata, never permission or trusted VIR input.
    pub view_range: Option<VirLoanRange>,
    /// Arithmetic extent only; never grants authority or proves initialization.
    pub domain: VirPointerDomain<VirLoanRange>,
}

/// Runtime representation of a verifier-only permission token.
#[derive(Clone, Copy, Debug, PartialEq, Eq, Hash, Structural)]
pub struct VirRuntimePermission {
    pub allocation: u64,
    pub start_bytes: u64,
    pub end_bytes: u64,
    pub can_free_when_complete: bool,
}

/// Values observable while interpreting VIR.
#[derive(Clone, Debug, PartialEq, Eq)]
pub enum VirRuntimeValue {
    U64(u64),
    Bool(bool),
    Pointer(VirRuntimePointer),
    Permission(VirRuntimePermission),
}

/// Successful, explicitly unverified VIR execution.
#[derive(Clone, Debug, PartialEq, Eq)]
pub struct VirExecution {
    values: Vec<VirRuntimeValue>,
    steps: u64,
    trace: Vec<VirTraceEvent>,
}

impl VirExecution {
    pub closed spec fn spec_values(&self) -> Seq<VirRuntimeValue> {
        self.values@
    }

    pub closed spec fn spec_steps(&self) -> u64 {
        self.steps
    }

    pub closed spec fn spec_trace(&self) -> Seq<VirTraceEvent> {
        self.trace@
    }

    pub fn values(&self) -> (r: &[VirRuntimeValue])
        ensures
            r@ == self.spec_values(),
    {
        self.values.as_slice()
    }

    pub fn steps(&self) -> (r: u64)
        ensures
            r == self.spec_steps(),
    {
        self.steps
    }

    /// Exact runtime program points executed in order.
    pub fn trace(&self) -> (r: &[VirTraceEvent])
        ensures
            r@ == self.spec_trace(),
    {
        self.trace.as_slice()
    }
}

/// A deterministic interpreter failure and its originating source range.
#[derive(Clone, Debug, PartialEq, Eq)]
pub struct VirExecutionError {
    kind: VirExecutionErrorKind,
    source_span: ByteSpan,
    trace: Vec<VirTraceEvent>,
}

impl VirExecutionError {
    pub closed spec fn spec_kind(&self) -> VirExecutionErrorKind {
        self.kind
    }

    pub closed spec fn spec_source_span(&self) -> ByteSpan {
        self.source_span
    }

    pub closed spec fn spec_trace(&self) -> Seq<VirTraceEvent> {
        self.trace@
    }

    pub fn kind(&self) -> (r: &VirExecutionErrorKind)
        ensures
            *r == self.spec_kind(),
    {
        &self.kind
    }

    pub fn source_span(&self) -> (r: ByteSpan)
        ensures
            r == self.spec_source_span(),
    {
        self.source_span
    }

    /// Runtime trace through and including the faulting program point.
    pub fn trace(&self) -> (r: &[VirTraceEvent])
        ensures
            r@ == self.spec_trace(),
    {
        self.trace.as_slice()
    }
}

/// Runtime faults, unsupported boundaries and execution-resource exhaustion.
#[derive(Clone, Debug, PartialEq, Eq)]
pub enum VirExecutionErrorKind {
    PointerDomainViolation { allocation: u64, start_bytes: u64, end_bytes: u64 },
    StepLimitExceeded,
    CallDepthExceeded,
    EntryPointParametersUnsupported { count: usize },
    ActiveLoanLimitExceeded { limit: usize },
    LoanAliasLimitExceeded { loan: VirLoanId, limit: usize },
    LoanReborrowDepthLimitExceeded { loan: VirLoanId, limit: usize },
    LoanAlreadyDefined { loan: VirLoanId },
    MissingLoan { loan: VirLoanId },
    LoanMetadataMismatch { loan: VirLoanId },
    LoanRangeViolation { loan: VirLoanId },
    LoanConflict { loan: VirLoanId },
    LoanInactive { loan: VirLoanId },
    LoanParentMismatch { loan: VirLoanId, parent: VirLoanId },
    LoanHasActiveChild { loan: VirLoanId },
    LoanAuthorityMismatch { loan: VirLoanId, permission: VirValueId },
    LoanAccessConflict { loan: VirLoanId, permission: VirValueId },
    LoanNotEnded { loan: VirLoanId },
    LoanAuthorityAcrossCall { permission: VirValueId },
    UnsupportedObjectEffectType { access: VirMemoryAccess },
    ObjectEffectSizeLimitExceeded { requested: u64, limit: u64 },
    ObjectRootLimitExceeded { allocation: u64, limit: usize },
    ResourcePayloadLimitExceeded { allocation: u64, limit: usize },
    MissingResourcePayload { allocation: u64, offset_bytes: u64, access: VirMemoryAccess },
    AllocationContainsResourcePayload { allocation: u64 },
    InvalidRuntimeState,
    AddressTypeMismatch { found: VirMemoryAccess, expected: VirMemoryAccess },
    IndexOutOfBounds { index: u64, length: u64 },
    InvalidSliceRange { start: u64, end: u64, length: u64 },
    AddressCalculationOverflow,
    AddressOutOfBounds { allocation: u64, offset_bytes: u64, object_bytes: u64, size_bytes: u64 },
    AllocationFailure { size_bytes: u64, limit_bytes: u64 },
    AllocationIdentityExhausted,
    UseAfterFree { allocation: u64 },
    UseAfterLifetimeEnd { allocation: u64 },
    DoubleFree { allocation: u64 },
    PointerRelationIncompatible,
    PointerDistanceNegative,
    PointerOffsetOutOfBounds { allocation: u64, offset_bytes: u64, size_bytes: u64 },
    MisalignedAccess { allocation: u64, offset_bytes: u64, required_alignment: u64 },
    OutOfBoundsAccess { allocation: u64, offset_bytes: u64, access_bytes: u64, size_bytes: u64 },
    UninitializedRead { allocation: u64, offset_bytes: u64 },
    UninitializedObjectLeaf { allocation: u64, offset_bytes: u64, access: VirMemoryAccess },
    InactiveVariantAccess {
        allocation: u64,
        offset_bytes: u64,
        enum_access: VirMemoryAccess,
        active: VirVariantId,
        required: VirVariantId,
    },
    InvalidObjectRepresentation { allocation: u64, offset_bytes: u64, access: VirMemoryAccess },
    OverlappingObjectTransfer {
        allocation: u64,
        destination_offset_bytes: u64,
        source_offset_bytes: u64,
        size_bytes: u64,
    },
    InitializeAlreadyInitialized { allocation: u64, offset_bytes: u64 },
    StoreToUninitialized { allocation: u64, offset_bytes: u64 },
    InvalidFree { allocation: u64, offset_bytes: u64 },
    PermissionAlreadyConsumed(VirValueId),
    PermissionDuplicated(VirValueId),
    PermissionMismatch { allocation: u64, permission_allocation: u64 },
    PermissionOutOfRange { start_bytes: u64, end_bytes: u64, access_start_bytes: u64, access_end_bytes: u64 },
    InvalidPermissionSplit { split_at_bytes: u64, start_bytes: u64, end_bytes: u64 },
    InvalidPermissionJoin,
    CheckFailed,
}

/// An error of `kind` at `source_span`, with no trace yet.
pub fn error(kind: VirExecutionErrorKind, source_span: ByteSpan) -> (e: VirExecutionError)
    ensures
        e.spec_kind() == kind,
        e.spec_source_span() == source_span,
        e.spec_trace().len() == 0,
{
    VirExecutionError { kind, source_span, trace: Vec::new() }
}

/// Whether storage came from the heap or from a frame-local slot.
#[derive(Clone, Copy, Debug, PartialEq, Eq, Structural)]
pub enum RuntimeAllocationKind {
    Heap,
    LocalStorage,
}

/// An enum-bearing object root registered inside one allocation.
#[derive(Clone, Copy, Debug, PartialEq, Eq, Structural)]
pub struct RuntimeObject {
    pub offset_bytes: u64,
    pub access: VirMemoryAccess,
}

/// Place of one typed owning payload inside an allocation: its offset and
/// the raw identifiers of its type and layout, ordered in that order.
pub open spec fn payload_key(offset_bytes: u64, access: VirMemoryAccess) -> (u64, u32, u32) {
    (offset_bytes, access.ty.0, access.layout.0)
}

/// Frame-local authority of one live loan alias.
#[derive(Clone, Copy, Debug, PartialEq, Eq, Structural)]
pub struct RuntimeLoanAuthority {
    pub loan: VirLoanId,
    pub token: u64,
}

/// The pointer and permission an owning payload holds.
#[derive(Clone, Copy, Debug, PartialEq, Eq)]
pub struct RuntimeOwnedPayload {
    pub pointer: VirRuntimePointer,
    pub permission: VirRuntimePermission,
    pub loan_authority: Option<RuntimeLoanAuthority>,
}

/// One runtime allocation: its extent, liveness and initialized bytes.
#[derive(Clone, Debug)]
pub struct Allocation {
    pub size_bytes: u64,
    pub alignment: u64,
    pub kind: RuntimeAllocationKind,
    pub live: bool,
    pub bytes: BTreeMap<u64, u8>,
    pub objects: Vec<RuntimeObject>,
    /// Owning payloads keyed by `payload_key`.
    pub resource_payloads: BTreeMap<(u64, u32, u32), RuntimeOwnedPayload>,
}

/// Execution-local, non-recycling logical identities shared by heap and
/// frames. Native addresses are not inputs: the same storage address may be
/// reused but neither provenance nor hidden authority is recovered from it.
#[derive(Clone, Copy, Debug, Default)]
pub struct RuntimeInstanceSequence {
    pub next: u64,
}

/// One call of `fresh` from the counter `before` to `after` returned `r`.
pub open spec fn fresh_step(before: u64, after: u64, r: Option<u64>) -> bool {
    if before < u64::MAX {
        r == Some(before) && after == before + 1
    } else {
        r is None && after == before
    }
}

impl RuntimeInstanceSequence {
    /// The next identity; `None` forever once the counter is exhausted.
    pub fn fresh(&mut self) -> (r: Option<u64>)
        ensures
            fresh_step(old(self).next, final(self).next, r),
    {
        let id = self.next;
        match self.next.checked_add(1) {
            Some(n) => {
                self.next = n;
                Some(id)
            },
            None => None,
        }
    }
}

/// The counter never moves backwards.
pub proof fn lemma_fresh_monotonic(before: u64, after: u64, r: Option<u64>)
    requires
        fresh_step(before, after, r),
    ensures
        before <= after,
        r matches Some(id) ==> id < after,
{
}

/// An identity handed out once is never handed out again: any later call
/// (from a counter at least as far along) returns a strictly larger one.
pub proof fn lemma_fresh_never_repeats(a0: u64, a1: u64, x: u64, b0: u64, b1: u64, y: u64)
    requires
        fresh_step(a0, a1, Some(x)),
        a1 <= b0,
        fresh_step(b0, b1, Some(y)),
    ensures
        x < y,
{
}

/// Exhaustion is sticky: an exhausted counter stays put and yields nothing.
pub proof fn lemma_fresh_exhaustion_sticky(after: u64, r: Option<u64>)
    requires
        fresh_step(u64::MAX, after, r),
    ensures
        r is None,
        after == u64::MAX,
{
}

/// Values, consumed permissions and loan authorities of one basic block,
/// keyed by the raw value identifier.
pub struct BlockFrame {
    pub values: BTreeMap<u32, VirRuntimeValue>,
    pub consumed_permissions: BTreeSet<u32>,
    pub loan_authorities: BTreeMap<u32, RuntimeLoanAuthority>,
}

/// The pointer the frame holds under `id`, if it holds one.
pub open spec fn frame_pointer(frame: &BlockFrame, id: VirValueId) -> Option<VirRuntimePointer> {
    if frame.values@.contains_key(id.0) {
        match frame.values@[id.0] {
            VirRuntimeValue::Pointer(p) => Some(p),
            _ => None,
        }
    } else {
        None
    }
}

impl BlockFrame {
    pub fn value(&self, id: VirValueId, source_span: ByteSpan) -> (r: Result<&VirRuntimeValue, VirExecutionError>)
        ensures
            match r {
                Ok(v) => self.values@.contains_key(id.0) && *v == self.values@[id.0],
                Err(e) => !self.values@.contains_key(id.0) && e.spec_kind() == VirExecutionErrorKind::InvalidRuntimeState
                    && e.spec_source_span() == source_span,
            },
    {
        match self.values.get(&id.0) {
            Some(v) => Ok(v),
            None => Err(error(VirExecutionErrorKind::InvalidRuntimeState, source_span)),
        }
    }

    /// The unconsumed permission held under `id`.
    pub fn permission(&self, id: VirValueId, source_span: ByteSpan) -> (r: Result<VirRuntimePermission, VirExecutionError>)
        ensures
            self.consumed_permissions@.contains(id.0) ==> (r matches Err(e) && e.spec_kind() == VirExecutionErrorKind::PermissionAlreadyConsumed(id)),
            !self.consumed_permissions@.contains(id.0) ==> match r {
                Ok(p) => self.values@.contains_key(id.0) && self.values@[id.0] == VirRuntimeValue::Permission(p),
                Err(e) => e.spec_kind() == VirExecutionErrorKind::InvalidRuntimeState
                    && !(self.values@.contains_key(id.0) && self.values@[id.0] is Permission),
            },
    {
        if self.consumed_permissions.contains(&id.0) {
            return Err(error(VirExecutionErrorKind::PermissionAlreadyConsumed(id), source_span));
        }
        match self.value(id, source_span)? {
            VirRuntimeValue::Permission(p) => Ok(*p),
            _ => Err(error(VirExecutionErrorKind::InvalidRuntimeState, source_span)),
        }
    }

    /// Takes the permission under `id`; it cannot be used again in this block.
    pub fn consume_permission(&mut self, id: VirValueId, source_span: ByteSpan) -> (r: Result<VirRuntimePermission, VirExecutionError>)
        ensures
            final(self).values@ == old(self).values@,
            final(self).loan_authorities@ == old(self).loan_authorities@,
            r is Ok <==> (!old(self).consumed_permissions@.contains(id.0) && old(self).values@.contains_key(id.0)
                && old(self).values@[id.0] is Permission),
            match r {
                Ok(p) => !old(self).consumed_permissions@.contains(id.0) && old(self).values@.contains_key(id.0)
                    && old(self).values@[id.0] == VirRuntimeValue::Permission(p)
                    && final(self).consumed_permissions@ == old(self).consumed_permissions@.insert(id.0),
                Err(_) => final(self).consumed_permissions@ == old(self).consumed_permissions@,
            },
    {
        let permission = self.permission(id, source_span)?;
        self.consumed_permissions.insert(id.0);
        Ok(permission)
    }

    /// The loan authority of an unconsumed value.
    pub fn loan_authority(&self, id: VirValueId) -> (r: Option<RuntimeLoanAuthority>)
        ensures
            r == (if !self.consumed_permissions@.contains(id.0) && self.loan_authorities@.contains_key(id.0) {
                Some(self.loan_authorities@[id.0])
            } else {
                None
            }),
    {
        if self.consumed_permissions.contains(&id.0) {
            return None;
        }
        match self.loan_authorities.get(&id.0) {
            Some(a) => Some(*a),
            None => None,
        }
    }

    pub fn set_loan_authority(&mut self, id: VirValueId, authority: RuntimeLoanAuthority)
        ensures
            final(self).loan_authorities@ == old(self).loan_authorities@.insert(id.0, authority),
            final(self).values@ == old(self).values@,
            final(self).consumed_permissions@ == old(self).consumed_permissions@,
    {
        self.loan_authorities.insert(id.0, authority);
    }
}

/// A runtime value inhabits a declared VIR type.
pub open spec fn spec_runtime_matches_type(value: VirRuntimeValue, ty: VirType) -> bool {
    match (value, ty) {
        (VirRuntimeValue::U64(_), VirType::U64) => true,
        (VirRuntimeValue::Bool(_), VirType::Bool) => true,
        (VirRuntimeValue::Permission(_), VirType::Permission) => true,
        (VirRuntimeValue::Pointer(p), VirType::Pointer { access }) => p.access == access,
        _ => false,
    }
}

pub fn runtime_matches_type(value: &VirRuntimeValue, ty: VirType) -> (r: bool)
    ensures
        r == spec_runtime_matches_type(*value, ty),
{
    match (value, ty) {
        (VirRuntimeValue::U64(_), VirType::U64) => true,
        (VirRuntimeValue::Bool(_), VirType::Bool) => true,
        (VirRuntimeValue::Permission(_), VirType::Permission) => true,
        (VirRuntimeValue::Pointer(p), VirType::Pointer { access }) => p.access.ty.0 == access.ty.0 && p.access.layout.0 == access.layout.0,
        _ => false,
    }
}

/// Every value inhabits the type at the same position.
pub fn runtime_values_match(values: &[VirRuntimeValue], types: &[VirType]) -> (r: bool)
    ensures
        r == (values@.len() == types@.len() && forall|i: int| 0 <= i < values@.len() ==> spec_runtime_matches_type(#[trigger] values@[i], types@[i])),
{
    if values.len() != types.len() {
        return false;
    }
    let mut i: usize = 0;
    while i < values.len()
        invariant
            0 <= i <= values@.len(),
            values@.len() == types@.len(),
            forall|j: int| 0 <= j < i ==> spec_runtime_matches_type(#[trigger] values@[j], types@[j]),
        decreases values.len() - i,
    {
        if !runtime_matches_type(&values[i], types[i]) {
            return false;
        }
        i = i + 1;
    }
    true
}

impl BlockFrame {
    /// Defines `declaration` as `value`; a mistyped or already defined value
    /// is an invalid runtime state (a defined one is overwritten first).
    pub fn insert(&mut self, declaration: VirValue, value: VirRuntimeValue, source_span: ByteSpan) -> (r: Result<(), VirExecutionError>)
        ensures
            final(self).consumed_permissions@ == old(self).consumed_permissions@,
            final(self).loan_authorities@ == old(self).loan_authorities@,
            !spec_runtime_matches_type(value, declaration.ty) ==> final(self).values@ == old(self).values@,
            !spec_runtime_matches_type(value, declaration.ty) ==> (r matches Err(e) && e.spec_kind() == VirExecutionErrorKind::InvalidRuntimeState),
            spec_runtime_matches_type(value, declaration.ty) ==> final(self).values@ == old(self).values@.insert(declaration.id.0, value)
                && (r is Ok <==> !old(self).values@.contains_key(declaration.id.0))
                && (r matches Err(e) ==> e.spec_kind() == VirExecutionErrorKind::InvalidRuntimeState),
    {
        if !runtime_matches_type(&value, declaration.ty) {
            return Err(error(VirExecutionErrorKind::InvalidRuntimeState, source_span));
        }
        match self.values.insert(declaration.id.0, value) {
            Some(_) => Err(error(VirExecutionErrorKind::InvalidRuntimeState, source_span)),
            None => Ok(()),
        }
    }
}

/// The pointer held under `id`.
pub fn pointer_value(frame: &BlockFrame, id: VirValueId, source_span: ByteSpan) -> (r: Result<VirRuntimePointer, VirExecutionError>)
    ensures
        match r {
            Ok(p) => frame_pointer(frame, id) == Some(p),
            Err(e) => frame_pointer(frame, id) is None && e.spec_kind() == VirExecutionErrorKind::InvalidRuntimeState,
        },
{
    match frame.value(id, source_span)? {
        VirRuntimeValue::Pointer(p) => Ok(*p),
        _ => Err(error(VirExecutionErrorKind::InvalidRuntimeState, source_span)),
    }
}

/// The word held under `id`.
pub fn word_value(frame: &BlockFrame, id: VirValueId, source_span: ByteSpan) -> (r: Result<u64, VirExecutionError>)
    ensures
        match r {
            Ok(w) => frame.values@.contains_key(id.0) && frame.values@[id.0] == VirRuntimeValue::U64(w),
            Err(e) => !(frame.values@.contains_key(id.0) && frame.values@[id.0] is U64)
                && e.spec_kind() == VirExecutionErrorKind::InvalidRuntimeState,
        },
{
    match frame.value(id, source_span)? {
        VirRuntimeValue::U64(w) => Ok(*w),
        _ => Err(error(VirExecutionErrorKind::InvalidRuntimeState, source_span)),
    }
}

/// The boolean held under `id`.
pub fn bool_value(frame: &BlockFrame, id: VirValueId, source_span: ByteSpan) -> (r: Result<bool, VirExecutionError>)
    ensures
        match r {
            Ok(b) => frame.values@.contains_key(id.0) && frame.values@[id.0] == VirRuntimeValue::Bool(b),
            Err(e) => !(frame.values@.contains_key(id.0) && frame.values@[id.0] is Bool)
                && e.spec_kind() == VirExecutionErrorKind::InvalidRuntimeState,
        },
{
    match frame.value(id, source_span)? {
        VirRuntimeValue::Bool(b) => Ok(*b),
        _ => Err(error(VirExecutionErrorKind::InvalidRuntimeState, source_span)),
    }
}

/// The permission covers byte `x` of its allocation.
pub open spec fn permits_byte(p: VirRuntimePermission, x: int) -> bool {
    p.start_bytes <= x < p.end_bytes
}

/// Joins two adjacent permissions of one allocation into one.
pub open spec fn spec_join_permissions(left: VirRuntimePermission, right: VirRuntimePermission) -> Option<VirRuntimePermission> {
    if left.allocation != right.allocation || left.can_free_when_complete != right.can_free_when_complete {
        None
    } else if left.end_bytes == right.start_bytes {
        Some(VirRuntimePermission { start_bytes: left.start_bytes, end_bytes: right.end_bytes, ..left })
    } else if right.end_bytes == left.start_bytes {
        Some(VirRuntimePermission { start_bytes: right.start_bytes, end_bytes: left.end_bytes, ..left })
    } else {
        None
    }
}

pub fn join_permissions(left: VirRuntimePermission, right: VirRuntimePermission) -> (r: Option<VirRuntimePermission>)
    ensures
        r == spec_join_permissions(left, right),
{
    if left.allocation != right.allocation || left.can_free_when_complete != right.can_free_when_complete {
        return None;
    }
    let (start_bytes, end_bytes) = if left.end_bytes == right.start_bytes {
        (left.start_bytes, right.end_bytes)
    } else if right.end_bytes == left.start_bytes {
        (right.start_bytes, left.end_bytes)
    } else {
        return None;
    };
    Some(VirRuntimePermission {
        allocation: left.allocation,
        start_bytes,
        end_bytes,
        can_free_when_complete: left.can_free_when_complete,
    })
}

/// Joining is symmetric: the order of the two halves does not matter.
pub proof fn lemma_join_permissions_symmetric(left: VirRuntimePermission, right: VirRuntimePermission)
    requires
        left.start_bytes <= left.end_bytes,
        right.start_bytes <= right.end_bytes,
        left.start_bytes < left.end_bytes || right.start_bytes < right.end_bytes,
    ensures
        spec_join_permissions(left, right) == spec_join_permissions(right, left),
{
}

/// A join covers exactly the union of the two adjacent halves.
pub proof fn lemma_join_permissions_covers(left: VirRuntimePermission, right: VirRuntimePermission)
    requires
        left.start_bytes <= left.end_bytes,
        right.start_bytes <= right.end_bytes,
        spec_join_permissions(left, right) is Some,
    ensures
        ({
            let j = spec_join_permissions(left, right).unwrap();
            &&& j.allocation == left.allocation
            &&& j.start_bytes <= j.end_bytes
            &&& j.end_bytes - j.start_bytes == (left.end_bytes - left.start_bytes) + (right.end_bytes - right.start_bytes)
            &&& forall|x: int| #[trigger] permits_byte(j, x) <==> (permits_byte(left, x) || permits_byte(right, x))
        }),
{
}

/// Interpreter state: limits, step count, identities and allocations.
pub struct Interpreter {
    pub config: VirInterpreterConfig,
    pub steps: u64,
    pub allocation_instances: RuntimeInstanceSequence,
    pub allocations: BTreeMap<u64, Allocation>,
    pub trace: Vec<VirTraceEvent>,
}

/// The arithmetic range a domain denotes inside an allocation of `size` bytes.
pub open spec fn domain_range(domain: VirPointerDomain<VirLoanRange>, size: u64) -> Option<VirLoanRange> {
    match domain {
        VirPointerDomain::Allocation => Some(VirLoanRange { start_bytes: 0, end_bytes: size }),
        VirPointerDomain::Restricted(r) => Some(r),
        VirPointerDomain::Unknown => None,
    }
}

/// A well-formed domain inside the allocation admits `[start, end)`.
pub open spec fn domain_admits(domain: VirPointerDomain<VirLoanRange>, size: u64, start: u64, end: u64) -> bool {
    domain_range(domain, size) matches Some(r) && r.end_bytes <= size && r.start_bytes <= start && start <= end
        && end <= r.end_bytes
}

impl Interpreter {
    pub fn new(config: VirInterpreterConfig) -> (r: Self)
        ensures
            r.config == config,
            r.steps == 0,
            r.allocation_instances.next == 0,
            r.allocations@ == Map::<u64, Allocation>::empty(),
            r.trace@.len() == 0,
    {
        Interpreter {
            config,
            steps: 0,
            allocation_instances: RuntimeInstanceSequence { next: 0 },
            allocations: BTreeMap::new(),
            trace: Vec::new(),
        }
    }

    /// The live allocation `id`, or the fault that using it raises.
    pub open spec fn spec_liveness(&self, id: u64) -> Result<Allocation, VirExecutionErrorKind> {
        if !self.allocations@.contains_key(id) {
            Err(VirExecutionErrorKind::InvalidRuntimeState)
        } else if self.allocations@[id].live {
            Ok(self.allocations@[id])
        } else {
            match self.allocations@[id].kind {
                RuntimeAllocationKind::Heap => Err(VirExecutionErrorKind::UseAfterFree { allocation: id }),
                RuntimeAllocationKind::LocalStorage => Err(VirExecutionErrorKind::UseAfterLifetimeEnd { allocation: id }),
            }
        }
    }

    /// The fault that freeing allocation `id` raises, if any.
    pub open spec fn spec_free_fault(&self, id: u64) -> Option<VirExecutionErrorKind> {
        if !self.allocations@.contains_key(id) {
            Some(VirExecutionErrorKind::InvalidRuntimeState)
        } else if self.allocations@[id].live {
            None
        } else {
            match self.allocations@[id].kind {
                RuntimeAllocationKind::Heap => Some(VirExecutionErrorKind::DoubleFree { allocation: id }),
                RuntimeAllocationKind::LocalStorage => Some(VirExecutionErrorKind::UseAfterLifetimeEnd { allocation: id }),
            }
        }
    }

    /// The live allocation `allocation_id`; a retired one faults by its kind.
    pub fn live_allocation(&self, allocation_id: u64, source_span: ByteSpan) -> (r: Result<&Allocation, VirExecutionError>)
        ensures
            match (r, self.spec_liveness(allocation_id)) {
                (Ok(a), Ok(b)) => *a == b,
                (Err(e), Err(k)) => e.spec_kind() == k && e.spec_source_span() == source_span,
                _ => false,
            },
    {
        let allocation = match self.allocations.get(&allocation_id) {
            Some(a) => a,
            None => return Err(error(VirExecutionErrorKind::InvalidRuntimeState, source_span)),
        };
        if !allocation.live {
            let kind = match allocation.kind {
                RuntimeAllocationKind::Heap => VirExecutionErrorKind::UseAfterFree { allocation: allocation_id },
                RuntimeAllocationKind::LocalStorage => VirExecutionErrorKind::UseAfterLifetimeEnd { allocation: allocation_id },
            };
            return Err(error(kind, source_span));
        }
        Ok(allocation)
    }

    /// Faults unless allocation `allocation_id` is live; a retired heap
    /// allocation reports a double free.
    pub fn ensure_not_freed(&self, allocation_id: u64, source_span: ByteSpan) -> (r: Result<(), VirExecutionError>)
        ensures
            match self.spec_free_fault(allocation_id) {
                None => r is Ok,
                Some(k) => r matches Err(e) && e.spec_kind() == k && e.spec_source_span() == source_span,
            },
    {
        let allocation = match self.allocations.get(&allocation_id) {
            Some(a) => a,
            None => return Err(error(VirExecutionErrorKind::InvalidRuntimeState, source_span)),
        };
        if !allocation.live {
            let kind = match allocation.kind {
                RuntimeAllocationKind::Heap => VirExecutionErrorKind::DoubleFree { allocation: allocation_id },
                RuntimeAllocationKind::LocalStorage => VirExecutionErrorKind::UseAfterLifetimeEnd { allocation: allocation_id },
            };
            return Err(error(kind, source_span));
        }
        Ok(())
    }

    /// The pointer's domain is admissible in its live allocation and admits `[start, end)`.
    pub open spec fn spec_domain_ok(&self, pointer: VirRuntimePointer, start: u64, end: u64) -> bool {
        self.spec_liveness(pointer.allocation) matches Ok(a) && domain_admits(pointer.domain, a.size_bytes, start, end)
    }

    /// The fault that checking `pointer`'s domain over `[start, end)` raises:
    /// the liveness fault of its allocation, else a domain violation.
    pub open spec fn spec_domain_fault(&self, pointer: VirRuntimePointer, start: u64, end: u64) -> Option<VirExecutionErrorKind> {
        if self.spec_domain_ok(pointer, start, end) {
            None
        } else {
            match self.spec_liveness(pointer.allocation) {
                Err(k) => Some(k),
                Ok(_) => Some(VirExecutionErrorKind::PointerDomainViolation { allocation: pointer.allocation, start_bytes: start, end_bytes: end }),
            }
        }
    }

    /// The fault that relating `a` and `b` raises: `a`'s domain fault at its
    /// address, then `b`'s, then an incompatible relation.
    pub open spec fn spec_pair_fault(&self, a: VirRuntimePointer, b: VirRuntimePointer) -> Option<VirExecutionErrorKind> {
        if self.spec_domain_fault(a, a.offset_bytes, a.offset_bytes) is Some {
            self.spec_domain_fault(a, a.offset_bytes, a.offset_bytes)
        } else if self.spec_domain_fault(b, b.offset_bytes, b.offset_bytes) is Some {
            self.spec_domain_fault(b, b.offset_bytes, b.offset_bytes)
        } else if !self.spec_related(a, b) {
            Some(VirExecutionErrorKind::PointerRelationIncompatible)
        } else {
            None
        }
    }

    /// Checks the shadow domain itself, not just this query: a corrupted
    /// wider domain must not survive an in-bounds access.
    pub fn check_domain(&self, pointer: VirRuntimePointer, start_bytes: u64, end_bytes: u64, span: ByteSpan) -> (r: Result<(), VirExecutionError>)
        ensures
            r is Ok <==> self.spec_domain_ok(pointer, start_bytes, end_bytes),
            r matches Err(e) ==> match self.spec_liveness(pointer.allocation) {
                Err(k) => e.spec_kind() == k,
                Ok(_) => e.spec_kind() == (VirExecutionErrorKind::PointerDomainViolation { allocation: pointer.allocation, start_bytes, end_bytes }),
            },
    {
        let size = self.live_allocation(pointer.allocation, span)?.size_bytes;
        let ok = match pointer.domain {
            VirPointerDomain::Allocation => start_bytes <= end_bytes && end_bytes <= size,
            VirPointerDomain::Restricted(r) => r.end_bytes <= size && r.start_bytes <= start_bytes && start_bytes <= end_bytes
                && end_bytes <= r.end_bytes,
            VirPointerDomain::Unknown => false,
        };
        if ok {
            Ok(())
        } else {
            Err(error(VirExecutionErrorKind::PointerDomainViolation { allocation: pointer.allocation, start_bytes, end_bytes }, span))
        }
    }

    /// Two pointers may be related (compared, subtracted) exactly when both
    /// domains are valid at their addresses, they share one allocation, a known
    /// domain path and the same numeric domain.
    pub open spec fn spec_related(&self, a: VirRuntimePointer, b: VirRuntimePointer) -> bool {
        &&& a.allocation == b.allocation
        &&& a.paths.domain is Some
        &&& a.paths.domain == b.paths.domain
        &&& domain_range(a.domain, self.allocations@[a.allocation].size_bytes) == domain_range(b.domain, self.allocations@[b.allocation].size_bytes)
    }

    pub fn pointer_pair(&self, frame: &BlockFrame, left: VirValueId, right: VirValueId, span: ByteSpan)
        -> (r: Result<(VirRuntimePointer, VirRuntimePointer), VirExecutionError>)
        ensures
            frame_pointer(frame, left) is None || frame_pointer(frame, right) is None ==> (r matches Err(e)
                && e.spec_kind() == VirExecutionErrorKind::InvalidRuntimeState),
            r is Ok <==> (frame_pointer(frame, left) matches Some(a) && frame_pointer(frame, right) matches Some(b)
                && self.spec_domain_ok(a, a.offset_bytes, a.offset_bytes) && self.spec_domain_ok(b, b.offset_bytes, b.offset_bytes)
                && self.spec_related(a, b)),
            r matches Ok((a, b)) ==> Some(a) == frame_pointer(frame, left) && Some(b) == frame_pointer(frame, right),
            match (frame_pointer(frame, left), frame_pointer(frame, right)) {
                (Some(a), Some(b)) => self.spec_domain_ok(a, a.offset_bytes, a.offset_bytes)
                    && self.spec_domain_ok(b, b.offset_bytes, b.offset_bytes) && !self.spec_related(a, b)
                    ==> (r matches Err(e) && e.spec_kind() == VirExecutionErrorKind::PointerRelationIncompatible),
                _ => true,
            },
            frame_pointer(frame, left) is Some && frame_pointer(frame, right) is Some && !self.spec_domain_ok(frame_pointer(frame, left).unwrap(),
                frame_pointer(frame, left).unwrap().offset_bytes, frame_pointer(frame, left).unwrap().offset_bytes) ==> (r matches Err(e)
                && (e.spec_kind() is PointerDomainViolation || self.spec_liveness(frame_pointer(frame, left).unwrap().allocation) is Err)),
            match (frame_pointer(frame, left), frame_pointer(frame, right)) {
                (Some(a), Some(b)) => match self.spec_pair_fault(a, b) {
                    Some(k) => r matches Err(e) && e.spec_kind() == k,
                    None => r == Ok::<(VirRuntimePointer, VirRuntimePointer), VirExecutionError>((a, b)),
                },
                _ => r matches Err(e) && e.spec_kind() == VirExecutionErrorKind::InvalidRuntimeState,
            },
    {
        let a = pointer_value(frame, left, span)?;
        let b = pointer_value(frame, right, span)?;
        self.check_domain(a, a.offset_bytes, a.offset_bytes, span)?;
        self.check_domain(b, b.offset_bytes, b.offset_bytes, span)?;
        let ra = self.range_of(a);
        let rb = self.range_of(b);
        if a.allocation != b.allocation || a.paths.domain.is_none() || !same_nominal(a.paths.domain, b.paths.domain) || ra != rb {
            return Err(error(VirExecutionErrorKind::PointerRelationIncompatible, span));
        }
        Ok((a, b))
    }

    fn range_of(&self, p: VirRuntimePointer) -> (r: Option<VirLoanRange>)
        requires
            self.allocations@.contains_key(p.allocation),
        ensures
            r == domain_range(p.domain, self.allocations@[p.allocation].size_bytes),
    {
        match p.domain {
            VirPointerDomain::Allocation => match self.allocations.get(&p.allocation) {
                Some(a) => Some(VirLoanRange { start_bytes: 0, end_bytes: a.size_bytes }),
                None => None,
            },
            VirPointerDomain::Restricted(r) => Some(r),
            VirPointerDomain::Unknown => None,
        }
    }

    /// The exact selection `[base + delta, base + delta + size)` as a domain,
    /// admitted by the base pointer's domain.
    pub fn selected_domain(&self, base: VirRuntimePointer, delta: u64, size: u64, span: ByteSpan)
        -> (r: Result<VirPointerDomain<VirLoanRange>, VirExecutionError>)
        ensures
            base.offset_bytes + delta + size > u64::MAX ==> (r matches Err(e) && e.spec_kind() == VirExecutionErrorKind::AddressCalculationOverflow),
            base.offset_bytes + delta + size <= u64::MAX ==> match r {
                Ok(d) => self.spec_domain_ok(base, (base.offset_bytes + delta) as u64, (base.offset_bytes + delta + size) as u64)
                    && d == VirPointerDomain::Restricted(VirLoanRange {
                        start_bytes: (base.offset_bytes + delta) as u64,
                        end_bytes: (base.offset_bytes + delta + size) as u64,
                    }),
                Err(_) => !self.spec_domain_ok(base, (base.offset_bytes + delta) as u64, (base.offset_bytes + delta + size) as u64),
            },
    {
        let start_bytes = match base.offset_bytes.checked_add(delta) {
            Some(v) => v,
            None => return Err(error(VirExecutionErrorKind::AddressCalculationOverflow, span)),
        };
        let end_bytes = match start_bytes.checked_add(size) {
            Some(v) => v,
            None => return Err(error(VirExecutionErrorKind::AddressCalculationOverflow, span)),
        };
        self.check_domain(base, start_bytes, end_bytes, span)?;
        Ok(VirPointerDomain::Restricted(VirLoanRange { start_bytes, end_bytes }))
    }

    /// Retires a whole heap allocation through its complete, freeing permission.
    pub fn free(&mut self, pointer: VirRuntimePointer, permission: VirRuntimePermission, source_span: ByteSpan)
        -> (r: Result<(), VirExecutionError>)
        ensures
            final(self).config == old(self).config,
            final(self).steps == old(self).steps,
            final(self).allocation_instances == old(self).allocation_instances,
            match old(self).spec_liveness(pointer.allocation) {
                Err(k) => r matches Err(e) && e.spec_kind() == k,
                Ok(a) => if permission.allocation != pointer.allocation {
                    r matches Err(e) && e.spec_kind() == (VirExecutionErrorKind::PermissionMismatch {
                        allocation: pointer.allocation, permission_allocation: permission.allocation })
                } else if pointer.offset_bytes != 0 || permission.start_bytes != 0 || permission.end_bytes != a.size_bytes
                    || !permission.can_free_when_complete {
                    r matches Err(e) && e.spec_kind() == (VirExecutionErrorKind::InvalidFree {
                        allocation: pointer.allocation, offset_bytes: pointer.offset_bytes })
                } else if a.resource_payloads@.len() > 0 {
                    r matches Err(e) && e.spec_kind() == (VirExecutionErrorKind::AllocationContainsResourcePayload { allocation: pointer.allocation })
                } else {
                    r is Ok && final(self).allocations@ == old(self).allocations@.insert(pointer.allocation, Allocation { live: false, ..a })
                },
            },
            r is Err ==> final(self).allocations@ == old(self).allocations@,
    {
        let (size, empty) = {
            let allocation = self.live_allocation(pointer.allocation, source_span)?;
            (allocation.size_bytes, allocation.resource_payloads.is_empty())
        };
        if permission.allocation != pointer.allocation {
            return Err(error(VirExecutionErrorKind::PermissionMismatch {
                allocation: pointer.allocation,
                permission_allocation: permission.allocation,
            }, source_span));
        }
        if pointer.offset_bytes != 0 || permission.start_bytes != 0 || permission.end_bytes != size || !permission.can_free_when_complete {
            return Err(error(VirExecutionErrorKind::InvalidFree { allocation: pointer.allocation, offset_bytes: pointer.offset_bytes }, source_span));
        }
        if !empty {
            return Err(error(VirExecutionErrorKind::AllocationContainsResourcePayload { allocation: pointer.allocation }, source_span));
        }
        match self.allocations.remove(&pointer.allocation) {
            Some(mut a) => {
                a.live = false;
                self.allocations.insert(pointer.allocation, a);
                proof {
                    assert(self.allocations@ =~= old(self).allocations@.insert(pointer.allocation, Allocation { live: false, ..old(self).allocations@[pointer.allocation] }));
                }
                Ok(())
            },
            None => Err(error(VirExecutionErrorKind::InvalidRuntimeState, source_span)),
        }
    }

    /// Charges one execution step against the configured budget.
    pub fn charge_step(&mut self, source_span: ByteSpan) -> (r: Result<(), VirExecutionError>)
        ensures
            old(self).steps >= old(self).config.max_steps ==> (r matches Err(e) && e.spec_kind() == VirExecutionErrorKind::StepLimitExceeded
                && final(self).steps == old(self).steps),
            old(self).steps < old(self).config.max_steps ==> (r is Ok && final(self).steps == old(self).steps + 1),
            final(self).config == old(self).config,
            final(self).allocations@ == old(self).allocations@,
    {
        if self.steps >= self.config.max_steps {
            return Err(error(VirExecutionErrorKind::StepLimitExceeded, source_span));
        }
        self.steps = self.steps + 1;
        Ok(())
    }

    /// Rejects object effects larger than the configured limit.
    pub fn check_object_effect_size(&self, size_bytes: u64, source_span: ByteSpan) -> (r: Result<(), VirExecutionError>)
        ensures
            r is Ok <==> size_bytes <= self.config.max_object_effect_bytes,
            r matches Err(e) ==> e.spec_kind() == (VirExecutionErrorKind::ObjectEffectSizeLimitExceeded {
                requested: size_bytes, limit: self.config.max_object_effect_bytes }),
    {
        if size_bytes > self.config.max_object_effect_bytes {
            return Err(error(VirExecutionErrorKind::ObjectEffectSizeLimitExceeded {
                requested: size_bytes,
                limit: self.config.max_object_effect_bytes,
            }, source_span));
        }
        Ok(())
    }
}

/// Little-endian value of a byte string.
pub open spec fn le_value(s: Seq<u8>) -> nat
    decreases s.len(),
{
    if s.len() == 0 {
        0
    } else {
        (s[0] + 256 * le_value(s.drop_first())) as nat
    }
}

/// Big-endian value of a byte string.
pub open spec fn be_value(s: Seq<u8>) -> nat
    decreases s.len(),
{
    if s.len() == 0 {
        0
    } else {
        (be_value(s.drop_last()) * 256 + s.last()) as nat
    }
}

pub open spec fn pow256(n: nat) -> nat
    decreases n,
{
    if n == 0 {
        1
    } else {
        256 * pow256((n - 1) as nat)
    }
}

pub open spec fn all_zero(s: Seq<u8>) -> bool {
    forall|i: int| 0 <= i < s.len() ==> #[trigger] s[i] == 0
}

/// A tag or word decoded from `bytes`: the eight least significant bytes in
/// the target's byte order, provided every more significant byte is zero.
pub open spec fn spec_decode_u64(bytes: Seq<u8>, endianness: VirEndianness) -> Option<u64> {
    match endianness {
        VirEndianness::Little => if bytes.len() > 8 && !all_zero(bytes.subrange(8, bytes.len() as int)) {
            None
        } else {
            Some(le_value(bytes.take(if bytes.len() < 8 { bytes.len() as int } else { 8 })) as u64)
        },
        VirEndianness::Big => {
            let start: int = if bytes.len() > 8 { bytes.len() - 8 } else { 0 };
            if !all_zero(bytes.take(start)) {
                None
            } else {
                Some(be_value(bytes.skip(start)) as u64)
            }
        },
    }
}

proof fn lemma_le_value_bound(s: Seq<u8>)
    ensures
        le_value(s) < pow256(s.len()),
    decreases s.len(),
{
    if s.len() > 0 {
        lemma_le_value_bound(s.drop_first());
    }
}

proof fn lemma_be_value_bound(s: Seq<u8>)
    ensures
        be_value(s) < pow256(s.len()),
    decreases s.len(),
{
    if s.len() > 0 {
        lemma_be_value_bound(s.drop_last());
    }
}

proof fn lemma_pow256_facts()
    ensures
        pow256(7) == 0x100_0000_0000_0000,
        pow256(8) == 0x1_0000_0000_0000_0000,
        forall|n: nat| n <= 8 ==> #[trigger] pow256(n) <= 0x1_0000_0000_0000_0000,
        forall|n: nat| n <= 7 ==> #[trigger] pow256(n) <= 0x100_0000_0000_0000,
{
    reveal_with_fuel(pow256, 9);
    assert forall|n: nat| n <= 8 implies #[trigger] pow256(n) <= 0x1_0000_0000_0000_0000 by {
        reveal_with_fuel(pow256, 9);
    }
    assert forall|n: nat| n <= 7 implies #[trigger] pow256(n) <= 0x100_0000_0000_0000 by {
        reveal_with_fuel(pow256, 9);
    }
}

pub fn decode_u64(bytes: &[u8], endianness: VirEndianness) -> (r: Option<u64>)
    ensures
        r == spec_decode_u64(bytes@, endianness),
{
    proof {
        lemma_pow256_facts();
    }
    let n = bytes.len();
    match endianness {
        VirEndianness::Little => {
            let mut j: usize = 8;
            while j < n
                invariant
                    8 <= j <= n || (n < 8 && j == 8),
                    n == bytes@.len(),
                    endianness == VirEndianness::Little,
                    forall|k: int| 8 <= k < j ==> bytes@[k] == 0,
                decreases n - j,
            {
                if bytes[j] != 0 {
                    proof {
                        assert(bytes@.subrange(8, n as int)[j - 8] != 0);
                        assert(!all_zero(bytes@.subrange(8, n as int)));
                    }
                    return None;
                }
                j = j + 1;
            }
            proof {
                if n > 8 {
                    assert(all_zero(bytes@.subrange(8, n as int)));
                }
            }
            let k: usize = if n < 8 { n } else { 8 };
            let ghost prefix = bytes@.take(k as int);
            let mut value: u64 = 0;
            let mut i: usize = k;
            while i > 0
                invariant
                    0 <= i <= k <= 8,
                    k <= bytes@.len(),
                    prefix == bytes@.take(k as int),
                    value == le_value(prefix.subrange(i as int, k as int)),
                decreases i,
            {
                i = i - 1;
                proof {
                    let t = prefix.subrange(i as int, k as int);
                    assert(t.drop_first() == prefix.subrange(i + 1, k as int));
                    assert(t[0] == bytes@[i as int]);
                    lemma_le_value_bound(prefix.subrange(i + 1, k as int));
                    lemma_pow256_facts();
                    assert(pow256((k - i - 1) as nat) <= 0x100_0000_0000_0000);
                }
                value = value * 256 + bytes[i] as u64;
            }
            proof {
                assert(prefix.subrange(0, k as int) == prefix);
            }
            Some(value)
        },
        VirEndianness::Big => {
            let start: usize = if n > 8 { n - 8 } else { 0 };
            let mut j: usize = 0;
            while j < start
                invariant
                    0 <= j <= start <= n,
                    n == bytes@.len(),
                    endianness == VirEndianness::Big,
                    start == (if n > 8 { n - 8 } else { 0 }),
                    forall|k: int| 0 <= k < j ==> bytes@[k] == 0,
                decreases start - j,
            {
                if bytes[j] != 0 {
                    proof {
                        assert(bytes@.take(start as int)[j as int] != 0);
                        assert(!all_zero(bytes@.take(start as int)));
                    }
                    return None;
                }
                j = j + 1;
            }
            proof {
                assert(all_zero(bytes@.take(start as int)));
            }
            let ghost tail = bytes@.skip(start as int);
            let mut value: u64 = 0;
            let mut i: usize = start;
            while i < n
                invariant
                    start <= i <= n,
                    n == bytes@.len(),
                    n - start <= 8,
                    tail == bytes@.skip(start as int),
                    value == be_value(tail.take(i - start)),
                decreases n - i,
            {
                proof {
                    let t = tail.take(i - start + 1);
                    assert(t.drop_last() == tail.take(i - start));
                    assert(t.last() == bytes@[i as int]);
                    lemma_be_value_bound(tail.take(i - start));
                    lemma_pow256_facts();
                    assert(pow256((i - start) as nat) <= 0x100_0000_0000_0000);
                }
                value = value * 256 + bytes[i] as u64;
                i = i + 1;
            }
            proof {
                assert(tail.take(n - start) == tail);
            }
            Some(value)
        },
    }
}

/// Every byte of `[start, start + size)` is initialized in `bytes`.
pub open spec fn run_initialized(bytes: Map<u64, u8>, start: u64, size: u64) -> bool {
    &&& start + size <= u64::MAX + 1
    &&& forall|o: u64| start <= o < start + size ==> #[trigger] bytes.contains_key(o)
}

/// What reading `size` initialized bytes of `bytes` from `start` on gives:
/// the first missing byte faults as an uninitialized read (or object leaf),
/// and a run past the end of the address space or longer than `usize` is
/// refused.
pub open spec fn initialized_read(
    bytes: Map<u64, u8>,
    allocation_id: u64,
    start: u64,
    size: u64,
    access: VirMemoryAccess,
    object_leaf: bool,
) -> Result<Seq<u8>, VirExecutionErrorKind> {
    if size > usize::MAX {
        Err(VirExecutionErrorKind::InvalidRuntimeState)
    } else {
        match first_offset(bytes, start, size, false) {
            Some(o) => Err(
                if object_leaf {
                    VirExecutionErrorKind::UninitializedObjectLeaf { allocation: allocation_id, offset_bytes: o, access }
                } else {
                    VirExecutionErrorKind::UninitializedRead { allocation: allocation_id, offset_bytes: o }
                },
            ),
            None => if start + size > u64::MAX + 1 {
                Err(VirExecutionErrorKind::InvalidRuntimeState)
            } else {
                Ok(bytes_at(bytes, start, size as nat))
            },
        }
    }
}

/// The `size_bytes` initialized bytes of `allocation` from `start_bytes` on;
/// the first missing byte faults as an uninitialized read (or object leaf).
pub fn read_initialized_bytes(
    allocation: &Allocation,
    allocation_id: u64,
    start_bytes: u64,
    size_bytes: u64,
    access: VirMemoryAccess,
    object_leaf: bool,
    source_span: ByteSpan,
) -> (r: Result<Vec<u8>, VirExecutionError>)
    ensures
        match initialized_read(allocation.bytes@, allocation_id, start_bytes, size_bytes, access, object_leaf) {
            Ok(s) => r matches Ok(v) && v@ == s,
            Err(k) => r matches Err(e) && e.spec_kind() == k,
        },
        match r {
            Ok(v) => v@.len() == size_bytes && run_initialized(allocation.bytes@, start_bytes, size_bytes)
                && forall|o: u64| start_bytes <= o < start_bytes + size_bytes ==> v@[o - start_bytes] == #[trigger] allocation.bytes@[o],
            Err(e) => e.spec_kind() == VirExecutionErrorKind::InvalidRuntimeState || (exists|o: u64| start_bytes <= o < start_bytes + size_bytes
                && !#[trigger] allocation.bytes@.contains_key(o)
                && e.spec_kind() == (if object_leaf {
                    VirExecutionErrorKind::UninitializedObjectLeaf { allocation: allocation_id, offset_bytes: o, access }
                } else {
                    VirExecutionErrorKind::UninitializedRead { allocation: allocation_id, offset_bytes: o }
                })),
        },
        run_initialized(allocation.bytes@, start_bytes, size_bytes) && size_bytes <= usize::MAX ==> r is Ok,
{
    if size_bytes > usize::MAX as u64 {
        return Err(error(VirExecutionErrorKind::InvalidRuntimeState, source_span));
    }
    let mut bytes: Vec<u8> = Vec::new();
    let mut relative: u64 = 0;
    while relative < size_bytes
        invariant
            relative <= size_bytes,
            size_bytes <= usize::MAX,
            bytes@.len() == relative,
            start_bytes + relative <= u64::MAX + 1,
            forall|o: u64|
                #![trigger allocation.bytes@.contains_key(o)]
                #![trigger allocation.bytes@[o]]
                start_bytes <= o < start_bytes + relative ==> allocation.bytes@.contains_key(o)
                && bytes@[o - start_bytes] == allocation.bytes@[o],
        decreases size_bytes - relative,
    {
        let offset_bytes = match start_bytes.checked_add(relative) {
            Some(o) => o,
            None => {
                proof {
                    assert(!run_initialized(allocation.bytes@, start_bytes, size_bytes));
                    assert(first_offset(allocation.bytes@, start_bytes, size_bytes, false) is None) by {
                        if exists|o: u64| start_bytes <= o < start_bytes + size_bytes && #[trigger] allocation.bytes@.contains_key(o) == false {
                            let o = choose|o: u64| start_bytes <= o < start_bytes + size_bytes && #[trigger] allocation.bytes@.contains_key(o) == false;
                            assert(o < start_bytes + relative);
                        }
                    }
                }
                return Err(error(VirExecutionErrorKind::InvalidRuntimeState, source_span));
            },
        };
        match allocation.bytes.get(&offset_bytes) {
            Some(b) => {
                let ghost before = bytes@;
                bytes.push(*b);
                proof {
                    assert forall|o: u64| start_bytes <= o < start_bytes + relative + 1 implies #[trigger] allocation.bytes@.contains_key(o)
                        && bytes@[o - start_bytes] == allocation.bytes@[o] by {
                        if o < offset_bytes {
                            assert(bytes@[o - start_bytes] == before[o - start_bytes]);
                        }
                    }
                }
            },
            None => {
                let kind = if object_leaf {
                    VirExecutionErrorKind::UninitializedObjectLeaf { allocation: allocation_id, offset_bytes, access }
                } else {
                    VirExecutionErrorKind::UninitializedRead { allocation: allocation_id, offset_bytes }
                };
                proof {
                    assert(!allocation.bytes@.contains_key(offset_bytes));
                    let w = choose|q: u64|
                        start_bytes <= q < start_bytes + size_bytes && #[trigger] allocation.bytes@.contains_key(q) == false && forall|p: u64|
                            start_bytes <= p < q ==> #[trigger] allocation.bytes@.contains_key(p) != false;
                    assert(start_bytes <= offset_bytes < start_bytes + size_bytes && allocation.bytes@.contains_key(offset_bytes) == false
                        && forall|p: u64| start_bytes <= p < offset_bytes ==> #[trigger] allocation.bytes@.contains_key(p) != false);
                    if w < offset_bytes {
                        assert(allocation.bytes@.contains_key(w));
                    } else if offset_bytes < w {
                        assert(!allocation.bytes@.contains_key(offset_bytes));
                    }
                    assert(first_offset(allocation.bytes@, start_bytes, size_bytes, false) == Some(offset_bytes));
                }
                return Err(error(kind, source_span));
            },
        }
        relative = relative + 1;
    }
    proof {
        assert(first_offset(allocation.bytes@, start_bytes, size_bytes, false) is None) by {
            if exists|o: u64| start_bytes <= o < start_bytes + size_bytes && #[trigger] allocation.bytes@.contains_key(o) == false {
                let o = choose|o: u64| start_bytes <= o < start_bytes + size_bytes && #[trigger] allocation.bytes@.contains_key(o) == false;
                assert(allocation.bytes@.contains_key(o));
            }
        }
        assert(bytes@ =~= bytes_at(allocation.bytes@, start_bytes, size_bytes as nat));
    }
    Ok(bytes)
}

/// Whether two `size_bytes` ranges at `left` and `right` overlap; an end past
/// `u64` counts as overlapping.
/// `a + b`, where it fits in a `u64`.
pub open spec fn checked_end(a: u64, b: u64) -> Option<u64> {
    if a + b <= u64::MAX {
        Some((a + b) as u64)
    } else {
        None
    }
}

pub fn half_open_ranges_overlap(left: u64, right: u64, size_bytes: u64) -> (r: bool)
    ensures
        r == (left + size_bytes > u64::MAX || right + size_bytes > u64::MAX || (left < right + size_bytes && right < left + size_bytes)),
{
    let left_end = match left.checked_add(size_bytes) {
        Some(e) => e,
        None => return true,
    };
    let right_end = match right.checked_add(size_bytes) {
        Some(e) => e,
        None => return true,
    };
    left < right_end && right < left_end
}

/// The enum case whose tag disagrees with a variant a path requires.
#[derive(Clone, Copy, Debug, PartialEq, Eq, Structural)]
pub struct RuntimeInactiveVariant {
    pub enum_access: VirMemoryAccess,
    pub active: VirVariantId,
    pub required: VirVariantId,
}

/// `x` is a multiple of `alignment` (only zero is a multiple of zero).
pub open spec fn is_multiple_of(x: u64, alignment: u64) -> bool {
    if alignment == 0 {
        x == 0
    } else {
        x % alignment == 0
    }
}

pub fn multiple_of(x: u64, alignment: u64) -> (r: bool)
    ensures
        r == is_multiple_of(x, alignment),
{
    if alignment == 0 {
        x == 0
    } else {
        x % alignment == 0
    }
}

/// The fault of a typed access through `pointer` and `permission`, if any.
pub open spec fn spec_access_fault(
    interp: &Interpreter,
    memory: VirMemorySchema,
    pointer: VirRuntimePointer,
    permission: VirRuntimePermission,
    access: VirMemoryAccess,
) -> Option<VirExecutionErrorKind> {
    if pointer.access != access {
        Some(VirExecutionErrorKind::AddressTypeMismatch { found: pointer.access, expected: access })
    } else {
        match memory.spec_layout(access.layout) {
            None => Some(VirExecutionErrorKind::InvalidRuntimeState),
            Some(l) => if l.ty != access.ty {
                Some(VirExecutionErrorKind::InvalidRuntimeState)
            } else {
                match interp.spec_liveness(pointer.allocation) {
                    Err(k) => Some(k),
                    Ok(a) => if a.alignment < l.alignment || !is_multiple_of(pointer.offset_bytes, l.alignment) {
                        Some(VirExecutionErrorKind::MisalignedAccess {
                            allocation: pointer.allocation,
                            offset_bytes: pointer.offset_bytes,
                            required_alignment: l.alignment,
                        })
                    } else if pointer.offset_bytes + l.size_bytes > a.size_bytes {
                        Some(VirExecutionErrorKind::OutOfBoundsAccess {
                            allocation: pointer.allocation,
                            offset_bytes: pointer.offset_bytes,
                            access_bytes: l.size_bytes,
                            size_bytes: a.size_bytes,
                        })
                    } else if permission.allocation != pointer.allocation {
                        Some(VirExecutionErrorKind::PermissionMismatch { allocation: pointer.allocation, permission_allocation: permission.allocation })
                    } else if pointer.offset_bytes < permission.start_bytes || pointer.offset_bytes + l.size_bytes > permission.end_bytes {
                        Some(VirExecutionErrorKind::PermissionOutOfRange {
                            start_bytes: permission.start_bytes,
                            end_bytes: permission.end_bytes,
                            access_start_bytes: pointer.offset_bytes,
                            access_end_bytes: (pointer.offset_bytes + l.size_bytes) as u64,
                        })
                    } else if !domain_admits(pointer.domain, a.size_bytes, pointer.offset_bytes, (pointer.offset_bytes + l.size_bytes) as u64) {
                        Some(VirExecutionErrorKind::PointerDomainViolation {
                            allocation: pointer.allocation,
                            start_bytes: pointer.offset_bytes,
                            end_bytes: (pointer.offset_bytes + l.size_bytes) as u64,
                        })
                    } else {
                        None
                    },
                }
            },
        }
    }
}

/// The fault of addressing an object of type `expected` at `pointer`, if any.
pub open spec fn spec_object_address_fault(
    interp: &Interpreter,
    memory: VirMemorySchema,
    pointer: VirRuntimePointer,
    expected: VirMemoryAccess,
) -> Option<VirExecutionErrorKind> {
    if pointer.access != expected || !memory.spec_resolves_access(expected) {
        Some(VirExecutionErrorKind::AddressTypeMismatch { found: pointer.access, expected })
    } else {
        match memory.spec_layout(expected.layout) {
            None => Some(VirExecutionErrorKind::InvalidRuntimeState),
            Some(l) => match interp.spec_liveness(pointer.allocation) {
                Err(k) => Some(k),
                Ok(a) => if a.alignment < l.alignment || !is_multiple_of(pointer.offset_bytes, l.alignment) {
                    Some(VirExecutionErrorKind::MisalignedAccess {
                        allocation: pointer.allocation,
                        offset_bytes: pointer.offset_bytes,
                        required_alignment: l.alignment,
                    })
                } else if pointer.offset_bytes + l.size_bytes > a.size_bytes {
                    Some(VirExecutionErrorKind::AddressOutOfBounds {
                        allocation: pointer.allocation,
                        offset_bytes: pointer.offset_bytes,
                        object_bytes: l.size_bytes,
                        size_bytes: a.size_bytes,
                    })
                } else if !domain_admits(pointer.domain, a.size_bytes, pointer.offset_bytes, (pointer.offset_bytes + l.size_bytes) as u64) {
                    Some(VirExecutionErrorKind::PointerDomainViolation {
                        allocation: pointer.allocation,
                        start_bytes: pointer.offset_bytes,
                        end_bytes: (pointer.offset_bytes + l.size_bytes) as u64,
                    })
                } else {
                    None
                },
            },
        }
    }
}

impl Interpreter {
    /// Checks type, liveness, alignment, bounds, permission and domain of a
    /// typed access, in that order.
    pub fn check_access(
        &self,
        memory: &VirMemorySchema,
        pointer: VirRuntimePointer,
        permission: VirRuntimePermission,
        access: VirMemoryAccess,
        source_span: ByteSpan,
    ) -> (r: Result<(), VirExecutionError>)
        ensures
            match spec_access_fault(self, *memory, pointer, permission, access) {
                None => r is Ok,
                Some(k) => r matches Err(e) && e.spec_kind() == k,
            },
    {
        if pointer.access != access {
            return Err(error(VirExecutionErrorKind::AddressTypeMismatch { found: pointer.access, expected: access }, source_span));
        }
        let layout = match memory.layout(access.layout) {
            Some(l) => l,
            None => return Err(error(VirExecutionErrorKind::InvalidRuntimeState, source_span)),
        };
        if layout.ty != access.ty {
            return Err(error(VirExecutionErrorKind::InvalidRuntimeState, source_span));
        }
        let allocation = self.live_allocation(pointer.allocation, source_span)?;
        if allocation.alignment < layout.alignment || !multiple_of(pointer.offset_bytes, layout.alignment) {
            return Err(error(VirExecutionErrorKind::MisalignedAccess {
                allocation: pointer.allocation,
                offset_bytes: pointer.offset_bytes,
                required_alignment: layout.alignment,
            }, source_span));
        }
        let access_end = match pointer.offset_bytes.checked_add(layout.size_bytes) {
            Some(end) => if end <= allocation.size_bytes {
                end
            } else {
                return Err(error(VirExecutionErrorKind::OutOfBoundsAccess {
                    allocation: pointer.allocation,
                    offset_bytes: pointer.offset_bytes,
                    access_bytes: layout.size_bytes,
                    size_bytes: allocation.size_bytes,
                }, source_span));
            },
            None => return Err(error(VirExecutionErrorKind::OutOfBoundsAccess {
                allocation: pointer.allocation,
                offset_bytes: pointer.offset_bytes,
                access_bytes: layout.size_bytes,
                size_bytes: allocation.size_bytes,
            }, source_span)),
        };
        if permission.allocation != pointer.allocation {
            return Err(error(VirExecutionErrorKind::PermissionMismatch {
                allocation: pointer.allocation,
                permission_allocation: permission.allocation,
            }, source_span));
        }
        if pointer.offset_bytes < permission.start_bytes || access_end > permission.end_bytes {
            return Err(error(VirExecutionErrorKind::PermissionOutOfRange {
                start_bytes: permission.start_bytes,
                end_bytes: permission.end_bytes,
                access_start_bytes: pointer.offset_bytes,
                access_end_bytes: access_end,
            }, source_span));
        }
        self.check_domain(pointer, pointer.offset_bytes, access_end, source_span)
    }

    /// Checks that `pointer` addresses a whole live, aligned, in-bounds object
    /// of type `expected` inside its domain.
    pub fn check_object_address(&self, memory: &VirMemorySchema, pointer: VirRuntimePointer, expected: VirMemoryAccess, source_span: ByteSpan)
        -> (r: Result<(), VirExecutionError>)
        ensures
            match spec_object_address_fault(self, *memory, pointer, expected) {
                None => r is Ok,
                Some(k) => r matches Err(e) && e.spec_kind() == k,
            },
    {
        if pointer.access != expected || !memory.resolves_access(expected) {
            return Err(error(VirExecutionErrorKind::AddressTypeMismatch { found: pointer.access, expected }, source_span));
        }
        let layout = match memory.layout(expected.layout) {
            Some(l) => l,
            None => return Err(error(VirExecutionErrorKind::InvalidRuntimeState, source_span)),
        };
        let allocation = self.live_allocation(pointer.allocation, source_span)?;
        if allocation.alignment < layout.alignment || !multiple_of(pointer.offset_bytes, layout.alignment) {
            return Err(error(VirExecutionErrorKind::MisalignedAccess {
                allocation: pointer.allocation,
                offset_bytes: pointer.offset_bytes,
                required_alignment: layout.alignment,
            }, source_span));
        }
        if pointer.offset_bytes as u128 + layout.size_bytes as u128 > allocation.size_bytes as u128 {
            return Err(error(VirExecutionErrorKind::AddressOutOfBounds {
                allocation: pointer.allocation,
                offset_bytes: pointer.offset_bytes,
                object_bytes: layout.size_bytes,
                size_bytes: allocation.size_bytes,
            }, source_span));
        }
        let end = pointer.offset_bytes + layout.size_bytes;
        self.check_domain(pointer, pointer.offset_bytes, end, source_span)
    }

    /// A pointer to the `result` object `delta_bytes` into the `source` object
    /// at `base`, whose domain is exactly the derived object.
    pub fn derive_address(
        &self,
        memory: &VirMemorySchema,
        base: VirRuntimePointer,
        source: VirMemoryAccess,
        result: VirMemoryAccess,
        delta_bytes: u64,
        source_span: ByteSpan,
    ) -> (r: Result<VirRuntimePointer, VirExecutionError>)
        ensures
            base.access != source ==> (r matches Err(e) && e.spec_kind() == (VirExecutionErrorKind::AddressTypeMismatch { found: base.access, expected: source })),
            r matches Ok(p) ==> (p.allocation == base.allocation && p.offset_bytes == base.offset_bytes + delta_bytes
                && p.access == result && p.view_range is None && p.paths.object is None && p.paths.domain is None
                && spec_object_address_fault(self, *memory, base, source) is None
                && memory.spec_layout(result.layout) is Some && p.domain == VirPointerDomain::Restricted(VirLoanRange {
                    start_bytes: p.offset_bytes,
                    end_bytes: (p.offset_bytes + memory.spec_layout(result.layout).unwrap().size_bytes) as u64,
                })),
    {
        if base.access != source {
            return Err(error(VirExecutionErrorKind::AddressTypeMismatch { found: base.access, expected: source }, source_span));
        }
        self.check_object_address(memory, base, source, source_span)?;
        let offset_bytes = match base.offset_bytes.checked_add(delta_bytes) {
            Some(o) => o,
            None => return Err(error(VirExecutionErrorKind::AddressCalculationOverflow, source_span)),
        };
        let derived = VirRuntimePointer {
            allocation: base.allocation,
            offset_bytes,
            access: result,
            paths: VirPointerPaths { object: None, domain: None },
            view_range: None,
            domain: base.domain,
        };
        self.check_object_address(memory, derived, result, source_span)?;
        let size = match memory.layout(result.layout) {
            Some(l) => l.size_bytes,
            None => return Err(error(VirExecutionErrorKind::InvalidRuntimeState, source_span)),
        };
        let domain = self.selected_domain(base, delta_bytes, size, source_span)?;
        Ok(VirRuntimePointer { domain, ..derived })
    }

    /// The variant whose discriminant the tag of the enum case at `path`
    /// (for `enum_access`) holds: the tag must be initialized, decode, and
    /// name one of the cases at `path`.
    pub open spec fn active_variant(
        &self,
        memory: VirMemorySchema,
        pointer: VirRuntimePointer,
        shape: VirObjectShape,
        path: Seq<VirObjectPathSegment>,
        enum_access: VirMemoryAccess,
    ) -> Result<VirVariantId, VirExecutionErrorKind> {
        let cases = shape.spec_variants();
        match case_at(cases, path, enum_access) {
            None => Err(VirExecutionErrorKind::InvalidRuntimeState),
            Some(c) => {
                let tag = cases[c].spec_tag();
                let tag_start = pointer.offset_bytes + tag.spec_start_bytes();
                if tag_start > u64::MAX || !self.allocations@.contains_key(pointer.allocation) {
                    Err(VirExecutionErrorKind::InvalidRuntimeState)
                } else {
                    let bad = VirExecutionErrorKind::InvalidObjectRepresentation {
                        allocation: pointer.allocation,
                        offset_bytes: tag_start as u64,
                        access: enum_access,
                    };
                    match initialized_read(
                        self.allocations@[pointer.allocation].bytes@,
                        pointer.allocation,
                        tag_start as u64,
                        (tag.spec_end_bytes() - tag.spec_start_bytes()) as u64,
                        enum_access,
                        true,
                    ) {
                        Err(k) => Err(k),
                        Ok(bytes) => match spec_decode_u64(bytes, memory.target.endianness) {
                            None => Err(bad),
                            Some(d) => match case_with_discriminant(cases, path, enum_access, d) {
                                Some(k) => Ok(cases[k].spec_variant()),
                                None => Err(bad),
                            },
                        },
                    }
                }
            },
        }
    }

    /// Reads which variant the enum at `path` (for `enum_access`) holds.
    pub fn read_active_variant(
        &self,
        memory: &VirMemorySchema,
        pointer: VirRuntimePointer,
        shape: &VirObjectShape,
        path: &VirObjectPath,
        enum_access: VirMemoryAccess,
        source_span: ByteSpan,
    ) -> (r: Result<VirVariantId, VirExecutionError>)
        ensures
            match self.active_variant(*memory, pointer, *shape, path.spec_segments(), enum_access) {
                Ok(v) => r == Ok::<VirVariantId, VirExecutionError>(v),
                Err(k) => r matches Err(e) && e.spec_kind() == k,
            },
    {
        let variants = shape.variants();
        let mut found: Option<usize> = None;
        let mut i: usize = 0;
        while i < variants.len()
            invariant_except_break
                found is None,
                case_at(variants@.take(i as int), path.spec_segments(), enum_access) is None,
            invariant
                0 <= i <= variants@.len(),
                variants@ == shape.spec_variants(),
            ensures
                found matches Some(c) ==> c < variants@.len() && case_at(variants@, path.spec_segments(), enum_access) == Some(c as int),
                found is None ==> i == variants@.len() && case_at(variants@.take(i as int), path.spec_segments(), enum_access) is None,
            decreases variants.len() - i,
        {
            proof {
                assert(variants@.take(i + 1).drop_last() == variants@.take(i as int));
            }
            if variants[i].path().same(path) && variants[i].enum_access() == enum_access {
                proof {
                    assert(case_at(variants@.take(i + 1), path.spec_segments(), enum_access) == Some(i as int));
                    lemma_case_at_prefix(variants@, path.spec_segments(), enum_access, i + 1);
                }
                found = Some(i);
                break;
            }
            i = i + 1;
        }
        proof {
            if found is None {
                assert(variants@.take(variants@.len() as int) == variants@);
            }
        }
        let case = match found {
            Some(c) if c < variants.len() => &variants[c],
            _ => return Err(error(VirExecutionErrorKind::InvalidRuntimeState, source_span)),
        };
        let tag = case.tag();
        let tag_start = match pointer.offset_bytes.checked_add(tag.start_bytes()) {
            Some(t) => t,
            None => return Err(error(VirExecutionErrorKind::InvalidRuntimeState, source_span)),
        };
        let allocation = match self.allocations.get(&pointer.allocation) {
            Some(a) => a,
            None => return Err(error(VirExecutionErrorKind::InvalidRuntimeState, source_span)),
        };
        let bytes = read_initialized_bytes(allocation, pointer.allocation, tag_start, tag.len_bytes(), enum_access, true, source_span)?;
        let discriminant = match decode_u64(bytes.as_slice(), memory.target.endianness) {
            Some(d) => d,
            None => return Err(error(VirExecutionErrorKind::InvalidObjectRepresentation {
                allocation: pointer.allocation,
                offset_bytes: tag_start,
                access: enum_access,
            }, source_span)),
        };
        let ghost bad = VirExecutionErrorKind::InvalidObjectRepresentation {
            allocation: pointer.allocation,
            offset_bytes: tag_start,
            access: enum_access,
        };
        proof {
            assert(self.allocations@[pointer.allocation] == *allocation);
            assert(initialized_read(allocation.bytes@, pointer.allocation, tag_start, (tag.spec_end_bytes() - tag.spec_start_bytes()) as u64,
                enum_access, true) == Ok::<Seq<u8>, VirExecutionErrorKind>(bytes@));
        }
        let mut k: usize = 0;
        while k < variants.len()
            invariant
                0 <= k <= variants@.len(),
                variants@ == shape.spec_variants(),
                self.active_variant(*memory, pointer, *shape, path.spec_segments(), enum_access) == match case_with_discriminant(
                    variants@, path.spec_segments(), enum_access, discriminant) {
                    Some(j) => Ok::<VirVariantId, VirExecutionErrorKind>(variants@[j].spec_variant()),
                    None => Err(bad),
                },
                bad == (VirExecutionErrorKind::InvalidObjectRepresentation {
                    allocation: pointer.allocation,
                    offset_bytes: tag_start,
                    access: enum_access,
                }),
                case_with_discriminant(variants@.take(k as int), path.spec_segments(), enum_access, discriminant) is None,
            decreases variants.len() - k,
        {
            proof {
                assert(variants@.take(k + 1).drop_last() == variants@.take(k as int));
            }
            let candidate = &variants[k];
            if candidate.path().same(path) && candidate.enum_access() == enum_access && candidate.discriminant() == discriminant {
                proof {
                    assert(case_with_discriminant(variants@.take(k + 1), path.spec_segments(), enum_access, discriminant) == Some(k as int));
                    lemma_case_with_discriminant_prefix(variants@, path.spec_segments(), enum_access, discriminant, k + 1);
                }
                return Ok(candidate.variant());
            }
            k = k + 1;
        }
        proof {
            assert(variants@.take(variants@.len() as int) == variants@);
        }
        Err(error(VirExecutionErrorKind::InvalidObjectRepresentation {
            allocation: pointer.allocation,
            offset_bytes: tag_start,
            access: enum_access,
        }, source_span))
    }

    /// Walking `path` from segment `i` on: the first enum case the path
    /// passes through whose tag holds another variant than the one the path
    /// selects. The case of a variant segment is the first case at the path
    /// before it for that variant.
    pub open spec fn inactive_from(
        &self,
        memory: VirMemorySchema,
        pointer: VirRuntimePointer,
        shape: VirObjectShape,
        path: Seq<VirObjectPathSegment>,
        i: nat,
    ) -> Result<Option<RuntimeInactiveVariant>, VirExecutionErrorKind>
        decreases path.len() - i,
    {
        if i >= path.len() {
            Ok(None)
        } else {
            match path[i as int] {
                VirObjectPathSegment::Variant(required) => match case_for_variant(shape.spec_variants(), path.take(i as int), required) {
                    None => Err(VirExecutionErrorKind::InvalidRuntimeState),
                    Some(c) => {
                        let case = shape.spec_variants()[c];
                        match self.active_variant(memory, pointer, shape, path.take(i as int), case.spec_enum_access()) {
                            Err(k) => Err(k),
                            Ok(active) => if active != required {
                                Ok(Some(RuntimeInactiveVariant { enum_access: case.spec_enum_access(), active, required }))
                            } else {
                                self.inactive_from(memory, pointer, shape, path, i + 1)
                            },
                        }
                    },
                },
                _ => self.inactive_from(memory, pointer, shape, path, i + 1),
            }
        }
    }

    /// The first enum case on `path` whose tag selects another variant than
    /// the one the path passes through, if any.
    pub fn path_inactive_variant(
        &self,
        memory: &VirMemorySchema,
        pointer: VirRuntimePointer,
        shape: &VirObjectShape,
        path: &VirObjectPath,
        source_span: ByteSpan,
    ) -> (r: Result<Option<RuntimeInactiveVariant>, VirExecutionError>)
        ensures
            match self.inactive_from(*memory, pointer, *shape, path.spec_segments(), 0) {
                Ok(v) => r == Ok::<Option<RuntimeInactiveVariant>, VirExecutionError>(v),
                Err(k) => r matches Err(e) && e.spec_kind() == k,
            },
            (forall|i: int| 0 <= i < path.spec_segments().len() ==> !(#[trigger] path.spec_segments()[i] is Variant)) ==> r matches Ok(None),
            r matches Ok(Some(inactive)) ==> inactive.active != inactive.required,
    {
        let segments = path.segments();
        let variants = shape.variants();
        let mut prefix: Vec<VirObjectPathSegment> = Vec::new();
        let mut i: usize = 0;
        proof {
            if forall|j: int| 0 <= j < path.spec_segments().len() ==> !(#[trigger] path.spec_segments()[j] is Variant) {
                lemma_inactive_without_variants(*self, *memory, pointer, *shape, path.spec_segments(), 0);
            }
        }
        while i < segments.len()
            invariant
                0 <= i <= segments@.len(),
                segments@ == path.spec_segments(),
                variants@ == shape.spec_variants(),
                prefix@ == segments@.take(i as int),
                self.inactive_from(*memory, pointer, *shape, segments@, 0) == self.inactive_from(*memory, pointer, *shape, segments@, i as nat),
            decreases segments.len() - i,
        {
            let segment = segments[i];
            match segment {
                VirObjectPathSegment::Variant(required) => {
                    let mut found: Option<usize> = None;
                    let mut k: usize = 0;
                    while k < variants.len()
                        invariant_except_break
                            found is None,
                            case_for_variant(variants@.take(k as int), prefix@, required) is None,
                        invariant
                            0 <= k <= variants@.len(),
                        ensures
                            found matches Some(c) ==> c < variants@.len() && case_for_variant(variants@, prefix@, required) == Some(c as int),
                            found is None ==> k == variants@.len() && case_for_variant(variants@.take(k as int), prefix@, required) is None,
                        decreases variants.len() - k,
                    {
                        proof {
                            assert(variants@.take(k + 1).drop_last() == variants@.take(k as int));
                        }
                        if same_segments(variants[k].path().segments(), prefix.as_slice()) && variants[k].variant() == required {
                            proof {
                                assert(case_for_variant(variants@.take(k + 1), prefix@, required) == Some(k as int));
                                lemma_case_for_variant_prefix(variants@, prefix@, required, k + 1);
                            }
                            found = Some(k);
                            break;
                        }
                        k = k + 1;
                    }
                    proof {
                        if found is None {
                            assert(variants@.take(variants@.len() as int) == variants@);
                        }
                    }
                    let case = match found {
                        Some(c) if c < variants.len() => &variants[c],
                        _ => return Err(error(VirExecutionErrorKind::InvalidRuntimeState, source_span)),
                    };
                    proof {
                        lemma_case_for_variant_found(variants@, prefix@, required);
                        assert(segments@[i as int] == VirObjectPathSegment::Variant(required));
                    }
                    let active = self.read_active_variant(memory, pointer, shape, case.path(), case.enum_access(), source_span)?;
                    if active != required {
                        return Ok(Some(RuntimeInactiveVariant { enum_access: case.enum_access(), active, required }));
                    }
                },
                _ => {},
            }
            prefix.push(segment);
            proof {
                assert(prefix@ == segments@.take(i + 1));
            }
            i = i + 1;
        }
        Ok(None)
    }

    /// The root pointer of the registered object `object` in the allocation
    /// of `pointer`.
    pub open spec fn object_root(pointer: VirRuntimePointer, object: RuntimeObject) -> VirRuntimePointer {
        VirRuntimePointer {
            allocation: pointer.allocation,
            offset_bytes: object.offset_bytes,
            access: object.access,
            paths: VirPointerPaths { object: None, domain: None },
            view_range: None,
            domain: VirPointerDomain::Allocation,
        }
    }

    /// The scan state after leaf `leaf` of the object `object` of shape
    /// `shape`: whether a leaf at the pointer was found, the first inactive
    /// case met on such a leaf, and whether a leaf with every case active
    /// ended the scan.
    pub open spec fn scalar_leaf_step(
        &self,
        memory: VirMemorySchema,
        pointer: VirRuntimePointer,
        pointer_end: Option<u64>,
        object: RuntimeObject,
        shape: VirObjectShape,
        leaf: VirObjectLeaf,
        st: (bool, Option<RuntimeInactiveVariant>, bool),
    ) -> Result<(bool, Option<RuntimeInactiveVariant>, bool), VirExecutionErrorKind> {
        let start = object.offset_bytes + leaf.spec_bytes().spec_start_bytes();
        let end = object.offset_bytes + leaf.spec_bytes().spec_end_bytes();
        if start > u64::MAX || end > u64::MAX {
            Err(VirExecutionErrorKind::InvalidRuntimeState)
        } else if leaf.spec_access() == pointer.access && start == pointer.offset_bytes && pointer_end == Some(end as u64) {
            match self.inactive_from(memory, Self::object_root(pointer, object), shape, leaf.spec_path().spec_segments(), 0) {
                Err(k) => Err(k),
                Ok(None) => Ok((true, st.1, true)),
                Ok(Some(c)) => Ok((true, if st.1 is None { Some(c) } else { st.1 }, false)),
            }
        } else {
            Ok(st)
        }
    }

    /// The scan state after the first `n` leaves of `object`, from `st`.
    pub open spec fn scalar_leaves_scan(
        &self,
        memory: VirMemorySchema,
        pointer: VirRuntimePointer,
        pointer_end: Option<u64>,
        object: RuntimeObject,
        shape: VirObjectShape,
        st: (bool, Option<RuntimeInactiveVariant>, bool),
        n: int,
    ) -> Result<(bool, Option<RuntimeInactiveVariant>, bool), VirExecutionErrorKind>
        decreases n,
    {
        if n <= 0 {
            Ok(st)
        } else {
            match self.scalar_leaves_scan(memory, pointer, pointer_end, object, shape, st, n - 1) {
                Err(k) => Err(k),
                Ok(t) => if t.2 {
                    Ok(t)
                } else {
                    self.scalar_leaf_step(memory, pointer, pointer_end, object, shape, shape.spec_leaves()[n - 1], t)
                },
            }
        }
    }

    /// The scan state after the registered objects `objects`, each scanned
    /// over the leaves of its shape in `shapes`.
    pub open spec fn scalar_objects_scan(
        &self,
        memory: VirMemorySchema,
        pointer: VirRuntimePointer,
        pointer_end: Option<u64>,
        objects: Seq<RuntimeObject>,
        shapes: Seq<VirObjectShape>,
    ) -> Result<(bool, Option<RuntimeInactiveVariant>, bool), VirExecutionErrorKind>
        decreases shapes.len(),
    {
        if shapes.len() == 0 {
            Ok((false, None, false))
        } else {
            let n = shapes.len() - 1;
            match self.scalar_objects_scan(memory, pointer, pointer_end, objects, shapes.drop_last()) {
                Err(k) => Err(k),
                Ok(t) => if t.2 {
                    Ok(t)
                } else {
                    self.scalar_leaves_scan(memory, pointer, pointer_end, objects[n], shapes[n], t, shapes[n].spec_leaves().len() as int)
                },
            }
        }
    }

    /// The result of checking a scalar access at `pointer` once the objects
    /// of `objects` with shapes `shapes` are scanned: decided by a fault or a
    /// leaf with all cases active, else, once every object is scanned, an
    /// inactive-variant fault if a leaf at the pointer met an inactive case;
    /// `None` while undecided.
    pub open spec fn scalar_active_outcome(
        &self,
        memory: VirMemorySchema,
        pointer: VirRuntimePointer,
        pointer_end: Option<u64>,
        objects: Seq<RuntimeObject>,
        shapes: Seq<VirObjectShape>,
    ) -> Option<Result<(), VirExecutionErrorKind>> {
        match self.scalar_objects_scan(memory, pointer, pointer_end, objects, shapes) {
            Err(k) => Some(Err(k)),
            Ok(t) => if t.2 {
                Some(Ok(()))
            } else if shapes.len() < objects.len() {
                None
            } else {
                match t.1 {
                    Some(c) => if t.0 {
                        Some(Err(VirExecutionErrorKind::InactiveVariantAccess {
                            allocation: pointer.allocation,
                            offset_bytes: pointer.offset_bytes,
                            enum_access: c.enum_access,
                            active: c.active,
                            required: c.required,
                        }))
                    } else {
                        Some(Ok(()))
                    },
                    None => Some(Ok(())),
                }
            },
        }
    }

    /// Once the scan of an object's leaves faults or ends at the `n`-th
    /// leaf, adding the object's shape to `shapes` decides the outcome.
    pub proof fn lemma_scalar_scan_settles(
        &self,
        memory: VirMemorySchema,
        pointer: VirRuntimePointer,
        pointer_end: Option<u64>,
        objects: Seq<RuntimeObject>,
        shapes: Seq<VirObjectShape>,
        object: RuntimeObject,
        shape: VirObjectShape,
        st: (bool, Option<RuntimeInactiveVariant>, bool),
        n: int,
    )
        requires
            0 <= n <= shape.spec_leaves().len(),
            shapes.len() < objects.len(),
            objects[shapes.len() as int] == object,
            self.scalar_objects_scan(memory, pointer, pointer_end, objects, shapes) == Ok::<(bool, Option<RuntimeInactiveVariant>, bool), VirExecutionErrorKind>(st),
            !st.2,
            self.scalar_leaves_scan(memory, pointer, pointer_end, object, shape, st, n) is Err || self.scalar_leaves_scan(
                memory,
                pointer,
                pointer_end,
                object,
                shape,
                st,
                n,
            )->Ok_0.2,
        ensures
            self.scalar_active_outcome(memory, pointer, pointer_end, objects, shapes.push(shape)) == match self.scalar_leaves_scan(
                memory,
                pointer,
                pointer_end,
                object,
                shape,
                st,
                n,
            ) {
                Err(k) => Some(Err::<(), VirExecutionErrorKind>(k)),
                Ok(_) => Some(Ok::<(), VirExecutionErrorKind>(())),
            },
    {
        self.lemma_leaves_scan_settled(memory, pointer, pointer_end, object, shape, st, n, shape.spec_leaves().len() as int);
        assert(shapes.push(shape).drop_last() == shapes);
    }

    /// The shapes derived so far, with `shape` for the object being scanned,
    /// witness the result `r` once the outcome is decided.
    pub proof fn lemma_scalar_witness(
        &self,
        memory: VirMemorySchema,
        pointer: VirRuntimePointer,
        a: Allocation,
        shapes: Seq<VirObjectShape>,
        shape: VirObjectShape,
        r: Result<(), VirExecutionError>,
    )
        requires
            self.spec_liveness(pointer.allocation) == Ok::<Allocation, VirExecutionErrorKind>(a),
            memory.spec_layout(pointer.access.layout) is Some,
            shapes.len() < a.objects@.len(),
            forall|i: int| 0 <= i < shapes.len() ==> shape_matches(memory, a.objects@[i].access, #[trigger] shapes[i]),
            shape_matches(memory, a.objects@[shapes.len() as int].access, shape),
            match self.scalar_active_outcome(
                memory,
                pointer,
                checked_end(pointer.offset_bytes, memory.spec_layout(pointer.access.layout)->0.size_bytes),
                a.objects@,
                shapes.push(shape),
            ) {
                Some(Ok(())) => r is Ok,
                Some(Err(k)) => r matches Err(e) && e.spec_kind() == k,
                None => false,
            },
        ensures
            self.scalar_access_result(memory, pointer, r),
    {
        let w = shapes.push(shape);
        assert forall|i: int| 0 <= i < w.len() implies shape_matches(memory, a.objects@[i].access, #[trigger] w[i]) by {
            if i < shapes.len() {
                assert(w[i] == shapes[i]);
            }
        }
    }

    /// A settled leaf scan stays settled.
    pub proof fn lemma_leaves_scan_settled(
        &self,
        memory: VirMemorySchema,
        pointer: VirRuntimePointer,
        pointer_end: Option<u64>,
        object: RuntimeObject,
        shape: VirObjectShape,
        st: (bool, Option<RuntimeInactiveVariant>, bool),
        n: int,
        m: int,
    )
        requires
            0 <= n <= m,
            self.scalar_leaves_scan(memory, pointer, pointer_end, object, shape, st, n) is Err || self.scalar_leaves_scan(
                memory,
                pointer,
                pointer_end,
                object,
                shape,
                st,
                n,
            )->Ok_0.2,
        ensures
            self.scalar_leaves_scan(memory, pointer, pointer_end, object, shape, st, m) == self.scalar_leaves_scan(
                memory,
                pointer,
                pointer_end,
                object,
                shape,
                st,
                n,
            ),
        decreases m - n,
    {
        if n < m {
            self.lemma_leaves_scan_settled(memory, pointer, pointer_end, object, shape, st, n, m - 1);
        }
    }

    /// `r` is what checking a scalar access at `pointer` into a live
    /// allocation gives: the outcome of scanning its registered objects with
    /// some shapes derived for them, or a refused derivation.
    pub open spec fn scalar_access_result(&self, memory: VirMemorySchema, pointer: VirRuntimePointer, r: Result<(), VirExecutionError>) -> bool {
        self.scalar_access_kind_result(
            memory,
            pointer,
            match r {
                Ok(()) => Ok(()),
                Err(e) => Err(e.spec_kind()),
            },
        )
    }

    /// `scalar_access_result` over the fault kind alone.
    pub open spec fn scalar_access_kind_result(
        &self,
        memory: VirMemorySchema,
        pointer: VirRuntimePointer,
        r: Result<(), VirExecutionErrorKind>,
    ) -> bool {
        match (self.spec_liveness(pointer.allocation), memory.spec_layout(pointer.access.layout)) {
            (Ok(a), Some(l)) => {
                let pend = checked_end(pointer.offset_bytes, l.size_bytes);
                ||| !roots_promised(memory, a.objects@) && r == Err::<(), VirExecutionErrorKind>(VirExecutionErrorKind::InvalidRuntimeState)
                ||| exists|shapes: Seq<VirObjectShape>|
                    #![trigger self.scalar_active_outcome(memory, pointer, pend, a.objects@, shapes)]
                    shapes.len() <= a.objects@.len() && (forall|i: int| 0 <= i < shapes.len() ==> shape_matches(memory, a.objects@[i].access, #[trigger] shapes[i]))
                        && self.scalar_active_outcome(memory, pointer, pend, a.objects@, shapes) == Some(r)
            },
            _ => true,
        }
    }

    /// Forming a scalar reference requires every enum case on the leaf's path
    /// to be active; a leaf that only inactive cases contain faults.
    pub fn check_scalar_active_access(&self, memory: &VirMemorySchema, pointer: VirRuntimePointer, source_span: ByteSpan)
        -> (r: Result<(), VirExecutionError>)
        ensures
            self.spec_liveness(pointer.allocation) matches Err(k) ==> (r matches Err(e) && e.spec_kind() == k),
            r is Ok ==> self.spec_liveness(pointer.allocation) is Ok,
            (self.spec_liveness(pointer.allocation) matches Ok(a) && a.objects@.len() == 0
                && memory.spec_layout(pointer.access.layout) is Some) ==> r is Ok,
            memory.spec_layout(pointer.access.layout) is None && self.spec_liveness(pointer.allocation) is Ok ==> (r matches Err(e)
                && e.spec_kind() == VirExecutionErrorKind::InvalidRuntimeState),
            self.scalar_access_result(*memory, pointer, r),
    {
        let allocation = self.live_allocation(pointer.allocation, source_span)?;
        let access_size = match memory.layout(pointer.access.layout) {
            Some(l) => l.size_bytes,
            None => return Err(error(VirExecutionErrorKind::InvalidRuntimeState, source_span)),
        };
        let pointer_end = pointer.offset_bytes.checked_add(access_size);
        let ghost pend = checked_end(pointer.offset_bytes, access_size);
        let ghost objects = allocation.objects@;
        let ghost mut shapes: Seq<VirObjectShape> = Seq::empty();
        let mut found_candidate = false;
        let mut inactive: Option<RuntimeInactiveVariant> = None;
        let mut oi: usize = 0;
        while oi < allocation.objects.len()
            invariant
                0 <= oi <= allocation.objects@.len(),
                self.spec_liveness(pointer.allocation) == Ok::<Allocation, VirExecutionErrorKind>(*allocation),
                found_candidate ==> allocation.objects@.len() > 0,
                objects == allocation.objects@,
                pend == pointer_end,
                memory.spec_layout(pointer.access.layout) matches Some(l) && pend == checked_end(pointer.offset_bytes, l.size_bytes),
                shapes.len() == oi,
                forall|i: int| 0 <= i < shapes.len() ==> shape_matches(*memory, objects[i].access, #[trigger] shapes[i]),
                self.scalar_objects_scan(*memory, pointer, pend, objects, shapes) == Ok::<(bool, Option<RuntimeInactiveVariant>, bool), VirExecutionErrorKind>((found_candidate, inactive, false)),
            decreases allocation.objects.len() - oi,
        {
            let object = allocation.objects[oi];
            let shape = match memory.object_shape(object.access) {
                Ok(s) => s,
                Err(_) => {
                    proof {
                        if roots_promised(*memory, objects) {
                            assert(root_promised(*memory, objects[oi as int]));
                        }
                    }
                    return Err(error(VirExecutionErrorKind::InvalidRuntimeState, source_span));
                },
            };
            let ghost st0 = (found_candidate, inactive, false);
            let leaves = shape.leaves();
            let mut li: usize = 0;
            while li < leaves.len()
                invariant
                    0 <= li <= leaves@.len(),
                    oi < allocation.objects@.len(),
                    self.spec_liveness(pointer.allocation) == Ok::<Allocation, VirExecutionErrorKind>(*allocation),
                    found_candidate ==> allocation.objects@.len() > 0,
                    objects == allocation.objects@,
                    object == objects[oi as int],
                    pend == pointer_end,
                    memory.spec_layout(pointer.access.layout) matches Some(l) && pend == checked_end(pointer.offset_bytes, l.size_bytes),
                    leaves@ == shape.spec_leaves(),
                    shapes.len() == oi,
                    shape_matches(*memory, object.access, shape),
                    forall|i: int| 0 <= i < shapes.len() ==> shape_matches(*memory, objects[i].access, #[trigger] shapes[i]),
                    self.scalar_objects_scan(*memory, pointer, pend, objects, shapes) == Ok::<(bool, Option<RuntimeInactiveVariant>, bool), VirExecutionErrorKind>(st0),
                    !st0.2,
                    self.scalar_leaves_scan(*memory, pointer, pend, object, shape, st0, li as int) == Ok::<(bool, Option<RuntimeInactiveVariant>, bool), VirExecutionErrorKind>((found_candidate, inactive, false)),
                decreases leaves.len() - li,
            {
                let leaf = &leaves[li];
                let bytes = leaf.bytes();
                let start = object.offset_bytes.checked_add(bytes.start_bytes());
                let end = object.offset_bytes.checked_add(bytes.end_bytes());
                match (start, end) {
                    (Some(start), Some(end)) => {
                        if leaf.access() == pointer.access && start == pointer.offset_bytes && Some(end) == pointer_end {
                            found_candidate = true;
                            let root = VirRuntimePointer {
                                allocation: pointer.allocation,
                                offset_bytes: object.offset_bytes,
                                access: object.access,
                                paths: VirPointerPaths { object: None, domain: None },
                                view_range: None,
                                domain: VirPointerDomain::Allocation,
                            };
                            let ghost before = inactive;
                            proof {
                                assert(root == Self::object_root(pointer, object));
                            }
                            match self.path_inactive_variant(memory, root, &shape, leaf.path(), source_span) {
                                Err(e) => {
                                    let r: Result<(), VirExecutionError> = Err(e);
                                    proof {
                                        self.lemma_scalar_scan_settles(*memory, pointer, pend, objects, shapes, object, shape, st0, li + 1);
                                        self.lemma_scalar_witness(*memory, pointer, *allocation, shapes, shape, r);
                                    }
                                    return r;
                                },
                                Ok(None) => {
                                    let r: Result<(), VirExecutionError> = Ok(());
                                    proof {
                                        self.lemma_scalar_scan_settles(*memory, pointer, pend, objects, shapes, object, shape, st0, li + 1);
                                        self.lemma_scalar_witness(*memory, pointer, *allocation, shapes, shape, r);
                                    }
                                    return r;
                                },
                                Ok(Some(candidate)) => if inactive.is_none() {
                                    inactive = Some(candidate);
                                },
                            }
                        }
                    },
                    _ => {
                        proof {
                            if roots_promised(*memory, objects) {
                                assert(root_promised(*memory, objects[oi as int]));
                                assert(leaves@[li as int] == shape.spec_leaves()[li as int]);
                                assert(shape.spec_leaves()[li as int].spec_bytes().spec_end_bytes() <= shape.spec_size_bytes());
                            }
                        }
                        return Err(error(VirExecutionErrorKind::InvalidRuntimeState, source_span));
                    },
                }
                li = li + 1;
            }
            proof {
                assert(shapes.push(shape).drop_last() == shapes);
                shapes = shapes.push(shape);
            }
            oi = oi + 1;
        }
        if found_candidate {
            match inactive {
                Some(inactive) => {
                    let r: Result<(), VirExecutionError> = Err(error(VirExecutionErrorKind::InactiveVariantAccess {
                        allocation: pointer.allocation,
                        offset_bytes: pointer.offset_bytes,
                        enum_access: inactive.enum_access,
                        active: inactive.active,
                        required: inactive.required,
                    }, source_span));
                    proof {
                        assert(self.scalar_active_outcome(*memory, pointer, pend, objects, shapes) == Some(Err::<(), VirExecutionErrorKind>(r->Err_0.spec_kind())));
                        assert(self.scalar_access_result(*memory, pointer, r));
                    }
                    return r;
                },
                None => {},
            }
        }
        proof {
            assert(self.scalar_active_outcome(*memory, pointer, pend, objects, shapes) == Some(Ok::<(), VirExecutionErrorKind>(())));
            assert(self.scalar_access_result(*memory, pointer, Ok(())));
        }
        Ok(())
    }

    /// The discriminant of the enum object at `pointer`, read through its tag.
    pub fn enum_discriminant(
        &self,
        memory: &VirMemorySchema,
        pointer: VirRuntimePointer,
        permission: VirRuntimePermission,
        access: VirMemoryAccess,
        source_span: ByteSpan,
    ) -> (r: Result<u64, VirExecutionError>)
        ensures
            spec_access_fault(self, *memory, pointer, permission, access) matches Some(k) ==> (r matches Err(e) && e.spec_kind() == k),
            r is Ok ==> spec_access_fault(self, *memory, pointer, permission, access) is None,
            spec_access_fault(self, *memory, pointer, permission, access) is None ==> (r matches Err(e) && e.spec_kind()
                == VirExecutionErrorKind::InvalidRuntimeState && !shape_promised(*memory, access)) || exists|shape: VirObjectShape|
                #[trigger] shape_matches(*memory, access, shape) && match discriminant_outcome(*self, *memory, pointer, access, shape) {
                    Ok(d) => r == Ok::<u64, VirExecutionError>(d),
                    Err(k) => r matches Err(e) && e.spec_kind() == k,
                },
    {
        self.check_access(memory, pointer, permission, access, source_span)?;
        let shape = match memory.object_shape(access) {
            Ok(s) => s,
            Err(_) => return Err(error(VirExecutionErrorKind::InvalidRuntimeState, source_span)),
        };
        self.check_object_effect_size(shape.size_bytes(), source_span)?;
        ensure_runtime_object_observation_type(memory, &shape, source_span)?;
        let path = VirObjectPath::root();
        let active = self.read_active_variant(memory, pointer, &shape, &path, access, source_span)?;
        let variants = shape.variants();
        let mut k: usize = 0;
        while k < variants.len()
            invariant
                0 <= k <= variants@.len(),
                variants@ == shape.spec_variants(),
                spec_access_fault(self, *memory, pointer, permission, access) is None,
                shape_matches(*memory, access, shape),
                discriminant_outcome(*self, *memory, pointer, access, shape) == match root_case_discriminant(variants@, access, active, k as int) {
                    Some(d) => Ok::<u64, VirExecutionErrorKind>(d),
                    None => Err(VirExecutionErrorKind::InvalidRuntimeState),
                },
            decreases variants.len() - k,
        {
            let case = &variants[k];
            if case.path().segments().len() == 0 && case.enum_access() == access && case.variant() == active {
                return Ok(case.discriminant());
            }
            k = k + 1;
        }
        Err(error(VirExecutionErrorKind::InvalidRuntimeState, source_span))
    }

    /// Registers the enum-bearing object at `pointer` in its allocation's
    /// root registry, failing closed once the registry is full.
    pub fn register_runtime_object(&mut self, pointer: VirRuntimePointer, shape: &VirObjectShape, source_span: ByteSpan)
        -> (r: Result<(), VirExecutionError>)
        requires
            shape.spec_variants().len() > 0 ==> old(self).allocations@.contains_key(pointer.allocation),
        ensures
            final(self).config == old(self).config,
            final(self).steps == old(self).steps,
            final(self).allocation_instances == old(self).allocation_instances,
            final(self).allocations@.dom() == old(self).allocations@.dom(),
            forall|id: u64| id != pointer.allocation && #[trigger] old(self).allocations@.contains_key(id) ==> final(self).allocations@[id] == old(self).allocations@[id],
            ({
                let before = old(self).allocations@[pointer.allocation];
                let after = final(self).allocations@[pointer.allocation];
                let object = RuntimeObject { offset_bytes: pointer.offset_bytes, access: pointer.access };
                if shape.spec_variants().len() == 0 || before.objects@.contains(object) {
                    r is Ok && after == before
                } else if before.objects@.len() >= VIR_INTERPRETER_MAX_OBJECT_ROOTS {
                    r matches Err(e) && e.spec_kind() == (VirExecutionErrorKind::ObjectRootLimitExceeded {
                        allocation: pointer.allocation,
                        limit: VIR_INTERPRETER_MAX_OBJECT_ROOTS,
                    }) && after == before
                } else {
                    r is Ok && after.objects@.to_multiset() == before.objects@.to_multiset().insert(object)
                        && objects_sorted(after.objects@)
                        && (objects_unique(before.objects@) ==> objects_unique(after.objects@))
                        && after.size_bytes == before.size_bytes && after.alignment == before.alignment
                        && after.kind == before.kind && after.live == before.live && after.bytes@ == before.bytes@
                        && after.resource_payloads@ == before.resource_payloads@
                }
            }),
    {
        if shape.variants().len() == 0 {
            return Ok(());
        }
        let object = RuntimeObject { offset_bytes: pointer.offset_bytes, access: pointer.access };
        let present = {
            let allocation = match self.allocations.get(&pointer.allocation) {
                Some(a) => a,
                None => return Err(error(VirExecutionErrorKind::InvalidRuntimeState, source_span)),
            };
            if contains_object(&allocation.objects, object) {
                return Ok(());
            }
            allocation.objects.len() >= VIR_INTERPRETER_MAX_OBJECT_ROOTS
        };
        if present {
            return Err(error(VirExecutionErrorKind::ObjectRootLimitExceeded {
                allocation: pointer.allocation,
                limit: VIR_INTERPRETER_MAX_OBJECT_ROOTS,
            }, source_span));
        }
        match self.allocations.remove(&pointer.allocation) {
            Some(mut allocation) => {
                let ghost before = allocation;
                let mut objects: Vec<RuntimeObject> = Vec::new();
                std::mem::swap(&mut objects, &mut allocation.objects);
                objects.push(object);
                let ghost pushed = objects@;
                allocation.objects = sort_objects(objects);
                proof {
                    vstd::seq_lib::lemma_multiset_commutative(before.objects@, seq![object]);
                    assert(pushed == before.objects@ + seq![object]);
                    vstd::seq_lib::to_multiset_build(before.objects@, object);
                    assert(before.objects@.push(object) == pushed);
                    if objects_unique(before.objects@) {
                        vstd::seq_lib::to_multiset_contains(before.objects@, object);
                        assert(before.objects@.to_multiset().count(object) == 0);
                        assert forall|x: RuntimeObject| #[trigger] allocation.objects@.to_multiset().count(x) <= 1 by {
                            assert(before.objects@.to_multiset().count(x) <= 1);
                        }
                    }
                }
                self.allocations.insert(pointer.allocation, allocation);
                proof {
                    assert(self.allocations@.dom() =~= old(self).allocations@.dom());
                }
                Ok(())
            },
            None => Err(error(VirExecutionErrorKind::InvalidRuntimeState, source_span)),
        }
    }
}

fn contains_object(objects: &Vec<RuntimeObject>, object: RuntimeObject) -> (r: bool)
    ensures
        r == objects@.contains(object),
{
    let mut i: usize = 0;
    while i < objects.len()
        invariant
            0 <= i <= objects@.len(),
            forall|j: int| 0 <= j < i ==> objects@[j] != object,
        decreases objects.len() - i,
    {
        if objects[i] == object {
            assert(objects@[i as int] == object);
            return true;
        }
        i = i + 1;
    }
    false
}

/// `a` sorts before `b` by offset, then by access.
pub open spec fn object_less(a: RuntimeObject, b: RuntimeObject) -> bool {
    if a.offset_bytes != b.offset_bytes {
        a.offset_bytes < b.offset_bytes
    } else if a.access.ty.0 != b.access.ty.0 {
        a.access.ty.0 < b.access.ty.0
    } else {
        a.access.layout.0 < b.access.layout.0
    }
}

/// The fault of registering the object at `pointer`, of shape `shape`, in
/// the state `s`: a registry of full size that lacks the object refuses an
/// enum-bearing object.
pub open spec fn registration_refusal(s: Interpreter, pointer: VirRuntimePointer, shape: VirObjectShape) -> Option<VirExecutionErrorKind> {
    let object = RuntimeObject { offset_bytes: pointer.offset_bytes, access: pointer.access };
    let objects = s.allocations@[pointer.allocation].objects@;
    if shape.spec_variants().len() > 0 && !objects.contains(object) && objects.len() >= VIR_INTERPRETER_MAX_OBJECT_ROOTS {
        Some(VirExecutionErrorKind::ObjectRootLimitExceeded { allocation: pointer.allocation, limit: VIR_INTERPRETER_MAX_OBJECT_ROOTS })
    } else {
        None
    }
}

/// `r` is the result of a registration that `registration_refusal` decides.
pub open spec fn registered_as(refusal: Option<VirExecutionErrorKind>, r: Result<(), VirExecutionError>) -> bool {
    match refusal {
        None => r is Ok,
        Some(k) => r matches Err(e) && e.spec_kind() == k,
    }
}

/// The shape of the root `o` is promised to derive, and the root's bytes
/// are addresses.
pub open spec fn root_promised(memory: VirMemorySchema, o: RuntimeObject) -> bool {
    &&& shape_promised(memory, o.access)
    &&& o.offset_bytes + crate::object_shape::access_size(memory, o.access) <= u64::MAX
}

/// Every root of `objects` is promised.
pub open spec fn roots_promised(memory: VirMemorySchema, objects: Seq<RuntimeObject>) -> bool {
    forall|i: int| 0 <= i < objects.len() ==> #[trigger] root_promised(memory, objects[i])
}

/// Every root occurs at most once.
pub open spec fn objects_unique(v: Seq<RuntimeObject>) -> bool {
    forall|x: RuntimeObject| #[trigger] v.to_multiset().count(x) <= 1
}

/// No object sorts before one that precedes it.
pub open spec fn objects_sorted(v: Seq<RuntimeObject>) -> bool {
    forall|i: int, j: int| 0 <= i < j < v.len() ==> !object_less(#[trigger] v[j], #[trigger] v[i])
}

/// `a` sorts before `b` by offset, then by access.
fn object_key_less(a: RuntimeObject, b: RuntimeObject) -> (r: bool)
    ensures
        r == object_less(a, b),
{
    if a.offset_bytes != b.offset_bytes {
        return a.offset_bytes < b.offset_bytes;
    }
    if a.access.ty.0 != b.access.ty.0 {
        return a.access.ty.0 < b.access.ty.0;
    }
    a.access.layout.0 < b.access.layout.0
}

/// Insertion sort of object roots by offset, then access.
fn sort_objects(v: Vec<RuntimeObject>) -> (r: Vec<RuntimeObject>)
    ensures
        r@.to_multiset() == v@.to_multiset(),
        r@.len() == v@.len(),
        objects_sorted(r@),
{
    broadcast use vstd::seq_lib::group_to_multiset_ensures;
    let mut out: Vec<RuntimeObject> = Vec::new();
    let mut i: usize = 0;
    while i < v.len()
        invariant
            0 <= i <= v.len(),
            out@.len() == i,
            out@.to_multiset() == v@.take(i as int).to_multiset(),
            objects_sorted(out@),
        decreases v.len() - i,
    {
        let x = v[i];
        let mut k: usize = 0;
        while k < out.len() && !object_key_less(x, out[k])
            invariant
                0 <= k <= out.len(),
                forall|j: int| 0 <= j < k ==> !object_less(x, #[trigger] out@[j]),
            decreases out.len() - k,
        {
            k = k + 1;
        }
        let ghost before = out@;
        out.insert(k, x);
        proof {
            vstd::seq_lib::to_multiset_insert(before, k as int, x);
            assert(v@.take(i + 1) == v@.take(i as int).push(x));
            vstd::seq_lib::to_multiset_build(v@.take(i as int), x);
            assert forall|p: int, q: int| 0 <= p < q < out@.len() implies !object_less(#[trigger] out@[q], #[trigger] out@[p]) by {
                if q < k {
                    assert(out@[p] == before[p] && out@[q] == before[q]);
                } else if q == k {
                    assert(out@[p] == before[p]);
                } else if p > k {
                    assert(out@[p] == before[p - 1] && out@[q] == before[q - 1]);
                } else if p == k {
                    assert(out@[q] == before[q - 1]);
                    if q - 1 > k {
                        assert(!object_less(before[q - 1], before[k as int]));
                    }
                } else {
                    assert(out@[p] == before[p] && out@[q] == before[q - 1]);
                }
            }
        }
        i = i + 1;
    }
    assert(v@.take(v.len() as int) == v@);
    out
}

/// Objects of shape `shape` can be observed by a runtime effect: sized,
/// with no raw pointer leaf.
pub open spec fn observable(memory: VirMemorySchema, shape: VirObjectShape) -> bool {
    memory.spec_type_capabilities(shape.spec_access().ty) matches Some(c) && c.size == SizeCapability::Sized
        && forall|i: int| 0 <= i < shape.spec_resource_leaves().len() ==> (#[trigger] shape.spec_resource_leaves()[i]).spec_kind() != VirPointerKind::Raw
}

/// The discriminant of the first root case of enum `access` for variant `v`
/// among `cases`, from position `i` on.
pub open spec fn root_case_discriminant(cases: Seq<VirObjectVariantShape>, access: VirMemoryAccess, v: VirVariantId, i: int) -> Option<u64>
    decreases cases.len() - i,
{
    if 0 <= i < cases.len() {
        if cases[i].spec_path().spec_segments().len() == 0 && cases[i].spec_enum_access() == access && cases[i].spec_variant() == v {
            Some(cases[i].spec_discriminant())
        } else {
            root_case_discriminant(cases, access, v, i + 1)
        }
    } else {
        None
    }
}

/// What reading the discriminant of the enum object of shape `shape` at
/// `pointer` gives: the discriminant of the variant whose tag is stored, or
/// the fault that refuses it.
pub open spec fn discriminant_outcome(
    s: Interpreter,
    memory: VirMemorySchema,
    pointer: VirRuntimePointer,
    access: VirMemoryAccess,
    shape: VirObjectShape,
) -> Result<u64, VirExecutionErrorKind> {
    if shape.spec_size_bytes() > s.config.max_object_effect_bytes {
        Err(VirExecutionErrorKind::ObjectEffectSizeLimitExceeded {
            requested: shape.spec_size_bytes(),
            limit: s.config.max_object_effect_bytes,
        })
    } else if !observable(memory, shape) {
        Err(VirExecutionErrorKind::UnsupportedObjectEffectType { access: shape.spec_access() })
    } else {
        match s.active_variant(memory, pointer, shape, Seq::empty(), access) {
            Err(k) => Err(k),
            Ok(v) => match root_case_discriminant(shape.spec_variants(), access, v, 0) {
                Some(d) => Ok(d),
                None => Err(VirExecutionErrorKind::InvalidRuntimeState),
            },
        }
    }
}

/// Objects observed through a runtime effect: sized, with no raw pointer leaf.
pub fn ensure_runtime_object_observation_type(memory: &VirMemorySchema, shape: &VirObjectShape, source_span: ByteSpan)
    -> (r: Result<(), VirExecutionError>)
    ensures
        r is Ok <==> (memory.spec_type_capabilities(shape.spec_access().ty) matches Some(c) && c.size == SizeCapability::Sized
            && forall|i: int| 0 <= i < shape.spec_resource_leaves().len() ==> (#[trigger] shape.spec_resource_leaves()[i]).spec_kind() != VirPointerKind::Raw),
        r matches Err(e) ==> e.spec_kind() == (VirExecutionErrorKind::UnsupportedObjectEffectType { access: shape.spec_access() }),
{
    let sized = match memory.type_capabilities(shape.access().ty) {
        Some(c) => c.size == SizeCapability::Sized,
        None => false,
    };
    if sized && no_raw_leaves(shape) {
        Ok(())
    } else {
        Err(error(VirExecutionErrorKind::UnsupportedObjectEffectType { access: shape.access() }, source_span))
    }
}

/// Objects copied as plain bytes: pointer-free and trivially dropped.
pub fn ensure_runtime_object_type(memory: &VirMemorySchema, shape: &VirObjectShape, source_span: ByteSpan)
    -> (r: Result<(), VirExecutionError>)
    ensures
        r is Ok <==> (memory.spec_type_capabilities(shape.spec_access().ty) matches Some(c) && c.spec_pointer_free_trivial()),
        r matches Err(e) ==> e.spec_kind() == (VirExecutionErrorKind::UnsupportedObjectEffectType { access: shape.spec_access() }),
{
    let ok = match memory.type_capabilities(shape.access().ty) {
        Some(c) => c.pointer_free_trivial(),
        None => false,
    };
    if ok {
        Ok(())
    } else {
        Err(error(VirExecutionErrorKind::UnsupportedObjectEffectType { access: shape.access() }, source_span))
    }
}

/// Objects dropped by the runtime: sized, with a trivial or built-in drop and
/// at least one non-raw resource leaf.
pub fn ensure_runtime_object_drop_type(memory: &VirMemorySchema, shape: &VirObjectShape, source_span: ByteSpan)
    -> (r: Result<(), VirExecutionError>)
    ensures
        r is Ok <==> (memory.spec_type_capabilities(shape.spec_access().ty) matches Some(c) && c.size == SizeCapability::Sized
            && (c.drop == DropCapability::TrivialDrop || c.drop == DropCapability::BuiltinDrop)
            && shape.spec_resource_leaves().len() > 0
            && forall|i: int| 0 <= i < shape.spec_resource_leaves().len() ==> (#[trigger] shape.spec_resource_leaves()[i]).spec_kind() != VirPointerKind::Raw),
        r matches Err(e) ==> e.spec_kind() == (VirExecutionErrorKind::UnsupportedObjectEffectType { access: shape.spec_access() }),
{
    let ok = match memory.type_capabilities(shape.access().ty) {
        Some(c) => c.size == SizeCapability::Sized && (c.drop == DropCapability::TrivialDrop || c.drop == DropCapability::BuiltinDrop),
        None => false,
    };
    if ok && shape.resource_leaves().len() > 0 && no_raw_leaves(shape) {
        Ok(())
    } else {
        Err(error(VirExecutionErrorKind::UnsupportedObjectEffectType { access: shape.access() }, source_span))
    }
}

fn no_raw_leaves(shape: &VirObjectShape) -> (r: bool)
    ensures
        r == forall|i: int| 0 <= i < shape.spec_resource_leaves().len() ==> (#[trigger] shape.spec_resource_leaves()[i]).spec_kind() != VirPointerKind::Raw,
{
    let leaves = shape.resource_leaves();
    let mut i: usize = 0;
    while i < leaves.len()
        invariant
            0 <= i <= leaves@.len(),
            leaves@ == shape.spec_resource_leaves(),
            forall|j: int| 0 <= j < i ==> (#[trigger] leaves@[j]).spec_kind() != VirPointerKind::Raw,
        decreases leaves.len() - i,
    {
        if leaves[i].kind() == VirPointerKind::Raw {
            return false;
        }
        i = i + 1;
    }
    true
}

/// Pointee and kind of a non-raw pointer type a payload can own.
pub fn runtime_storable_resource(memory: &VirMemorySchema, access: VirMemoryAccess, source_span: ByteSpan)
    -> (r: Result<(VirMemoryAccess, VirPointerKind), VirExecutionError>)
    ensures
        match memory.spec_kind(access.ty) {
            Some(VirMemoryTypeKind::Pointer { pointee, kind, .. }) => if kind == VirPointerKind::Raw {
                r matches Err(e) && e.spec_kind() == (VirExecutionErrorKind::UnsupportedObjectEffectType { access })
            } else {
                match memory.spec_access(pointee) {
                    Some(a) => r == Ok::<(VirMemoryAccess, VirPointerKind), VirExecutionError>((a, kind)),
                    None => r matches Err(e) && e.spec_kind() == (VirExecutionErrorKind::UnsupportedObjectEffectType { access }),
                }
            },
            _ => r matches Err(e) && e.spec_kind() == (VirExecutionErrorKind::UnsupportedObjectEffectType { access }),
        },
{
    let (pointee, kind) = match memory.kind(access.ty) {
        Some(VirMemoryTypeKind::Pointer { pointee, kind, .. }) => (*pointee, *kind),
        _ => return Err(error(VirExecutionErrorKind::UnsupportedObjectEffectType { access }, source_span)),
    };
    if kind == VirPointerKind::Raw {
        return Err(error(VirExecutionErrorKind::UnsupportedObjectEffectType { access }, source_span));
    }
    match memory.access(pointee) {
        Some(a) => Ok((a, kind)),
        None => Err(error(VirExecutionErrorKind::UnsupportedObjectEffectType { access }, source_span)),
    }
}

/// Index of the first case of `cases` at `path` for `enum_access`.
pub open spec fn case_at(cases: Seq<VirObjectVariantShape>, path: Seq<VirObjectPathSegment>, enum_access: VirMemoryAccess) -> Option<int>
    decreases cases.len(),
{
    if cases.len() == 0 {
        None
    } else {
        match case_at(cases.drop_last(), path, enum_access) {
            Some(i) => Some(i),
            None => if cases.last().spec_path().spec_segments() == path && cases.last().spec_enum_access() == enum_access {
                Some(cases.len() - 1)
            } else {
                None
            },
        }
    }
}

/// Index of the first case of `cases` at `path` for `enum_access` whose
/// discriminant is `discriminant`.
pub open spec fn case_with_discriminant(
    cases: Seq<VirObjectVariantShape>,
    path: Seq<VirObjectPathSegment>,
    enum_access: VirMemoryAccess,
    discriminant: u64,
) -> Option<int>
    decreases cases.len(),
{
    if cases.len() == 0 {
        None
    } else {
        match case_with_discriminant(cases.drop_last(), path, enum_access, discriminant) {
            Some(i) => Some(i),
            None => if cases.last().spec_path().spec_segments() == path && cases.last().spec_enum_access() == enum_access
                && cases.last().spec_discriminant() == discriminant {
                Some(cases.len() - 1)
            } else {
                None
            },
        }
    }
}

/// A case found in a prefix is the one found in the whole sequence.
pub proof fn lemma_case_at_prefix(cases: Seq<VirObjectVariantShape>, path: Seq<VirObjectPathSegment>, enum_access: VirMemoryAccess, n: int)
    requires
        0 <= n <= cases.len(),
        case_at(cases.take(n), path, enum_access) is Some,
    ensures
        case_at(cases, path, enum_access) == case_at(cases.take(n), path, enum_access),
    decreases cases.len() - n,
{
    if n < cases.len() {
        assert(cases.take(n + 1).drop_last() == cases.take(n));
        lemma_case_at_prefix(cases, path, enum_access, n + 1);
    } else {
        assert(cases.take(n) == cases);
    }
}

/// A case found in a prefix is the one found in the whole sequence.
pub proof fn lemma_case_with_discriminant_prefix(
    cases: Seq<VirObjectVariantShape>,
    path: Seq<VirObjectPathSegment>,
    enum_access: VirMemoryAccess,
    discriminant: u64,
    n: int,
)
    requires
        0 <= n <= cases.len(),
        case_with_discriminant(cases.take(n), path, enum_access, discriminant) is Some,
    ensures
        case_with_discriminant(cases, path, enum_access, discriminant) == case_with_discriminant(cases.take(n), path, enum_access, discriminant),
    decreases cases.len() - n,
{
    if n < cases.len() {
        assert(cases.take(n + 1).drop_last() == cases.take(n));
        lemma_case_with_discriminant_prefix(cases, path, enum_access, discriminant, n + 1);
    } else {
        assert(cases.take(n) == cases);
    }
}

/// Index of the first case of `cases` at `path` for variant `variant`.
pub open spec fn case_for_variant(cases: Seq<VirObjectVariantShape>, path: Seq<VirObjectPathSegment>, variant: VirVariantId) -> Option<int>
    decreases cases.len(),
{
    if cases.len() == 0 {
        None
    } else {
        match case_for_variant(cases.drop_last(), path, variant) {
            Some(i) => Some(i),
            None => if cases.last().spec_path().spec_segments() == path && cases.last().spec_variant() == variant {
                Some(cases.len() - 1)
            } else {
                None
            },
        }
    }
}

/// A case found in a prefix is the one found in the whole sequence.
pub proof fn lemma_case_for_variant_prefix(cases: Seq<VirObjectVariantShape>, path: Seq<VirObjectPathSegment>, variant: VirVariantId, n: int)
    requires
        0 <= n <= cases.len(),
        case_for_variant(cases.take(n), path, variant) is Some,
    ensures
        case_for_variant(cases, path, variant) == case_for_variant(cases.take(n), path, variant),
    decreases cases.len() - n,
{
    if n < cases.len() {
        assert(cases.take(n + 1).drop_last() == cases.take(n));
        lemma_case_for_variant_prefix(cases, path, variant, n + 1);
    } else {
        assert(cases.take(n) == cases);
    }
}

/// The case found is at `path` for `variant`.
pub proof fn lemma_case_for_variant_found(cases: Seq<VirObjectVariantShape>, path: Seq<VirObjectPathSegment>, variant: VirVariantId)
    requires
        case_for_variant(cases, path, variant) is Some,
    ensures
        0 <= case_for_variant(cases, path, variant)->0 < cases.len(),
        cases[case_for_variant(cases, path, variant)->0].spec_path().spec_segments() == path,
        cases[case_for_variant(cases, path, variant)->0].spec_variant() == variant,
    decreases cases.len(),
{
    if cases.len() > 0 && case_for_variant(cases.drop_last(), path, variant) is Some {
        lemma_case_for_variant_found(cases.drop_last(), path, variant);
    }
}

/// A path without variant segments passes through no inactive case.
pub proof fn lemma_inactive_without_variants(
    s: Interpreter,
    memory: VirMemorySchema,
    pointer: VirRuntimePointer,
    shape: VirObjectShape,
    path: Seq<VirObjectPathSegment>,
    i: nat,
)
    requires
        forall|j: int| 0 <= j < path.len() ==> !(#[trigger] path[j] is Variant),
    ensures
        s.inactive_from(memory, pointer, shape, path, i) == Ok::<Option<RuntimeInactiveVariant>, VirExecutionErrorKind>(None),
    decreases path.len() - i,
{
    if i < path.len() {
        assert(!(path[i as int] is Variant));
        lemma_inactive_without_variants(s, memory, pointer, shape, path, i + 1);
    }
}

} // verus!
