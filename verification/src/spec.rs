//! Canonical specification tables of one VIR unit: contracts with their
//! binders and resources, pure terms, clauses, predicates, proves, trust
//! entries and loop invariants.

use vstd::prelude::*;

use crate::ids::{VirContractId, VirFunctionId, VirOriginId, VirRegionId, VirValueId};
use crate::source_map::VirLocation;
use crate::types::{VirSignature, VirType};

verus! {

/// Dense identifier of one signature binder within a contract.
#[derive(Clone, Copy, Debug, PartialEq, Eq, PartialOrd, Ord, Hash, Structural)]
pub struct VirContractBinderId(pub u32);

/// Dense identifier of one symbolic memory resource within a contract.
#[derive(Clone, Copy, Debug, PartialEq, Eq, PartialOrd, Ord, Hash, Structural)]
pub struct VirContractResourceId(pub u32);

/// Dense identifier of one clause within a contract.
#[derive(Clone, Copy, Debug, PartialEq, Eq, PartialOrd, Ord, Hash, Structural)]
pub struct VirSpecClauseId(pub u32);

/// Dense identifier of one ghost/specification binder.
#[derive(Clone, Copy, Debug, PartialEq, Eq, PartialOrd, Ord, Hash, Structural)]
pub struct VirSpecBinderId(pub u32);

/// Dense identifier of one flat pure specification term.
#[derive(Clone, Copy, Debug, PartialEq, Eq, PartialOrd, Ord, Hash, Structural)]
pub struct VirSpecTermId(pub u32);

/// Dense identifier of one structured specification assertion.
#[derive(Clone, Copy, Debug, PartialEq, Eq, PartialOrd, Ord, Hash, Structural)]
pub struct VirSpecAssertionId(pub u32);

/// Dense identifier of one predicate declaration.
#[derive(Clone, Copy, Debug, PartialEq, Eq, PartialOrd, Ord, Hash, Structural)]
pub struct VirPredicateId(pub u32);

/// Dense identifier of one proof prove.
#[derive(Clone, Copy, Debug, PartialEq, Eq, PartialOrd, Ord, Hash, Structural)]
pub struct VirSpecProveId(pub u32);

/// Dense identifier of one audited trust entry.
#[derive(Clone, Copy, Debug, PartialEq, Eq, PartialOrd, Ord, Hash, Structural)]
pub struct VirTrustEntryId(pub u32);

/// Dense identifier of one loop invariant.
#[derive(Clone, Copy, Debug, PartialEq, Eq, PartialOrd, Ord, Hash, Structural)]
pub struct VirSpecLoopInvariantId(pub u32);

impl VirContractBinderId {
    pub fn new(raw: u32) -> (id: Self)
        ensures
            id.0 == raw,
    {
        VirContractBinderId(raw)
    }

    pub fn get(self) -> (raw: u32)
        ensures
            raw == self.0,
    {
        self.0
    }
}

impl VirContractResourceId {
    pub fn new(raw: u32) -> (id: Self)
        ensures
            id.0 == raw,
    {
        VirContractResourceId(raw)
    }

    pub fn get(self) -> (raw: u32)
        ensures
            raw == self.0,
    {
        self.0
    }
}

impl VirSpecClauseId {
    pub fn new(raw: u32) -> (id: Self)
        ensures
            id.0 == raw,
    {
        VirSpecClauseId(raw)
    }

    pub fn get(self) -> (raw: u32)
        ensures
            raw == self.0,
    {
        self.0
    }
}

impl VirSpecBinderId {
    pub fn new(raw: u32) -> (id: Self)
        ensures
            id.0 == raw,
    {
        VirSpecBinderId(raw)
    }

    pub fn get(self) -> (raw: u32)
        ensures
            raw == self.0,
    {
        self.0
    }
}

impl VirSpecTermId {
    pub fn new(raw: u32) -> (id: Self)
        ensures
            id.0 == raw,
    {
        VirSpecTermId(raw)
    }

    pub fn get(self) -> (raw: u32)
        ensures
            raw == self.0,
    {
        self.0
    }
}

impl VirSpecAssertionId {
    pub fn new(raw: u32) -> (id: Self)
        ensures
            id.0 == raw,
    {
        VirSpecAssertionId(raw)
    }

    pub fn get(self) -> (raw: u32)
        ensures
            raw == self.0,
    {
        self.0
    }
}

impl VirPredicateId {
    pub fn new(raw: u32) -> (id: Self)
        ensures
            id.0 == raw,
    {
        VirPredicateId(raw)
    }

    pub fn get(self) -> (raw: u32)
        ensures
            raw == self.0,
    {
        self.0
    }
}

impl VirSpecProveId {
    pub fn new(raw: u32) -> (id: Self)
        ensures
            id.0 == raw,
    {
        VirSpecProveId(raw)
    }

    pub fn get(self) -> (raw: u32)
        ensures
            raw == self.0,
    {
        self.0
    }
}

impl VirTrustEntryId {
    pub fn new(raw: u32) -> (id: Self)
        ensures
            id.0 == raw,
    {
        VirTrustEntryId(raw)
    }

    pub fn get(self) -> (raw: u32)
        ensures
            raw == self.0,
    {
        self.0
    }
}

impl VirSpecLoopInvariantId {
    pub fn new(raw: u32) -> (id: Self)
        ensures
            id.0 == raw,
    {
        VirSpecLoopInvariantId(raw)
    }

    pub fn get(self) -> (raw: u32)
        ensures
            raw == self.0,
    {
        self.0
    }
}

/// Closed scalar type set admitted by the pure logic.
#[derive(Clone, Copy, Debug, PartialEq, Eq, Hash, Structural)]
pub enum VirSpecType {
    Bool,
    U64,
}

/// Stable logical point independent from a source byte span.
#[derive(Clone, Copy, Debug, PartialEq, Eq, PartialOrd, Ord, Hash, Structural)]
pub enum VirSpecLocation {
    FunctionEntry { function: VirFunctionId },
    FunctionResult { function: VirFunctionId },
    Runtime(VirLocation),
}

impl VirSpecLocation {
    pub open spec fn spec_function(self) -> VirFunctionId {
        match self {
            VirSpecLocation::FunctionEntry { function } => function,
            VirSpecLocation::FunctionResult { function } => function,
            VirSpecLocation::Runtime(location) => location.spec_function(),
        }
    }

    /// The function the point belongs to.
    pub fn function(self) -> (r: VirFunctionId)
        ensures
            r == self.spec_function(),
    {
        match self {
            VirSpecLocation::FunctionEntry { function } => function,
            VirSpecLocation::FunctionResult { function } => function,
            VirSpecLocation::Runtime(location) => location.function(),
        }
    }
}

/// Visibility owner of one ghost binder.
#[derive(Clone, Copy, Debug, PartialEq, Eq, PartialOrd, Ord, Hash, Structural)]
pub enum VirSpecBinderOwner {
    Clause(VirSpecClauseId),
    Predicate(VirPredicateId),
}

/// One pure ghost name. Runtime instructions cannot name this ID type.
#[derive(Clone, Debug, PartialEq, Eq)]
pub struct VirSpecBinder {
    pub id: VirSpecBinderId,
    pub owner: VirSpecBinderOwner,
    pub name: String,
    pub ty: VirSpecType,
    pub origin: VirOriginId,
}

/// A one-way snapshot of a runtime signature slot.
#[derive(Clone, Copy, Debug, PartialEq, Eq, PartialOrd, Ord, Hash, Structural)]
pub enum VirSpecSnapshot {
    /// Immutable scalar entry value, owned only by a function ensures clause.
    EntryParameter { function: VirFunctionId, slot: u32 },
    Parameter { function: VirFunctionId, slot: u32 },
    Result { function: VirFunctionId, slot: u32 },
    /// Runtime SSA value observed at the clause's exact runtime location.
    Value { function: VirFunctionId, value: VirValueId },
}

/// One globally dense, flat pure term.
#[derive(Clone, Debug, PartialEq, Eq)]
pub struct VirSpecTerm {
    pub id: VirSpecTermId,
    pub clause: VirSpecClauseId,
    pub ty: VirSpecType,
    pub kind: VirSpecTermKind,
    pub origin: VirOriginId,
}

/// Minimal pure logic; child IDs must refer to earlier same-clause terms.
#[derive(Clone, Debug, PartialEq, Eq)]
pub enum VirSpecTermKind {
    CheckedAdd { left: VirSpecTermId, right: VirSpecTermId },
    CheckedSub { left: VirSpecTermId, right: VirSpecTermId },
    CheckedScale { operand: VirSpecTermId, stride: u64 },
    RangeContains { outer_start: VirSpecTermId, outer_end: VirSpecTermId, inner_start: VirSpecTermId, inner_end: VirSpecTermId },
    RangeDisjoint { left_start: VirSpecTermId, left_end: VirSpecTermId, right_start: VirSpecTermId, right_end: VirSpecTermId },
    Bool(bool),
    U64(u64),
    Binder(VirSpecBinderId),
    Snapshot(VirSpecSnapshot),
    Equal { left: VirSpecTermId, right: VirSpecTermId },
    LessThan { left: VirSpecTermId, right: VirSpecTermId },
    LessOrEqual { left: VirSpecTermId, right: VirSpecTermId },
    Not(VirSpecTermId),
    And(Vec<VirSpecTermId>),
    Or(Vec<VirSpecTermId>),
}

impl VirSpecTermKind {
    /// Terms whose evaluation performs checked numeric work.
    pub fn is_checked_numeric(&self) -> (r: bool)
        ensures
            r == (self is CheckedAdd || self is CheckedSub || self is CheckedScale || self is RangeContains
                || self is RangeDisjoint),
    {
        matches!(
            self,
            VirSpecTermKind::CheckedAdd { .. } | VirSpecTermKind::CheckedSub { .. } | VirSpecTermKind::CheckedScale { .. }
            | VirSpecTermKind::RangeContains { .. } | VirSpecTermKind::RangeDisjoint { .. }
        )
    }
}

/// Whether a contract binder or clause describes function entry or return.
#[derive(Clone, Copy, Debug, PartialEq, Eq, PartialOrd, Ord, Hash, Structural)]
pub enum VirContractPosition {
    Requires,
    Ensures,
}

/// One typed name for a flattened runtime signature slot.
#[derive(Clone, Copy, Debug, PartialEq, Eq, Hash, Structural)]
pub struct VirContractBinder {
    pub id: VirContractBinderId,
    pub position: VirContractPosition,
    pub slot: u32,
    pub ty: VirType,
}

/// One symbolic resource name shared by the clauses of a contract.
#[derive(Clone, Copy, Debug, PartialEq, Eq, Hash, Structural)]
pub struct VirContractResource {
    pub id: VirContractResourceId,
}

/// Auditable source of one checked specification clause.
#[derive(Clone, Copy, Debug, PartialEq, Eq, Hash, Structural)]
pub enum VirSpecClauseOrigin {
    InferredType { origin: VirOriginId },
    Explicit { origin: VirOriginId },
}

impl VirSpecClauseOrigin {
    pub fn origin(self) -> (r: VirOriginId)
        ensures
            r == (match self {
                VirSpecClauseOrigin::InferredType { origin } => origin,
                VirSpecClauseOrigin::Explicit { origin } => origin,
            }),
    {
        match self {
            VirSpecClauseOrigin::InferredType { origin } => origin,
            VirSpecClauseOrigin::Explicit { origin } => origin,
        }
    }
}

#[derive(Clone, Copy, Debug, PartialEq, Eq, Hash, Structural)]
pub enum VirContractInitialization {
    Initialized,
    Uninitialized,
    Unknown,
}

#[derive(Clone, Copy, Debug, PartialEq, Eq, Hash, Structural)]
pub enum VirContractLiveness {
    Live,
    Dead,
}

#[derive(Clone, Copy, Debug, PartialEq, Eq, Hash, Structural)]
pub enum VirContractOwnership {
    Owned,
    Unowned,
    /// Function-frame storage borrowed across one internal call boundary.
    Local,
}

#[derive(Clone, Copy, Debug, PartialEq, Eq, Hash, Structural)]
pub enum VirContractAccess {
    Read,
    Write,
}

#[derive(Clone, Copy, Debug, PartialEq, Eq, Hash, Structural)]
pub enum VirContractFree {
    No,
    Yes,
}

/// Pointer guarantee attached to one signature binder.
#[derive(Clone, Copy, Debug, PartialEq, Eq, Hash, Structural)]
pub struct VirContractPointer {
    pub binder: VirContractBinderId,
    pub offset_lower: u64,
    pub offset_upper: u64,
    pub alignment: u64,
}

/// Permission guarantee attached to one signature binder.
#[derive(Clone, Copy, Debug, PartialEq, Eq, Hash, Structural)]
pub struct VirContractPermission {
    pub binder: VirContractBinderId,
    pub start_byte: u64,
    pub end_byte: u64,
    pub access: VirContractAccess,
    pub free: VirContractFree,
}

/// A verifier-independent memory-resource summary: the allocation fact and
/// every pointer/permission view contributed by one clause.
#[derive(Clone, Debug, PartialEq, Eq)]
pub struct VirContractResourceSummary {
    pub resource: VirContractResourceId,
    pub region: VirRegionId,
    pub size_bytes: u64,
    pub alignment: u64,
    pub liveness: VirContractLiveness,
    pub ownership: VirContractOwnership,
    pub initialization: VirContractInitialization,
    pub pointers: Vec<VirContractPointer>,
    pub permissions: Vec<VirContractPermission>,
}

/// Closed clause set shared by contracts, proves, trust entries and loop invariants.
#[derive(Clone, Debug, PartialEq, Eq)]
pub enum VirSpecClauseKind {
    Assertion { root: VirSpecAssertionId },
    Resource(VirContractResourceSummary),
    U64Range { binder: VirContractBinderId, lower: u64, upper: u64 },
    BoolValue { binder: VirContractBinderId, value: bool },
    Logic { root: VirSpecTermId },
}

/// Entity that owns one entry in the shared clause arena.
#[derive(Clone, Copy, Debug, PartialEq, Eq, PartialOrd, Ord, Hash, Structural)]
pub enum VirSpecClauseOwner {
    Contract { contract: VirContractId, position: VirContractPosition },
    Prove(VirSpecProveId),
    TrustEntry(VirTrustEntryId),
    LoopInvariant(VirSpecLoopInvariantId),
}

#[derive(Clone, Debug, PartialEq, Eq)]
pub struct VirSpecClause {
    pub id: VirSpecClauseId,
    pub owner: VirSpecClauseOwner,
    pub location: VirSpecLocation,
    pub origin: VirSpecClauseOrigin,
    pub kind: VirSpecClauseKind,
}

/// Predicate declaration without a body.
#[derive(Clone, Debug, PartialEq, Eq)]
pub struct VirPredicate {
    pub id: VirPredicateId,
    pub name: String,
    pub binders: Vec<VirSpecBinderId>,
    pub origin: VirOriginId,
    pub body: Option<VirSpecClauseId>,
}

/// A typed, runtime-erased `Prove` obligation.
#[derive(Clone, Debug, PartialEq, Eq)]
pub struct VirSpecProve {
    pub id: VirSpecProveId,
    pub function: VirFunctionId,
    pub location: VirSpecLocation,
    pub clause: VirSpecClauseId,
    pub origin: VirOriginId,
}

/// Logical scope of a registered assumption.
#[derive(Clone, Copy, Debug, PartialEq, Eq, PartialOrd, Ord, Hash, Structural)]
pub enum VirTrustScope {
    FunctionEntry { function: VirFunctionId },
    FunctionResult { function: VirFunctionId },
    Runtime(VirLocation),
}

impl VirTrustScope {
    pub open spec fn spec_location(self) -> VirSpecLocation {
        match self {
            VirTrustScope::FunctionEntry { function } => VirSpecLocation::FunctionEntry { function },
            VirTrustScope::FunctionResult { function } => VirSpecLocation::FunctionResult { function },
            VirTrustScope::Runtime(location) => VirSpecLocation::Runtime(location),
        }
    }

    /// The function the scope belongs to.
    pub fn function(self) -> (r: VirFunctionId)
        ensures
            r == self.spec_location().spec_function(),
    {
        match self {
            VirTrustScope::FunctionEntry { function } => function,
            VirTrustScope::FunctionResult { function } => function,
            VirTrustScope::Runtime(location) => location.function(),
        }
    }

    /// The logical point the scope denotes.
    pub fn location(self) -> (r: VirSpecLocation)
        ensures
            r == self.spec_location(),
    {
        match self {
            VirTrustScope::FunctionEntry { function } => VirSpecLocation::FunctionEntry { function },
            VirTrustScope::FunctionResult { function } => VirSpecLocation::FunctionResult { function },
            VirTrustScope::Runtime(location) => VirSpecLocation::Runtime(location),
        }
    }
}

/// Closed trust-policy classification. Only `EntryPointAssumption` is
/// admitted; the other variants are reserved and validation denies them.
#[derive(Clone, Copy, Debug, PartialEq, Eq, PartialOrd, Ord, Hash, Structural)]
pub enum VirTrustPolicyKind {
    EntryPointAssumption,
    ForeignContract,
    ExternallyVerified,
}

/// One typed, sourced fact deliberately imported into verification; the
/// only VIR representation of an assumption.
#[derive(Clone, Debug, PartialEq, Eq)]
pub struct VirTrustEntry {
    pub id: VirTrustEntryId,
    pub scope: VirTrustScope,
    pub policy: VirTrustPolicyKind,
    pub clause: VirSpecClauseId,
    pub origin: VirOriginId,
}

/// Typed loop-invariant identity.
#[derive(Clone, Debug, PartialEq, Eq)]
pub struct VirSpecLoopInvariant {
    pub id: VirSpecLoopInvariantId,
    pub function: VirFunctionId,
    pub location: VirSpecLocation,
    pub clause: VirSpecClauseId,
    pub origin: VirOriginId,
}

/// One function-owned contract in the canonical VIR specification table.
#[derive(Clone, Debug, PartialEq, Eq)]
pub struct VirContract {
    pub id: VirContractId,
    pub function: VirFunctionId,
    pub signature: VirSignature,
    pub binders: Vec<VirContractBinder>,
    pub resources: Vec<VirContractResource>,
    pub clauses: Vec<VirSpecClauseId>,
}

/// The binders of an implicit contract: one per parameter slot (requires),
/// then one per result slot (ensures), numbered densely.
pub open spec fn implicit_binders(parameters: Seq<VirType>, results: Seq<VirType>) -> Seq<VirContractBinder> {
    Seq::new(parameters.len() + results.len(), |i: int| if i < parameters.len() {
        VirContractBinder { id: VirContractBinderId(i as u32), position: VirContractPosition::Requires, slot: i as u32, ty: parameters[i] }
    } else {
        VirContractBinder {
            id: VirContractBinderId(i as u32),
            position: VirContractPosition::Ensures,
            slot: (i - parameters.len()) as u32,
            ty: results[i - parameters.len()],
        }
    })
}

impl VirContract {
    /// Creates a deterministic empty contract with one binder per signature
    /// slot. The returned raw contract may be extended before unit validation.
    pub fn implicit(function: VirFunctionId, contract: VirContractId, signature: &VirSignature) -> (r: Self)
        ensures
            r.id == contract,
            r.function == function,
            r.signature.parameters@ == signature.parameters@,
            r.signature.results@ == signature.results@,
            r.binders@ == implicit_binders(signature.parameters@, signature.results@),
            r.resources@.len() == 0,
            r.clauses@.len() == 0,
    {
        let mut binders: Vec<VirContractBinder> = Vec::new();
        let np = signature.parameters.len();
        let mut slot: usize = 0;
        while slot < np
            invariant
                0 <= slot <= np,
                np == signature.parameters@.len(),
                binders@ == implicit_binders(signature.parameters@, signature.results@).take(slot as int),
            decreases np - slot,
        {
            binders.push(VirContractBinder {
                id: VirContractBinderId(#[verifier::truncate] (binders.len() as u32)),
                position: VirContractPosition::Requires,
                slot: #[verifier::truncate] (slot as u32),
                ty: signature.parameters[slot],
            });
            assert(binders@ == implicit_binders(signature.parameters@, signature.results@).take(slot + 1));
            slot = slot + 1;
        }
        let nr = signature.results.len();
        let mut slot: usize = 0;
        while slot < nr
            invariant
                0 <= slot <= nr,
                np == signature.parameters@.len(),
                nr == signature.results@.len(),
                binders@ == implicit_binders(signature.parameters@, signature.results@).take(np + slot),
            decreases nr - slot,
        {
            binders.push(VirContractBinder {
                id: VirContractBinderId(#[verifier::truncate] (binders.len() as u32)),
                position: VirContractPosition::Ensures,
                slot: #[verifier::truncate] (slot as u32),
                ty: signature.results[slot],
            });
            assert(binders@ == implicit_binders(signature.parameters@, signature.results@).take(np + slot + 1));
            slot = slot + 1;
        }
        assert(binders@ == implicit_binders(signature.parameters@, signature.results@));
        VirContract { id: contract, function, signature: signature.copy(), binders, resources: Vec::new(), clauses: Vec::new() }
    }

    /// The first binder at `position` for signature slot `slot`.
    pub fn binder(&self, position: VirContractPosition, slot: usize) -> (r: Option<VirContractBinderId>)
        ensures
            match r {
                Some(id) => exists|i: int| 0 <= i < self.binders@.len() && (#[trigger] self.binders@[i]).id == id
                    && self.binders@[i].position == position && self.binders@[i].slot == slot
                    && forall|j: int| 0 <= j < i ==> !((#[trigger] self.binders@[j]).position == position && self.binders@[j].slot == slot),
                None => forall|i: int| 0 <= i < self.binders@.len() ==> !((#[trigger] self.binders@[i]).position == position
                    && self.binders@[i].slot == slot),
            },
    {
        let mut i: usize = 0;
        while i < self.binders.len()
            invariant
                0 <= i <= self.binders@.len(),
                forall|j: int| 0 <= j < i ==> !((#[trigger] self.binders@[j]).position == position && self.binders@[j].slot == slot),
            decreases self.binders.len() - i,
        {
            let b = self.binders[i];
            if b.position == position && b.slot as usize == slot {
                return Some(b.id);
            }
            i = i + 1;
        }
        None
    }

    /// Adds a dense resource name for a following clause.
    pub fn add_resource(&mut self) -> (id: VirContractResourceId)
        requires
            old(self).resources@.len() < u32::MAX,
        ensures
            id.0 == old(self).resources@.len(),
            final(self).resources@ == old(self).resources@.push(VirContractResource { id }),
            final(self).id == old(self).id,
            final(self).function == old(self).function,
            final(self).binders@ == old(self).binders@,
            final(self).clauses@ == old(self).clauses@,
    {
        let id = VirContractResourceId(self.resources.len() as u32);
        self.resources.push(VirContractResource { id });
        id
    }
}

/// Canonical specification tables owned by one VIR unit.
#[derive(Clone, Debug, Default, PartialEq, Eq)]
pub struct VirSpecEnvironment {
    contracts: Vec<VirContract>,
    predicates: Vec<VirPredicate>,
    binders: Vec<VirSpecBinder>,
    terms: Vec<VirSpecTerm>,
    clauses: Vec<VirSpecClause>,
    proves: Vec<VirSpecProve>,
    trust_entries: Vec<VirTrustEntry>,
    loop_invariants: Vec<VirSpecLoopInvariant>,
}

/// Unvalidated deterministic tables consumed atomically by
/// `VirSpecEnvironment::from_tables`.
#[derive(Clone, Debug, Default, PartialEq, Eq)]
pub struct VirSpecTables {
    pub contracts: Vec<VirContract>,
    pub predicates: Vec<VirPredicate>,
    pub binders: Vec<VirSpecBinder>,
    pub terms: Vec<VirSpecTerm>,
    pub clauses: Vec<VirSpecClause>,
    pub proves: Vec<VirSpecProve>,
    pub trust_entries: Vec<VirTrustEntry>,
    pub loop_invariants: Vec<VirSpecLoopInvariant>,
}

impl VirSpecEnvironment {
    pub closed spec fn spec_contracts(&self) -> Seq<VirContract> {
        self.contracts@
    }

    pub closed spec fn spec_predicates(&self) -> Seq<VirPredicate> {
        self.predicates@
    }

    pub closed spec fn spec_binders(&self) -> Seq<VirSpecBinder> {
        self.binders@
    }

    pub closed spec fn spec_terms(&self) -> Seq<VirSpecTerm> {
        self.terms@
    }

    pub closed spec fn spec_clauses(&self) -> Seq<VirSpecClause> {
        self.clauses@
    }

    pub closed spec fn spec_proves(&self) -> Seq<VirSpecProve> {
        self.proves@
    }

    pub closed spec fn spec_trust_entries(&self) -> Seq<VirTrustEntry> {
        self.trust_entries@
    }

    pub closed spec fn spec_loop_invariants(&self) -> Seq<VirSpecLoopInvariant> {
        self.loop_invariants@
    }

    /// The contract with identifier `id`, stored at its own index.
    pub open spec fn spec_contract(&self, id: VirContractId) -> Option<VirContract> {
        if id.0 < self.spec_contracts().len() && self.spec_contracts()[id.0 as int].id == id {
            Some(self.spec_contracts()[id.0 as int])
        } else {
            None
        }
    }

    pub open spec fn spec_clause(&self, id: VirSpecClauseId) -> Option<VirSpecClause> {
        if id.0 < self.spec_clauses().len() && self.spec_clauses()[id.0 as int].id == id {
            Some(self.spec_clauses()[id.0 as int])
        } else {
            None
        }
    }

    /// Every table is empty.
    pub open spec fn all_empty(&self) -> bool {
        &&& self.spec_contracts().len() == 0
        &&& self.spec_predicates().len() == 0
        &&& self.spec_binders().len() == 0
        &&& self.spec_terms().len() == 0
        &&& self.spec_clauses().len() == 0
        &&& self.spec_proves().len() == 0
        &&& self.spec_trust_entries().len() == 0
        &&& self.spec_loop_invariants().len() == 0
    }

    pub fn empty() -> (r: Self)
        ensures
            r.all_empty(),
    {
        VirSpecEnvironment {
            contracts: Vec::new(),
            predicates: Vec::new(),
            binders: Vec::new(),
            terms: Vec::new(),
            clauses: Vec::new(),
            proves: Vec::new(),
            trust_entries: Vec::new(),
            loop_invariants: Vec::new(),
        }
    }

    /// Creates raw tables holding only contracts.
    pub fn from_contracts(contracts: Vec<VirContract>) -> (r: Self)
        ensures
            r.spec_contracts() == contracts@,
            r.spec_predicates().len() == 0 && r.spec_binders().len() == 0 && r.spec_terms().len() == 0
                && r.spec_clauses().len() == 0 && r.spec_proves().len() == 0 && r.spec_trust_entries().len() == 0
                && r.spec_loop_invariants().len() == 0,
    {
        VirSpecEnvironment { contracts, ..VirSpecEnvironment::empty() }
    }

    /// Constructs raw specification tables; unit validation checks all IDs,
    /// ownership, typing, locations and cross-table references.
    pub fn from_tables(tables: VirSpecTables) -> (r: Self)
        ensures
            r.spec_contracts() == tables.contracts@,
            r.spec_predicates() == tables.predicates@,
            r.spec_binders() == tables.binders@,
            r.spec_terms() == tables.terms@,
            r.spec_clauses() == tables.clauses@,
            r.spec_proves() == tables.proves@,
            r.spec_trust_entries() == tables.trust_entries@,
            r.spec_loop_invariants() == tables.loop_invariants@,
    {
        VirSpecEnvironment {
            contracts: tables.contracts,
            predicates: tables.predicates,
            binders: tables.binders,
            terms: tables.terms,
            clauses: tables.clauses,
            proves: tables.proves,
            trust_entries: tables.trust_entries,
            loop_invariants: tables.loop_invariants,
        }
    }

    pub fn contracts(&self) -> (r: &[VirContract])
        ensures
            r@ == self.spec_contracts(),
    {
        self.contracts.as_slice()
    }

    pub fn contract(&self, id: VirContractId) -> (r: Option<&VirContract>)
        ensures
            crate::memory::same_ref(r, self.spec_contract(id)),
    {
        let index = id.0 as usize;
        if index < self.contracts.len() && self.contracts[index].id == id {
            Some(&self.contracts[index])
        } else {
            None
        }
    }

    pub fn contract_mut(&mut self, id: VirContractId) -> (r: Option<&mut VirContract>)
        ensures
            match r {
                Some(c) => old(self).spec_contract(id) == Some(*c)
                    && final(self).spec_contracts() == old(self).spec_contracts().update(id.0 as int, *final(c))
                    && final(self).spec_clauses() == old(self).spec_clauses()
                    && final(self).spec_predicates() == old(self).spec_predicates()
                    && final(self).spec_binders() == old(self).spec_binders()
                    && final(self).spec_terms() == old(self).spec_terms()
                    && final(self).spec_proves() == old(self).spec_proves()
                    && final(self).spec_trust_entries() == old(self).spec_trust_entries()
                    && final(self).spec_loop_invariants() == old(self).spec_loop_invariants(),
                None => old(self).spec_contract(id) is None && *final(self) == *old(self),
            },
    {
        let index = id.0 as usize;
        if index < self.contracts.len() && self.contracts[index].id == id {
            Some(&mut self.contracts[index])
        } else {
            None
        }
    }

    pub fn predicates_mut(&mut self) -> (r: &mut Vec<VirPredicate>)
        ensures
            r@ == old(self).spec_predicates(),
            final(self).spec_predicates() == final(r)@,
            final(self).spec_contracts() == old(self).spec_contracts(),
            final(self).spec_binders() == old(self).spec_binders(),
            final(self).spec_terms() == old(self).spec_terms(),
            final(self).spec_clauses() == old(self).spec_clauses(),
            final(self).spec_proves() == old(self).spec_proves(),
            final(self).spec_trust_entries() == old(self).spec_trust_entries(),
            final(self).spec_loop_invariants() == old(self).spec_loop_invariants(),
    {
        &mut self.predicates
    }

    pub fn binders_mut(&mut self) -> (r: &mut Vec<VirSpecBinder>)
        ensures
            r@ == old(self).spec_binders(),
            final(self).spec_binders() == final(r)@,
            final(self).spec_contracts() == old(self).spec_contracts(),
            final(self).spec_predicates() == old(self).spec_predicates(),
            final(self).spec_terms() == old(self).spec_terms(),
            final(self).spec_clauses() == old(self).spec_clauses(),
            final(self).spec_proves() == old(self).spec_proves(),
            final(self).spec_trust_entries() == old(self).spec_trust_entries(),
            final(self).spec_loop_invariants() == old(self).spec_loop_invariants(),
    {
        &mut self.binders
    }

    pub fn terms_mut(&mut self) -> (r: &mut Vec<VirSpecTerm>)
        ensures
            r@ == old(self).spec_terms(),
            final(self).spec_terms() == final(r)@,
            final(self).spec_contracts() == old(self).spec_contracts(),
            final(self).spec_predicates() == old(self).spec_predicates(),
            final(self).spec_binders() == old(self).spec_binders(),
            final(self).spec_clauses() == old(self).spec_clauses(),
            final(self).spec_proves() == old(self).spec_proves(),
            final(self).spec_trust_entries() == old(self).spec_trust_entries(),
            final(self).spec_loop_invariants() == old(self).spec_loop_invariants(),
    {
        &mut self.terms
    }

    pub fn clauses_mut(&mut self) -> (r: &mut Vec<VirSpecClause>)
        ensures
            r@ == old(self).spec_clauses(),
            final(self).spec_clauses() == final(r)@,
            final(self).spec_contracts() == old(self).spec_contracts(),
            final(self).spec_predicates() == old(self).spec_predicates(),
            final(self).spec_binders() == old(self).spec_binders(),
            final(self).spec_terms() == old(self).spec_terms(),
            final(self).spec_proves() == old(self).spec_proves(),
            final(self).spec_trust_entries() == old(self).spec_trust_entries(),
            final(self).spec_loop_invariants() == old(self).spec_loop_invariants(),
    {
        &mut self.clauses
    }

    pub fn proves_mut(&mut self) -> (r: &mut Vec<VirSpecProve>)
        ensures
            r@ == old(self).spec_proves(),
            final(self).spec_proves() == final(r)@,
            final(self).spec_contracts() == old(self).spec_contracts(),
            final(self).spec_predicates() == old(self).spec_predicates(),
            final(self).spec_binders() == old(self).spec_binders(),
            final(self).spec_terms() == old(self).spec_terms(),
            final(self).spec_clauses() == old(self).spec_clauses(),
            final(self).spec_trust_entries() == old(self).spec_trust_entries(),
            final(self).spec_loop_invariants() == old(self).spec_loop_invariants(),
    {
        &mut self.proves
    }

    pub fn trust_entries_mut(&mut self) -> (r: &mut Vec<VirTrustEntry>)
        ensures
            r@ == old(self).spec_trust_entries(),
            final(self).spec_trust_entries() == final(r)@,
            final(self).spec_contracts() == old(self).spec_contracts(),
            final(self).spec_predicates() == old(self).spec_predicates(),
            final(self).spec_binders() == old(self).spec_binders(),
            final(self).spec_terms() == old(self).spec_terms(),
            final(self).spec_clauses() == old(self).spec_clauses(),
            final(self).spec_proves() == old(self).spec_proves(),
            final(self).spec_loop_invariants() == old(self).spec_loop_invariants(),
    {
        &mut self.trust_entries
    }

    pub fn loop_invariants_mut(&mut self) -> (r: &mut Vec<VirSpecLoopInvariant>)
        ensures
            r@ == old(self).spec_loop_invariants(),
            final(self).spec_loop_invariants() == final(r)@,
            final(self).spec_contracts() == old(self).spec_contracts(),
            final(self).spec_predicates() == old(self).spec_predicates(),
            final(self).spec_binders() == old(self).spec_binders(),
            final(self).spec_terms() == old(self).spec_terms(),
            final(self).spec_clauses() == old(self).spec_clauses(),
            final(self).spec_proves() == old(self).spec_proves(),
            final(self).spec_trust_entries() == old(self).spec_trust_entries(),
    {
        &mut self.loop_invariants
    }

    pub fn predicates(&self) -> (r: &[VirPredicate])
        ensures
            r@ == self.spec_predicates(),
    {
        self.predicates.as_slice()
    }

    pub fn binders(&self) -> (r: &[VirSpecBinder])
        ensures
            r@ == self.spec_binders(),
    {
        self.binders.as_slice()
    }

    pub fn terms(&self) -> (r: &[VirSpecTerm])
        ensures
            r@ == self.spec_terms(),
    {
        self.terms.as_slice()
    }

    pub fn clauses(&self) -> (r: &[VirSpecClause])
        ensures
            r@ == self.spec_clauses(),
    {
        self.clauses.as_slice()
    }

    pub fn clause(&self, id: VirSpecClauseId) -> (r: Option<&VirSpecClause>)
        ensures
            crate::memory::same_ref(r, self.spec_clause(id)),
    {
        let index = id.0 as usize;
        if index < self.clauses.len() && self.clauses[index].id == id {
            Some(&self.clauses[index])
        } else {
            None
        }
    }

    pub fn proves(&self) -> (r: &[VirSpecProve])
        ensures
            r@ == self.spec_proves(),
    {
        self.proves.as_slice()
    }

    pub fn trust_entries(&self) -> (r: &[VirTrustEntry])
        ensures
            r@ == self.spec_trust_entries(),
    {
        self.trust_entries.as_slice()
    }

    pub fn loop_invariants(&self) -> (r: &[VirSpecLoopInvariant])
        ensures
            r@ == self.spec_loop_invariants(),
    {
        self.loop_invariants.as_slice()
    }

    /// Adds one globally dense contract clause and records it in its owner.
    pub fn add_contract_clause(
        &mut self,
        contract: VirContractId,
        position: VirContractPosition,
        origin: VirSpecClauseOrigin,
        kind: VirSpecClauseKind,
    ) -> (r: Option<VirSpecClauseId>)
        ensures
            old(self).spec_contract(contract) is None || old(self).spec_clauses().len() > u32::MAX ==> (r is None
                && final(self).spec_clauses() == old(self).spec_clauses() && final(self).spec_contracts() == old(self).spec_contracts()),
            old(self).spec_contract(contract) is Some && old(self).spec_clauses().len() <= u32::MAX ==> ({
                let c = old(self).spec_contract(contract).unwrap();
                let id = VirSpecClauseId(old(self).spec_clauses().len() as u32);
                &&& r == Some(id)
                &&& final(self).spec_clauses() == old(self).spec_clauses().push(VirSpecClause {
                    id,
                    owner: VirSpecClauseOwner::Contract { contract, position },
                    location: match position {
                        VirContractPosition::Requires => VirSpecLocation::FunctionEntry { function: c.function },
                        VirContractPosition::Ensures => VirSpecLocation::FunctionResult { function: c.function },
                    },
                    origin,
                    kind,
                })
                &&& final(self).spec_contracts().len() == old(self).spec_contracts().len()
                &&& forall|k: int| 0 <= k < old(self).spec_contracts().len() && k != contract.0 ==> #[trigger] final(self).spec_contracts()[k]
                    == old(self).spec_contracts()[k]
                &&& final(self).spec_contracts()[contract.0 as int].clauses@ == c.clauses@.push(id)
                &&& final(self).spec_contracts()[contract.0 as int].id == c.id
                &&& final(self).spec_contracts()[contract.0 as int].function == c.function
                &&& final(self).spec_contracts()[contract.0 as int].signature == c.signature
                &&& final(self).spec_contracts()[contract.0 as int].binders@ == c.binders@
                &&& final(self).spec_contracts()[contract.0 as int].resources@ == c.resources@
            }),
            final(self).spec_predicates() == old(self).spec_predicates(),
            final(self).spec_binders() == old(self).spec_binders(),
            final(self).spec_terms() == old(self).spec_terms(),
            final(self).spec_proves() == old(self).spec_proves(),
            final(self).spec_trust_entries() == old(self).spec_trust_entries(),
            final(self).spec_loop_invariants() == old(self).spec_loop_invariants(),
    {
        let function = match self.contract(contract) {
            Some(c) => c.function,
            None => return None,
        };
        if self.clauses.len() > u32::MAX as usize {
            return None;
        }
        let id = VirSpecClauseId(self.clauses.len() as u32);
        let location = match position {
            VirContractPosition::Requires => VirSpecLocation::FunctionEntry { function },
            VirContractPosition::Ensures => VirSpecLocation::FunctionResult { function },
        };
        self.clauses.push(VirSpecClause { id, owner: VirSpecClauseOwner::Contract { contract, position }, location, origin, kind });
        let index = contract.0 as usize;
        let mut taken = VirContract {
            id: contract,
            function,
            signature: crate::types::VirSignature { parameters: Vec::new(), results: Vec::new() },
            binders: Vec::new(),
            resources: Vec::new(),
            clauses: Vec::new(),
        };
        std::mem::swap(&mut taken, &mut self.contracts[index]);
        taken.clauses.push(id);
        self.contracts.set(index, taken);
        Some(id)
    }

    /// No specification table holds an entry.
    pub fn is_empty(&self) -> (r: bool)
        ensures
            r == self.all_empty(),
    {
        self.contracts.len() == 0 && self.predicates.len() == 0 && self.binders.len() == 0 && self.terms.len() == 0
            && self.clauses.len() == 0 && self.proves.len() == 0 && self.trust_entries.len() == 0
            && self.loop_invariants.len() == 0
    }

    /// Number of contracts.
    pub fn len(&self) -> (r: usize)
        ensures
            r == self.spec_contracts().len(),
    {
        self.contracts.len()
    }
}

} // verus!
