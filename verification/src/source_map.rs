//! Canonical source, origin and location tables of one VIR unit, and the
//! queries that resolve a runtime location or origin to its source span.

use vstd::prelude::*;

use crate::ids::{ByteSpan, VirBlockId, VirFunctionId, VirOriginId, VirSourceId, VirUnitVersion};
use crate::memory::same_ref;

verus! {

/// One source file named by the canonical VIR source table.
#[derive(Clone, Debug, PartialEq, Eq)]
pub struct VirSource {
    pub id: VirSourceId,
    pub name: String,
    pub byte_len: usize,
}

/// A stable runtime program point independent from its source span.
#[derive(Clone, Copy, Debug, PartialEq, Eq, PartialOrd, Ord, Hash, Structural)]
pub enum VirLocation {
    FunctionEntry { function: VirFunctionId },
    BlockEntry { function: VirFunctionId, block: VirBlockId },
    BlockParameter { function: VirFunctionId, block: VirBlockId, ordinal: u64 },
    Instruction { function: VirFunctionId, block: VirBlockId, ordinal: u64 },
    CallEdge { function: VirFunctionId, block: VirBlockId, instruction: u64 },
    Terminator { function: VirFunctionId, block: VirBlockId },
}

impl VirLocation {
    pub open spec fn spec_function(self) -> VirFunctionId {
        match self {
            VirLocation::FunctionEntry { function } => function,
            VirLocation::BlockEntry { function, .. } => function,
            VirLocation::BlockParameter { function, .. } => function,
            VirLocation::Instruction { function, .. } => function,
            VirLocation::CallEdge { function, .. } => function,
            VirLocation::Terminator { function, .. } => function,
        }
    }

    pub open spec fn spec_block(self) -> Option<VirBlockId> {
        match self {
            VirLocation::FunctionEntry { .. } => None,
            VirLocation::BlockEntry { block, .. } => Some(block),
            VirLocation::BlockParameter { block, .. } => Some(block),
            VirLocation::Instruction { block, .. } => Some(block),
            VirLocation::CallEdge { block, .. } => Some(block),
            VirLocation::Terminator { block, .. } => Some(block),
        }
    }

    /// The function the location belongs to.
    pub fn function(self) -> (r: VirFunctionId)
        ensures
            r == self.spec_function(),
    {
        match self {
            VirLocation::FunctionEntry { function } => function,
            VirLocation::BlockEntry { function, .. } => function,
            VirLocation::BlockParameter { function, .. } => function,
            VirLocation::Instruction { function, .. } => function,
            VirLocation::CallEdge { function, .. } => function,
            VirLocation::Terminator { function, .. } => function,
        }
    }

    /// The block the location lies in; a function entry lies in none.
    pub fn block(self) -> (r: Option<VirBlockId>)
        ensures
            r == self.spec_block(),
    {
        match self {
            VirLocation::FunctionEntry { .. } => None,
            VirLocation::BlockEntry { block, .. } => Some(block),
            VirLocation::BlockParameter { block, .. } => Some(block),
            VirLocation::Instruction { block, .. } => Some(block),
            VirLocation::CallEdge { block, .. } => Some(block),
            VirLocation::Terminator { block, .. } => Some(block),
        }
    }
}

/// Why a runtime location exists without a one-to-one source node.
#[derive(Clone, Copy, Debug, PartialEq, Eq, PartialOrd, Ord, Hash, Structural)]
pub enum VirGeneratedReason {
    ControlFlowBlock,
    BlockParameter,
    PermissionParameter,
    ControlFlowEdge,
    ImplicitReturn,
    LoopIncrement,
    TemporaryStorage,
    ImplicitCopy,
    ImplicitMove,
    ImplicitDrop,
    ScopeCleanup,
    BranchCleanup,
    CallTransfer,
    ReturnTransfer,
    LoanEffect,
}

impl VirGeneratedReason {
    /// Reasons that only format revision 2 and later may record.
    pub open spec fn spec_requires_v2(self) -> bool {
        !(self == VirGeneratedReason::ControlFlowBlock || self == VirGeneratedReason::BlockParameter
            || self == VirGeneratedReason::ControlFlowEdge || self == VirGeneratedReason::ImplicitReturn)
    }

    pub fn requires_v2(self) -> (r: bool)
        ensures
            r == self.spec_requires_v2(),
    {
        !matches!(
            self,
            VirGeneratedReason::ControlFlowBlock | VirGeneratedReason::BlockParameter | VirGeneratedReason::ControlFlowEdge
            | VirGeneratedReason::ImplicitReturn
        )
    }
}

/// Canonical origin payload. Generated origins always delegate their span to
/// an earlier origin and never fabricate an empty source span.
#[derive(Clone, Copy, Debug, PartialEq, Eq, PartialOrd, Ord, Hash, Structural)]
pub enum VirOriginKind {
    User { source: VirSourceId, span: ByteSpan },
    Generated { parent: VirOriginId, reason: VirGeneratedReason },
}

#[derive(Clone, Copy, Debug, PartialEq, Eq, Structural)]
pub struct VirOrigin {
    pub id: VirOriginId,
    pub kind: VirOriginKind,
}

#[derive(Clone, Copy, Debug, PartialEq, Eq, Structural)]
pub struct VirLocationOrigin {
    pub location: VirLocation,
    pub origin: VirOriginId,
}

/// Resolved source position returned by source-map queries.
#[derive(Clone, Copy, Debug, PartialEq, Eq, Structural)]
pub struct VirSourceSpan {
    pub source: VirSourceId,
    pub span: ByteSpan,
}

/// Machine-readable source-map validation failures.
#[derive(Clone, Debug, PartialEq, Eq)]
pub enum VirSourceMapErrorKind {
    EmptySourceTable,
    NonDenseSourceId { expected: VirSourceId, found: VirSourceId },
    DuplicateSourceName(String),
    EmptyOriginTable,
    NonDenseOriginId { expected: VirOriginId, found: VirOriginId },
    DuplicateOrigin(VirOriginKind),
    NonCanonicalOriginOrder,
    UnknownSource(VirSourceId),
    UnknownOrigin(VirOriginId),
    GeneratedReasonRequiresV2 { origin: VirOriginId, reason: VirGeneratedReason },
    GeneratedReasonRequiresV6 { origin: VirOriginId, reason: VirGeneratedReason },
    GeneratedReasonWithoutRuntimeLocation { origin: VirOriginId, reason: VirGeneratedReason },
    SpanOutsideSource { source: VirSourceId, span: ByteSpan, source_len: usize },
    GeneratedParentNotEarlier { origin: VirOriginId, parent: VirOriginId },
    GeneratedFromEmptySpan(VirOriginId),
    NonCanonicalLocationOrder,
    DuplicateLocation(VirLocation),
    MissingLocation(VirLocation),
    UnexpectedLocation(VirLocation),
    ExpectedGeneratedOrigin { location: VirLocation, reason: VirGeneratedReason },
    GeneratedReasonMismatch { location: VirLocation, reason: VirGeneratedReason },
    SpanOutsideFunction { location: VirLocation, function_span: ByteSpan, found: ByteSpan },
    SpanOutsideBlock { location: VirLocation, block_span: ByteSpan, found: ByteSpan },
    LocationSpanMismatch { location: VirLocation, expected: ByteSpan, found: ByteSpan },
    FunctionUsesMultipleSources(VirFunctionId),
    UnusedOrigin(VirOriginId),
    UnusedSource(VirSourceId),
}

/// Canonical source, origin and location tables for one VIR unit.
#[derive(Clone, Debug, Default, PartialEq, Eq)]
pub struct VirSourceMap {
    sources: Vec<VirSource>,
    origins: Vec<VirOrigin>,
    locations: Vec<VirLocationOrigin>,
}

/// `ids` is a parent chain in `map`: each origin but the last is generated
/// with the next as its parent, and the last is the user origin `source`,
/// `span`.
pub open spec fn user_chain(map: VirSourceMap, ids: Seq<VirOriginId>, source: VirSourceId, span: ByteSpan) -> bool {
    &&& ids.len() >= 1
    &&& forall|i: int| 0 <= i < ids.len() - 1 ==> (#[trigger] map.spec_origin(ids[i]) matches Some(o) && o.kind matches VirOriginKind::Generated {
        parent,
        ..
    } && parent == ids[i + 1])
    &&& map.spec_origin(ids.last()) matches Some(o) && o.kind == (VirOriginKind::User { source, span })
}

/// Following generated origins to their parents reaches the user span at the
/// end of the chain: every origin of a parent chain that fits the origin
/// table resolves to the span of the user origin the chain ends at.
pub proof fn lemma_resolution_follows_parents(map: VirSourceMap, ids: Seq<VirOriginId>, source: VirSourceId, span: ByteSpan)
    requires
        user_chain(map, ids, source, span),
        ids.len() <= map.spec_origins().len(),
    ensures
        forall|i: int| 0 <= i < ids.len() ==> #[trigger] map.spec_resolve(ids[i], map.spec_origins().len()) == Some(
            VirSourceSpan { source, span },
        ),
{
    assert forall|i: int| 0 <= i < ids.len() implies #[trigger] map.spec_resolve(ids[i], map.spec_origins().len()) == Some(
        VirSourceSpan { source, span },
    ) by {
        lemma_chain_suffix_resolves(map, ids, source, span, i, map.spec_origins().len());
    }
}

/// Resolution only answers along a parent chain: an origin that resolves to
/// a span within `fuel` steps starts a chain of at most `fuel` origins that
/// ends at the user origin of that span.
pub proof fn lemma_resolution_has_chain(map: VirSourceMap, id: VirOriginId, fuel: nat) -> (ids: Seq<VirOriginId>)
    requires
        map.spec_resolve(id, fuel) is Some,
    ensures
        ids.len() <= fuel,
        ids[0] == id,
        user_chain(map, ids, map.spec_resolve(id, fuel)->0.source, map.spec_resolve(id, fuel)->0.span),
    decreases fuel,
{
    let origin = map.spec_origin(id)->0;
    match origin.kind {
        VirOriginKind::User { source, span } => seq![id],
        VirOriginKind::Generated { parent, .. } => {
            let rest = lemma_resolution_has_chain(map, parent, (fuel - 1) as nat);
            let ids = seq![id] + rest;
            assert(ids.last() == rest.last());
            assert forall|i: int| 0 <= i < ids.len() - 1 implies (#[trigger] map.spec_origin(ids[i]) matches Some(o)
                && o.kind matches VirOriginKind::Generated { parent, .. } && parent == ids[i + 1]) by {
                if i > 0 {
                    assert(ids[i] == rest[i - 1]);
                    assert(ids[i + 1] == rest[i]);
                    assert(map.spec_origin(rest[i - 1]) matches Some(o) && o.kind matches VirOriginKind::Generated { parent, .. }
                        && parent == rest[i]);
                }
            }
            ids
        },
    }
}

proof fn lemma_chain_suffix_resolves(map: VirSourceMap, ids: Seq<VirOriginId>, source: VirSourceId, span: ByteSpan, i: int, fuel: nat)
    requires
        user_chain(map, ids, source, span),
        0 <= i < ids.len(),
        ids.len() - i <= fuel,
    ensures
        map.spec_resolve(ids[i], fuel) == Some(VirSourceSpan { source, span }),
    decreases ids.len() - i,
{
    if i < ids.len() - 1 {
        assert(map.spec_origin(ids[i]) matches Some(o) && o.kind matches VirOriginKind::Generated { parent, .. } && parent == ids[i + 1]);
        lemma_chain_suffix_resolves(map, ids, source, span, i + 1, (fuel - 1) as nat);
    }
}

impl VirSourceMap {
    pub closed spec fn spec_sources(&self) -> Seq<VirSource> {
        self.sources@
    }

    pub closed spec fn spec_origins(&self) -> Seq<VirOrigin> {
        self.origins@
    }

    pub closed spec fn spec_locations(&self) -> Seq<VirLocationOrigin> {
        self.locations@
    }

    pub open spec fn spec_source(&self, id: VirSourceId) -> Option<VirSource> {
        if id.0 < self.spec_sources().len() && self.spec_sources()[id.0 as int].id == id {
            Some(self.spec_sources()[id.0 as int])
        } else {
            None
        }
    }

    pub open spec fn spec_origin(&self, id: VirOriginId) -> Option<VirOrigin> {
        if id.0 < self.spec_origins().len() && self.spec_origins()[id.0 as int].id == id {
            Some(self.spec_origins()[id.0 as int])
        } else {
            None
        }
    }

    /// The user span reached from origin `id` within `fuel` parent steps.
    pub open spec fn spec_resolve(&self, id: VirOriginId, fuel: nat) -> Option<VirSourceSpan>
        decreases fuel,
    {
        if fuel == 0 {
            None
        } else {
            match self.spec_origin(id) {
                None => None,
                Some(origin) => match origin.kind {
                    VirOriginKind::User { source, span } => Some(VirSourceSpan { source, span }),
                    VirOriginKind::Generated { parent, .. } => self.spec_resolve(parent, (fuel - 1) as nat),
                },
            }
        }
    }

    /// Index of the first location entry for `location`.
    pub open spec fn first_location_index(&self, location: VirLocation, i: int) -> bool {
        &&& 0 <= i < self.spec_locations().len()
        &&& self.spec_locations()[i].location == location
        &&& forall|j: int| 0 <= j < i ==> (#[trigger] self.spec_locations()[j]).location != location
    }

    pub fn empty() -> (r: Self)
        ensures
            r.spec_sources().len() == 0 && r.spec_origins().len() == 0 && r.spec_locations().len() == 0,
    {
        VirSourceMap { sources: Vec::new(), origins: Vec::new(), locations: Vec::new() }
    }

    /// Constructs raw source-map tables. Unit validation remains responsible
    /// for all density, coverage, origin and span invariants.
    pub fn from_tables(sources: Vec<VirSource>, origins: Vec<VirOrigin>, locations: Vec<VirLocationOrigin>) -> (r: Self)
        ensures
            r.spec_sources() == sources@ && r.spec_origins() == origins@ && r.spec_locations() == locations@,
    {
        VirSourceMap { sources, origins, locations }
    }

    pub fn sources(&self) -> (r: &[VirSource])
        ensures
            r@ == self.spec_sources(),
    {
        self.sources.as_slice()
    }

    pub fn origins(&self) -> (r: &[VirOrigin])
        ensures
            r@ == self.spec_origins(),
    {
        self.origins.as_slice()
    }

    pub fn locations(&self) -> (r: &[VirLocationOrigin])
        ensures
            r@ == self.spec_locations(),
    {
        self.locations.as_slice()
    }

    pub fn source(&self, id: VirSourceId) -> (r: Option<&VirSource>)
        ensures
            same_ref(r, self.spec_source(id)),
    {
        let index = id.0 as usize;
        if index < self.sources.len() && self.sources[index].id == id {
            Some(&self.sources[index])
        } else {
            None
        }
    }

    pub fn origin(&self, id: VirOriginId) -> (r: Option<&VirOrigin>)
        ensures
            same_ref(r, self.spec_origin(id)),
    {
        let index = id.0 as usize;
        if index < self.origins.len() && self.origins[index].id == id {
            Some(&self.origins[index])
        } else {
            None
        }
    }

    /// The origin recorded for `location`.
    pub fn origin_at(&self, location: VirLocation) -> (r: Option<&VirOrigin>)
        ensures
            match r {
                Some(o) => exists|i: int| self.first_location_index(location, i)
                    && self.spec_origin(self.spec_locations()[i].origin) == Some(*o),
                None => (forall|j: int| 0 <= j < self.spec_locations().len() ==> (#[trigger] self.spec_locations()[j]).location != location)
                    || exists|i: int| self.first_location_index(location, i) && self.spec_origin(self.spec_locations()[i].origin) is None,
            },
    {
        let mut i: usize = 0;
        while i < self.locations.len()
            invariant
                0 <= i <= self.locations@.len(),
                forall|j: int| 0 <= j < i ==> (#[trigger] self.locations@[j]).location != location,
            decreases self.locations.len() - i,
        {
            if self.locations[i].location == location {
                let r = self.origin(self.locations[i].origin);
                proof {
                    assert(self.first_location_index(location, i as int));
                }
                return r;
            }
            i = i + 1;
        }
        None
    }

    /// Follows generated origins to their user span, at most once per origin.
    fn resolve_origin(&self, id: VirOriginId) -> (r: Option<VirSourceSpan>)
        ensures
            r == self.spec_resolve(id, self.spec_origins().len()),
    {
        let mut current = id;
        let mut steps: usize = 0;
        let n = self.origins.len();
        while steps < n
            invariant
                0 <= steps <= n,
                n == self.spec_origins().len(),
                self.spec_resolve(id, n as nat) == self.spec_resolve(current, (n - steps) as nat),
            decreases n - steps,
        {
            let origin = match self.origin(current) {
                Some(o) => o,
                None => return None,
            };
            match origin.kind {
                VirOriginKind::User { source, span } => {
                    return Some(VirSourceSpan { source, span });
                },
                VirOriginKind::Generated { parent, .. } => {
                    current = parent;
                },
            }
            steps = steps + 1;
        }
        None
    }

    /// The user span of the origin recorded for `location`.
    pub fn source_span(&self, location: VirLocation) -> (r: Option<VirSourceSpan>)
        ensures
            r matches Some(s) ==> exists|i: int| self.first_location_index(location, i)
                && self.spec_resolve(self.spec_locations()[i].origin, self.spec_origins().len()) == Some(s),
            forall|i: int| #[trigger] self.first_location_index(location, i) ==> r == match self.spec_origin(
                self.spec_locations()[i].origin,
            ) {
                Some(o) => self.spec_resolve(o.id, self.spec_origins().len()),
                None => None,
            },
            (forall|j: int| 0 <= j < self.spec_locations().len() ==> (#[trigger] self.spec_locations()[j]).location != location)
                ==> r is None,
    {
        let origin = match self.origin_at(location) {
            Some(o) => o,
            None => return None,
        };
        self.resolve_origin(origin.id)
    }

    /// Resolves an origin-table entry without requiring a runtime location.
    pub fn source_span_for_origin(&self, origin: VirOriginId) -> (r: Option<VirSourceSpan>)
        ensures
            r == self.spec_resolve(origin, self.spec_origins().len()),
    {
        self.resolve_origin(origin)
    }

    /// Finds the canonical user origin assigned to an exact source span.
    pub fn user_origin(&self, source: VirSourceId, span: ByteSpan) -> (r: Option<VirOriginId>)
        ensures
            match r {
                Some(id) => exists|i: int| 0 <= i < self.spec_origins().len() && (#[trigger] self.spec_origins()[i]).id == id
                    && self.spec_origins()[i].kind == (VirOriginKind::User { source, span }),
                None => forall|i: int| 0 <= i < self.spec_origins().len() ==> (#[trigger] self.spec_origins()[i]).kind != (VirOriginKind::User { source, span }),
            },
    {
        let mut i: usize = 0;
        while i < self.origins.len()
            invariant
                0 <= i <= self.origins@.len(),
                forall|j: int| 0 <= j < i ==> (#[trigger] self.origins@[j]).kind != (VirOriginKind::User { source, span }),
            decreases self.origins.len() - i,
        {
            match self.origins[i].kind {
                VirOriginKind::User { source: candidate, span: candidate_span } => {
                    if candidate == source && candidate_span == span {
                        return Some(self.origins[i].id);
                    }
                },
                VirOriginKind::Generated { .. } => {},
            }
            i = i + 1;
        }
        None
    }

    /// Source table invariant: non-empty, dense and with distinct names.
    pub open spec fn sources_valid(&self) -> bool {
        &&& self.spec_sources().len() > 0
        &&& forall|i: int| 0 <= i < self.spec_sources().len() ==> (#[trigger] self.spec_sources()[i]).id.0 == i
        &&& forall|i: int, j: int| 0 <= i < j < self.spec_sources().len() ==> (#[trigger] self.spec_sources()[i]).name@ != (#[trigger] self.spec_sources()[j]).name@
    }

    /// Checks that the source table is non-empty, dense and free of duplicate names.
    pub fn validate_sources(&self) -> (r: Result<(), VirSourceMapErrorKind>)
        ensures
            r is Ok <==> self.sources_valid(),
            self.spec_sources().len() == 0 ==> r == Err::<(), VirSourceMapErrorKind>(VirSourceMapErrorKind::EmptySourceTable),
    {
        if self.sources.len() == 0 {
            return Err(VirSourceMapErrorKind::EmptySourceTable);
        }
        let mut i: usize = 0;
        while i < self.sources.len()
            invariant
                0 <= i <= self.sources@.len(),
                self.sources@.len() > 0,
                forall|k: int| 0 <= k < i ==> (#[trigger] self.sources@[k]).id.0 == k,
                forall|a: int, b: int| 0 <= a < b < i ==> (#[trigger] self.sources@[a]).name@ != (#[trigger] self.sources@[b]).name@,
            decreases self.sources.len() - i,
        {
            let source = &self.sources[i];
            if source.id.0 as usize != i {
                return Err(VirSourceMapErrorKind::NonDenseSourceId { expected: VirSourceId(i as u32), found: source.id });
            }
            let mut k: usize = 0;
            while k < i
                invariant
                    0 <= k <= i < self.sources@.len(),
                    *source == self.sources@[i as int],
                    forall|a: int| 0 <= a < k ==> (#[trigger] self.sources@[a]).name@ != self.sources@[i as int].name@,
                decreases i - k,
            {
                let same = self.sources[k].name == source.name;
                if same {
                    proof {
                        assert(self.sources@[k as int].name@ == self.sources@[i as int].name@);
                        assert(!self.sources_valid());
                    }
                    return Err(VirSourceMapErrorKind::DuplicateSourceName(source.name.clone()));
                }
                assert(self.sources@[k as int].name@ != self.sources@[i as int].name@);
                k = k + 1;
            }
            i = i + 1;
        }
        Ok(())
    }
}

/// Three-way comparison of two byte spans by start, then end.
fn compare_spans(a: ByteSpan, b: ByteSpan) -> (r: i8)
    ensures
        r == (if a.spec_start() < b.spec_start() || (a.spec_start() == b.spec_start() && a.spec_end() < b.spec_end()) {
            -1i8
        } else if a.spec_start() == b.spec_start() && a.spec_end() == b.spec_end() {
            0i8
        } else {
            1i8
        }),
{
    if a.start() < b.start() || (a.start() == b.start() && a.end() < b.end()) {
        -1
    } else if a.start() == b.start() && a.end() == b.end() {
        0
    } else {
        1
    }
}

/// Rank of a generated reason in its declared order.
pub open spec fn reason_rank(r: VirGeneratedReason) -> int {
    match r {
        VirGeneratedReason::ControlFlowBlock => 0,
        VirGeneratedReason::BlockParameter => 1,
        VirGeneratedReason::PermissionParameter => 2,
        VirGeneratedReason::ControlFlowEdge => 3,
        VirGeneratedReason::ImplicitReturn => 4,
        VirGeneratedReason::LoopIncrement => 5,
        VirGeneratedReason::TemporaryStorage => 6,
        VirGeneratedReason::ImplicitCopy => 7,
        VirGeneratedReason::ImplicitMove => 8,
        VirGeneratedReason::ImplicitDrop => 9,
        VirGeneratedReason::ScopeCleanup => 10,
        VirGeneratedReason::BranchCleanup => 11,
        VirGeneratedReason::CallTransfer => 12,
        VirGeneratedReason::ReturnTransfer => 13,
        VirGeneratedReason::LoanEffect => 14,
    }
}

fn reason_rank_exec(r: VirGeneratedReason) -> (v: u8)
    ensures
        v == reason_rank(r),
{
    match r {
        VirGeneratedReason::ControlFlowBlock => 0,
        VirGeneratedReason::BlockParameter => 1,
        VirGeneratedReason::PermissionParameter => 2,
        VirGeneratedReason::ControlFlowEdge => 3,
        VirGeneratedReason::ImplicitReturn => 4,
        VirGeneratedReason::LoopIncrement => 5,
        VirGeneratedReason::TemporaryStorage => 6,
        VirGeneratedReason::ImplicitCopy => 7,
        VirGeneratedReason::ImplicitMove => 8,
        VirGeneratedReason::ImplicitDrop => 9,
        VirGeneratedReason::ScopeCleanup => 10,
        VirGeneratedReason::BranchCleanup => 11,
        VirGeneratedReason::CallTransfer => 12,
        VirGeneratedReason::ReturnTransfer => 13,
        VirGeneratedReason::LoanEffect => 14,
    }
}

/// `a` sorts strictly after `b` in canonical origin order: user origins by
/// source then span, before generated origins by parent then reason.
pub open spec fn origin_kind_after(a: VirOriginKind, b: VirOriginKind) -> bool {
    match (a, b) {
        (VirOriginKind::User { .. }, VirOriginKind::Generated { .. }) => false,
        (VirOriginKind::Generated { .. }, VirOriginKind::User { .. }) => true,
        (VirOriginKind::User { source: sa, span: pa }, VirOriginKind::User { source: sb, span: pb }) =>
            sa.0 > sb.0 || (sa.0 == sb.0 && (pa.spec_start() > pb.spec_start() || (pa.spec_start() == pb.spec_start() && pa.spec_end() > pb.spec_end()))),
        (VirOriginKind::Generated { parent: xa, reason: ra }, VirOriginKind::Generated { parent: xb, reason: rb }) =>
            xa.0 > xb.0 || (xa.0 == xb.0 && reason_rank(ra) > reason_rank(rb)),
    }
}

fn origin_kind_after_exec(a: VirOriginKind, b: VirOriginKind) -> (r: bool)
    ensures
        r == origin_kind_after(a, b),
{
    match (a, b) {
        (VirOriginKind::User { .. }, VirOriginKind::Generated { .. }) => false,
        (VirOriginKind::Generated { .. }, VirOriginKind::User { .. }) => true,
        (VirOriginKind::User { source: sa, span: pa }, VirOriginKind::User { source: sb, span: pb }) => {
            if sa.0 != sb.0 {
                sa.0 > sb.0
            } else {
                compare_spans(pa, pb) > 0
            }
        },
        (VirOriginKind::Generated { parent: xa, reason: ra }, VirOriginKind::Generated { parent: xb, reason: rb }) => {
            if xa.0 != xb.0 {
                xa.0 > xb.0
            } else {
                reason_rank_exec(ra) > reason_rank_exec(rb)
            }
        },
    }
}

impl VirSourceMap {
    /// The fault of origin `index` given the earlier ones, if any, in the
    /// order the origin checks apply.
    pub open spec fn origin_fault(&self, version: VirUnitVersion, index: int) -> Option<VirSourceMapErrorKind> {
        let origin = self.spec_origins()[index];
        if origin.id.0 != index {
            Some(VirSourceMapErrorKind::NonDenseOriginId { expected: VirOriginId(index as u32), found: origin.id })
        } else if exists|j: int| #![trigger self.spec_origins()[j]] 0 <= j < index && self.spec_origins()[j].kind == origin.kind {
            Some(VirSourceMapErrorKind::DuplicateOrigin(origin.kind))
        } else if index > 0 && origin_kind_after(self.spec_origins()[index - 1].kind, origin.kind) {
            Some(VirSourceMapErrorKind::NonCanonicalOriginOrder)
        } else {
            match origin.kind {
                VirOriginKind::User { source, span } => match self.spec_source(source) {
                    None => Some(VirSourceMapErrorKind::UnknownSource(source)),
                    Some(s) => if span.spec_end() > s.byte_len {
                        Some(VirSourceMapErrorKind::SpanOutsideSource { source: s.id, span, source_len: s.byte_len })
                    } else {
                        None
                    },
                },
                VirOriginKind::Generated { parent, reason } => if parent.0 >= index {
                    Some(VirSourceMapErrorKind::GeneratedParentNotEarlier { origin: origin.id, parent })
                } else {
                    match self.spec_resolve(parent, self.spec_origins().len()) {
                        None => Some(VirSourceMapErrorKind::UnknownOrigin(parent)),
                        Some(p) => if p.span.spec_start() == p.span.spec_end() {
                            Some(VirSourceMapErrorKind::GeneratedFromEmptySpan(origin.id))
                        } else if reason == VirGeneratedReason::LoanEffect && spec_before_v6(version) {
                            Some(VirSourceMapErrorKind::GeneratedReasonRequiresV6 { origin: origin.id, reason })
                        } else if version == VirUnitVersion::V1 && reason.spec_requires_v2() {
                            Some(VirSourceMapErrorKind::GeneratedReasonRequiresV2 { origin: origin.id, reason })
                        } else {
                            None
                        },
                    }
                },
            }
        }
    }

    /// Checks the origin table: non-empty, dense, duplicate-free, canonically
    /// ordered, with known sources, in-source spans, earlier non-empty
    /// parents and reasons the format revision admits.
    pub fn validate_origins(&self, version: VirUnitVersion) -> (r: Result<(), VirSourceMapErrorKind>)
        ensures
            self.spec_origins().len() == 0 ==> r == Err::<(), VirSourceMapErrorKind>(VirSourceMapErrorKind::EmptyOriginTable),
            r is Ok <==> (self.spec_origins().len() > 0 && forall|i: int| 0 <= i < self.spec_origins().len() ==> (#[trigger] self.origin_fault(version, i)) is None),
            match r {
                Err(k) => self.spec_origins().len() > 0 ==> exists|i: int| 0 <= i < self.spec_origins().len() && self.origin_fault(version, i) == Some(k)
                    && forall|j: int| 0 <= j < i ==> (#[trigger] self.origin_fault(version, j)) is None,
                Ok(_) => true,
            },
    {
        if self.origins.len() == 0 {
            return Err(VirSourceMapErrorKind::EmptyOriginTable);
        }
        let mut i: usize = 0;
        while i < self.origins.len()
            invariant
                0 <= i <= self.origins@.len(),
                self.origins@.len() > 0,
                forall|j: int| 0 <= j < i ==> (#[trigger] self.origin_fault(version, j)) is None,
            decreases self.origins.len() - i,
        {
            let origin = self.origins[i];
            if origin.id.0 as usize != i {
                let k = VirSourceMapErrorKind::NonDenseOriginId { expected: VirOriginId(i as u32), found: origin.id };
                proof {
                    assert(self.origin_fault(version, i as int) == Some(k));
                }
                return Err(k);
            }
            let mut d: usize = 0;
            while d < i
                invariant
                    0 <= d <= i < self.origins@.len(),
                    origin == self.origins@[i as int],
                    origin.id.0 == i,
                    forall|j: int| 0 <= j < i ==> (#[trigger] self.origin_fault(version, j)) is None,
                    forall|j: int| 0 <= j < d ==> (#[trigger] self.origins@[j]).kind != origin.kind,
                decreases i - d,
            {
                if self.origins[d].kind == origin.kind {
                    let k = VirSourceMapErrorKind::DuplicateOrigin(origin.kind);
                    proof {
                        assert(self.spec_origins()[d as int].kind == origin.kind);
                        assert(self.origin_fault(version, i as int) == Some(k));
                    }
                    return Err(k);
                }
                d = d + 1;
            }
            proof {
                assert(!exists|j: int| #![trigger self.spec_origins()[j]] 0 <= j < i && self.spec_origins()[j].kind == origin.kind);
            }
            if i > 0 && origin_kind_after_exec(self.origins[i - 1].kind, origin.kind) {
                proof {
                    assert(self.origin_fault(version, i as int) == Some(VirSourceMapErrorKind::NonCanonicalOriginOrder));
                }
                return Err(VirSourceMapErrorKind::NonCanonicalOriginOrder);
            }
            match origin.kind {
                VirOriginKind::User { source, span } => {
                    match self.source(source) {
                        None => {
                            proof {
                                assert(self.origin_fault(version, i as int) == Some(VirSourceMapErrorKind::UnknownSource(source)));
                            }
                            return Err(VirSourceMapErrorKind::UnknownSource(source));
                        },
                        Some(s) => {
                            if span.end() > s.byte_len {
                                let k = VirSourceMapErrorKind::SpanOutsideSource { source: s.id, span, source_len: s.byte_len };
                                proof {
                                    assert(self.origin_fault(version, i as int) == Some(k));
                                }
                                return Err(k);
                            }
                        },
                    }
                },
                VirOriginKind::Generated { parent, reason } => {
                    if parent.0 as usize >= i {
                        let k = VirSourceMapErrorKind::GeneratedParentNotEarlier { origin: origin.id, parent };
                        proof {
                            assert(self.origin_fault(version, i as int) == Some(k));
                        }
                        return Err(k);
                    }
                    match self.resolve_origin(parent) {
                        None => {
                            proof {
                                assert(self.origin_fault(version, i as int) == Some(VirSourceMapErrorKind::UnknownOrigin(parent)));
                            }
                            return Err(VirSourceMapErrorKind::UnknownOrigin(parent));
                        },
                        Some(p) => {
                            if p.span.is_empty() {
                                let k = VirSourceMapErrorKind::GeneratedFromEmptySpan(origin.id);
                                proof {
                                    assert(self.origin_fault(version, i as int) == Some(k));
                                }
                                return Err(k);
                            }
                            if reason == VirGeneratedReason::LoanEffect && version_before_v6(version) {
                                let k = VirSourceMapErrorKind::GeneratedReasonRequiresV6 { origin: origin.id, reason };
                                proof {
                                    assert(self.origin_fault(version, i as int) == Some(k));
                                }
                                return Err(k);
                            }
                            if version == VirUnitVersion::V1 && reason.requires_v2() {
                                let k = VirSourceMapErrorKind::GeneratedReasonRequiresV2 { origin: origin.id, reason };
                                proof {
                                    assert(self.origin_fault(version, i as int) == Some(k));
                                }
                                return Err(k);
                            }
                        },
                    }
                },
            }
            proof {
                assert(self.origin_fault(version, i as int) is None);
            }
            i = i + 1;
        }
        Ok(())
    }
}

/// Format revisions older than the sixth.
pub open spec fn spec_before_v6(version: VirUnitVersion) -> bool {
    version == VirUnitVersion::V1 || version == VirUnitVersion::V2 || version == VirUnitVersion::V3
        || version == VirUnitVersion::V4 || version == VirUnitVersion::V5
}

fn version_before_v6(version: VirUnitVersion) -> (r: bool)
    ensures
        r == spec_before_v6(version),
{
    matches!(version, VirUnitVersion::V1 | VirUnitVersion::V2 | VirUnitVersion::V3 | VirUnitVersion::V4 | VirUnitVersion::V5)
}

} // verus!
